use crate::entities::group::GroupID;
use crate::entities::user::UserID;
use vstd::prelude::*;

verus! {

/// Identifier of a payment.
#[derive(Debug)]
pub struct PaymentID(pub String);

impl View for PaymentID {
    type V = Seq<char>;

    open spec fn view(&self) -> Seq<char> {
        self.0@
    }
}

impl DeepView for PaymentID {
    type V = Seq<char>;

    open spec fn deep_view(&self) -> Seq<char> {
        self.0@
    }
}

impl PaymentID {
    pub fn new(id: &str) -> (r: PaymentID)
        ensures
            r@ == id@,
    {
        PaymentID(id.to_owned())
    }
}

impl Clone for PaymentID {
    fn clone(&self) -> (r: PaymentID)
        ensures
            r@ == self@,
    {
        PaymentID(self.0.clone())
    }
}

impl PartialEq for PaymentID {
    fn eq(&self, other: &PaymentID) -> (r: bool) {
        self.0 == other.0
    }
}

impl Eq for PaymentID {}

impl vstd::std_specs::cmp::PartialEqSpecImpl for PaymentID {
    open spec fn obeys_eq_spec() -> bool {
        true
    }

    open spec fn eq_spec(&self, other: &PaymentID) -> bool {
        self@ == other@
    }
}

/// Mathematical view of an [`Amount`].
#[verifier::ext_equal]
pub struct AmountView {
    pub user: Seq<char>,
    pub amount: i32,
}

/// A share of a payment: the user it concerns and a signed magnitude.
#[derive(Debug)]
pub struct Amount {
    pub user: UserID,
    pub amount: i32,
}

impl View for Amount {
    type V = AmountView;

    open spec fn view(&self) -> AmountView {
        AmountView { user: self.user@, amount: self.amount }
    }
}

impl DeepView for Amount {
    type V = AmountView;

    open spec fn deep_view(&self) -> AmountView {
        self@
    }
}

impl Clone for Amount {
    fn clone(&self) -> (r: Amount)
        ensures
            r@ == self@,
    {
        Amount { user: self.user.clone(), amount: self.amount }
    }
}

/// Mathematical view of a [`Payment`].
#[verifier::ext_equal]
pub struct PaymentView {
    pub id: Seq<char>,
    pub created_at: u64,
    pub updated_at: u64,
    pub title: Seq<char>,
    pub creditors: Seq<AmountView>,
    pub debtors: Seq<AmountView>,
    pub group: Seq<char>,
}

/// A payment logged in a group: amounts owed to users (creditors) and owed
/// by users (debtors). It carries no access list of its own; visibility
/// follows the owning group's membership.
#[derive(Debug)]
pub struct Payment {
    pub id: PaymentID,
    pub created_at: u64,
    pub updated_at: u64,
    pub title: String,
    pub creditors: Vec<Amount>,
    pub debtors: Vec<Amount>,
    pub group: GroupID,
}

impl View for Payment {
    type V = PaymentView;

    open spec fn view(&self) -> PaymentView {
        PaymentView {
            id: self.id@,
            created_at: self.created_at,
            updated_at: self.updated_at,
            title: self.title@,
            creditors: self.creditors.deep_view(),
            debtors: self.debtors.deep_view(),
            group: self.group@,
        }
    }
}

impl DeepView for Payment {
    type V = PaymentView;

    open spec fn deep_view(&self) -> PaymentView {
        self@
    }
}

impl Clone for Payment {
    fn clone(&self) -> (r: Payment)
        ensures
            r@ == self@,
    {
        Payment {
            id: self.id.clone(),
            created_at: self.created_at,
            updated_at: self.updated_at,
            title: self.title.clone(),
            creditors: clone_amounts(&self.creditors),
            debtors: clone_amounts(&self.debtors),
            group: self.group.clone(),
        }
    }
}

/// Clones a list of amounts, keeping its view.
pub fn clone_amounts(amounts: &Vec<Amount>) -> (r: Vec<Amount>)
    ensures
        r.deep_view() == amounts.deep_view(),
{
    let mut out: Vec<Amount> = Vec::new();
    let mut i: usize = 0;
    while i < amounts.len()
        invariant
            i <= amounts.len(),
            out@.len() == i,
            out.deep_view() =~~= amounts.deep_view().take(i as int),
        decreases amounts.len() - i,
    {
        let x = amounts[i].clone();
        proof {
            assert(x.deep_view() == amounts.deep_view()[i as int]);
        }
        out.push(x);
        proof {
            assert(out.deep_view() =~~= amounts.deep_view().take(i as int + 1));
        }
        i = i + 1;
    }
    assert(out.deep_view() =~~= amounts.deep_view());
    out
}

} // verus!
