//! Payment operations. A payment carries no access list of its own: every
//! read and write runs the owning group through the membership guard.

use crate::entities::Amount;
use crate::entities::AmountView;
use crate::entities::AuthState;
use crate::entities::AuthView;
use crate::entities::GroupID;
use crate::entities::Payment;
use crate::entities::PaymentID;
use crate::entities::PaymentView;
use crate::entities::UserID;
use crate::entities::Warikan;
use crate::entities::WarikanView;
use crate::entities::warikan::payments_abs;
use crate::entities::warikan::spec_warikan;
use crate::entities::warikan::warikan;
use crate::repositories::find_by_key;
use crate::repositories::keyed::lemma_remove_by_key;
use crate::repositories::keyed::lemma_replace_contains;
use crate::repositories::keyed::lemma_upsert_contains;
use crate::repositories::payments_of_group;
use crate::repositories::remove_by_key;
use crate::repositories::replace_by_key;
use crate::repositories::upsert_by_key;
use crate::repositories::with_payments;
use crate::usecases::generate_id;
use crate::usecases::group::spec_get_group;
use crate::usecases::result_dv;
use crate::usecases::spec_tick;
use crate::usecases::UseCase;
use crate::usecases::UseCaseError;
use crate::usecases::UseCaseView;
use vstd::prelude::*;

verus! {

/// Input of [`UseCase::create_payment`].
#[derive(Debug)]
pub struct CreatePaymentInput {
    pub title: String,
    pub group: GroupID,
}

/// A creditor or debtor share handed in by a caller.
#[derive(Debug)]
pub struct AmountInput {
    pub user: UserID,
    pub amount: i32,
}

impl View for AmountInput {
    type V = AmountView;

    open spec fn view(&self) -> AmountView {
        AmountView { user: self.user@, amount: self.amount }
    }
}

impl DeepView for AmountInput {
    type V = AmountView;

    open spec fn deep_view(&self) -> AmountView {
        self@
    }
}

impl From<AmountInput> for Amount {
    fn from(input: AmountInput) -> (r: Amount) {
        Amount { user: input.user, amount: input.amount }
    }
}

impl vstd::std_specs::convert::FromSpecImpl<AmountInput> for Amount {
    open spec fn obeys_from_spec() -> bool {
        true
    }

    open spec fn from_spec(input: AmountInput) -> Amount {
        Amount { user: input.user, amount: input.amount }
    }
}

/// Input of [`UseCase::update_payment`]: an absent field keeps the stored
/// value; a present share list replaces the stored one wholesale.
#[derive(Debug)]
pub struct UpdatePaymentInput {
    pub id: PaymentID,
    pub title: Option<String>,
    pub creditors: Option<Vec<AmountInput>>,
    pub debtors: Option<Vec<AmountInput>>,
}

/// Input of [`UseCase::delete_payment`].
#[derive(Debug)]
pub struct DeletePaymentInput {
    pub id: PaymentID,
}

/// Converts caller shares into stored amounts, keeping their views.
pub fn amounts_from_inputs(inputs: &Vec<AmountInput>) -> (r: Vec<Amount>)
    ensures
        r.deep_view() == inputs.deep_view(),
{
    let ghost s = inputs.deep_view();
    let mut out: Vec<Amount> = Vec::new();
    let mut i: usize = 0;
    while i < inputs.len()
        invariant
            i <= inputs.len(),
            s == inputs.deep_view(),
            out@.len() == i,
            out.deep_view() =~~= s.take(i as int),
        decreases inputs.len() - i,
    {
        let x = Amount { user: inputs[i].user.clone(), amount: inputs[i].amount };
        proof {
            assert(x.deep_view() == s[i as int]);
        }
        out.push(x);
        proof {
            assert(out.deep_view() =~~= s.take(i as int + 1));
        }
        i = i + 1;
    }
    proof {
        assert(out.deep_view() =~~= s);
    }
    out
}

/// Outcome of a payment read under the transitive guard: the payment's own
/// existence is checked first, then its owning group's membership.
pub open spec fn spec_get_payment(pre: UseCaseView, auth: AuthView, id: Seq<char>) -> Result<
    Option<PaymentView>,
    UseCaseError,
> {
    match auth {
        AuthView::Unauthorized => Result::Err(UseCaseError::Unauthorized),
        AuthView::Authorized(c) => if pre.store.faults.get_payment {
            Result::Err(UseCaseError::InternalServerError)
        } else {
            match find_by_key(pre.store.payments, id) {
                Option::None => Result::Err(UseCaseError::NotFound),
                Option::Some(p) => match spec_get_group(pre, auth, p.group) {
                    Result::Err(e) => Result::Err(e),
                    Result::Ok(_) => Result::Ok(Some(p)),
                },
            }
        },
    }
}

/// Outcome of listing a group's payments: the membership guard runs on the
/// group, then the scoped payments are returned in storage order.
pub open spec fn spec_get_payments_by_group(
    pre: UseCaseView,
    auth: AuthView,
    group: Seq<char>,
) -> Result<Seq<PaymentView>, UseCaseError> {
    match spec_get_group(pre, auth, group) {
        Result::Err(e) => Result::Err(e),
        Result::Ok(None) => Result::Err(UseCaseError::NotFound),
        Result::Ok(Some(_)) => if pre.store.faults.get_payments_by_group {
            Result::Err(UseCaseError::InternalServerError)
        } else {
            Result::Ok(payments_of_group(pre.store.payments, group))
        },
    }
}

/// Outcome and post-state of payment creation: the membership guard runs
/// on the target group; the payment starts with empty share lists and both
/// timestamps taken from the clock.
pub open spec fn spec_create_payment(
    pre: UseCaseView,
    auth: AuthView,
    title: Seq<char>,
    group: Seq<char>,
    id: Seq<char>,
) -> (UseCaseView, Result<PaymentView, UseCaseError>) {
    match spec_get_group(pre, auth, group) {
        Result::Err(e) => (pre, Result::Err(e)),
        Result::Ok(None) => (pre, Result::Err(UseCaseError::NotFound)),
        Result::Ok(Some(_)) => {
            let ticked = UseCaseView { store: pre.store, clock: spec_tick(pre.clock) };
            if pre.store.faults.create_payment {
                (ticked, Result::Err(UseCaseError::InternalServerError))
            } else {
                let p = PaymentView {
                    id,
                    created_at: pre.clock,
                    updated_at: pre.clock,
                    title,
                    creditors: Seq::empty(),
                    debtors: Seq::empty(),
                    group,
                };
                (
                    UseCaseView {
                        store: with_payments(pre.store, upsert_by_key(pre.store.payments, p)),
                        clock: spec_tick(pre.clock),
                    },
                    Result::Ok(p),
                )
            }
        },
    }
}

/// Outcome and post-state of a payment patch: the transitive guard runs
/// first; an absent field keeps the stored value, a present share list
/// replaces the stored one wholesale, and `updated_at` becomes the clock
/// value.
pub open spec fn spec_update_payment(
    pre: UseCaseView,
    auth: AuthView,
    id: Seq<char>,
    title: Option<Seq<char>>,
    creditors: Option<Seq<AmountView>>,
    debtors: Option<Seq<AmountView>>,
) -> (UseCaseView, Result<PaymentView, UseCaseError>) {
    match spec_get_payment(pre, auth, id) {
        Result::Err(e) => (pre, Result::Err(e)),
        Result::Ok(None) => (pre, Result::Err(UseCaseError::NotFound)),
        Result::Ok(Some(p)) => {
            let ticked = UseCaseView { store: pre.store, clock: spec_tick(pre.clock) };
            if pre.store.faults.update_payment {
                (ticked, Result::Err(UseCaseError::InternalServerError))
            } else {
                let p2 = PaymentView {
                    id,
                    created_at: p.created_at,
                    updated_at: pre.clock,
                    title: match title {
                        Option::Some(t) => t,
                        Option::None => p.title,
                    },
                    creditors: match creditors {
                        Option::Some(cs) => cs,
                        Option::None => p.creditors,
                    },
                    debtors: match debtors {
                        Option::Some(ds) => ds,
                        Option::None => p.debtors,
                    },
                    group: p.group,
                };
                (
                    UseCaseView {
                        store: with_payments(pre.store, replace_by_key(pre.store.payments, p2)),
                        clock: spec_tick(pre.clock),
                    },
                    Result::Ok(p2),
                )
            }
        },
    }
}

/// Outcome and post-state of a payment deletion under the transitive
/// guard.
pub open spec fn spec_delete_payment(pre: UseCaseView, auth: AuthView, id: Seq<char>) -> (
    UseCaseView,
    Result<Seq<char>, UseCaseError>,
) {
    match spec_get_payment(pre, auth, id) {
        Result::Err(e) => (pre, Result::Err(e)),
        Result::Ok(None) => (pre, Result::Err(UseCaseError::NotFound)),
        Result::Ok(Some(p)) => if pre.store.faults.delete_payment {
            (pre, Result::Err(UseCaseError::InternalServerError))
        } else {
            (
                UseCaseView {
                    store: with_payments(pre.store, remove_by_key(pre.store.payments, p.id)),
                    clock: pre.clock,
                },
                Result::Ok(p.id),
            )
        },
    }
}

/// Outcome of settling a group: the membership guard runs on the group,
/// then the settlement engine reduces its payments to a transfer list.
pub open spec fn spec_warikan_by_group(pre: UseCaseView, auth: AuthView, group: Seq<char>) -> Result<
    Seq<WarikanView>,
    UseCaseError,
> {
    match spec_get_payments_by_group(pre, auth, group) {
        Result::Err(e) => Result::Err(e),
        Result::Ok(ps) => match spec_warikan(ps) {
            Option::Some(ws) => Result::Ok(ws),
            Option::None => Result::Err(UseCaseError::BadRequest),
        },
    }
}

impl UseCase {
    /// Settles a group's payments into a transfer list, under the
    /// membership guard. The magnitude bound keeps every balance and
    /// transfer within the amount type, as the engine requires.
    pub fn warikan_by_group(&self, auth: &AuthState, id: &GroupID) -> (r: Result<
        Vec<Warikan>,
        UseCaseError,
    >)
        requires
            (spec_get_payments_by_group(self@, auth@, id@) matches Result::Ok(ps) ==> payments_abs(
                ps,
            ) <= i32::MAX as int),
        ensures
            result_dv(r) == spec_warikan_by_group(self@, auth@, id@),
    {
        let payments = match self.get_payments_by_group(auth, id) {
            Err(e) => {
                return Err(e);
            },
            Ok(ps) => ps,
        };
        match warikan(&payments) {
            Some(ws) => Ok(ws),
            None => Err(UseCaseError::BadRequest),
        }
    }

    /// Reads a payment under the transitive guard: the payment must exist
    /// and the caller must be a participant of its owning group.
    pub fn get_payment(&self, auth: &AuthState, id: &PaymentID) -> (r: Result<
        Option<Payment>,
        UseCaseError,
    >)
        ensures
            result_dv(r) == spec_get_payment(self@, auth@, id@),
    {
        match auth {
            AuthState::Unauthorized => Err(UseCaseError::Unauthorized),
            AuthState::Authorized(_) => {
                let found = match self.store.get_payment(id) {
                    Err(_) => {
                        return Err(UseCaseError::InternalServerError);
                    },
                    Ok(f) => f,
                };
                match found {
                    None => Err(UseCaseError::NotFound),
                    Some(p) => match self.get_group(auth, &p.group) {
                        Err(e) => Err(e),
                        Ok(_) => Ok(Some(p)),
                    },
                }
            },
        }
    }

    /// Lists a group's payments under the membership guard, in storage
    /// order.
    pub fn get_payments_by_group(&self, auth: &AuthState, id: &GroupID) -> (r: Result<
        Vec<Payment>,
        UseCaseError,
    >)
        ensures
            result_dv(r) == spec_get_payments_by_group(self@, auth@, id@),
    {
        match self.get_group(auth, id) {
            Err(e) => {
                return Err(e);
            },
            Ok(None) => {
                return Err(UseCaseError::NotFound);
            },
            Ok(Some(_)) => {},
        }
        match self.store.get_payments_by_group(id) {
            Err(_) => Err(UseCaseError::InternalServerError),
            Ok(ps) => Ok(ps),
        }
    }

    /// Creates a payment in a group under the membership guard: a fresh
    /// identifier, empty share lists, and both timestamps from the clock.
    pub fn create_payment(&mut self, auth: &AuthState, input: CreatePaymentInput) -> (r: Result<
        Payment,
        UseCaseError,
    >)
        requires
            old(self).wf(),
        ensures
            final(self).wf(),
            ({
                let id = (match r {
                    Result::Ok(p) => p@.id,
                    Result::Err(_) => Seq::<char>::empty(),
                });
                let outcome = spec_create_payment(
                    old(self)@,
                    auth@,
                    input.title@,
                    input.group@,
                    id,
                );
                final(self)@ == outcome.0 && result_dv(r) == outcome.1
            }),
            (r matches Result::Ok(p) ==> p@.id.len() == 21),
    {
        match self.get_group(auth, &input.group) {
            Err(e) => {
                return Err(e);
            },
            Ok(None) => {
                return Err(UseCaseError::NotFound);
            },
            Ok(Some(_)) => {},
        }
        let now = self.stamp();
        let payment = Payment {
            id: PaymentID(generate_id()),
            created_at: now,
            updated_at: now,
            title: input.title,
            creditors: Vec::new(),
            debtors: Vec::new(),
            group: input.group,
        };
        let ghost pv = payment@;
        proof {
            assert(pv.creditors =~~= Seq::<AmountView>::empty());
            assert(pv.debtors =~~= Seq::<AmountView>::empty());
        }
        match self.store.create_payment(payment) {
            Ok(p) => {
                proof {
                    lemma_upsert_contains(old(self)@.store.payments, pv);
                    assert(self@ =~~= spec_create_payment(
                        old(self)@,
                        auth@,
                        pv.title,
                        pv.group,
                        pv.id,
                    ).0);
                }
                Ok(p)
            },
            Err(_) => Err(UseCaseError::InternalServerError),
        }
    }

    /// Patches a payment under the transitive guard: absent fields keep the
    /// stored values, present share lists replace the stored ones
    /// wholesale, and `updated_at` advances to the clock value.
    pub fn update_payment(&mut self, auth: &AuthState, input: UpdatePaymentInput) -> (r: Result<
        Payment,
        UseCaseError,
    >)
        requires
            old(self).wf(),
        ensures
            final(self).wf(),
            final(self)@ == spec_update_payment(
                old(self)@,
                auth@,
                input.id@,
                input.title.deep_view(),
                input.creditors.deep_view(),
                input.debtors.deep_view(),
            ).0,
            result_dv(r) == spec_update_payment(
                old(self)@,
                auth@,
                input.id@,
                input.title.deep_view(),
                input.creditors.deep_view(),
                input.debtors.deep_view(),
            ).1,
    {
        let stored = match self.get_payment(auth, &input.id) {
            Err(e) => {
                return Err(e);
            },
            Ok(None) => {
                return Err(UseCaseError::NotFound);
            },
            Ok(Some(p)) => p,
        };
        let now = self.stamp();
        let ghost titlev = input.title.deep_view();
        let ghost creditorsv = input.creditors.deep_view();
        let ghost debtorsv = input.debtors.deep_view();
        let payment = Payment {
            id: input.id,
            created_at: stored.created_at,
            updated_at: now,
            title: match input.title {
                Some(t) => t,
                None => stored.title,
            },
            creditors: match input.creditors {
                Some(cs) => amounts_from_inputs(&cs),
                None => stored.creditors,
            },
            debtors: match input.debtors {
                Some(ds) => amounts_from_inputs(&ds),
                None => stored.debtors,
            },
            group: stored.group,
        };
        let ghost pv = payment@;
        match self.store.update_payment(payment) {
            Ok(p) => {
                proof {
                    lemma_replace_contains(old(self)@.store.payments, pv);
                    assert(self@ =~~= spec_update_payment(
                        old(self)@,
                        auth@,
                        pv.id,
                        titlev,
                        creditorsv,
                        debtorsv,
                    ).0);
                }
                Ok(p)
            },
            Err(_) => Err(UseCaseError::InternalServerError),
        }
    }

    /// Deletes a payment under the transitive guard.
    pub fn delete_payment(&mut self, auth: &AuthState, input: DeletePaymentInput) -> (r: Result<
        PaymentID,
        UseCaseError,
    >)
        requires
            old(self).wf(),
        ensures
            final(self).wf(),
            final(self)@ == spec_delete_payment(old(self)@, auth@, input.id@).0,
            result_dv(r) == spec_delete_payment(old(self)@, auth@, input.id@).1,
    {
        let stored = match self.get_payment(auth, &input.id) {
            Err(e) => {
                return Err(e);
            },
            Ok(None) => {
                return Err(UseCaseError::NotFound);
            },
            Ok(Some(p)) => p,
        };
        match self.store.delete_payment(&stored.id) {
            Ok(_) => {
                proof {
                    lemma_remove_by_key(old(self)@.store.payments, stored.id@);
                    assert(self@ =~~= spec_delete_payment(old(self)@, auth@, input.id@).0);
                }
                Ok(stored.id)
            },
            Err(_) => Err(UseCaseError::InternalServerError),
        }
    }
}

} // verus!
