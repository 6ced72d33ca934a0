use vstd::prelude::*;

verus! {

/// Identifier of a user. It equals the authenticated subject string of the
/// caller that created the user.
#[derive(Debug)]
pub struct UserID(pub String);

impl View for UserID {
    type V = Seq<char>;

    open spec fn view(&self) -> Seq<char> {
        self.0@
    }
}

impl DeepView for UserID {
    type V = Seq<char>;

    open spec fn deep_view(&self) -> Seq<char> {
        self.0@
    }
}

impl UserID {
    pub fn new(id: &str) -> (r: UserID)
        ensures
            r@ == id@,
    {
        UserID(id.to_owned())
    }
}

impl Clone for UserID {
    fn clone(&self) -> (r: UserID)
        ensures
            r@ == self@,
    {
        UserID(self.0.clone())
    }
}

impl PartialEq for UserID {
    fn eq(&self, other: &UserID) -> (r: bool) {
        self.0 == other.0
    }
}

impl Eq for UserID {}

impl vstd::std_specs::cmp::PartialEqSpecImpl for UserID {
    open spec fn obeys_eq_spec() -> bool {
        true
    }

    open spec fn eq_spec(&self, other: &UserID) -> bool {
        self@ == other@
    }
}

/// Mathematical view of a [`User`].
#[verifier::ext_equal]
pub struct UserView {
    pub id: Seq<char>,
    pub created_at: u64,
    pub updated_at: u64,
    pub name: Seq<char>,
}

/// A user record: the identifier doubles as the owning subject, and only
/// that subject may create, update or delete the record.
#[derive(Debug)]
pub struct User {
    pub id: UserID,
    pub created_at: u64,
    pub updated_at: u64,
    pub name: String,
}

impl View for User {
    type V = UserView;

    open spec fn view(&self) -> UserView {
        UserView {
            id: self.id@,
            created_at: self.created_at,
            updated_at: self.updated_at,
            name: self.name@,
        }
    }
}

impl DeepView for User {
    type V = UserView;

    open spec fn deep_view(&self) -> UserView {
        self@
    }
}

impl Clone for User {
    fn clone(&self) -> (r: User)
        ensures
            r@ == self@,
    {
        User {
            id: self.id.clone(),
            created_at: self.created_at,
            updated_at: self.updated_at,
            name: self.name.clone(),
        }
    }
}

} // verus!

