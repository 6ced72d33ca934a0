use crate::entities::user::UserID;
use vstd::prelude::*;

verus! {

/// Identifier of a group.
#[derive(Debug)]
pub struct GroupID(pub String);

impl View for GroupID {
    type V = Seq<char>;

    open spec fn view(&self) -> Seq<char> {
        self.0@
    }
}

impl DeepView for GroupID {
    type V = Seq<char>;

    open spec fn deep_view(&self) -> Seq<char> {
        self.0@
    }
}

impl GroupID {
    pub fn new(id: &str) -> (r: GroupID)
        ensures
            r@ == id@,
    {
        GroupID(id.to_owned())
    }
}

impl Clone for GroupID {
    fn clone(&self) -> (r: GroupID)
        ensures
            r@ == self@,
    {
        GroupID(self.0.clone())
    }
}

impl PartialEq for GroupID {
    fn eq(&self, other: &GroupID) -> (r: bool) {
        self.0 == other.0
    }
}

impl Eq for GroupID {}

impl vstd::std_specs::cmp::PartialEqSpecImpl for GroupID {
    open spec fn obeys_eq_spec() -> bool {
        true
    }

    open spec fn eq_spec(&self, other: &GroupID) -> bool {
        self@ == other@
    }
}

/// Mathematical view of a [`Group`].
#[verifier::ext_equal]
pub struct GroupView {
    pub id: Seq<char>,
    pub created_at: u64,
    pub updated_at: u64,
    pub title: Seq<char>,
    pub participants: Seq<Seq<char>>,
}

impl GroupView {
    /// Whether the subject is a member of the group.
    pub open spec fn has_participant(self, sub: Seq<char>) -> bool {
        self.participants.contains(sub)
    }
}

/// A group of users. Only current participants may read, update or delete
/// the group or anything scoped to it.
#[derive(Debug)]
pub struct Group {
    pub id: GroupID,
    pub created_at: u64,
    pub updated_at: u64,
    pub title: String,
    pub participants: Vec<UserID>,
}

impl View for Group {
    type V = GroupView;

    open spec fn view(&self) -> GroupView {
        GroupView {
            id: self.id@,
            created_at: self.created_at,
            updated_at: self.updated_at,
            title: self.title@,
            participants: self.participants.deep_view(),
        }
    }
}

impl DeepView for Group {
    type V = GroupView;

    open spec fn deep_view(&self) -> GroupView {
        self@
    }
}

impl Clone for Group {
    fn clone(&self) -> (r: Group)
        ensures
            r@ == self@,
    {
        Group {
            id: self.id.clone(),
            created_at: self.created_at,
            updated_at: self.updated_at,
            title: self.title.clone(),
            participants: clone_user_ids(&self.participants),
        }
    }
}

/// Clones a list of user identifiers, keeping its view.
pub fn clone_user_ids(ids: &Vec<UserID>) -> (r: Vec<UserID>)
    ensures
        r.deep_view() == ids.deep_view(),
{
    let mut out: Vec<UserID> = Vec::new();
    let mut i: usize = 0;
    while i < ids.len()
        invariant
            i <= ids.len(),
            out@.len() == i,
            out.deep_view() =~~= ids.deep_view().take(i as int),
        decreases ids.len() - i,
    {
        let x = ids[i].clone();
        proof {
            assert(x.deep_view() == ids.deep_view()[i as int]);
        }
        out.push(x);
        proof {
            assert(out.deep_view() =~~= ids.deep_view().take(i as int + 1));
        }
        i = i + 1;
    }
    assert(out.deep_view() =~~= ids.deep_view());
    out
}

/// Whether a list of user identifiers contains the given subject.
pub fn contains_user(ids: &Vec<UserID>, sub: &UserID) -> (r: bool)
    ensures
        r == ids.deep_view().contains(sub@),
{
    let mut i: usize = 0;
    while i < ids.len()
        invariant
            i <= ids.len(),
            forall|j: int| 0 <= j < i ==> ids.deep_view()[j] != sub@,
        decreases ids.len() - i,
    {
        if &ids[i] == sub {
            assert(ids.deep_view()[i as int] == sub@);
            return true;
        }
        i = i + 1;
    }
    false
}

} // verus!
