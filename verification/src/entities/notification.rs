use crate::entities::group::GroupID;
use vstd::prelude::*;

verus! {

/// Identifier of a notification.
#[derive(Debug)]
pub struct NotificationID(pub String);

impl View for NotificationID {
    type V = Seq<char>;

    open spec fn view(&self) -> Seq<char> {
        self.0@
    }
}

impl DeepView for NotificationID {
    type V = Seq<char>;

    open spec fn deep_view(&self) -> Seq<char> {
        self.0@
    }
}

impl NotificationID {
    pub fn new(id: &str) -> (r: NotificationID)
        ensures
            r@ == id@,
    {
        NotificationID(id.to_owned())
    }
}

impl Clone for NotificationID {
    fn clone(&self) -> (r: NotificationID)
        ensures
            r@ == self@,
    {
        NotificationID(self.0.clone())
    }
}

impl PartialEq for NotificationID {
    fn eq(&self, other: &NotificationID) -> (r: bool) {
        self.0 == other.0
    }
}

impl Eq for NotificationID {}

impl vstd::std_specs::cmp::PartialEqSpecImpl for NotificationID {
    open spec fn obeys_eq_spec() -> bool {
        true
    }

    open spec fn eq_spec(&self, other: &NotificationID) -> bool {
        self@ == other@
    }
}

/// Mathematical view of a [`Notification`].
#[verifier::ext_equal]
pub struct NotificationView {
    pub id: Seq<char>,
    pub created_at: u64,
    pub updated_at: u64,
    pub message: Seq<char>,
    pub group: Seq<char>,
}

/// A notification scoped to a group. Visibility follows the owning group's
/// membership, exactly as for payments.
#[derive(Debug)]
pub struct Notification {
    pub id: NotificationID,
    pub created_at: u64,
    pub updated_at: u64,
    pub message: String,
    pub group: GroupID,
}

impl View for Notification {
    type V = NotificationView;

    open spec fn view(&self) -> NotificationView {
        NotificationView {
            id: self.id@,
            created_at: self.created_at,
            updated_at: self.updated_at,
            message: self.message@,
            group: self.group@,
        }
    }
}

impl DeepView for Notification {
    type V = NotificationView;

    open spec fn deep_view(&self) -> NotificationView {
        self@
    }
}

impl Clone for Notification {
    fn clone(&self) -> (r: Notification)
        ensures
            r@ == self@,
    {
        Notification {
            id: self.id.clone(),
            created_at: self.created_at,
            updated_at: self.updated_at,
            message: self.message.clone(),
            group: self.group.clone(),
        }
    }
}

} // verus!
