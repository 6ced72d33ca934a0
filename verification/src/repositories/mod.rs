//! The persistence gateway, modelled as an in-memory document store. Every
//! operation of the real gateway may fail with an opaque infrastructure
//! error; here a [`FaultPlan`] says which operations do, so the behaviour of
//! the domain service is pinned down for faulty gateways too.

pub mod group;
pub mod keyed;
pub mod notification;
pub mod payment;
pub mod user;

pub use keyed::find_by_key;
pub use keyed::key_pos;
pub use keyed::remove_by_key;
pub use keyed::replace_by_key;
pub use keyed::upsert_by_key;
pub use keyed::Keyed;

use crate::entities::Group;
use crate::entities::GroupView;
use crate::entities::Notification;
use crate::entities::NotificationView;
use crate::entities::Payment;
use crate::entities::PaymentView;
use crate::entities::User;
use crate::entities::UserView;
use vstd::prelude::*;

verus! {

impl Keyed for UserView {
    open spec fn key(self) -> Seq<char> {
        self.id
    }
}

impl Keyed for GroupView {
    open spec fn key(self) -> Seq<char> {
        self.id
    }
}

impl Keyed for PaymentView {
    open spec fn key(self) -> Seq<char> {
        self.id
    }
}

impl Keyed for NotificationView {
    open spec fn key(self) -> Seq<char> {
        self.id
    }
}

/// The groups a user participates in, in storage order.
pub open spec fn groups_of_user(groups: Seq<GroupView>, user: Seq<char>) -> Seq<GroupView>
    decreases groups.len(),
{
    if groups.len() == 0 {
        Seq::empty()
    } else if groups.first().participants.contains(user) {
        seq![groups.first()] + groups_of_user(groups.drop_first(), user)
    } else {
        groups_of_user(groups.drop_first(), user)
    }
}

/// The payments scoped to a group, in storage order.
pub open spec fn payments_of_group(payments: Seq<PaymentView>, group: Seq<char>) -> Seq<
    PaymentView,
>
    decreases payments.len(),
{
    if payments.len() == 0 {
        Seq::empty()
    } else if payments.first().group == group {
        seq![payments.first()] + payments_of_group(payments.drop_first(), group)
    } else {
        payments_of_group(payments.drop_first(), group)
    }
}

/// The notifications scoped to a group, in storage order.
pub open spec fn notifications_of_group(
    notifications: Seq<NotificationView>,
    group: Seq<char>,
) -> Seq<NotificationView>
    decreases notifications.len(),
{
    if notifications.len() == 0 {
        Seq::empty()
    } else if notifications.first().group == group {
        seq![notifications.first()] + notifications_of_group(notifications.drop_first(), group)
    } else {
        notifications_of_group(notifications.drop_first(), group)
    }
}

/// The records listed for a group: exactly those of the collection scoped
/// to it.
pub proof fn lemma_payments_of_group(s: Seq<PaymentView>, group: Seq<char>)
    ensures
        forall|x: PaymentView| #[trigger] payments_of_group(s, group).contains(x) <==> s.contains(
            x,
        ) && x.group == group,
    decreases s.len(),
{
    if s.len() == 0 {
    } else {
        let sub = s.drop_first();
        lemma_payments_of_group(sub, group);
        assert forall|x: PaymentView| #[trigger] payments_of_group(s, group).contains(x) implies s
            .contains(x) && x.group == group by {
            let r = payments_of_group(s, group);
            let k = choose|k: int| 0 <= k < r.len() && r[k] == x;
            if s.first().group == group {
                if k == 0 {
                    assert(s[0] == x);
                } else {
                    assert(payments_of_group(sub, group)[k - 1] == x);
                    assert(payments_of_group(sub, group).contains(x));
                    let m = choose|m: int| 0 <= m < sub.len() && sub[m] == x;
                    assert(s[m + 1] == x);
                }
            } else {
                assert(payments_of_group(sub, group).contains(x));
                let m = choose|m: int| 0 <= m < sub.len() && sub[m] == x;
                assert(s[m + 1] == x);
            }
        }
        assert forall|x: PaymentView| s.contains(x) && x.group == group implies #[trigger]
        payments_of_group(s, group).contains(x) by {
            let k = choose|k: int| 0 <= k < s.len() && s[k] == x;
            if k == 0 {
                assert(payments_of_group(s, group)[0] == x);
            } else {
                assert(sub[k - 1] == x);
                assert(payments_of_group(sub, group).contains(x));
                let r = payments_of_group(sub, group);
                let m = choose|m: int| 0 <= m < r.len() && r[m] == x;
                if s.first().group == group {
                    assert(payments_of_group(s, group)[m + 1] == x);
                } else {
                    assert(payments_of_group(s, group)[m] == x);
                }
            }
        }
    }
}

/// The records listed for a group: exactly those of the collection scoped
/// to it.
pub proof fn lemma_notifications_of_group(s: Seq<NotificationView>, group: Seq<char>)
    ensures
        forall|x: NotificationView| #[trigger] notifications_of_group(s, group).contains(x)
            <==> s.contains(x) && x.group == group,
    decreases s.len(),
{
    if s.len() == 0 {
    } else {
        let sub = s.drop_first();
        lemma_notifications_of_group(sub, group);
        assert forall|x: NotificationView| #[trigger] notifications_of_group(s, group).contains(
            x,
        ) implies s.contains(x) && x.group == group by {
            let r = notifications_of_group(s, group);
            let k = choose|k: int| 0 <= k < r.len() && r[k] == x;
            if s.first().group == group {
                if k == 0 {
                    assert(s[0] == x);
                } else {
                    assert(notifications_of_group(sub, group)[k - 1] == x);
                    assert(notifications_of_group(sub, group).contains(x));
                    let m = choose|m: int| 0 <= m < sub.len() && sub[m] == x;
                    assert(s[m + 1] == x);
                }
            } else {
                assert(notifications_of_group(sub, group).contains(x));
                let m = choose|m: int| 0 <= m < sub.len() && sub[m] == x;
                assert(s[m + 1] == x);
            }
        }
        assert forall|x: NotificationView| s.contains(x) && x.group == group implies #[trigger]
        notifications_of_group(s, group).contains(x) by {
            let k = choose|k: int| 0 <= k < s.len() && s[k] == x;
            if k == 0 {
                assert(notifications_of_group(s, group)[0] == x);
            } else {
                assert(sub[k - 1] == x);
                assert(notifications_of_group(sub, group).contains(x));
                let r = notifications_of_group(sub, group);
                let m = choose|m: int| 0 <= m < r.len() && r[m] == x;
                if s.first().group == group {
                    assert(notifications_of_group(s, group)[m + 1] == x);
                } else {
                    assert(notifications_of_group(s, group)[m] == x);
                }
            }
        }
    }
}

/// The view `s` with its user collection replaced.
pub open spec fn with_users(s: StoreView, users: Seq<UserView>) -> StoreView {
    StoreView {
        users,
        groups: s.groups,
        payments: s.payments,
        notifications: s.notifications,
        faults: s.faults,
    }
}

/// The view `s` with its group collection replaced.
pub open spec fn with_groups(s: StoreView, groups: Seq<GroupView>) -> StoreView {
    StoreView {
        users: s.users,
        groups,
        payments: s.payments,
        notifications: s.notifications,
        faults: s.faults,
    }
}

/// The view `s` with its payment collection replaced.
pub open spec fn with_payments(s: StoreView, payments: Seq<PaymentView>) -> StoreView {
    StoreView {
        users: s.users,
        groups: s.groups,
        payments,
        notifications: s.notifications,
        faults: s.faults,
    }
}

/// The view `s` with its notification collection replaced.
pub open spec fn with_notifications(
    s: StoreView,
    notifications: Seq<NotificationView>,
) -> StoreView {
    StoreView {
        users: s.users,
        groups: s.groups,
        payments: s.payments,
        notifications,
        faults: s.faults,
    }
}

/// The opaque infrastructure error of the gateway.
#[derive(Debug, Clone, Copy, PartialEq, Eq, Structural)]
pub struct StoreError;

/// Which gateway operations fail. The real gateway may fail on any call;
/// a fault plan makes that choice explicit, so contracts can say exactly
/// what each outcome leaves behind.
#[derive(Debug, Clone, Copy, PartialEq, Eq, Structural)]
pub struct FaultPlan {
    pub create_user: bool,
    pub update_user: bool,
    pub delete_user: bool,
    pub get_user: bool,
    pub create_group: bool,
    pub update_group: bool,
    pub delete_group: bool,
    pub get_group: bool,
    pub get_groups_by_user: bool,
    pub create_payment: bool,
    pub update_payment: bool,
    pub delete_payment: bool,
    pub get_payment: bool,
    pub get_payments_by_group: bool,
    pub create_notification: bool,
    pub delete_notification: bool,
    pub get_notification: bool,
    pub get_notifications_by_group: bool,
}

impl FaultPlan {
    /// A plan under which every operation succeeds.
    pub open spec fn spec_none() -> FaultPlan {
        FaultPlan {
            create_user: false,
            update_user: false,
            delete_user: false,
            get_user: false,
            create_group: false,
            update_group: false,
            delete_group: false,
            get_group: false,
            get_groups_by_user: false,
            create_payment: false,
            update_payment: false,
            delete_payment: false,
            get_payment: false,
            get_payments_by_group: false,
            create_notification: false,
            delete_notification: false,
            get_notification: false,
            get_notifications_by_group: false,
        }
    }

    /// A plan under which every operation succeeds.
    pub fn none() -> (r: FaultPlan)
        ensures
            r == FaultPlan::spec_none(),
    {
        FaultPlan {
            create_user: false,
            update_user: false,
            delete_user: false,
            get_user: false,
            create_group: false,
            update_group: false,
            delete_group: false,
            get_group: false,
            get_groups_by_user: false,
            create_payment: false,
            update_payment: false,
            delete_payment: false,
            get_payment: false,
            get_payments_by_group: false,
            create_notification: false,
            delete_notification: false,
            get_notification: false,
            get_notifications_by_group: false,
        }
    }
}

/// Mathematical view of a [`Store`].
#[verifier::ext_equal]
pub struct StoreView {
    pub users: Seq<UserView>,
    pub groups: Seq<GroupView>,
    pub payments: Seq<PaymentView>,
    pub notifications: Seq<NotificationView>,
    pub faults: FaultPlan,
}

/// The in-memory document store: one collection per entity kind, plus the
/// fault plan of its gateway operations.
#[derive(Debug)]
pub struct Store {
    pub users: Vec<User>,
    pub groups: Vec<Group>,
    pub payments: Vec<Payment>,
    pub notifications: Vec<Notification>,
    pub faults: FaultPlan,
}

impl View for Store {
    type V = StoreView;

    open spec fn view(&self) -> StoreView {
        StoreView {
            users: self.users.deep_view(),
            groups: self.groups.deep_view(),
            payments: self.payments.deep_view(),
            notifications: self.notifications.deep_view(),
            faults: self.faults,
        }
    }
}

impl Store {
    /// An empty store whose gateway never fails.
    pub fn new() -> (s: Store)
        ensures
            s@ == (StoreView {
                users: Seq::<UserView>::empty(),
                groups: Seq::<GroupView>::empty(),
                payments: Seq::<PaymentView>::empty(),
                notifications: Seq::<NotificationView>::empty(),
                faults: FaultPlan::spec_none(),
            }),
    {
        let s = Store {
            users: Vec::new(),
            groups: Vec::new(),
            payments: Vec::new(),
            notifications: Vec::new(),
            faults: FaultPlan::none(),
        };
        proof {
            assert(s@ =~~= StoreView {
                users: Seq::<UserView>::empty(),
                groups: Seq::<GroupView>::empty(),
                payments: Seq::<PaymentView>::empty(),
                notifications: Seq::<NotificationView>::empty(),
                faults: FaultPlan::spec_none(),
            });
        }
        s
    }

    /// An empty store with the given fault plan.
    pub fn with_faults(faults: FaultPlan) -> (s: Store)
        ensures
            s@ == (StoreView {
                users: Seq::<UserView>::empty(),
                groups: Seq::<GroupView>::empty(),
                payments: Seq::<PaymentView>::empty(),
                notifications: Seq::<NotificationView>::empty(),
                faults,
            }),
    {
        let s = Store {
            users: Vec::new(),
            groups: Vec::new(),
            payments: Vec::new(),
            notifications: Vec::new(),
            faults,
        };
        proof {
            assert(s@ =~~= StoreView {
                users: Seq::<UserView>::empty(),
                groups: Seq::<GroupView>::empty(),
                payments: Seq::<PaymentView>::empty(),
                notifications: Seq::<NotificationView>::empty(),
                faults,
            });
        }
        s
    }
}

/// Connection settings of the Firestore adapter of the real gateway. The
/// adapter itself performs network I/O and lives outside the library.
#[derive(Debug)]
pub struct FirestoreRepositoryConfig<'a> {
    pub project_id: &'a str,
}

/// Connection settings of the MongoDB adapter of the real gateway. The
/// adapter itself performs network I/O and lives outside the library.
#[derive(Debug)]
pub struct MongoRepositoryConfig<'a> {
    pub uri: &'a str,
    pub database: &'a str,
}

} // verus!
