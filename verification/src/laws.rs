//! The general laws of the domain service and the settlement engine, stated
//! over the same spec-level transitions that the executable operations are
//! proved to implement.

use crate::entities::warikan::balance_for_user;
use crate::entities::warikan::balances_of;
use crate::entities::warikan::lemma_all_zero;
use crate::entities::warikan::lemma_balances_of;
use crate::entities::warikan::lemma_nonzero_bounds;
use crate::entities::warikan::lemma_settle_nets;
use crate::entities::warikan::payments_total;
use crate::entities::warikan::received;
use crate::entities::warikan::sent;
use crate::entities::warikan::spec_warikan;
use crate::entities::AuthView;
use crate::entities::NotificationView;
use crate::entities::PaymentView;
use crate::entities::UserView;
use crate::entities::WarikanView;
use crate::repositories::find_by_key;
use crate::repositories::key_pos;
use crate::repositories::keyed::lemma_find_remove;
use crate::repositories::keyed::lemma_find_upsert;
use crate::repositories::keyed::lemma_key_pos;
use crate::repositories::lemma_notifications_of_group;
use crate::repositories::lemma_payments_of_group;
use crate::repositories::notifications_of_group;
use crate::repositories::payments_of_group;
use crate::repositories::replace_by_key;
use crate::repositories::with_users;
use crate::usecases::group::lemma_remove_listed_notifications;
use crate::usecases::group::lemma_remove_listed_payments;
use crate::usecases::group::spec_delete_group;
use crate::usecases::group::spec_get_group;
use crate::usecases::group::spec_update_group;
use crate::usecases::notification::spec_get_notification;
use crate::usecases::payment::spec_get_payment;
use crate::usecases::payment::spec_update_payment;
use crate::usecases::stamps_ok;
use crate::usecases::user::spec_create_user;
use crate::usecases::user::spec_get_user;
use crate::usecases::user::spec_update_user;
use crate::usecases::UseCaseError;
use crate::usecases::UseCaseView;
use vstd::prelude::*;

verus! {

/// Creating a user and then fetching it with the same identity returns the
/// created record unchanged.
pub proof fn user_create_then_get(pre: UseCaseView, auth: AuthView, name: Seq<char>)
    requires
        auth is Authorized,
        !pre.store.faults.create_user,
        !pre.store.faults.get_user,
    ensures
        ({
            let (post, res) = spec_create_user(pre, auth, name);
            &&& res is Ok
            &&& spec_get_user(post, auth, res.unwrap().id) == Result::<
                UserView,
                UseCaseError,
            >::Ok(res.unwrap())
        }),
{
    let (post, res) = spec_create_user(pre, auth, name);
    lemma_find_upsert(pre.store.users, res.unwrap());
}

/// Any read, update or delete of a group authenticated as a non-participant
/// is refused.
pub proof fn group_non_participant_forbidden(
    pre: UseCaseView,
    auth: AuthView,
    id: Seq<char>,
    title: Option<Seq<char>>,
    participants: Option<Seq<Seq<char>>>,
)
    requires
        auth is Authorized,
        !pre.store.faults.get_group,
        find_by_key(pre.store.groups, id) is Some,
        !find_by_key(pre.store.groups, id).unwrap().participants.contains(auth.sub()),
    ensures
        spec_get_group(pre, auth, id) == Result::<Option<crate::entities::GroupView>, UseCaseError,
        >::Err(UseCaseError::Forbidden),
        spec_update_group(pre, auth, id, title, participants) == (
            pre,
            Result::<crate::entities::GroupView, UseCaseError>::Err(UseCaseError::Forbidden),
        ),
        spec_delete_group(pre, auth, id) == (
            pre,
            Result::<Seq<char>, UseCaseError>::Err(UseCaseError::Forbidden),
        ),
{
}

/// After a removal of every payment listed for a group, no payment scoped
/// to the group can be found.
proof fn scoped_payment_unfindable(ps: Seq<PaymentView>, group: Seq<char>, wanted: Seq<char>)
    requires
        exists|p: PaymentView|
            #[trigger] ps.contains(p) && p.group == group && p.id == wanted,
    ensures
        find_by_key(
            crate::usecases::group::remove_listed_payments(ps, payments_of_group(ps, group)),
            wanted,
        ) is None,
{
    let listed = payments_of_group(ps, group);
    let left = crate::usecases::group::remove_listed_payments(ps, listed);
    let p = choose|p: PaymentView| #[trigger] ps.contains(p) && p.group == group && p.id == wanted;
    lemma_remove_listed_payments(ps, listed);
    lemma_payments_of_group(ps, group);
    lemma_key_pos(left, wanted);
    let q = key_pos(left, wanted);
    if q < left.len() {
        let x = left[q];
        assert(left.contains(x));
        assert(listed.contains(p));
        let k0 = choose|k0: int| 0 <= k0 < listed.len() && listed[k0] == p;
        assert(x.id != listed[k0].id);
        assert(false);
    }
}

/// After a removal of every notification listed for a group, no
/// notification scoped to the group can be found.
proof fn scoped_notification_unfindable(
    ns: Seq<NotificationView>,
    group: Seq<char>,
    wanted: Seq<char>,
)
    requires
        exists|n: NotificationView|
            #[trigger] ns.contains(n) && n.group == group && n.id == wanted,
    ensures
        find_by_key(
            crate::usecases::group::remove_listed_notifications(
                ns,
                notifications_of_group(ns, group),
            ),
            wanted,
        ) is None,
{
    let listed = notifications_of_group(ns, group);
    let left = crate::usecases::group::remove_listed_notifications(ns, listed);
    let n = choose|n: NotificationView|
        #[trigger] ns.contains(n) && n.group == group && n.id == wanted;
    lemma_remove_listed_notifications(ns, listed);
    lemma_notifications_of_group(ns, group);
    lemma_key_pos(left, wanted);
    let q = key_pos(left, wanted);
    if q < left.len() {
        let x = left[q];
        assert(left.contains(x));
        assert(listed.contains(n));
        let k0 = choose|k0: int| 0 <= k0 < listed.len() && listed[k0] == n;
        assert(x.id != listed[k0].id);
        assert(false);
    }
}

/// After a successful group deletion, reading the group reports `NotFound`,
/// and every payment and notification previously scoped to it is
/// individually unretrievable.
pub proof fn group_delete_then_unretrievable(pre: UseCaseView, auth: AuthView, id: Seq<char>)
    requires
        spec_delete_group(pre, auth, id).1 is Ok,
        !pre.store.faults.get_group,
        !pre.store.faults.get_payment,
        !pre.store.faults.get_notification,
    ensures
        ({
            let post = spec_delete_group(pre, auth, id).0;
            &&& spec_get_group(post, auth, id) == Result::<
                Option<crate::entities::GroupView>,
                UseCaseError,
            >::Err(UseCaseError::NotFound)
            &&& forall|p: PaymentView|
                pre.store.payments.contains(p) && p.group == id ==> #[trigger] spec_get_payment(
                    post,
                    auth,
                    p.id,
                ) == Result::<Option<PaymentView>, UseCaseError>::Err(UseCaseError::NotFound)
            &&& forall|n: NotificationView|
                pre.store.notifications.contains(n) && n.group == id
                    ==> #[trigger] spec_get_notification(post, auth, n.id) == Result::<
                    Option<NotificationView>,
                    UseCaseError,
                >::Err(UseCaseError::NotFound)
        }),
{
    let post = spec_delete_group(pre, auth, id).0;
    lemma_find_remove(pre.store.groups, id);
    assert forall|p: PaymentView| pre.store.payments.contains(p) && p.group == id implies
        #[trigger] spec_get_payment(post, auth, p.id) == Result::<
        Option<PaymentView>,
        UseCaseError,
    >::Err(UseCaseError::NotFound) by {
        scoped_payment_unfindable(pre.store.payments, id, p.id);
    }
    assert forall|n: NotificationView| pre.store.notifications.contains(n) && n.group == id implies
        #[trigger] spec_get_notification(post, auth, n.id) == Result::<
        Option<NotificationView>,
        UseCaseError,
    >::Err(UseCaseError::NotFound) by {
        scoped_notification_unfindable(pre.store.notifications, id, n.id);
    }
}

/// A successful cascading deletion leaves no payment and no notification
/// scoped to the deleted group.
pub proof fn delete_group_cascade(pre: UseCaseView, auth: AuthView, id: Seq<char>)
    requires
        spec_delete_group(pre, auth, id).1 is Ok,
    ensures
        ({
            let post = spec_delete_group(pre, auth, id).0;
            &&& find_by_key(post.store.groups, id) is None
            &&& payments_of_group(post.store.payments, id) == Seq::<PaymentView>::empty()
            &&& notifications_of_group(post.store.notifications, id) == Seq::<
                NotificationView,
            >::empty()
        }),
{
    let post = spec_delete_group(pre, auth, id).0;
    lemma_find_remove(pre.store.groups, id);
    let listed = payments_of_group(pre.store.payments, id);
    lemma_remove_listed_payments(pre.store.payments, listed);
    lemma_payments_of_group(pre.store.payments, id);
    lemma_payments_of_group(post.store.payments, id);
    let remaining = payments_of_group(post.store.payments, id);
    if remaining.len() > 0 {
        let x = remaining[0];
        assert(remaining.contains(x));
        assert(post.store.payments.contains(x) && x.group == id);
        assert(listed.contains(x));
        let k0 = choose|k0: int| 0 <= k0 < listed.len() && listed[k0] == x;
        assert(x.id != listed[k0].id);
        assert(false);
    }
    assert(remaining =~= Seq::<PaymentView>::empty());
    let nlisted = notifications_of_group(pre.store.notifications, id);
    lemma_remove_listed_notifications(pre.store.notifications, nlisted);
    lemma_notifications_of_group(pre.store.notifications, id);
    lemma_notifications_of_group(post.store.notifications, id);
    let nremaining = notifications_of_group(post.store.notifications, id);
    if nremaining.len() > 0 {
        let x = nremaining[0];
        assert(nremaining.contains(x));
        assert(post.store.notifications.contains(x) && x.group == id);
        assert(nlisted.contains(x));
        let k0 = choose|k0: int| 0 <= k0 < nlisted.len() && nlisted[k0] == x;
        assert(x.id != nlisted[k0].id);
        assert(false);
    }
    assert(nremaining =~= Seq::<NotificationView>::empty());
}

/// A failing dependent delete surfaces as an infrastructure error while the
/// group record is already gone and its payments remain: the cascade is not
/// atomic.
pub proof fn delete_group_cascade_partial(pre: UseCaseView, auth: AuthView, id: Seq<char>)
    requires
        spec_get_group(pre, auth, id) matches Result::Ok(Some(g)),
        !pre.store.faults.delete_group,
        !pre.store.faults.get_payments_by_group,
        pre.store.faults.delete_payment,
        payments_of_group(pre.store.payments, id).len() > 0,
    ensures
        ({
            let (post, res) = spec_delete_group(pre, auth, id);
            &&& res == Result::<Seq<char>, UseCaseError>::Err(UseCaseError::InternalServerError)
            &&& find_by_key(post.store.groups, id) is None
            &&& post.store.payments == pre.store.payments
        }),
{
    lemma_find_remove(pre.store.groups, id);
}

/// Patching a user with every optional field absent changes nothing but
/// `updated_at`, which advances (strictly, until the clock saturates).
pub proof fn update_user_all_absent(pre: UseCaseView, auth: AuthView, id: Seq<char>)
    requires
        stamps_ok(pre.store, pre.clock),
        spec_update_user(pre, auth, id, Option::None).1 is Ok,
    ensures
        ({
            let (post, res) = spec_update_user(pre, auth, id, Option::None);
            let stored = find_by_key(pre.store.users, id).unwrap();
            let u2 = res.unwrap();
            &&& u2.id == stored.id
            &&& u2.name == stored.name
            &&& u2.created_at == stored.created_at
            &&& u2.updated_at == pre.clock
            &&& stored.updated_at <= u2.updated_at
            &&& (pre.clock < u64::MAX ==> stored.updated_at < u2.updated_at)
            &&& post.store == with_users(pre.store, replace_by_key(pre.store.users, u2))
        }),
{
    lemma_key_pos(pre.store.users, id);
    let p = key_pos(pre.store.users, id);
    assert(pre.store.users.contains(pre.store.users[p]));
}

/// Patching a group with every optional field absent changes nothing but
/// `updated_at`, which advances (strictly, until the clock saturates).
pub proof fn update_group_all_absent(pre: UseCaseView, auth: AuthView, id: Seq<char>)
    requires
        stamps_ok(pre.store, pre.clock),
        spec_update_group(pre, auth, id, Option::None, Option::None).1 is Ok,
    ensures
        ({
            let (post, res) = spec_update_group(pre, auth, id, Option::None, Option::None);
            let stored = find_by_key(pre.store.groups, id).unwrap();
            let g2 = res.unwrap();
            &&& g2.id == stored.id
            &&& g2.title == stored.title
            &&& g2.participants == stored.participants
            &&& g2.created_at == stored.created_at
            &&& g2.updated_at == pre.clock
            &&& stored.updated_at <= g2.updated_at
            &&& (pre.clock < u64::MAX ==> stored.updated_at < g2.updated_at)
        }),
{
    lemma_key_pos(pre.store.groups, id);
    let p = key_pos(pre.store.groups, id);
    assert(pre.store.groups.contains(pre.store.groups[p]));
}

/// Patching a payment with every optional field absent changes nothing but
/// `updated_at`, which advances (strictly, until the clock saturates).
pub proof fn update_payment_all_absent(pre: UseCaseView, auth: AuthView, id: Seq<char>)
    requires
        stamps_ok(pre.store, pre.clock),
        spec_update_payment(pre, auth, id, Option::None, Option::None, Option::None).1 is Ok,
    ensures
        ({
            let (post, res) = spec_update_payment(
                pre,
                auth,
                id,
                Option::None,
                Option::None,
                Option::None,
            );
            let stored = find_by_key(pre.store.payments, id).unwrap();
            let p2 = res.unwrap();
            &&& p2.id == stored.id
            &&& p2.title == stored.title
            &&& p2.creditors == stored.creditors
            &&& p2.debtors == stored.debtors
            &&& p2.group == stored.group
            &&& p2.created_at == stored.created_at
            &&& p2.updated_at == pre.clock
            &&& stored.updated_at <= p2.updated_at
            &&& (pre.clock < u64::MAX ==> stored.updated_at < p2.updated_at)
        }),
{
    lemma_key_pos(pre.store.payments, id);
    let p = key_pos(pre.store.payments, id);
    assert(pre.store.payments.contains(pre.store.payments[p]));
}

/// For a balanced payment set, the settlement pays out exactly every
/// debtor's balance magnitude, pays in exactly every creditor's, and so
/// nets every participant's balance to zero.
pub proof fn warikan_settles_balances(ps: Seq<PaymentView>)
    requires
        payments_total(ps) == 0,
    ensures
        spec_warikan(ps) is Some,
        ({
            let ts = spec_warikan(ps).unwrap();
            &&& forall|u: Seq<char>| #[trigger] sent(ts, u) == (if balance_for_user(ps, u) < 0 {
                -balance_for_user(ps, u)
            } else {
                0int
            })
            &&& forall|u: Seq<char>| #[trigger] received(ts, u) == (if balance_for_user(ps, u)
                > 0 {
                balance_for_user(ps, u)
            } else {
                0int
            })
            &&& forall|u: Seq<char>| #[trigger] received(ts, u) - #[trigger] sent(ts, u)
                == balance_for_user(ps, u)
        }),
{
    let bal = balances_of(ps);
    lemma_balances_of(ps, Seq::empty());
    lemma_nonzero_bounds(bal, 0);
    let ts = spec_warikan(ps).unwrap();
    if bal.len() < 2 {
        assert(ts == Seq::<WarikanView>::empty());
        assert forall|u: Seq<char>| #[trigger] sent(ts, u) == (if balance_for_user(ps, u) < 0 {
            -balance_for_user(ps, u)
        } else {
            0int
        }) by {
            lemma_balances_of(ps, u);
            lemma_all_zero(bal, u);
        }
        assert forall|u: Seq<char>| #[trigger] received(ts, u) == (if balance_for_user(ps, u)
            > 0 {
            balance_for_user(ps, u)
        } else {
            0int
        }) by {
            lemma_balances_of(ps, u);
            lemma_all_zero(bal, u);
        }
    } else {
        lemma_settle_nets(bal, bal.len() as nat);
        assert forall|u: Seq<char>| #[trigger] sent(ts, u) == (if balance_for_user(ps, u) < 0 {
            -balance_for_user(ps, u)
        } else {
            0int
        }) by {
            lemma_balances_of(ps, u);
        }
        assert forall|u: Seq<char>| #[trigger] received(ts, u) == (if balance_for_user(ps, u)
            > 0 {
            balance_for_user(ps, u)
        } else {
            0int
        }) by {
            lemma_balances_of(ps, u);
        }
    }
}

/// An unbalanced payment set (creditor sum differing from debtor sum)
/// yields the empty transfer list.
pub proof fn warikan_unbalanced_empty(ps: Seq<PaymentView>)
    requires
        payments_total(ps) != 0,
    ensures
        spec_warikan(ps) == Option::Some(Seq::<WarikanView>::empty()),
{
    lemma_balances_of(ps, Seq::empty());
}

} // verus!

