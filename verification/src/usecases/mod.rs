//! The authorization-scoped domain service: one method per business
//! operation, each guarded by the caller's identity and the membership or
//! ownership rules, over the modelled persistence gateway.
//!
//! Timestamps come from a logical clock held by the service: every write
//! stamps the current clock value and advances it, so `updated_at` moves
//! strictly forward until the clock saturates.

pub mod group;
pub mod notification;
pub mod payment;
pub mod user;

pub use group::CreateGroupInput;
pub use group::DeleteGroupInput;
pub use group::UpdateGroupInput;
pub use notification::CreateNotificationInput;
pub use notification::DeleteNotificationInput;
pub use payment::AmountInput;
pub use payment::CreatePaymentInput;
pub use payment::DeletePaymentInput;
pub use payment::UpdatePaymentInput;
pub use user::CreateUserInput;
pub use user::DeleteUserInput;
pub use user::UpdateUserInput;

use crate::entities::Group;
use crate::entities::GroupView;
use crate::entities::Notification;
use crate::entities::NotificationView;
use crate::entities::Payment;
use crate::entities::PaymentView;
use crate::entities::User;
use crate::entities::UserView;
use crate::repositories::Store;
use crate::repositories::StoreView;
use vstd::prelude::*;

verus! {

/// The outcome categories of every domain operation, in order of guard
/// precedence.
#[derive(Debug, Clone, Copy, PartialEq, Eq, Structural)]
pub enum UseCaseError {
    BadRequest,
    Unauthorized,
    Forbidden,
    NotFound,
    InternalServerError,
}

impl UseCaseError {
    /// A short, stable description of the error category.
    pub fn message(&self) -> (s: &'static str)
        ensures
            *self is BadRequest ==> s@ == "400 bad request"@,
            *self is Unauthorized ==> s@ == "401 unauthorized"@,
            *self is Forbidden ==> s@ == "403 forbidden"@,
            *self is NotFound ==> s@ == "404 not found"@,
            *self is InternalServerError ==> s@ == "500 internal server error"@,
    {
        match self {
            UseCaseError::BadRequest => "400 bad request",
            UseCaseError::Unauthorized => "401 unauthorized",
            UseCaseError::Forbidden => "403 forbidden",
            UseCaseError::NotFound => "404 not found",
            UseCaseError::InternalServerError => "500 internal server error",
        }
    }
}

/// The result with its success value abstracted to the mathematical view.
pub open spec fn result_dv<T: DeepView>(r: Result<T, UseCaseError>) -> Result<
    T::V,
    UseCaseError,
> {
    match r {
        Result::Ok(t) => Result::Ok(t.deep_view()),
        Result::Err(e) => Result::Err(e),
    }
}

/// Whether a stamp is in the past of the clock: strictly, until the clock
/// has saturated.
pub open spec fn stamp_ok(stamp: u64, clock: u64) -> bool {
    clock == u64::MAX || stamp < clock
}

/// Whether every stored record was stamped in the past of the clock.
pub open spec fn stamps_ok(s: StoreView, clock: u64) -> bool {
    &&& forall|u: UserView| s.users.contains(u) ==> stamp_ok(u.updated_at, clock)
    &&& forall|g: GroupView| s.groups.contains(g) ==> stamp_ok(g.updated_at, clock)
    &&& forall|p: PaymentView| s.payments.contains(p) ==> stamp_ok(p.updated_at, clock)
    &&& forall|n: NotificationView| s.notifications.contains(n) ==> stamp_ok(n.updated_at, clock)
}

/// The clock advanced by one write, saturating at its maximum.
pub open spec fn spec_tick(clock: u64) -> u64 {
    if clock < u64::MAX {
        (clock + 1) as u64
    } else {
        clock
    }
}

/// Mathematical view of a [`UseCase`].
#[verifier::ext_equal]
pub struct UseCaseView {
    pub store: StoreView,
    pub clock: u64,
}

/// The domain service: the modelled gateway it writes through, and the
/// logical clock its timestamps come from.
#[derive(Debug)]
pub struct UseCase {
    pub store: Store,
    pub clock: u64,
}

impl View for UseCase {
    type V = UseCaseView;

    open spec fn view(&self) -> UseCaseView {
        UseCaseView { store: self.store@, clock: self.clock }
    }
}

impl UseCase {
    /// Well-formedness: every stored record was stamped before the clock's
    /// current value. Constructors establish it and every operation keeps
    /// it.
    pub open spec fn wf(self) -> bool {
        stamps_ok(self.store@, self.clock)
    }

    /// A service over the given gateway, with its clock past every stamp
    /// the store holds.
    pub fn new(store: Store) -> (u: UseCase)
        ensures
            u.store == store,
            u.clock == spec_tick(max_stamp(store@) as u64),
            u.wf(),
    {
        let m0 = max_user_stamp(&store.users);
        let m1 = max_u64(m0, max_group_stamp(&store.groups));
        let m2 = max_u64(m1, max_payment_stamp(&store.payments));
        let m3 = max_u64(m2, max_notification_stamp(&store.notifications));
        let clock = if m3 < u64::MAX {
            m3 + 1
        } else {
            m3
        };
        let u = UseCase { store, clock };
        proof {
            assert(m3 as int == max_stamp(u.store@));
            assert forall|x: UserView| u.store@.users.contains(x) implies stamp_ok(
                x.updated_at,
                clock,
            ) by {
                let k = choose|k: int| 0 <= k < u.store@.users.len() && u.store@.users[k] == x;
                lemma_user_stamp_max_from(u.store@.users, 0, k);
            }
            assert forall|x: GroupView| u.store@.groups.contains(x) implies stamp_ok(
                x.updated_at,
                clock,
            ) by {
                let k = choose|k: int| 0 <= k < u.store@.groups.len() && u.store@.groups[k] == x;
                lemma_group_stamp_max_from(u.store@.groups, 0, k);
            }
            assert forall|x: PaymentView| u.store@.payments.contains(x) implies stamp_ok(
                x.updated_at,
                clock,
            ) by {
                let k = choose|k: int| 0 <= k < u.store@.payments.len() && u.store@.payments[k]
                    == x;
                lemma_payment_stamp_max_from(u.store@.payments, 0, k);
            }
            assert forall|x: NotificationView| u.store@.notifications.contains(x) implies stamp_ok(
                x.updated_at,
                clock,
            ) by {
                let k = choose|k: int|
                    0 <= k < u.store@.notifications.len() && u.store@.notifications[k] == x;
                lemma_notification_stamp_max_from(u.store@.notifications, 0, k);
            }
        }
        u
    }

    /// Reads the clock for a write and advances it.
    fn stamp(&mut self) -> (now: u64)
        ensures
            now == old(self).clock,
            final(self).clock == spec_tick(old(self).clock),
            final(self).store == old(self).store,
    {
        let now = self.clock;
        if self.clock < u64::MAX {
            self.clock = self.clock + 1;
        }
        now
    }
}

/// Relies on `nanoid::format` with the crate's default URL-safe alphabet
/// and length: a fresh identifier of exactly 21 ASCII characters, drawn
/// from the operating system's random source.
#[verifier::external_body]
pub(crate) fn generate_id() -> (r: String)
    ensures
        r@.len() == 21,
{
    nanoid::format(nanoid::rngs::default, &nanoid::alphabet::SAFE, 21)
}

/// The largest `updated_at` stamp among the user records at or after `i`,
/// or zero.
pub open spec fn user_stamp_max_from(s: Seq<UserView>, i: int) -> int
    decreases s.len() - i,
{
    if i < 0 || i >= s.len() {
        0
    } else {
        vstd::math::max(s[i].updated_at as int, user_stamp_max_from(s, i + 1))
    }
}

/// The largest `updated_at` stamp among the group records at or after `i`,
/// or zero.
pub open spec fn group_stamp_max_from(s: Seq<GroupView>, i: int) -> int
    decreases s.len() - i,
{
    if i < 0 || i >= s.len() {
        0
    } else {
        vstd::math::max(s[i].updated_at as int, group_stamp_max_from(s, i + 1))
    }
}

/// The largest `updated_at` stamp among the payment records at or after
/// `i`, or zero.
pub open spec fn payment_stamp_max_from(s: Seq<PaymentView>, i: int) -> int
    decreases s.len() - i,
{
    if i < 0 || i >= s.len() {
        0
    } else {
        vstd::math::max(s[i].updated_at as int, payment_stamp_max_from(s, i + 1))
    }
}

/// The largest `updated_at` stamp among the notification records at or
/// after `i`, or zero.
pub open spec fn notification_stamp_max_from(s: Seq<NotificationView>, i: int) -> int
    decreases s.len() - i,
{
    if i < 0 || i >= s.len() {
        0
    } else {
        vstd::math::max(s[i].updated_at as int, notification_stamp_max_from(s, i + 1))
    }
}

/// The largest `updated_at` stamp the store holds, or zero.
pub open spec fn max_stamp(s: StoreView) -> int {
    vstd::math::max(
        vstd::math::max(user_stamp_max_from(s.users, 0), group_stamp_max_from(s.groups, 0)),
        vstd::math::max(
            payment_stamp_max_from(s.payments, 0),
            notification_stamp_max_from(s.notifications, 0),
        ),
    )
}

/// A user record's stamp is bounded by the collection's largest stamp.
pub proof fn lemma_user_stamp_max_from(s: Seq<UserView>, i: int, k: int)
    requires
        0 <= i <= k < s.len(),
    ensures
        s[k].updated_at as int <= user_stamp_max_from(s, i),
    decreases k - i,
{
    if i < k {
        lemma_user_stamp_max_from(s, i + 1, k);
    }
}

/// A group record's stamp is bounded by the collection's largest stamp.
pub proof fn lemma_group_stamp_max_from(s: Seq<GroupView>, i: int, k: int)
    requires
        0 <= i <= k < s.len(),
    ensures
        s[k].updated_at as int <= group_stamp_max_from(s, i),
    decreases k - i,
{
    if i < k {
        lemma_group_stamp_max_from(s, i + 1, k);
    }
}

/// A payment record's stamp is bounded by the collection's largest stamp.
pub proof fn lemma_payment_stamp_max_from(s: Seq<PaymentView>, i: int, k: int)
    requires
        0 <= i <= k < s.len(),
    ensures
        s[k].updated_at as int <= payment_stamp_max_from(s, i),
    decreases k - i,
{
    if i < k {
        lemma_payment_stamp_max_from(s, i + 1, k);
    }
}

/// A notification record's stamp is bounded by the collection's largest
/// stamp.
pub proof fn lemma_notification_stamp_max_from(s: Seq<NotificationView>, i: int, k: int)
    requires
        0 <= i <= k < s.len(),
    ensures
        s[k].updated_at as int <= notification_stamp_max_from(s, i),
    decreases k - i,
{
    if i < k {
        lemma_notification_stamp_max_from(s, i + 1, k);
    }
}

/// The larger of two clock values.
fn max_u64(a: u64, b: u64) -> (r: u64)
    ensures
        r as int == vstd::math::max(a as int, b as int),
{
    if a < b {
        b
    } else {
        a
    }
}

/// The largest `updated_at` stamp among the stored users, or zero.
fn max_user_stamp(users: &Vec<User>) -> (m: u64)
    ensures
        m as int == user_stamp_max_from(users.deep_view(), 0),
{
    let ghost s = users.deep_view();
    let mut m: u64 = 0;
    let mut i: usize = 0;
    while i < users.len()
        invariant
            i <= users.len(),
            s == users.deep_view(),
            vstd::math::max(m as int, user_stamp_max_from(s, i as int)) == user_stamp_max_from(
                s,
                0,
            ),
            m as int <= user_stamp_max_from(s, 0),
        decreases users.len() - i,
    {
        let ts = users[i].updated_at;
        proof {
            assert(s[i as int].updated_at == ts);
        }
        if ts > m {
            m = ts;
        }
        i = i + 1;
    }
    m
}

/// The largest `updated_at` stamp among the stored groups, or zero.
fn max_group_stamp(groups: &Vec<Group>) -> (m: u64)
    ensures
        m as int == group_stamp_max_from(groups.deep_view(), 0),
{
    let ghost s = groups.deep_view();
    let mut m: u64 = 0;
    let mut i: usize = 0;
    while i < groups.len()
        invariant
            i <= groups.len(),
            s == groups.deep_view(),
            vstd::math::max(m as int, group_stamp_max_from(s, i as int)) == group_stamp_max_from(
                s,
                0,
            ),
            m as int <= group_stamp_max_from(s, 0),
        decreases groups.len() - i,
    {
        let ts = groups[i].updated_at;
        proof {
            assert(s[i as int].updated_at == ts);
        }
        if ts > m {
            m = ts;
        }
        i = i + 1;
    }
    m
}

/// The largest `updated_at` stamp among the stored payments, or zero.
fn max_payment_stamp(payments: &Vec<Payment>) -> (m: u64)
    ensures
        m as int == payment_stamp_max_from(payments.deep_view(), 0),
{
    let ghost s = payments.deep_view();
    let mut m: u64 = 0;
    let mut i: usize = 0;
    while i < payments.len()
        invariant
            i <= payments.len(),
            s == payments.deep_view(),
            vstd::math::max(m as int, payment_stamp_max_from(s, i as int))
                == payment_stamp_max_from(s, 0),
            m as int <= payment_stamp_max_from(s, 0),
        decreases payments.len() - i,
    {
        let ts = payments[i].updated_at;
        proof {
            assert(s[i as int].updated_at == ts);
        }
        if ts > m {
            m = ts;
        }
        i = i + 1;
    }
    m
}

/// The largest `updated_at` stamp among the stored notifications, or zero.
fn max_notification_stamp(notifications: &Vec<Notification>) -> (m: u64)
    ensures
        m as int == notification_stamp_max_from(notifications.deep_view(), 0),
{
    let ghost s = notifications.deep_view();
    let mut m: u64 = 0;
    let mut i: usize = 0;
    while i < notifications.len()
        invariant
            i <= notifications.len(),
            s == notifications.deep_view(),
            vstd::math::max(m as int, notification_stamp_max_from(s, i as int))
                == notification_stamp_max_from(s, 0),
            m as int <= notification_stamp_max_from(s, 0),
        decreases notifications.len() - i,
    {
        let ts = notifications[i].updated_at;
        proof {
            assert(s[i as int].updated_at == ts);
        }
        if ts > m {
            m = ts;
        }
        i = i + 1;
    }
    m
}

} // verus!
