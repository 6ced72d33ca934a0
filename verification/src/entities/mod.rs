//! The domain entities: users, groups, payments, notifications, and the
//! settlement output, together with their mathematical views.

pub mod auth;
pub mod group;
pub mod notification;
pub mod payment;
pub mod user;
pub mod warikan;

pub use auth::AuthState;
pub use auth::AuthView;
pub use auth::Claims;
pub use auth::ClaimsView;
pub use group::Group;
pub use group::GroupID;
pub use group::GroupView;
pub use notification::Notification;
pub use notification::NotificationID;
pub use notification::NotificationView;
pub use payment::Amount;
pub use payment::AmountView;
pub use payment::Payment;
pub use payment::PaymentID;
pub use payment::PaymentView;
pub use user::User;
pub use user::UserID;
pub use user::UserView;
pub use warikan::spec_warikan;
pub use warikan::BalView;
pub use warikan::Warikan;
pub use warikan::WarikanView;

use vstd::prelude::*;

verus! {

/// Error for conversions that cannot fail.
#[derive(Debug)]
pub struct UnreachableError;

} // verus!
