//! Notification operations. Like payments, notifications carry no access
//! list of their own: every read and write runs the owning group through
//! the membership guard.

use crate::entities::AuthState;
use crate::entities::AuthView;
use crate::entities::GroupID;
use crate::entities::Notification;
use crate::entities::NotificationID;
use crate::entities::NotificationView;
use crate::repositories::find_by_key;
use crate::repositories::keyed::lemma_remove_by_key;
use crate::repositories::keyed::lemma_upsert_contains;
use crate::repositories::notifications_of_group;
use crate::repositories::remove_by_key;
use crate::repositories::upsert_by_key;
use crate::repositories::with_notifications;
use crate::usecases::generate_id;
use crate::usecases::group::spec_get_group;
use crate::usecases::result_dv;
use crate::usecases::spec_tick;
use crate::usecases::UseCase;
use crate::usecases::UseCaseError;
use crate::usecases::UseCaseView;
use vstd::prelude::*;

verus! {

/// Input of [`UseCase::create_notification`].
#[derive(Debug)]
pub struct CreateNotificationInput {
    pub message: String,
    pub group: GroupID,
}

/// Input of [`UseCase::delete_notification`].
#[derive(Debug)]
pub struct DeleteNotificationInput {
    pub id: NotificationID,
}

/// Outcome of a notification read under the transitive guard: the
/// notification's own existence is checked first, then its owning group's
/// membership.
pub open spec fn spec_get_notification(pre: UseCaseView, auth: AuthView, id: Seq<char>) -> Result<
    Option<NotificationView>,
    UseCaseError,
> {
    match auth {
        AuthView::Unauthorized => Result::Err(UseCaseError::Unauthorized),
        AuthView::Authorized(c) => if pre.store.faults.get_notification {
            Result::Err(UseCaseError::InternalServerError)
        } else {
            match find_by_key(pre.store.notifications, id) {
                Option::None => Result::Err(UseCaseError::NotFound),
                Option::Some(n) => match spec_get_group(pre, auth, n.group) {
                    Result::Err(e) => Result::Err(e),
                    Result::Ok(_) => Result::Ok(Some(n)),
                },
            }
        },
    }
}

/// Outcome of listing a group's notifications: the membership guard runs
/// on the group, then the scoped notifications are returned in storage
/// order.
pub open spec fn spec_get_notifications_by_group(
    pre: UseCaseView,
    auth: AuthView,
    group: Seq<char>,
) -> Result<Seq<NotificationView>, UseCaseError> {
    match spec_get_group(pre, auth, group) {
        Result::Err(e) => Result::Err(e),
        Result::Ok(None) => Result::Err(UseCaseError::NotFound),
        Result::Ok(Some(_)) => if pre.store.faults.get_notifications_by_group {
            Result::Err(UseCaseError::InternalServerError)
        } else {
            Result::Ok(notifications_of_group(pre.store.notifications, group))
        },
    }
}

/// Outcome and post-state of notification creation: the membership guard
/// runs on the target group, and both timestamps are taken from the clock.
pub open spec fn spec_create_notification(
    pre: UseCaseView,
    auth: AuthView,
    message: Seq<char>,
    group: Seq<char>,
    id: Seq<char>,
) -> (UseCaseView, Result<NotificationView, UseCaseError>) {
    match spec_get_group(pre, auth, group) {
        Result::Err(e) => (pre, Result::Err(e)),
        Result::Ok(None) => (pre, Result::Err(UseCaseError::NotFound)),
        Result::Ok(Some(_)) => {
            let ticked = UseCaseView { store: pre.store, clock: spec_tick(pre.clock) };
            if pre.store.faults.create_notification {
                (ticked, Result::Err(UseCaseError::InternalServerError))
            } else {
                let n = NotificationView {
                    id,
                    created_at: pre.clock,
                    updated_at: pre.clock,
                    message,
                    group,
                };
                (
                    UseCaseView {
                        store: with_notifications(
                            pre.store,
                            upsert_by_key(pre.store.notifications, n),
                        ),
                        clock: spec_tick(pre.clock),
                    },
                    Result::Ok(n),
                )
            }
        },
    }
}

/// Outcome and post-state of a notification deletion under the transitive
/// guard.
pub open spec fn spec_delete_notification(pre: UseCaseView, auth: AuthView, id: Seq<char>) -> (
    UseCaseView,
    Result<Seq<char>, UseCaseError>,
) {
    match spec_get_notification(pre, auth, id) {
        Result::Err(e) => (pre, Result::Err(e)),
        Result::Ok(None) => (pre, Result::Err(UseCaseError::NotFound)),
        Result::Ok(Some(n)) => if pre.store.faults.delete_notification {
            (pre, Result::Err(UseCaseError::InternalServerError))
        } else {
            (
                UseCaseView {
                    store: with_notifications(
                        pre.store,
                        remove_by_key(pre.store.notifications, n.id),
                    ),
                    clock: pre.clock,
                },
                Result::Ok(n.id),
            )
        },
    }
}

impl UseCase {
    /// Reads a notification under the transitive guard: the notification
    /// must exist and the caller must be a participant of its owning
    /// group.
    pub fn get_notification(&self, auth: &AuthState, id: &NotificationID) -> (r: Result<
        Option<Notification>,
        UseCaseError,
    >)
        ensures
            result_dv(r) == spec_get_notification(self@, auth@, id@),
    {
        match auth {
            AuthState::Unauthorized => Err(UseCaseError::Unauthorized),
            AuthState::Authorized(_) => {
                let found = match self.store.get_notification(id) {
                    Err(_) => {
                        return Err(UseCaseError::InternalServerError);
                    },
                    Ok(f) => f,
                };
                match found {
                    None => Err(UseCaseError::NotFound),
                    Some(n) => match self.get_group(auth, &n.group) {
                        Err(e) => Err(e),
                        Ok(_) => Ok(Some(n)),
                    },
                }
            },
        }
    }

    /// Lists a group's notifications under the membership guard, in
    /// storage order.
    pub fn get_notifications_by_group(&self, auth: &AuthState, id: &GroupID) -> (r: Result<
        Vec<Notification>,
        UseCaseError,
    >)
        ensures
            result_dv(r) == spec_get_notifications_by_group(self@, auth@, id@),
    {
        match self.get_group(auth, id) {
            Err(e) => {
                return Err(e);
            },
            Ok(None) => {
                return Err(UseCaseError::NotFound);
            },
            Ok(Some(_)) => {},
        }
        match self.store.get_notifications_by_group(id) {
            Err(_) => Err(UseCaseError::InternalServerError),
            Ok(ns) => Ok(ns),
        }
    }

    /// Creates a notification in a group under the membership guard: a
    /// fresh identifier and both timestamps from the clock.
    pub fn create_notification(
        &mut self,
        auth: &AuthState,
        input: CreateNotificationInput,
    ) -> (r: Result<Notification, UseCaseError>)
        requires
            old(self).wf(),
        ensures
            final(self).wf(),
            ({
                let id = (match r {
                    Result::Ok(n) => n@.id,
                    Result::Err(_) => Seq::<char>::empty(),
                });
                let outcome = spec_create_notification(
                    old(self)@,
                    auth@,
                    input.message@,
                    input.group@,
                    id,
                );
                final(self)@ == outcome.0 && result_dv(r) == outcome.1
            }),
            (r matches Result::Ok(n) ==> n@.id.len() == 21),
    {
        match self.get_group(auth, &input.group) {
            Err(e) => {
                return Err(e);
            },
            Ok(None) => {
                return Err(UseCaseError::NotFound);
            },
            Ok(Some(_)) => {},
        }
        let now = self.stamp();
        let notification = Notification {
            id: NotificationID(generate_id()),
            created_at: now,
            updated_at: now,
            message: input.message,
            group: input.group,
        };
        let ghost nv = notification@;
        match self.store.create_notification(notification) {
            Ok(n) => {
                proof {
                    lemma_upsert_contains(old(self)@.store.notifications, nv);
                    assert(self@ =~~= spec_create_notification(
                        old(self)@,
                        auth@,
                        nv.message,
                        nv.group,
                        nv.id,
                    ).0);
                }
                Ok(n)
            },
            Err(_) => Err(UseCaseError::InternalServerError),
        }
    }

    /// Deletes a notification under the transitive guard.
    pub fn delete_notification(
        &mut self,
        auth: &AuthState,
        input: DeleteNotificationInput,
    ) -> (r: Result<NotificationID, UseCaseError>)
        requires
            old(self).wf(),
        ensures
            final(self).wf(),
            final(self)@ == spec_delete_notification(old(self)@, auth@, input.id@).0,
            result_dv(r) == spec_delete_notification(old(self)@, auth@, input.id@).1,
    {
        let stored = match self.get_notification(auth, &input.id) {
            Err(e) => {
                return Err(e);
            },
            Ok(None) => {
                return Err(UseCaseError::NotFound);
            },
            Ok(Some(n)) => n,
        };
        match self.store.delete_notification(&stored.id) {
            Ok(_) => {
                proof {
                    lemma_remove_by_key(old(self)@.store.notifications, stored.id@);
                    assert(self@ =~~= spec_delete_notification(old(self)@, auth@, input.id@).0);
                }
                Ok(stored.id)
            },
            Err(_) => Err(UseCaseError::InternalServerError),
        }
    }
}

} // verus!
