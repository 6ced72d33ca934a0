//! Group operations: creation, patching, deletion with its cascade over
//! scoped payments and notifications, and the membership-guarded reads.

use crate::entities::group::contains_user;
use crate::entities::AuthState;
use crate::entities::AuthView;
use crate::entities::Group;
use crate::entities::GroupID;
use crate::entities::GroupView;
use crate::entities::NotificationView;
use crate::entities::PaymentView;
use crate::entities::UserID;
use crate::repositories::find_by_key;
use crate::repositories::groups_of_user;
use crate::repositories::keyed::lemma_remove_by_key;
use crate::repositories::keyed::lemma_replace_contains;
use crate::repositories::keyed::lemma_upsert_contains;
use crate::repositories::notifications_of_group;
use crate::repositories::payments_of_group;
use crate::repositories::remove_by_key;
use crate::repositories::replace_by_key;
use crate::repositories::upsert_by_key;
use crate::repositories::with_groups;
use crate::repositories::with_notifications;
use crate::repositories::with_payments;
use crate::usecases::generate_id;
use crate::usecases::result_dv;
use crate::usecases::spec_tick;
use crate::usecases::UseCase;
use crate::usecases::UseCaseError;
use crate::usecases::UseCaseView;
use vstd::prelude::*;

verus! {

/// Input of [`UseCase::create_group`].
#[derive(Debug)]
pub struct CreateGroupInput {
    pub title: String,
}

/// Input of [`UseCase::update_group`]: an absent field keeps the stored
/// value; a present participant list replaces the stored one wholesale.
#[derive(Debug)]
pub struct UpdateGroupInput {
    pub id: GroupID,
    pub title: Option<String>,
    pub participants: Option<Vec<UserID>>,
}

/// Input of [`UseCase::delete_group`].
#[derive(Debug)]
pub struct DeleteGroupInput {
    pub id: GroupID,
}

/// Outcome of a group read under the membership guard: the stored record
/// for a participant, `NotFound` for an absent group, `Forbidden` for a
/// non-participant.
pub open spec fn spec_get_group(pre: UseCaseView, auth: AuthView, id: Seq<char>) -> Result<
    Option<GroupView>,
    UseCaseError,
> {
    match auth {
        AuthView::Unauthorized => Result::Err(UseCaseError::Unauthorized),
        AuthView::Authorized(c) => if pre.store.faults.get_group {
            Result::Err(UseCaseError::InternalServerError)
        } else {
            match find_by_key(pre.store.groups, id) {
                Option::None => Result::Err(UseCaseError::NotFound),
                Option::Some(g) => if g.participants.contains(c.sub) {
                    Result::Ok(Some(g))
                } else {
                    Result::Err(UseCaseError::Forbidden)
                },
            }
        },
    }
}

/// Outcome of listing the groups of a user: only the user may list their
/// own groups.
pub open spec fn spec_get_groups_by_user(pre: UseCaseView, auth: AuthView, id: Seq<char>) -> Result<
    Seq<GroupView>,
    UseCaseError,
> {
    match auth {
        AuthView::Unauthorized => Result::Err(UseCaseError::Unauthorized),
        AuthView::Authorized(c) => if id != c.sub {
            Result::Err(UseCaseError::Forbidden)
        } else if pre.store.faults.get_groups_by_user {
            Result::Err(UseCaseError::InternalServerError)
        } else {
            Result::Ok(groups_of_user(pre.store.groups, id))
        },
    }
}

/// Outcome and post-state of group creation: any authenticated caller may
/// create, and becomes the sole participant.
pub open spec fn spec_create_group(
    pre: UseCaseView,
    auth: AuthView,
    title: Seq<char>,
    id: Seq<char>,
) -> (UseCaseView, Result<GroupView, UseCaseError>) {
    match auth {
        AuthView::Unauthorized => (pre, Result::Err(UseCaseError::Unauthorized)),
        AuthView::Authorized(c) => {
            let ticked = UseCaseView { store: pre.store, clock: spec_tick(pre.clock) };
            if pre.store.faults.create_group {
                (ticked, Result::Err(UseCaseError::InternalServerError))
            } else {
                let g = GroupView {
                    id,
                    created_at: pre.clock,
                    updated_at: pre.clock,
                    title,
                    participants: seq![c.sub],
                };
                (
                    UseCaseView {
                        store: with_groups(pre.store, upsert_by_key(pre.store.groups, g)),
                        clock: spec_tick(pre.clock),
                    },
                    Result::Ok(g),
                )
            }
        },
    }
}

/// Outcome and post-state of a group patch: the membership guard runs
/// first; an absent field keeps the stored value, `created_at` is carried
/// over, and `updated_at` becomes the clock value.
pub open spec fn spec_update_group(
    pre: UseCaseView,
    auth: AuthView,
    id: Seq<char>,
    title: Option<Seq<char>>,
    participants: Option<Seq<Seq<char>>>,
) -> (UseCaseView, Result<GroupView, UseCaseError>) {
    match spec_get_group(pre, auth, id) {
        Result::Err(e) => (pre, Result::Err(e)),
        Result::Ok(None) => (pre, Result::Err(UseCaseError::NotFound)),
        Result::Ok(Some(g)) => {
            let ticked = UseCaseView { store: pre.store, clock: spec_tick(pre.clock) };
            if pre.store.faults.update_group {
                (ticked, Result::Err(UseCaseError::InternalServerError))
            } else {
                let g2 = GroupView {
                    id,
                    created_at: g.created_at,
                    updated_at: pre.clock,
                    title: match title {
                        Option::Some(t) => t,
                        Option::None => g.title,
                    },
                    participants: match participants {
                        Option::Some(p) => p,
                        Option::None => g.participants,
                    },
                };
                (
                    UseCaseView {
                        store: with_groups(pre.store, replace_by_key(pre.store.groups, g2)),
                        clock: spec_tick(pre.clock),
                    },
                    Result::Ok(g2),
                )
            }
        },
    }
}

/// The payment collection after deleting each listed record by identifier,
/// in list order.
pub open spec fn remove_listed_payments(
    s: Seq<PaymentView>,
    listed: Seq<PaymentView>,
) -> Seq<PaymentView>
    decreases listed.len(),
{
    if listed.len() == 0 {
        s
    } else {
        remove_listed_payments(remove_by_key(s, listed.first().id), listed.drop_first())
    }
}

/// The notification collection after deleting each listed record by
/// identifier, in list order.
pub open spec fn remove_listed_notifications(
    s: Seq<NotificationView>,
    listed: Seq<NotificationView>,
) -> Seq<NotificationView>
    decreases listed.len(),
{
    if listed.len() == 0 {
        s
    } else {
        remove_listed_notifications(remove_by_key(s, listed.first().id), listed.drop_first())
    }
}

/// What the listed deletions leave: records of the original whose
/// identifier is not among the listed ones.
pub proof fn lemma_remove_listed_payments(s: Seq<PaymentView>, listed: Seq<PaymentView>)
    ensures
        forall|x: PaymentView| #[trigger] remove_listed_payments(s, listed).contains(x)
            ==> s.contains(x) && (forall|k: int| 0 <= k < listed.len() ==> x.id != listed[k].id),
    decreases listed.len(),
{
    if listed.len() == 0 {
    } else {
        let s2 = remove_by_key(s, listed.first().id);
        lemma_remove_by_key(s, listed.first().id);
        lemma_remove_listed_payments(s2, listed.drop_first());
        assert forall|x: PaymentView| #[trigger] remove_listed_payments(s, listed).contains(
            x,
        ) implies s.contains(x) && (forall|k: int|
            0 <= k < listed.len() ==> x.id != listed[k].id) by {
            assert(remove_listed_payments(s2, listed.drop_first()).contains(x));
            assert(s2.contains(x));
            assert forall|k: int| 0 <= k < listed.len() implies x.id != listed[k].id by {
                if k > 0 {
                    assert(listed.drop_first()[k - 1] == listed[k]);
                }
            }
        }
    }
}

/// What the listed deletions leave: records of the original whose
/// identifier is not among the listed ones.
pub proof fn lemma_remove_listed_notifications(
    s: Seq<NotificationView>,
    listed: Seq<NotificationView>,
)
    ensures
        forall|x: NotificationView| #[trigger] remove_listed_notifications(s, listed).contains(x)
            ==> s.contains(x) && (forall|k: int| 0 <= k < listed.len() ==> x.id != listed[k].id),
    decreases listed.len(),
{
    if listed.len() == 0 {
    } else {
        let s2 = remove_by_key(s, listed.first().id);
        lemma_remove_by_key(s, listed.first().id);
        lemma_remove_listed_notifications(s2, listed.drop_first());
        assert forall|x: NotificationView| #[trigger] remove_listed_notifications(
            s,
            listed,
        ).contains(x) implies s.contains(x) && (forall|k: int|
            0 <= k < listed.len() ==> x.id != listed[k].id) by {
            assert(remove_listed_notifications(s2, listed.drop_first()).contains(x));
            assert(s2.contains(x));
            assert forall|k: int| 0 <= k < listed.len() implies x.id != listed[k].id by {
                if k > 0 {
                    assert(listed.drop_first()[k - 1] == listed[k]);
                }
            }
        }
    }
}

/// Outcome and post-state of a group deletion: after the membership guard,
/// the group record is removed, then every scoped payment, then every
/// scoped notification. A failing dependent delete surfaces as an
/// infrastructure error and leaves the records already removed gone: the
/// cascade is not atomic.
pub open spec fn spec_delete_group(pre: UseCaseView, auth: AuthView, id: Seq<char>) -> (
    UseCaseView,
    Result<Seq<char>, UseCaseError>,
) {
    match spec_get_group(pre, auth, id) {
        Result::Err(e) => (pre, Result::Err(e)),
        Result::Ok(None) => (pre, Result::Err(UseCaseError::NotFound)),
        Result::Ok(Some(_)) => {
            if pre.store.faults.delete_group {
                (pre, Result::Err(UseCaseError::InternalServerError))
            } else {
                let s1 = with_groups(pre.store, remove_by_key(pre.store.groups, id));
                if pre.store.faults.get_payments_by_group {
                    (UseCaseView { store: s1, clock: pre.clock }, Result::Err(
                        UseCaseError::InternalServerError,
                    ))
                } else {
                    let listed = payments_of_group(s1.payments, id);
                    if pre.store.faults.delete_payment && listed.len() > 0 {
                        (UseCaseView { store: s1, clock: pre.clock }, Result::Err(
                            UseCaseError::InternalServerError,
                        ))
                    } else {
                        let s2 = with_payments(s1, remove_listed_payments(s1.payments, listed));
                        if pre.store.faults.get_notifications_by_group {
                            (UseCaseView { store: s2, clock: pre.clock }, Result::Err(
                                UseCaseError::InternalServerError,
                            ))
                        } else {
                            let nlisted = notifications_of_group(s2.notifications, id);
                            if pre.store.faults.delete_notification && nlisted.len() > 0 {
                                (UseCaseView { store: s2, clock: pre.clock }, Result::Err(
                                    UseCaseError::InternalServerError,
                                ))
                            } else {
                                let s3 = with_notifications(
                                    s2,
                                    remove_listed_notifications(s2.notifications, nlisted),
                                );
                                (UseCaseView { store: s3, clock: pre.clock }, Result::Ok(id))
                            }
                        }
                    }
                }
            }
        },
    }
}

impl UseCase {
    /// Reads a group under the membership guard: participants get the
    /// record, non-participants are refused, an absent group is reported
    /// as `NotFound`.
    pub fn get_group(&self, auth: &AuthState, id: &GroupID) -> (r: Result<
        Option<Group>,
        UseCaseError,
    >)
        ensures
            result_dv(r) == spec_get_group(self@, auth@, id@),
    {
        match auth {
            AuthState::Unauthorized => Err(UseCaseError::Unauthorized),
            AuthState::Authorized(claims) => {
                let found = match self.store.get_group(id) {
                    Err(_) => {
                        return Err(UseCaseError::InternalServerError);
                    },
                    Ok(f) => f,
                };
                match found {
                    None => Err(UseCaseError::NotFound),
                    Some(g) => {
                        let caller = UserID::new(claims.sub.as_str());
                        if contains_user(&g.participants, &caller) {
                            Ok(Some(g))
                        } else {
                            Err(UseCaseError::Forbidden)
                        }
                    },
                }
            },
        }
    }

    /// Lists the groups a user participates in; only the user may list
    /// their own.
    pub fn get_groups_by_user(&self, auth: &AuthState, id: &UserID) -> (r: Result<
        Vec<Group>,
        UseCaseError,
    >)
        ensures
            result_dv(r) == spec_get_groups_by_user(self@, auth@, id@),
    {
        match auth {
            AuthState::Unauthorized => Err(UseCaseError::Unauthorized),
            AuthState::Authorized(claims) => {
                if !(id.0 == claims.sub) {
                    return Err(UseCaseError::Forbidden);
                }
                match self.store.get_groups_by_user(id) {
                    Err(_) => Err(UseCaseError::InternalServerError),
                    Ok(gs) => Ok(gs),
                }
            },
        }
    }

    /// Creates a group with a fresh identifier, the caller as its only
    /// participant, and both timestamps taken from the service clock.
    pub fn create_group(&mut self, auth: &AuthState, input: CreateGroupInput) -> (r: Result<
        Group,
        UseCaseError,
    >)
        requires
            old(self).wf(),
        ensures
            final(self).wf(),
            ({
                let id = (match r {
                    Result::Ok(g) => g@.id,
                    Result::Err(_) => Seq::<char>::empty(),
                });
                let outcome = spec_create_group(old(self)@, auth@, input.title@, id);
                final(self)@ == outcome.0 && result_dv(r) == outcome.1
            }),
            (r matches Result::Ok(g) ==> g@.id.len() == 21),
    {
        match auth {
            AuthState::Unauthorized => Err(UseCaseError::Unauthorized),
            AuthState::Authorized(claims) => {
                let now = self.stamp();
                let group = Group {
                    id: GroupID(generate_id()),
                    created_at: now,
                    updated_at: now,
                    title: input.title,
                    participants: vec![UserID::new(claims.sub.as_str())],
                };
                let ghost gv = group@;
                proof {
                    assert(gv.participants =~~= seq![claims.sub@]);
                }
                match self.store.create_group(group) {
                    Ok(g) => {
                        proof {
                            lemma_upsert_contains(old(self)@.store.groups, gv);
                            assert(self@ =~~= spec_create_group(
                                old(self)@,
                                auth@,
                                gv.title,
                                gv.id,
                            ).0);
                        }
                        Ok(g)
                    },
                    Err(_) => Err(UseCaseError::InternalServerError),
                }
            },
        }
    }

    /// Patches a group under the membership guard: an absent field keeps
    /// the stored value, a present participant list replaces the stored
    /// one wholesale, and `updated_at` advances to the clock value.
    pub fn update_group(&mut self, auth: &AuthState, input: UpdateGroupInput) -> (r: Result<
        Group,
        UseCaseError,
    >)
        requires
            old(self).wf(),
        ensures
            final(self).wf(),
            final(self)@ == spec_update_group(
                old(self)@,
                auth@,
                input.id@,
                input.title.deep_view(),
                input.participants.deep_view(),
            ).0,
            result_dv(r) == spec_update_group(
                old(self)@,
                auth@,
                input.id@,
                input.title.deep_view(),
                input.participants.deep_view(),
            ).1,
    {
        let stored = match self.get_group(auth, &input.id) {
            Err(e) => {
                return Err(e);
            },
            Ok(None) => {
                return Err(UseCaseError::NotFound);
            },
            Ok(Some(g)) => g,
        };
        let now = self.stamp();
        let ghost titlev = input.title.deep_view();
        let ghost participantsv = input.participants.deep_view();
        let group = Group {
            id: input.id,
            created_at: stored.created_at,
            updated_at: now,
            title: match input.title {
                Some(t) => t,
                None => stored.title,
            },
            participants: match input.participants {
                Some(p) => p,
                None => stored.participants,
            },
        };
        let ghost gv = group@;
        match self.store.update_group(group) {
            Ok(g) => {
                proof {
                    lemma_replace_contains(old(self)@.store.groups, gv);
                    assert(self@ =~~= spec_update_group(
                        old(self)@,
                        auth@,
                        gv.id,
                        titlev,
                        participantsv,
                    ).0);
                }
                Ok(g)
            },
            Err(_) => Err(UseCaseError::InternalServerError),
        }
    }

    /// Deletes a group under the membership guard, then deletes every
    /// payment and every notification scoped to it. The cascade is not
    /// atomic: a failing dependent delete surfaces as an infrastructure
    /// error while the records already removed stay gone.
    #[verifier::loop_isolation(false)]
    pub fn delete_group(&mut self, auth: &AuthState, input: DeleteGroupInput) -> (r: Result<
        GroupID,
        UseCaseError,
    >)
        requires
            old(self).wf(),
        ensures
            final(self).wf(),
            final(self)@ == spec_delete_group(old(self)@, auth@, input.id@).0,
            result_dv(r) == spec_delete_group(old(self)@, auth@, input.id@).1,
    {
        match self.get_group(auth, &input.id) {
            Err(e) => {
                return Err(e);
            },
            Ok(None) => {
                return Err(UseCaseError::NotFound);
            },
            Ok(Some(_)) => {},
        }
        if let Err(_) = self.store.delete_group(&input.id) {
            return Err(UseCaseError::InternalServerError);
        }
        proof {
            lemma_remove_by_key(old(self)@.store.groups, input.id@);
        }
        let ghost s1 = self@;
        let listed = match self.store.get_payments_by_group(&input.id) {
            Err(_) => {
                return Err(UseCaseError::InternalServerError);
            },
            Ok(v) => v,
        };
        let ghost vs = listed.deep_view();
        let mut j: usize = 0;
        proof {
            assert(vs.skip(0) =~~= vs);
        }
        while j < listed.len()
            invariant
                j <= listed.len(),
                vs == listed.deep_view(),
                j > 0 ==> !self.store.faults.delete_payment,
                j == 0 ==> self@ == s1,
                self@.store.users == s1.store.users,
                self@.store.groups == s1.store.groups,
                self@.store.notifications == s1.store.notifications,
                self@.store.faults == s1.store.faults,
                self@.clock == s1.clock,
                remove_listed_payments(s1.store.payments, vs) == remove_listed_payments(
                    self@.store.payments,
                    vs.skip(j as int),
                ),
            decreases listed.len() - j,
        {
            proof {
                assert(vs.skip(j as int).first() == vs[j as int]);
                assert(vs.skip(j as int).drop_first() =~~= vs.skip(j as int + 1));
            }
            if let Err(_) = self.store.delete_payment(&listed[j].id) {
                proof {
                    assert(vs.len() > 0);
                }
                return Err(UseCaseError::InternalServerError);
            }
            proof {
                assert(self@.store.payments == remove_by_key(
                    remove_listed_payments(s1.store.payments, vs.take(0)),
                    vs[j as int].id,
                ) ==> true);
                assert(remove_listed_payments(s1.store.payments, vs) == remove_listed_payments(
                    self@.store.payments,
                    vs.skip(j as int + 1),
                ));
            }
            j = j + 1;
        }
        proof {
            assert(vs.skip(vs.len() as int) =~~= Seq::<PaymentView>::empty());
            assert(self@.store.payments == remove_listed_payments(s1.store.payments, vs));
            lemma_remove_listed_payments(s1.store.payments, vs);
        }
        let ghost s2 = self@;
        let nlisted = match self.store.get_notifications_by_group(&input.id) {
            Err(_) => {
                return Err(UseCaseError::InternalServerError);
            },
            Ok(v) => v,
        };
        let ghost nvs = nlisted.deep_view();
        let mut j: usize = 0;
        proof {
            assert(nvs.skip(0) =~~= nvs);
        }
        while j < nlisted.len()
            invariant
                j <= nlisted.len(),
                nvs == nlisted.deep_view(),
                j > 0 ==> !self.store.faults.delete_notification,
                j == 0 ==> self@ == s2,
                self@.store.users == s2.store.users,
                self@.store.groups == s2.store.groups,
                self@.store.payments == s2.store.payments,
                self@.store.faults == s2.store.faults,
                self@.clock == s2.clock,
                remove_listed_notifications(s2.store.notifications, nvs)
                    == remove_listed_notifications(self@.store.notifications, nvs.skip(j as int)),
            decreases nlisted.len() - j,
        {
            proof {
                assert(nvs.skip(j as int).first() == nvs[j as int]);
                assert(nvs.skip(j as int).drop_first() =~~= nvs.skip(j as int + 1));
            }
            if let Err(_) = self.store.delete_notification(&nlisted[j].id) {
                proof {
                    assert(nvs.len() > 0);
                }
                return Err(UseCaseError::InternalServerError);
            }
            proof {
                assert(remove_listed_notifications(s2.store.notifications, nvs)
                    == remove_listed_notifications(
                    self@.store.notifications,
                    nvs.skip(j as int + 1),
                ));
            }
            j = j + 1;
        }
        proof {
            assert(nvs.skip(nvs.len() as int) =~~= Seq::<NotificationView>::empty());
            assert(self@.store.notifications == remove_listed_notifications(
                s2.store.notifications,
                nvs,
            ));
            lemma_remove_listed_payments(s1.store.payments, vs);
            lemma_remove_listed_notifications(s2.store.notifications, nvs);
            assert(self@ =~~= spec_delete_group(old(self)@, auth@, input.id@).0);
        }
        Ok(input.id)
    }
}

} // verus!
