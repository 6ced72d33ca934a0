//! User operations: creation, patching, deletion and lookups, all guarded
//! by self-ownership — a caller may only touch the user record whose
//! identifier equals their own subject.

use crate::entities::AuthState;
use crate::entities::AuthView;
use crate::entities::User;
use crate::entities::UserID;
use crate::entities::UserView;
use crate::repositories::find_by_key;
use crate::repositories::keyed::lemma_remove_by_key;
use crate::repositories::keyed::lemma_replace_contains;
use crate::repositories::keyed::lemma_upsert_contains;
use crate::repositories::remove_by_key;
use crate::repositories::replace_by_key;
use crate::repositories::upsert_by_key;
use crate::repositories::with_users;
use crate::usecases::result_dv;
use crate::usecases::spec_tick;
use crate::usecases::UseCase;
use crate::usecases::UseCaseError;
use crate::usecases::UseCaseView;
use vstd::prelude::*;

verus! {

/// Input of [`UseCase::create_user`].
#[derive(Debug)]
pub struct CreateUserInput {
    pub name: String,
}

/// Input of [`UseCase::update_user`]: an absent field keeps the stored
/// value.
#[derive(Debug)]
pub struct UpdateUserInput {
    pub id: UserID,
    pub name: Option<String>,
}

/// Input of [`UseCase::delete_user`].
#[derive(Debug)]
pub struct DeleteUserInput {
    pub id: UserID,
}

/// Outcome of a user lookup: the stored record, unless the caller is
/// unauthenticated or the gateway fails.
pub open spec fn spec_get_user_opt(pre: UseCaseView, auth: AuthView, id: Seq<char>) -> Result<
    Option<UserView>,
    UseCaseError,
> {
    match auth {
        AuthView::Unauthorized => Result::Err(UseCaseError::Unauthorized),
        AuthView::Authorized(c) => if pre.store.faults.get_user {
            Result::Err(UseCaseError::InternalServerError)
        } else {
            Result::Ok(find_by_key(pre.store.users, id))
        },
    }
}

/// Outcome of a required user lookup: as [`spec_get_user_opt`], with an
/// absent record reported as `NotFound`.
pub open spec fn spec_get_user(pre: UseCaseView, auth: AuthView, id: Seq<char>) -> Result<
    UserView,
    UseCaseError,
> {
    match spec_get_user_opt(pre, auth, id) {
        Result::Ok(Some(u)) => Result::Ok(u),
        Result::Ok(None) => Result::Err(UseCaseError::NotFound),
        Result::Err(e) => Result::Err(e),
    }
}

/// The stored records of the requested identifiers, in request order;
/// identifiers that resolve to no record are dropped.
pub open spec fn spec_lookup_users(users: Seq<UserView>, ids: Seq<Seq<char>>) -> Seq<UserView>
    decreases ids.len(),
{
    if ids.len() == 0 {
        Seq::empty()
    } else {
        match find_by_key(users, ids.first()) {
            Option::Some(u) => seq![u] + spec_lookup_users(users, ids.drop_first()),
            Option::None => spec_lookup_users(users, ids.drop_first()),
        }
    }
}

/// Outcome of a batched user lookup: every identifier is looked up, absent
/// ones are dropped, and any gateway failure fails the whole call.
pub open spec fn spec_get_user_vec(pre: UseCaseView, auth: AuthView, ids: Seq<Seq<char>>) -> Result<
    Seq<UserView>,
    UseCaseError,
> {
    match auth {
        AuthView::Unauthorized => Result::Err(UseCaseError::Unauthorized),
        AuthView::Authorized(c) => if pre.store.faults.get_user && ids.len() > 0 {
            Result::Err(UseCaseError::InternalServerError)
        } else {
            Result::Ok(spec_lookup_users(pre.store.users, ids))
        },
    }
}

/// Outcome and post-state of user creation: the caller's subject becomes
/// the identifier, both timestamps are the clock value, and the record is
/// stored.
pub open spec fn spec_create_user(pre: UseCaseView, auth: AuthView, name: Seq<char>) -> (
    UseCaseView,
    Result<UserView, UseCaseError>,
) {
    match auth {
        AuthView::Unauthorized => (pre, Result::Err(UseCaseError::Unauthorized)),
        AuthView::Authorized(c) => {
            let ticked = UseCaseView { store: pre.store, clock: spec_tick(pre.clock) };
            if pre.store.faults.create_user {
                (ticked, Result::Err(UseCaseError::InternalServerError))
            } else {
                let u = UserView {
                    id: c.sub,
                    created_at: pre.clock,
                    updated_at: pre.clock,
                    name,
                };
                (
                    UseCaseView {
                        store: with_users(pre.store, upsert_by_key(pre.store.users, u)),
                        clock: spec_tick(pre.clock),
                    },
                    Result::Ok(u),
                )
            }
        },
    }
}

/// Outcome and post-state of a user patch: only the owner may patch, the
/// record must exist, an absent name keeps the stored one, `created_at` is
/// carried over and `updated_at` becomes the clock value.
pub open spec fn spec_update_user(
    pre: UseCaseView,
    auth: AuthView,
    id: Seq<char>,
    name: Option<Seq<char>>,
) -> (UseCaseView, Result<UserView, UseCaseError>) {
    match auth {
        AuthView::Unauthorized => (pre, Result::Err(UseCaseError::Unauthorized)),
        AuthView::Authorized(c) => if id != c.sub {
            (pre, Result::Err(UseCaseError::Forbidden))
        } else if pre.store.faults.get_user {
            (pre, Result::Err(UseCaseError::InternalServerError))
        } else {
            match find_by_key(pre.store.users, id) {
                Option::None => (pre, Result::Err(UseCaseError::NotFound)),
                Option::Some(stored) => {
                    let ticked = UseCaseView { store: pre.store, clock: spec_tick(pre.clock) };
                    if pre.store.faults.update_user {
                        (ticked, Result::Err(UseCaseError::InternalServerError))
                    } else {
                        let u = UserView {
                            id,
                            created_at: stored.created_at,
                            updated_at: pre.clock,
                            name: match name {
                                Option::Some(n) => n,
                                Option::None => stored.name,
                            },
                        };
                        (
                            UseCaseView {
                                store: with_users(pre.store, replace_by_key(pre.store.users, u)),
                                clock: spec_tick(pre.clock),
                            },
                            Result::Ok(u),
                        )
                    }
                },
            }
        },
    }
}

/// Outcome and post-state of a user deletion: only the owner may delete,
/// the record must exist, and every record with the identifier is removed.
pub open spec fn spec_delete_user(pre: UseCaseView, auth: AuthView, id: Seq<char>) -> (
    UseCaseView,
    Result<Seq<char>, UseCaseError>,
) {
    match auth {
        AuthView::Unauthorized => (pre, Result::Err(UseCaseError::Unauthorized)),
        AuthView::Authorized(c) => if id != c.sub {
            (pre, Result::Err(UseCaseError::Forbidden))
        } else if pre.store.faults.get_user {
            (pre, Result::Err(UseCaseError::InternalServerError))
        } else {
            match find_by_key(pre.store.users, id) {
                Option::None => (pre, Result::Err(UseCaseError::NotFound)),
                Option::Some(stored) => if pre.store.faults.delete_user {
                    (pre, Result::Err(UseCaseError::InternalServerError))
                } else {
                    (
                        UseCaseView {
                            store: with_users(pre.store, remove_by_key(pre.store.users, id)),
                            clock: pre.clock,
                        },
                        Result::Ok(id),
                    )
                },
            }
        },
    }
}

impl UseCase {
    /// Looks a user up by identifier; any authenticated caller may look any
    /// user up.
    pub fn get_user_opt(&self, auth: &AuthState, id: &UserID) -> (r: Result<
        Option<User>,
        UseCaseError,
    >)
        ensures
            result_dv(r) == spec_get_user_opt(self@, auth@, id@),
    {
        match auth {
            AuthState::Authorized(_) => match self.store.get_user(id) {
                Ok(found) => Ok(found),
                Err(_) => Err(UseCaseError::InternalServerError),
            },
            AuthState::Unauthorized => Err(UseCaseError::Unauthorized),
        }
    }

    /// Looks a user up by identifier, reporting an absent record as
    /// `NotFound`.
    pub fn get_user(&self, auth: &AuthState, id: &UserID) -> (r: Result<User, UseCaseError>)
        ensures
            result_dv(r) == spec_get_user(self@, auth@, id@),
    {
        match self.get_user_opt(auth, id) {
            Ok(Some(u)) => Ok(u),
            Ok(None) => Err(UseCaseError::NotFound),
            Err(e) => Err(e),
        }
    }

    /// Looks up each requested identifier; identifiers that resolve to no
    /// record are silently dropped, and any single gateway failure fails
    /// the whole call.
    pub fn get_user_vec(&self, auth: &AuthState, ids: &Vec<UserID>) -> (r: Result<
        Vec<User>,
        UseCaseError,
    >)
        ensures
            result_dv(r) == spec_get_user_vec(self@, auth@, ids.deep_view()),
    {
        let ghost idsv = ids.deep_view();
        match auth {
            AuthState::Unauthorized => Err(UseCaseError::Unauthorized),
            AuthState::Authorized(_) => {
                let mut out: Vec<User> = Vec::new();
                let mut i: usize = 0;
                proof {
                    assert(idsv.skip(0) =~~= idsv);
                    assert(out.deep_view() + spec_lookup_users(self@.store.users, idsv)
                        =~~= spec_lookup_users(self@.store.users, idsv));
                }
                while i < ids.len()
                    invariant
                        i <= ids.len(),
                        idsv == ids.deep_view(),
                        auth@ is Authorized,
                        i > 0 ==> !self.store.faults.get_user,
                        spec_lookup_users(self@.store.users, idsv) =~~= out.deep_view()
                            + spec_lookup_users(self@.store.users, idsv.skip(i as int)),
                    decreases ids.len() - i,
                {
                    proof {
                        assert(idsv.skip(i as int).first() == idsv[i as int]);
                        assert(idsv.skip(i as int).drop_first() =~~= idsv.skip(i as int + 1));
                    }
                    let ghost prev = out.deep_view();
                    match self.store.get_user(&ids[i]) {
                        Err(_) => {
                            proof {
                                assert(idsv.len() == ids@.len());
                                assert(idsv.len() > 0);
                            }
                            return Err(UseCaseError::InternalServerError);
                        },
                        Ok(None) => {
                            proof {
                                assert(spec_lookup_users(self@.store.users, idsv.skip(i as int))
                                    == spec_lookup_users(
                                    self@.store.users,
                                    idsv.skip(i as int + 1),
                                ));
                            }
                        },
                        Ok(Some(u)) => {
                            proof {
                                assert(u.deep_view() == find_by_key(
                                    self@.store.users,
                                    idsv[i as int],
                                )->0);
                            }
                            out.push(u);
                            proof {
                                assert(out.deep_view() =~~= prev.push(
                                    find_by_key(self@.store.users, idsv[i as int]).unwrap(),
                                ));
                                assert(spec_lookup_users(self@.store.users, idsv.skip(i as int))
                                    == seq![find_by_key(self@.store.users, idsv[i as int]).unwrap()]
                                    + spec_lookup_users(
                                    self@.store.users,
                                    idsv.skip(i as int + 1),
                                ));
                                assert(spec_lookup_users(self@.store.users, idsv)
                                    =~~= out.deep_view() + spec_lookup_users(
                                    self@.store.users,
                                    idsv.skip(i as int + 1),
                                ));
                            }
                        },
                    }
                    i = i + 1;
                }
                proof {
                    assert(idsv.skip(idsv.len() as int) =~~= Seq::<Seq<char>>::empty());
                    assert(spec_lookup_users(self@.store.users, idsv) =~~= out.deep_view());
                }
                Ok(out)
            },
        }
    }

    /// Creates the caller's own user record: the identifier is the caller's
    /// subject, and both timestamps are taken from the service clock.
    pub fn create_user(&mut self, auth: &AuthState, input: CreateUserInput) -> (r: Result<
        User,
        UseCaseError,
    >)
        requires
            old(self).wf(),
        ensures
            final(self).wf(),
            final(self)@ == spec_create_user(old(self)@, auth@, input.name@).0,
            result_dv(r) == spec_create_user(old(self)@, auth@, input.name@).1,
    {
        match auth {
            AuthState::Authorized(claims) => {
                let now = self.stamp();
                let user = User {
                    id: UserID::new(claims.sub.as_str()),
                    created_at: now,
                    updated_at: now,
                    name: input.name,
                };
                let ghost uv = user@;
                match self.store.create_user(user) {
                    Ok(u) => {
                        proof {
                            lemma_upsert_contains(old(self)@.store.users, uv);
                            assert(self@ =~~= spec_create_user(old(self)@, auth@, uv.name).0);
                        }
                        Ok(u)
                    },
                    Err(_) => Err(UseCaseError::InternalServerError),
                }
            },
            AuthState::Unauthorized => Err(UseCaseError::Unauthorized),
        }
    }

    /// Patches the caller's own user record: an absent name keeps the
    /// stored one, `created_at` is carried over, and `updated_at` advances
    /// to the clock value.
    pub fn update_user(&mut self, auth: &AuthState, input: UpdateUserInput) -> (r: Result<
        User,
        UseCaseError,
    >)
        requires
            old(self).wf(),
        ensures
            final(self).wf(),
            final(self)@ == spec_update_user(
                old(self)@,
                auth@,
                input.id@,
                input.name.deep_view(),
            ).0,
            result_dv(r) == spec_update_user(
                old(self)@,
                auth@,
                input.id@,
                input.name.deep_view(),
            ).1,
    {
        match auth {
            AuthState::Unauthorized => Err(UseCaseError::Unauthorized),
            AuthState::Authorized(claims) => {
                if !(input.id.0 == claims.sub) {
                    return Err(UseCaseError::Forbidden);
                }
                let stored = match self.store.get_user(&input.id) {
                    Err(_) => {
                        return Err(UseCaseError::InternalServerError);
                    },
                    Ok(None) => {
                        return Err(UseCaseError::NotFound);
                    },
                    Ok(Some(stored)) => stored,
                };
                let now = self.stamp();
                let ghost namev = input.name.deep_view();
                let user = User {
                    id: input.id,
                    created_at: stored.created_at,
                    updated_at: now,
                    name: match input.name {
                        Some(n) => n,
                        None => stored.name,
                    },
                };
                let ghost uv = user@;
                match self.store.update_user(user) {
                    Ok(u) => {
                        proof {
                            lemma_replace_contains(old(self)@.store.users, uv);
                            assert(self@ =~~= spec_update_user(
                                old(self)@,
                                auth@,
                                uv.id,
                                namev,
                            ).0);
                        }
                        Ok(u)
                    },
                    Err(_) => Err(UseCaseError::InternalServerError),
                }
            },
        }
    }

    /// Deletes the caller's own user record.
    pub fn delete_user(&mut self, auth: &AuthState, input: DeleteUserInput) -> (r: Result<
        UserID,
        UseCaseError,
    >)
        requires
            old(self).wf(),
        ensures
            final(self).wf(),
            final(self)@ == spec_delete_user(old(self)@, auth@, input.id@).0,
            result_dv(r) == spec_delete_user(old(self)@, auth@, input.id@).1,
    {
        match auth {
            AuthState::Unauthorized => Err(UseCaseError::Unauthorized),
            AuthState::Authorized(claims) => {
                if !(input.id.0 == claims.sub) {
                    return Err(UseCaseError::Forbidden);
                }
                match self.store.get_user(&input.id) {
                    Err(_) => {
                        return Err(UseCaseError::InternalServerError);
                    },
                    Ok(None) => {
                        return Err(UseCaseError::NotFound);
                    },
                    Ok(Some(_)) => {},
                }
                match self.store.delete_user(&input.id) {
                    Ok(_) => {
                        proof {
                            lemma_remove_by_key(old(self)@.store.users, input.id@);
                            assert(self@ =~~= spec_delete_user(old(self)@, auth@, input.id@).0);
                        }
                        Ok(input.id)
                    },
                    Err(_) => Err(UseCaseError::InternalServerError),
                }
            },
        }
    }
}

} // verus!
