//! Gateway operations on the user collection.

use crate::entities::User;
use crate::entities::UserID;
use crate::repositories::keyed::key_pos;
use crate::repositories::keyed::key_pos_from;
use crate::repositories::find_by_key;
use crate::repositories::remove_by_key;
use crate::repositories::replace_by_key;
use crate::repositories::upsert_by_key;
use crate::repositories::with_users;
use crate::repositories::Keyed;
use crate::repositories::Store;
use crate::repositories::StoreError;
use vstd::prelude::*;

verus! {

/// The index of the first stored user with the given identifier, or the
/// length of the collection.
fn user_pos(users: &Vec<User>, id: &UserID) -> (r: usize)
    ensures
        r as int == key_pos(users.deep_view(), id@),
{
    let ghost s = users.deep_view();
    let mut i: usize = 0;
    while i < users.len()
        invariant
            i <= users.len(),
            s == users.deep_view(),
            key_pos(s, id@) == key_pos_from(s, id@, i as int),
        decreases users.len() - i,
    {
        if &users[i].id == id {
            proof {
                assert(s[i as int].key() == id@);
            }
            return i;
        }
        proof {
            assert(s[i as int].key() != id@);
        }
        i = i + 1;
    }
    users.len()
}

impl Store {
    /// Stores the user record, replacing any record with its identifier,
    /// and hands the record back; or fails as the fault plan says.
    pub fn create_user(&mut self, user: User) -> (r: Result<User, StoreError>)
        ensures
            match r {
                Result::Ok(u) => !old(self).faults.create_user && u@ == user@ && final(self)@
                    == with_users(old(self)@, upsert_by_key(old(self)@.users, user@)),
                Result::Err(e) => old(self).faults.create_user && *final(self) == *old(self),
            },
    {
        if self.faults.create_user {
            return Err(StoreError);
        }
        let returned = user.clone();
        let p = user_pos(&self.users, &user.id);
        proof {
            crate::repositories::keyed::lemma_key_pos(self@.users, user.id@);
        }
        if p < self.users.len() {
            self.users[p] = user;
            proof {
                assert(self@.users =~~= upsert_by_key(old(self)@.users, user@));
                assert(self@ =~~= with_users(old(self)@, upsert_by_key(old(self)@.users, user@)));
            }
        } else {
            self.users.push(user);
            proof {
                assert(self@.users =~~= upsert_by_key(old(self)@.users, user@));
                assert(self@ =~~= with_users(old(self)@, upsert_by_key(old(self)@.users, user@)));
            }
        }
        Ok(returned)
    }

    /// Replaces the stored record with the user's identifier, leaving the
    /// collection unchanged where none is stored, and hands the record
    /// back; or fails as the fault plan says.
    pub fn update_user(&mut self, user: User) -> (r: Result<User, StoreError>)
        ensures
            match r {
                Result::Ok(u) => !old(self).faults.update_user && u@ == user@ && final(self)@
                    == with_users(old(self)@, replace_by_key(old(self)@.users, user@)),
                Result::Err(e) => old(self).faults.update_user && *final(self) == *old(self),
            },
    {
        if self.faults.update_user {
            return Err(StoreError);
        }
        let returned = user.clone();
        let p = user_pos(&self.users, &user.id);
        proof {
            crate::repositories::keyed::lemma_key_pos(self@.users, user.id@);
        }
        if p < self.users.len() {
            self.users[p] = user;
            proof {
                assert(self@.users =~~= replace_by_key(old(self)@.users, user@));
                assert(self@ =~~= with_users(old(self)@, replace_by_key(old(self)@.users, user@)));
            }
        } else {
            proof {
                assert(self@.users =~~= replace_by_key(old(self)@.users, user@));
                assert(self@ =~~= with_users(old(self)@, replace_by_key(old(self)@.users, user@)));
            }
        }
        Ok(returned)
    }

    /// Removes every stored user record with the identifier; or fails as
    /// the fault plan says.
    pub fn delete_user(&mut self, id: &UserID) -> (r: Result<(), StoreError>)
        ensures
            match r {
                Result::Ok(u) => !old(self).faults.delete_user && final(self)@ == with_users(
                    old(self)@,
                    remove_by_key(old(self)@.users, id@),
                ),
                Result::Err(e) => old(self).faults.delete_user && *final(self) == *old(self),
            },
    {
        if self.faults.delete_user {
            return Err(StoreError);
        }
        let ghost s = self.users.deep_view();
        let mut out: Vec<User> = Vec::new();
        let mut i: usize = 0;
        proof {
            assert(s.skip(0) =~~= s);
            assert(out.deep_view() + remove_by_key(s, id@) =~~= remove_by_key(s, id@));
        }
        while i < self.users.len()
            invariant
                i <= self.users.len(),
                s == self.users.deep_view(),
                remove_by_key(s, id@) =~~= out.deep_view() + remove_by_key(
                    s.skip(i as int),
                    id@,
                ),
            decreases self.users.len() - i,
        {
            proof {
                assert(s.skip(i as int).first() == s[i as int]);
                assert(s.skip(i as int).drop_first() =~~= s.skip(i as int + 1));
            }
            let ghost prev = out.deep_view();
            if !(&self.users[i].id == id) {
                let x = self.users[i].clone();
                proof {
                    assert(x.deep_view() == s[i as int]);
                }
                out.push(x);
                proof {
                    assert(out.deep_view() =~~= prev.push(s[i as int]));
                    assert(remove_by_key(s.skip(i as int), id@) == seq![s[i as int]]
                        + remove_by_key(s.skip(i as int + 1), id@));
                    assert(remove_by_key(s, id@) =~~= out.deep_view() + remove_by_key(
                        s.skip(i as int + 1),
                        id@,
                    ));
                }
            } else {
                proof {
                    assert(remove_by_key(s.skip(i as int), id@) == remove_by_key(
                        s.skip(i as int + 1),
                        id@,
                    ));
                }
            }
            i = i + 1;
        }
        proof {
            assert(s.skip(s.len() as int) =~~= Seq::<crate::entities::UserView>::empty());
            assert(remove_by_key(s, id@) =~~= out.deep_view());
        }
        self.users = out;
        proof {
            assert(self@ =~~= with_users(old(self)@, remove_by_key(old(self)@.users, id@)));
        }
        Ok(())
    }

    /// Returns the stored user record with the identifier, if any; or fails
    /// as the fault plan says.
    pub fn get_user(&self, id: &UserID) -> (r: Result<Option<User>, StoreError>)
        ensures
            match r {
                Result::Ok(opt) => !self.faults.get_user && opt.deep_view() == find_by_key(
                    self@.users,
                    id@,
                ),
                Result::Err(e) => self.faults.get_user,
            },
    {
        if self.faults.get_user {
            return Err(StoreError);
        }
        let p = user_pos(&self.users, id);
        proof {
            crate::repositories::keyed::lemma_key_pos(self@.users, id@);
        }
        if p < self.users.len() {
            let u = self.users[p].clone();
            proof {
                assert(u.deep_view() == self@.users[p as int]);
            }
            Ok(Some(u))
        } else {
            Ok(None)
        }
    }
}

} // verus!
