//! Gateway operations on the group collection.

use crate::entities::group::contains_user;
use crate::entities::Group;
use crate::entities::GroupID;
use crate::entities::GroupView;
use crate::entities::UserID;
use crate::repositories::find_by_key;
use crate::repositories::groups_of_user;
use crate::repositories::keyed::key_pos;
use crate::repositories::keyed::key_pos_from;
use crate::repositories::remove_by_key;
use crate::repositories::replace_by_key;
use crate::repositories::upsert_by_key;
use crate::repositories::with_groups;
use crate::repositories::Keyed;
use crate::repositories::Store;
use crate::repositories::StoreError;
use vstd::prelude::*;

verus! {

/// The index of the first stored group with the given identifier, or the
/// length of the collection.
fn group_pos(groups: &Vec<Group>, id: &GroupID) -> (r: usize)
    ensures
        r as int == key_pos(groups.deep_view(), id@),
{
    let ghost s = groups.deep_view();
    let mut i: usize = 0;
    while i < groups.len()
        invariant
            i <= groups.len(),
            s == groups.deep_view(),
            key_pos(s, id@) == key_pos_from(s, id@, i as int),
        decreases groups.len() - i,
    {
        if &groups[i].id == id {
            proof {
                assert(s[i as int].key() == id@);
            }
            return i;
        }
        proof {
            assert(s[i as int].key() != id@);
        }
        i = i + 1;
    }
    groups.len()
}

impl Store {
    /// Stores the group record, replacing any record with its identifier,
    /// and hands the record back; or fails as the fault plan says.
    pub fn create_group(&mut self, group: Group) -> (r: Result<Group, StoreError>)
        ensures
            match r {
                Result::Ok(g) => !old(self).faults.create_group && g@ == group@ && final(self)@
                    == with_groups(old(self)@, upsert_by_key(old(self)@.groups, group@)),
                Result::Err(e) => old(self).faults.create_group && *final(self) == *old(self),
            },
    {
        if self.faults.create_group {
            return Err(StoreError);
        }
        let returned = group.clone();
        let p = group_pos(&self.groups, &group.id);
        proof {
            crate::repositories::keyed::lemma_key_pos(self@.groups, group.id@);
        }
        if p < self.groups.len() {
            self.groups[p] = group;
            proof {
                assert(self@.groups =~~= upsert_by_key(old(self)@.groups, group@));
                assert(self@ =~~= with_groups(old(self)@, upsert_by_key(old(self)@.groups, group@)));
            }
        } else {
            self.groups.push(group);
            proof {
                assert(self@.groups =~~= upsert_by_key(old(self)@.groups, group@));
                assert(self@ =~~= with_groups(old(self)@, upsert_by_key(old(self)@.groups, group@)));
            }
        }
        Ok(returned)
    }

    /// Replaces the stored record with the group's identifier, leaving the
    /// collection unchanged where none is stored, and hands the record
    /// back; or fails as the fault plan says.
    pub fn update_group(&mut self, group: Group) -> (r: Result<Group, StoreError>)
        ensures
            match r {
                Result::Ok(g) => !old(self).faults.update_group && g@ == group@ && final(self)@
                    == with_groups(old(self)@, replace_by_key(old(self)@.groups, group@)),
                Result::Err(e) => old(self).faults.update_group && *final(self) == *old(self),
            },
    {
        if self.faults.update_group {
            return Err(StoreError);
        }
        let returned = group.clone();
        let p = group_pos(&self.groups, &group.id);
        proof {
            crate::repositories::keyed::lemma_key_pos(self@.groups, group.id@);
        }
        if p < self.groups.len() {
            self.groups[p] = group;
            proof {
                assert(self@.groups =~~= replace_by_key(old(self)@.groups, group@));
                assert(self@ =~~= with_groups(
                    old(self)@,
                    replace_by_key(old(self)@.groups, group@),
                ));
            }
        } else {
            proof {
                assert(self@.groups =~~= replace_by_key(old(self)@.groups, group@));
                assert(self@ =~~= with_groups(
                    old(self)@,
                    replace_by_key(old(self)@.groups, group@),
                ));
            }
        }
        Ok(returned)
    }

    /// Removes every stored group record with the identifier; or fails as
    /// the fault plan says.
    pub fn delete_group(&mut self, id: &GroupID) -> (r: Result<(), StoreError>)
        ensures
            match r {
                Result::Ok(u) => !old(self).faults.delete_group && final(self)@ == with_groups(
                    old(self)@,
                    remove_by_key(old(self)@.groups, id@),
                ),
                Result::Err(e) => old(self).faults.delete_group && *final(self) == *old(self),
            },
    {
        if self.faults.delete_group {
            return Err(StoreError);
        }
        let ghost s = self.groups.deep_view();
        let mut out: Vec<Group> = Vec::new();
        let mut i: usize = 0;
        proof {
            assert(s.skip(0) =~~= s);
            assert(out.deep_view() + remove_by_key(s, id@) =~~= remove_by_key(s, id@));
        }
        while i < self.groups.len()
            invariant
                i <= self.groups.len(),
                s == self.groups.deep_view(),
                remove_by_key(s, id@) =~~= out.deep_view() + remove_by_key(s.skip(i as int), id@),
            decreases self.groups.len() - i,
        {
            proof {
                assert(s.skip(i as int).first() == s[i as int]);
                assert(s.skip(i as int).drop_first() =~~= s.skip(i as int + 1));
            }
            let ghost prev = out.deep_view();
            if !(&self.groups[i].id == id) {
                let x = self.groups[i].clone();
                proof {
                    assert(x.deep_view() == s[i as int]);
                }
                out.push(x);
                proof {
                    assert(out.deep_view() =~~= prev.push(s[i as int]));
                    assert(remove_by_key(s.skip(i as int), id@) == seq![s[i as int]]
                        + remove_by_key(s.skip(i as int + 1), id@));
                    assert(remove_by_key(s, id@) =~~= out.deep_view() + remove_by_key(
                        s.skip(i as int + 1),
                        id@,
                    ));
                }
            } else {
                proof {
                    assert(remove_by_key(s.skip(i as int), id@) == remove_by_key(
                        s.skip(i as int + 1),
                        id@,
                    ));
                }
            }
            i = i + 1;
        }
        proof {
            assert(s.skip(s.len() as int) =~~= Seq::<GroupView>::empty());
            assert(remove_by_key(s, id@) =~~= out.deep_view());
        }
        self.groups = out;
        proof {
            assert(self@ =~~= with_groups(old(self)@, remove_by_key(old(self)@.groups, id@)));
        }
        Ok(())
    }

    /// Returns the stored group record with the identifier, if any; or
    /// fails as the fault plan says.
    pub fn get_group(&self, id: &GroupID) -> (r: Result<Option<Group>, StoreError>)
        ensures
            match r {
                Result::Ok(opt) => !self.faults.get_group && opt.deep_view() == find_by_key(
                    self@.groups,
                    id@,
                ),
                Result::Err(e) => self.faults.get_group,
            },
    {
        if self.faults.get_group {
            return Err(StoreError);
        }
        let p = group_pos(&self.groups, id);
        proof {
            crate::repositories::keyed::lemma_key_pos(self@.groups, id@);
        }
        if p < self.groups.len() {
            let g = self.groups[p].clone();
            proof {
                assert(g.deep_view() == self@.groups[p as int]);
            }
            Ok(Some(g))
        } else {
            Ok(None)
        }
    }

    /// Returns the stored groups the user participates in, in storage
    /// order; or fails as the fault plan says.
    pub fn get_groups_by_user(&self, id: &UserID) -> (r: Result<Vec<Group>, StoreError>)
        ensures
            match r {
                Result::Ok(gs) => !self.faults.get_groups_by_user && gs.deep_view()
                    == groups_of_user(self@.groups, id@),
                Result::Err(e) => self.faults.get_groups_by_user,
            },
    {
        if self.faults.get_groups_by_user {
            return Err(StoreError);
        }
        let ghost s = self.groups.deep_view();
        let mut out: Vec<Group> = Vec::new();
        let mut i: usize = 0;
        proof {
            assert(s.skip(0) =~~= s);
            assert(out.deep_view() + groups_of_user(s, id@) =~~= groups_of_user(s, id@));
        }
        while i < self.groups.len()
            invariant
                i <= self.groups.len(),
                s == self.groups.deep_view(),
                groups_of_user(s, id@) =~~= out.deep_view() + groups_of_user(
                    s.skip(i as int),
                    id@,
                ),
            decreases self.groups.len() - i,
        {
            proof {
                assert(s.skip(i as int).first() == s[i as int]);
                assert(s.skip(i as int).drop_first() =~~= s.skip(i as int + 1));
            }
            let ghost prev = out.deep_view();
            if contains_user(&self.groups[i].participants, id) {
                let x = self.groups[i].clone();
                proof {
                    assert(x.deep_view() == s[i as int]);
                }
                out.push(x);
                proof {
                    assert(out.deep_view() =~~= prev.push(s[i as int]));
                    assert(groups_of_user(s.skip(i as int), id@) == seq![s[i as int]]
                        + groups_of_user(s.skip(i as int + 1), id@));
                    assert(groups_of_user(s, id@) =~~= out.deep_view() + groups_of_user(
                        s.skip(i as int + 1),
                        id@,
                    ));
                }
            } else {
                proof {
                    assert(groups_of_user(s.skip(i as int), id@) == groups_of_user(
                        s.skip(i as int + 1),
                        id@,
                    ));
                }
            }
            i = i + 1;
        }
        proof {
            assert(s.skip(s.len() as int) =~~= Seq::<GroupView>::empty());
            assert(groups_of_user(s, id@) =~~= out.deep_view());
        }
        Ok(out)
    }
}

} // verus!
