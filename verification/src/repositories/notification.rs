//! Gateway operations on the notification collection.

use crate::entities::GroupID;
use crate::entities::Notification;
use crate::entities::NotificationID;
use crate::entities::NotificationView;
use crate::repositories::find_by_key;
use crate::repositories::keyed::key_pos;
use crate::repositories::keyed::key_pos_from;
use crate::repositories::notifications_of_group;
use crate::repositories::remove_by_key;
use crate::repositories::upsert_by_key;
use crate::repositories::with_notifications;
use crate::repositories::Keyed;
use crate::repositories::Store;
use crate::repositories::StoreError;
use vstd::prelude::*;

verus! {

/// The index of the first stored notification with the given identifier, or
/// the length of the collection.
fn notification_pos(notifications: &Vec<Notification>, id: &NotificationID) -> (r: usize)
    ensures
        r as int == key_pos(notifications.deep_view(), id@),
{
    let ghost s = notifications.deep_view();
    let mut i: usize = 0;
    while i < notifications.len()
        invariant
            i <= notifications.len(),
            s == notifications.deep_view(),
            key_pos(s, id@) == key_pos_from(s, id@, i as int),
        decreases notifications.len() - i,
    {
        if &notifications[i].id == id {
            proof {
                assert(s[i as int].key() == id@);
            }
            return i;
        }
        proof {
            assert(s[i as int].key() != id@);
        }
        i = i + 1;
    }
    notifications.len()
}

impl Store {
    /// Stores the notification record, replacing any record with its
    /// identifier, and hands the record back; or fails as the fault plan
    /// says.
    pub fn create_notification(&mut self, notification: Notification) -> (r: Result<
        Notification,
        StoreError,
    >)
        ensures
            match r {
                Result::Ok(n) => !old(self).faults.create_notification && n@ == notification@
                    && final(self)@ == with_notifications(
                    old(self)@,
                    upsert_by_key(old(self)@.notifications, notification@),
                ),
                Result::Err(e) => old(self).faults.create_notification && *final(self) == *old(
                    self,
                ),
            },
    {
        if self.faults.create_notification {
            return Err(StoreError);
        }
        let returned = notification.clone();
        let p = notification_pos(&self.notifications, &notification.id);
        proof {
            crate::repositories::keyed::lemma_key_pos(self@.notifications, notification.id@);
        }
        if p < self.notifications.len() {
            self.notifications[p] = notification;
            proof {
                assert(self@.notifications =~~= upsert_by_key(
                    old(self)@.notifications,
                    notification@,
                ));
                assert(self@ =~~= with_notifications(
                    old(self)@,
                    upsert_by_key(old(self)@.notifications, notification@),
                ));
            }
        } else {
            self.notifications.push(notification);
            proof {
                assert(self@.notifications =~~= upsert_by_key(
                    old(self)@.notifications,
                    notification@,
                ));
                assert(self@ =~~= with_notifications(
                    old(self)@,
                    upsert_by_key(old(self)@.notifications, notification@),
                ));
            }
        }
        Ok(returned)
    }

    /// Removes every stored notification record with the identifier; or
    /// fails as the fault plan says.
    pub fn delete_notification(&mut self, id: &NotificationID) -> (r: Result<(), StoreError>)
        ensures
            match r {
                Result::Ok(u) => !old(self).faults.delete_notification && final(self)@
                    == with_notifications(
                    old(self)@,
                    remove_by_key(old(self)@.notifications, id@),
                ),
                Result::Err(e) => old(self).faults.delete_notification && *final(self) == *old(
                    self,
                ),
            },
    {
        if self.faults.delete_notification {
            return Err(StoreError);
        }
        let ghost s = self.notifications.deep_view();
        let mut out: Vec<Notification> = Vec::new();
        let mut i: usize = 0;
        proof {
            assert(s.skip(0) =~~= s);
            assert(out.deep_view() + remove_by_key(s, id@) =~~= remove_by_key(s, id@));
        }
        while i < self.notifications.len()
            invariant
                i <= self.notifications.len(),
                s == self.notifications.deep_view(),
                remove_by_key(s, id@) =~~= out.deep_view() + remove_by_key(
                    s.skip(i as int),
                    id@,
                ),
            decreases self.notifications.len() - i,
        {
            proof {
                assert(s.skip(i as int).first() == s[i as int]);
                assert(s.skip(i as int).drop_first() =~~= s.skip(i as int + 1));
            }
            let ghost prev = out.deep_view();
            if !(&self.notifications[i].id == id) {
                let x = self.notifications[i].clone();
                proof {
                    assert(x.deep_view() == s[i as int]);
                }
                out.push(x);
                proof {
                    assert(out.deep_view() =~~= prev.push(s[i as int]));
                    assert(remove_by_key(s.skip(i as int), id@) == seq![s[i as int]]
                        + remove_by_key(s.skip(i as int + 1), id@));
                    assert(remove_by_key(s, id@) =~~= out.deep_view() + remove_by_key(
                        s.skip(i as int + 1),
                        id@,
                    ));
                }
            } else {
                proof {
                    assert(remove_by_key(s.skip(i as int), id@) == remove_by_key(
                        s.skip(i as int + 1),
                        id@,
                    ));
                }
            }
            i = i + 1;
        }
        proof {
            assert(s.skip(s.len() as int) =~~= Seq::<NotificationView>::empty());
            assert(remove_by_key(s, id@) =~~= out.deep_view());
        }
        self.notifications = out;
        proof {
            assert(self@ =~~= with_notifications(
                old(self)@,
                remove_by_key(old(self)@.notifications, id@),
            ));
        }
        Ok(())
    }

    /// Returns the stored notification record with the identifier, if any;
    /// or fails as the fault plan says.
    pub fn get_notification(&self, id: &NotificationID) -> (r: Result<
        Option<Notification>,
        StoreError,
    >)
        ensures
            match r {
                Result::Ok(opt) => !self.faults.get_notification && opt.deep_view() == find_by_key(
                    self@.notifications,
                    id@,
                ),
                Result::Err(e) => self.faults.get_notification,
            },
    {
        if self.faults.get_notification {
            return Err(StoreError);
        }
        let p = notification_pos(&self.notifications, id);
        proof {
            crate::repositories::keyed::lemma_key_pos(self@.notifications, id@);
        }
        if p < self.notifications.len() {
            let x = self.notifications[p].clone();
            proof {
                assert(x.deep_view() == self@.notifications[p as int]);
            }
            Ok(Some(x))
        } else {
            Ok(None)
        }
    }

    /// Returns the stored notifications scoped to the group, in storage
    /// order; or fails as the fault plan says.
    pub fn get_notifications_by_group(&self, group: &GroupID) -> (r: Result<
        Vec<Notification>,
        StoreError,
    >)
        ensures
            match r {
                Result::Ok(ns) => !self.faults.get_notifications_by_group && ns.deep_view()
                    == notifications_of_group(self@.notifications, group@),
                Result::Err(e) => self.faults.get_notifications_by_group,
            },
    {
        if self.faults.get_notifications_by_group {
            return Err(StoreError);
        }
        let ghost s = self.notifications.deep_view();
        let mut out: Vec<Notification> = Vec::new();
        let mut i: usize = 0;
        proof {
            assert(s.skip(0) =~~= s);
            assert(out.deep_view() + notifications_of_group(s, group@) =~~= notifications_of_group(
                s,
                group@,
            ));
        }
        while i < self.notifications.len()
            invariant
                i <= self.notifications.len(),
                s == self.notifications.deep_view(),
                notifications_of_group(s, group@) =~~= out.deep_view() + notifications_of_group(
                    s.skip(i as int),
                    group@,
                ),
            decreases self.notifications.len() - i,
        {
            proof {
                assert(s.skip(i as int).first() == s[i as int]);
                assert(s.skip(i as int).drop_first() =~~= s.skip(i as int + 1));
            }
            let ghost prev = out.deep_view();
            if &self.notifications[i].group == group {
                let x = self.notifications[i].clone();
                proof {
                    assert(x.deep_view() == s[i as int]);
                }
                out.push(x);
                proof {
                    assert(out.deep_view() =~~= prev.push(s[i as int]));
                    assert(notifications_of_group(s.skip(i as int), group@) == seq![s[i as int]]
                        + notifications_of_group(s.skip(i as int + 1), group@));
                    assert(notifications_of_group(s, group@) =~~= out.deep_view()
                        + notifications_of_group(s.skip(i as int + 1), group@));
                }
            } else {
                proof {
                    assert(notifications_of_group(s.skip(i as int), group@)
                        == notifications_of_group(s.skip(i as int + 1), group@));
                }
            }
            i = i + 1;
        }
        proof {
            assert(s.skip(s.len() as int) =~~= Seq::<NotificationView>::empty());
            assert(notifications_of_group(s, group@) =~~= out.deep_view());
        }
        Ok(out)
    }
}

} // verus!
