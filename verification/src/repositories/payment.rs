//! Gateway operations on the payment collection.

use crate::entities::GroupID;
use crate::entities::Payment;
use crate::entities::PaymentID;
use crate::entities::PaymentView;
use crate::repositories::find_by_key;
use crate::repositories::keyed::key_pos;
use crate::repositories::keyed::key_pos_from;
use crate::repositories::payments_of_group;
use crate::repositories::remove_by_key;
use crate::repositories::replace_by_key;
use crate::repositories::upsert_by_key;
use crate::repositories::with_payments;
use crate::repositories::Keyed;
use crate::repositories::Store;
use crate::repositories::StoreError;
use vstd::prelude::*;

verus! {

/// The index of the first stored payment with the given identifier, or the
/// length of the collection.
fn payment_pos(payments: &Vec<Payment>, id: &PaymentID) -> (r: usize)
    ensures
        r as int == key_pos(payments.deep_view(), id@),
{
    let ghost s = payments.deep_view();
    let mut i: usize = 0;
    while i < payments.len()
        invariant
            i <= payments.len(),
            s == payments.deep_view(),
            key_pos(s, id@) == key_pos_from(s, id@, i as int),
        decreases payments.len() - i,
    {
        if &payments[i].id == id {
            proof {
                assert(s[i as int].key() == id@);
            }
            return i;
        }
        proof {
            assert(s[i as int].key() != id@);
        }
        i = i + 1;
    }
    payments.len()
}

impl Store {
    /// Stores the payment record, replacing any record with its identifier,
    /// and hands the record back; or fails as the fault plan says.
    pub fn create_payment(&mut self, payment: Payment) -> (r: Result<Payment, StoreError>)
        ensures
            match r {
                Result::Ok(p) => !old(self).faults.create_payment && p@ == payment@ && final(self)@
                    == with_payments(old(self)@, upsert_by_key(old(self)@.payments, payment@)),
                Result::Err(e) => old(self).faults.create_payment && *final(self) == *old(self),
            },
    {
        if self.faults.create_payment {
            return Err(StoreError);
        }
        let returned = payment.clone();
        let p = payment_pos(&self.payments, &payment.id);
        proof {
            crate::repositories::keyed::lemma_key_pos(self@.payments, payment.id@);
        }
        if p < self.payments.len() {
            self.payments[p] = payment;
            proof {
                assert(self@.payments =~~= upsert_by_key(old(self)@.payments, payment@));
                assert(self@ =~~= with_payments(
                    old(self)@,
                    upsert_by_key(old(self)@.payments, payment@),
                ));
            }
        } else {
            self.payments.push(payment);
            proof {
                assert(self@.payments =~~= upsert_by_key(old(self)@.payments, payment@));
                assert(self@ =~~= with_payments(
                    old(self)@,
                    upsert_by_key(old(self)@.payments, payment@),
                ));
            }
        }
        Ok(returned)
    }

    /// Replaces the stored record with the payment's identifier, leaving
    /// the collection unchanged where none is stored, and hands the record
    /// back; or fails as the fault plan says.
    pub fn update_payment(&mut self, payment: Payment) -> (r: Result<Payment, StoreError>)
        ensures
            match r {
                Result::Ok(p) => !old(self).faults.update_payment && p@ == payment@ && final(self)@
                    == with_payments(old(self)@, replace_by_key(old(self)@.payments, payment@)),
                Result::Err(e) => old(self).faults.update_payment && *final(self) == *old(self),
            },
    {
        if self.faults.update_payment {
            return Err(StoreError);
        }
        let returned = payment.clone();
        let p = payment_pos(&self.payments, &payment.id);
        proof {
            crate::repositories::keyed::lemma_key_pos(self@.payments, payment.id@);
        }
        if p < self.payments.len() {
            self.payments[p] = payment;
            proof {
                assert(self@.payments =~~= replace_by_key(old(self)@.payments, payment@));
                assert(self@ =~~= with_payments(
                    old(self)@,
                    replace_by_key(old(self)@.payments, payment@),
                ));
            }
        } else {
            proof {
                assert(self@.payments =~~= replace_by_key(old(self)@.payments, payment@));
                assert(self@ =~~= with_payments(
                    old(self)@,
                    replace_by_key(old(self)@.payments, payment@),
                ));
            }
        }
        Ok(returned)
    }

    /// Removes every stored payment record with the identifier; or fails as
    /// the fault plan says.
    pub fn delete_payment(&mut self, id: &PaymentID) -> (r: Result<(), StoreError>)
        ensures
            match r {
                Result::Ok(u) => !old(self).faults.delete_payment && final(self)@ == with_payments(
                    old(self)@,
                    remove_by_key(old(self)@.payments, id@),
                ),
                Result::Err(e) => old(self).faults.delete_payment && *final(self) == *old(self),
            },
    {
        if self.faults.delete_payment {
            return Err(StoreError);
        }
        let ghost s = self.payments.deep_view();
        let mut out: Vec<Payment> = Vec::new();
        let mut i: usize = 0;
        proof {
            assert(s.skip(0) =~~= s);
            assert(out.deep_view() + remove_by_key(s, id@) =~~= remove_by_key(s, id@));
        }
        while i < self.payments.len()
            invariant
                i <= self.payments.len(),
                s == self.payments.deep_view(),
                remove_by_key(s, id@) =~~= out.deep_view() + remove_by_key(
                    s.skip(i as int),
                    id@,
                ),
            decreases self.payments.len() - i,
        {
            proof {
                assert(s.skip(i as int).first() == s[i as int]);
                assert(s.skip(i as int).drop_first() =~~= s.skip(i as int + 1));
            }
            let ghost prev = out.deep_view();
            if !(&self.payments[i].id == id) {
                let x = self.payments[i].clone();
                proof {
                    assert(x.deep_view() == s[i as int]);
                }
                out.push(x);
                proof {
                    assert(out.deep_view() =~~= prev.push(s[i as int]));
                    assert(remove_by_key(s.skip(i as int), id@) == seq![s[i as int]]
                        + remove_by_key(s.skip(i as int + 1), id@));
                    assert(remove_by_key(s, id@) =~~= out.deep_view() + remove_by_key(
                        s.skip(i as int + 1),
                        id@,
                    ));
                }
            } else {
                proof {
                    assert(remove_by_key(s.skip(i as int), id@) == remove_by_key(
                        s.skip(i as int + 1),
                        id@,
                    ));
                }
            }
            i = i + 1;
        }
        proof {
            assert(s.skip(s.len() as int) =~~= Seq::<PaymentView>::empty());
            assert(remove_by_key(s, id@) =~~= out.deep_view());
        }
        self.payments = out;
        proof {
            assert(self@ =~~= with_payments(old(self)@, remove_by_key(old(self)@.payments, id@)));
        }
        Ok(())
    }

    /// Returns the stored payment record with the identifier, if any; or
    /// fails as the fault plan says.
    pub fn get_payment(&self, id: &PaymentID) -> (r: Result<Option<Payment>, StoreError>)
        ensures
            match r {
                Result::Ok(opt) => !self.faults.get_payment && opt.deep_view() == find_by_key(
                    self@.payments,
                    id@,
                ),
                Result::Err(e) => self.faults.get_payment,
            },
    {
        if self.faults.get_payment {
            return Err(StoreError);
        }
        let p = payment_pos(&self.payments, id);
        proof {
            crate::repositories::keyed::lemma_key_pos(self@.payments, id@);
        }
        if p < self.payments.len() {
            let x = self.payments[p].clone();
            proof {
                assert(x.deep_view() == self@.payments[p as int]);
            }
            Ok(Some(x))
        } else {
            Ok(None)
        }
    }

    /// Returns the stored payments scoped to the group, in storage order;
    /// or fails as the fault plan says.
    pub fn get_payments_by_group(&self, group: &GroupID) -> (r: Result<Vec<Payment>, StoreError>)
        ensures
            match r {
                Result::Ok(ps) => !self.faults.get_payments_by_group && ps.deep_view()
                    == payments_of_group(self@.payments, group@),
                Result::Err(e) => self.faults.get_payments_by_group,
            },
    {
        if self.faults.get_payments_by_group {
            return Err(StoreError);
        }
        let ghost s = self.payments.deep_view();
        let mut out: Vec<Payment> = Vec::new();
        let mut i: usize = 0;
        proof {
            assert(s.skip(0) =~~= s);
            assert(out.deep_view() + payments_of_group(s, group@) =~~= payments_of_group(
                s,
                group@,
            ));
        }
        while i < self.payments.len()
            invariant
                i <= self.payments.len(),
                s == self.payments.deep_view(),
                payments_of_group(s, group@) =~~= out.deep_view() + payments_of_group(
                    s.skip(i as int),
                    group@,
                ),
            decreases self.payments.len() - i,
        {
            proof {
                assert(s.skip(i as int).first() == s[i as int]);
                assert(s.skip(i as int).drop_first() =~~= s.skip(i as int + 1));
            }
            let ghost prev = out.deep_view();
            if &self.payments[i].group == group {
                let x = self.payments[i].clone();
                proof {
                    assert(x.deep_view() == s[i as int]);
                }
                out.push(x);
                proof {
                    assert(out.deep_view() =~~= prev.push(s[i as int]));
                    assert(payments_of_group(s.skip(i as int), group@) == seq![s[i as int]]
                        + payments_of_group(s.skip(i as int + 1), group@));
                    assert(payments_of_group(s, group@) =~~= out.deep_view() + payments_of_group(
                        s.skip(i as int + 1),
                        group@,
                    ));
                }
            } else {
                proof {
                    assert(payments_of_group(s.skip(i as int), group@) == payments_of_group(
                        s.skip(i as int + 1),
                        group@,
                    ));
                }
            }
            i = i + 1;
        }
        proof {
            assert(s.skip(s.len() as int) =~~= Seq::<PaymentView>::empty());
            assert(payments_of_group(s, group@) =~~= out.deep_view());
        }
        Ok(out)
    }
}

} // verus!
