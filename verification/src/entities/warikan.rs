//! The settlement engine: reduces the payments of one group to a list of
//! transfers that zeroes every participant's balance.
//!
//! The algorithm folds all creditor and debtor shares into one signed
//! balance per user, then greedily matches the most negative balance
//! against the most positive one (ties broken by user identifier), emitting
//! one transfer per step until every balance is zero. An unbalanced payment
//! set yields an empty transfer list, as does one with fewer than two
//! balance entries.

use crate::entities::payment::Amount;
use crate::entities::payment::AmountView;
use crate::entities::payment::Payment;
use crate::entities::payment::PaymentView;
use crate::entities::user::UserID;
use crate::repositories::keyed::key_pos;
use crate::repositories::keyed::Keyed;
use vstd::prelude::*;

verus! {

/// Mathematical view of a [`Warikan`].
#[verifier::ext_equal]
pub struct WarikanView {
    pub from: Seq<char>,
    pub to: Seq<char>,
    pub amount: int,
}

/// One settlement transfer: `from` pays `to` the (positive) amount.
#[derive(Debug)]
pub struct Warikan {
    pub from: UserID,
    pub to: UserID,
    pub amount: i32,
}

impl View for Warikan {
    type V = WarikanView;

    open spec fn view(&self) -> WarikanView {
        WarikanView { from: self.from@, to: self.to@, amount: self.amount as int }
    }
}

impl DeepView for Warikan {
    type V = WarikanView;

    open spec fn deep_view(&self) -> WarikanView {
        self@
    }
}

impl Clone for Warikan {
    fn clone(&self) -> (r: Warikan)
        ensures
            r@ == self@,
    {
        Warikan { from: self.from.clone(), to: self.to.clone(), amount: self.amount }
    }
}

/// Mathematical view of a [`Bal`]: one user's running signed balance.
#[verifier::ext_equal]
pub struct BalView {
    pub user: Seq<char>,
    pub amount: int,
}

impl Keyed for BalView {
    open spec fn key(self) -> Seq<char> {
        self.user
    }
}

/// One user's running signed balance while settling.
#[derive(Debug)]
pub struct Bal {
    pub user: UserID,
    pub amount: i32,
}

impl View for Bal {
    type V = BalView;

    open spec fn view(&self) -> BalView {
        BalView { user: self.user@, amount: self.amount as int }
    }
}

impl DeepView for Bal {
    type V = BalView;

    open spec fn deep_view(&self) -> BalView {
        self@
    }
}

/// The absolute value.
pub open spec fn iabs(x: int) -> int {
    if x < 0 {
        -x
    } else {
        x
    }
}

/// The smaller of two values.
pub open spec fn imin(x: int, y: int) -> int {
    if x < y {
        x
    } else {
        y
    }
}

/// Strict lexicographic order on user identifiers, by character code.
pub open spec fn lex_lt(a: Seq<char>, b: Seq<char>) -> bool
    decreases a.len(),
{
    if b.len() == 0 {
        false
    } else if a.len() == 0 {
        true
    } else if a[0] != b[0] {
        (a[0] as u32) < (b[0] as u32)
    } else {
        lex_lt(a.drop_first(), b.drop_first())
    }
}

/// Strict order on balance entries: by amount, ties by user identifier.
pub open spec fn bal_lt(a: BalView, b: BalView) -> bool {
    a.amount < b.amount || (a.amount == b.amount && lex_lt(a.user, b.user))
}

/// The sum of the absolute amounts of the shares at or after `i`.
pub open spec fn amounts_abs_from(l: Seq<AmountView>, i: int) -> int
    decreases l.len() - i,
{
    if i < 0 || i >= l.len() {
        0
    } else {
        iabs(l[i].amount as int) + amounts_abs_from(l, i + 1)
    }
}

/// The sum of the absolute amounts of every share of every payment at or
/// after `i`.
pub open spec fn payments_abs_from(ps: Seq<PaymentView>, i: int) -> int
    decreases ps.len() - i,
{
    if i < 0 || i >= ps.len() {
        0
    } else {
        amounts_abs_from(ps[i].creditors, 0) + amounts_abs_from(ps[i].debtors, 0)
            + payments_abs_from(ps, i + 1)
    }
}

/// The sum of the absolute amounts of every share of every payment.
pub open spec fn payments_abs(ps: Seq<PaymentView>) -> int {
    payments_abs_from(ps, 0)
}

/// One share folded into the balances: the user's entry is adjusted by the
/// signed delta, or appended where the user has none yet.
pub open spec fn bal_add(bal: Seq<BalView>, user: Seq<char>, delta: int) -> Seq<BalView> {
    let p = key_pos(bal, user);
    if p < bal.len() {
        bal.update(p, BalView { user, amount: bal[p].amount + delta })
    } else {
        bal.push(BalView { user, amount: delta })
    }
}

/// The shares at or after `k` folded into the balances with the given sign.
pub open spec fn apply_amounts(bal: Seq<BalView>, l: Seq<AmountView>, k: int, sign: int) -> Seq<
    BalView,
>
    decreases l.len() - k,
{
    if k < 0 || k >= l.len() {
        bal
    } else {
        apply_amounts(bal_add(bal, l[k].user, sign * l[k].amount), l, k + 1, sign)
    }
}

/// The payments at or after `i` folded into the balances: creditor shares
/// add, debtor shares subtract.
pub open spec fn balances_from(bal: Seq<BalView>, ps: Seq<PaymentView>, i: int) -> Seq<BalView>
    decreases ps.len() - i,
{
    if i < 0 || i >= ps.len() {
        bal
    } else {
        balances_from(
            apply_amounts(apply_amounts(bal, ps[i].creditors, 0, 1), ps[i].debtors, 0, -1),
            ps,
            i + 1,
        )
    }
}

/// The balance of every user mentioned by the payments.
pub open spec fn balances_of(ps: Seq<PaymentView>) -> Seq<BalView> {
    balances_from(Seq::empty(), ps, 0)
}

/// The sum of the signed balances at or after `i`.
pub open spec fn bal_total_from(bal: Seq<BalView>, i: int) -> int
    decreases bal.len() - i,
{
    if i < 0 || i >= bal.len() {
        0
    } else {
        bal[i].amount + bal_total_from(bal, i + 1)
    }
}

/// The sum of the signed balances.
pub open spec fn bal_total(bal: Seq<BalView>) -> int {
    bal_total_from(bal, 0)
}

/// The sum of the absolute balances at or after `i`.
pub open spec fn bal_abs_from(bal: Seq<BalView>, i: int) -> int
    decreases bal.len() - i,
{
    if i < 0 || i >= bal.len() {
        0
    } else {
        iabs(bal[i].amount) + bal_abs_from(bal, i + 1)
    }
}

/// The sum of the absolute balances.
pub open spec fn bal_abs(bal: Seq<BalView>) -> int {
    bal_abs_from(bal, 0)
}

/// How many balances at or after `i` are nonzero.
pub open spec fn nonzero_from(bal: Seq<BalView>, i: int) -> int
    decreases bal.len() - i,
{
    if i < 0 || i >= bal.len() {
        0
    } else {
        (if bal[i].amount == 0 {
            0int
        } else {
            1int
        }) + nonzero_from(bal, i + 1)
    }
}

/// How many balances are nonzero.
pub open spec fn nonzero(bal: Seq<BalView>) -> int {
    nonzero_from(bal, 0)
}

/// The index of the leftmost smallest balance entry in `[i, bal.len())`,
/// under [`bal_lt`].
pub open spec fn argmin_from(bal: Seq<BalView>, i: int) -> int
    decreases bal.len() - i,
{
    if i + 1 >= bal.len() {
        i
    } else {
        let m = argmin_from(bal, i + 1);
        if bal_lt(bal[m], bal[i]) {
            m
        } else {
            i
        }
    }
}

/// The index of the rightmost largest balance entry in `[i, bal.len())`,
/// under [`bal_lt`].
pub open spec fn argmax_from(bal: Seq<BalView>, i: int) -> int
    decreases bal.len() - i,
{
    if i + 1 >= bal.len() {
        i
    } else {
        let m = argmax_from(bal, i + 1);
        if bal_lt(bal[m], bal[i]) {
            i
        } else {
            m
        }
    }
}

/// One greedy settlement step applied to the balances: the smallest entry
/// pays the largest the lesser of their magnitudes.
pub open spec fn settle_step(bal: Seq<BalView>) -> (Seq<BalView>, WarikanView) {
    let d = argmin_from(bal, 0);
    let c = argmax_from(bal, 0);
    let a = imin(iabs(bal[d].amount), iabs(bal[c].amount));
    (
        bal.update(d, BalView { user: bal[d].user, amount: bal[d].amount + a }).update(
            c,
            BalView { user: bal[c].user, amount: bal[c].amount - a },
        ),
        WarikanView { from: bal[d].user, to: bal[c].user, amount: a },
    )
}

/// The transfers the greedy loop emits, starting from the given balances:
/// one step per recursion until the smallest balance is zero. The fuel
/// bounds the recursion; [`nonzero`] many steps always suffice.
pub open spec fn spec_settle(bal: Seq<BalView>, fuel: nat) -> Seq<WarikanView>
    decreases fuel,
{
    if fuel == 0 || bal.len() < 2 {
        Seq::empty()
    } else if bal[argmin_from(bal, 0)].amount == 0 {
        Seq::empty()
    } else {
        let (next, w) = settle_step(bal);
        seq![w] + spec_settle(next, (fuel - 1) as nat)
    }
}

/// The absolute share sums are never negative.
pub proof fn lemma_amounts_abs_nonneg(l: Seq<AmountView>, i: int)
    ensures
        amounts_abs_from(l, i) >= 0,
    decreases l.len() - i,
{
    if 0 <= i < l.len() {
        lemma_amounts_abs_nonneg(l, i + 1);
    }
}

/// The absolute payment sums are never negative.
pub proof fn lemma_payments_abs_nonneg(ps: Seq<PaymentView>, i: int)
    ensures
        payments_abs_from(ps, i) >= 0,
    decreases ps.len() - i,
{
    if 0 <= i < ps.len() {
        lemma_amounts_abs_nonneg(ps[i].creditors, 0);
        lemma_amounts_abs_nonneg(ps[i].debtors, 0);
        lemma_payments_abs_nonneg(ps, i + 1);
    }
}

/// The absolute balance sums are never negative.
pub proof fn lemma_bal_abs_nonneg(bal: Seq<BalView>, i: int)
    ensures
        bal_abs_from(bal, i) >= 0,
    decreases bal.len() - i,
{
    if 0 <= i < bal.len() {
        lemma_bal_abs_nonneg(bal, i + 1);
    }
}

/// Each absolute balance is bounded by the absolute balance sum.
pub proof fn lemma_bal_abs_entry(bal: Seq<BalView>, i: int, k: int)
    requires
        0 <= i <= k < bal.len(),
    ensures
        iabs(bal[k].amount) <= bal_abs_from(bal, i),
    decreases k - i,
{
    lemma_bal_abs_nonneg(bal, k + 1);
    if i < k {
        lemma_bal_abs_entry(bal, i + 1, k);
    }
}

/// How an update changes the absolute balance sum.
pub proof fn lemma_bal_abs_update(bal: Seq<BalView>, i: int, p: int, v: BalView)
    requires
        0 <= p < bal.len(),
        0 <= i,
    ensures
        bal_abs_from(bal.update(p, v), i) == bal_abs_from(bal, i) + (if i <= p {
            iabs(v.amount) - iabs(bal[p].amount)
        } else {
            0int
        }),
    decreases bal.len() - i,
{
    if i < bal.len() {
        lemma_bal_abs_update(bal, i + 1, p, v);
    }
}

/// How a push changes the absolute balance sum.
pub proof fn lemma_bal_abs_push(bal: Seq<BalView>, i: int, v: BalView)
    requires
        0 <= i <= bal.len(),
    ensures
        bal_abs_from(bal.push(v), i) == bal_abs_from(bal, i) + iabs(v.amount),
    decreases bal.len() - i,
{
    if i < bal.len() {
        lemma_bal_abs_push(bal, i + 1, v);
    } else {
        assert(bal_abs_from(bal.push(v), i) == iabs(bal.push(v)[i].amount) + bal_abs_from(
            bal.push(v),
            i + 1,
        ));
    }
}

/// How an update changes the signed balance sum.
pub proof fn lemma_bal_total_update(bal: Seq<BalView>, i: int, p: int, v: BalView)
    requires
        0 <= p < bal.len(),
        0 <= i,
    ensures
        bal_total_from(bal.update(p, v), i) == bal_total_from(bal, i) + (if i <= p {
            v.amount - bal[p].amount
        } else {
            0int
        }),
    decreases bal.len() - i,
{
    if i < bal.len() {
        lemma_bal_total_update(bal, i + 1, p, v);
    }
}

/// How a push changes the signed balance sum.
pub proof fn lemma_bal_total_push(bal: Seq<BalView>, i: int, v: BalView)
    requires
        0 <= i <= bal.len(),
    ensures
        bal_total_from(bal.push(v), i) == bal_total_from(bal, i) + v.amount,
    decreases bal.len() - i,
{
    if i < bal.len() {
        lemma_bal_total_push(bal, i + 1, v);
    } else {
        assert(bal_total_from(bal.push(v), i) == bal.push(v)[i].amount + bal_total_from(
            bal.push(v),
            i + 1,
        ));
    }
}

/// How an update changes the count of nonzero balances.
pub proof fn lemma_nonzero_update(bal: Seq<BalView>, i: int, p: int, v: BalView)
    requires
        0 <= p < bal.len(),
        0 <= i,
    ensures
        nonzero_from(bal.update(p, v), i) == nonzero_from(bal, i) + (if i <= p {
            (if v.amount == 0 {
                0int
            } else {
                1int
            }) - (if bal[p].amount == 0 {
                0int
            } else {
                1int
            })
        } else {
            0int
        }),
    decreases bal.len() - i,
{
    if i < bal.len() {
        lemma_nonzero_update(bal, i + 1, p, v);
    }
}

/// The count of nonzero balances is never negative and bounded by the
/// length.
pub proof fn lemma_nonzero_bounds(bal: Seq<BalView>, i: int)
    requires
        0 <= i <= bal.len(),
    ensures
        0 <= nonzero_from(bal, i) <= bal.len() - i,
    decreases bal.len() - i,
{
    if i < bal.len() {
        lemma_nonzero_bounds(bal, i + 1);
    }
}

/// A nonzero balance makes the count positive.
pub proof fn lemma_nonzero_entry(bal: Seq<BalView>, i: int, k: int)
    requires
        0 <= i <= k < bal.len(),
        bal[k].amount != 0,
    ensures
        nonzero_from(bal, i) >= 1,
    decreases k - i,
{
    lemma_nonzero_bounds(bal, i + 1);
    if i < k {
        lemma_nonzero_entry(bal, i + 1, k);
    }
}

/// The smallest balance entry: in range, and its amount bounds every
/// amount at or after `i`.
pub proof fn lemma_argmin_from(bal: Seq<BalView>, i: int)
    requires
        0 <= i < bal.len(),
    ensures
        i <= argmin_from(bal, i) < bal.len(),
        forall|j: int| i <= j < bal.len() ==> bal[argmin_from(bal, i)].amount <= #[trigger] bal[j].amount,
    decreases bal.len() - i,
{
    if i + 1 < bal.len() {
        lemma_argmin_from(bal, i + 1);
    }
}

/// The largest balance entry: in range, and its amount dominates every
/// amount at or after `i`.
pub proof fn lemma_argmax_from(bal: Seq<BalView>, i: int)
    requires
        0 <= i < bal.len(),
    ensures
        i <= argmax_from(bal, i) < bal.len(),
        forall|j: int| i <= j < bal.len() ==> #[trigger] bal[j].amount <= bal[argmax_from(bal, i)].amount,
    decreases bal.len() - i,
{
    if i + 1 < bal.len() {
        lemma_argmax_from(bal, i + 1);
    }
}

/// If the signed balances sum to zero and the smallest is nonzero, the
/// smallest is negative and the largest positive.
pub proof fn lemma_settle_step_signs(bal: Seq<BalView>)
    requires
        bal.len() >= 1,
        bal_total(bal) == 0,
        bal[argmin_from(bal, 0)].amount != 0,
    ensures
        bal[argmin_from(bal, 0)].amount < 0,
        bal[argmax_from(bal, 0)].amount > 0,
{
    let d = argmin_from(bal, 0);
    let c = argmax_from(bal, 0);
    lemma_argmin_from(bal, 0);
    lemma_argmax_from(bal, 0);
    if bal[d].amount > 0 {
        lemma_total_strictly_positive(bal, 0, d);
        assert(false);
    }
    if bal[c].amount <= 0 {
        lemma_total_strictly_negative(bal, 0, d);
        assert(false);
    }
}

/// All balances non-negative with one positive make the sum positive.
pub proof fn lemma_total_strictly_positive(bal: Seq<BalView>, i: int, k: int)
    requires
        0 <= i <= k < bal.len(),
        forall|j: int| 0 <= j < bal.len() ==> bal[j].amount >= 0,
        bal[k].amount > 0,
    ensures
        bal_total_from(bal, i) > 0,
    decreases k - i,
{
    lemma_total_nonneg(bal, k + 1);
    if i < k {
        lemma_total_strictly_positive(bal, i + 1, k);
    }
}

/// All balances non-positive with one negative make the sum negative.
pub proof fn lemma_total_strictly_negative(bal: Seq<BalView>, i: int, k: int)
    requires
        0 <= i <= k < bal.len(),
        forall|j: int| 0 <= j < bal.len() ==> bal[j].amount <= 0,
        bal[k].amount < 0,
    ensures
        bal_total_from(bal, i) < 0,
    decreases k - i,
{
    lemma_total_nonpos(bal, k + 1);
    if i < k {
        lemma_total_strictly_negative(bal, i + 1, k);
    }
}

/// Non-negative balances sum to a non-negative value.
pub proof fn lemma_total_nonneg(bal: Seq<BalView>, i: int)
    requires
        forall|j: int| 0 <= j < bal.len() ==> bal[j].amount >= 0,
    ensures
        bal_total_from(bal, i) >= 0,
    decreases bal.len() - i,
{
    if 0 <= i < bal.len() {
        lemma_total_nonneg(bal, i + 1);
    }
}

/// Non-positive balances sum to a non-positive value.
pub proof fn lemma_total_nonpos(bal: Seq<BalView>, i: int)
    requires
        forall|j: int| 0 <= j < bal.len() ==> bal[j].amount <= 0,
    ensures
        bal_total_from(bal, i) <= 0,
    decreases bal.len() - i,
{
    if 0 <= i < bal.len() {
        lemma_total_nonpos(bal, i + 1);
    }
}

/// Equal prefixes do not decide the lexicographic order: it is decided by
/// the remainders.
pub proof fn lemma_lex_prefix(a: Seq<char>, b: Seq<char>, i: int)
    requires
        0 <= i <= a.len(),
        i <= b.len(),
        forall|j: int| 0 <= j < i ==> a[j] == b[j],
    ensures
        lex_lt(a, b) == lex_lt(a.skip(i), b.skip(i)),
    decreases i,
{
    if i == 0 {
        assert(a.skip(0) =~= a);
        assert(b.skip(0) =~= b);
    } else {
        assert(a[0] == b[0]);
        lemma_lex_prefix(a.drop_first(), b.drop_first(), i - 1);
        assert(a.drop_first().skip(i - 1) =~= a.skip(i));
        assert(b.drop_first().skip(i - 1) =~= b.skip(i));
    }
}

/// Compares two user identifiers lexicographically by character code.
fn user_lt(a: &UserID, b: &UserID) -> (r: bool)
    ensures
        r == lex_lt(a@, b@),
{
    let av = a.0.as_str();
    let bv = b.0.as_str();
    let alen = av.unicode_len();
    let blen = bv.unicode_len();
    let n = if alen < blen {
        alen
    } else {
        blen
    };
    let mut i: usize = 0;
    while i < n
        invariant
            i <= n,
            av@ == a@,
            bv@ == b@,
            alen == a@.len(),
            blen == b@.len(),
            n == imin(alen as int, blen as int),
            forall|j: int| 0 <= j < i ==> a@[j] == b@[j],
        decreases n - i,
    {
        let ca = av.get_char(i);
        let cb = bv.get_char(i);
        if ca != cb {
            proof {
                lemma_lex_prefix(a@, b@, i as int);
                assert(a@.skip(i as int)[0] == a@[i as int]);
                assert(b@.skip(i as int)[0] == b@[i as int]);
            }
            return (ca as u32) < (cb as u32);
        }
        i = i + 1;
    }
    proof {
        lemma_lex_prefix(a@, b@, n as int);
    }
    alen < blen
}

/// Compares two balance entries: by amount, ties by user identifier.
fn bal_lt_exec(a: &Bal, b: &Bal) -> (r: bool)
    ensures
        r == bal_lt(a@, b@),
{
    if a.amount < b.amount {
        true
    } else if a.amount == b.amount {
        user_lt(&a.user, &b.user)
    } else {
        false
    }
}

/// The index of the first balance entry of the user, or the length.
fn bal_pos(bal: &Vec<Bal>, user: &UserID) -> (r: usize)
    ensures
        r as int == key_pos(bal.deep_view(), user@),
{
    let ghost s = bal.deep_view();
    let mut i: usize = 0;
    while i < bal.len()
        invariant
            i <= bal.len(),
            s == bal.deep_view(),
            key_pos(s, user@) == crate::repositories::keyed::key_pos_from(s, user@, i as int),
        decreases bal.len() - i,
    {
        if &bal[i].user == user {
            proof {
                assert(s[i as int].key() == user@);
            }
            return i;
        }
        proof {
            assert(s[i as int].key() != user@);
        }
        i = i + 1;
    }
    bal.len()
}

/// The index of the leftmost smallest balance entry.
fn argmin(bal: &Vec<Bal>) -> (r: usize)
    requires
        bal@.len() >= 1,
    ensures
        r as int == argmin_from(bal.deep_view(), 0),
{
    let ghost s = bal.deep_view();
    let mut best: usize = bal.len() - 1;
    let mut i: usize = bal.len() - 1;
    while i > 0
        invariant
            s == bal.deep_view(),
            i < bal@.len(),
            best < bal@.len(),
            best as int == argmin_from(s, i as int),
        decreases i,
    {
        i = i - 1;
        if bal_lt_exec(&bal[best], &bal[i]) {
        } else {
            best = i;
        }
        proof {
            assert(s[best as int] == bal@[best as int]@);
            assert(s[i as int] == bal@[i as int]@);
            assert(best as int == argmin_from(s, i as int));
        }
    }
    best
}

/// The index of the rightmost largest balance entry.
fn argmax(bal: &Vec<Bal>) -> (r: usize)
    requires
        bal@.len() >= 1,
    ensures
        r as int == argmax_from(bal.deep_view(), 0),
{
    let ghost s = bal.deep_view();
    let mut best: usize = bal.len() - 1;
    let mut i: usize = bal.len() - 1;
    while i > 0
        invariant
            s == bal.deep_view(),
            i < bal@.len(),
            best < bal@.len(),
            best as int == argmax_from(s, i as int),
        decreases i,
    {
        i = i - 1;
        if bal_lt_exec(&bal[best], &bal[i]) {
            best = i;
        }
        proof {
            assert(s[best as int] == bal@[best as int]@);
            assert(s[i as int] == bal@[i as int]@);
            assert(best as int == argmax_from(s, i as int));
        }
    }
    best
}

/// Folds one share list into the balances with the given sign.
fn apply_amounts_exec(bal: &mut Vec<Bal>, amounts: &Vec<Amount>, negate: bool)
    requires
        bal_abs(old(bal).deep_view()) + amounts_abs_from(amounts.deep_view(), 0) <= i32::MAX
            as int,
        bal_abs(old(bal).deep_view()) >= 0,
    ensures
        final(bal).deep_view() == apply_amounts(
            old(bal).deep_view(),
            amounts.deep_view(),
            0,
            if negate {
                -1int
            } else {
                1int
            },
        ),
        bal_abs(final(bal).deep_view()) <= bal_abs(old(bal).deep_view()) + amounts_abs_from(
            amounts.deep_view(),
            0,
        ),
        bal_abs(final(bal).deep_view()) >= 0,
{
    let ghost l = amounts.deep_view();
    let ghost sign: int = if negate {
        -1int
    } else {
        1int
    };
    let mut k: usize = 0;
    proof {
        lemma_amounts_abs_nonneg(l, 0);
    }
    while k < amounts.len()
        invariant
            k <= amounts.len(),
            l == amounts.deep_view(),
            sign == (if negate {
                -1int
            } else {
                1int
            }),
            apply_amounts(old(bal).deep_view(), l, 0, sign) == apply_amounts(
                bal.deep_view(),
                l,
                k as int,
                sign,
            ),
            bal_abs(bal.deep_view()) >= 0,
            bal_abs(bal.deep_view()) + amounts_abs_from(l, k as int) <= bal_abs(
                old(bal).deep_view(),
            ) + amounts_abs_from(l, 0),
            bal_abs(old(bal).deep_view()) + amounts_abs_from(l, 0) <= i32::MAX as int,
        decreases amounts.len() - k,
    {
        let ghost pre = bal.deep_view();
        proof {
            lemma_amounts_abs_nonneg(l, k as int + 1);
            assert(iabs(l[k as int].amount as int) + amounts_abs_from(l, k as int + 1)
                == amounts_abs_from(l, k as int));
        }
        let a = amounts[k].amount;
        let delta: i32 = if negate {
            -a
        } else {
            a
        };
        proof {
            assert(delta as int == sign * (l[k as int].amount as int));
        }
        let p = bal_pos(bal, &amounts[k].user);
        proof {
            crate::repositories::keyed::lemma_key_pos(pre, l[k as int].user);
        }
        if p < bal.len() {
            proof {
                lemma_bal_abs_entry(pre, 0, p as int);
            }
            let u = amounts[k].user.clone();
            let nv = bal[p].amount + delta;
            bal[p] = Bal { user: u, amount: nv };
            proof {
                assert(bal.deep_view() =~~= bal_add(pre, l[k as int].user, sign * (l[
                    k as int].amount as int)));
                lemma_bal_abs_update(
                    pre,
                    0,
                    p as int,
                    BalView {
                        user: l[k as int].user,
                        amount: pre[p as int].amount + sign * (l[k as int].amount as int),
                    },
                );
            }
        } else {
            let u = amounts[k].user.clone();
            bal.push(Bal { user: u, amount: delta });
            proof {
                assert(bal.deep_view() =~~= bal_add(pre, l[k as int].user, sign * (l[
                    k as int].amount as int)));
                lemma_bal_abs_push(
                    pre,
                    0,
                    BalView { user: l[k as int].user, amount: sign * (l[k as int].amount as int) },
                );
            }
        }
        k = k + 1;
    }
}

/// The settlement engine. For a balanced payment set it returns the greedy
/// transfer list; for an unbalanced or under-populated one, the empty list.
/// It never reports failure.
pub fn warikan(payments: &Vec<Payment>) -> (r: Option<Vec<Warikan>>)
    requires
        payments_abs(payments.deep_view()) <= i32::MAX as int,
    ensures
        r.deep_view() == spec_warikan(payments.deep_view()),
{
    let ghost ps = payments.deep_view();
    let mut bal: Vec<Bal> = Vec::new();
    let mut i: usize = 0;
    proof {
        assert(bal.deep_view() =~~= Seq::<BalView>::empty());
        lemma_payments_abs_nonneg(ps, 0);
    }
    while i < payments.len()
        invariant
            i <= payments.len(),
            ps == payments.deep_view(),
            balances_of(ps) == balances_from(bal.deep_view(), ps, i as int),
            bal_abs(bal.deep_view()) >= 0,
            bal_abs(bal.deep_view()) + payments_abs_from(ps, i as int) <= payments_abs_from(ps, 0),
            payments_abs_from(ps, 0) <= i32::MAX as int,
        decreases payments.len() - i,
    {
        let ghost pre = bal.deep_view();
        proof {
            lemma_payments_abs_nonneg(ps, i as int + 1);
            lemma_amounts_abs_nonneg(ps[i as int].creditors, 0);
            lemma_amounts_abs_nonneg(ps[i as int].debtors, 0);
            assert(payments_abs_from(ps, i as int) == amounts_abs_from(ps[i as int].creditors, 0)
                + amounts_abs_from(ps[i as int].debtors, 0) + payments_abs_from(ps, i as int + 1));
        }
        apply_amounts_exec(&mut bal, &payments[i].creditors, false);
        apply_amounts_exec(&mut bal, &payments[i].debtors, true);
        proof {
            assert(balances_from(pre, ps, i as int) == balances_from(
                bal.deep_view(),
                ps,
                i as int + 1,
            ));
        }
        i = i + 1;
    }
    proof {
        assert(bal.deep_view() == balances_of(ps));
    }
    let ghost bal0 = bal.deep_view();
    let mut total: i64 = 0;
    let mut j: usize = 0;
    proof {
        lemma_bal_abs_nonneg(bal0, 0);
    }
    while j < bal.len()
        invariant
            j <= bal@.len(),
            bal0 == bal.deep_view(),
            total as int + bal_total_from(bal0, j as int) == bal_total_from(bal0, 0),
            iabs(total as int) + bal_abs_from(bal0, j as int) <= bal_abs_from(bal0, 0),
            bal_abs_from(bal0, 0) <= i32::MAX as int,
        decreases bal@.len() - j,
    {
        proof {
            lemma_bal_abs_nonneg(bal0, j as int + 1);
        }
        total = total + bal[j].amount as i64;
        j = j + 1;
    }
    if total != 0 {
        let empty: Vec<Warikan> = Vec::new();
        proof {
            assert(empty.deep_view() =~~= Seq::<WarikanView>::empty());
        }
        return Some(empty);
    }
    if bal.len() < 2 {
        let empty: Vec<Warikan> = Vec::new();
        proof {
            assert(empty.deep_view() =~~= Seq::<WarikanView>::empty());
        }
        return Some(empty);
    }
    let mut out: Vec<Warikan> = Vec::new();
    let ghost fuel0: nat = bal0.len() as nat;
    let ghost mut fuel: nat = fuel0;
    proof {
        assert(out.deep_view() =~~= Seq::<WarikanView>::empty());
        assert(out.deep_view() + spec_settle(bal0, fuel0) =~~= spec_settle(bal0, fuel0));
        lemma_nonzero_bounds(bal0, 0);
    }
    loop
        invariant
            bal@.len() == bal0.len(),
            bal0.len() >= 2,
            bal_total(bal.deep_view()) == 0,
            bal_abs(bal.deep_view()) <= i32::MAX as int,
            bal_abs(bal.deep_view()) >= 0,
            spec_settle(bal0, fuel0) =~~= out.deep_view() + spec_settle(bal.deep_view(), fuel),
            fuel >= nonzero_from(bal.deep_view(), 0),
        ensures
            out.deep_view() == spec_settle(bal0, fuel0),
        decreases fuel,
    {
        let ghost cur = bal.deep_view();
        let d = argmin(&bal);
        proof {
            lemma_argmin_from(cur, 0);
        }
        if bal[d].amount == 0 {
            proof {
                assert(spec_settle(cur, fuel) == Seq::<WarikanView>::empty());
                assert(out.deep_view() + spec_settle(cur, fuel) =~~= out.deep_view());
            }
            break;
        }
        let c = argmax(&bal);
        proof {
            lemma_argmax_from(cur, 0);
            lemma_settle_step_signs(cur);
            lemma_bal_abs_entry(cur, 0, d as int);
            lemma_bal_abs_entry(cur, 0, c as int);
            lemma_nonzero_entry(cur, 0, d as int);
            assert(d != c);
        }
        let da = -bal[d].amount;
        let ca = bal[c].amount;
        let a = if da < ca {
            da
        } else {
            ca
        };
        let ghost outv = out.deep_view();
        out.push(Warikan { from: bal[d].user.clone(), to: bal[c].user.clone(), amount: a });
        let du = bal[d].user.clone();
        let nd = bal[d].amount + a;
        bal[d] = Bal { user: du, amount: nd };
        let cu = bal[c].user.clone();
        let nc = bal[c].amount - a;
        bal[c] = Bal { user: cu, amount: nc };
        proof {
            let step = settle_step(cur);
            let w = step.1;
            let dv = BalView { user: cur[d as int].user, amount: cur[d as int].amount + a };
            let cv = BalView { user: cur[c as int].user, amount: cur[c as int].amount - a };
            assert(bal.deep_view() =~~= step.0);
            assert(spec_settle(cur, fuel) == seq![w] + spec_settle(step.0, (fuel - 1) as nat));
            assert(out.deep_view() =~~= outv.push(w));
            assert(outv + (seq![w] + spec_settle(step.0, (fuel - 1) as nat)) =~~= out.deep_view()
                + spec_settle(step.0, (fuel - 1) as nat));
            lemma_bal_total_update(cur, 0, d as int, dv);
            lemma_bal_total_update(cur.update(d as int, dv), 0, c as int, cv);
            lemma_bal_abs_update(cur, 0, d as int, dv);
            lemma_bal_abs_update(cur.update(d as int, dv), 0, c as int, cv);
            lemma_nonzero_update(cur, 0, d as int, dv);
            lemma_nonzero_update(cur.update(d as int, dv), 0, c as int, cv);
            lemma_nonzero_bounds(step.0, 0);
            lemma_bal_abs_nonneg(step.0, 0);
            fuel = (fuel - 1) as nat;
        }
    }
    proof {
        assert(spec_warikan(ps) == Option::Some(spec_settle(bal0, fuel0)));
    }
    Some(out)
}

/// What the settlement engine returns for a payment list: the empty list
/// for an unbalanced or under-populated payment set, else the greedy
/// transfer list.
pub open spec fn spec_warikan(ps: Seq<PaymentView>) -> Option<Seq<WarikanView>> {
    let bal = balances_of(ps);
    if bal_total(bal) != 0 {
        Option::Some(Seq::empty())
    } else if bal.len() < 2 {
        Option::Some(Seq::empty())
    } else {
        Option::Some(spec_settle(bal, bal.len() as nat))
    }
}

/// The sum of the signed share amounts at or after `i`.
pub open spec fn amounts_total_from(l: Seq<AmountView>, i: int) -> int
    decreases l.len() - i,
{
    if i < 0 || i >= l.len() {
        0
    } else {
        l[i].amount + amounts_total_from(l, i + 1)
    }
}

/// The net signed total of every payment at or after `i`: creditor shares
/// count positive, debtor shares negative.
pub open spec fn payments_total_from(ps: Seq<PaymentView>, i: int) -> int
    decreases ps.len() - i,
{
    if i < 0 || i >= ps.len() {
        0
    } else {
        amounts_total_from(ps[i].creditors, 0) - amounts_total_from(ps[i].debtors, 0)
            + payments_total_from(ps, i + 1)
    }
}

/// The net signed total of the payment set: zero exactly when the creditor
/// sum equals the debtor sum.
pub open spec fn payments_total(ps: Seq<PaymentView>) -> int {
    payments_total_from(ps, 0)
}

/// The sum of one user's signed share amounts at or after `i`.
pub open spec fn amounts_for_user_from(l: Seq<AmountView>, u: Seq<char>, i: int) -> int
    decreases l.len() - i,
{
    if i < 0 || i >= l.len() {
        0
    } else {
        (if l[i].user == u {
            l[i].amount as int
        } else {
            0int
        }) + amounts_for_user_from(l, u, i + 1)
    }
}

/// One user's net balance over the payments at or after `i`: what the
/// payments owe the user minus what the user owes.
pub open spec fn balance_for_user_from(ps: Seq<PaymentView>, u: Seq<char>, i: int) -> int
    decreases ps.len() - i,
{
    if i < 0 || i >= ps.len() {
        0
    } else {
        amounts_for_user_from(ps[i].creditors, u, 0) - amounts_for_user_from(ps[i].debtors, u, 0)
            + balance_for_user_from(ps, u, i + 1)
    }
}

/// One user's net balance over the whole payment set.
pub open spec fn balance_for_user(ps: Seq<PaymentView>, u: Seq<char>) -> int {
    balance_for_user_from(ps, u, 0)
}

/// The sum of one user's balance entries at or after `i`.
pub open spec fn bal_of_from(bal: Seq<BalView>, u: Seq<char>, i: int) -> int
    decreases bal.len() - i,
{
    if i < 0 || i >= bal.len() {
        0
    } else {
        (if bal[i].user == u {
            bal[i].amount
        } else {
            0int
        }) + bal_of_from(bal, u, i + 1)
    }
}

/// The sum of one user's balance entries.
pub open spec fn bal_of(bal: Seq<BalView>, u: Seq<char>) -> int {
    bal_of_from(bal, u, 0)
}

/// What a user pays over a transfer list.
pub open spec fn sent(ts: Seq<WarikanView>, u: Seq<char>) -> int
    decreases ts.len(),
{
    if ts.len() == 0 {
        0
    } else {
        (if ts.first().from == u {
            ts.first().amount
        } else {
            0int
        }) + sent(ts.drop_first(), u)
    }
}

/// What a user receives over a transfer list.
pub open spec fn received(ts: Seq<WarikanView>, u: Seq<char>) -> int
    decreases ts.len(),
{
    if ts.len() == 0 {
        0
    } else {
        (if ts.first().to == u {
            ts.first().amount
        } else {
            0int
        }) + received(ts.drop_first(), u)
    }
}

/// Whether no two balance entries belong to the same user.
pub open spec fn distinct_users(bal: Seq<BalView>) -> bool {
    forall|j: int, k: int| 0 <= j < k < bal.len() ==> bal[j].user != bal[k].user
}

/// How an update changes one user's balance sum.
pub proof fn lemma_bal_of_update(bal: Seq<BalView>, u: Seq<char>, i: int, p: int, v: BalView)
    requires
        0 <= p < bal.len(),
        0 <= i,
    ensures
        bal_of_from(bal.update(p, v), u, i) == bal_of_from(bal, u, i) + (if i <= p {
            (if v.user == u {
                v.amount
            } else {
                0int
            }) - (if bal[p].user == u {
                bal[p].amount
            } else {
                0int
            })
        } else {
            0int
        }),
    decreases bal.len() - i,
{
    if i < bal.len() {
        lemma_bal_of_update(bal, u, i + 1, p, v);
    }
}

/// How a push changes one user's balance sum.
pub proof fn lemma_bal_of_push(bal: Seq<BalView>, u: Seq<char>, i: int, v: BalView)
    requires
        0 <= i <= bal.len(),
    ensures
        bal_of_from(bal.push(v), u, i) == bal_of_from(bal, u, i) + (if v.user == u {
            v.amount
        } else {
            0int
        }),
    decreases bal.len() - i,
{
    if i < bal.len() {
        lemma_bal_of_push(bal, u, i + 1, v);
    } else {
        assert(bal_of_from(bal.push(v), u, i) == (if bal.push(v)[i].user == u {
            bal.push(v)[i].amount
        } else {
            0int
        }) + bal_of_from(bal.push(v), u, i + 1));
    }
}

/// How one folded share changes one user's balance sum, the signed total,
/// and the distinctness of users.
pub proof fn lemma_bal_add(bal: Seq<BalView>, user: Seq<char>, delta: int, u: Seq<char>)
    requires
        distinct_users(bal),
    ensures
        bal_of(bal_add(bal, user, delta), u) == bal_of(bal, u) + (if user == u {
            delta
        } else {
            0int
        }),
        bal_total(bal_add(bal, user, delta)) == bal_total(bal) + delta,
        distinct_users(bal_add(bal, user, delta)),
{
    let p = key_pos(bal, user);
    crate::repositories::keyed::lemma_key_pos(bal, user);
    if p < bal.len() {
        let v = BalView { user, amount: bal[p].amount + delta };
        assert(bal[p].user == user);
        lemma_bal_of_update(bal, u, 0, p, v);
        lemma_bal_total_update(bal, 0, p, v);
        assert forall|j: int, k: int|
            0 <= j < k < bal.update(p, v).len() implies bal.update(p, v)[j].user != bal.update(
            p,
            v,
        )[k].user by {
            assert(bal[j].user != bal[k].user);
        }
    } else {
        let v = BalView { user, amount: delta };
        lemma_bal_of_push(bal, u, 0, v);
        lemma_bal_total_push(bal, 0, v);
        assert forall|j: int, k: int|
            0 <= j < k < bal.push(v).len() implies bal.push(v)[j].user != bal.push(v)[k].user by {
            if k < bal.len() {
                assert(bal[j].user != bal[k].user);
            } else {
                assert(bal[j].key() != user);
            }
        }
    }
}

/// How one folded share list changes one user's balance sum, the signed
/// total, and the distinctness of users.
pub proof fn lemma_apply_amounts(
    bal: Seq<BalView>,
    l: Seq<AmountView>,
    k: int,
    sign: int,
    u: Seq<char>,
)
    requires
        distinct_users(bal),
        0 <= k,
        sign == 1 || sign == -1,
    ensures
        bal_of(apply_amounts(bal, l, k, sign), u) == bal_of(bal, u) + sign * amounts_for_user_from(
            l,
            u,
            k,
        ),
        bal_total(apply_amounts(bal, l, k, sign)) == bal_total(bal) + sign * amounts_total_from(
            l,
            k,
        ),
        distinct_users(apply_amounts(bal, l, k, sign)),
    decreases l.len() - k,
{
    if k < l.len() {
        let next = bal_add(bal, l[k].user, sign * l[k].amount);
        lemma_bal_add(bal, l[k].user, sign * l[k].amount, u);
        lemma_apply_amounts(next, l, k + 1, sign, u);
        if sign == 1 {
            assert(sign * amounts_total_from(l, k) == sign * l[k].amount + sign
                * amounts_total_from(l, k + 1));
            assert(sign * amounts_for_user_from(l, u, k) == (if l[k].user == u {
                sign * l[k].amount
            } else {
                0int
            }) + sign * amounts_for_user_from(l, u, k + 1));
        } else {
            assert(sign * amounts_total_from(l, k) == sign * l[k].amount + sign
                * amounts_total_from(l, k + 1));
            assert(sign * amounts_for_user_from(l, u, k) == (if l[k].user == u {
                sign * l[k].amount
            } else {
                0int
            }) + sign * amounts_for_user_from(l, u, k + 1));
        }
    }
}

/// How the folded payments determine one user's balance sum, the signed
/// total, and the distinctness of users.
pub proof fn lemma_balances_from(bal: Seq<BalView>, ps: Seq<PaymentView>, i: int, u: Seq<char>)
    requires
        distinct_users(bal),
        0 <= i,
    ensures
        bal_of(balances_from(bal, ps, i), u) == bal_of(bal, u) + balance_for_user_from(ps, u, i),
        bal_total(balances_from(bal, ps, i)) == bal_total(bal) + payments_total_from(ps, i),
        distinct_users(balances_from(bal, ps, i)),
    decreases ps.len() - i,
{
    if i < ps.len() {
        let mid = apply_amounts(bal, ps[i].creditors, 0, 1);
        let next = apply_amounts(mid, ps[i].debtors, 0, -1);
        lemma_apply_amounts(bal, ps[i].creditors, 0, 1, u);
        lemma_apply_amounts(mid, ps[i].debtors, 0, -1, u);
        lemma_balances_from(next, ps, i + 1, u);
    }
}

/// What the balances built from the payments mean: one entry per user, the
/// entry sums the user's shares, and the entries sum to the payment total.
pub proof fn lemma_balances_of(ps: Seq<PaymentView>, u: Seq<char>)
    ensures
        bal_of(balances_of(ps), u) == balance_for_user(ps, u),
        bal_total(balances_of(ps)) == payments_total(ps),
        distinct_users(balances_of(ps)),
{
    lemma_balances_from(Seq::empty(), ps, 0, u);
}

/// With distinct users, an entry is its user's whole balance sum, and an
/// absent user sums to zero.
pub proof fn lemma_bal_of_entry(bal: Seq<BalView>, u: Seq<char>, i: int)
    requires
        distinct_users(bal),
        0 <= i <= bal.len(),
    ensures
        forall|k: int| i <= k < bal.len() && bal[k].user == u ==> bal_of_from(bal, u, i) == #[trigger] bal[k].amount,
        (forall|k: int| i <= k < bal.len() ==> #[trigger] bal[k].user != u) ==> bal_of_from(
            bal,
            u,
            i,
        ) == 0,
    decreases bal.len() - i,
{
    if i < bal.len() {
        lemma_bal_of_entry(bal, u, i + 1);
    }
}

/// The master settlement argument: over a balanced, duplicate-free balance
/// list with enough fuel, the greedy loop pays out exactly each user's
/// debt and pays in exactly each user's credit.
pub proof fn lemma_settle_nets(bal: Seq<BalView>, fuel: nat)
    requires
        bal_total(bal) == 0,
        fuel >= nonzero(bal),
        distinct_users(bal),
    ensures
        forall|u: Seq<char>| #[trigger] sent(spec_settle(bal, fuel), u) == (if bal_of(bal, u) < 0 {
            -bal_of(bal, u)
        } else {
            0int
        }),
        forall|u: Seq<char>| #[trigger] received(spec_settle(bal, fuel), u) == (if bal_of(
            bal,
            u,
        ) > 0 {
            bal_of(bal, u)
        } else {
            0int
        }),
    decreases fuel,
{
    let ts = spec_settle(bal, fuel);
    if fuel == 0 || bal.len() < 2 {
        lemma_nonzero_bounds(bal, 0);
        assert(ts == Seq::<WarikanView>::empty());
        assert forall|u: Seq<char>| #[trigger] sent(spec_settle(bal, fuel), u) == (if bal_of(
            bal,
            u,
        ) < 0 {
            -bal_of(bal, u)
        } else {
            0int
        }) by {
            lemma_all_zero(bal, u);
        }
        assert forall|u: Seq<char>| #[trigger] received(spec_settle(bal, fuel), u) == (if bal_of(
            bal,
            u,
        ) > 0 {
            bal_of(bal, u)
        } else {
            0int
        }) by {
            lemma_all_zero(bal, u);
        }
    } else {
        let d = argmin_from(bal, 0);
        lemma_argmin_from(bal, 0);
        if bal[d].amount == 0 {
            assert(ts == Seq::<WarikanView>::empty());
            assert forall|u: Seq<char>| #[trigger] sent(spec_settle(bal, fuel), u) == (if bal_of(
                bal,
                u,
            ) < 0 {
                -bal_of(bal, u)
            } else {
                0int
            }) by {
                lemma_all_zero_min(bal, u, d);
            }
            assert forall|u: Seq<char>| #[trigger] received(spec_settle(bal, fuel), u) == (
            if bal_of(bal, u) > 0 {
                bal_of(bal, u)
            } else {
                0int
            }) by {
                lemma_all_zero_min(bal, u, d);
            }
        } else {
            let c = argmax_from(bal, 0);
            lemma_argmax_from(bal, 0);
            lemma_settle_step_signs(bal);
            let step = settle_step(bal);
            let next = step.0;
            let w = step.1;
            let a = w.amount;
            assert(d != c);
            let dv = BalView { user: bal[d].user, amount: bal[d].amount + a };
            let cv = BalView { user: bal[c].user, amount: bal[c].amount - a };
            lemma_bal_total_update(bal, 0, d as int, dv);
            lemma_bal_total_update(bal.update(d as int, dv), 0, c as int, cv);
            lemma_nonzero_update(bal, 0, d as int, dv);
            lemma_nonzero_update(bal.update(d as int, dv), 0, c as int, cv);
            lemma_nonzero_entry(bal, 0, d);
            assert(distinct_users(next)) by {
                assert forall|j: int, k: int| 0 <= j < k < next.len() implies next[j].user
                    != next[k].user by {
                    assert(bal[j].user != bal[k].user);
                }
            }
            lemma_settle_nets(next, (fuel - 1) as nat);
            assert(ts == seq![w] + spec_settle(next, (fuel - 1) as nat));
            assert(ts.first() == w);
            assert(ts.drop_first() =~= spec_settle(next, (fuel - 1) as nat));
            assert forall|u: Seq<char>| #[trigger] sent(spec_settle(bal, fuel), u) == (if bal_of(
                bal,
                u,
            ) < 0 {
                -bal_of(bal, u)
            } else {
                0int
            }) by {
                let rest = spec_settle(next, (fuel - 1) as nat);
                assert(a == imin(iabs(bal[d].amount), iabs(bal[c].amount)));
                assert(a > 0);
                assert(bal[d].amount + a <= 0);
                assert(bal[c].amount - a >= 0);
                assert(sent(ts, u) == (if w.from == u {
                    a
                } else {
                    0int
                }) + sent(rest, u));
                assert(received(ts, u) == (if w.to == u {
                    a
                } else {
                    0int
                }) + received(rest, u));
                lemma_bal_of_update(bal, u, 0, d as int, dv);
                lemma_bal_of_update(bal.update(d as int, dv), u, 0, c as int, cv);
                lemma_bal_of_entry(bal, u, 0);
                assert(bal[d].user != bal[c].user);
                assert(bal_of(next, u) == bal_of(bal, u) + (if bal[d].user == u {
                    a
                } else {
                    0int
                }) - (if bal[c].user == u {
                    a
                } else {
                    0int
                }));
                if bal[d].user == u {
                    assert(bal_of(bal, u) == bal[d].amount);
                } else if bal[c].user == u {
                    assert(bal_of(bal, u) == bal[c].amount);
                }
            }
            assert forall|u: Seq<char>| #[trigger] received(spec_settle(bal, fuel), u) == (
            if bal_of(bal, u) > 0 {
                bal_of(bal, u)
            } else {
                0int
            }) by {
                let rest = spec_settle(next, (fuel - 1) as nat);
                assert(a == imin(iabs(bal[d].amount), iabs(bal[c].amount)));
                assert(a > 0);
                assert(bal[d].amount + a <= 0);
                assert(bal[c].amount - a >= 0);
                assert(sent(ts, u) == (if w.from == u {
                    a
                } else {
                    0int
                }) + sent(rest, u));
                assert(received(ts, u) == (if w.to == u {
                    a
                } else {
                    0int
                }) + received(rest, u));
                lemma_bal_of_update(bal, u, 0, d as int, dv);
                lemma_bal_of_update(bal.update(d as int, dv), u, 0, c as int, cv);
                lemma_bal_of_entry(bal, u, 0);
                assert(bal[d].user != bal[c].user);
                assert(bal_of(next, u) == bal_of(bal, u) + (if bal[d].user == u {
                    a
                } else {
                    0int
                }) - (if bal[c].user == u {
                    a
                } else {
                    0int
                }));
                if bal[d].user == u {
                    assert(bal_of(bal, u) == bal[d].amount);
                } else if bal[c].user == u {
                    assert(bal_of(bal, u) == bal[c].amount);
                }
            }
        }
    }
}

/// A balance list whose nonzero count is zero sums each user to zero.
pub proof fn lemma_all_zero(bal: Seq<BalView>, u: Seq<char>)
    requires
        nonzero(bal) == 0 || bal.len() < 2,
        bal_total(bal) == 0,
    ensures
        bal_of(bal, u) == 0,
{
    if bal.len() == 0 {
    } else if bal.len() == 1 {
        assert(bal_total(bal) == bal[0].amount + bal_total_from(bal, 1));
        lemma_bal_zero_entries(bal, u, 0);
    } else {
        lemma_nonzero_all_zero(bal, 0);
        lemma_bal_zero_entries(bal, u, 0);
    }
}

/// A zero nonzero count means every entry is zero.
pub proof fn lemma_nonzero_all_zero(bal: Seq<BalView>, i: int)
    requires
        0 <= i,
        nonzero_from(bal, i) == 0,
    ensures
        forall|k: int| i <= k < bal.len() ==> #[trigger] bal[k].amount == 0,
    decreases bal.len() - i,
{
    if i < bal.len() {
        lemma_nonzero_bounds(bal, i + 1);
        lemma_nonzero_all_zero(bal, i + 1);
    }
}

/// All-zero entries sum each user to zero.
pub proof fn lemma_bal_zero_entries(bal: Seq<BalView>, u: Seq<char>, i: int)
    requires
        0 <= i,
        forall|k: int| i <= k < bal.len() ==> #[trigger] bal[k].amount == 0,
    ensures
        bal_of_from(bal, u, i) == 0,
    decreases bal.len() - i,
{
    if i < bal.len() {
        lemma_bal_zero_entries(bal, u, i + 1);
    }
}

/// The smallest balance being zero makes every entry zero, given a zero
/// total.
pub proof fn lemma_all_zero_min(bal: Seq<BalView>, u: Seq<char>, d: int)
    requires
        0 <= d < bal.len(),
        bal[d].amount == 0,
        forall|j: int| 0 <= j < bal.len() ==> bal[d].amount <= #[trigger] bal[j].amount,
        bal_total(bal) == 0,
    ensures
        bal_of(bal, u) == 0,
{
    assert forall|k: int| 0 <= k < bal.len() implies #[trigger] bal[k].amount == 0 by {
        if bal[k].amount > 0 {
            lemma_total_strictly_positive(bal, 0, k);
        }
    }
    lemma_bal_zero_entries(bal, u, 0);
}

} // verus!
