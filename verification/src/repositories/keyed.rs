//! Sequences of records addressed by a string key: the common shape of every
//! collection held by the document store. A lookup returns the first record
//! with the key; storing a record replaces the first record with its key or
//! appends; deletion removes every record with the key.

use vstd::prelude::*;

verus! {

/// A record with a string key.
pub trait Keyed {
    /// The key of the record.
    spec fn key(self) -> Seq<char>;
}

/// The index of the first record at or after `i` whose key is `id`, or
/// `s.len()` where there is none.
pub open spec fn key_pos_from<T: Keyed>(s: Seq<T>, id: Seq<char>, i: int) -> int
    decreases s.len() - i,
{
    if i < 0 || i >= s.len() {
        s.len() as int
    } else if s[i].key() == id {
        i
    } else {
        key_pos_from(s, id, i + 1)
    }
}

/// The index of the first record whose key is `id`, or `s.len()`.
pub open spec fn key_pos<T: Keyed>(s: Seq<T>, id: Seq<char>) -> int {
    key_pos_from(s, id, 0)
}

/// The first record whose key is `id`, if any.
pub open spec fn find_by_key<T: Keyed>(s: Seq<T>, id: Seq<char>) -> Option<T> {
    let p = key_pos(s, id);
    if p < s.len() {
        Some(s[p])
    } else {
        None
    }
}

/// Stores `v`: replaces the first record keyed like `v`, or appends `v`.
pub open spec fn upsert_by_key<T: Keyed>(s: Seq<T>, v: T) -> Seq<T> {
    let p = key_pos(s, v.key());
    if p < s.len() {
        s.update(p, v)
    } else {
        s.push(v)
    }
}

/// Replaces the first record keyed like `v`; where none is stored, the
/// sequence is unchanged.
pub open spec fn replace_by_key<T: Keyed>(s: Seq<T>, v: T) -> Seq<T> {
    let p = key_pos(s, v.key());
    if p < s.len() {
        s.update(p, v)
    } else {
        s
    }
}

/// Removes every record whose key is `id`, keeping the order of the rest.
pub open spec fn remove_by_key<T: Keyed>(s: Seq<T>, id: Seq<char>) -> Seq<T>
    decreases s.len(),
{
    if s.len() == 0 {
        Seq::empty()
    } else if s.first().key() == id {
        remove_by_key(s.drop_first(), id)
    } else {
        seq![s.first()] + remove_by_key(s.drop_first(), id)
    }
}

/// What `key_pos_from` returns: the first matching index in `[i, s.len())`,
/// or `s.len()` where no index matches.
pub proof fn lemma_key_pos_from<T: Keyed>(s: Seq<T>, id: Seq<char>, i: int)
    requires
        0 <= i <= s.len(),
    ensures
        i <= key_pos_from(s, id, i) <= s.len(),
        forall|j: int| i <= j < key_pos_from(s, id, i) ==> s[j].key() != id,
        key_pos_from(s, id, i) < s.len() ==> s[key_pos_from(s, id, i)].key() == id,
    decreases s.len() - i,
{
    if i < s.len() && s[i].key() != id {
        lemma_key_pos_from(s, id, i + 1);
    }
}

/// What `key_pos` returns.
pub proof fn lemma_key_pos<T: Keyed>(s: Seq<T>, id: Seq<char>)
    ensures
        0 <= key_pos(s, id) <= s.len(),
        forall|j: int| 0 <= j < key_pos(s, id) ==> s[j].key() != id,
        key_pos(s, id) < s.len() ==> s[key_pos(s, id)].key() == id,
{
    lemma_key_pos_from(s, id, 0);
}

/// A lookup right after an upsert finds the stored record.
pub proof fn lemma_find_upsert<T: Keyed>(s: Seq<T>, v: T)
    ensures
        find_by_key(upsert_by_key(s, v), v.key()) == Some(v),
{
    let p = key_pos(s, v.key());
    lemma_key_pos(s, v.key());
    let r = upsert_by_key(s, v);
    let q = key_pos(r, v.key());
    lemma_key_pos(r, v.key());
    if p < s.len() {
        assert(r[p].key() == v.key());
        assert(q <= p);
        if q < p {
            assert(r[q] == s[q]);
            assert(false);
        }
    } else {
        assert(r[s.len() as int].key() == v.key());
        assert(q <= s.len());
        if q < s.len() {
            assert(r[q] == s[q]);
            assert(false);
        }
    }
}

/// A lookup right after a removal of the same key finds nothing.
pub proof fn lemma_find_remove<T: Keyed>(s: Seq<T>, id: Seq<char>)
    ensures
        find_by_key(remove_by_key(s, id), id) is None,
{
    let r = remove_by_key(s, id);
    let q = key_pos(r, id);
    lemma_key_pos(r, id);
    lemma_remove_by_key(s, id);
    if q < r.len() {
        assert(r.contains(r[q]));
        assert(false);
    }
}

/// Every record of an upsert result stands in the original or is the stored
/// record.
pub proof fn lemma_upsert_contains<T: Keyed>(s: Seq<T>, v: T)
    ensures
        forall|x: T| #[trigger] upsert_by_key(s, v).contains(x) ==> s.contains(x) || x == v,
{
    let p = key_pos(s, v.key());
    lemma_key_pos(s, v.key());
    assert forall|x: T| #[trigger] upsert_by_key(s, v).contains(x) implies s.contains(x) || x
        == v by {
        let r = upsert_by_key(s, v);
        let k = choose|k: int| 0 <= k < r.len() && r[k] == x;
        if p < s.len() {
            if k != p {
                assert(s[k] == x);
            }
        } else {
            if k < s.len() {
                assert(s[k] == x);
            }
        }
    }
}

/// Every record of a replacement result stands in the original or is the
/// stored record.
pub proof fn lemma_replace_contains<T: Keyed>(s: Seq<T>, v: T)
    ensures
        forall|x: T| #[trigger] replace_by_key(s, v).contains(x) ==> s.contains(x) || x == v,
{
    let p = key_pos(s, v.key());
    lemma_key_pos(s, v.key());
    assert forall|x: T| #[trigger] replace_by_key(s, v).contains(x) implies s.contains(x) || x
        == v by {
        let r = replace_by_key(s, v);
        let k = choose|k: int| 0 <= k < r.len() && r[k] == x;
        if p < s.len() {
            if k != p {
                assert(s[k] == x);
            }
        } else {
            assert(s[k] == x);
        }
    }
}

/// The records left by a removal: exactly those of the original whose key
/// differs from the removed one.
pub proof fn lemma_remove_by_key<T: Keyed>(s: Seq<T>, id: Seq<char>)
    ensures
        forall|x: T| #[trigger] remove_by_key(s, id).contains(x) <==> s.contains(x) && x.key()
            != id,
    decreases s.len(),
{
    if s.len() == 0 {
    } else {
        let sub = s.drop_first();
        lemma_remove_by_key(sub, id);
        assert forall|x: T| #[trigger] remove_by_key(s, id).contains(x) implies s.contains(x)
            && x.key() != id by {
            if s.first().key() == id {
                assert(remove_by_key(s, id) == remove_by_key(sub, id));
                assert(remove_by_key(sub, id).contains(x));
                assert(sub.contains(x));
                let k = choose|k: int| 0 <= k < sub.len() && sub[k] == x;
                assert(s[k + 1] == x);
            } else {
                let r = remove_by_key(s, id);
                let k = choose|k: int| 0 <= k < r.len() && r[k] == x;
                if k == 0 {
                    assert(s[0] == x);
                } else {
                    assert(remove_by_key(sub, id)[k - 1] == x);
                    assert(remove_by_key(sub, id).contains(x));
                    assert(sub.contains(x));
                    let m = choose|m: int| 0 <= m < sub.len() && sub[m] == x;
                    assert(s[m + 1] == x);
                }
            }
        }
        assert forall|x: T| s.contains(x) && x.key() != id implies #[trigger] remove_by_key(
            s,
            id,
        ).contains(x) by {
            let k = choose|k: int| 0 <= k < s.len() && s[k] == x;
            if k == 0 {
                if s.first().key() != id {
                    assert(remove_by_key(s, id)[0] == x);
                }
            } else {
                assert(sub[k - 1] == x);
                assert(remove_by_key(sub, id).contains(x));
                if s.first().key() == id {
                } else {
                    let r = remove_by_key(sub, id);
                    let m = choose|m: int| 0 <= m < r.len() && r[m] == x;
                    assert(remove_by_key(s, id)[m + 1] == x);
                }
            }
        }
    }
}

} // verus!
