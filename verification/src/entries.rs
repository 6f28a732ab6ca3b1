//! The ordered keyed collection at the heart of a store: entries kept
//! in strictly ascending byte order of key, with lookup, insert,
//! removal, and the laws those operations obey.

use vstd::prelude::*;

use crate::keys::copy_bytes;
use crate::keys::key_cmp;
use crate::keys::lemma_lex_asym;
use crate::keys::lemma_lex_neq;
use crate::keys::lemma_lex_total;
use crate::keys::lemma_lex_trans;
use crate::keys::lex_lt;
use crate::keys::KeyCmp;

verus! {

/// One stored entry: a key and the canonical encoding of its value.
pub struct Entry {
    pub key: Vec<u8>,
    pub val: Vec<u8>,
}

impl View for Entry {
    type V = (Seq<u8>, Seq<u8>);

    open spec fn view(&self) -> (Seq<u8>, Seq<u8>) {
        (self.key@, self.val@)
    }
}

/// The model of an entry list: key/value byte-string pairs in order.
pub open spec fn entries_view(s: Seq<Entry>) -> Seq<(Seq<u8>, Seq<u8>)> {
    s.map_values(|e: Entry| e@)
}

/// Keys strictly ascend, so every key occurs at most once.
pub open spec fn entries_sorted(s: Seq<(Seq<u8>, Seq<u8>)>) -> bool {
    forall|i: int, j: int| 0 <= i < j < s.len() ==> lex_lt(s[i].0, s[j].0)
}

/// The value stored under a key, if any.
pub open spec fn spec_lookup(s: Seq<(Seq<u8>, Seq<u8>)>, k: Seq<u8>) -> Option<Seq<u8>>
    decreases s.len(),
{
    if s.len() == 0 {
        None
    } else if s[0].0 == k {
        Some(s[0].1)
    } else {
        spec_lookup(s.drop_first(), k)
    }
}

/// The list after storing `v` under `k`: an overwrite where the key is
/// present, an order-preserving insertion where it is not.
pub open spec fn spec_insert(s: Seq<(Seq<u8>, Seq<u8>)>, k: Seq<u8>, v: Seq<u8>) -> Seq<
    (Seq<u8>, Seq<u8>),
>
    decreases s.len(),
{
    if s.len() == 0 {
        seq![(k, v)]
    } else if lex_lt(k, s[0].0) {
        seq![(k, v)] + s
    } else if k == s[0].0 {
        seq![(k, v)] + s.drop_first()
    } else {
        seq![s[0]] + spec_insert(s.drop_first(), k, v)
    }
}

/// The list after deleting `k`; unchanged where `k` is absent.
pub open spec fn spec_remove(s: Seq<(Seq<u8>, Seq<u8>)>, k: Seq<u8>) -> Seq<(Seq<u8>, Seq<u8>)>
    decreases s.len(),
{
    if s.len() == 0 {
        s
    } else if s[0].0 == k {
        s.drop_first()
    } else {
        seq![s[0]] + spec_remove(s.drop_first(), k)
    }
}

proof fn lemma_lookup_cons(x: (Seq<u8>, Seq<u8>), t: Seq<(Seq<u8>, Seq<u8>)>, k: Seq<u8>)
    ensures
        spec_lookup(seq![x] + t, k) == if x.0 == k {
            Some(x.1)
        } else {
            spec_lookup(t, k)
        },
{
    assert((seq![x] + t)[0] == x);
    assert((seq![x] + t).drop_first() =~= t);
}

/// A key no entry carries looks up to nothing.
pub proof fn lemma_lookup_absent(s: Seq<(Seq<u8>, Seq<u8>)>, k: Seq<u8>)
    requires
        forall|i: int| 0 <= i < s.len() ==> s[i].0 != k,
    ensures
        spec_lookup(s, k) is None,
    decreases s.len(),
{
    if s.len() > 0 {
        lemma_lookup_absent(s.drop_first(), k);
    }
}

/// A lookup that finds nothing means no entry carries the key.
pub proof fn lemma_lookup_none_absent(s: Seq<(Seq<u8>, Seq<u8>)>, k: Seq<u8>)
    requires
        spec_lookup(s, k) is None,
    ensures
        forall|i: int| 0 <= i < s.len() ==> s[i].0 != k,
    decreases s.len(),
{
    if s.len() > 0 {
        lemma_lookup_none_absent(s.drop_first(), k);
        assert(forall|i: int| 1 <= i < s.len() ==> s[i] == s.drop_first()[i - 1]);
    }
}

/// The lookup result is the first (and, sorted, the only) match.
pub proof fn lemma_lookup_index(s: Seq<(Seq<u8>, Seq<u8>)>, k: Seq<u8>, i: int)
    requires
        0 <= i < s.len(),
        s[i].0 == k,
        forall|j: int| 0 <= j < i ==> s[j].0 != k,
    ensures
        spec_lookup(s, k) == Some(s[i].1),
    decreases s.len(),
{
    if i > 0 {
        lemma_lookup_index(s.drop_first(), k, i - 1);
        assert(forall|j: int| 0 <= j < s.drop_first().len() ==> s.drop_first()[j] == s[j + 1]);
    }
}

/// Where an order-preserving scan stopped, `spec_insert` acts: it
/// overwrites in place on an exact match and splices in otherwise.
pub proof fn lemma_insert_at(s: Seq<(Seq<u8>, Seq<u8>)>, k: Seq<u8>, v: Seq<u8>, i: int)
    requires
        0 <= i <= s.len(),
        forall|j: int| 0 <= j < i ==> lex_lt(s[j].0, k),
        i < s.len() ==> !lex_lt(s[i].0, k),
    ensures
        spec_insert(s, k, v) == if i < s.len() && s[i].0 == k {
            s.update(i, (k, v))
        } else {
            s.insert(i, (k, v))
        },
    decreases s.len(),
{
    if s.len() == 0 {
        assert(spec_insert(s, k, v) =~= s.insert(0, (k, v)));
    } else if i == 0 {
        if s[0].0 == k {
            assert(seq![(k, v)] + s.drop_first() =~= s.update(0, (k, v)));
        } else {
            lemma_lex_total(k, s[0].0);
            assert(lex_lt(k, s[0].0));
            assert(seq![(k, v)] + s =~= s.insert(0, (k, v)));
        }
    } else {
        assert(lex_lt(s[0].0, k));
        lemma_lex_neq(s[0].0, k);
        lemma_lex_asym(s[0].0, k);
        let t = s.drop_first();
        assert(forall|j: int| 0 <= j < t.len() ==> t[j] == s[j + 1]);
        lemma_insert_at(t, k, v, i - 1);
        if i < s.len() && s[i].0 == k {
            assert(seq![s[0]] + t.update(i - 1, (k, v)) =~= s.update(i, (k, v)));
        } else {
            assert(seq![s[0]] + t.insert(i - 1, (k, v)) =~= s.insert(i, (k, v)));
        }
    }
}

/// Storing keeps the entries in strictly ascending key order.
pub proof fn lemma_insert_sorted(s: Seq<(Seq<u8>, Seq<u8>)>, k: Seq<u8>, v: Seq<u8>, i: int)
    requires
        entries_sorted(s),
        0 <= i <= s.len(),
        forall|j: int| 0 <= j < i ==> lex_lt(s[j].0, k),
        i < s.len() ==> !lex_lt(s[i].0, k),
    ensures
        entries_sorted(spec_insert(s, k, v)),
{
    lemma_insert_at(s, k, v, i);
    if i < s.len() && s[i].0 == k {
        let t = s.update(i, (k, v));
        assert forall|p: int, q: int| 0 <= p < q < t.len() implies lex_lt(t[p].0, t[q].0) by {
            assert(t[p].0 == s[p].0);
            assert(t[q].0 == s[q].0);
        }
    } else {
        if i < s.len() {
            lemma_lex_total(k, s[i].0);
        }
        let t = s.insert(i, (k, v));
        assert forall|p: int, q: int| 0 <= p < q < t.len() implies lex_lt(t[p].0, t[q].0) by {
            if p < i && q == i {
                assert(t[p].0 == s[p].0 && t[q].0 == k);
            } else if p == i && q > i {
                assert(t[p].0 == k && t[q].0 == s[q - 1].0);
                assert(lex_lt(k, s[i as int].0));
                if q - 1 > i {
                    lemma_lex_trans(k, s[i as int].0, s[q - 1].0);
                }
            } else if p < i && q > i {
                assert(t[p].0 == s[p].0 && t[q].0 == s[q - 1].0);
            } else {
                assert(t[p].0 == if p < i {
                    s[p].0
                } else {
                    s[p - 1].0
                });
                assert(t[q].0 == if q < i {
                    s[q].0
                } else {
                    s[q - 1].0
                });
            }
        }
    }
}

/// Within one view, a read after a write returns the written value.
pub proof fn lemma_lookup_insert_same(s: Seq<(Seq<u8>, Seq<u8>)>, k: Seq<u8>, v: Seq<u8>)
    ensures
        spec_lookup(spec_insert(s, k, v), k) == Some(v),
    decreases s.len(),
{
    if s.len() == 0 {
        lemma_lookup_cons((k, v), Seq::empty(), k);
        assert(seq![(k, v)] + Seq::<(Seq<u8>, Seq<u8>)>::empty() =~= seq![(k, v)]);
        assert(spec_insert(s, k, v) =~= seq![(k, v)] + Seq::<(Seq<u8>, Seq<u8>)>::empty());
    } else if lex_lt(k, s[0].0) {
        lemma_lookup_cons((k, v), s, k);
    } else if k == s[0].0 {
        lemma_lookup_cons((k, v), s.drop_first(), k);
    } else {
        lemma_lex_total(k, s[0].0);
        lemma_lookup_insert_same(s.drop_first(), k, v);
        lemma_lookup_cons(s[0], spec_insert(s.drop_first(), k, v), k);
    }
}

/// A write leaves every other key's lookup unchanged.
pub proof fn lemma_lookup_insert_frame(
    s: Seq<(Seq<u8>, Seq<u8>)>,
    k: Seq<u8>,
    v: Seq<u8>,
    k2: Seq<u8>,
)
    requires
        k2 != k,
    ensures
        spec_lookup(spec_insert(s, k, v), k2) == spec_lookup(s, k2),
    decreases s.len(),
{
    if s.len() == 0 {
        assert(spec_insert(s, k, v) =~= seq![(k, v)] + Seq::<(Seq<u8>, Seq<u8>)>::empty());
        lemma_lookup_cons((k, v), Seq::empty(), k2);
    } else if lex_lt(k, s[0].0) {
        lemma_lookup_cons((k, v), s, k2);
    } else if k == s[0].0 {
        lemma_lookup_cons((k, v), s.drop_first(), k2);
    } else {
        lemma_lookup_insert_frame(s.drop_first(), k, v, k2);
        lemma_lookup_cons(s[0], spec_insert(s.drop_first(), k, v), k2);
    }
}

/// Where a scan found the key (or found it absent), `spec_remove` acts:
/// it drops exactly that entry, or nothing.
pub proof fn lemma_remove_at(s: Seq<(Seq<u8>, Seq<u8>)>, k: Seq<u8>, i: int)
    requires
        0 <= i < s.len(),
        s[i].0 == k,
        forall|j: int| 0 <= j < i ==> s[j].0 != k,
    ensures
        spec_remove(s, k) == s.remove(i),
    decreases s.len(),
{
    if i == 0 {
        assert(s.drop_first() =~= s.remove(0));
    } else {
        let t = s.drop_first();
        assert(forall|j: int| 0 <= j < t.len() ==> t[j] == s[j + 1]);
        lemma_remove_at(t, k, i - 1);
        assert(seq![s[0]] + t.remove(i - 1) =~= s.remove(i));
    }
}

/// Deleting an absent key is a no-op: the entries are left unchanged.
pub proof fn lemma_remove_absent(s: Seq<(Seq<u8>, Seq<u8>)>, k: Seq<u8>)
    requires
        forall|i: int| 0 <= i < s.len() ==> s[i].0 != k,
    ensures
        spec_remove(s, k) == s,
    decreases s.len(),
{
    if s.len() > 0 {
        let t = s.drop_first();
        assert(forall|j: int| 0 <= j < t.len() ==> t[j] == s[j + 1]);
        lemma_remove_absent(t, k);
        assert(seq![s[0]] + t =~= s);
    }
}

/// Deletion keeps the remaining entries in order.
pub proof fn lemma_remove_sorted(s: Seq<(Seq<u8>, Seq<u8>)>, k: Seq<u8>)
    requires
        entries_sorted(s),
    ensures
        entries_sorted(spec_remove(s, k)),
{
    if spec_lookup(s, k) is None {
        lemma_lookup_none_absent(s, k);
        lemma_remove_absent(s, k);
    } else {
        let i = choose|i: int|
            0 <= i < s.len() && s[i].0 == k && forall|j: int| 0 <= j < i ==> s[j].0 != k;
        lemma_first_match_exists(s, k);
        lemma_remove_at(s, k, i);
        let t = s.remove(i);
        assert forall|p: int, q: int| 0 <= p < q < t.len() implies lex_lt(t[p].0, t[q].0) by {
            assert(t[p].0 == if p < i {
                s[p].0
            } else {
                s[p + 1].0
            });
            assert(t[q].0 == if q < i {
                s[q].0
            } else {
                s[q + 1].0
            });
        }
    }
}

proof fn lemma_first_match_exists(s: Seq<(Seq<u8>, Seq<u8>)>, k: Seq<u8>)
    requires
        spec_lookup(s, k) is Some,
    ensures
        exists|i: int|
            0 <= i < s.len() && s[i].0 == k && forall|j: int| 0 <= j < i ==> s[j].0 != k,
    decreases s.len(),
{
    if s.len() > 0 {
        if s[0].0 == k {
            assert(0 <= 0 < s.len() && s[0].0 == k && forall|j: int| 0 <= j < 0 ==> s[j].0 != k);
        } else {
            lemma_first_match_exists(s.drop_first(), k);
            let t = s.drop_first();
            let i = choose|i: int|
                0 <= i < t.len() && t[i].0 == k && forall|j: int| 0 <= j < i ==> t[j].0 != k;
            assert(forall|j: int| 0 <= j < t.len() ==> t[j] == s[j + 1]);
            assert(s[i + 1].0 == k);
            assert forall|j: int| 0 <= j < i + 1 implies s[j].0 != k by {
                if j > 0 {
                    assert(s[j] == t[j - 1]);
                }
            }
            assert(0 <= i + 1 < s.len() && s[i + 1].0 == k && forall|j: int|
                0 <= j < i + 1 ==> s[j].0 != k);
        }
    }
}

/// Within one view, a read after a delete finds nothing.
pub proof fn lemma_lookup_remove_same(s: Seq<(Seq<u8>, Seq<u8>)>, k: Seq<u8>)
    requires
        entries_sorted(s),
    ensures
        spec_lookup(spec_remove(s, k), k) is None,
    decreases s.len(),
{
    if s.len() > 0 {
        let t = s.drop_first();
        assert(forall|j: int| 0 <= j < t.len() ==> t[j] == s[j + 1]);
        if s[0].0 == k {
            assert forall|i: int| 0 <= i < t.len() implies t[i].0 != k by {
                assert(lex_lt(s[0].0, s[i + 1].0));
                lemma_lex_neq(s[0].0, s[i + 1].0);
            }
            lemma_lookup_absent(t, k);
        } else {
            lemma_lookup_remove_same(t, k);
            lemma_lookup_cons(s[0], spec_remove(t, k), k);
        }
    }
}

/// A delete leaves every other key's lookup unchanged.
pub proof fn lemma_lookup_remove_frame(s: Seq<(Seq<u8>, Seq<u8>)>, k: Seq<u8>, k2: Seq<u8>)
    requires
        k2 != k,
    ensures
        spec_lookup(spec_remove(s, k), k2) == spec_lookup(s, k2),
    decreases s.len(),
{
    if s.len() > 0 {
        if s[0].0 == k {
            assert(spec_remove(s, k) == s.drop_first());
        } else {
            lemma_lookup_remove_frame(s.drop_first(), k, k2);
            lemma_lookup_cons(s[0], spec_remove(s.drop_first(), k), k2);
        }
    }
}

/// Deleting a key that looks up to nothing leaves the entries exactly
/// as they were.
pub proof fn lemma_delete_absent_identity(s: Seq<(Seq<u8>, Seq<u8>)>, k: Seq<u8>)
    requires
        spec_lookup(s, k) is None,
    ensures
        spec_remove(s, k) == s,
{
    lemma_lookup_none_absent(s, k);
    lemma_remove_absent(s, k);
}

/// Every value held after a store is either the stored value or one
/// that was already held: a property of the values is preserved.
pub proof fn lemma_insert_values(
    s: Seq<(Seq<u8>, Seq<u8>)>,
    k: Seq<u8>,
    v: Seq<u8>,
    pred: spec_fn(Seq<u8>) -> bool,
)
    requires
        pred(v),
        forall|i: int| 0 <= i < s.len() ==> pred(#[trigger] s[i].1),
    ensures
        forall|i: int|
            0 <= i < spec_insert(s, k, v).len() ==> pred(#[trigger] spec_insert(s, k, v)[i].1),
    decreases s.len(),
{
    let r = spec_insert(s, k, v);
    if s.len() == 0 {
        assert(forall|i: int| 0 <= i < r.len() ==> r[i] == (k, v));
    } else if lex_lt(k, s[0].0) {
        assert(forall|i: int| 1 <= i < r.len() ==> r[i] == s[i - 1]);
    } else if k == s[0].0 {
        assert(forall|i: int| 1 <= i < r.len() ==> r[i] == s.drop_first()[i - 1]);
        assert(forall|i: int| 1 <= i < s.len() ==> s.drop_first()[i - 1] == s[i]);
    } else {
        let t = s.drop_first();
        assert(forall|i: int| 0 <= i < t.len() ==> t[i] == s[i + 1]);
        lemma_insert_values(t, k, v, pred);
        assert(forall|i: int| 1 <= i < r.len() ==> r[i] == spec_insert(t, k, v)[i - 1]);
        assert(r[0] == s[0]);
    }
}

/// Every value held after a delete was already held.
pub proof fn lemma_remove_values(s: Seq<(Seq<u8>, Seq<u8>)>, k: Seq<u8>, pred: spec_fn(Seq<u8>) -> bool)
    requires
        forall|i: int| 0 <= i < s.len() ==> pred(#[trigger] s[i].1),
    ensures
        forall|i: int|
            0 <= i < spec_remove(s, k).len() ==> pred(#[trigger] spec_remove(s, k)[i].1),
    decreases s.len(),
{
    let r = spec_remove(s, k);
    if s.len() == 0 {
    } else if s[0].0 == k {
        assert(forall|i: int| 0 <= i < r.len() ==> r[i] == s[i + 1]);
    } else {
        let t = s.drop_first();
        assert(forall|i: int| 0 <= i < t.len() ==> t[i] == s[i + 1]);
        lemma_remove_values(t, k, pred);
        assert(forall|i: int| 1 <= i < r.len() ==> r[i] == spec_remove(t, k)[i - 1]);
        assert(r[0] == s[0]);
    }
}

/// In a sorted list, the suffix that starts at the first key not below
/// `k` holds exactly the entries whose key is at or above `k`, in
/// unchanged order: a range scan from `k` is the full scan filtered.
pub proof fn lemma_suffix_is_filter(s: Seq<(Seq<u8>, Seq<u8>)>, k: Seq<u8>, i: int)
    requires
        entries_sorted(s),
        0 <= i <= s.len(),
        forall|j: int| 0 <= j < i ==> lex_lt(s[j].0, k),
        forall|j: int| i <= j < s.len() ==> !lex_lt(s[j].0, k),
    ensures
        s.skip(i) == s.filter(|e: (Seq<u8>, Seq<u8>)| !lex_lt(e.0, k)),
    decreases s.len(),
{
    reveal(Seq::filter);
    let pred = |e: (Seq<u8>, Seq<u8>)| !lex_lt(e.0, k);
    if s.len() == 0 {
        assert(s.skip(i) =~= s.filter(pred));
    } else {
        let t = s.drop_last();
        let x = s.last();
        assert(forall|j: int| 0 <= j < t.len() ==> t[j] == s[j]);
        if i < s.len() {
            assert(pred(x));
            lemma_suffix_is_filter(t, k, i);
            assert(s.skip(i) =~= t.skip(i).push(x));
            assert(s.filter(pred) == t.filter(pred).push(x));
        } else {
            assert(!pred(x));
            lemma_suffix_is_filter(t, k, i - 1);
            assert(s.skip(i) =~= t.skip(i - 1));
            assert(s.filter(pred) == t.filter(pred));
        }
    }
}

/// Looks up a key in an entry list.
pub fn find_entry(list: &Vec<Entry>, key: &[u8]) -> (r: Option<usize>)
    ensures
        r matches Some(i) ==> i < list@.len() && entries_view(list@)[i as int].0 == key@
            && spec_lookup(entries_view(list@), key@) == Some(entries_view(list@)[i as int].1),
        r is None ==> spec_lookup(entries_view(list@), key@) is None,
{
    let ghost s = entries_view(list@);
    let n = list.len();
    let mut i: usize = 0;
    while i < n
        invariant
            s == entries_view(list@),
            n == list@.len(),
            s.len() == n,
            i <= n,
            forall|j: int| 0 <= j < i ==> s[j].0 != key@,
        decreases n - i,
    {
        let c = key_cmp(list[i].key.as_slice(), key);
        if c == KeyCmp::Equal {
            proof {
                assert(s[i as int].0 == list@[i as int].key@);
                lemma_lookup_index(s, key@, i as int);
            }
            return Some(i);
        }
        proof {
            if c == KeyCmp::Less {
                lemma_lex_neq(list@[i as int].key@, key@);
            } else {
                lemma_lex_neq(key@, list@[i as int].key@);
            }
        }
        i = i + 1;
    }
    proof {
        lemma_lookup_absent(s, key@);
    }
    None
}

/// Stores `val` under `key`, inserting or overwriting in place, and
/// keeps the list sorted.
#[verifier::loop_isolation(false)]
pub fn insert_entry(list: &mut Vec<Entry>, key: &[u8], val: Vec<u8>)
    requires
        entries_sorted(entries_view(old(list)@)),
    ensures
        entries_view(final(list)@) == spec_insert(entries_view(old(list)@), key@, val@),
        entries_sorted(entries_view(final(list)@)),
{
    let ghost s = entries_view(old(list)@);
    let n = list.len();
    let mut i: usize = 0;
    let mut stop = false;
    while !stop && i < n
        invariant
            list@ == old(list)@,
            i <= n,
            forall|j: int| 0 <= j < i ==> lex_lt(s[j].0, key@),
            stop ==> i < n && !lex_lt(s[i as int].0, key@),
        decreases n - i, (if stop { 0int } else { 1int }),
    {
        let c = key_cmp(list[i].key.as_slice(), key);
        proof {
            assert(s[i as int].0 == list@[i as int].key@);
        }
        if c != KeyCmp::Less {
            proof {
                if s[i as int].0 != key@ {
                    lemma_lex_asym(key@, s[i as int].0);
                }
                crate::keys::lemma_lex_irrefl(s[i as int].0);
            }
            stop = true;
        } else {
            i = i + 1;
        }
    }
    proof {
        lemma_insert_at(s, key@, val@, i as int);
        lemma_insert_sorted(s, key@, val@, i as int);
    }
    let k = copy_bytes(key);
    if i < n {
        let c = key_cmp(list[i].key.as_slice(), key);
        if c == KeyCmp::Equal {
            list.remove(i);
            list.insert(i, Entry { key: k, val });
            proof {
                assert(entries_view(list@) =~= s.update(i as int, (key@, val@)));
            }
            return ;
        }
    }
    list.insert(i, Entry { key: k, val });
    proof {
        assert(entries_view(list@) =~= s.insert(i as int, (key@, val@)));
    }
}

/// Deletes `key` if present; succeeds and changes nothing if absent.
#[verifier::loop_isolation(false)]
pub fn remove_entry(list: &mut Vec<Entry>, key: &[u8])
    requires
        entries_sorted(entries_view(old(list)@)),
    ensures
        entries_view(final(list)@) == spec_remove(entries_view(old(list)@), key@),
        entries_sorted(entries_view(final(list)@)),
{
    let ghost s = entries_view(old(list)@);
    proof {
        lemma_remove_sorted(s, key@);
    }
    let n = list.len();
    let mut i: usize = 0;
    while i < n
        invariant
            list@ == old(list)@,
            s == entries_view(list@),
            n == list@.len(),
            s.len() == n,
            i <= n,
            forall|j: int| 0 <= j < i ==> s[j].0 != key@,
        decreases n - i,
    {
        let c = key_cmp(list[i].key.as_slice(), key);
        if c == KeyCmp::Equal {
            proof {
                assert(s[i as int].0 == list@[i as int].key@);
                lemma_remove_at(s, key@, i as int);
            }
            list.remove(i);
            proof {
                assert(entries_view(list@) =~= s.remove(i as int));
                assert(entries_view(list@) == spec_remove(s, key@));
            }
            return ;
        }
        proof {
            if c == KeyCmp::Less {
                lemma_lex_neq(list@[i as int].key@, key@);
            } else {
                lemma_lex_neq(key@, list@[i as int].key@);
            }
        }
        i = i + 1;
    }
    proof {
        lemma_remove_absent(s, key@);
        assert(entries_view(list@) =~= s);
    }
}

} // verus!
