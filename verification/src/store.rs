//! Store operations: typed put/get/delete/clear and ordered iteration,
//! each parameterized by a transaction, plus the laws they obey.

use vstd::prelude::*;

use crate::codec::decode;
use crate::codec::encode;
use crate::codec::lemma_codec_round_trip;
use crate::codec::spec_decode;
use crate::codec::spec_encode;
use crate::entries::entries_sorted;
use crate::entries::entries_view;
use crate::entries::find_entry;
use crate::entries::insert_entry;
use crate::entries::lemma_insert_values;
use crate::entries::lemma_lookup_insert_same;
use crate::entries::lemma_lookup_remove_same;
use crate::entries::lemma_remove_values;
use crate::entries::lemma_suffix_is_filter;
use crate::entries::remove_entry;
use crate::entries::spec_insert;
use crate::entries::spec_lookup;
use crate::entries::spec_remove;
use crate::env::find_store;
use crate::env::find_store_index;
use crate::env::lemma_find_update;
use crate::env::lemma_update_at;
use crate::env::lemma_update_wf;
use crate::env::stores_view;
use crate::env::stores_wf;
use crate::env::update_store;
use crate::env::Store;
use crate::entries::Entry;
use crate::keys::copy_bytes;
use crate::keys::key_cmp;
use crate::keys::lex_lt;
use crate::keys::KeyCmp;
use crate::txn::ReadTransaction;
use crate::txn::Writer;
use crate::value::SpecValue;
use crate::value::StoreError;
use crate::value::Value;

verus! {

/// The pairs a cursor yields for an entry list: each stored byte
/// string decoded back to its value.
pub open spec fn decoded_entries(s: Seq<(Seq<u8>, Seq<u8>)>) -> Seq<(Seq<u8>, SpecValue)> {
    s.map_values(|e: (Seq<u8>, Seq<u8>)| (e.0, spec_decode(e.1).unwrap()))
}

/// A forward-only cursor over the entries visible to one transaction
/// at its creation, in ascending key order. Exhaustion is terminal.
pub struct Cursor {
    pub items: Vec<(Vec<u8>, Value)>,
}

impl View for Cursor {
    type V = Seq<(Seq<u8>, SpecValue)>;

    open spec fn view(&self) -> Seq<(Seq<u8>, SpecValue)> {
        self.items@.map_values(|p: (Vec<u8>, Value)| (p.0@, p.1@))
    }
}

impl Cursor {
    /// Yields the next entry, or nothing once the sequence is spent.
    pub fn next(&mut self) -> (r: Option<(Vec<u8>, Value)>)
        ensures
            old(self)@.len() == 0 ==> r is None && final(self)@ == old(self)@,
            old(self)@.len() > 0 ==> (r matches Some(p) && (p.0@, p.1@) == old(self)@[0] && final(self)@ == old(self)@.drop_first()),
    {
        if self.items.len() == 0 {
            None
        } else {
            let p = self.items.remove(0);
            proof {
                assert(self@ =~= old(self)@.drop_first());
            }
            Some(p)
        }
    }

    /// How many entries are still to come.
    pub fn remaining(&self) -> (r: usize)
        ensures
            r == self@.len(),
    {
        self.items.len()
    }
}

/// Decodes the suffix of an entry list into cursor items.
fn materialize(entries: &Vec<Entry>, from: usize) -> (r: Vec<(Vec<u8>, Value)>)
    requires
        from <= entries@.len(),
        forall|e: int|
            0 <= e < entries@.len() ==> spec_decode(#[trigger] entries_view(entries@)[e].1)
                is Some,
    ensures
        r@.map_values(|p: (Vec<u8>, Value)| (p.0@, p.1@)) == decoded_entries(
            entries_view(entries@).skip(from as int),
        ),
{
    let ghost s = entries_view(entries@);
    let n = entries.len();
    let mut out: Vec<(Vec<u8>, Value)> = Vec::new();
    let mut i: usize = from;
    while i < n
        invariant
            n == entries@.len(),
            s == entries_view(entries@),
            from <= i <= n,
            out@.len() == i - from,
            forall|e: int| 0 <= e < n ==> spec_decode(#[trigger] s[e].1) is Some,
            out@.map_values(|p: (Vec<u8>, Value)| (p.0@, p.1@)) == decoded_entries(
                s.subrange(from as int, i as int),
            ),
        decreases n - i,
    {
        let ghost out0 = out@;
        let k = copy_bytes(entries[i].key.as_slice());
        let dv = decode(entries[i].val.as_slice());
        let v = match dv {
            Ok(v) => v,
            Err(_) => Value::Boolean(false),
        };
        proof {
            assert(s[i as int] == entries@[i as int]@);
            assert(spec_decode(entries@[i as int].val@) is Some);
            assert(v@ == spec_decode(s[i as int].1).unwrap());
        }
        out.push((k, v));
        proof {
            let f = |p: (Vec<u8>, Value)| (p.0@, p.1@);
            assert forall|j: int|
                0 <= j < out@.len() implies out@.map_values(f)[j] == decoded_entries(
                s.subrange(from as int, i + 1),
            )[j] by {
                if j < i - from {
                    assert(out@[j] == out0[j]);
                    assert(out0.map_values(f)[j] == decoded_entries(
                        s.subrange(from as int, i as int),
                    )[j]);
                    assert(s.subrange(from as int, i as int)[j] == s[from + j]);
                    assert(s.subrange(from as int, i + 1)[j] == s[from + j]);
                } else {
                    assert(out@[j] == (k, v));
                    assert(s.subrange(from as int, i + 1)[j] == s[i as int]);
                }
            }
            assert(out@.map_values(f) =~= decoded_entries(s.subrange(from as int, i + 1)));
        }
        i = i + 1;
    }
    proof {
        assert(s.subrange(from as int, n as int) =~= s.skip(from as int));
    }
    out
}

impl Store {
    /// Inserts or overwrites the value stored under `key`, visible
    /// immediately inside this writer and to nobody else before commit.
    pub fn put(&self, txn: &mut Writer, key: &[u8], value: &Value) -> (r: Result<(), StoreError>)
        requires
            old(txn).wf(),
        ensures
            final(txn).wf(),
            find_store(old(txn).model(), self.name@) is None ==> r == Err::<(), StoreError>(
                StoreError::NotFound,
            ) && final(txn).model() == old(txn).model(),
            find_store(old(txn).model(), self.name@) matches Some(e) ==> r == Ok::<(), StoreError>(
                (),
            ) && final(txn).model() == update_store(
                old(txn).model(),
                self.name@,
                spec_insert(e, key@, spec_encode(value@)),
            ),
    {
        let found = find_store_index(&txn.stores, &self.name);
        match found {
            None => Err(StoreError::NotFound),
            Some(i) => {
                let ghost m = stores_view(txn.stores@);
                let ghost e = m[i as int].1;
                let bytes = encode(value);
                let ghost newe = spec_insert(e, key@, bytes@);
                let mut sd = txn.stores.remove(i);
                proof {
                    assert(entries_view(sd.entries@) == e);
                    assert(entries_sorted(e));
                }
                insert_entry(&mut sd.entries, key, bytes);
                txn.stores.insert(i, sd);
                proof {
                    lemma_update_at(m, self.name@, newe, i as int);
                    assert(stores_view(txn.stores@) =~= m.update(
                        i as int,
                        (self.name@, newe),
                    ));
                    lemma_codec_round_trip(value@);
                    lemma_insert_values(e, key@, bytes@, |b: Seq<u8>| spec_decode(b) is Some);
                    lemma_update_wf(m, self.name@, newe, i as int);
                }
                Ok(())
            },
        }
    }

    /// Returns the value stored under `key` as visible to the given
    /// transaction, or nothing where the key is absent.
    pub fn get<T: ReadTransaction>(&self, txn: &T, key: &[u8]) -> (r: Result<
        Option<Value>,
        StoreError,
    >)
        requires
            txn.wf(),
        ensures
            find_store(txn.model(), self.name@) is None <==> r == Err::<Option<Value>, StoreError>(
                StoreError::NotFound,
            ),
            find_store(txn.model(), self.name@) matches Some(e) && spec_lookup(e, key@) is None
                ==> r == Ok::<Option<Value>, StoreError>(None),
            find_store(txn.model(), self.name@) matches Some(e) ==> (spec_lookup(e, key@) matches Some(bytes)
                ==> (r matches Ok(ov) && ov matches Some(v) && Some(v@) == spec_decode(bytes))),
    {
        let snap = txn.snapshot();
        proof {
            assert(stores_view(snap@) == txn.model());
        }
        let found = find_store_index(snap, &self.name);
        match found {
            None => {
                proof {
                    assert(find_store(txn.model(), self.name@) is None);
                }
                Err(StoreError::NotFound)
            },
            Some(i) => {
                proof {
                    assert(stores_view(snap@)[i as int].1 == entries_view(
                        snap@[i as int].entries@,
                    ));
                }
                let fe = find_entry(&snap[i].entries, key);
                match fe {
                    None => Ok(None),
                    Some(ei) => {
                        proof {
                            assert(stores_view(snap@)[i as int].1 == entries_view(
                                snap@[i as int].entries@,
                            ));
                            assert(spec_decode(
                                entries_view(snap@[i as int].entries@)[ei as int].1,
                            ) is Some);
                        }
                        proof {
                            assert(entries_view(snap@[i as int].entries@)[ei as int].1
                                == snap@[i as int].entries@[ei as int].val@);
                        }
                        let sd = &snap[i];
                        proof {
                            assert(*sd == snap@[i as int]);
                        }
                        let en = &sd.entries[ei];
                        proof {
                            assert(*en == snap@[i as int].entries@[ei as int]);
                        }
                        let dv = decode(en.val.as_slice());
                        match dv {
                            Ok(v) => {
                                proof {
                                    assert(spec_lookup(
                                        entries_view(snap@[i as int].entries@),
                                        key@,
                                    ) == Some(entries_view(snap@[i as int].entries@)[ei as int].1));
                                    assert(spec_decode(
                                        entries_view(snap@[i as int].entries@)[ei as int].1,
                                    ) == Some(v@));
                                }
                                Ok(Some(v))
                            },
                            Err(_) => {
                                proof {
                                    assert(false);
                                }
                                Err(StoreError::NotFound)
                            },
                        }
                    },
                }
            },
        }
    }

    /// Removes `key` from this writer's view. Deleting an absent key
    /// succeeds and leaves the store unchanged.
    pub fn delete(&self, txn: &mut Writer, key: &[u8]) -> (r: Result<(), StoreError>)
        requires
            old(txn).wf(),
        ensures
            final(txn).wf(),
            find_store(old(txn).model(), self.name@) is None ==> r == Err::<(), StoreError>(
                StoreError::NotFound,
            ) && final(txn).model() == old(txn).model(),
            find_store(old(txn).model(), self.name@) matches Some(e) ==> r == Ok::<(), StoreError>(
                (),
            ) && final(txn).model() == update_store(
                old(txn).model(),
                self.name@,
                spec_remove(e, key@),
            ),
    {
        let found = find_store_index(&txn.stores, &self.name);
        match found {
            None => Err(StoreError::NotFound),
            Some(i) => {
                let ghost m = stores_view(txn.stores@);
                let ghost e = m[i as int].1;
                let ghost newe = spec_remove(e, key@);
                let mut sd = txn.stores.remove(i);
                proof {
                    assert(entries_view(sd.entries@) == e);
                    assert(entries_sorted(e));
                }
                remove_entry(&mut sd.entries, key);
                txn.stores.insert(i, sd);
                proof {
                    lemma_update_at(m, self.name@, newe, i as int);
                    assert(stores_view(txn.stores@) =~= m.update(
                        i as int,
                        (self.name@, newe),
                    ));
                    lemma_remove_values(e, key@, |b: Seq<u8>| spec_decode(b) is Some);
                    lemma_update_wf(m, self.name@, newe, i as int);
                }
                Ok(())
            },
        }
    }

    /// Removes every entry of this store from the writer's view.
    pub fn clear(&self, txn: &mut Writer) -> (r: Result<(), StoreError>)
        requires
            old(txn).wf(),
        ensures
            final(txn).wf(),
            find_store(old(txn).model(), self.name@) is None ==> r == Err::<(), StoreError>(
                StoreError::NotFound,
            ) && final(txn).model() == old(txn).model(),
            find_store(old(txn).model(), self.name@) is Some ==> r == Ok::<(), StoreError>(())
                && final(txn).model() == update_store(
                old(txn).model(),
                self.name@,
                Seq::<(Seq<u8>, Seq<u8>)>::empty(),
            ),
    {
        let found = find_store_index(&txn.stores, &self.name);
        match found {
            None => Err(StoreError::NotFound),
            Some(i) => {
                let ghost m = stores_view(txn.stores@);
                let ghost newe = Seq::<(Seq<u8>, Seq<u8>)>::empty();
                let mut sd = txn.stores.remove(i);
                sd.entries = Vec::new();
                txn.stores.insert(i, sd);
                proof {
                    assert(entries_view(Seq::<Entry>::empty()) =~= newe);
                    lemma_update_at(m, self.name@, newe, i as int);
                    assert(stores_view(txn.stores@) =~= m.update(
                        i as int,
                        (self.name@, newe),
                    ));
                    lemma_update_wf(m, self.name@, newe, i as int);
                }
                Ok(())
            },
        }
    }

    /// A cursor positioned before the first key, in ascending order.
    pub fn iter_start<T: ReadTransaction>(&self, txn: &T) -> (r: Result<Cursor, StoreError>)
        requires
            txn.wf(),
        ensures
            find_store(txn.model(), self.name@) is None <==> r == Err::<Cursor, StoreError>(
                StoreError::NotFound,
            ),
            find_store(txn.model(), self.name@) matches Some(e) ==> (r matches Ok(c) && c@
                == decoded_entries(e)),
    {
        let snap = txn.snapshot();
        let found = find_store_index(snap, &self.name);
        match found {
            None => Err(StoreError::NotFound),
            Some(i) => {
                proof {
                    assert(stores_view(snap@)[i as int].1 == entries_view(
                        snap@[i as int].entries@,
                    ));
                }
                let items = materialize(&snap[i].entries, 0);
                proof {
                    assert(entries_view(snap@[i as int].entries@).skip(0) =~= entries_view(
                        snap@[i as int].entries@,
                    ));
                }
                Ok(Cursor { items })
            },
        }
    }

    /// A cursor positioned at the first key at or above `key`: the
    /// same sequence `iter_start` yields, filtered to keys not below
    /// `key`. Where no such key exists the cursor starts exhausted.
    pub fn iter_from<T: ReadTransaction>(&self, txn: &T, key: &[u8]) -> (r: Result<
        Cursor,
        StoreError,
    >)
        requires
            txn.wf(),
        ensures
            find_store(txn.model(), self.name@) is None <==> r == Err::<Cursor, StoreError>(
                StoreError::NotFound,
            ),
            find_store(txn.model(), self.name@) matches Some(e) ==> (r matches Ok(c) && c@
                == decoded_entries(e.filter(|p: (Seq<u8>, Seq<u8>)| !lex_lt(p.0, key@)))),
    {
        let snap = txn.snapshot();
        let found = find_store_index(snap, &self.name);
        match found {
            None => Err(StoreError::NotFound),
            Some(si) => {
                proof {
                    assert(stores_view(snap@)[si as int].1 == entries_view(
                        snap@[si as int].entries@,
                    ));
                }
                let entries = &snap[si].entries;
                let ghost s = entries_view(entries@);
                let n = entries.len();
                let mut i: usize = 0;
                let mut stop = false;
                while !stop && i < n
                    invariant
                        n == entries@.len(),
                        s == entries_view(entries@),
                        s.len() == n,
                        i <= n,
                        forall|j: int| 0 <= j < i ==> lex_lt(s[j].0, key@),
                        stop ==> i < n && !lex_lt(s[i as int].0, key@),
                    decreases n - i, (if stop {
                        0int
                    } else {
                        1int
                    }),
                {
                    let c = key_cmp(entries[i].key.as_slice(), key);
                    proof {
                        assert(s[i as int].0 == entries@[i as int].key@);
                    }
                    if c != KeyCmp::Less {
                        proof {
                            if s[i as int].0 != key@ {
                                crate::keys::lemma_lex_asym(key@, s[i as int].0);
                            }
                            crate::keys::lemma_lex_irrefl(s[i as int].0);
                        }
                        stop = true;
                    } else {
                        i = i + 1;
                    }
                }
                proof {
                    assert(entries_sorted(s));
                    assert forall|j: int| i <= j < s.len() implies !lex_lt(s[j].0, key@) by {
                        if j > i && lex_lt(s[j].0, key@) {
                            assert(lex_lt(s[i as int].0, s[j].0));
                            crate::keys::lemma_lex_trans(s[i as int].0, s[j].0, key@);
                        }
                    }
                    lemma_suffix_is_filter(s, key@, i as int);
                }
                let items = materialize(entries, i);
                Ok(Cursor { items })
            },
        }
    }
}

/// Read-your-writes, proved end to end: inside one writer's view, a
/// store into a present store makes the stored key look up to exactly
/// the value stored, decoded back unchanged.
pub proof fn lemma_read_your_writes(
    m: Seq<(Seq<char>, Seq<(Seq<u8>, Seq<u8>)>)>,
    name: Seq<char>,
    k: Seq<u8>,
    v: SpecValue,
)
    requires
        find_store(m, name) is Some,
    ensures
        ({
            let e2 = spec_insert(find_store(m, name).unwrap(), k, spec_encode(v));
            let m2 = update_store(m, name, e2);
            find_store(m2, name) == Some(e2) && spec_lookup(e2, k) == Some(spec_encode(v))
                && spec_decode(spec_encode(v)) == Some(v)
        }),
{
    let e = find_store(m, name).unwrap();
    let e2 = spec_insert(e, k, spec_encode(v));
    lemma_find_update(m, name, e2, name);
    lemma_lookup_insert_same(e, k, spec_encode(v));
    lemma_codec_round_trip(v);
}

/// The delete half of read-your-writes: after a delete in the writer's
/// view, the deleted key looks up to nothing.
pub proof fn lemma_read_your_deletes(
    m: Seq<(Seq<char>, Seq<(Seq<u8>, Seq<u8>)>)>,
    name: Seq<char>,
    k: Seq<u8>,
)
    requires
        stores_wf(m),
        find_store(m, name) is Some,
    ensures
        ({
            let e2 = spec_remove(find_store(m, name).unwrap(), k);
            let m2 = update_store(m, name, e2);
            find_store(m2, name) == Some(e2) && spec_lookup(e2, k) is None
        }),
{
    let e = find_store(m, name).unwrap();
    let e2 = spec_remove(e, k);
    lemma_find_update(m, name, e2, name);
    lemma_lookup_some_sorted(m, name);
    lemma_lookup_remove_same(e, k);
}

proof fn lemma_lookup_some_sorted(m: Seq<(Seq<char>, Seq<(Seq<u8>, Seq<u8>)>)>, name: Seq<char>)
    requires
        stores_wf(m),
        find_store(m, name) is Some,
    ensures
        entries_sorted(find_store(m, name).unwrap()),
    decreases m.len(),
{
    if m.len() > 0 {
        if m[0].0 != name {
            assert(forall|j: int|
                0 <= j < m.drop_first().len() ==> m.drop_first()[j] == m[j + 1]);
            lemma_lookup_some_sorted(m.drop_first(), name);
        }
    }
}

/// After a clear of a present store, that store's entries are empty
/// and a cursor over them yields zero entries.
pub proof fn lemma_clear_yields_nothing(
    m: Seq<(Seq<char>, Seq<(Seq<u8>, Seq<u8>)>)>,
    name: Seq<char>,
)
    requires
        find_store(m, name) is Some,
    ensures
        find_store(update_store(m, name, Seq::<(Seq<u8>, Seq<u8>)>::empty()), name) == Some(
            Seq::<(Seq<u8>, Seq<u8>)>::empty(),
        ),
        decoded_entries(Seq::<(Seq<u8>, Seq<u8>)>::empty()).len() == 0,
{
    lemma_find_update(m, name, Seq::<(Seq<u8>, Seq<u8>)>::empty(), name);
}

/// A cursor yields keys in strictly ascending byte order.
pub proof fn lemma_cursor_ascending(s: Seq<(Seq<u8>, Seq<u8>)>)
    requires
        entries_sorted(s),
    ensures
        forall|i: int, j: int|
            0 <= i < j < decoded_entries(s).len() ==> lex_lt(
                #[trigger] decoded_entries(s)[i].0,
                #[trigger] decoded_entries(s)[j].0,
            ),
{
    assert(forall|i: int|
        0 <= i < s.len() ==> #[trigger] decoded_entries(s)[i].0 == s[i].0);
}

} // verus!
