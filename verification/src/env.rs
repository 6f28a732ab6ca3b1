//! The environment: owner of one location's named stores and of the
//! writer-exclusion slot.

use vstd::prelude::*;

use crate::codec::spec_decode;
use crate::entries::entries_sorted;
use crate::entries::entries_view;
use crate::entries::Entry;
use crate::keys::copy_bytes;
use crate::txn::ReadTransaction;
use crate::txn::Reader;
use crate::txn::Writer;
use crate::value::StoreError;

verus! {

/// One named store: its name and its ordered entries.
pub struct StoreData {
    pub name: String,
    pub entries: Vec<Entry>,
}

impl View for StoreData {
    type V = (Seq<char>, Seq<(Seq<u8>, Seq<u8>)>);

    open spec fn view(&self) -> (Seq<char>, Seq<(Seq<u8>, Seq<u8>)>) {
        (self.name@, entries_view(self.entries@))
    }
}

/// The model of a set of named stores: name/entry-list pairs in the
/// order the stores were created.
pub open spec fn stores_view(s: Seq<StoreData>) -> Seq<
    (Seq<char>, Seq<(Seq<u8>, Seq<u8>)>),
> {
    s.map_values(|sd: StoreData| sd@)
}

/// The entries of the named store, if such a store exists.
pub open spec fn find_store(
    m: Seq<(Seq<char>, Seq<(Seq<u8>, Seq<u8>)>)>,
    name: Seq<char>,
) -> Option<Seq<(Seq<u8>, Seq<u8>)>>
    decreases m.len(),
{
    if m.len() == 0 {
        None
    } else if m[0].0 == name {
        Some(m[0].1)
    } else {
        find_store(m.drop_first(), name)
    }
}

/// The model with the named store's entries replaced; unchanged where
/// no store has the name.
pub open spec fn update_store(
    m: Seq<(Seq<char>, Seq<(Seq<u8>, Seq<u8>)>)>,
    name: Seq<char>,
    e: Seq<(Seq<u8>, Seq<u8>)>,
) -> Seq<(Seq<char>, Seq<(Seq<u8>, Seq<u8>)>)>
    decreases m.len(),
{
    if m.len() == 0 {
        m
    } else if m[0].0 == name {
        seq![(name, e)] + m.drop_first()
    } else {
        seq![m[0]] + update_store(m.drop_first(), name, e)
    }
}

/// Well-formed stores: names are distinct, every store's entries are in
/// strictly ascending key order, and every stored byte string is a
/// valid encoding.
pub open spec fn stores_wf(m: Seq<(Seq<char>, Seq<(Seq<u8>, Seq<u8>)>)>) -> bool {
    (forall|i: int, j: int| 0 <= i < j < m.len() ==> m[i].0 != m[j].0) && (forall|i: int|
        0 <= i < m.len() ==> entries_sorted(m[i].1)) && (forall|i: int, e: int|
        0 <= i < m.len() && 0 <= e < m[i].1.len() ==> spec_decode(m[i].1[e].1) is Some)
}

/// A store absent by every name comparison is absent for `find_store`.
pub proof fn lemma_find_absent(m: Seq<(Seq<char>, Seq<(Seq<u8>, Seq<u8>)>)>, name: Seq<char>)
    requires
        forall|i: int| 0 <= i < m.len() ==> m[i].0 != name,
    ensures
        find_store(m, name) is None,
    decreases m.len(),
{
    if m.len() > 0 {
        lemma_find_absent(m.drop_first(), name);
    }
}

/// When `find_store` finds nothing, no store has the name.
pub proof fn lemma_find_none_absent(m: Seq<(Seq<char>, Seq<(Seq<u8>, Seq<u8>)>)>, name: Seq<char>)
    requires
        find_store(m, name) is None,
    ensures
        forall|i: int| 0 <= i < m.len() ==> m[i].0 != name,
    decreases m.len(),
{
    if m.len() > 0 {
        lemma_find_none_absent(m.drop_first(), name);
        assert(forall|i: int| 1 <= i < m.len() ==> m[i] == m.drop_first()[i - 1]);
    }
}

/// `find_store` returns the entries at the first name match.
pub proof fn lemma_find_index(m: Seq<(Seq<char>, Seq<(Seq<u8>, Seq<u8>)>)>, name: Seq<char>, i: int)
    requires
        0 <= i < m.len(),
        m[i].0 == name,
        forall|j: int| 0 <= j < i ==> m[j].0 != name,
    ensures
        find_store(m, name) == Some(m[i].1),
    decreases m.len(),
{
    if i > 0 {
        lemma_find_index(m.drop_first(), name, i - 1);
        assert(forall|j: int| 0 <= j < m.drop_first().len() ==> m.drop_first()[j] == m[j + 1]);
    }
}

/// Where the scan found the name, `update_store` is an update in place.
pub proof fn lemma_update_at(
    m: Seq<(Seq<char>, Seq<(Seq<u8>, Seq<u8>)>)>,
    name: Seq<char>,
    e: Seq<(Seq<u8>, Seq<u8>)>,
    i: int,
)
    requires
        0 <= i < m.len(),
        m[i].0 == name,
        forall|j: int| 0 <= j < i ==> m[j].0 != name,
    ensures
        update_store(m, name, e) == m.update(i, (name, e)),
    decreases m.len(),
{
    if i == 0 {
        assert(seq![(name, e)] + m.drop_first() =~= m.update(0, (name, e)));
    } else {
        let t = m.drop_first();
        assert(forall|j: int| 0 <= j < t.len() ==> t[j] == m[j + 1]);
        lemma_update_at(t, name, e, i - 1);
        assert(seq![m[0]] + t.update(i - 1, (name, e)) =~= m.update(i, (name, e)));
    }
}

/// Replacing one store's entries resolves every lookup: the named
/// store's entries become the new ones, every other name is untouched.
pub proof fn lemma_find_update(
    m: Seq<(Seq<char>, Seq<(Seq<u8>, Seq<u8>)>)>,
    name: Seq<char>,
    e: Seq<(Seq<u8>, Seq<u8>)>,
    n2: Seq<char>,
)
    ensures
        find_store(update_store(m, name, e), n2) == if n2 == name && find_store(m, name) is Some {
            Some(e)
        } else {
            find_store(m, n2)
        },
    decreases m.len(),
{
    if m.len() > 0 {
        let t = m.drop_first();
        if m[0].0 == name {
            let u = seq![(name, e)] + t;
            assert(u[0] == (name, e));
            assert(u.drop_first() =~= t);
            if n2 != name {
                assert(find_store(u, n2) == find_store(t, n2));
            }
        } else {
            let u = seq![m[0]] + update_store(t, name, e);
            assert(u[0] == m[0]);
            assert(u.drop_first() =~= update_store(t, name, e));
            lemma_find_update(t, name, e, n2);
        }
    }
}

/// Replacing one store's entries with well-formed entries keeps the
/// whole model well-formed.
pub proof fn lemma_update_wf(
    m: Seq<(Seq<char>, Seq<(Seq<u8>, Seq<u8>)>)>,
    name: Seq<char>,
    e: Seq<(Seq<u8>, Seq<u8>)>,
    i: int,
)
    requires
        stores_wf(m),
        entries_sorted(e),
        forall|x: int| 0 <= x < e.len() ==> spec_decode(e[x].1) is Some,
        0 <= i < m.len(),
        m[i].0 == name,
        forall|j: int| 0 <= j < i ==> m[j].0 != name,
    ensures
        stores_wf(update_store(m, name, e)),
{
    lemma_update_at(m, name, e, i);
    let u = m.update(i, (name, e));
    assert(forall|p: int| 0 <= p < u.len() ==> u[p].0 == m[p].0);
    assert(forall|p: int| 0 <= p < u.len() && p != i ==> u[p] == m[p]);
    assert(u[i].1 == e);
}

/// Looks up a store by name, returning the index of the first match.
pub fn find_store_index(list: &Vec<StoreData>, name: &String) -> (r: Option<usize>)
    ensures
        r matches Some(i) ==> i < list@.len() && stores_view(list@)[i as int].0 == name@ && (
        forall|j: int| 0 <= j < i ==> stores_view(list@)[j].0 != name@) && find_store(
            stores_view(list@),
            name@,
        ) == Some(stores_view(list@)[i as int].1),
        r is None ==> find_store(stores_view(list@), name@) is None,
{
    let ghost m = stores_view(list@);
    let n = list.len();
    let mut i: usize = 0;
    while i < n
        invariant
            m == stores_view(list@),
            n == list@.len(),
            m.len() == n,
            i <= n,
            forall|j: int| 0 <= j < i ==> m[j].0 != name@,
        decreases n - i,
    {
        if list[i].name.eq(name) {
            proof {
                assert(m[i as int].0 == list@[i as int].name@);
                lemma_find_index(m, name@, i as int);
            }
            return Some(i);
        }
        proof {
            assert(m[i as int].0 == list@[i as int].name@);
        }
        i = i + 1;
    }
    proof {
        lemma_find_absent(m, name@);
    }
    None
}

/// Copies an entry list, entry by entry.
pub fn copy_entries(list: &Vec<Entry>) -> (r: Vec<Entry>)
    ensures
        entries_view(r@) == entries_view(list@),
{
    let n = list.len();
    let mut out: Vec<Entry> = Vec::new();
    let mut i: usize = 0;
    while i < n
        invariant
            n == list@.len(),
            i <= n,
            out@.len() == i,
            entries_view(out@) == entries_view(list@).take(i as int),
        decreases n - i,
    {
        let ghost out0 = out@;
        let k = copy_bytes(list[i].key.as_slice());
        let v = copy_bytes(list[i].val.as_slice());
        out.push(Entry { key: k, val: v });
        proof {
            assert(out@[i as int]@ == list@[i as int]@);
            assert forall|j: int|
                0 <= j < i + 1 implies entries_view(out@)[j] == entries_view(list@).take(i + 1)[j]
            by {
                if j < i {
                    assert(out@[j] == out0[j]);
                    assert(entries_view(out0)[j] == entries_view(list@).take(i as int)[j]);
                }
            }
            assert(entries_view(out@) =~= entries_view(list@).take(i + 1));
        }
        i = i + 1;
    }
    assert(entries_view(out@) =~~= entries_view(list@));
    out
}

/// Copies a whole set of stores: the snapshot a transaction owns.
pub fn copy_stores(list: &Vec<StoreData>) -> (r: Vec<StoreData>)
    ensures
        stores_view(r@) == stores_view(list@),
{
    let n = list.len();
    let mut out: Vec<StoreData> = Vec::new();
    let mut i: usize = 0;
    while i < n
        invariant
            n == list@.len(),
            i <= n,
            out@.len() == i,
            stores_view(out@) == stores_view(list@).take(i as int),
        decreases n - i,
    {
        let ghost out0 = out@;
        let name = list[i].name.clone();
        let entries = copy_entries(&list[i].entries);
        out.push(StoreData { name, entries });
        proof {
            assert(out@[i as int]@ == list@[i as int]@);
            assert forall|j: int|
                0 <= j < i + 1 implies stores_view(out@)[j] == stores_view(list@).take(i + 1)[j]
            by {
                if j < i {
                    assert(out@[j] == out0[j]);
                    assert(stores_view(out0)[j] == stores_view(list@).take(i as int)[j]);
                }
            }
            assert(stores_view(out@) =~= stores_view(list@).take(i + 1));
        }
        i = i + 1;
    }
    assert(stores_view(out@) =~~= stores_view(list@));
    out
}

/// Options governing `open_store`.
#[derive(Debug, PartialEq, Eq, Structural, Clone, Copy)]
pub struct StoreOptions {
    pub create_if_missing: bool,
}

impl StoreOptions {
    /// Options that create the store when it is missing.
    pub fn create() -> (r: StoreOptions)
        ensures
            r.create_if_missing,
    {
        StoreOptions { create_if_missing: true }
    }

    /// Options that require the store to exist already.
    pub fn existing() -> (r: StoreOptions)
        ensures
            !r.create_if_missing,
    {
        StoreOptions { create_if_missing: false }
    }
}

/// A handle to a named store. It names a keyspace; the data lives in
/// the environment and in the transactions' snapshots.
pub struct Store {
    pub name: String,
}

/// One location's storage: its named stores and the single writer slot.
pub struct Environment {
    pub stores: Vec<StoreData>,
    pub writer_active: bool,
}

impl Environment {
    /// The model: the committed stores, by name, in creation order.
    pub open spec fn model(&self) -> Seq<(Seq<char>, Seq<(Seq<u8>, Seq<u8>)>)> {
        stores_view(self.stores@)
    }

    pub open spec fn wf(&self) -> bool {
        stores_wf(self.model())
    }

    /// A fresh environment: no stores, writer slot free.
    pub fn new() -> (e: Environment)
        ensures
            e.model() == Seq::<(Seq<char>, Seq<(Seq<u8>, Seq<u8>)>)>::empty(),
            e.wf(),
            !e.writer_active,
    {
        let e = Environment { stores: Vec::new(), writer_active: false };
        proof {
            assert(e.model() =~= Seq::<(Seq<char>, Seq<(Seq<u8>, Seq<u8>)>)>::empty());
        }
        e
    }

    /// Opens the named store. An existing store is returned as an
    /// equivalent handle, never duplicated; a missing one is created
    /// exactly when the options ask for it, and is otherwise refused.
    pub fn open_store(&mut self, name: &str, options: StoreOptions) -> (r: Result<
        Store,
        StoreError,
    >)
        requires
            old(self).wf(),
        ensures
            final(self).wf(),
            final(self).writer_active == old(self).writer_active,
            r matches Ok(st) ==> st.name@ == name@,
            find_store(old(self).model(), name@) is Some ==> final(self).model() == old(self).model() && r is Ok,
            find_store(old(self).model(), name@) is None && options.create_if_missing ==> final(self).model() == old(self).model().push(
                (name@, Seq::<(Seq<u8>, Seq<u8>)>::empty()),
            ) && r is Ok,
            find_store(old(self).model(), name@) is None && !options.create_if_missing ==> final(self).model() == old(self).model() && r == Err::<Store, StoreError>(StoreError::NotFound),
            find_store(final(self).model(), name@) is Some <==> r is Ok,
    {
        let owned: String = name.to_owned();
        let found = find_store_index(&self.stores, &owned);
        match found {
            Some(_) => Ok(Store { name: owned }),
            None => {
                if options.create_if_missing {
                    proof {
                        lemma_find_none_absent(self.model(), name@);
                    }
                    let ghost m = self.model();
                    self.stores.push(StoreData { name: owned.clone(), entries: Vec::new() });
                    proof {
                        assert(self.model() =~~= m.push(
                            (name@, Seq::<(Seq<u8>, Seq<u8>)>::empty()),
                        ));
                        assert forall|i: int, j: int|
                            0 <= i < j < self.model().len() implies self.model()[i].0
                            != self.model()[j].0 by {
                            if j + 1 == self.model().len() {
                                assert(self.model()[i].0 == m[i].0);
                            }
                        }
                        assert(stores_wf(self.model()));
                        lemma_find_index(self.model(), name@, self.model().len() - 1);
                    }
                    Ok(Store { name: owned })
                } else {
                    Err(StoreError::NotFound)
                }
            },
        }
    }

    /// Begins a snapshot read. Never blocks and never fails: the
    /// reader owns a fixed copy of the committed state, which no later
    /// commit can touch.
    pub fn begin_read(&self) -> (r: Reader)
        requires
            self.wf(),
        ensures
            r.model() == self.model(),
            r.wf(),
    {
        Reader { stores: copy_stores(&self.stores) }
    }

    /// Claims the single writer slot without blocking. While another
    /// writer is active this reports `WriterBusy` and changes nothing;
    /// otherwise the slot is taken and the writer starts from the
    /// committed state.
    pub fn begin_write(&mut self) -> (r: Result<Writer, StoreError>)
        requires
            old(self).wf(),
        ensures
            final(self).wf(),
            final(self).model() == old(self).model(),
            r is Err <==> old(self).writer_active,
            r matches Err(e) ==> e == StoreError::WriterBusy && final(self).writer_active == old(self).writer_active,
            r matches Ok(w) ==> w.model() == old(self).model() && w.wf() && final(self).writer_active,
    {
        if self.writer_active {
            Err(StoreError::WriterBusy)
        } else {
            self.writer_active = true;
            Ok(Writer { stores: copy_stores(&self.stores) })
        }
    }
}

} // verus!
