//! Transactions: shared snapshot readers and the single exclusive
//! writer, with commit and abort.

use vstd::prelude::*;

use crate::env::stores_view;
use crate::env::stores_wf;
use crate::env::Environment;
use crate::env::StoreData;
use crate::value::StoreError;

verus! {

/// A transaction whose view can be read: a reader's fixed snapshot, or
/// a writer's committed-base-plus-own-writes view.
pub trait ReadTransaction {
    /// The named stores as this transaction sees them.
    spec fn model(&self) -> Seq<(Seq<char>, Seq<(Seq<u8>, Seq<u8>)>)>;

    /// Well-formedness of that view.
    spec fn wf(&self) -> bool;

    /// The stores backing the view.
    fn snapshot(&self) -> (r: &Vec<StoreData>)
        ensures
            stores_view(r@) == self.model(),
            self.wf() ==> stores_wf(stores_view(r@)),
    ;
}

/// A shared, snapshot-isolated read transaction. It owns a copy of the
/// committed state fixed at `begin_read` time: writers committing
/// afterwards cannot reach it.
pub struct Reader {
    pub stores: Vec<StoreData>,
}

impl ReadTransaction for Reader {
    open spec fn model(&self) -> Seq<(Seq<char>, Seq<(Seq<u8>, Seq<u8>)>)> {
        stores_view(self.stores@)
    }

    open spec fn wf(&self) -> bool {
        stores_wf(self.model())
    }

    fn snapshot(&self) -> (r: &Vec<StoreData>) {
        &self.stores
    }
}

impl Reader {
    /// Ends the read transaction. Dropping the reader has the same
    /// effect; closing is never required and never fails.
    pub fn close(self) {
    }
}

/// The exclusive mutating transaction. It owns the committed state
/// plus its own uncommitted writes; nothing becomes visible to others
/// before `commit`. Both terminal actions consume the writer, so no
/// operation can reach an ended transaction; until one of them frees
/// the slot, the environment keeps reporting `WriterBusy`.
pub struct Writer {
    pub stores: Vec<StoreData>,
}

impl ReadTransaction for Writer {
    open spec fn model(&self) -> Seq<(Seq<char>, Seq<(Seq<u8>, Seq<u8>)>)> {
        stores_view(self.stores@)
    }

    open spec fn wf(&self) -> bool {
        stores_wf(self.model())
    }

    fn snapshot(&self) -> (r: &Vec<StoreData>) {
        &self.stores
    }
}

impl Writer {
    /// Atomically publishes every buffered mutation as one unit and
    /// frees the writer slot. The writer is consumed: nothing can be
    /// done with it afterwards.
    pub fn commit(self, env: &mut Environment) -> (r: Result<(), StoreError>)
        requires
            old(env).wf(),
            self.wf(),
        ensures
            r == Ok::<(), StoreError>(()),
            final(env).model() == self.model(),
            final(env).wf(),
            !final(env).writer_active,
    {
        env.stores = self.stores;
        env.writer_active = false;
        Ok(())
    }

    /// Discards every buffered mutation and frees the writer slot: the
    /// committed state is left exactly as it was.
    pub fn abort(self, env: &mut Environment)
        requires
            old(env).wf(),
        ensures
            final(env).model() == old(env).model(),
            final(env).wf(),
            !final(env).writer_active,
    {
        env.writer_active = false;
    }
}

} // verus!
