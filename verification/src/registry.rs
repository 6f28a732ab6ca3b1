//! The environment registry: one shared environment per location,
//! created at most once, handed out by index on repeated lookups.

use vstd::prelude::*;

use crate::env::Environment;

verus! {

/// One registered location and the environment that owns its storage.
pub struct RegistryEntry {
    pub location: String,
    pub env: Environment,
}

/// A mapping from location to environment. Passed explicitly instead
/// of living in ambient global state; a process that wants the
/// singleton discipline keeps exactly one of these.
pub struct Registry {
    pub envs: Vec<RegistryEntry>,
}

impl Registry {
    /// Whether some environment is registered for the location.
    pub open spec fn has_location(&self, l: Seq<char>) -> bool {
        exists|j: int| 0 <= j < self.envs@.len() && (#[trigger] self.envs@[j].location@) == l
    }

    /// Locations are distinct — at most one environment per location —
    /// and every registered environment is well-formed.
    pub open spec fn wf(&self) -> bool {
        (forall|i: int, j: int|
            0 <= i < j < self.envs@.len() ==> self.envs@[i].location@ != self.envs@[j].location@)
            && (forall|i: int| 0 <= i < self.envs@.len() ==> (#[trigger] self.envs@[i].env).wf())
    }

    /// An empty registry.
    pub fn new() -> (r: Registry)
        ensures
            r.envs@.len() == 0,
            r.wf(),
    {
        Registry { envs: Vec::new() }
    }

    /// Returns the index of the environment for the location, creating
    /// it exactly when no environment is registered there: a lookup
    /// either finds the one existing instance unchanged or constructs
    /// the single new one, so the constructor runs at most once per
    /// location.
    #[verifier::loop_isolation(false)]
    pub fn get_or_create(&mut self, location: &str) -> (i: usize)
        requires
            old(self).wf(),
        ensures
            final(self).wf(),
            i < final(self).envs@.len(),
            final(self).envs@[i as int].location@ == location@,
            old(self).has_location(location@) ==> *final(self) == *old(self),
            !old(self).has_location(location@) ==> i == old(self).envs@.len() && final(self).envs@.len() == old(self).envs@.len() + 1 && final(self).envs@.take(i as int) == old(self).envs@ && final(self).envs@[i as int].env.model() == Seq::<
                (Seq<char>, Seq<(Seq<u8>, Seq<u8>)>),
            >::empty() && !final(self).envs@[i as int].env.writer_active,
    {
        let owned: String = location.to_owned();
        let n = self.envs.len();
        let mut j: usize = 0;
        while j < n
            invariant
                n == self.envs@.len(),
                j <= n,
                owned@ == location@,
                self.envs@ == old(self).envs@,
                self.envs == old(self).envs,
                forall|k: int| 0 <= k < j ==> self.envs@[k].location@ != location@,
            decreases n - j,
        {
            let entry = &self.envs[j];
            proof {
                assert(*entry == self.envs@[j as int]);
            }
            if entry.location.eq(&owned) {
                return j;
            }
            j = j + 1;
        }
        let fresh = Environment::new();
        self.envs.push(RegistryEntry { location: owned, env: fresh });
        proof {
            assert(self.envs@.take(n as int) =~= old(self).envs@);
            assert forall|p: int, q: int|
                0 <= p < q < self.envs@.len() implies self.envs@[p].location@
                != self.envs@[q].location@ by {
                if q == self.envs@.len() - 1 {
                    assert(self.envs@[p] == old(self).envs@[p]);
                }
            }
        }
        n
    }

    /// Shared access to the environment at an index the registry
    /// handed out.
    pub fn env(&self, i: usize) -> (r: &Environment)
        requires
            i < self.envs@.len(),
        ensures
            *r == self.envs@[i as int].env,
    {
        &self.envs[i].env
    }

    /// Exclusive access to the environment at an index the registry
    /// handed out. The rest of the registry is untouched, and the
    /// registry stays well-formed as long as the borrower leaves the
    /// environment well-formed.
    pub fn env_mut(&mut self, i: usize) -> (r: &mut Environment)
        requires
            old(self).wf(),
            i < old(self).envs@.len(),
        ensures
            *r == old(self).envs@[i as int].env,
            final(self).envs@.len() == old(self).envs@.len(),
            forall|j: int|
                0 <= j < old(self).envs@.len() && j != i ==> final(self).envs@[j] == old(self).envs@[j],
            final(self).envs@[i as int].location@ == old(self).envs@[i as int].location@,
            final(self).envs@[i as int].env == *final(r),
            (*final(r)).wf() ==> final(self).wf(),
    {
        &mut self.envs[i].env
    }
}

} // verus!
