//! The registry of watched root paths: the set of paths the supervisor
//! keeps OS watches on, replaced wholesale after every completed
//! dependency-graph resolution so that no stale entry survives.

use vstd::prelude::*;

verus! {

/// The active watch set.
#[derive(Debug)]
pub struct WatchedPathsRegistry {
    pub roots: Vec<String>,
}

impl WatchedPathsRegistry {
    /// An empty registry, as the supervisor starts with.
    pub fn new() -> (r: WatchedPathsRegistry)
        ensures
            r.roots@.len() == 0,
    {
        WatchedPathsRegistry { roots: Vec::new() }
    }

    /// Swaps in a freshly computed watch set, atomically from the
    /// caller's view: the old set is replaced wholesale, never patched
    /// entry by entry. Returns the previous set, so that the embedder
    /// can register the new OS watches before removing the old ones.
    pub fn replace(&mut self, new_roots: Vec<String>) -> (r: Vec<String>)
        ensures
            final(self).roots == new_roots,
            r == old(self).roots,
    {
        let mut incoming = new_roots;
        core::mem::swap(&mut incoming, &mut self.roots);
        incoming
    }

    /// A snapshot of the current watch set, for diagnostics.
    pub fn current(&self) -> (r: &Vec<String>)
        ensures
            r == &self.roots,
    {
        &self.roots
    }
}

} // verus!
