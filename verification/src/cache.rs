//! The content-addressed package cache store.
//!
//! Entries are keyed by identity plus integrity, never by name and
//! version alone, so a tampered or corrupted entry is seen as a miss
//! rather than served. Each entry also carries the freshly recomputed
//! hash of its extracted content; an entry whose recorded integrity
//! disagrees with that hash is never a hit.

use vstd::prelude::*;
use crate::semver::PackageIdentity;
use crate::semver::spec_same_id;

verus! {

/// One extracted package in the store. `integrity` is the hash recorded
/// when the entry was created; `content_hash` is the hash of what is
/// actually on disk now.
#[derive(Debug)]
pub struct CacheEntry {
    pub id: PackageIdentity,
    pub extracted_path: String,
    pub integrity: String,
    pub content_hash: String,
}

impl Clone for CacheEntry {
    fn clone(&self) -> (r: Self)
        ensures
            spec_same_id(r.id, self.id),
            r.extracted_path@ == self.extracted_path@,
            r.integrity@ == self.integrity@,
            r.content_hash@ == self.content_hash@,
    {
        CacheEntry {
            id: self.id.clone(),
            extracted_path: self.extracted_path.clone(),
            integrity: self.integrity.clone(),
            content_hash: self.content_hash.clone(),
        }
    }
}

/// Whether the store holds a usable entry for `id` with hash
/// `integrity`: the recorded integrity must equal the requested one and
/// the recomputed content hash must agree with the record.
pub open spec fn spec_cache_hit(
    es: Seq<CacheEntry>,
    id: PackageIdentity,
    integrity: Seq<char>,
) -> bool {
    exists|i: int|
        0 <= i < es.len() && spec_same_id(es[i].id, id) && es[i].integrity@ == integrity
            && es[i].content_hash@ == es[i].integrity@
}

/// The package cache store: a model of the on-disk content-addressed
/// directory of extracted packages.
#[derive(Debug)]
pub struct PackageCacheStore {
    pub entries: Vec<CacheEntry>,
}

impl PackageCacheStore {
    /// An empty store.
    pub fn new_empty() -> (r: PackageCacheStore)
        ensures
            r.entries@.len() == 0,
    {
        PackageCacheStore { entries: Vec::new() }
    }

    /// Looks up `id` under hash `integrity`. A hit requires the
    /// requested integrity, the recorded integrity and the recomputed
    /// content hash to agree; anything else is a miss.
    pub fn get(&self, id: &PackageIdentity, integrity: &String) -> (r: Option<&CacheEntry>)
        ensures
            (r is Some) == spec_cache_hit(self.entries@, *id, integrity@),
            match r {
                Some(e) => spec_same_id(e.id, *id) && e.integrity@ == integrity@
                    && e.content_hash@ == e.integrity@,
                None => true,
            },
    {
        let mut i: usize = 0;
        while i < self.entries.len()
            invariant
                i <= self.entries@.len(),
                forall|j: int|
                    0 <= j < i ==> !(spec_same_id(self.entries@[j].id, *id)
                        && self.entries@[j].integrity@ == integrity@
                        && self.entries@[j].content_hash@ == self.entries@[j].integrity@),
            decreases self.entries@.len() - i,
        {
            let e = &self.entries[i];
            if e.id.same(id) && e.integrity == *integrity && e.content_hash == e.integrity {
                return Some(e);
            }
            i = i + 1;
        }
        None
    }

    /// Decides `spec_cache_hit`.
    pub fn has_hit(&self, id: &PackageIdentity, integrity: &String) -> (b: bool)
        ensures
            b == spec_cache_hit(self.entries@, *id, integrity@),
    {
        self.get(id, integrity).is_some()
    }

    /// Records a freshly extracted package. The new entry shadows any
    /// older entry for the same key (last writer wins); the rest of the
    /// store is untouched.
    pub fn put(&mut self, entry: CacheEntry)
        ensures
            final(self).entries@ == seq![entry] + old(self).entries@,
    {
        self.entries.insert(0, entry);
        proof {
            assert(self.entries@ =~= seq![self.entries@[0]] + old(self).entries@);
        }
    }
}

/// Integrity enforcement: when every stored entry for an identity has a
/// content hash that disagrees with its recorded integrity (the entry
/// was corrupted or tampered with after creation), a lookup under any
/// requested hash misses; such an entry is never served.
pub proof fn lemma_tampered_entry_is_miss(
    es: Seq<CacheEntry>,
    id: PackageIdentity,
    integrity: Seq<char>,
)
    requires
        forall|i: int|
            0 <= i < es.len() && spec_same_id(es[i].id, id) ==> es[i].content_hash@
                != es[i].integrity@,
    ensures
        !spec_cache_hit(es, id, integrity),
{
}

} // verus!
