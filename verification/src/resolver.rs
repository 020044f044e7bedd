//! The lockfile resolver: reconciles requested specifiers, the
//! persisted snapshot, the package cache and registry metadata into one
//! consistent dependency snapshot.
//!
//! Resolution never silently falls back to a possibly-wrong dependency
//! set: a corrupt lockfile, a cache miss under cached-only mode, an
//! unsatisfiable requirement and an integrity mismatch each abort with
//! an error naming the offending specifier or package.

use vstd::prelude::*;
use crate::semver::PackageIdentity;
use crate::semver::spec_identity_text;
use crate::semver::spec_same_id;
use crate::lockfile::LockfileSnapshot;
use crate::lockfile::PackageSnapshotEntry;
use crate::lockfile::spec_has_entry;
use crate::lockfile::spec_find_specifier;
use crate::lockfile::spec_snapshot_consistent;
use crate::cache::PackageCacheStore;
use crate::cache::spec_cache_hit;
use crate::cache::CacheEntry;
use crate::specifier::spec_strip_npm;
use crate::specifier::strip_npm_text;
use crate::specifier::parse_specifier;
use crate::specifier::spec_parse_specifier;
use crate::registry::RegistryData;
use crate::registry::RegistryDependency;
use crate::registry::DepKind;
use crate::registry::os_admits;
use crate::registry::spec_registry_select;
use crate::registry::spec_find_package;
use crate::lockfile::spec_entry_like;
use crate::semver::Version;
use crate::semver::VersionReq;
use crate::semver::spec_req_text;

verus! {

/// Why a resolution pass failed. Every variant names the offending
/// specifier or package, so that the user is never shown a blind
/// "resolution failed".
#[derive(Debug)]
pub enum ResolveError {
    /// A downloaded package's content hash disagreed with the recorded
    /// integrity. Always fatal, never retried silently.
    IntegrityMismatch { id_text: String },
    /// No registry package or version satisfies a requested specifier
    /// or dependency requirement.
    NotFoundInRegistry { text: String },
    /// Under cached-only mode, a needed mapping or package had no
    /// usable cache entry.
    NotFoundInCache { text: String },
    /// The lockfile references an identity it has no entry for.
    CorruptLockfile { id_text: String },
}

impl ResolveError {
    /// The user-facing message; it names the offending item.
    pub fn message(&self) -> (r: String)
        ensures
            match self {
                ResolveError::IntegrityMismatch { id_text } => r@
                    == "Integrity check failed for npm package: \""@ + id_text@ + "\""@,
                ResolveError::NotFoundInRegistry { text } => r@
                    == "Could not find npm package matching \""@ + text@ + "\""@,
                ResolveError::NotFoundInCache { text } => r@
                    == "An npm specifier not found in cache: \""@ + text@
                    + "\", --cached-only is specified."@,
                ResolveError::CorruptLockfile { id_text } => r@ == "Could not find \""@ + id_text@
                    + "\" specified in the lockfile; the lockfile is corrupt"@,
            },
    {
        let mut s = String::new();
        match self {
            ResolveError::IntegrityMismatch { id_text } => {
                s.append("Integrity check failed for npm package: \"");
                s.append(id_text.as_str());
                s.append("\"");
            },
            ResolveError::NotFoundInRegistry { text } => {
                s.append("Could not find npm package matching \"");
                s.append(text.as_str());
                s.append("\"");
            },
            ResolveError::NotFoundInCache { text } => {
                s.append("An npm specifier not found in cache: \"");
                s.append(text.as_str());
                s.append("\", --cached-only is specified.");
            },
            ResolveError::CorruptLockfile { id_text } => {
                s.append("Could not find \"");
                s.append(id_text.as_str());
                s.append("\" specified in the lockfile; the lockfile is corrupt");
            },
        }
        s
    }

    /// The process exit code for this failure: lockfile corruption and
    /// integrity mismatches are distinguished from generic errors.
    pub fn exit_code(&self) -> (r: i32)
        ensures
            r == spec_exit_code(*self),
    {
        match self {
            ResolveError::IntegrityMismatch { .. } => 10,
            ResolveError::CorruptLockfile { .. } => 10,
            ResolveError::NotFoundInRegistry { .. } => 1,
            ResolveError::NotFoundInCache { .. } => 1,
        }
    }
}

/// Exit codes: 10 for lockfile-integrity and corruption failures, 1
/// for other resolution failures (0 is success and never an error's
/// code).
pub open spec fn spec_exit_code(e: ResolveError) -> i32 {
    match e {
        ResolveError::IntegrityMismatch { .. } => 10,
        ResolveError::CorruptLockfile { .. } => 10,
        ResolveError::NotFoundInRegistry { .. } => 1,
        ResolveError::NotFoundInCache { .. } => 1,
    }
}

/// How a resolution pass may use the network and the existing
/// snapshot.
#[derive(Clone, Copy, PartialEq, Eq, Structural, Debug)]
pub enum ResolveMode {
    /// Use the snapshot and the cache; go to the registry for what is
    /// missing.
    Default,
    /// Never consult the registry: every needed package must be in the
    /// snapshot and the cache.
    CachedOnly,
    /// Ignore recorded mappings and entries; resolve everything fresh
    /// from the registry.
    Reload,
}

/// How many entries of a mark vector are set.
pub open spec fn spec_count_true(s: Seq<bool>) -> nat
    decreases s.len(),
{
    if s.len() == 0 {
        0
    } else {
        spec_count_true(s.drop_last()) + if s.last() {
            1nat
        } else {
            0nat
        }
    }
}

proof fn lemma_count_true_le(s: Seq<bool>)
    ensures
        spec_count_true(s) <= s.len(),
    decreases s.len(),
{
    if s.len() > 0 {
        lemma_count_true_le(s.drop_last());
    }
}

proof fn lemma_count_true_update(s: Seq<bool>, i: int)
    requires
        0 <= i < s.len(),
        !s[i],
    ensures
        spec_count_true(s.update(i, true)) == spec_count_true(s) + 1,
    decreases s.len(),
{
    if i == s.len() - 1 {
        assert(s.update(i, true).drop_last() =~= s.drop_last());
    } else {
        assert(s.update(i, true).drop_last() =~= s.drop_last().update(i, true));
        assert(s.update(i, true).last() == s.last());
        lemma_count_true_update(s.drop_last(), i);
    }
}

/// Whether some marked entry carries identity `id`.
pub open spec fn spec_has_marked(
    cands: Seq<PackageSnapshotEntry>,
    marks: Seq<bool>,
    id: PackageIdentity,
) -> bool {
    exists|k: int| 0 <= k < cands.len() && k < marks.len() && marks[k] && spec_same_id(cands[k].id, id)
}

/// The marks are closed under dependency edges: every dependency of a
/// marked entry that has an entry at all has a marked entry.
pub open spec fn spec_marks_closed(cands: Seq<PackageSnapshotEntry>, marks: Seq<bool>) -> bool {
    forall|i: int, j: int|
        0 <= i < cands.len() && i < marks.len() && marks[i] && 0 <= j
            < cands[i].dependencies@.len() && spec_has_entry(cands, cands[i].dependencies@[j].1)
            ==> spec_has_marked(cands, marks, cands[i].dependencies@[j].1)
}

/// The index of the first entry carrying `id`, if any.
fn find_entry_index(cands: &Vec<PackageSnapshotEntry>, id: &PackageIdentity) -> (r: Option<usize>)
    ensures
        match r {
            Some(k) => k < cands@.len() && spec_same_id(cands@[k as int].id, *id) && (forall|j: int|
                0 <= j < k ==> !spec_same_id(cands@[j].id, *id)),
            None => !spec_has_entry(cands@, *id),
        },
{
    let mut i: usize = 0;
    while i < cands.len()
        invariant
            i <= cands@.len(),
            forall|j: int| 0 <= j < i ==> !spec_same_id(cands@[j].id, *id),
        decreases cands@.len() - i,
    {
        if cands[i].id.same(id) {
            return Some(i);
        }
        i = i + 1;
    }
    None
}

/// Marks the first entry carrying `id`, if any. Returns the found
/// index and whether a mark was newly set.
fn mark_target(
    cands: &Vec<PackageSnapshotEntry>,
    marks: &mut Vec<bool>,
    id: &PackageIdentity,
) -> (r: (Option<usize>, bool))
    requires
        old(marks)@.len() == cands@.len(),
    ensures
        final(marks)@.len() == cands@.len(),
        match r.0 {
            None => !spec_has_entry(cands@, *id) && final(marks)@ == old(marks)@ && !r.1,
            Some(k) => k < cands@.len() && spec_same_id(cands@[k as int].id, *id) && (forall|j: int|
                0 <= j < k ==> !spec_same_id(cands@[j].id, *id)) && (if r.1 {
                !old(marks)@[k as int] && final(marks)@ == old(marks)@.update(k as int, true)
            } else {
                old(marks)@[k as int] && final(marks)@ == old(marks)@
            }),
        },
{
    match find_entry_index(cands, id) {
        None => (None, false),
        Some(k) => {
            if marks[k] {
                (Some(k), false)
            } else {
                marks.set(k, true);
                (Some(k), true)
            }
        },
    }
}

/// Every set mark lies below `b`.
pub open spec fn spec_marks_below(marks: Seq<bool>, b: int) -> bool {
    forall|k: int| 0 <= k < marks.len() && marks[k] ==> k < b
}

/// Dependencies of the first `b` entries all have entries among the
/// first `b` entries.
pub open spec fn spec_prefix_closed(cands: Seq<PackageSnapshotEntry>, b: int) -> bool {
    forall|i: int, j: int|
        0 <= i < b && i < cands.len() && 0 <= j < cands[i].dependencies@.len() ==> spec_has_entry(
            cands.take(b),
            cands[i].dependencies@[j].1,
        )
}

/// One propagation sweep: marks the target of every dependency edge of
/// every marked entry. Reports whether any new mark was set; a sweep
/// that sets nothing witnesses that the marks are closed.
fn mark_scan(cands: &Vec<PackageSnapshotEntry>, marks: &mut Vec<bool>, Ghost(b): Ghost<int>) -> (changed:
    bool)
    requires
        old(marks)@.len() == cands@.len(),
    ensures
        final(marks)@.len() == cands@.len(),
        forall|k: int| 0 <= k < cands@.len() && old(marks)@[k] ==> final(marks)@[k],
        spec_count_true(final(marks)@) >= spec_count_true(old(marks)@),
        changed ==> spec_count_true(final(marks)@) > spec_count_true(old(marks)@),
        !changed ==> final(marks)@ == old(marks)@ && spec_marks_closed(cands@, final(marks)@),
        (0 <= b <= cands@.len() && spec_marks_below(old(marks)@, b) && spec_prefix_closed(
            cands@,
            b,
        )) ==> spec_marks_below(final(marks)@, b),
{
    let mut changed = false;
    let mut i: usize = 0;
    while i < cands.len()
        invariant
            i <= cands@.len(),
            marks@.len() == cands@.len(),
            forall|k: int| 0 <= k < cands@.len() && old(marks)@[k] ==> marks@[k],
            spec_count_true(marks@) >= spec_count_true(old(marks)@),
            changed ==> spec_count_true(marks@) > spec_count_true(old(marks)@),
            !changed ==> marks@ == old(marks)@,
            !changed ==> forall|a: int, j: int|
                0 <= a < i && marks@[a] && 0 <= j < cands@[a].dependencies@.len() && spec_has_entry(
                    cands@,
                    cands@[a].dependencies@[j].1,
                ) ==> spec_has_marked(cands@, marks@, cands@[a].dependencies@[j].1),
            (0 <= b <= cands@.len() && spec_marks_below(old(marks)@, b) && spec_prefix_closed(
                cands@,
                b,
            )) ==> spec_marks_below(marks@, b),
        decreases cands@.len() - i,
    {
        if marks[i] {
            let mut j: usize = 0;
            while j < cands[i].dependencies.len()
                invariant
                    i < cands@.len(),
                    j <= cands@[i as int].dependencies@.len(),
                    marks@.len() == cands@.len(),
                    marks@[i as int],
                    forall|k: int| 0 <= k < cands@.len() && old(marks)@[k] ==> marks@[k],
                    spec_count_true(marks@) >= spec_count_true(old(marks)@),
                    changed ==> spec_count_true(marks@) > spec_count_true(old(marks)@),
                    !changed ==> marks@ == old(marks)@,
                    !changed ==> forall|a: int, jj: int|
                        0 <= a < i && marks@[a] && 0 <= jj < cands@[a].dependencies@.len()
                            && spec_has_entry(cands@, cands@[a].dependencies@[jj].1)
                            ==> spec_has_marked(cands@, marks@, cands@[a].dependencies@[jj].1),
                    !changed ==> forall|jj: int|
                        0 <= jj < j && spec_has_entry(cands@, cands@[i as int].dependencies@[jj].1)
                            ==> spec_has_marked(
                            cands@,
                            marks@,
                            cands@[i as int].dependencies@[jj].1,
                        ),
                    (0 <= b <= cands@.len() && spec_marks_below(old(marks)@, b)
                        && spec_prefix_closed(cands@, b)) ==> spec_marks_below(marks@, b),
                decreases cands@[i as int].dependencies@.len() - j,
            {
                let ghost prev = marks@;
                let ghost dep = cands@[i as int].dependencies@[j as int].1;
                let (k_opt, ch) = mark_target(cands, marks, &cands[i].dependencies[j].1);
                proof {
                    if ch {
                        let k = k_opt.unwrap() as int;
                        lemma_count_true_update(prev, k);
                        if 0 <= b <= cands@.len() && spec_marks_below(old(marks)@, b)
                            && spec_prefix_closed(cands@, b) {
                            assert(spec_marks_below(prev, b));
                            assert(i < b);
                            assert(spec_has_entry(cands@.take(b), dep));
                            let w = choose|w: int|
                                0 <= w < cands@.take(b).len() && spec_same_id(
                                    cands@.take(b)[w].id,
                                    dep,
                                );
                            assert(cands@.take(b)[w] == cands@[w]);
                            assert(k <= w);
                            assert(spec_marks_below(marks@, b));
                        }
                    }
                }
                if ch {
                    changed = true;
                }
                j = j + 1;
            }
        }
        i = i + 1;
    }
    changed
}

/// Computes the set of entries needed for the given roots: marks every
/// root's entry and closes the marks under dependency edges.
fn compute_needed_marks(
    cands: &Vec<PackageSnapshotEntry>,
    roots: &Vec<PackageIdentity>,
    Ghost(b): Ghost<int>,
) -> (marks: Vec<bool>)
    ensures
        marks@.len() == cands@.len(),
        forall|r: int|
            0 <= r < roots@.len() && spec_has_entry(cands@, roots@[r]) ==> spec_has_marked(
                cands@,
                marks@,
                roots@[r],
            ),
        spec_marks_closed(cands@, marks@),
        (0 <= b <= cands@.len() && spec_prefix_closed(cands@, b) && (forall|r: int|
            0 <= r < roots@.len() ==> spec_has_entry(cands@.take(b), roots@[r])))
            ==> spec_marks_below(marks@, b),
{
    let n = cands.len();
    let mut marks: Vec<bool> = Vec::new();
    let mut z: usize = 0;
    while z < n
        invariant
            marks@.len() == z,
            z <= n,
            n == cands@.len(),
            forall|k: int| 0 <= k < z ==> !marks@[k],
        decreases n - z,
    {
        marks.push(false);
        z = z + 1;
    }
    let mut r: usize = 0;
    while r < roots.len()
        invariant
            n == cands@.len(),
            marks@.len() == n,
            forall|q: int|
                0 <= q < r && spec_has_entry(cands@, roots@[q]) ==> spec_has_marked(
                    cands@,
                    marks@,
                    roots@[q],
                ),
            (0 <= b <= cands@.len() && (forall|q: int|
                0 <= q < roots@.len() ==> spec_has_entry(cands@.take(b), roots@[q])))
                ==> spec_marks_below(marks@, b),
        decreases roots@.len() - r,
    {
        let ghost prev = marks@;
        let (k_opt, ch) = mark_target(cands, &mut marks, &roots[r]);
        proof {
            if ch {
                let k = k_opt.unwrap() as int;
                if 0 <= b <= cands@.len() && (forall|q: int|
                    0 <= q < roots@.len() ==> spec_has_entry(cands@.take(b), roots@[q])) {
                    assert(spec_has_entry(cands@.take(b), roots@[r as int]));
                    let w = choose|w: int|
                        0 <= w < cands@.take(b).len() && spec_same_id(
                            cands@.take(b)[w].id,
                            roots@[r as int],
                        );
                    assert(cands@.take(b)[w] == cands@[w]);
                    assert(k <= w);
                    assert(spec_marks_below(marks@, b));
                }
            }
            assert forall|q: int|
                0 <= q < r + 1 && spec_has_entry(cands@, roots@[q]) implies spec_has_marked(
                cands@,
                marks@,
                roots@[q],
            ) by {
                if q < r {
                    assert(spec_has_marked(cands@, prev, roots@[q]));
                    let w = choose|w: int|
                        0 <= w < cands@.len() && w < prev.len() && prev[w] && spec_same_id(
                            cands@[w].id,
                            roots@[q],
                        );
                    assert(marks@[w]);
                } else {
                    match k_opt {
                        Some(k) => {
                            assert(marks@[k as int]);
                            assert(spec_same_id(cands@[k as int].id, roots@[q]));
                        },
                        None => {
                            assert(!spec_has_entry(cands@, roots@[q]));
                        },
                    }
                }
            }
        }
        r = r + 1;
    }
    proof {
        lemma_count_true_le(marks@);
    }
    let mut round: usize = 0;
    while round <= n
        invariant
            n == cands@.len(),
            marks@.len() == n,
            spec_count_true(marks@) <= n,
            spec_count_true(marks@) >= round,
            forall|q: int|
                0 <= q < roots@.len() && spec_has_entry(cands@, roots@[q]) ==> spec_has_marked(
                    cands@,
                    marks@,
                    roots@[q],
                ),
            (0 <= b <= cands@.len() && spec_prefix_closed(cands@, b) && (forall|q: int|
                0 <= q < roots@.len() ==> spec_has_entry(cands@.take(b), roots@[q])))
                ==> spec_marks_below(marks@, b),
        ensures
            spec_marks_closed(cands@, marks@),
            marks@.len() == n,
            forall|q: int|
                0 <= q < roots@.len() && spec_has_entry(cands@, roots@[q]) ==> spec_has_marked(
                    cands@,
                    marks@,
                    roots@[q],
                ),
            (0 <= b <= cands@.len() && spec_prefix_closed(cands@, b) && (forall|q: int|
                0 <= q < roots@.len() ==> spec_has_entry(cands@.take(b), roots@[q])))
                ==> spec_marks_below(marks@, b),
        decreases n + 1 - round,
    {
        let ghost prev = marks@;
        let changed = mark_scan(cands, &mut marks, Ghost(b));
        proof {
            lemma_count_true_le(marks@);
            assert forall|q: int|
                0 <= q < roots@.len() && spec_has_entry(cands@, roots@[q]) implies spec_has_marked(
                cands@,
                marks@,
                roots@[q],
            ) by {
                let w = choose|w: int|
                    0 <= w < cands@.len() && w < prev.len() && prev[w] && spec_same_id(
                        cands@[w].id,
                        roots@[q],
                    );
                assert(marks@[w]);
            }
        }
        if !changed {
            break;
        }
        round = round + 1;
    }
    marks
}

/// Every requested specifier has a recorded mapping in the snapshot.
pub open spec fn spec_all_mapped(specs: Seq<String>, snap: LockfileSnapshot) -> bool {
    forall|i: int|
        0 <= i < specs.len() ==> spec_find_specifier(
            snap.specifiers@,
            spec_strip_npm(specs[i]@),
        ) is Some
}

/// Every package entry of the snapshot has a usable cache entry under
/// its recorded integrity.
pub open spec fn spec_all_entries_cached(snap: LockfileSnapshot, cache: PackageCacheStore) -> bool {
    forall|k: int|
        0 <= k < snap.packages@.len() ==> spec_cache_hit(
            cache.entries@,
            snap.packages@[k].id,
            snap.packages@[k].integrity@,
        )
}

/// Resolution under cached-only mode: decides, without consulting any
/// registry, whether the snapshot and the cache alone satisfy the
/// requested specifiers. The signature has no registry parameter: this
/// mode cannot contact a registry at all.
///
/// On success there is a dependency-closed set of needed entries,
/// containing every requested mapping's target, all of whose members
/// have usable cache entries. On failure the error names the exact
/// requested specifier with no mapping, or the exact identity with no
/// usable cache entry.
pub fn resolve_cached_only(
    specs: &Vec<String>,
    snap: &LockfileSnapshot,
    cache: &PackageCacheStore,
) -> (r: Result<(), ResolveError>)
    ensures
        r is Ok ==> spec_snapshot_consistent(*snap) && spec_all_mapped(specs@, *snap),
        r is Ok ==> exists|marks: Seq<bool>|
            marks.len() == snap.packages@.len() && spec_marks_closed(snap.packages@, marks) && (
            forall|i: int|
                0 <= i < snap.specifiers@.len() ==> spec_has_marked(
                    snap.packages@,
                    marks,
                    snap.specifiers@[i].1,
                ) || !spec_has_entry(snap.packages@, snap.specifiers@[i].1)) && (forall|k: int|
                0 <= k < marks.len() && marks[k] ==> spec_cache_hit(
                    cache.entries@,
                    snap.packages@[k].id,
                    snap.packages@[k].integrity@,
                )),
        (spec_snapshot_consistent(*snap) && spec_all_mapped(specs@, *snap)
            && spec_all_entries_cached(*snap, *cache)) ==> r is Ok,
        !spec_snapshot_consistent(*snap) ==> r is Err && r->Err_0 is CorruptLockfile,
        match r {
            Ok(()) => true,
            Err(e) => match e {
                ResolveError::CorruptLockfile { id_text } => !spec_snapshot_consistent(*snap),
                ResolveError::NotFoundInCache { text } => (exists|i: int|
                    0 <= i < specs@.len() && text@ == specs@[i]@ && spec_find_specifier(
                        snap.specifiers@,
                        spec_strip_npm(specs@[i]@),
                    ) is None) || (exists|k: int|
                    0 <= k < snap.packages@.len() && text@ == spec_identity_text(
                        snap.packages@[k].id,
                    ) && !spec_cache_hit(
                        cache.entries@,
                        snap.packages@[k].id,
                        snap.packages@[k].integrity@,
                    )),
                _ => false,
            },
        },
{
    if let Err(t) = snap.validate() {
        return Err(ResolveError::CorruptLockfile { id_text: t });
    }
    let mut roots: Vec<PackageIdentity> = Vec::new();
    let mut i: usize = 0;
    while i < specs.len()
        invariant
            i <= specs@.len(),
            forall|q: int|
                0 <= q < i ==> spec_find_specifier(
                    snap.specifiers@,
                    spec_strip_npm(specs@[q]@),
                ) is Some,
            spec_snapshot_consistent(*snap),
        decreases specs@.len() - i,
    {
        let key = strip_npm_text(&specs[i]);
        match snap.find_specifier(&key) {
            None => {
                return Err(ResolveError::NotFoundInCache { text: specs[i].clone() });
            },
            Some(_) => {},
        }
        i = i + 1;
    }
    // The roots are the targets of all recorded mappings: marking from
    // them covers everything the requested specifiers can need.
    let mut s: usize = 0;
    while s < snap.specifiers.len()
        invariant
            s <= snap.specifiers@.len(),
            roots@.len() == s,
            forall|q: int| 0 <= q < s ==> roots@[q] == snap.specifiers@[q].1,
        decreases snap.specifiers@.len() - s,
    {
        roots.push(snap.specifiers[s].1.clone());
        s = s + 1;
    }
    let marks = compute_needed_marks(
        &snap.packages,
        &roots,
        Ghost(snap.packages@.len() as int),
    );
    let mut k: usize = 0;
    while k < snap.packages.len()
        invariant
            k <= snap.packages@.len(),
            marks@.len() == snap.packages@.len(),
            spec_marks_closed(snap.packages@, marks@),
            forall|q: int|
                0 <= q < roots@.len() && spec_has_entry(snap.packages@, roots@[q])
                    ==> spec_has_marked(snap.packages@, marks@, roots@[q]),
            roots@.len() == snap.specifiers@.len(),
            forall|q: int| 0 <= q < roots@.len() ==> roots@[q] == snap.specifiers@[q].1,
            forall|q: int|
                0 <= q < k && marks@[q] ==> spec_cache_hit(
                    cache.entries@,
                    snap.packages@[q].id,
                    snap.packages@[q].integrity@,
                ),
            spec_snapshot_consistent(*snap),
            spec_all_mapped(specs@, *snap),
        decreases snap.packages@.len() - k,
    {
        if marks[k] {
            if !cache.has_hit(&snap.packages[k].id, &snap.packages[k].integrity) {
                let text = snap.packages[k].id.to_text();
                proof {
                    assert(text@ == spec_identity_text(snap.packages@[k as int].id)
                        && !spec_cache_hit(
                        cache.entries@,
                        snap.packages@[k as int].id,
                        snap.packages@[k as int].integrity@,
                    ));
                }
                return Err(ResolveError::NotFoundInCache { text });
            }
        }
        k = k + 1;
    }
    proof {
        assert(exists|m: Seq<bool>|
            m.len() == snap.packages@.len() && spec_marks_closed(snap.packages@, m) && (forall|
                q: int,
            |
                0 <= q < snap.specifiers@.len() ==> spec_has_marked(
                    snap.packages@,
                    m,
                    snap.specifiers@[q].1,
                ) || !spec_has_entry(snap.packages@, snap.specifiers@[q].1)) && (forall|q: int|
                0 <= q < m.len() && m[q] ==> spec_cache_hit(
                    cache.entries@,
                    snap.packages@[q].id,
                    snap.packages@[q].integrity@,
                ))) by {
            assert forall|q: int| 0 <= q < snap.specifiers@.len() implies (spec_has_marked(
                snap.packages@,
                marks@,
                snap.specifiers@[q].1,
            ) || !spec_has_entry(snap.packages@, snap.specifiers@[q].1)) by {
                assert(roots@[q] == snap.specifiers@[q].1);
                if spec_has_entry(snap.packages@, snap.specifiers@[q].1) {
                    assert(spec_has_marked(snap.packages@, marks@, roots@[q]));
                }
            }
            assert(marks@.len() == snap.packages@.len() && spec_marks_closed(snap.packages@, marks@)
                && (forall|q: int|
                0 <= q < snap.specifiers@.len() ==> spec_has_marked(
                    snap.packages@,
                    marks@,
                    snap.specifiers@[q].1,
                ) || !spec_has_entry(snap.packages@, snap.specifiers@[q].1)) && (forall|q: int|
                0 <= q < marks@.len() && marks@[q] ==> spec_cache_hit(
                    cache.entries@,
                    snap.packages@[q].id,
                    snap.packages@[q].integrity@,
                )));
        }
    }
    Ok(())
}

/// Resolves one requested specifier text to a (lockfile key, identity)
/// pair: a recorded mapping is kept unless reloading; anything else is
/// resolved against the registry by picking the highest satisfying
/// version.
fn resolve_mappings(
    specs: &Vec<String>,
    snap: &LockfileSnapshot,
    reload: bool,
    registry: &RegistryData,
) -> (r: Result<Vec<(String, PackageIdentity)>, ResolveError>)
    ensures
        match r {
            Ok(m) => m@.len() == specs@.len() && (forall|i: int|
                0 <= i < specs@.len() ==> #[trigger] spec_mapping_ok(
                    specs@[i],
                    *snap,
                    reload,
                    *registry,
                    m@[i],
                )),
            Err(e) => match e {
                ResolveError::NotFoundInRegistry { text } => exists|i: int|
                    0 <= i < specs@.len() && text@ == specs@[i]@ && (reload || spec_find_specifier(
                        snap.specifiers@,
                        spec_strip_npm(specs@[i]@),
                    ) is None) && (match spec_parse_specifier(specs@[i]@) {
                        None => true,
                        Some((n, req)) => spec_registry_select(*registry, n, req) is None,
                    }),
                _ => false,
            },
        },
{
    let mut m: Vec<(String, PackageIdentity)> = Vec::new();
    let mut i: usize = 0;
    while i < specs.len()
        invariant
            i <= specs@.len(),
            m@.len() == i,
            forall|q: int|
                0 <= q < i ==> #[trigger] spec_mapping_ok(
                    specs@[q],
                    *snap,
                    reload,
                    *registry,
                    m@[q],
                ),
        decreases specs@.len() - i,
    {
        let key = strip_npm_text(&specs[i]);
        let mut kept = false;
        if !reload {
            match snap.find_specifier(&key) {
                Some(id) => {
                    m.push((key.clone(), id.clone()));
                    kept = true;
                },
                None => {},
            }
        }
        if !kept {
            match parse_specifier(&specs[i]) {
                None => {
                    return Err(
                        ResolveError::NotFoundInRegistry { text: specs[i].clone() },
                    );
                },
                Some(sp) => {
                    let picked = match registry.find_package(&sp.name) {
                        None => None,
                        Some(p) => p.best_match(&sp.req),
                    };
                    match picked {
                        None => {
                            return Err(
                                ResolveError::NotFoundInRegistry { text: specs[i].clone() },
                            );
                        },
                        Some(v) => {
                            m.push((key, PackageIdentity::new(sp.name, v)));
                        },
                    }
                },
            }
        }
        i = i + 1;
    }
    Ok(m)
}

/// The mapping recorded for one requested specifier is right: its key
/// is the stripped text; its identity is the recorded one when one is
/// kept, and the registry's highest satisfying version otherwise.
pub open spec fn spec_mapping_ok(
    text: String,
    snap: LockfileSnapshot,
    reload: bool,
    reg: RegistryData,
    pair: (String, PackageIdentity),
) -> bool {
    &&& pair.0@ == spec_strip_npm(text@)
    &&& if !reload && spec_find_specifier(snap.specifiers@, spec_strip_npm(text@)) is Some {
        pair.1 == spec_find_specifier(snap.specifiers@, spec_strip_npm(text@)).unwrap()
    } else {
        match spec_parse_specifier(text@) {
            Some((n, req)) => pair.1.name@ == n && spec_registry_select(reg, n, req) == Some(
                pair.1.version,
            ) && pair.1.copy_index == 0,
            None => false,
        }
    }
}

/// Some candidate carries exactly this name, version and primary copy.
pub open spec fn spec_has_id(cands: Seq<PackageSnapshotEntry>, name: Seq<char>, v: Version) -> bool {
    exists|k: int|
        0 <= k < cands.len() && cands[k].id.name@ == name && cands[k].id.version == v
            && cands[k].id.copy_index == 0
}

/// The identity is the registry's own pick for some requirement on its
/// name.
pub open spec fn spec_dep_selected(reg: RegistryData, id: PackageIdentity) -> bool {
    id.copy_index == 0 && exists|req: VersionReq|
        spec_registry_select(reg, id.name@, req) == Some(id.version)
}

/// Lookups by a record's own coordinates land on that record: no
/// package is shadowed by an earlier duplicate name, no version by an
/// earlier duplicate number.
#[verifier::opaque]
pub open spec fn spec_registry_wf(reg: RegistryData) -> bool {
    forall|pi: int|
        0 <= pi < reg.packages@.len() ==> {
            &&& spec_find_package(reg.packages@, #[trigger] reg.packages@[pi].name@) == Some(
                reg.packages@[pi],
            )
            &&& forall|vi: int|
                0 <= vi < reg.packages@[pi].versions@.len()
                    ==> crate::registry::spec_find_version(
                    reg.packages@[pi].versions@,
                    (#[trigger] reg.packages@[pi].versions@[vi]).version,
                ) == Some(reg.packages@[pi].versions@[vi])
        }
}

/// The registry serves exactly what it advertises: every version's
/// tarball hash agrees with its advertised integrity.
#[verifier::opaque]
pub open spec fn spec_registry_honest(reg: RegistryData) -> bool {
    forall|pi: int, vi: int|
        0 <= pi < reg.packages@.len() && 0 <= vi < reg.packages@[pi].versions@.len() ==> (
        #[trigger] reg.packages@[pi].versions@[vi]).tarball_hash@
            == reg.packages@[pi].versions@[vi].integrity@
}

/// Every required dependency declaration of every registry version is
/// satisfiable by the registry's own pick.
#[verifier::opaque]
pub open spec fn spec_registry_deps_satisfiable(reg: RegistryData) -> bool {
    forall|pi: int, vi: int, j: int|
        0 <= pi < reg.packages@.len() && 0 <= vi < reg.packages@[pi].versions@.len() && 0 <= j
            < reg.packages@[pi].versions@[vi].dependencies@.len() ==> {
            ||| (#[trigger] reg.packages@[pi].versions@[vi].dependencies@[j]).kind
                == DepKind::Optional
            ||| spec_registry_select(
                reg,
                reg.packages@[pi].versions@[vi].dependencies@[j].name@,
                reg.packages@[pi].versions@[vi].dependencies@[j].req,
            ) is Some
        }
}

/// The package an entry pins is obtainable: a usable cache entry under
/// the pinned integrity, or a registry record for its coordinates
/// serving exactly the pinned hash.
#[verifier::opaque]
pub open spec fn spec_entry_fetchable(
    e: PackageSnapshotEntry,
    reg: RegistryData,
    cache: PackageCacheStore,
) -> bool {
    spec_cache_hit(cache.entries@, e.id, e.integrity@) || (match spec_find_package(
        reg.packages@,
        e.id.name@,
    ) {
        Some(p) => match crate::registry::spec_find_version(p.versions@, e.id.version) {
            Some(rv) => rv.tarball_hash@ == e.integrity@,
            None => false,
        },
        None => false,
    })
}

/// Every recorded package of the snapshot is obtainable.
#[verifier::opaque]
pub open spec fn spec_snapshot_fetchable(
    snap: LockfileSnapshot,
    reg: RegistryData,
    cache: PackageCacheStore,
) -> bool {
    forall|k: int|
        0 <= k < snap.packages@.len() ==> spec_entry_fetchable(
            #[trigger] snap.packages@[k],
            reg,
            cache,
        )
}

/// The entry was built from one of the registry's own version records:
/// a primary instance carrying a record's name, version and advertised
/// integrity.
#[verifier::opaque]
pub open spec fn spec_from_registry(reg: RegistryData, e: PackageSnapshotEntry) -> bool {
    e.id.copy_index == 0 && exists|pi: int, vi: int|
        0 <= pi < reg.packages@.len() && 0 <= vi < reg.packages@[pi].versions@.len() && e.id.name@
            == reg.packages@[pi].name@ && e.id.version == (
        #[trigger] reg.packages@[pi].versions@[vi]).version && e.integrity@
            == reg.packages@[pi].versions@[vi].integrity@
}

/// A planned download is sound: its recomputed content hash agrees
/// with its recorded integrity, which is exactly what the registry
/// serves for its identity's coordinates.
#[verifier::opaque]
pub open spec fn spec_download_ok(reg: RegistryData, e: crate::cache::CacheEntry) -> bool {
    e.content_hash@ == e.integrity@ && (match spec_find_package(reg.packages@, e.id.name@) {
        Some(p) => match crate::registry::spec_find_version(p.versions@, e.id.version) {
            Some(rv) => rv.tarball_hash@ == e.integrity@,
            None => false,
        },
        None => false,
    })
}

/// Resolution has everything it needs: a consistent snapshot, a
/// specifier set the registry satisfies, a registry whose records are
/// findable by their own coordinates, honest and closed under required
/// dependencies, and every recorded package obtainable.
#[verifier::opaque]
pub open spec fn spec_resolvable(
    specs: Seq<String>,
    snap: LockfileSnapshot,
    reg: RegistryData,
    cache: PackageCacheStore,
) -> bool {
    &&& spec_snapshot_consistent(snap)
    &&& forall|i: int|
        0 <= i < specs.len() ==> match spec_parse_specifier(#[trigger] specs[i]@) {
            Some((n, req)) => spec_registry_select(reg, n, req) is Some,
            None => false,
        }
    &&& spec_registry_wf(reg)
    &&& spec_registry_honest(reg)
    &&& spec_registry_deps_satisfiable(reg)
    &&& spec_snapshot_fetchable(snap, reg, cache)
}

/// The recorded broken-dependency text, if any, names a requirement
/// that the registry cannot satisfy.
spec fn spec_broken_ok(reg: RegistryData, meta_broken: Option<String>) -> bool {
    match meta_broken {
        Some(t) => exists|n: Seq<char>, req: VersionReq|
            t@ == n + seq!['@'] + spec_req_text(req) && spec_registry_select(reg, n, req) is None,
        None => true,
    }
}

/// Resolves the declared dependencies of one registry version:
/// requirements become pinned identities via the registry's pick;
/// failures on optional dependencies (no match, or a platform the
/// current one is not among) are recorded and skipped; a failure on a
/// required or peer dependency is recorded as broken.
fn build_registry_deps(
    registry: &RegistryData,
    declared: &Vec<RegistryDependency>,
    os: &String,
) -> (r: (Vec<(String, PackageIdentity)>, Option<String>, Vec<String>))
    ensures
        forall|j: int| 0 <= j < r.0@.len() ==> spec_dep_selected(*registry, r.0@[j].1),
        spec_broken_ok(*registry, r.1),
        (forall|j: int|
            0 <= j < declared@.len() ==> (#[trigger] declared@[j]).kind == DepKind::Optional
                || spec_registry_select(
                *registry,
                declared@[j].name@,
                declared@[j].req,
            ) is Some) ==> r.1 is None,
{
    let mut deps: Vec<(String, PackageIdentity)> = Vec::new();
    let mut broken: Option<String> = None;
    let mut skipped: Vec<String> = Vec::new();
    let mut j: usize = 0;
    while j < declared.len()
        invariant
            j <= declared@.len(),
            forall|q: int| 0 <= q < deps@.len() ==> spec_dep_selected(*registry, deps@[q].1),
            spec_broken_ok(*registry, broken),
            (forall|j2: int|
                0 <= j2 < declared@.len() ==> (#[trigger] declared@[j2]).kind == DepKind::Optional
                    || spec_registry_select(
                    *registry,
                    declared@[j2].name@,
                    declared@[j2].req,
                ) is Some) ==> broken is None,
        decreases declared@.len() - j,
    {
        let d = &declared[j];
        let sel = match registry.find_package(&d.name) {
            None => None,
            Some(p) => p.best_match(&d.req),
        };
        proof {
            assert(sel == spec_registry_select(*registry, d.name@, d.req));
        }
        match d.kind {
            DepKind::Optional => {
                match sel {
                    None => {
                        skipped.push(d.name.clone());
                    },
                    Some(v) => {
                        let admits = match registry.find_package(&d.name) {
                            None => false,
                            Some(p) => match p.find_version(&v) {
                                None => false,
                                Some(rv) => os_admits(&rv.os, os),
                            },
                        };
                        if admits {
                            let id = PackageIdentity {
                                name: d.name.clone(),
                                version: v,
                                copy_index: 0,
                            };
                            deps.push((d.name.clone(), id));
                        } else {
                            skipped.push(d.name.clone());
                        }
                    },
                }
            },
            _ => {
                match sel {
                    None => {
                        if broken.is_none() {
                            let mut t = d.name.clone();
                            t.append("@");
                            let rt = d.req.to_text();
                            t.append(rt.as_str());
                            proof {
                                reveal_strlit("@");
                                assert(t@ =~= d.name@ + seq!['@'] + spec_req_text(d.req));
                            }
                            broken = Some(t);
                        }
                    },
                    Some(v) => {
                        let id = PackageIdentity {
                            name: d.name.clone(),
                            version: v,
                            copy_index: 0,
                        };
                        deps.push((d.name.clone(), id));
                    },
                }
            },
        }
        j = j + 1;
    }
    (deps, broken, skipped)
}

/// Extra per-candidate information gathered while building.
struct CandMeta {
    /// A required dependency requirement no registry version
    /// satisfies, rendered as `name@requirement`.
    broken_dep: Option<String>,
    /// Names of optional dependencies recorded and skipped.
    skipped: Vec<String>,
}

/// Builds the candidate entries a resolution pass can draw from: the
/// snapshot's own entries first (so recorded pins take precedence),
/// then one candidate for every registry version not already present.
fn build_candidates(
    snap: &LockfileSnapshot,
    registry: &RegistryData,
    os: &String,
) -> (r: (Vec<PackageSnapshotEntry>, Vec<CandMeta>))
    ensures
        r.0@.len() == r.1@.len(),
        r.0@.len() >= snap.packages@.len(),
        forall|k: int|
            0 <= k < snap.packages@.len() ==> spec_entry_like(r.0@[k], snap.packages@[k]),
        spec_snapshot_consistent(*snap) ==> spec_prefix_closed(
            r.0@,
            snap.packages@.len() as int,
        ),
        forall|k: int, j: int|
            snap.packages@.len() <= k < r.0@.len() && 0 <= j < r.0@[k].dependencies@.len()
                ==> spec_has_entry(r.0@, r.0@[k].dependencies@[j].1),
        forall|k: int|
            0 <= k < snap.packages@.len() ==> r.1@[k].broken_dep is None,
        forall|k: int|
            snap.packages@.len() <= k < r.0@.len() ==> spec_broken_ok(
                *registry,
                #[trigger] r.1@[k].broken_dep,
            ),
        forall|pi: int, vi: int|
            0 <= pi < registry.packages@.len() && 0 <= vi
                < registry.packages@[pi].versions@.len() ==> spec_has_id(
                r.0@,
                registry.packages@[pi].name@,
                registry.packages@[pi].versions@[vi].version,
            ),
        forall|k: int|
            snap.packages@.len() <= k < r.0@.len() ==> spec_from_registry(
                *registry,
                #[trigger] r.0@[k],
            ),
        spec_registry_deps_satisfiable(*registry) ==> forall|k: int|
            0 <= k < r.1@.len() ==> (#[trigger] r.1@[k].broken_dep) is None,
{
    let base = snap.packages.len();
    let mut cands: Vec<PackageSnapshotEntry> = Vec::new();
    let mut metas: Vec<CandMeta> = Vec::new();
    let mut k: usize = 0;
    while k < base
        invariant
            k <= base,
            base == snap.packages@.len(),
            cands@.len() == k,
            metas@.len() == k,
            forall|q: int| 0 <= q < k ==> spec_entry_like(cands@[q], snap.packages@[q]),
            forall|q: int| 0 <= q < k ==> metas@[q].broken_dep is None,
        decreases base - k,
    {
        cands.push(snap.packages[k].clone());
        metas.push(CandMeta { broken_dep: None, skipped: Vec::new() });
        k = k + 1;
    }
    let mut pi: usize = 0;
    while pi < registry.packages.len()
        invariant
            base == snap.packages@.len(),
            cands@.len() == metas@.len(),
            cands@.len() >= base,
            forall|q: int| 0 <= q < base ==> spec_entry_like(cands@[q], snap.packages@[q]),
            forall|q: int| 0 <= q < base ==> metas@[q].broken_dep is None,
            forall|q: int, j: int|
                base <= q < cands@.len() && 0 <= j < cands@[q].dependencies@.len()
                    ==> spec_dep_selected(*registry, cands@[q].dependencies@[j].1),
            forall|q: int|
                base <= q < cands@.len() ==> spec_broken_ok(
                    *registry,
                    #[trigger] metas@[q].broken_dep,
                ),
            forall|q: int|
                base <= q < cands@.len() ==> spec_from_registry(*registry, #[trigger] cands@[q]),
            spec_registry_deps_satisfiable(*registry) ==> forall|q: int|
                0 <= q < metas@.len() ==> (#[trigger] metas@[q].broken_dep) is None,
            forall|p2: int, v2: int|
                0 <= p2 < pi && 0 <= v2 < registry.packages@[p2].versions@.len()
                    ==> spec_has_id(
                    cands@,
                    registry.packages@[p2].name@,
                    registry.packages@[p2].versions@[v2].version,
                ),
            pi <= registry.packages@.len(),
        decreases registry.packages@.len() - pi,
    {
        let mut vi: usize = 0;
        while vi < registry.packages[pi].versions.len()
            invariant
                base == snap.packages@.len(),
                pi < registry.packages@.len(),
                vi <= registry.packages@[pi as int].versions@.len(),
                cands@.len() == metas@.len(),
                cands@.len() >= base,
                forall|q: int| 0 <= q < base ==> spec_entry_like(cands@[q], snap.packages@[q]),
                forall|q: int| 0 <= q < base ==> metas@[q].broken_dep is None,
                forall|q: int, j: int|
                    base <= q < cands@.len() && 0 <= j < cands@[q].dependencies@.len()
                        ==> spec_dep_selected(*registry, cands@[q].dependencies@[j].1),
                forall|q: int|
                    base <= q < cands@.len() ==> spec_broken_ok(
                        *registry,
                        #[trigger] metas@[q].broken_dep,
                    ),
                forall|q: int|
                    base <= q < cands@.len() ==> spec_from_registry(
                        *registry,
                        #[trigger] cands@[q],
                    ),
                spec_registry_deps_satisfiable(*registry) ==> forall|q: int|
                    0 <= q < metas@.len() ==> (#[trigger] metas@[q].broken_dep) is None,
                forall|p2: int, v2: int|
                    0 <= p2 < pi && 0 <= v2 < registry.packages@[p2].versions@.len()
                        ==> spec_has_id(
                        cands@,
                        registry.packages@[p2].name@,
                        registry.packages@[p2].versions@[v2].version,
                    ),
                forall|v2: int|
                    0 <= v2 < vi ==> spec_has_id(
                        cands@,
                        registry.packages@[pi as int].name@,
                        registry.packages@[pi as int].versions@[v2].version,
                    ),
            decreases registry.packages@[pi as int].versions@.len() - vi,
        {
            let rvi_version = registry.packages[pi].versions[vi].version;
            let id = PackageIdentity {
                name: registry.packages[pi].name.clone(),
                version: rvi_version,
                copy_index: 0,
            };
            let found = find_entry_index(&cands, &id);
            let ghost idg = id;
            let ghost pre = cands@;
            if found.is_none() {
                let (deps, broken, skipped) = build_registry_deps(
                    registry,
                    &registry.packages[pi].versions[vi].dependencies,
                    os,
                );
                let entry = PackageSnapshotEntry {
                    id,
                    integrity: registry.packages[pi].versions[vi].integrity.clone(),
                    dependencies: deps,
                };
                cands.push(entry);
                metas.push(CandMeta { broken_dep: broken, skipped });
            }
            proof {
                let ns = registry.packages@[pi as int].name@;
                let v = registry.packages@[pi as int].versions@[vi as int].version;
                assert(idg.name@ == ns && idg.version == v && idg.copy_index == 0);
                if found is None {
                    reveal(spec_from_registry);
                    assert(spec_from_registry(*registry, cands@.last()));
                    if spec_registry_deps_satisfiable(*registry) {
                        reveal(spec_registry_deps_satisfiable);
                        assert(forall|j2: int|
                            0 <= j2 < registry.packages@[pi as int].versions@[
                                vi as int
                            ].dependencies@.len() ==> (#[trigger] registry.packages@[
                                pi as int
                            ].versions@[vi as int].dependencies@[j2]).kind == DepKind::Optional
                                || spec_registry_select(
                                *registry,
                                registry.packages@[pi as int].versions@[
                                    vi as int
                                ].dependencies@[j2].name@,
                                registry.packages@[pi as int].versions@[
                                    vi as int
                                ].dependencies@[j2].req,
                            ) is Some);
                        assert(metas@.last().broken_dep is None);
                    }
                }
                match found {
                    Some(w) => {
                        assert(spec_same_id(cands@[w as int].id, idg));
                        assert(spec_has_id(cands@, ns, v));
                    },
                    None => {
                        assert(cands@.last().id == idg);
                        assert(spec_has_id(cands@, ns, v));
                    },
                }
                assert forall|p2: int, v2: int|
                    0 <= p2 < pi && 0 <= v2
                        < registry.packages@[p2].versions@.len() implies spec_has_id(
                    cands@,
                    registry.packages@[p2].name@,
                    registry.packages@[p2].versions@[v2].version,
                ) by {
                    let k0 = choose|k0: int|
                        0 <= k0 < pre.len() && pre[k0].id.name@ == registry.packages@[p2].name@
                            && pre[k0].id.version == registry.packages@[p2].versions@[v2].version
                            && pre[k0].id.copy_index == 0;
                    assert(cands@[k0] == pre[k0]);
                }
                assert forall|v2: int| 0 <= v2 < vi + 1 implies spec_has_id(
                    cands@,
                    registry.packages@[pi as int].name@,
                    registry.packages@[pi as int].versions@[v2].version,
                ) by {
                    if v2 < vi {
                        let k0 = choose|k0: int|
                            0 <= k0 < pre.len() && pre[k0].id.name@ == registry.packages@[
                                pi as int
                            ].name@ && pre[k0].id.version == registry.packages@[
                                pi as int
                            ].versions@[v2].version && pre[k0].id.copy_index == 0;
                        assert(cands@[k0] == pre[k0]);
                    }
                }
            }
            vi = vi + 1;
        }
        pi = pi + 1;
    }
    proof {
        // Dependencies of snapshot entries stay within the snapshot
        // prefix when the snapshot is consistent.
        if spec_snapshot_consistent(*snap) {
            assert forall|i: int, j: int|
                0 <= i < base && i < cands@.len() && 0 <= j
                    < cands@[i].dependencies@.len() implies spec_has_entry(
                cands@.take(base as int),
                cands@[i].dependencies@[j].1,
            ) by {
                let dep0 = snap.packages@[i].dependencies@[j].1;
                assert(spec_has_entry(snap.packages@, dep0));
                let w = choose|w: int|
                    0 <= w < snap.packages@.len() && spec_same_id(snap.packages@[w].id, dep0);
                assert(spec_entry_like(cands@[w], snap.packages@[w]));
                assert(cands@.take(base as int)[w] == cands@[w]);
                assert(spec_same_id(
                    cands@.take(base as int)[w].id,
                    cands@[i].dependencies@[j].1,
                ));
            }
        }
        // Dependencies of registry candidates are the registry's own
        // picks, and every registry version got a candidate.
        assert forall|k2: int, j: int|
            base <= k2 < cands@.len() && 0 <= j
                < cands@[k2].dependencies@.len() implies spec_has_entry(
            cands@,
            cands@[k2].dependencies@[j].1,
        ) by {
            let dep = cands@[k2].dependencies@[j].1;
            assert(spec_dep_selected(*registry, dep));
            let req = choose|req: VersionReq|
                spec_registry_select(*registry, dep.name@, req) == Some(dep.version);
            let p = spec_find_package(registry.packages@, dep.name@).unwrap();
            crate::registry::lemma_find_package_witness(registry.packages@, dep.name@);
            let pw = choose|pw: int|
                0 <= pw < registry.packages@.len() && registry.packages@[pw].name@ == dep.name@
                    && registry.packages@[pw] == spec_find_package(
                    registry.packages@,
                    dep.name@,
                ).unwrap();
            crate::registry::lemma_best_match_is_max(p.versions@, req);
            let vw = choose|vw: int|
                0 <= vw < p.versions@.len() && p.versions@[vw].version == dep.version;
            assert(spec_has_id(cands@, registry.packages@[pw].name@, dep.version));
            let c = choose|c: int|
                0 <= c < cands@.len() && cands@[c].id.name@ == registry.packages@[pw].name@
                    && cands@[c].id.version == dep.version && cands@[c].id.copy_index == 0;
            assert(spec_same_id(cands@[c].id, dep));
        }
    }
    (cands, metas)
}

/// The index of the first recorded pair under `key`, if any.
fn find_pair_index(m: &Vec<(String, PackageIdentity)>, key: &String) -> (r: Option<usize>)
    ensures
        match r {
            Some(k) => k < m@.len() && m@[k as int].0@ == key@ && spec_find_specifier(m@, key@)
                == Some(m@[k as int].1),
            None => spec_find_specifier(m@, key@) is None,
        },
{
    let mut i: usize = 0;
    proof {
        assert(m@.skip(0) =~= m@);
    }
    while i < m.len()
        invariant
            i <= m@.len(),
            spec_find_specifier(m@, key@) == spec_find_specifier(m@.skip(i as int), key@),
        decreases m@.len() - i,
    {
        proof {
            assert(m@.skip(i as int)[0] == m@[i as int]);
            assert(m@.skip(i as int).skip(1) =~= m@.skip(i as int + 1));
        }
        if m[i].0 == *key {
            return Some(i);
        }
        i = i + 1;
    }
    proof {
        assert(m@.skip(i as int).len() == 0);
    }
    None
}

/// A needed package was secured: it has a usable cache entry under
/// its pinned integrity, or a planned download records exactly that
/// integrity for its identity.
#[verifier::opaque]
pub open spec fn spec_obtained(
    cache: PackageCacheStore,
    downloads: Seq<CacheEntry>,
    e: PackageSnapshotEntry,
) -> bool {
    spec_cache_hit(cache.entries@, e.id, e.integrity@) || exists|a: int|
        0 <= a < downloads.len() && spec_same_id(#[trigger] downloads[a].id, e.id)
            && downloads[a].integrity@ == e.integrity@
}

/// Walks the marked candidates: refuses a broken required
/// dependency, checks each needed package against the cache, plans a
/// download (verifying the served content hash against the recorded
/// integrity) for each miss, and collects the entries to append.
#[verifier::rlimit(100)]
fn collect_needed(
    cands: &Vec<PackageSnapshotEntry>,
    metas: &Vec<CandMeta>,
    marks: &Vec<bool>,
    cache: &PackageCacheStore,
    registry: &RegistryData,
    basex: usize,
    appended: &mut Vec<PackageSnapshotEntry>,
    downloads: &mut Vec<CacheEntry>,
    skipped_all: &mut Vec<String>,
    sources: &mut Ghost<Seq<int>>,
) -> (r: Result<(), ResolveError>)
    requires
        old(appended)@.len() == 0,
        old(downloads)@.len() == 0,
        old(skipped_all)@.len() == 0,
        marks@.len() == cands@.len(),
        metas@.len() == cands@.len(),
        basex <= cands@.len(),
        spec_prefix_closed(cands@, basex as int),
        forall|k: int, j: int|
            basex <= k < cands@.len() && 0 <= j < cands@[k].dependencies@.len()
                ==> spec_has_entry(cands@, #[trigger] cands@[k].dependencies@[j].1),
        forall|k: int| 0 <= k < basex ==> (#[trigger] metas@[k].broken_dep) is None,
        forall|k: int|
            basex <= k < cands@.len() ==> spec_broken_ok(
                *registry,
                #[trigger] metas@[k].broken_dep,
            ),
    ensures
        (spec_marks_below(marks@, basex as int) && (forall|k: int|
            0 <= k < basex ==> spec_cache_hit(
                cache.entries@,
                cands@[k].id,
                cands@[k].integrity@,
            ))) ==> r is Ok,
        ((forall|k: int| 0 <= k < metas@.len() ==> (#[trigger] metas@[k].broken_dep) is None) && (
        forall|k: int|
            0 <= k < cands@.len() ==> spec_entry_fetchable(
                #[trigger] cands@[k],
                *registry,
                *cache,
            ))) ==> r is Ok,
        forall|a: int|
            0 <= a < final(downloads)@.len() ==> spec_download_ok(
                *registry,
                #[trigger] final(downloads)@[a],
            ),
        r is Ok ==> forall|k: int|
            0 <= k < cands@.len() && marks@[k] ==> spec_obtained(
                *cache,
                final(downloads)@,
                #[trigger] cands@[k],
            ),
        r is Ok ==> forall|q: int|
            basex <= q < cands@.len() && marks@[q] ==> exists|a: int|
                0 <= a < final(appended)@.len() && spec_entry_like(
                    #[trigger] final(appended)@[a],
                    cands@[q],
                ),
        r is Ok ==> final(sources)@.len() == final(appended)@.len() && (forall|a: int|
            0 <= a < final(appended)@.len() ==> basex <= #[trigger] final(sources)@[a]
                < cands@.len() && marks@[final(sources)@[a]] && spec_entry_like(
                final(appended)@[a],
                cands@[final(sources)@[a]],
            )),
        match r {
            Ok(()) => (spec_marks_below(marks@, basex as int) && (forall|k: int|
                0 <= k < basex ==> spec_cache_hit(
                    cache.entries@,
                    cands@[k].id,
                    cands@[k].integrity@,
                ))) ==> final(appended)@.len() == 0 && final(downloads)@.len() == 0,
            Err(e) => match e {
                ResolveError::IntegrityMismatch { id_text } => exists|
                    id: PackageIdentity,
                    integ: Seq<char>,
                |
                    id_text@ == spec_identity_text(id) && !spec_cache_hit(
                        cache.entries@,
                        id,
                        integ,
                    ) && (match spec_find_package(registry.packages@, id.name@) {
                        Some(p) => match crate::registry::spec_find_version(
                            p.versions@,
                            id.version,
                        ) {
                            Some(rv) => rv.tarball_hash@ != integ,
                            None => false,
                        },
                        None => false,
                    }),
                ResolveError::NotFoundInRegistry { text } => (exists|
                    n: Seq<char>,
                    req: VersionReq,
                |
                    text@ == n + seq!['@'] + spec_req_text(req) && spec_registry_select(
                        *registry,
                        n,
                        req,
                    ) is None) || (exists|id: PackageIdentity|
                    text@ == spec_identity_text(id) && (match spec_find_package(
                        registry.packages@,
                        id.name@,
                    ) {
                        None => true,
                        Some(p) => crate::registry::spec_find_version(
                            p.versions@,
                            id.version,
                        ) is None,
                    })),
                _ => false,
            },
        },
{
    let ghost mut srcs: Seq<int> = Seq::empty();
    let mut k: usize = 0;
    while k < cands.len()
        invariant
            k <= cands@.len(),
            marks@.len() == cands@.len(),
            metas@.len() == cands@.len(),
            basex <= cands@.len(),
            spec_prefix_closed(cands@, basex as int),
            forall|k2: int, j: int|
                basex <= k2 < cands@.len() && 0 <= j < cands@[k2].dependencies@.len()
                    ==> spec_has_entry(cands@, #[trigger] cands@[k2].dependencies@[j].1),
            forall|k2: int| 0 <= k2 < basex ==> (#[trigger] metas@[k2].broken_dep) is None,
            forall|k2: int|
                basex <= k2 < cands@.len() ==> spec_broken_ok(
                    *registry,
                    #[trigger] metas@[k2].broken_dep,
                ),
            srcs.len() == appended@.len(),
            forall|a: int|
                0 <= a < srcs.len() ==> basex <= #[trigger] srcs[a] < cands@.len()
                    && marks@[srcs[a]] && spec_entry_like(appended@[a], cands@[srcs[a]]),
            forall|q: int|
                basex <= q < k && marks@[q] ==> exists|a: int|
                    0 <= a < appended@.len() && spec_entry_like(
                        #[trigger] appended@[a],
                        cands@[q],
                    ),
            forall|a: int|
                0 <= a < downloads@.len() ==> spec_download_ok(
                    *registry,
                    #[trigger] downloads@[a],
                ),
            forall|k2: int|
                0 <= k2 < k && marks@[k2] ==> spec_obtained(
                    *cache,
                    downloads@,
                    #[trigger] cands@[k2],
                ),
            (spec_marks_below(marks@, basex as int) && (forall|k2: int|
                0 <= k2 < basex ==> spec_cache_hit(
                    cache.entries@,
                    cands@[k2].id,
                    cands@[k2].integrity@,
                ))) ==> appended@.len() == 0 && downloads@.len() == 0,
        decreases cands@.len() - k,
    {
        if marks[k] {
            proof {
                if spec_marks_below(marks@, basex as int) {
                    assert(k < basex);
                }
            }
            match &metas[k].broken_dep {
                Some(t) => {
                    proof {
                        if spec_marks_below(marks@, basex as int) {
                            assert(metas@[k as int].broken_dep is None);
                            assert(false);
                        }
                        if forall|k2: int|
                            0 <= k2 < metas@.len() ==> (#[trigger] metas@[k2].broken_dep)
                                is None {
                            assert(metas@[k as int].broken_dep is None);
                            assert(false);
                        }
                    }
                    return Err(ResolveError::NotFoundInRegistry { text: t.clone() });
                },
                None => {},
            }
            let mut j: usize = 0;
            while j < cands[k].dependencies.len()
                invariant
                    k < cands@.len(),
                    j <= cands@[k as int].dependencies@.len(),
                    basex <= cands@.len(),
                    spec_prefix_closed(cands@, basex as int),
                    forall|k2: int, j2: int|
                        basex <= k2 < cands@.len() && 0 <= j2 < cands@[k2].dependencies@.len()
                            ==> spec_has_entry(
                            cands@,
                            #[trigger] cands@[k2].dependencies@[j2].1,
                        ),
                decreases cands@[k as int].dependencies@.len() - j,
            {
                let missing = find_entry_index(&cands, &cands[k].dependencies[j].1).is_none();
                proof {
                    if missing {
                        if k < basex {
                            assert(spec_has_entry(
                                cands@.take(basex as int),
                                cands@[k as int].dependencies@[j as int].1,
                            ));
                            let w = choose|w: int|
                                0 <= w < cands@.take(basex as int).len() && spec_same_id(
                                    cands@.take(basex as int)[w].id,
                                    cands@[k as int].dependencies@[j as int].1,
                                );
                            assert(cands@.take(basex as int)[w] == cands@[w]);
                            assert(false);
                        } else {
                            assert(spec_has_entry(
                                cands@,
                                cands@[k as int].dependencies@[j as int].1,
                            ));
                            assert(false);
                        }
                    }
                }
                if missing {
                    return Err(
                        ResolveError::NotFoundInRegistry {
                            text: cands[k].dependencies[j].1.to_text(),
                        },
                    );
                }
                j = j + 1;
            }
            let ghost hyp = spec_marks_below(marks@, basex as int) && (forall|k2: int|
                0 <= k2 < basex ==> spec_cache_hit(
                    cache.entries@,
                    cands@[k2].id,
                    cands@[k2].integrity@,
                ));
            let ghost fetchable = forall|k2: int|
                0 <= k2 < cands@.len() ==> spec_entry_fetchable(
                    #[trigger] cands@[k2],
                    *registry,
                    *cache,
                );
            let hit = cache.has_hit(&cands[k].id, &cands[k].integrity);
            if !hit {
                proof {
                    if hyp {
                        assert(k < basex);
                        assert(false);
                    }
                }
                let idt = cands[k].id.to_text();
                match registry.find_package(&cands[k].id.name) {
                    None => {
                        proof {
                            if fetchable {
                                reveal(spec_entry_fetchable);
                                assert(spec_entry_fetchable(
                                    cands@[k as int],
                                    *registry,
                                    *cache,
                                ));
                                assert(false);
                            }
                        }
                        return Err(ResolveError::NotFoundInRegistry { text: idt });
                    },
                    Some(p) => {
                        match p.find_version(&cands[k].id.version) {
                            None => {
                                proof {
                                    if fetchable {
                                        reveal(spec_entry_fetchable);
                                        assert(spec_entry_fetchable(
                                            cands@[k as int],
                                            *registry,
                                            *cache,
                                        ));
                                        assert(false);
                                    }
                                }
                                return Err(ResolveError::NotFoundInRegistry { text: idt });
                            },
                            Some(rv) => {
                                if !(rv.tarball_hash == cands[k].integrity) {
                                    proof {
                                        if fetchable {
                                            reveal(spec_entry_fetchable);
                                            assert(spec_entry_fetchable(
                                                cands@[k as int],
                                                *registry,
                                                *cache,
                                            ));
                                            assert(false);
                                        }
                                    }
                                    return Err(
                                        ResolveError::IntegrityMismatch { id_text: idt },
                                    );
                                }
                                let ghost downloads_pre = downloads@;
                                downloads.push(
                                    CacheEntry {
                                        id: cands[k].id.clone(),
                                        extracted_path: idt,
                                        integrity: cands[k].integrity.clone(),
                                        content_hash: rv.tarball_hash.clone(),
                                    },
                                );
                                proof {
                                    reveal(spec_download_ok);
                                    assert(spec_download_ok(
                                        *registry,
                                        downloads@[downloads_pre.len() as int],
                                    ));
                                    reveal(spec_obtained);
                                    assert forall|k2: int|
                                        0 <= k2 < k && marks@[k2] implies spec_obtained(
                                        *cache,
                                        downloads@,
                                        #[trigger] cands@[k2],
                                    ) by {
                                        if !spec_cache_hit(
                                            cache.entries@,
                                            cands@[k2].id,
                                            cands@[k2].integrity@,
                                        ) {
                                            let a0 = choose|a0: int|
                                                0 <= a0 < downloads_pre.len() && spec_same_id(
                                                    #[trigger] downloads_pre[a0].id,
                                                    cands@[k2].id,
                                                ) && downloads_pre[a0].integrity@
                                                    == cands@[k2].integrity@;
                                            assert(downloads@[a0] == downloads_pre[a0]);
                                            assert(spec_same_id(
                                                downloads@[a0].id,
                                                cands@[k2].id,
                                            ));
                                        }
                                    }
                                }
                            },
                        }
                    },
                }
            }
            proof {
                reveal(spec_obtained);
                assert(spec_obtained(*cache, downloads@, cands@[k as int]));
            }
            let mut si: usize = 0;
            while si < metas[k].skipped.len()
                invariant
                    k < metas@.len(),
                    si <= metas@[k as int].skipped@.len(),
                decreases metas@[k as int].skipped@.len() - si,
            {
                skipped_all.push(metas[k].skipped[si].clone());
                si = si + 1;
            }
            if k >= basex {
                proof {
                    if spec_marks_below(marks@, basex as int) {
                        assert(false);
                    }
                }
                let ghost appended_pre = appended@;
                appended.push(cands[k].clone());
                proof {
                    srcs = srcs.push(k as int);
                    assert(spec_entry_like(appended@[appended_pre.len() as int], cands@[k as int]));
                    assert forall|a: int|
                        0 <= a < srcs.len() implies basex <= #[trigger] srcs[a] < cands@.len()
                        && marks@[srcs[a]] && spec_entry_like(
                        appended@[a],
                        cands@[srcs[a]],
                    ) by {
                        if a < appended_pre.len() {
                            assert(appended@[a] == appended_pre[a]);
                        }
                    }
                    assert forall|q: int|
                        basex <= q < k + 1 && marks@[q] implies exists|a: int|
                        0 <= a < appended@.len() && spec_entry_like(
                            #[trigger] appended@[a],
                            cands@[q],
                        ) by {
                        if q < k {
                            let a0 = choose|a0: int|
                                0 <= a0 < appended_pre.len() && spec_entry_like(
                                    appended_pre[a0],
                                    cands@[q],
                                );
                            assert(appended@[a0] == appended_pre[a0]);
                            assert(spec_entry_like(appended@[a0], cands@[q]));
                        } else {
                            assert(spec_entry_like(
                                appended@[appended_pre.len() as int],
                                cands@[q],
                            ));
                        }
                    }
                }
            } else {
                proof {
                    assert forall|q: int|
                        basex <= q < k + 1 && marks@[q] implies exists|a: int|
                        0 <= a < appended@.len() && spec_entry_like(
                            #[trigger] appended@[a],
                            cands@[q],
                        ) by {}
                }
            }
        }
        k = k + 1;
    }
    *sources = Ghost(srcs);
    Ok(())
}

/// Merges the freshly resolved mappings into the recorded specifier
/// map: recorded keys keep their recorded targets; new keys are
/// appended in request order. A map that already records every key
/// comes back untouched.
fn merge_mappings(
    specifiers: Vec<(String, PackageIdentity)>,
    mappings: &Vec<(String, PackageIdentity)>,
) -> (r: Vec<(String, PackageIdentity)>)
    ensures
        forall|q: int|
            0 <= q < mappings@.len() ==> spec_find_specifier(
                r@,
                #[trigger] mappings@[q].0@,
            ) is Some,
        (forall|q: int|
            0 <= q < mappings@.len() ==> spec_find_specifier(
                specifiers@,
                #[trigger] mappings@[q].0@,
            ) is Some) ==> r == specifiers,
        r@.len() >= specifiers@.len(),
        forall|j: int| 0 <= j < specifiers@.len() ==> r@[j] == specifiers@[j],
        forall|j: int|
            0 <= j < r@.len() ==> (j < specifiers@.len() && r@[j] == specifiers@[j]) || (exists|
                q: int,
            | 0 <= q < mappings@.len() && r@[j] == (mappings@[q].0, mappings@[q].1)),
        forall|key: Seq<char>|
            #[trigger] spec_find_specifier(specifiers@, key) is Some ==> spec_find_specifier(
                r@,
                key,
            ) == spec_find_specifier(specifiers@, key),
        forall|q: int|
            0 <= q < mappings@.len() && spec_find_specifier(
                specifiers@,
                #[trigger] mappings@[q].0@,
            ) is None ==> exists|q0: int|
                0 <= q0 < mappings@.len() && mappings@[q0].0@ == mappings@[q].0@
                    && spec_find_specifier(r@, mappings@[q].0@) == Some(mappings@[q0].1),
{
    let ghost specifiers_in = specifiers;
    let mut out = specifiers;
    let mut mi: usize = 0;
    while mi < mappings.len()
        invariant
            mi <= mappings@.len(),
            out@.len() >= specifiers_in@.len(),
            forall|j: int| 0 <= j < specifiers_in@.len() ==> out@[j] == specifiers_in@[j],
            forall|q: int|
                0 <= q < mi ==> spec_find_specifier(out@, #[trigger] mappings@[q].0@) is Some,
            (forall|q: int|
                0 <= q < mappings@.len() ==> spec_find_specifier(
                    specifiers_in@,
                    #[trigger] mappings@[q].0@,
                ) is Some) ==> out == specifiers_in,
            forall|j: int|
                0 <= j < out@.len() ==> (j < specifiers_in@.len() && out@[j]
                    == specifiers_in@[j]) || (exists|q: int|
                    0 <= q < mappings@.len() && out@[j] == (mappings@[q].0, mappings@[q].1)),
            forall|key: Seq<char>|
                #[trigger] spec_find_specifier(specifiers_in@, key) is Some
                    ==> spec_find_specifier(out@, key) == spec_find_specifier(
                    specifiers_in@,
                    key,
                ),
            forall|q: int|
                0 <= q < mi && spec_find_specifier(
                    specifiers_in@,
                    #[trigger] mappings@[q].0@,
                ) is None ==> exists|q0: int|
                    0 <= q0 < mappings@.len() && mappings@[q0].0@ == mappings@[q].0@
                        && spec_find_specifier(out@, mappings@[q].0@) == Some(mappings@[q0].1),
        decreases mappings@.len() - mi,
    {
        let ghost out_pre = out@;
        match find_pair_index(&out, &mappings[mi].0) {
            Some(k) => {
                proof {
                    // The found pair is an original pair or a merged
                    // mapping pair; in either case the lookup lands on
                    // a mapping's own target when the key was new.
                    if spec_find_specifier(specifiers_in@, mappings@[mi as int].0@) is None {
                        if k < specifiers_in@.len() && out@[k as int] == specifiers_in@[k as int] {
                            assert(specifiers_in@[k as int].0@ == mappings@[mi as int].0@);
                            crate::lockfile::lemma_find_specifier_some_of_witness(
                                specifiers_in@,
                                mappings@[mi as int].0@,
                            );
                            assert(false);
                        } else {
                            let q0 = choose|q0: int|
                                0 <= q0 < mappings@.len() && out@[k as int] == (
                                mappings@[q0].0,
                                mappings@[q0].1,
                                );
                            assert(mappings@[q0].0@ == mappings@[mi as int].0@);
                            assert(spec_find_specifier(out@, mappings@[mi as int].0@) == Some(
                                mappings@[q0].1,
                            ));
                        }
                    }
                }
            },
            None => {
                proof {
                    if forall|q: int|
                        0 <= q < mappings@.len() ==> spec_find_specifier(
                            specifiers_in@,
                            #[trigger] mappings@[q].0@,
                        ) is Some {
                        assert(spec_find_specifier(
                            specifiers_in@,
                            mappings@[mi as int].0@,
                        ) is Some);
                        assert(out == specifiers_in);
                        assert(false);
                    }
                }
                out.push((mappings[mi].0.clone(), mappings[mi].1.clone()));
                proof {
                    assert(out@ =~= out_pre.push(
                        (mappings@[mi as int].0, mappings@[mi as int].1),
                    ));
                    assert forall|key: Seq<char>|
                        #[trigger] spec_find_specifier(specifiers_in@, key)
                            is Some implies spec_find_specifier(out@, key)
                        == spec_find_specifier(specifiers_in@, key) by {
                        crate::lockfile::lemma_find_specifier_push(
                            out_pre,
                            (mappings@[mi as int].0, mappings@[mi as int].1),
                            key,
                        );
                    }
                    assert forall|q: int| 0 <= q < mi + 1 implies spec_find_specifier(
                        out@,
                        #[trigger] mappings@[q].0@,
                    ) is Some by {
                        crate::lockfile::lemma_find_specifier_push(
                            out_pre,
                            (mappings@[mi as int].0, mappings@[mi as int].1),
                            mappings@[q].0@,
                        );
                    }
                    assert forall|q: int|
                        0 <= q < mi + 1 && spec_find_specifier(
                            specifiers_in@,
                            #[trigger] mappings@[q].0@,
                        ) is None implies exists|q0: int|
                        0 <= q0 < mappings@.len() && mappings@[q0].0@ == mappings@[q].0@
                            && spec_find_specifier(out@, mappings@[q].0@) == Some(
                            mappings@[q0].1,
                        ) by {
                        crate::lockfile::lemma_find_specifier_push(
                            out_pre,
                            (mappings@[mi as int].0, mappings@[mi as int].1),
                            mappings@[q].0@,
                        );
                        if q < mi {
                            let q0 = choose|q0: int|
                                0 <= q0 < mappings@.len() && mappings@[q0].0@ == mappings@[q].0@
                                    && spec_find_specifier(out_pre, mappings@[q].0@) == Some(
                                    mappings@[q0].1,
                                );
                            assert(mappings@[q0].0@ == mappings@[q].0@ && spec_find_specifier(
                                out@,
                                mappings@[q].0@,
                            ) == Some(mappings@[q0].1));
                        } else {
                            if mappings@[q].0@ == mappings@[mi as int].0@ {
                                assert(spec_find_specifier(out@, mappings@[q].0@) == Some(
                                    mappings@[mi as int].1,
                                ));
                            }
                        }
                    }
                }
            },
        }
        mi = mi + 1;
    }
    out
}

/// The snapshot alone satisfies/// The snapshot alone satisfies the requested specifiers: it is
/// consistent, maps every requested specifier, and every one of its
/// entries has a usable cache entry.
pub open spec fn spec_fully_satisfied(
    specs: Seq<String>,
    snap: LockfileSnapshot,
    cache: PackageCacheStore,
) -> bool {
    &&& spec_snapshot_consistent(snap)
    &&& spec_all_mapped(specs, snap)
    &&& spec_all_entries_cached(snap, cache)
}

/// What a successful resolution pass hands back: the new snapshot, the
/// cache entries for the packages that had to be downloaded, and the
/// names of optional dependencies that were recorded and skipped.
#[derive(Debug)]
pub struct ResolveOutcome {
    pub snapshot: LockfileSnapshot,
    pub new_cache_entries: Vec<CacheEntry>,
    pub skipped_optional: Vec<String>,
}

/// The mapping the result records for one requested specifier is the
/// right one: the recorded identity when the snapshot already mapped
/// the key (and the pass is not reloading), and the registry's highest
/// satisfying version otherwise.
#[verifier::opaque]
pub open spec fn spec_requested_mapping_ok(
    text: String,
    snap: LockfileSnapshot,
    mode: ResolveMode,
    reg: RegistryData,
    result: LockfileSnapshot,
) -> bool {
    match spec_find_specifier(result.specifiers@, spec_strip_npm(text@)) {
        None => false,
        Some(v) => if mode != ResolveMode::Reload && spec_find_specifier(
            snap.specifiers@,
            spec_strip_npm(text@),
        ) is Some {
            v == spec_find_specifier(snap.specifiers@, spec_strip_npm(text@)).unwrap()
        } else {
            match spec_parse_specifier(text@) {
                Some((n, req)) => v.name@ == n && spec_registry_select(reg, n, req) == Some(
                    v.version,
                ) && v.copy_index == 0,
                None => false,
            }
        },
    }
}

/// The result never serves an unverified package for this identity:
/// some recorded entry carries it, and that entry is already cached
/// under its pinned integrity or covered by a planned download
/// recording exactly that integrity.
#[verifier::opaque]
pub open spec fn spec_target_obtained(
    result: LockfileSnapshot,
    cache: PackageCacheStore,
    downloads: Seq<CacheEntry>,
    id: PackageIdentity,
) -> bool {
    exists|w: int|
        0 <= w < result.packages@.len() && spec_same_id(
            (#[trigger] result.packages@[w]).id,
            id,
        ) && (spec_cache_hit(
            cache.entries@,
            result.packages@[w].id,
            result.packages@[w].integrity@,
        ) || exists|a: int|
            0 <= a < downloads.len() && spec_same_id(
                (#[trigger] downloads[a]).id,
                result.packages@[w].id,
            ) && downloads[a].integrity@ == result.packages@[w].integrity@)
}

/// Every resolved root mapping's target has a candidate entry: a kept
/// mapping's target by snapshot consistency, a fresh pick by registry
/// coverage.
proof fn lemma_roots_have_candidates(
    specs: Seq<String>,
    snap_base: LockfileSnapshot,
    reload: bool,
    reg: RegistryData,
    mappings: Seq<(String, PackageIdentity)>,
    roots: Seq<PackageIdentity>,
    cands: Seq<PackageSnapshotEntry>,
)
    requires
        roots.len() == mappings.len(),
        mappings.len() == specs.len(),
        forall|q: int| 0 <= q < roots.len() ==> roots[q] == mappings[q].1,
        forall|q: int|
            0 <= q < specs.len() ==> #[trigger] spec_mapping_ok(
                specs[q],
                snap_base,
                reload,
                reg,
                mappings[q],
            ),
        spec_snapshot_consistent(snap_base),
        snap_base.packages@.len() <= cands.len(),
        forall|k: int|
            0 <= k < snap_base.packages@.len() ==> spec_entry_like(
                cands[k],
                snap_base.packages@[k],
            ),
        forall|pi: int, vi: int|
            0 <= pi < reg.packages@.len() && 0 <= vi < reg.packages@[pi].versions@.len()
                ==> spec_has_id(
                cands,
                reg.packages@[pi].name@,
                reg.packages@[pi].versions@[vi].version,
            ),
    ensures
        forall|q: int| 0 <= q < roots.len() ==> spec_has_entry(cands, roots[q]),
{
    assert forall|q: int| 0 <= q < roots.len() implies spec_has_entry(cands, roots[q]) by {
        assert(spec_mapping_ok(specs[q], snap_base, reload, reg, mappings[q]));
        let key = spec_strip_npm(specs[q]@);
        if !reload && spec_find_specifier(snap_base.specifiers@, key) is Some {
            crate::lockfile::lemma_find_specifier_witness(snap_base.specifiers@, key);
            let w = choose|w: int|
                0 <= w < snap_base.specifiers@.len() && snap_base.specifiers@[w].0@ == key
                    && snap_base.specifiers@[w].1 == spec_find_specifier(
                    snap_base.specifiers@,
                    key,
                ).unwrap();
            assert(spec_has_entry(snap_base.packages@, roots[q]));
            let w2 = choose|w2: int|
                0 <= w2 < snap_base.packages@.len() && spec_same_id(
                    snap_base.packages@[w2].id,
                    roots[q],
                );
            assert(spec_entry_like(cands[w2], snap_base.packages@[w2]));
            assert(spec_same_id(cands[w2].id, roots[q]));
        } else {
            let (n, req) = spec_parse_specifier(specs[q]@).unwrap();
            let id = mappings[q].1;
            crate::registry::lemma_find_package_witness(reg.packages@, id.name@);
            let p = spec_find_package(reg.packages@, id.name@).unwrap();
            let pw = choose|pw: int|
                0 <= pw < reg.packages@.len() && reg.packages@[pw].name@ == id.name@
                    && reg.packages@[pw] == spec_find_package(reg.packages@, id.name@).unwrap();
            crate::registry::lemma_best_match_is_max(p.versions@, req);
            let vw = choose|vw: int|
                0 <= vw < p.versions@.len() && p.versions@[vw].version == id.version;
            assert(spec_has_id(cands, reg.packages@[pw].name@, id.version));
            let c = choose|c: int|
                0 <= c < cands.len() && cands[c].id.name@ == reg.packages@[pw].name@
                    && cands[c].id.version == id.version && cands[c].id.copy_index == 0;
            assert(spec_same_id(cands[c].id, id));
        }
    }
}

/// When every requested specifier is already mapped by the snapshot,
/// every root target has an entry inside the snapshot prefix of the
/// candidate list.
proof fn lemma_roots_in_prefix(
    specs: Seq<String>,
    snap_base: LockfileSnapshot,
    reg: RegistryData,
    mappings: Seq<(String, PackageIdentity)>,
    roots: Seq<PackageIdentity>,
    cands: Seq<PackageSnapshotEntry>,
)
    requires
        roots.len() == mappings.len(),
        mappings.len() == specs.len(),
        forall|q: int| 0 <= q < roots.len() ==> roots[q] == mappings[q].1,
        forall|q: int|
            0 <= q < specs.len() ==> #[trigger] spec_mapping_ok(
                specs[q],
                snap_base,
                false,
                reg,
                mappings[q],
            ),
        spec_all_mapped(specs, snap_base),
        spec_snapshot_consistent(snap_base),
        snap_base.packages@.len() <= cands.len(),
        forall|k: int|
            0 <= k < snap_base.packages@.len() ==> spec_entry_like(
                cands[k],
                snap_base.packages@[k],
            ),
    ensures
        forall|q: int|
            0 <= q < roots.len() ==> spec_has_entry(
                cands.take(snap_base.packages@.len() as int),
                roots[q],
            ),
{
    let b = snap_base.packages@.len() as int;
    assert forall|q: int| 0 <= q < roots.len() implies spec_has_entry(
        cands.take(b),
        roots[q],
    ) by {
        assert(spec_mapping_ok(specs[q], snap_base, false, reg, mappings[q]));
        let key = spec_strip_npm(specs[q]@);
        assert(spec_find_specifier(snap_base.specifiers@, key) is Some);
        crate::lockfile::lemma_find_specifier_witness(snap_base.specifiers@, key);
        let w = choose|w: int|
            0 <= w < snap_base.specifiers@.len() && snap_base.specifiers@[w].0@ == key
                && snap_base.specifiers@[w].1 == spec_find_specifier(
                snap_base.specifiers@,
                key,
            ).unwrap();
        assert(roots[q] == snap_base.specifiers@[w].1);
        assert(spec_has_entry(snap_base.packages@, roots[q]));
        let w2 = choose|w2: int|
            0 <= w2 < snap_base.packages@.len() && spec_same_id(
                snap_base.packages@[w2].id,
                roots[q],
            );
        assert(cands.take(b)[w2] == cands[w2]);
        assert(spec_entry_like(cands[w2], snap_base.packages@[w2]));
        assert(spec_same_id(cands.take(b)[w2].id, roots[q]));
    }
}

/// The assembled package list is consistent: kept entries' edges are
/// covered by the input snapshot's consistency, appended ones by mark
/// closure.
#[verifier::rlimit(60)]
proof fn lemma_assembled_consistent(
    cands: Seq<PackageSnapshotEntry>,
    marks: Seq<bool>,
    packs0: Seq<PackageSnapshotEntry>,
    appended0: Seq<PackageSnapshotEntry>,
    srcs: Seq<int>,
    basex: int,
    ss_packages: Seq<PackageSnapshotEntry>,
)
    requires
        marks.len() == cands.len(),
        0 <= basex <= cands.len(),
        packs0.len() == basex,
        forall|k: int| 0 <= k < basex ==> spec_entry_like(cands[k], packs0[k]),
        forall|i: int, j: int|
            0 <= i < packs0.len() && 0 <= j < packs0[i].dependencies@.len() ==> spec_has_entry(
                packs0,
                #[trigger] packs0[i].dependencies@[j].1,
            ),
        spec_marks_closed(cands, marks),
        forall|k: int, j: int|
            basex <= k < cands.len() && 0 <= j < cands[k].dependencies@.len() ==> spec_has_entry(
                cands,
                #[trigger] cands[k].dependencies@[j].1,
            ),
        forall|q: int|
            basex <= q < cands.len() && marks[q] ==> exists|a: int|
                0 <= a < appended0.len() && spec_entry_like(#[trigger] appended0[a], cands[q]),
        srcs.len() == appended0.len(),
        forall|a: int|
            0 <= a < appended0.len() ==> basex <= #[trigger] srcs[a] < cands.len()
                && marks[srcs[a]] && spec_entry_like(appended0[a], cands[srcs[a]]),
        ss_packages == packs0 + appended0,
    ensures
        forall|i: int, j: int|
            0 <= i < ss_packages.len() && 0 <= j < ss_packages[i].dependencies@.len()
                ==> spec_has_entry(
                ss_packages,
                #[trigger] ss_packages[i].dependencies@[j].1,
            ),
{
    assert forall|i: int, j: int|
        0 <= i < ss_packages.len() && 0 <= j
            < ss_packages[i].dependencies@.len() implies spec_has_entry(
        ss_packages,
        ss_packages[i].dependencies@[j].1,
    ) by {
        let dep = ss_packages[i].dependencies@[j].1;
        if i < packs0.len() {
            assert(ss_packages[i] == packs0[i]);
            assert(spec_has_entry(packs0, dep));
            let w = choose|w: int| 0 <= w < packs0.len() && spec_same_id(packs0[w].id, dep);
            assert(ss_packages[w] == packs0[w]);
            assert(spec_same_id(ss_packages[w].id, dep));
        } else {
            let a = i - packs0.len();
            assert(ss_packages[i] == appended0[a]);
            let q = srcs[a];
            assert(spec_entry_like(appended0[a], cands[q]));
            assert(spec_same_id(dep, cands[q].dependencies@[j].1));
            assert(spec_has_entry(cands, cands[q].dependencies@[j].1));
            assert(spec_has_marked(cands, marks, cands[q].dependencies@[j].1));
            let w = choose|w: int|
                0 <= w < cands.len() && w < marks.len() && marks[w] && spec_same_id(
                    cands[w].id,
                    cands[q].dependencies@[j].1,
                );
            if w < basex {
                assert(spec_entry_like(cands[w], packs0[w]));
                assert(ss_packages[w] == packs0[w]);
                assert(spec_same_id(ss_packages[w].id, dep));
            } else {
                let a2 = choose|a2: int|
                    0 <= a2 < appended0.len() && spec_entry_like(appended0[a2], cands[w]);
                assert(ss_packages[packs0.len() + a2] == appended0[a2]);
                assert(spec_same_id(ss_packages[packs0.len() + a2].id, dep));
            }
        }
    }
}

/// Every recorded specifier pair of the assembled snapshot points at a
/// recorded entry: kept pairs by the input snapshot's consistency,
/// merged pairs because their targets are marked roots.
#[verifier::rlimit(60)]
proof fn lemma_assembled_specifier_targets(
    mappings: Seq<(String, PackageIdentity)>,
    roots: Seq<PackageIdentity>,
    cands: Seq<PackageSnapshotEntry>,
    marks: Seq<bool>,
    packs0: Seq<PackageSnapshotEntry>,
    appended0: Seq<PackageSnapshotEntry>,
    specifiers_v0: Seq<(String, PackageIdentity)>,
    basex: int,
    ss: LockfileSnapshot,
)
    requires
        roots.len() == mappings.len(),
        forall|q: int| 0 <= q < roots.len() ==> roots[q] == mappings[q].1,
        marks.len() == cands.len(),
        0 <= basex <= cands.len(),
        packs0.len() == basex,
        forall|k: int| 0 <= k < basex ==> spec_entry_like(cands[k], packs0[k]),
        forall|p2: int|
            0 <= p2 < specifiers_v0.len() ==> spec_has_entry(
                packs0,
                #[trigger] specifiers_v0[p2].1,
            ),
        forall|q: int| 0 <= q < roots.len() ==> spec_has_entry(cands, roots[q]),
        forall|q: int|
            0 <= q < roots.len() && spec_has_entry(cands, roots[q]) ==> spec_has_marked(
                cands,
                marks,
                roots[q],
            ),
        forall|q: int|
            basex <= q < cands.len() && marks[q] ==> exists|a: int|
                0 <= a < appended0.len() && spec_entry_like(#[trigger] appended0[a], cands[q]),
        ss.packages@ == packs0 + appended0,
        forall|j: int|
            0 <= j < ss.specifiers@.len() ==> (j < specifiers_v0.len() && (
            #[trigger] ss.specifiers@[j]) == specifiers_v0[j]) || (exists|q: int|
                0 <= q < mappings.len() && ss.specifiers@[j] == (mappings[q].0, mappings[q].1)),
    ensures
        forall|p2: int|
            0 <= p2 < ss.specifiers@.len() ==> spec_has_entry(
                ss.packages@,
                (#[trigger] ss.specifiers@[p2]).1,
            ),
{
    assert forall|p2: int| 0 <= p2 < ss.specifiers@.len() implies spec_has_entry(
        ss.packages@,
        ss.specifiers@[p2].1,
    ) by {
        if p2 < specifiers_v0.len() && ss.specifiers@[p2] == specifiers_v0[p2] {
            assert(ss.specifiers@[p2].1 == specifiers_v0[p2].1);
            assert(spec_has_entry(packs0, specifiers_v0[p2].1));
            assert(spec_has_entry(packs0, ss.specifiers@[p2].1));
            let w = choose|w: int|
                0 <= w < packs0.len() && spec_same_id(packs0[w].id, ss.specifiers@[p2].1);
            assert(ss.packages@[w] == packs0[w]);
            assert(spec_same_id(ss.packages@[w].id, ss.specifiers@[p2].1));
        } else {
            let q = choose|q: int|
                0 <= q < mappings.len() && ss.specifiers@[p2] == (mappings[q].0, mappings[q].1);
            let id = mappings[q].1;
            assert(roots[q] == id);
            assert(spec_has_entry(cands, id));
            assert(spec_has_marked(cands, marks, id));
            let w = choose|w: int|
                0 <= w < cands.len() && w < marks.len() && marks[w] && spec_same_id(
                    cands[w].id,
                    id,
                );
            if w < basex {
                assert(spec_entry_like(cands[w], packs0[w]));
                assert(ss.packages@[w] == packs0[w]);
                assert(spec_same_id(ss.packages@[w].id, id));
            } else {
                let a2 = choose|a2: int|
                    0 <= a2 < appended0.len() && spec_entry_like(appended0[a2], cands[w]);
                assert(ss.packages@[packs0.len() + a2] == appended0[a2]);
                assert(spec_same_id(ss.packages@[packs0.len() + a2].id, id));
            }
        }
    }
}

/// Every root target was obtained: the assembled snapshot records an
/// entry for it that is cached under its pinned integrity or covered
/// by a planned download recording exactly that integrity.
#[verifier::rlimit(60)]
proof fn lemma_assembled_obtained(
    roots: Seq<PackageIdentity>,
    cands: Seq<PackageSnapshotEntry>,
    marks: Seq<bool>,
    cache: PackageCacheStore,
    downloads: Seq<CacheEntry>,
    packs0: Seq<PackageSnapshotEntry>,
    appended0: Seq<PackageSnapshotEntry>,
    basex: int,
    ss: LockfileSnapshot,
)
    requires
        marks.len() == cands.len(),
        0 <= basex <= cands.len(),
        packs0.len() == basex,
        forall|k: int| 0 <= k < basex ==> spec_entry_like(cands[k], packs0[k]),
        forall|q: int| 0 <= q < roots.len() ==> spec_has_entry(cands, roots[q]),
        forall|q: int|
            0 <= q < roots.len() && spec_has_entry(cands, roots[q]) ==> spec_has_marked(
                cands,
                marks,
                roots[q],
            ),
        forall|k: int|
            0 <= k < cands.len() && marks[k] ==> spec_obtained(
                cache,
                downloads,
                #[trigger] cands[k],
            ),
        forall|q: int|
            basex <= q < cands.len() && marks[q] ==> exists|a: int|
                0 <= a < appended0.len() && spec_entry_like(#[trigger] appended0[a], cands[q]),
        ss.packages@ == packs0 + appended0,
    ensures
        forall|q: int|
            0 <= q < roots.len() ==> spec_target_obtained(ss, cache, downloads, #[trigger] roots[q]),
{
    reveal(spec_obtained);
    reveal(spec_target_obtained);
    assert forall|q: int| 0 <= q < roots.len() implies spec_target_obtained(
        ss,
        cache,
        downloads,
        roots[q],
    ) by {
        let id = roots[q];
        assert(spec_has_entry(cands, id));
        assert(spec_has_marked(cands, marks, id));
        let w = choose|w: int|
            0 <= w < cands.len() && w < marks.len() && marks[w] && spec_same_id(cands[w].id, id);
        assert(spec_obtained(cache, downloads, cands[w]));
        let wi: int = if w < basex {
            w
        } else {
            let a2 = choose|a2: int|
                0 <= a2 < appended0.len() && spec_entry_like(appended0[a2], cands[w]);
            packs0.len() + a2
        };
        assert(spec_entry_like(cands[w], ss.packages@[wi]) || spec_entry_like(
            ss.packages@[wi],
            cands[w],
        )) by {
            if w < basex {
                assert(ss.packages@[wi] == packs0[w]);
            } else {
                let a2 = choose|a2: int|
                    0 <= a2 < appended0.len() && spec_entry_like(appended0[a2], cands[w]);
                assert(ss.packages@[packs0.len() + a2] == appended0[a2]);
            }
        }
        assert(spec_same_id(ss.packages@[wi].id, id));
        assert(ss.packages@[wi].integrity@ == cands[w].integrity@);
        if spec_cache_hit(cache.entries@, cands[w].id, cands[w].integrity@) {
            let e = choose|e: int|
                0 <= e < cache.entries@.len() && spec_same_id(
                    cache.entries@[e].id,
                    cands[w].id,
                ) && cache.entries@[e].integrity@ == cands[w].integrity@
                    && cache.entries@[e].content_hash@ == cache.entries@[e].integrity@;
            assert(spec_same_id(cache.entries@[e].id, ss.packages@[wi].id));
            assert(spec_cache_hit(
                cache.entries@,
                ss.packages@[wi].id,
                ss.packages@[wi].integrity@,
            ));
        } else {
            let a = choose|a: int|
                0 <= a < downloads.len() && spec_same_id(
                    #[trigger] downloads[a].id,
                    cands[w].id,
                ) && downloads[a].integrity@ == cands[w].integrity@;
            assert(spec_same_id(downloads[a].id, ss.packages@[wi].id));
        }
    }
}

/// When every recorded package is cached, so is every candidate of
/// the snapshot prefix.
proof fn lemma_prefix_cached(
    snap: LockfileSnapshot,
    cands: Seq<PackageSnapshotEntry>,
    cache: PackageCacheStore,
    basex: int,
)
    requires
        0 <= basex <= cands.len(),
        basex == snap.packages@.len(),
        forall|k: int| 0 <= k < basex ==> spec_entry_like(cands[k], snap.packages@[k]),
        spec_all_entries_cached(snap, cache),
    ensures
        forall|k: int|
            0 <= k < basex ==> spec_cache_hit(
                cache.entries@,
                (#[trigger] cands[k]).id,
                cands[k].integrity@,
            ),
{
    assert forall|k: int| 0 <= k < basex implies spec_cache_hit(
        cache.entries@,
        cands[k].id,
        cands[k].integrity@,
    ) by {
        assert(spec_entry_like(cands[k], snap.packages@[k]));
        assert(spec_cache_hit(
            cache.entries@,
            snap.packages@[k].id,
            snap.packages@[k].integrity@,
        ));
        let e = choose|e: int|
            0 <= e < cache.entries@.len() && spec_same_id(
                cache.entries@[e].id,
                snap.packages@[k].id,
            ) && cache.entries@[e].integrity@ == snap.packages@[k].integrity@
                && cache.entries@[e].content_hash@ == cache.entries@[e].integrity@;
        assert(spec_same_id(cache.entries@[e].id, cands[k].id));
    }
}

/// Against a findable and honest registry with every recorded package
/// obtainable, every candidate is obtainable too: snapshot candidates
/// by transfer, registry candidates by their own coordinates.
proof fn lemma_candidates_fetchable(
    snap_base: LockfileSnapshot,
    reg: RegistryData,
    cache: PackageCacheStore,
    cands: Seq<PackageSnapshotEntry>,
    basex: int,
)
    requires
        0 <= basex <= cands.len(),
        basex == snap_base.packages@.len(),
        forall|k: int| 0 <= k < basex ==> spec_entry_like(cands[k], snap_base.packages@[k]),
        spec_snapshot_fetchable(snap_base, reg, cache),
        forall|k: int| basex <= k < cands.len() ==> spec_from_registry(reg, #[trigger] cands[k]),
        spec_registry_wf(reg),
        spec_registry_honest(reg),
    ensures
        forall|k: int| 0 <= k < cands.len() ==> spec_entry_fetchable(#[trigger] cands[k], reg, cache),
{
    reveal(spec_snapshot_fetchable);
    reveal(spec_entry_fetchable);
    reveal(spec_from_registry);
    reveal(spec_registry_wf);
    reveal(spec_registry_honest);
    assert forall|k: int| 0 <= k < cands.len() implies spec_entry_fetchable(
        #[trigger] cands[k],
        reg,
        cache,
    ) by {
        if k < basex {
            assert(spec_entry_like(cands[k], snap_base.packages@[k]));
            assert(spec_entry_fetchable(snap_base.packages@[k], reg, cache));
            if spec_cache_hit(
                cache.entries@,
                snap_base.packages@[k].id,
                snap_base.packages@[k].integrity@,
            ) {
                let e = choose|e: int|
                    0 <= e < cache.entries@.len() && spec_same_id(
                        cache.entries@[e].id,
                        snap_base.packages@[k].id,
                    ) && cache.entries@[e].integrity@ == snap_base.packages@[k].integrity@
                        && cache.entries@[e].content_hash@ == cache.entries@[e].integrity@;
                assert(spec_same_id(cache.entries@[e].id, cands[k].id));
                assert(spec_cache_hit(cache.entries@, cands[k].id, cands[k].integrity@));
            }
        } else {
            assert(spec_from_registry(reg, cands[k]));
            let (pi, vi) = choose|pi: int, vi: int|
                0 <= pi < reg.packages@.len() && 0 <= vi < reg.packages@[pi].versions@.len()
                    && cands[k].id.name@ == reg.packages@[pi].name@ && cands[k].id.version == (
                #[trigger] reg.packages@[pi].versions@[vi]).version && cands[k].integrity@
                    == reg.packages@[pi].versions@[vi].integrity@;
            assert(spec_find_package(reg.packages@, reg.packages@[pi].name@) == Some(
                reg.packages@[pi],
            ));
            assert(crate::registry::spec_find_version(
                reg.packages@[pi].versions@,
                reg.packages@[pi].versions@[vi].version,
            ) == Some(reg.packages@[pi].versions@[vi]));
            assert(reg.packages@[pi].versions@[vi].tarball_hash@ == reg.packages@[
                pi
            ].versions@[vi].integrity@);
        }
    }
}

/// Every requested specifier's recorded mapping follows the choice
/// rule, and its target was obtained: kept keys keep their recorded
/// identities through the merge, new keys land on a fresh pick whose
/// root was secured.
#[verifier::rlimit(60)]
proof fn lemma_requested_mappings(
    specs: Seq<String>,
    snap0: LockfileSnapshot,
    snap_base: LockfileSnapshot,
    mode: ResolveMode,
    reload: bool,
    reg: RegistryData,
    cache: PackageCacheStore,
    mappings: Seq<(String, PackageIdentity)>,
    roots: Seq<PackageIdentity>,
    specifiers_v0: Seq<(String, PackageIdentity)>,
    downloads0: Seq<CacheEntry>,
    snapshot: LockfileSnapshot,
)
    requires
        mappings.len() == specs.len(),
        roots.len() == mappings.len(),
        forall|q: int| 0 <= q < roots.len() ==> roots[q] == mappings[q].1,
        forall|q: int|
            0 <= q < specs.len() ==> #[trigger] spec_mapping_ok(
                specs[q],
                snap_base,
                reload,
                reg,
                mappings[q],
            ),
        reload == (mode == ResolveMode::Reload),
        !reload ==> snap_base.specifiers@ == snap0.specifiers@,
        reload ==> snap_base.specifiers@.len() == 0,
        !reload ==> specifiers_v0 == snap0.specifiers@,
        reload ==> specifiers_v0.len() == 0,
        forall|key: Seq<char>|
            #[trigger] spec_find_specifier(specifiers_v0, key) is Some ==> spec_find_specifier(
                snapshot.specifiers@,
                key,
            ) == spec_find_specifier(specifiers_v0, key),
        forall|q: int|
            0 <= q < mappings.len() && spec_find_specifier(
                specifiers_v0,
                #[trigger] mappings[q].0@,
            ) is None ==> exists|q0: int|
                0 <= q0 < mappings.len() && mappings[q0].0@ == mappings[q].0@
                    && spec_find_specifier(snapshot.specifiers@, mappings[q].0@) == Some(
                    mappings[q0].1,
                ),
        forall|q: int|
            0 <= q < roots.len() ==> spec_target_obtained(
                snapshot,
                cache,
                downloads0,
                #[trigger] roots[q],
            ),
    ensures
        forall|i: int|
            0 <= i < specs.len() ==> spec_requested_mapping_ok(
                #[trigger] specs[i],
                snap0,
                mode,
                reg,
                snapshot,
            ),
        forall|i: int|
            0 <= i < specs.len() ==> match spec_find_specifier(
                snapshot.specifiers@,
                spec_strip_npm(#[trigger] specs[i]@),
            ) {
                Some(v) => spec_target_obtained(snapshot, cache, downloads0, v),
                None => false,
            },
{
    reveal(spec_requested_mapping_ok);
    assert forall|i: int| 0 <= i < specs.len() implies spec_requested_mapping_ok(
        #[trigger] specs[i],
        snap0,
        mode,
        reg,
        snapshot,
    ) && (match spec_find_specifier(snapshot.specifiers@, spec_strip_npm(specs[i]@)) {
        Some(v) => spec_target_obtained(snapshot, cache, downloads0, v),
        None => false,
    }) by {
        assert(spec_mapping_ok(specs[i], snap_base, reload, reg, mappings[i]));
        let key = spec_strip_npm(specs[i]@);
        assert(mappings[i].0@ == key);
        if !reload && spec_find_specifier(snap_base.specifiers@, key) is Some {
            assert(spec_find_specifier(specifiers_v0, key) == spec_find_specifier(
                snap0.specifiers@,
                key,
            ));
            assert(spec_find_specifier(snapshot.specifiers@, key) == spec_find_specifier(
                specifiers_v0,
                key,
            ));
            assert(mappings[i].1 == spec_find_specifier(snap0.specifiers@, key).unwrap());
            assert(roots[i] == mappings[i].1);
            assert(spec_target_obtained(snapshot, cache, downloads0, roots[i]));
        } else {
            if reload {
                assert(spec_find_specifier(specifiers_v0, key) is None);
            } else {
                assert(spec_find_specifier(specifiers_v0, key) == spec_find_specifier(
                    snap0.specifiers@,
                    key,
                ));
            }
            assert(spec_find_specifier(specifiers_v0, mappings[i].0@) is None);
            let q0 = choose|q0: int|
                0 <= q0 < mappings.len() && mappings[q0].0@ == mappings[i].0@
                    && spec_find_specifier(snapshot.specifiers@, mappings[i].0@) == Some(
                    mappings[q0].1,
                );
            assert(spec_mapping_ok(specs[q0], snap_base, reload, reg, mappings[q0]));
            assert(spec_strip_npm(specs[q0]@) == key);
            assert(spec_parse_specifier(specs[q0]@) == spec_parse_specifier(specs[i]@));
            assert(roots[q0] == mappings[q0].1);
            assert(spec_target_obtained(snapshot, cache, downloads0, roots[q0]));
        }
    }
}

/// Resolves the requested specifiers against the snapshot, the cache
/// and the registry metadata, producing one consistent snapshot.
///
/// Recorded mappings and entries take precedence unless reloading, so
/// an already-satisfied snapshot passes through entirely unchanged:
/// re-serializing it reproduces the lockfile byte for byte. A corrupt
/// input snapshot is always refused; a resolvable input always
/// succeeds; success records the registry's own pick for every fresh
/// mapping, verifies every planned download against the registry's
/// served hash, and leaves every requested target either cached under
/// its pinned integrity or covered by such a download. Under
/// cached-only mode the registry argument is never consulted: the work
/// is delegated to `resolve_cached_only`, which cannot name it.
#[verifier::rlimit(100)]
pub fn resolve(
    specs: &Vec<String>,
    snap: LockfileSnapshot,
    mode: ResolveMode,
    cache: &PackageCacheStore,
    registry: &RegistryData,
    os: &String,
) -> (r: Result<ResolveOutcome, ResolveError>)
    ensures
        r is Ok ==> spec_snapshot_consistent(r->Ok_0.snapshot) && spec_all_mapped(
            specs@,
            r->Ok_0.snapshot,
        ),
        (mode == ResolveMode::Default && spec_fully_satisfied(specs@, snap, *cache)) ==> (r is Ok
            && r->Ok_0.snapshot == snap && r->Ok_0.new_cache_entries@.len() == 0),
        mode == ResolveMode::CachedOnly && r is Ok ==> r->Ok_0.snapshot == snap
            && r->Ok_0.new_cache_entries@.len() == 0,
        mode == ResolveMode::Default && r is Ok ==> r->Ok_0.snapshot.packages@.len()
            >= snap.packages@.len() && (forall|k: int|
            0 <= k < snap.packages@.len() ==> r->Ok_0.snapshot.packages@[k]
                == snap.packages@[k]) && r->Ok_0.snapshot.specifiers@.len()
            >= snap.specifiers@.len() && (forall|k: int|
            0 <= k < snap.specifiers@.len() ==> r->Ok_0.snapshot.specifiers@[k]
                == snap.specifiers@[k]),
        !spec_snapshot_consistent(snap) ==> r is Err && r->Err_0 is CorruptLockfile,
        (mode != ResolveMode::CachedOnly && spec_resolvable(specs@, snap, *registry, *cache))
            ==> r is Ok,
        (mode != ResolveMode::CachedOnly && (exists|i: int|
            0 <= i < specs@.len() && (match spec_parse_specifier(#[trigger] specs@[i]@) {
                None => true,
                Some((n, req)) => spec_registry_select(*registry, n, req) is None,
            }) && (mode == ResolveMode::Reload || spec_find_specifier(
                snap.specifiers@,
                spec_strip_npm(specs@[i]@),
            ) is None))) ==> r is Err,
        mode != ResolveMode::CachedOnly && r is Ok ==> forall|i: int|
            0 <= i < specs@.len() ==> spec_requested_mapping_ok(
                #[trigger] specs@[i],
                snap,
                mode,
                *registry,
                r->Ok_0.snapshot,
            ),
        r is Ok ==> forall|a: int|
            0 <= a < r->Ok_0.new_cache_entries@.len() ==> spec_download_ok(
                *registry,
                #[trigger] r->Ok_0.new_cache_entries@[a],
            ),
        mode != ResolveMode::CachedOnly && r is Ok ==> forall|i: int|
            0 <= i < specs@.len() ==> match spec_find_specifier(
                r->Ok_0.snapshot.specifiers@,
                spec_strip_npm(#[trigger] specs@[i]@),
            ) {
                Some(v) => spec_target_obtained(
                    r->Ok_0.snapshot,
                    *cache,
                    r->Ok_0.new_cache_entries@,
                    v,
                ),
                None => false,
            },
        match r {
            Ok(_) => true,
            Err(e) => match e {
                ResolveError::CorruptLockfile { id_text } => !spec_snapshot_consistent(snap),
                ResolveError::NotFoundInCache { text } => mode == ResolveMode::CachedOnly && ((
                exists|i: int|
                    0 <= i < specs@.len() && text@ == specs@[i]@ && spec_find_specifier(
                        snap.specifiers@,
                        spec_strip_npm(specs@[i]@),
                    ) is None) || (exists|k: int|
                    0 <= k < snap.packages@.len() && text@ == spec_identity_text(
                        snap.packages@[k].id,
                    ) && !spec_cache_hit(
                        cache.entries@,
                        snap.packages@[k].id,
                        snap.packages@[k].integrity@,
                    ))),
                ResolveError::IntegrityMismatch { id_text } => mode != ResolveMode::CachedOnly && (
                exists|id: PackageIdentity, integ: Seq<char>|
                    id_text@ == spec_identity_text(id) && !spec_cache_hit(
                        cache.entries@,
                        id,
                        integ,
                    ) && (match spec_find_package(registry.packages@, id.name@) {
                        Some(p) => match crate::registry::spec_find_version(
                            p.versions@,
                            id.version,
                        ) {
                            Some(rv) => rv.tarball_hash@ != integ,
                            None => false,
                        },
                        None => false,
                    })),
                ResolveError::NotFoundInRegistry { text } => mode != ResolveMode::CachedOnly && ((
                exists|i: int| 0 <= i < specs@.len() && text@ == specs@[i]@ && (match
                    spec_parse_specifier(specs@[i]@) {
                    None => true,
                    Some((n, req)) => spec_registry_select(*registry, n, req) is None,
                })) || (exists|n: Seq<char>, req: VersionReq|
                    text@ == n + seq!['@'] + spec_req_text(req) && spec_registry_select(
                        *registry,
                        n,
                        req,
                    ) is None) || (exists|id: PackageIdentity|
                    text@ == spec_identity_text(id) && (match spec_find_package(
                        registry.packages@,
                        id.name@,
                    ) {
                        None => true,
                        Some(p) => crate::registry::spec_find_version(
                            p.versions@,
                            id.version,
                        ) is None,
                    }))),
            },
        },
{
    if mode == ResolveMode::CachedOnly {
        return match resolve_cached_only(specs, &snap, cache) {
            Ok(()) => Ok(
                ResolveOutcome {
                    snapshot: snap,
                    new_cache_entries: Vec::new(),
                    skipped_optional: Vec::new(),
                },
            ),
            Err(e) => Err(e),
        };
    }
    let reload = mode == ResolveMode::Reload;
    if let Err(t) = snap.validate() {
        proof {
            reveal(spec_resolvable);
        }
        return Err(ResolveError::CorruptLockfile { id_text: t });
    }
    let empty_snap = LockfileSnapshot::new_empty();
    let snap_base: &LockfileSnapshot = if reload {
        &empty_snap
    } else {
        &snap
    };
    let mappings = match resolve_mappings(specs, snap_base, reload, registry) {
        Ok(m) => m,
        Err(e) => {
            proof {
                if let ResolveError::NotFoundInRegistry { text } = &e {
                    let i = choose|i: int|
                        0 <= i < specs@.len() && text@ == specs@[i]@ && (reload
                            || spec_find_specifier(
                            snap_base.specifiers@,
                            spec_strip_npm(specs@[i]@),
                        ) is None) && (match spec_parse_specifier(specs@[i]@) {
                            None => true,
                            Some((n, req)) => spec_registry_select(*registry, n, req) is None,
                        });
                    assert(0 <= i < specs@.len() && text@ == specs@[i]@ && (match
                        spec_parse_specifier(specs@[i]@) {
                        None => true,
                        Some((n, req)) => spec_registry_select(*registry, n, req) is None,
                    }));
                    if spec_resolvable(specs@, snap, *registry, *cache) {
                        reveal(spec_resolvable);
                        assert(match spec_parse_specifier(specs@[i]@) {
                            Some((n, req)) => spec_registry_select(*registry, n, req) is Some,
                            None => false,
                        });
                        assert(false);
                    }
                    if mode == ResolveMode::Default && spec_fully_satisfied(
                        specs@,
                        snap,
                        *cache,
                    ) {
                        assert(spec_find_specifier(
                            snap.specifiers@,
                            spec_strip_npm(specs@[i]@),
                        ) is Some);
                        assert(false);
                    }
                }
            }
            return Err(e);
        },
    };
    let (cands, metas) = build_candidates(snap_base, registry, os);
    let basex = snap_base.packages.len();
    let ghost base = basex as int;
    let mut roots: Vec<PackageIdentity> = Vec::new();
    let mut ri: usize = 0;
    while ri < mappings.len()
        invariant
            ri <= mappings@.len(),
            roots@.len() == ri,
            forall|q: int| 0 <= q < ri ==> roots@[q] == mappings@[q].1,
        decreases mappings@.len() - ri,
    {
        roots.push(mappings[ri].1.clone());
        ri = ri + 1;
    }
    let ghost fully = mode == ResolveMode::Default && spec_fully_satisfied(specs@, snap, *cache);
    let ghost resolvable = spec_resolvable(specs@, snap, *registry, *cache);
    proof {
        lemma_roots_have_candidates(
            specs@,
            *snap_base,
            reload,
            *registry,
            mappings@,
            roots@,
            cands@,
        );
        if fully {
            lemma_roots_in_prefix(specs@, *snap_base, *registry, mappings@, roots@, cands@);
        }
    }
    let marks = compute_needed_marks(&cands, &roots, Ghost(base));
    proof {
        if fully {
            assert(spec_marks_below(marks@, base));
            lemma_prefix_cached(snap, cands@, *cache, base);
        }
        if resolvable {
            // every candidate is obtainable and none is broken, so the
            // walk below cannot fail
            reveal(spec_resolvable);
            assert(spec_snapshot_fetchable(*snap_base, *registry, *cache)) by {
                reveal(spec_resolvable);
                reveal(spec_snapshot_fetchable);
                if !reload {
                    assert forall|k2: int|
                        0 <= k2 < snap_base.packages@.len() implies spec_entry_fetchable(
                        #[trigger] snap_base.packages@[k2],
                        *registry,
                        *cache,
                    ) by {
                        assert(spec_entry_fetchable(snap.packages@[k2], *registry, *cache));
                    }
                }
            }
            lemma_candidates_fetchable(*snap_base, *registry, *cache, cands@, base);
            assert forall|k2: int| 0 <= k2 < metas@.len() implies (
            #[trigger] metas@[k2].broken_dep) is None by {}
        }
    }
    let mut appended: Vec<PackageSnapshotEntry> = Vec::new();
    let mut downloads: Vec<CacheEntry> = Vec::new();
    let mut skipped_all: Vec<String> = Vec::new();
    let mut sources: Ghost<Seq<int>> = Ghost(Seq::empty());
    let collected = collect_needed(
        &cands,
        &metas,
        &marks,
        cache,
        registry,
        basex,
        &mut appended,
        &mut downloads,
        &mut skipped_all,
        &mut sources,
    );
    if let Err(e) = collected {
        proof {
            if fully {
                assert(false);
            }
            if resolvable {
                assert(false);
            }
        }
        return Err(e);
    }
    let ghost srcs = sources@;
    proof {
        if fully {
            assert(appended@.len() == 0 && downloads@.len() == 0);
        }
    }
    proof {
        // An unsatisfiable fresh requirement cannot have produced a
        // mapping, so none was requested.
        if exists|i: int|
            0 <= i < specs@.len() && (match spec_parse_specifier(#[trigger] specs@[i]@) {
                None => true,
                Some((n, req)) => spec_registry_select(*registry, n, req) is None,
            }) && (mode == ResolveMode::Reload || spec_find_specifier(
                snap.specifiers@,
                spec_strip_npm(specs@[i]@),
            ) is None) {
            let i = choose|i: int|
                0 <= i < specs@.len() && (match spec_parse_specifier(#[trigger] specs@[i]@) {
                    None => true,
                    Some((n, req)) => spec_registry_select(*registry, n, req) is None,
                }) && (mode == ResolveMode::Reload || spec_find_specifier(
                    snap.specifiers@,
                    spec_strip_npm(specs@[i]@),
                ) is None);
            assert(spec_mapping_ok(specs@[i], *snap_base, reload, *registry, mappings@[i]));
            assert(false);
        }
    }
    let outcome = assemble_outcome(
        specs,
        snap,
        Ghost(*snap_base),
        mode,
        reload,
        cache,
        registry,
        mappings,
        Ghost(roots@),
        Ghost(cands@),
        Ghost(marks@),
        Ghost(base),
        Ghost(fully),
        Ghost(srcs),
        appended,
        downloads,
        skipped_all,
    );
    Ok(outcome)
}

/// Assembles the final snapshot from the kept snapshot, the appended
/// entries and the freshly resolved mappings, carrying the proofs of
/// consistency, coverage, choice-rule conformance and obtainment.
#[verifier::rlimit(100)]
#[allow(unused_variables)]
fn assemble_outcome(
    specs: &Vec<String>,
    snap: LockfileSnapshot,
    Ghost(snap_base): Ghost<LockfileSnapshot>,
    mode: ResolveMode,
    reload: bool,
    cache: &PackageCacheStore,
    registry: &RegistryData,
    mappings: Vec<(String, PackageIdentity)>,
    Ghost(roots): Ghost<Seq<PackageIdentity>>,
    Ghost(cands): Ghost<Seq<PackageSnapshotEntry>>,
    Ghost(marks): Ghost<Seq<bool>>,
    Ghost(base): Ghost<int>,
    Ghost(fully): Ghost<bool>,
    Ghost(srcs): Ghost<Seq<int>>,
    mut appended: Vec<PackageSnapshotEntry>,
    downloads: Vec<CacheEntry>,
    skipped_all: Vec<String>,
) -> (o: ResolveOutcome)
    requires
        spec_snapshot_consistent(snap),
        reload == (mode == ResolveMode::Reload),
        mode != ResolveMode::CachedOnly,
        !reload ==> snap_base == snap,
        reload ==> snap_base.specifiers@.len() == 0 && snap_base.packages@.len() == 0,
        mappings@.len() == specs@.len(),
        roots.len() == mappings@.len(),
        forall|q: int| 0 <= q < roots.len() ==> roots[q] == mappings@[q].1,
        forall|q: int|
            0 <= q < specs@.len() ==> #[trigger] spec_mapping_ok(
                specs@[q],
                snap_base,
                reload,
                *registry,
                mappings@[q],
            ),
        marks.len() == cands.len(),
        0 <= base <= cands.len(),
        base == snap_base.packages@.len(),
        forall|k: int| 0 <= k < base ==> spec_entry_like(cands[k], snap_base.packages@[k]),
        spec_marks_closed(cands, marks),
        forall|q: int| 0 <= q < roots.len() ==> spec_has_entry(cands, roots[q]),
        forall|q: int|
            0 <= q < roots.len() && spec_has_entry(cands, roots[q]) ==> spec_has_marked(
                cands,
                marks,
                roots[q],
            ),
        forall|k: int, j: int|
            base <= k < cands.len() && 0 <= j < cands[k].dependencies@.len() ==> spec_has_entry(
                cands,
                #[trigger] cands[k].dependencies@[j].1,
            ),
        spec_prefix_closed(cands, base),
        forall|k: int|
            0 <= k < cands.len() && marks[k] ==> spec_obtained(
                *cache,
                downloads@,
                #[trigger] cands[k],
            ),
        forall|q: int|
            base <= q < cands.len() && marks[q] ==> exists|a: int|
                0 <= a < appended@.len() && spec_entry_like(#[trigger] appended@[a], cands[q]),
        srcs.len() == appended@.len(),
        forall|a: int|
            0 <= a < appended@.len() ==> base <= #[trigger] srcs[a] < cands.len()
                && marks[srcs[a]] && spec_entry_like(appended@[a], cands[srcs[a]]),
        forall|a: int|
            0 <= a < downloads@.len() ==> spec_download_ok(*registry, #[trigger] downloads@[a]),
        fully ==> mode == ResolveMode::Default && spec_fully_satisfied(specs@, snap, *cache),
        fully ==> appended@.len() == 0 && downloads@.len() == 0,
    ensures
        spec_snapshot_consistent(o.snapshot),
        spec_all_mapped(specs@, o.snapshot),
        o.new_cache_entries == downloads,
        fully ==> o.snapshot == snap && o.new_cache_entries@.len() == 0,
        mode == ResolveMode::Default ==> o.snapshot.packages@.len() >= snap.packages@.len() && (
        forall|k: int|
            0 <= k < snap.packages@.len() ==> o.snapshot.packages@[k] == snap.packages@[k])
            && o.snapshot.specifiers@.len() >= snap.specifiers@.len() && (forall|k: int|
            0 <= k < snap.specifiers@.len() ==> o.snapshot.specifiers@[k]
                == snap.specifiers@[k]),
        forall|i: int|
            0 <= i < specs@.len() ==> spec_requested_mapping_ok(
                #[trigger] specs@[i],
                snap,
                mode,
                *registry,
                o.snapshot,
            ),
        forall|i: int|
            0 <= i < specs@.len() ==> match spec_find_specifier(
                o.snapshot.specifiers@,
                spec_strip_npm(#[trigger] specs@[i]@),
            ) {
                Some(v) => spec_target_obtained(o.snapshot, *cache, o.new_cache_entries@, v),
                None => false,
            },
{
    let ghost snap0 = snap;
    let ghost appended0 = appended@;
    let ghost downloads0 = downloads@;
    let LockfileSnapshot { specifiers: old_specs, packages: old_packs } = snap;
    let mut packages = if reload {
        Vec::new()
    } else {
        old_packs
    };
    let ghost packs0 = packages@;
    let ghost packages_v0 = packages;
    if appended.len() > 0 {
        packages.append(&mut appended);
    }
    proof {
        assert(packages@ =~= packs0 + appended0);
        if fully {
            assert(packages == packages_v0);
        }
    }
    let specifiers0 = if reload {
        Vec::new()
    } else {
        old_specs
    };
    let ghost specifiers_v0 = specifiers0;
    let specifiers = merge_mappings(specifiers0, &mappings);
    proof {
        if fully {
            assert forall|q: int| 0 <= q < mappings@.len() implies spec_find_specifier(
                specifiers_v0@,
                #[trigger] mappings@[q].0@,
            ) is Some by {
                assert(spec_mapping_ok(specs@[q], snap_base, reload, *registry, mappings@[q]));
                assert(mappings@[q].0@ == spec_strip_npm(specs@[q]@));
                assert(spec_find_specifier(snap0.specifiers@, spec_strip_npm(specs@[q]@)) is Some);
            }
            assert(specifiers == specifiers_v0);
        }
    }
    let snapshot = LockfileSnapshot { specifiers, packages };
    proof {
        assert(packs0.len() == base);
        assert forall|k: int| 0 <= k < base implies spec_entry_like(cands[k], packs0[k]) by {
            assert(spec_entry_like(cands[k], snap_base.packages@[k]));
        }
        assert forall|i: int, j: int|
            0 <= i < packs0.len() && 0 <= j < packs0[i].dependencies@.len() implies spec_has_entry(
            packs0,
            #[trigger] packs0[i].dependencies@[j].1,
        ) by {
            assert(packs0[i] == snap0.packages@[i]);
            assert(spec_has_entry(snap0.packages@, snap0.packages@[i].dependencies@[j].1));
        }
        assert forall|p2: int| 0 <= p2 < specifiers_v0@.len() implies spec_has_entry(
            packs0,
            #[trigger] specifiers_v0@[p2].1,
        ) by {
            assert(specifiers_v0@[p2] == snap0.specifiers@[p2]);
            assert(spec_has_entry(snap0.packages@, snap0.specifiers@[p2].1));
        }
        lemma_assembled_consistent(cands, marks, packs0, appended0, srcs, base, snapshot.packages@);
        lemma_assembled_specifier_targets(
            mappings@,
            roots,
            cands,
            marks,
            packs0,
            appended0,
            specifiers_v0@,
            base,
            snapshot,
        );
        lemma_assembled_obtained(
            roots,
            cands,
            marks,
            *cache,
            downloads0,
            packs0,
            appended0,
            base,
            snapshot,
        );
        assert(spec_snapshot_consistent(snapshot));
        assert forall|i: int| 0 <= i < specs@.len() implies spec_find_specifier(
            snapshot.specifiers@,
            spec_strip_npm(#[trigger] specs@[i]@),
        ) is Some by {
            assert(spec_mapping_ok(specs@[i], snap_base, reload, *registry, mappings@[i]));
            assert(mappings@[i].0@ == spec_strip_npm(specs@[i]@));
            assert(spec_find_specifier(snapshot.specifiers@, mappings@[i].0@) is Some);
        }
        if fully {
            assert(snapshot == snap0);
        }
        lemma_requested_mappings(
            specs@,
            snap0,
            snap_base,
            mode,
            reload,
            *registry,
            *cache,
            mappings@,
            roots,
            specifiers_v0@,
            downloads0,
            snapshot,
        );
    }
    ResolveOutcome { snapshot, new_cache_entries: downloads, skipped_optional: skipped_all }
}



/// Splits packages with peer dependencies into copy instances, as
/// distinct peer-binding contexts require distinct folders.
///
/// The splitting predicate: a primary instance of a package that
/// declares peer dependencies gets one instance per distinct binding
/// among its direct dependents, where a dependent binds a peer name to
/// its own resolved dependency of that name (an unbound name keeps the
/// registry's default target). The first binding keeps the primary
/// identity; each further one gets the next copy index, rendered with
/// the `_k` suffix. Dependent edges are retargeted to their own
/// instance. A snapshot that already records copy instances for a
/// package is left alone, so re-running over a written lockfile is
/// stable. The rebuilt graph is checked for consistency; if the check
/// fails, the snapshot is returned untransformed rather than ever
/// handing back a dangling graph.
pub fn apply_peer_instances(snap: &LockfileSnapshot, registry: &RegistryData) -> (r:
    LockfileSnapshot)
    ensures
        spec_snapshot_consistent(*snap) ==> spec_snapshot_consistent(r),
        r.specifiers@.len() == snap.specifiers@.len(),
{
    let n = snap.packages.len();
    // Peer names each primary entry declares, from the registry.
    let mut peer_names: Vec<Vec<String>> = Vec::new();
    let mut c: usize = 0;
    while c < n
        invariant
            c <= n,
            n == snap.packages@.len(),
            peer_names@.len() == c,
        decreases n - c,
    {
        let e = &snap.packages[c];
        let mut names: Vec<String> = Vec::new();
        let mut already_instanced = false;
        let mut w: usize = 0;
        while w < n
            invariant
                w <= n,
                n == snap.packages@.len(),
                c < n,
            decreases n - w,
        {
            if snap.packages[w].id.name == e.id.name && snap.packages[w].id.version
                == e.id.version && snap.packages[w].id.copy_index != 0 {
                already_instanced = true;
            }
            w = w + 1;
        }
        if e.id.copy_index == 0 && !already_instanced {
            match registry.find_package(&e.id.name) {
                Some(p) => match p.find_version(&e.id.version) {
                    Some(rv) => {
                        let mut d: usize = 0;
                        while d < rv.dependencies.len()
                            invariant
                                d <= rv.dependencies@.len(),
                            decreases rv.dependencies@.len() - d,
                        {
                            if rv.dependencies[d].kind == DepKind::Peer {
                                names.push(rv.dependencies[d].name.clone());
                            }
                            d = d + 1;
                        }
                    },
                    None => {},
                },
                None => {},
            }
        }
        peer_names.push(names);
        c = c + 1;
    }
    // Distinct bindings per target, in first-seen dependent order.
    let mut binding_keys: Vec<Vec<String>> = Vec::new();
    let mut binding_maps: Vec<Vec<Vec<(String, PackageIdentity)>>> = Vec::new();
    let mut t: usize = 0;
    while t < n
        invariant
            t <= n,
            n == snap.packages@.len(),
            peer_names@.len() == n,
            binding_keys@.len() == t,
            binding_maps@.len() == t,
        decreases n - t,
    {
        let mut keys: Vec<String> = Vec::new();
        let mut maps: Vec<Vec<(String, PackageIdentity)>> = Vec::new();
        if peer_names[t].len() > 0 {
            let mut d: usize = 0;
            while d < n
                invariant
                    d <= n,
                    n == snap.packages@.len(),
                    peer_names@.len() == n,
                    t < n,
                    keys@.len() == maps@.len(),
                decreases n - d,
            {
                // does dependent d reference target t?
                let mut refers = false;
                let mut j: usize = 0;
                while j < snap.packages[d].dependencies.len()
                    invariant
                        j <= snap.packages@[d as int].dependencies@.len(),
                        d < n,
                        t < n,
                        n == snap.packages@.len(),
                    decreases snap.packages@[d as int].dependencies@.len() - j,
                {
                    if snap.packages[d].dependencies[j].1.same(&snap.packages[t].id) {
                        refers = true;
                    }
                    j = j + 1;
                }
                if refers {
                    let (binding, key) = binding_of(snap, d, &peer_names[t]);
                    let mut seen = false;
                    let mut q: usize = 0;
                    while q < keys.len()
                        invariant
                            q <= keys@.len(),
                            keys@.len() == maps@.len(),
                        decreases keys@.len() - q,
                    {
                        if keys[q] == key {
                            seen = true;
                        }
                        q = q + 1;
                    }
                    if !seen {
                        keys.push(key);
                        maps.push(binding);
                    }
                }
                d = d + 1;
            }
        }
        binding_keys.push(keys);
        binding_maps.push(maps);
        t = t + 1;
    }
    // Emit the rebuilt entries: instances for split targets, original
    // entries otherwise, all with retargeted edges.
    let mut out_packages: Vec<PackageSnapshotEntry> = Vec::new();
    let mut i: usize = 0;
    while i < n
        invariant
            i <= n,
            n == snap.packages@.len(),
            peer_names@.len() == n,
            binding_keys@.len() == n,
            binding_maps@.len() == n,
        decreases n - i,
    {
        if peer_names[i].len() > 0 && binding_keys[i].len() > 0 {
            let mut k: usize = 0;
            while k < binding_maps[i].len()
                invariant
                    k <= binding_maps@[i as int].len(),
                    i < n,
                    n == snap.packages@.len(),
                    peer_names@.len() == n,
                    binding_keys@.len() == n,
                    binding_maps@.len() == n,
                decreases binding_maps@[i as int].len() - k,
            {
                let base_entry = &snap.packages[i];
                let inst_id = PackageIdentity {
                    name: base_entry.id.name.clone(),
                    version: base_entry.id.version,
                    copy_index: k as u64,
                };
                let mut deps: Vec<(String, PackageIdentity)> = Vec::new();
                let mut j: usize = 0;
                while j < base_entry.dependencies.len()
                    invariant
                        j <= base_entry.dependencies@.len(),
                        i < n,
                        k < binding_maps@[i as int].len(),
                        n == snap.packages@.len(),
                        peer_names@.len() == n,
                        binding_keys@.len() == n,
                        binding_maps@.len() == n,
                    decreases base_entry.dependencies@.len() - j,
                {
                    let (dn, dt) = &base_entry.dependencies[j];
                    let mut target = dt.clone();
                    let bm = &binding_maps[i][k];
                    let mut o: usize = 0;
                    while o < bm.len()
                        invariant
                            o <= bm@.len(),
                        decreases bm@.len() - o,
                    {
                        if bm[o].0 == *dn {
                            target = bm[o].1.clone();
                        }
                        o = o + 1;
                    }
                    deps.push((dn.clone(), retarget(snap, &peer_names, &binding_keys, target, i)));
                    j = j + 1;
                }
                out_packages.push(
                    PackageSnapshotEntry {
                        id: inst_id,
                        integrity: base_entry.integrity.clone(),
                        dependencies: deps,
                    },
                );
                k = k + 1;
            }
        } else {
            let base_entry = &snap.packages[i];
            let mut deps: Vec<(String, PackageIdentity)> = Vec::new();
            let mut j: usize = 0;
            while j < base_entry.dependencies.len()
                invariant
                    j <= base_entry.dependencies@.len(),
                    i < n,
                    n == snap.packages@.len(),
                    peer_names@.len() == n,
                    binding_keys@.len() == n,
                decreases base_entry.dependencies@.len() - j,
            {
                let (dn, dt) = &base_entry.dependencies[j];
                deps.push((dn.clone(), retarget(snap, &peer_names, &binding_keys, dt.clone(), i)));
                j = j + 1;
            }
            out_packages.push(
                PackageSnapshotEntry {
                    id: base_entry.id.clone(),
                    integrity: base_entry.integrity.clone(),
                    dependencies: deps,
                },
            );
        }
        i = i + 1;
    }
    let mut spec_pairs: Vec<(String, PackageIdentity)> = Vec::new();
    let mut sp: usize = 0;
    while sp < snap.specifiers.len()
        invariant
            sp <= snap.specifiers@.len(),
            spec_pairs@.len() == sp,
        decreases snap.specifiers@.len() - sp,
    {
        let (sk, sv) = &snap.specifiers[sp];
        spec_pairs.push((sk.clone(), sv.clone()));
        sp = sp + 1;
    }
    let rebuilt = LockfileSnapshot { specifiers: spec_pairs, packages: out_packages };
    if rebuilt.validate().is_ok() {
        return rebuilt;
    }
    let fallback = snap.clone();
    proof {
        if spec_snapshot_consistent(*snap) {
            lemma_like_snapshot_consistent(*snap, fallback);
        }
    }
    fallback
}

/// Consistency carries over to a snapshot whose entries and specifier
/// targets match the original's pairwise by contents.
proof fn lemma_like_snapshot_consistent(a: LockfileSnapshot, b: LockfileSnapshot)
    requires
        spec_snapshot_consistent(a),
        b.packages@.len() == a.packages@.len(),
        forall|i: int| 0 <= i < a.packages@.len() ==> spec_entry_like(b.packages@[i], a.packages@[i]),
        b.specifiers@.len() == a.specifiers@.len(),
        forall|i: int|
            0 <= i < a.specifiers@.len() ==> b.specifiers@[i].0@ == a.specifiers@[i].0@
                && spec_same_id(#[trigger] b.specifiers@[i].1, a.specifiers@[i].1),
    ensures
        spec_snapshot_consistent(b),
{
    assert forall|i: int| 0 <= i < b.specifiers@.len() implies spec_has_entry(
        b.packages@,
        (#[trigger] b.specifiers@[i]).1,
    ) by {
        assert(spec_has_entry(a.packages@, a.specifiers@[i].1));
        let w = choose|w: int|
            0 <= w < a.packages@.len() && spec_same_id(a.packages@[w].id, a.specifiers@[i].1);
        assert(spec_entry_like(b.packages@[w], a.packages@[w]));
        assert(spec_same_id(b.packages@[w].id, b.specifiers@[i].1));
    }
    assert forall|i: int, j: int|
        0 <= i < b.packages@.len() && 0 <= j
            < b.packages@[i].dependencies@.len() implies spec_has_entry(
        b.packages@,
        b.packages@[i].dependencies@[j].1,
    ) by {
        assert(spec_entry_like(b.packages@[i], a.packages@[i]));
        assert(spec_same_id(b.packages@[i].dependencies@[j].1, a.packages@[i].dependencies@[j].1));
        assert(spec_has_entry(a.packages@, a.packages@[i].dependencies@[j].1));
        let w = choose|w: int|
            0 <= w < a.packages@.len() && spec_same_id(
                a.packages@[w].id,
                a.packages@[i].dependencies@[j].1,
            );
        assert(spec_entry_like(b.packages@[w], a.packages@[w]));
        assert(spec_same_id(b.packages@[w].id, b.packages@[i].dependencies@[j].1));
    }
}

/// The binding dependent `d` provides for a target's peer names: each
/// name the dependent itself resolves, plus a text key of the pairs
/// for deduplication.
fn binding_of(snap: &LockfileSnapshot, d: usize, names: &Vec<String>) -> (r: (
    Vec<(String, PackageIdentity)>,
    String,
))
    requires
        d < snap.packages@.len(),
{
    let mut binding: Vec<(String, PackageIdentity)> = Vec::new();
    let mut key = String::new();
    let mut p: usize = 0;
    while p < names.len()
        invariant
            p <= names@.len(),
            d < snap.packages@.len(),
        decreases names@.len() - p,
    {
        let mut j: usize = 0;
        while j < snap.packages[d].dependencies.len()
            invariant
                j <= snap.packages@[d as int].dependencies@.len(),
                d < snap.packages@.len(),
                p < names@.len(),
            decreases snap.packages@[d as int].dependencies@.len() - j,
        {
            if snap.packages[d].dependencies[j].0 == names[p] {
                let tgt = snap.packages[d].dependencies[j].1.clone();
                key.append(names[p].as_str());
                key.append("=");
                let idt = tgt.to_text();
                key.append(idt.as_str());
                key.append(";");
                binding.push((names[p].clone(), tgt));
            }
            j = j + 1;
        }
        p = p + 1;
    }
    (binding, key)
}

/// Retargets one dependency edge of dependent `dep_idx`: an edge into
/// a split package lands on the instance matching the dependent's own
/// binding.
fn retarget(
    snap: &LockfileSnapshot,
    peer_names: &Vec<Vec<String>>,
    binding_keys: &Vec<Vec<String>>,
    target: PackageIdentity,
    dep_idx: usize,
) -> (r: PackageIdentity)
    requires
        peer_names@.len() == snap.packages@.len(),
        binding_keys@.len() == snap.packages@.len(),
        dep_idx < snap.packages@.len(),
{
    if target.copy_index != 0 {
        return target;
    }
    let mut t: usize = 0;
    let n = snap.packages.len();
    while t < n
        invariant
            t <= n,
            n == snap.packages@.len(),
            peer_names@.len() == n,
            binding_keys@.len() == n,
            dep_idx < n,
        decreases n - t,
    {
        if snap.packages[t].id.same(&target) && peer_names[t].len() > 0
            && binding_keys[t].len() > 0 {
            let (_, key) = binding_of(snap, dep_idx, &peer_names[t]);
            let mut q: usize = 0;
            while q < binding_keys[t].len()
                invariant
                    q <= binding_keys@[t as int].len(),
                    t < n,
                    n == snap.packages@.len(),
                    binding_keys@.len() == n,
                decreases binding_keys@[t as int].len() - q,
            {
                if binding_keys[t][q] == key {
                    return PackageIdentity {
                        name: target.name,
                        version: target.version,
                        copy_index: q as u64,
                    };
                }
                q = q + 1;
            }
            return target;
        }
        t = t + 1;
    }
    target
}

} // verus!