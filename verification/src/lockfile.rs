//! The persisted lockfile snapshot: one authoritative record of the
//! resolved dependency graph.
//!
//! A snapshot maps specifier texts to resolved identities and identities
//! to per-package entries (integrity plus pinned dependencies). A
//! snapshot is consistent when every identity it references has an
//! entry; a snapshot that fails this is corrupt and resolution must
//! refuse it, naming the first missing identity.
//!
//! The serializer renders the snapshot into one canonical text, so that
//! re-serializing an unchanged snapshot reproduces the file byte for
//! byte.

use vstd::prelude::*;
use crate::semver::PackageIdentity;
use crate::semver::spec_identity_text;
use crate::semver::spec_same_id;

verus! {

/// One resolved package: its identity, the content hash the registry
/// advertised for it, and its pinned direct dependencies (dependency
/// name to identity).
#[derive(Debug)]
pub struct PackageSnapshotEntry {
    pub id: PackageIdentity,
    pub integrity: String,
    pub dependencies: Vec<(String, PackageIdentity)>,
}

impl Clone for PackageSnapshotEntry {
    fn clone(&self) -> (r: Self)
        ensures
            spec_same_id(r.id, self.id),
            r.integrity@ == self.integrity@,
            r.dependencies@.len() == self.dependencies@.len(),
            forall|i: int|
                0 <= i < self.dependencies@.len() ==> r.dependencies@[i].0@
                    == self.dependencies@[i].0@ && spec_same_id(
                    r.dependencies@[i].1,
                    self.dependencies@[i].1,
                ),
    {
        let mut deps: Vec<(String, PackageIdentity)> = Vec::new();
        let mut i: usize = 0;
        while i < self.dependencies.len()
            invariant
                i <= self.dependencies@.len(),
                deps@.len() == i,
                forall|j: int|
                    0 <= j < i ==> deps@[j].0@ == self.dependencies@[j].0@ && spec_same_id(
                        deps@[j].1,
                        self.dependencies@[j].1,
                    ),
            decreases self.dependencies@.len() - i,
        {
            let (n, id) = &self.dependencies[i];
            deps.push((n.clone(), id.clone()));
            i = i + 1;
        }
        PackageSnapshotEntry {
            id: self.id.clone(),
            integrity: self.integrity.clone(),
            dependencies: deps,
        }
    }
}

/// The whole lockfile snapshot: specifier-to-identity mappings and the
/// package entries they refer to.
#[derive(Debug)]
pub struct LockfileSnapshot {
    pub specifiers: Vec<(String, PackageIdentity)>,
    pub packages: Vec<PackageSnapshotEntry>,
}

impl Clone for LockfileSnapshot {
    fn clone(&self) -> (r: Self)
        ensures
            r.specifiers@.len() == self.specifiers@.len(),
            forall|i: int|
                0 <= i < self.specifiers@.len() ==> r.specifiers@[i].0@
                    == self.specifiers@[i].0@ && spec_same_id(
                    r.specifiers@[i].1,
                    self.specifiers@[i].1,
                ),
            r.packages@.len() == self.packages@.len(),
            forall|i: int|
                0 <= i < self.packages@.len() ==> spec_entry_like(
                    r.packages@[i],
                    self.packages@[i],
                ),
    {
        let mut specifiers: Vec<(String, PackageIdentity)> = Vec::new();
        let mut i: usize = 0;
        while i < self.specifiers.len()
            invariant
                i <= self.specifiers@.len(),
                specifiers@.len() == i,
                forall|j: int|
                    0 <= j < i ==> specifiers@[j].0@ == self.specifiers@[j].0@ && spec_same_id(
                        specifiers@[j].1,
                        self.specifiers@[j].1,
                    ),
            decreases self.specifiers@.len() - i,
        {
            let (n, id) = &self.specifiers[i];
            specifiers.push((n.clone(), id.clone()));
            i = i + 1;
        }
        let mut packages: Vec<PackageSnapshotEntry> = Vec::new();
        let mut k: usize = 0;
        while k < self.packages.len()
            invariant
                k <= self.packages@.len(),
                packages@.len() == k,
                forall|j: int| 0 <= j < k ==> spec_entry_like(packages@[j], self.packages@[j]),
            decreases self.packages@.len() - k,
        {
            packages.push(self.packages[k].clone());
            k = k + 1;
        }
        LockfileSnapshot { specifiers, packages }
    }
}

/// Two entries with the same contents: same identity, integrity and
/// dependency list.
pub open spec fn spec_entry_like(a: PackageSnapshotEntry, b: PackageSnapshotEntry) -> bool {
    &&& spec_same_id(a.id, b.id)
    &&& a.integrity@ == b.integrity@
    &&& a.dependencies@.len() == b.dependencies@.len()
    &&& forall|i: int|
        0 <= i < a.dependencies@.len() ==> a.dependencies@[i].0@ == b.dependencies@[i].0@
            && spec_same_id(a.dependencies@[i].1, b.dependencies@[i].1)
}

/// Whether some entry in `ps` carries identity `id`.
pub open spec fn spec_has_entry(ps: Seq<PackageSnapshotEntry>, id: PackageIdentity) -> bool {
    exists|i: int| 0 <= i < ps.len() && spec_same_id(ps[i].id, id)
}

/// The entry in `ps` carrying identity `id`, if any (first match).
pub open spec fn spec_find_entry(ps: Seq<PackageSnapshotEntry>, id: PackageIdentity) -> Option<
    PackageSnapshotEntry,
>
    decreases ps.len(),
{
    if ps.len() == 0 {
        None
    } else if spec_same_id(ps[0].id, id) {
        Some(ps[0])
    } else {
        spec_find_entry(ps.skip(1), id)
    }
}

/// The identity mapped by specifier text `key`, if any (first match).
pub open spec fn spec_find_specifier(
    m: Seq<(String, PackageIdentity)>,
    key: Seq<char>,
) -> Option<PackageIdentity>
    decreases m.len(),
{
    if m.len() == 0 {
        None
    } else if m[0].0@ == key {
        Some(m[0].1)
    } else {
        spec_find_specifier(m.skip(1), key)
    }
}

/// A found specifier mapping is one of the recorded pairs.
pub proof fn lemma_find_specifier_witness(m: Seq<(String, PackageIdentity)>, key: Seq<char>)
    requires
        spec_find_specifier(m, key) is Some,
    ensures
        exists|i: int|
            0 <= i < m.len() && m[i].0@ == key && m[i].1 == spec_find_specifier(m, key).unwrap(),
    decreases m.len(),
{
    if m.len() > 0 && m[0].0@ != key {
        lemma_find_specifier_witness(m.skip(1), key);
        let i = choose|i: int|
            0 <= i < m.skip(1).len() && m.skip(1)[i].0@ == key && m.skip(1)[i].1
                == spec_find_specifier(m.skip(1), key).unwrap();
        assert(m[i + 1].0@ == key && m[i + 1].1 == spec_find_specifier(m, key).unwrap());
    }
}

/// A recorded pair makes the lookup succeed.
pub proof fn lemma_find_specifier_some_of_witness(m: Seq<(String, PackageIdentity)>, key: Seq<char>)
    requires
        exists|i: int| 0 <= i < m.len() && m[i].0@ == key,
    ensures
        spec_find_specifier(m, key) is Some,
    decreases m.len(),
{
    if m.len() > 0 && m[0].0@ != key {
        let i = choose|i: int| 0 <= i < m.len() && m[i].0@ == key;
        assert(m.skip(1)[i - 1].0@ == key);
        lemma_find_specifier_some_of_witness(m.skip(1), key);
    }
}

/// Appending a pair never disturbs lookups that already succeed, and
/// serves as the mapping for a key not yet recorded.
pub proof fn lemma_find_specifier_push(
    m: Seq<(String, PackageIdentity)>,
    x: (String, PackageIdentity),
    key: Seq<char>,
)
    ensures
        spec_find_specifier(m, key) is Some ==> spec_find_specifier(m.push(x), key)
            == spec_find_specifier(m, key),
        spec_find_specifier(m, key) is None ==> spec_find_specifier(m.push(x), key) == (if x.0@
            == key {
            Some(x.1)
        } else {
            None
        }),
    decreases m.len(),
{
    if m.len() == 0 {
        assert(m.push(x)[0] == x);
        assert(m.push(x).len() == 1);
        assert(m.push(x).skip(1).len() == 0);
        assert(spec_find_specifier(m.push(x).skip(1), key) is None);
        if x.0@ == key {
            assert(spec_find_specifier(m.push(x), key) == Some(x.1));
        } else {
            assert(spec_find_specifier(m.push(x), key) is None);
        }
    } else {
        assert(m.push(x)[0] == m[0]);
        assert(m.push(x).skip(1) =~= m.skip(1).push(x));
        lemma_find_specifier_push(m.skip(1), x, key);
        if m[0].0@ == key {
            assert(spec_find_specifier(m, key) == Some(m[0].1));
            assert(spec_find_specifier(m.push(x), key) == Some(m[0].1));
        } else {
            assert(spec_find_specifier(m, key) == spec_find_specifier(m.skip(1), key));
            assert(spec_find_specifier(m.push(x), key) == spec_find_specifier(
                m.skip(1).push(x),
                key,
            ));
        }
    }
}

/// A snapshot is consistent when every identity referenced by a
/// specifier mapping or a dependency edge has a package entry.
pub open spec fn spec_snapshot_consistent(s: LockfileSnapshot) -> bool {
    &&& forall|i: int|
        0 <= i < s.specifiers@.len() ==> spec_has_entry(s.packages@, s.specifiers@[i].1)
    &&& forall|i: int, j: int|
        0 <= i < s.packages@.len() && 0 <= j < s.packages@[i].dependencies@.len()
            ==> spec_has_entry(s.packages@, s.packages@[i].dependencies@[j].1)
}

impl LockfileSnapshot {
    /// An empty snapshot: no specifiers, no packages.
    pub fn new_empty() -> (r: LockfileSnapshot)
        ensures
            r.specifiers@.len() == 0,
            r.packages@.len() == 0,
    {
        LockfileSnapshot { specifiers: Vec::new(), packages: Vec::new() }
    }

    /// Looks up the entry for `id`.
    pub fn find_entry(&self, id: &PackageIdentity) -> (r: Option<&PackageSnapshotEntry>)
        ensures
            match r {
                Some(e) => spec_find_entry(self.packages@, *id) == Some(*e),
                None => spec_find_entry(self.packages@, *id) is None,
            },
            (r is Some) == spec_has_entry(self.packages@, *id),
    {
        let mut i: usize = 0;
        proof {
            assert(self.packages@.skip(0) =~= self.packages@);
        }
        while i < self.packages.len()
            invariant
                i <= self.packages@.len(),
                spec_find_entry(self.packages@, *id) == spec_find_entry(
                    self.packages@.skip(i as int),
                    *id,
                ),
                forall|j: int| 0 <= j < i ==> !spec_same_id(self.packages@[j].id, *id),
            decreases self.packages@.len() - i,
        {
            proof {
                assert(self.packages@.skip(i as int)[0] == self.packages@[i as int]);
                assert(self.packages@.skip(i as int).skip(1) =~= self.packages@.skip(i as int + 1));
            }
            if self.packages[i].id.same(id) {
                return Some(&self.packages[i]);
            }
            i = i + 1;
        }
        proof {
            assert(self.packages@.skip(i as int).len() == 0);
            assert forall|k: int| 0 <= k < self.packages@.len() implies !spec_same_id(
                self.packages@[k].id,
                *id,
            ) by {}
        }
        None
    }

    /// Looks up the identity mapped by a specifier text.
    pub fn find_specifier(&self, key: &String) -> (r: Option<&PackageIdentity>)
        ensures
            match r {
                Some(id) => spec_find_specifier(self.specifiers@, key@) == Some(*id),
                None => spec_find_specifier(self.specifiers@, key@) is None,
            },
    {
        let mut i: usize = 0;
        proof {
            assert(self.specifiers@.skip(0) =~= self.specifiers@);
        }
        while i < self.specifiers.len()
            invariant
                i <= self.specifiers@.len(),
                spec_find_specifier(self.specifiers@, key@) == spec_find_specifier(
                    self.specifiers@.skip(i as int),
                    key@,
                ),
            decreases self.specifiers@.len() - i,
        {
            proof {
                assert(self.specifiers@.skip(i as int)[0] == self.specifiers@[i as int]);
                assert(self.specifiers@.skip(i as int).skip(1) =~= self.specifiers@.skip(
                    i as int + 1,
                ));
            }
            if self.specifiers[i].0 == *key {
                return Some(&self.specifiers[i].1);
            }
            i = i + 1;
        }
        proof {
            assert(self.specifiers@.skip(i as int).len() == 0);
        }
        None
    }

    /// Checks consistency. Returns `Ok` exactly when every referenced
    /// identity has an entry; otherwise returns the identity text of a
    /// missing reference, for the error message.
    pub fn validate(&self) -> (r: Result<(), String>)
        ensures
            (r is Ok) == spec_snapshot_consistent(*self),
            match r {
                Ok(()) => true,
                Err(t) => exists|id: PackageIdentity|
                    !spec_has_entry(self.packages@, id) && t@ == spec_identity_text(id),
            },
    {
        let mut i: usize = 0;
        while i < self.specifiers.len()
            invariant
                i <= self.specifiers@.len(),
                forall|j: int| 0 <= j < i ==> spec_has_entry(self.packages@, self.specifiers@[j].1),
            decreases self.specifiers@.len() - i,
        {
            let target = &self.specifiers[i].1;
            if self.find_entry(target).is_none() {
                let text = target.to_text();
                proof {
                    assert(!spec_has_entry(self.packages@, self.specifiers@[i as int].1) && text@
                        == spec_identity_text(self.specifiers@[i as int].1));
                }
                return Err(text);
            }
            i = i + 1;
        }
        let mut p: usize = 0;
        while p < self.packages.len()
            invariant
                p <= self.packages@.len(),
                forall|j: int|
                    0 <= j < self.specifiers@.len() ==> spec_has_entry(
                        self.packages@,
                        self.specifiers@[j].1,
                    ),
                forall|a: int, b: int|
                    0 <= a < p && 0 <= b < self.packages@[a].dependencies@.len() ==> spec_has_entry(
                        self.packages@,
                        self.packages@[a].dependencies@[b].1,
                    ),
            decreases self.packages@.len() - p,
        {
            let mut d: usize = 0;
            while d < self.packages[p].dependencies.len()
                invariant
                    p < self.packages@.len(),
                    d <= self.packages@[p as int].dependencies@.len(),
                    forall|b: int|
                        0 <= b < d ==> spec_has_entry(
                            self.packages@,
                            self.packages@[p as int].dependencies@[b].1,
                        ),
                decreases self.packages@[p as int].dependencies@.len() - d,
            {
                let target = &self.packages[p].dependencies[d].1;
                if self.find_entry(target).is_none() {
                    let text = target.to_text();
                    proof {
                        let ghost missing = self.packages@[p as int].dependencies@[d as int].1;
                        assert(!spec_has_entry(self.packages@, missing) && text@
                            == spec_identity_text(missing));
                    }
                    return Err(text);
                }
                d = d + 1;
            }
            p = p + 1;
        }
        Ok(())
    }
}

/// A double-quoted rendering of a text (the serializer assumes names,
/// versions and hashes free of quote and backslash characters, as npm
/// names and integrity strings are).
pub open spec fn spec_q(s: Seq<char>) -> Seq<char> {
    "\""@ + s + "\""@
}

/// The member lines of the `specifiers` object, comma-separated.
pub open spec fn spec_specifier_items(m: Seq<(String, PackageIdentity)>) -> Seq<char>
    decreases m.len(),
{
    if m.len() == 0 {
        Seq::<char>::empty()
    } else {
        spec_specifier_items(m.drop_last()) + (if m.len() > 1 {
            ",\n"@
        } else {
            Seq::<char>::empty()
        }) + "      "@ + spec_q(m.last().0@) + ": "@ + spec_q(spec_identity_text(m.last().1))
    }
}

/// The `specifiers` object.
pub open spec fn spec_specifier_obj(m: Seq<(String, PackageIdentity)>) -> Seq<char> {
    if m.len() == 0 {
        "{}"@
    } else {
        "{\n"@ + spec_specifier_items(m) + "\n    }"@
    }
}

/// The member lines of one entry's `dependencies` object.
pub open spec fn spec_dep_items(deps: Seq<(String, PackageIdentity)>) -> Seq<char>
    decreases deps.len(),
{
    if deps.len() == 0 {
        Seq::<char>::empty()
    } else {
        spec_dep_items(deps.drop_last()) + (if deps.len() > 1 {
            ",\n"@
        } else {
            Seq::<char>::empty()
        }) + "          "@ + spec_q(deps.last().0@) + ": "@ + spec_q(
            spec_identity_text(deps.last().1),
        )
    }
}

/// One entry's `dependencies` object.
pub open spec fn spec_dep_obj(deps: Seq<(String, PackageIdentity)>) -> Seq<char> {
    if deps.len() == 0 {
        "{}"@
    } else {
        "{\n"@ + spec_dep_items(deps) + "\n        }"@
    }
}

/// One member of the `packages` object.
pub open spec fn spec_entry_text(e: PackageSnapshotEntry) -> Seq<char> {
    "      "@ + spec_q(spec_identity_text(e.id)) + ": {\n        \"integrity\": "@ + spec_q(
        e.integrity@,
    ) + ",\n        \"dependencies\": "@ + spec_dep_obj(e.dependencies@) + "\n      }"@
}

/// The member lines of the `packages` object, comma-separated.
pub open spec fn spec_package_items(ps: Seq<PackageSnapshotEntry>) -> Seq<char>
    decreases ps.len(),
{
    if ps.len() == 0 {
        Seq::<char>::empty()
    } else {
        spec_package_items(ps.drop_last()) + (if ps.len() > 1 {
            ",\n"@
        } else {
            Seq::<char>::empty()
        }) + spec_entry_text(ps.last())
    }
}

/// The `packages` object.
pub open spec fn spec_package_obj(ps: Seq<PackageSnapshotEntry>) -> Seq<char> {
    if ps.len() == 0 {
        "{}"@
    } else {
        "{\n"@ + spec_package_items(ps) + "\n    }"@
    }
}

/// The canonical lockfile text. Serializing equal snapshots yields
/// byte-identical files.
pub open spec fn spec_lockfile_text(s: LockfileSnapshot) -> Seq<char> {
    "{\n  \"version\": \"2\",\n  \"remote\": {},\n  \"npm\": {\n    \"specifiers\": "@
        + spec_specifier_obj(s.specifiers@) + ",\n    \"packages\": "@ + spec_package_obj(
        s.packages@,
    ) + "\n  }\n}\n"@
}

fn push_q(s: &String, out: &mut String)
    ensures
        final(out)@ == old(out)@ + spec_q(s@),
{
    out.append("\"");
    out.append(s.as_str());
    out.append("\"");
    proof {
        assert(final(out)@ =~= old(out)@ + spec_q(s@));
    }
}

fn push_specifier_items(m: &Vec<(String, PackageIdentity)>, out: &mut String)
    ensures
        final(out)@ == old(out)@ + spec_specifier_items(m@),
{
    let mut i: usize = 0;
    proof {
        assert(m@.take(0) =~= Seq::<(String, PackageIdentity)>::empty());
        assert(spec_specifier_items(m@.take(0)) =~= Seq::<char>::empty());
    }
    while i < m.len()
        invariant
            i <= m@.len(),
            out@ == old(out)@ + spec_specifier_items(m@.take(i as int)),
        decreases m@.len() - i,
    {
        if i > 0 {
            out.append(",\n");
        }
        out.append("      ");
        push_q(&m[i].0, out);
        out.append(": ");
        let t = m[i].1.to_text();
        push_q(&t, out);
        proof {
            assert(m@.take(i as int + 1).drop_last() =~= m@.take(i as int));
            assert(m@.take(i as int + 1).last() == m@[i as int]);
            assert(out@ =~= old(out)@ + spec_specifier_items(m@.take(i as int + 1)));
        }
        i = i + 1;
    }
    proof {
        assert(m@.take(m@.len() as int) =~= m@);
    }
}

fn push_dep_items(m: &Vec<(String, PackageIdentity)>, out: &mut String)
    ensures
        final(out)@ == old(out)@ + spec_dep_items(m@),
{
    let mut i: usize = 0;
    proof {
        assert(m@.take(0) =~= Seq::<(String, PackageIdentity)>::empty());
        assert(spec_dep_items(m@.take(0)) =~= Seq::<char>::empty());
    }
    while i < m.len()
        invariant
            i <= m@.len(),
            out@ == old(out)@ + spec_dep_items(m@.take(i as int)),
        decreases m@.len() - i,
    {
        if i > 0 {
            out.append(",\n");
        }
        out.append("          ");
        push_q(&m[i].0, out);
        out.append(": ");
        let t = m[i].1.to_text();
        push_q(&t, out);
        proof {
            assert(m@.take(i as int + 1).drop_last() =~= m@.take(i as int));
            assert(m@.take(i as int + 1).last() == m@[i as int]);
            assert(out@ =~= old(out)@ + spec_dep_items(m@.take(i as int + 1)));
        }
        i = i + 1;
    }
    proof {
        assert(m@.take(m@.len() as int) =~= m@);
    }
}

fn push_dep_obj(deps: &Vec<(String, PackageIdentity)>, out: &mut String)
    ensures
        final(out)@ == old(out)@ + spec_dep_obj(deps@),
{
    if deps.len() == 0 {
        out.append("{}");
    } else {
        out.append("{\n");
        push_dep_items(deps, out);
        out.append("\n        }");
        proof {
            assert(final(out)@ =~= old(out)@ + spec_dep_obj(deps@));
        }
    }
}

impl LockfileSnapshot {
    /// Renders the canonical lockfile text for this snapshot.
    #[verifier::rlimit(60)]
    pub fn to_text(&self) -> (r: String)
        ensures
            r@ == spec_lockfile_text(*self),
    {
        let mut out = String::new();
        out.append("{\n  \"version\": \"2\",\n  \"remote\": {},\n  \"npm\": {\n    \"specifiers\": ");
        if self.specifiers.len() == 0 {
            out.append("{}");
        } else {
            out.append("{\n");
            push_specifier_items(&self.specifiers, &mut out);
            out.append("\n    }");
        }
        proof {
            assert(out@ =~= "{\n  \"version\": \"2\",\n  \"remote\": {},\n  \"npm\": {\n    \"specifiers\": "@
                + spec_specifier_obj(self.specifiers@));
        }
        out.append(",\n    \"packages\": ");
        if self.packages.len() == 0 {
            out.append("{}");
        } else {
            out.append("{\n");
            let ghost mid = out@;
            let mut p: usize = 0;
            proof {
                assert(self.packages@.take(0) =~= Seq::<PackageSnapshotEntry>::empty());
            }
            while p < self.packages.len()
                invariant
                    p <= self.packages@.len(),
                    out@ == mid + spec_package_items(self.packages@.take(p as int)),
                decreases self.packages@.len() - p,
            {
                if p > 0 {
                    out.append(",\n");
                }
                out.append("      ");
                let idt = self.packages[p].id.to_text();
                push_q(&idt, &mut out);
                out.append(": {\n        \"integrity\": ");
                push_q(&self.packages[p].integrity, &mut out);
                out.append(",\n        \"dependencies\": ");
                push_dep_obj(&self.packages[p].dependencies, &mut out);
                out.append("\n      }");
                proof {
                    assert(self.packages@.take(p as int + 1).drop_last() =~= self.packages@.take(
                        p as int,
                    ));
                    assert(self.packages@.take(p as int + 1).last() == self.packages@[p as int]);
                    assert(out@ =~= mid + spec_package_items(self.packages@.take(p as int + 1)));
                }
                p = p + 1;
            }
            proof {
                assert(self.packages@.take(self.packages@.len() as int) =~= self.packages@);
            }
            out.append("\n    }");
        }
        out.append("\n  }\n}\n");
        proof {
            assert(out@ =~= spec_lockfile_text(*self));
        }
        out
    }
}

} // verus!
