//! A registry metadata snapshot: the package versions the registry
//! offers, each with its advertised integrity, the hash of the tarball
//! it actually serves, its platform restriction and its dependency
//! declarations.
//!
//! The resolver works against this plain data; performing the HTTP
//! fetches that produce it is the caller's business.

use vstd::prelude::*;
use crate::semver::Version;
use crate::semver::VersionReq;
use crate::semver::spec_req_matches;
use crate::semver::spec_version_lt;

verus! {

/// How a dependency edge is declared.
#[derive(Clone, Copy, PartialEq, Eq, Structural, Debug)]
pub enum DepKind {
    /// A plain dependency: must resolve, or resolution fails.
    Regular,
    /// A peer dependency: bound to the instance the dependent context
    /// provides.
    Peer,
    /// An optional dependency: a failure to resolve it is recorded and
    /// skipped, not propagated.
    Optional,
}

/// One declared dependency of a package version.
#[derive(Debug)]
pub struct RegistryDependency {
    pub name: String,
    pub req: VersionReq,
    pub kind: DepKind,
}

/// One version of a package as the registry offers it.
#[derive(Debug)]
pub struct RegistryVersionInfo {
    pub version: Version,
    /// The content hash the registry advertises for this version.
    pub integrity: String,
    /// The hash of the tarball bytes the registry actually serves; a
    /// download whose hash disagrees with `integrity` must be fatal.
    pub tarball_hash: String,
    /// Platforms this version installs on; empty means any.
    pub os: Vec<String>,
    pub dependencies: Vec<RegistryDependency>,
}

/// All versions the registry offers under one package name.
#[derive(Debug)]
pub struct RegistryPackage {
    pub name: String,
    pub versions: Vec<RegistryVersionInfo>,
}

/// A registry metadata snapshot.
#[derive(Debug)]
pub struct RegistryData {
    pub packages: Vec<RegistryPackage>,
}

/// The package record under `name`, if any (first match).
pub open spec fn spec_find_package(ps: Seq<RegistryPackage>, name: Seq<char>) -> Option<
    RegistryPackage,
>
    decreases ps.len(),
{
    if ps.len() == 0 {
        None
    } else if ps[0].name@ == name {
        Some(ps[0])
    } else {
        spec_find_package(ps.skip(1), name)
    }
}

/// The highest version among `vs` that satisfies `req`, if any.
pub open spec fn spec_best_match(vs: Seq<RegistryVersionInfo>, req: VersionReq) -> Option<Version>
    decreases vs.len(),
{
    if vs.len() == 0 {
        None
    } else {
        let prev = spec_best_match(vs.drop_last(), req);
        let v = vs.last().version;
        if spec_req_matches(req, v) && (prev is None || spec_version_lt(prev.unwrap(), v)) {
            Some(v)
        } else {
            prev
        }
    }
}

/// The version record for exactly `v`, if any (first match).
pub open spec fn spec_find_version(vs: Seq<RegistryVersionInfo>, v: Version) -> Option<
    RegistryVersionInfo,
>
    decreases vs.len(),
{
    if vs.len() == 0 {
        None
    } else if vs[0].version == v {
        Some(vs[0])
    } else {
        spec_find_version(vs.skip(1), v)
    }
}

/// The version that the registry resolves `name` under `req` to: the
/// highest offered version satisfying the requirement.
pub open spec fn spec_registry_select(reg: RegistryData, name: Seq<char>, req: VersionReq) -> Option<
    Version,
> {
    match spec_find_package(reg.packages@, name) {
        None => None,
        Some(p) => spec_best_match(p.versions@, req),
    }
}

/// A found package record is one of the recorded ones.
pub proof fn lemma_find_package_witness(ps: Seq<RegistryPackage>, name: Seq<char>)
    requires
        spec_find_package(ps, name) is Some,
    ensures
        exists|i: int|
            0 <= i < ps.len() && ps[i].name@ == name && ps[i] == spec_find_package(
                ps,
                name,
            ).unwrap(),
    decreases ps.len(),
{
    if ps.len() > 0 && ps[0].name@ != name {
        lemma_find_package_witness(ps.skip(1), name);
        let i = choose|i: int|
            0 <= i < ps.skip(1).len() && ps.skip(1)[i].name@ == name && ps.skip(1)[i]
                == spec_find_package(ps.skip(1), name).unwrap();
        assert(ps[i + 1].name@ == name && ps[i + 1] == spec_find_package(ps, name).unwrap());
    }
}

/// What `spec_best_match` returns is a true maximum: it is offered, it
/// satisfies the requirement, and no offered version satisfying the
/// requirement is higher. A `None` means no offered version satisfies
/// the requirement.
pub proof fn lemma_best_match_is_max(vs: Seq<RegistryVersionInfo>, req: VersionReq)
    ensures
        match spec_best_match(vs, req) {
            Some(best) => spec_req_matches(req, best) && (exists|i: int|
                0 <= i < vs.len() && vs[i].version == best) && (forall|i: int|
                0 <= i < vs.len() && spec_req_matches(req, vs[i].version) ==> !spec_version_lt(
                    best,
                    vs[i].version,
                )),
            None => forall|i: int| 0 <= i < vs.len() ==> !spec_req_matches(req, vs[i].version),
        },
    decreases vs.len(),
{
    if vs.len() > 0 {
        lemma_best_match_is_max(vs.drop_last(), req);
        assert(forall|i: int| 0 <= i < vs.len() - 1 ==> vs.drop_last()[i] == vs[i]);
        assert(vs.last() == vs[vs.len() - 1]);
    }
}

impl RegistryData {
    /// Looks up the package record for `name`.
    pub fn find_package(&self, name: &String) -> (r: Option<&RegistryPackage>)
        ensures
            match r {
                Some(p) => spec_find_package(self.packages@, name@) == Some(*p),
                None => spec_find_package(self.packages@, name@) is None,
            },
    {
        let mut i: usize = 0;
        proof {
            assert(self.packages@.skip(0) =~= self.packages@);
        }
        while i < self.packages.len()
            invariant
                i <= self.packages@.len(),
                spec_find_package(self.packages@, name@) == spec_find_package(
                    self.packages@.skip(i as int),
                    name@,
                ),
            decreases self.packages@.len() - i,
        {
            proof {
                assert(self.packages@.skip(i as int)[0] == self.packages@[i as int]);
                assert(self.packages@.skip(i as int).skip(1) =~= self.packages@.skip(i as int + 1));
            }
            if self.packages[i].name == *name {
                return Some(&self.packages[i]);
            }
            i = i + 1;
        }
        proof {
            assert(self.packages@.skip(i as int).len() == 0);
        }
        None
    }
}

impl RegistryPackage {
    /// Picks the highest offered version satisfying `req`.
    pub fn best_match(&self, req: &VersionReq) -> (r: Option<Version>)
        ensures
            r == spec_best_match(self.versions@, *req),
    {
        let mut best: Option<Version> = None;
        let mut i: usize = 0;
        proof {
            assert(self.versions@.take(0) =~= Seq::<RegistryVersionInfo>::empty());
        }
        while i < self.versions.len()
            invariant
                i <= self.versions@.len(),
                best == spec_best_match(self.versions@.take(i as int), *req),
            decreases self.versions@.len() - i,
        {
            let v = self.versions[i].version;
            let take_it = match &best {
                None => true,
                Some(b) => b.lt(&self.versions[i].version),
            };
            let matches = req.matches(&v);
            proof {
                assert(self.versions@.take(i as int + 1).drop_last() =~= self.versions@.take(
                    i as int,
                ));
                assert(self.versions@.take(i as int + 1).last() == self.versions@[i as int]);
            }
            if matches && take_it {
                best = Some(v);
            }
            i = i + 1;
        }
        proof {
            assert(self.versions@.take(self.versions@.len() as int) =~= self.versions@);
        }
        best
    }

    /// Looks up the record for exactly version `v`.
    pub fn find_version(&self, v: &Version) -> (r: Option<&RegistryVersionInfo>)
        ensures
            match r {
                Some(rv) => spec_find_version(self.versions@, *v) == Some(*rv),
                None => spec_find_version(self.versions@, *v) is None,
            },
    {
        let mut i: usize = 0;
        proof {
            assert(self.versions@.skip(0) =~= self.versions@);
        }
        while i < self.versions.len()
            invariant
                i <= self.versions@.len(),
                spec_find_version(self.versions@, *v) == spec_find_version(
                    self.versions@.skip(i as int),
                    *v,
                ),
            decreases self.versions@.len() - i,
        {
            proof {
                assert(self.versions@.skip(i as int)[0] == self.versions@[i as int]);
                assert(self.versions@.skip(i as int).skip(1) =~= self.versions@.skip(i as int + 1));
            }
            if self.versions[i].version == *v {
                return Some(&self.versions[i]);
            }
            i = i + 1;
        }
        proof {
            assert(self.versions@.skip(i as int).len() == 0);
        }
        None
    }
}

/// Whether a platform list admits `os`: an empty list admits anything.
pub open spec fn spec_os_admits(os_list: Seq<String>, os: Seq<char>) -> bool {
    os_list.len() == 0 || exists|i: int| 0 <= i < os_list.len() && os_list[i]@ == os
}

/// Decides `spec_os_admits`.
pub fn os_admits(os_list: &Vec<String>, os: &String) -> (b: bool)
    ensures
        b == spec_os_admits(os_list@, os@),
{
    if os_list.len() == 0 {
        return true;
    }
    let mut i: usize = 0;
    while i < os_list.len()
        invariant
            i <= os_list@.len(),
            forall|j: int| 0 <= j < i ==> os_list@[j]@ != os@,
        decreases os_list@.len() - i,
    {
        if os_list[i] == *os {
            return true;
        }
        i = i + 1;
    }
    false
}

} // verus!
