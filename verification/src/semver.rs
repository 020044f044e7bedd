//! Semantic versions, version requirements, and resolved package
//! identities.
//!
//! A specifier written in source carries a requirement; resolution turns
//! it into an identity, a fully pinned name plus version (plus a copy
//! index when peer-dependency contexts force a duplicated instance).

use vstd::prelude::*;
use crate::strutil::spec_dec_str;
use crate::strutil::push_dec;

verus! {

/// A semantic version: major.minor.patch.
#[derive(Clone, Copy, PartialEq, Eq, Structural, Debug)]
pub struct Version {
    pub major: u64,
    pub minor: u64,
    pub patch: u64,
}

/// Strict order on versions: major first, then minor, then patch.
pub open spec fn spec_version_lt(a: Version, b: Version) -> bool {
    ||| a.major < b.major
    ||| (a.major == b.major && a.minor < b.minor)
    ||| (a.major == b.major && a.minor == b.minor && a.patch < b.patch)
}

impl Version {
    pub fn new(major: u64, minor: u64, patch: u64) -> (r: Version)
        ensures
            r == (Version { major, minor, patch }),
    {
        Version { major, minor, patch }
    }

    /// Decides `spec_version_lt(self, other)`.
    pub fn lt(&self, other: &Version) -> (r: bool)
        ensures
            r == spec_version_lt(*self, *other),
    {
        if self.major != other.major {
            self.major < other.major
        } else if self.minor != other.minor {
            self.minor < other.minor
        } else {
            self.patch < other.patch
        }
    }

    /// Renders the version as `major.minor.patch`.
    pub fn to_text(&self) -> (r: String)
        ensures
            r@ == spec_version_text(*self),
    {
        let mut s = String::new();
        push_dec(self.major, &mut s);
        s.append(".");
        push_dec(self.minor, &mut s);
        s.append(".");
        push_dec(self.patch, &mut s);
        proof {
            reveal_strlit(".");
            assert(s@ =~= spec_version_text(*self));
        }
        s
    }
}

/// The text `major.minor.patch`.
pub open spec fn spec_version_text(v: Version) -> Seq<char> {
    spec_dec_str(v.major as nat) + seq!['.'] + spec_dec_str(v.minor as nat) + seq!['.']
        + spec_dec_str(v.patch as nat)
}

/// A version requirement as written in a specifier or a dependency
/// declaration.
#[derive(Clone, Copy, PartialEq, Eq, Structural, Debug)]
pub enum VersionReq {
    /// Pinned: only exactly this version matches.
    Exact(Version),
    /// Caret range: at least the given version, same major line.
    Caret(Version),
    /// Tilde range: at least the given version, same major.minor line.
    Tilde(Version),
    /// No constraint: any version matches (a bare name, or `latest`).
    Any,
}

/// Whether version `v` satisfies requirement `r`.
pub open spec fn spec_req_matches(r: VersionReq, v: Version) -> bool {
    match r {
        VersionReq::Exact(w) => v == w,
        VersionReq::Caret(w) => v.major == w.major && !spec_version_lt(v, w),
        VersionReq::Tilde(w) => v.major == w.major && v.minor == w.minor && !spec_version_lt(v, w),
        VersionReq::Any => true,
    }
}

impl VersionReq {
    /// Decides `spec_req_matches(self, v)`.
    pub fn matches(&self, v: &Version) -> (b: bool)
        ensures
            b == spec_req_matches(*self, *v),
    {
        match self {
            VersionReq::Exact(w) => v == w,
            VersionReq::Caret(w) => v.major == w.major && !v.lt(w),
            VersionReq::Tilde(w) => v.major == w.major && v.minor == w.minor && !v.lt(w),
            VersionReq::Any => true,
        }
    }
}

/// The text of a requirement: `x.y.z` for exact, `^x.y.z`, `~x.y.z`,
/// `*` for any.
pub open spec fn spec_req_text(r: VersionReq) -> Seq<char> {
    match r {
        VersionReq::Exact(v) => spec_version_text(v),
        VersionReq::Caret(v) => seq!['^'] + spec_version_text(v),
        VersionReq::Tilde(v) => seq!['~'] + spec_version_text(v),
        VersionReq::Any => seq!['*'],
    }
}

impl VersionReq {
    /// Renders the requirement text.
    pub fn to_text(&self) -> (r: String)
        ensures
            r@ == spec_req_text(*self),
    {
        match self {
            VersionReq::Exact(v) => v.to_text(),
            VersionReq::Caret(v) => {
                let mut s = String::from_str("^");
                let vt = v.to_text();
                s.append(vt.as_str());
                proof {
                    reveal_strlit("^");
                    assert(s@ =~= spec_req_text(*self));
                }
                s
            },
            VersionReq::Tilde(v) => {
                let mut s = String::from_str("~");
                let vt = v.to_text();
                s.append(vt.as_str());
                proof {
                    reveal_strlit("~");
                    assert(s@ =~= spec_req_text(*self));
                }
                s
            },
            VersionReq::Any => {
                let s = String::from_str("*");
                proof {
                    reveal_strlit("*");
                    assert(s@ =~= spec_req_text(*self));
                }
                s
            },
        }
    }
}

/// A fully resolved package instance. `copy_index` is zero for the
/// primary instance of a name/version pair; a positive index names an
/// additional instance created for a distinct peer-dependency context.
#[derive(Debug)]
pub struct PackageIdentity {
    pub name: String,
    pub version: Version,
    pub copy_index: u64,
}

impl Clone for PackageIdentity {
    fn clone(&self) -> (r: Self)
        ensures
            r.name == self.name,
            r.version == self.version,
            r.copy_index == self.copy_index,
    {
        PackageIdentity {
            name: self.name.clone(),
            version: self.version,
            copy_index: self.copy_index,
        }
    }
}

/// Identity sameness at the level of contents (name text, version,
/// copy index).
pub open spec fn spec_same_id(a: PackageIdentity, b: PackageIdentity) -> bool {
    a.name@ == b.name@ && a.version == b.version && a.copy_index == b.copy_index
}

/// The identity text: `name@major.minor.patch`, with `_k` appended for
/// copy instances (`k` positive).
pub open spec fn spec_identity_text(id: PackageIdentity) -> Seq<char> {
    let base = id.name@ + seq!['@'] + spec_version_text(id.version);
    if id.copy_index == 0 {
        base
    } else {
        base + seq!['_'] + spec_dec_str(id.copy_index as nat)
    }
}

impl PackageIdentity {
    pub fn new(name: String, version: Version) -> (r: PackageIdentity)
        ensures
            r.name == name,
            r.version == version,
            r.copy_index == 0,
    {
        PackageIdentity { name, version, copy_index: 0 }
    }

    /// Decides `spec_same_id(self, other)`.
    pub fn same(&self, other: &PackageIdentity) -> (b: bool)
        ensures
            b == spec_same_id(*self, *other),
    {
        self.name == other.name && self.version == other.version
            && self.copy_index == other.copy_index
    }

    /// Renders the identity text.
    pub fn to_text(&self) -> (r: String)
        ensures
            r@ == spec_identity_text(*self),
    {
        let mut s = self.name.clone();
        s.append("@");
        let vt = self.version.to_text();
        s.append(vt.as_str());
        if self.copy_index != 0 {
            s.append("_");
            push_dec(self.copy_index, &mut s);
        }
        proof {
            reveal_strlit("@");
            reveal_strlit("_");
            assert(s@ =~= spec_identity_text(*self));
        }
        s
    }
}

} // verus!
