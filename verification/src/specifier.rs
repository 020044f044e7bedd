//! Parsing of requested specifier texts.
//!
//! A specifier as written in source looks like `npm:name@1.2.3`,
//! `npm:@scope/name@^1.2.3`, or a bare `name`. The `npm:` prefix is
//! optional here; the version requirement after the last `@` (ignoring
//! a scope's leading `@`) may be exact, caret, tilde, or `*`; a missing
//! requirement means any version.

use vstd::prelude::*;
use crate::semver::Version;
use crate::semver::VersionReq;

verus! {

/// A parsed specifier: the package name and the version requirement.
#[derive(Debug)]
pub struct Specifier {
    pub name: String,
    pub req: VersionReq,
}

impl Clone for Specifier {
    fn clone(&self) -> (r: Self)
        ensures
            r.name@ == self.name@,
            r.req == self.req,
    {
        Specifier { name: self.name.clone(), req: self.req }
    }
}

pub open spec fn spec_is_digit(c: char) -> bool {
    48 <= c as u32 <= 57
}

pub open spec fn spec_digit_val(c: char) -> nat {
    (c as u32 - 48) as nat
}

pub open spec fn spec_all_digits(s: Seq<char>) -> bool {
    forall|i: int| 0 <= i < s.len() ==> spec_is_digit(s[i])
}

/// The numeric value of a digit sequence, most significant first.
pub open spec fn spec_dec_value(s: Seq<char>) -> nat
    decreases s.len(),
{
    if s.len() == 0 {
        0
    } else {
        spec_dec_value(s.drop_last()) * 10 + spec_digit_val(s.last())
    }
}

/// The value of a prefix never exceeds the value of the whole digit
/// sequence.
pub proof fn lemma_dec_value_prefix_le(s: Seq<char>, i: int)
    requires
        0 <= i <= s.len(),
    ensures
        spec_dec_value(s.take(i)) <= spec_dec_value(s),
    decreases s.len() - i,
{
    if i < s.len() {
        assert(s.take(i + 1).drop_last() =~= s.take(i));
        assert(spec_dec_value(s.take(i)) <= spec_dec_value(s.take(i + 1)));
        lemma_dec_value_prefix_le(s, i + 1);
        assert(s.take(s.len() as int) =~= s);
    } else {
        assert(s.take(i) =~= s);
    }
}

/// A whole numeric segment: nonempty, all digits, fitting in `u64`.
pub open spec fn spec_seg_val(s: Seq<char>) -> Option<u64> {
    if s.len() > 0 && spec_all_digits(s) && spec_dec_value(s) <= u64::MAX {
        Some(spec_dec_value(s) as u64)
    } else {
        None
    }
}

/// The first `.` at or after position `i`.
pub open spec fn spec_first_dot_from(s: Seq<char>, i: int) -> Option<int>
    decreases s.len() - i,
{
    if i < 0 || i >= s.len() {
        None
    } else if s[i] == '.' {
        Some(i)
    } else {
        spec_first_dot_from(s, i + 1)
    }
}

/// The last `@` strictly before position `i` and not at position zero
/// (a scope's leading `@` never separates the version).
pub open spec fn spec_last_at_before(s: Seq<char>, i: int) -> Option<int>
    decreases i,
{
    if i <= 1 || i > s.len() {
        None
    } else if s[i - 1] == '@' {
        Some(i - 1)
    } else {
        spec_last_at_before(s, i - 1)
    }
}

/// Parses `major.minor.patch` out of a character sequence.
pub open spec fn spec_parse_version_chars(s: Seq<char>) -> Option<Version> {
    match spec_first_dot_from(s, 0) {
        None => None,
        Some(d1) => match spec_first_dot_from(s, d1 + 1) {
            None => None,
            Some(d2) => match (
                spec_seg_val(s.take(d1)),
                spec_seg_val(s.subrange(d1 + 1, d2)),
                spec_seg_val(s.skip(d2 + 1)),
            ) {
                (Some(ma), Some(mi), Some(pa)) => Some(
                    Version { major: ma, minor: mi, patch: pa },
                ),
                _ => None,
            },
        },
    }
}

/// Parses a version requirement text: `*`, `^x.y.z`, `~x.y.z`,
/// `=x.y.z`, or a plain `x.y.z` (exact).
pub open spec fn spec_parse_req_chars(s: Seq<char>) -> Option<VersionReq> {
    if s.len() == 0 {
        None
    } else if s == seq!['*'] {
        Some(VersionReq::Any)
    } else if s[0] == '^' {
        match spec_parse_version_chars(s.skip(1)) {
            Some(v) => Some(VersionReq::Caret(v)),
            None => None,
        }
    } else if s[0] == '~' {
        match spec_parse_version_chars(s.skip(1)) {
            Some(v) => Some(VersionReq::Tilde(v)),
            None => None,
        }
    } else if s[0] == '=' {
        match spec_parse_version_chars(s.skip(1)) {
            Some(v) => Some(VersionReq::Exact(v)),
            None => None,
        }
    } else {
        match spec_parse_version_chars(s) {
            Some(v) => Some(VersionReq::Exact(v)),
            None => None,
        }
    }
}

/// Strips a leading `npm:` scheme if present.
pub open spec fn spec_strip_npm(s: Seq<char>) -> Seq<char> {
    if s.len() >= 4 && s.take(4) == "npm:"@ {
        s.skip(4)
    } else {
        s
    }
}

/// Parses a requested specifier text into name and requirement.
pub open spec fn spec_parse_specifier(s: Seq<char>) -> Option<(Seq<char>, VersionReq)> {
    let t = spec_strip_npm(s);
    match spec_last_at_before(t, t.len() as int) {
        None => if t.len() > 0 {
            Some((t, VersionReq::Any))
        } else {
            None
        },
        Some(i) => match spec_parse_req_chars(t.skip(i + 1)) {
            Some(r) => Some((t.take(i), r)),
            None => None,
        },
    }
}

/// Strips a leading `npm:` scheme from a specifier text, yielding the
/// key under which the specifier is recorded in the lockfile.
pub fn strip_npm_text(text: &String) -> (r: String)
    ensures
        r@ == spec_strip_npm(text@),
{
    let s = text.as_str();
    let n = s.unicode_len();
    if n >= 4 {
        let c0 = char_at(s, 0);
        let c1 = char_at(s, 1);
        let c2 = char_at(s, 2);
        let c3 = char_at(s, 3);
        proof {
            reveal_strlit("npm:");
            if c0 == 'n' && c1 == 'p' && c2 == 'm' && c3 == ':' {
                assert(s@.take(4) =~= "npm:"@);
            } else {
                assert(s@.take(4) != "npm:"@) by {
                    if s@.take(4) == "npm:"@ {
                        assert(s@.take(4)[0] == 'n' && s@.take(4)[1] == 'p' && s@.take(4)[2] == 'm'
                            && s@.take(4)[3] == ':');
                    }
                }
            }
        }
        if c0 == 'n' && c1 == 'p' && c2 == 'm' && c3 == ':' {
            let r = String::from_str(s.substring_char(4, n));
            proof {
                assert(r@ =~= text@.skip(4));
            }
            return r;
        }
    }
    text.clone()
}

fn char_at(s: &str, i: usize) -> (c: char)
    requires
        i < s@.len(),
    ensures
        c == s@[i as int],
{
    s.get_char(i)
}

/// Parses the digit segment `s[from..to]` as a `u64`.
fn parse_seg(s: &str, from: usize, to: usize) -> (r: Option<u64>)
    requires
        from <= to <= s@.len(),
    ensures
        r == spec_seg_val(s@.subrange(from as int, to as int)),
{
    let ghost seg = s@.subrange(from as int, to as int);
    if from == to {
        return None;
    }
    let mut acc: u64 = 0;
    let mut i: usize = from;
    proof {
        assert(seg.take(0) =~= Seq::<char>::empty());
    }
    while i < to
        invariant
            from <= i <= to <= s@.len(),
            seg == s@.subrange(from as int, to as int),
            seg.len() == to - from,
            spec_all_digits(seg.take(i - from)),
            acc == spec_dec_value(seg.take(i - from)),
        decreases to - i,
    {
        let c = char_at(s, i);
        proof {
            assert(seg[i - from] == s@[i as int]);
        }
        if !(c as u32 >= 48 && c as u32 <= 57) {
            proof {
                assert(!spec_is_digit(seg[i - from]));
            }
            return None;
        }
        let d: u64 = (c as u32 - 48) as u64;
        if acc > (u64::MAX - d) / 10 {
            proof {
                assert(seg.take(i - from + 1).drop_last() =~= seg.take(i - from));
                assert(seg.take(i - from + 1).last() == seg[i - from]);
                assert(acc * 10 + d > u64::MAX) by (nonlinear_arith)
                    requires
                        acc > (u64::MAX - d) / 10,
                        d <= 9,
                {}
                assert(spec_dec_value(seg.take(i - from + 1)) > u64::MAX);
                lemma_dec_value_prefix_le(seg, i - from + 1);
            }
            return None;
        }
        proof {
            assert(acc * 10 + d <= u64::MAX) by (nonlinear_arith)
                requires
                    acc <= (u64::MAX - d) / 10,
                    d <= 9,
            {}
            assert(seg.take(i - from + 1).drop_last() =~= seg.take(i - from));
            assert(seg.take(i - from + 1).last() == seg[i - from]);
        }
        acc = acc * 10 + d;
        i = i + 1;
    }
    proof {
        assert(seg.take(to - from) =~= seg);
    }
    Some(acc)
}

fn find_first_dot(s: &str, from: usize) -> (r: Option<usize>)
    requires
        from <= s@.len(),
    ensures
        match r {
            Some(i) => spec_first_dot_from(s@, from as int) == Some(i as int) && from <= i
                < s@.len(),
            None => spec_first_dot_from(s@, from as int) is None,
        },
{
    let n = s.unicode_len();
    let mut i: usize = from;
    while i < n
        invariant
            from <= i <= n,
            n == s@.len(),
            spec_first_dot_from(s@, from as int) == spec_first_dot_from(s@, i as int),
        decreases n - i,
    {
        let c = char_at(s, i);
        if c == '.' {
            return Some(i);
        }
        i = i + 1;
    }
    None
}

fn find_last_at(s: &str) -> (r: Option<usize>)
    ensures
        match r {
            Some(i) => spec_last_at_before(s@, s@.len() as int) == Some(i as int) && 0 < i
                < s@.len(),
            None => spec_last_at_before(s@, s@.len() as int) is None,
        },
{
    let n = s.unicode_len();
    let mut i: usize = n;
    while i > 1
        invariant
            i <= n,
            n == s@.len(),
            spec_last_at_before(s@, n as int) == spec_last_at_before(s@, i as int),
        decreases i,
    {
        let c = char_at(s, i - 1);
        if c == '@' {
            return Some(i - 1);
        }
        i = i - 1;
    }
    None
}

/// Parses `major.minor.patch` from `s[from..]`.
fn parse_version_tail(s: &str, from: usize) -> (r: Option<Version>)
    requires
        from <= s@.len(),
    ensures
        r == spec_parse_version_chars(s@.skip(from as int)),
{
    let ghost tail = s@.skip(from as int);
    let n = s.unicode_len();
    let d1 = match find_first_dot(s, from) {
        None => {
            proof {
                lemma_first_dot_shift(s@, from as int, from as int);
            }
            return None;
        },
        Some(i) => i,
    };
    proof {
        lemma_first_dot_shift(s@, from as int, from as int);
    }
    let d2 = match find_first_dot(s, d1 + 1) {
        None => {
            proof {
                lemma_first_dot_shift(s@, from as int, d1 as int + 1);
            }
            return None;
        },
        Some(i) => i,
    };
    proof {
        lemma_first_dot_shift(s@, from as int, d1 as int + 1);
    }
    let ma = parse_seg(s, from, d1);
    let mi = parse_seg(s, d1 + 1, d2);
    let pa = parse_seg(s, d2 + 1, n);
    proof {
        assert(s@.subrange(from as int, d1 as int) =~= tail.take(d1 - from));
        assert(s@.subrange(d1 as int + 1, d2 as int) =~= tail.subrange(
            d1 - from + 1,
            d2 - from,
        ));
        assert(s@.subrange(d2 as int + 1, n as int) =~= tail.skip(d2 - from + 1));
    }
    match (ma, mi, pa) {
        (Some(ma), Some(mi), Some(pa)) => Some(Version { major: ma, minor: mi, patch: pa }),
        _ => None,
    }
}

/// Scanning for the first dot inside the tail `s.skip(base)` agrees
/// with scanning `s` itself from the same absolute position.
proof fn lemma_first_dot_shift(s: Seq<char>, base: int, i: int)
    requires
        0 <= base <= i,
        base <= s.len(),
    ensures
        spec_first_dot_from(s, i) == match spec_first_dot_from(s.skip(base), i - base) {
            Some(j) => Some(j + base),
            None => None,
        },
    decreases s.len() - i,
{
    let t = s.skip(base);
    if i >= s.len() {
        assert(spec_first_dot_from(s, i) is None);
        assert(i - base >= t.len());
        assert(spec_first_dot_from(t, i - base) is None);
    } else {
        assert(t[i - base] == s[i]);
        if s[i] == '.' {
            assert(spec_first_dot_from(s, i) == Some(i));
            assert(spec_first_dot_from(t, i - base) == Some(i - base));
        } else {
            lemma_first_dot_shift(s, base, i + 1);
            assert(spec_first_dot_from(s, i) == spec_first_dot_from(s, i + 1));
            assert(spec_first_dot_from(t, i - base) == spec_first_dot_from(t, i - base + 1));
        }
    }
}

/// Parses a version requirement text from `s[from..]`.
fn parse_req_tail(s: &str, from: usize) -> (r: Option<VersionReq>)
    requires
        from <= s@.len(),
    ensures
        r == spec_parse_req_chars(s@.skip(from as int)),
{
    let ghost tail = s@.skip(from as int);
    let n = s.unicode_len();
    if from == n {
        return None;
    }
    let c0 = char_at(s, from);
    if c0 == '*' && from + 1 == n {
        proof {
            assert(tail =~= seq!['*']);
        }
        return Some(VersionReq::Any);
    }
    if c0 == '^' {
        proof {
            assert(tail != seq!['*']);
            assert(s@.skip(from as int + 1) =~= tail.skip(1));
        }
        return match parse_version_tail(s, from + 1) {
            Some(v) => Some(VersionReq::Caret(v)),
            None => None,
        };
    }
    if c0 == '~' {
        proof {
            assert(tail != seq!['*']);
            assert(s@.skip(from as int + 1) =~= tail.skip(1));
        }
        return match parse_version_tail(s, from + 1) {
            Some(v) => Some(VersionReq::Tilde(v)),
            None => None,
        };
    }
    if c0 == '=' {
        proof {
            assert(tail != seq!['*']);
            assert(s@.skip(from as int + 1) =~= tail.skip(1));
        }
        return match parse_version_tail(s, from + 1) {
            Some(v) => Some(VersionReq::Exact(v)),
            None => None,
        };
    }
    proof {
        if tail == seq!['*'] {
            assert(tail[0] == '*');
            assert(c0 == '*');
            assert(from + 1 == n);
        }
        assert(s@.skip(from as int) =~= tail);
    }
    match parse_version_tail(s, from) {
        Some(v) => Some(VersionReq::Exact(v)),
        None => None,
    }
}

/// Parses a requested specifier text. Returns the parsed name and
/// requirement exactly as `spec_parse_specifier` describes, or `None`
/// for a malformed text.
pub fn parse_specifier(text: &String) -> (r: Option<Specifier>)
    ensures
        match r {
            Some(sp) => spec_parse_specifier(text@) == Some((sp.name@, sp.req)),
            None => spec_parse_specifier(text@) is None,
        },
{
    let s = text.as_str();
    let n = s.unicode_len();
    let mut start: usize = 0;
    if n >= 4 {
        let c0 = char_at(s, 0);
        let c1 = char_at(s, 1);
        let c2 = char_at(s, 2);
        let c3 = char_at(s, 3);
        if c0 == 'n' && c1 == 'p' && c2 == 'm' && c3 == ':' {
            start = 4;
        }
        proof {
            reveal_strlit("npm:");
            if c0 == 'n' && c1 == 'p' && c2 == 'm' && c3 == ':' {
                assert(s@.take(4) =~= "npm:"@);
            } else {
                assert(s@.take(4) != "npm:"@) by {
                    if s@.take(4) == "npm:"@ {
                        assert(s@.take(4)[0] == 'n' && s@.take(4)[1] == 'p' && s@.take(4)[2] == 'm'
                            && s@.take(4)[3] == ':');
                    }
                }
            }
        }
    }
    let ghost t = spec_strip_npm(text@);
    proof {
        if start == 4 {
            assert(t =~= s@.skip(4));
        } else {
            assert(t =~= s@);
        }
        assert(s@.skip(start as int) =~= t);
    }
    let rest_len = n - start;
    // Work on the stripped tail through absolute indices into `s`.
    let tail_at = find_last_at_from(s, start);
    proof {
        assert(t.len() == n - start);
    }
    match tail_at {
        None => {
            if rest_len > 0 {
                let name = String::from_str(s.substring_char(start, n));
                proof {
                    assert(name@ =~= t);
                    assert(spec_parse_specifier(text@) == Some((t, VersionReq::Any)));
                }
                Some(Specifier { name, req: VersionReq::Any })
            } else {
                proof {
                    assert(spec_parse_specifier(text@) is None);
                }
                None
            }
        },
        Some(i) => {
            proof {
                assert(s@.skip(i as int + 1) =~= t.skip(i - start + 1));
            }
            match parse_req_tail(s, i + 1) {
                Some(req) => {
                    let name = String::from_str(s.substring_char(start, i));
                    proof {
                        assert(name@ =~= t.take(i - start));
                    }
                    Some(Specifier { name, req })
                },
                None => None,
            }
        },
    }
}

/// The last `@` in `s` strictly after position `base` (the start of the
/// stripped text), mirroring `spec_last_at_before` on the tail.
fn find_last_at_from(s: &str, base: usize) -> (r: Option<usize>)
    requires
        base <= s@.len(),
    ensures
        match r {
            Some(i) => spec_last_at_before(s@.skip(base as int), s@.len() - base) == Some(
                i - base,
            ) && base < i < s@.len(),
            None => spec_last_at_before(s@.skip(base as int), s@.len() - base) is None,
        },
{
    let ghost t = s@.skip(base as int);
    let n = s.unicode_len();
    let mut i: usize = n;
    if n - base <= 1 {
        proof {
            assert(t.len() <= 1);
        }
        return None;
    }
    while i - base > 1
        invariant
            base <= i,
            i <= n,
            n == s@.len(),
            t == s@.skip(base as int),
            spec_last_at_before(t, (n - base) as int) == spec_last_at_before(t, (i - base) as int),
        decreases i,
    {
        let c = char_at(s, i - 1);
        proof {
            assert(t[i - 1 - base] == s@[i - 1]);
        }
        if c == '@' {
            return Some(i - 1);
        }
        i = i - 1;
    }
    None
}

} // verus!
