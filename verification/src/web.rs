//! Web-platform helpers: forgiving base64 encoding and decoding, and
//! text-encoding label normalization, together with the DOM exception
//! values they raise.

use vstd::prelude::*;

verus! {

/// Raised when a quota would be exceeded.
#[derive(Debug)]
pub struct DomExceptionQuotaExceededError {
    pub msg: String,
}

impl DomExceptionQuotaExceededError {
    pub fn new(msg: &str) -> (r: Self)
        ensures
            r.msg@ == msg@,
    {
        DomExceptionQuotaExceededError { msg: msg.to_owned() }
    }
}

/// Raised when an input holds a character the operation cannot accept.
#[derive(Debug)]
pub struct DomExceptionInvalidCharacterError {
    pub msg: String,
}

impl DomExceptionInvalidCharacterError {
    pub fn new(msg: &str) -> (r: Self)
        ensures
            r.msg@ == msg@,
    {
        DomExceptionInvalidCharacterError { msg: msg.to_owned() }
    }
}

/// Which DOM exception an error value is, if it is one at all.
#[derive(Clone, Copy, PartialEq, Eq, Structural, Debug)]
pub enum DomExceptionKind {
    QuotaExceeded,
    InvalidCharacter,
}

/// The class name reported for an error: the matching DOM exception
/// class, or nothing for an error that is neither.
pub fn get_error_class_name(e: Option<DomExceptionKind>) -> (r: Option<&'static str>)
    ensures
        match e {
            Some(DomExceptionKind::QuotaExceeded) => r matches Some(n) && n@
                == "DOMExceptionQuotaExceededError"@,
            Some(DomExceptionKind::InvalidCharacter) => r matches Some(n) && n@
                == "DOMExceptionInvalidCharacterError"@,
            None => r is None,
        },
{
    match e {
        Some(DomExceptionKind::QuotaExceeded) => Some("DOMExceptionQuotaExceededError"),
        Some(DomExceptionKind::InvalidCharacter) => Some("DOMExceptionInvalidCharacterError"),
        None => None,
    }
}

/// The declaration file shipped beside this component.
pub fn get_declaration() -> (r: String)
    ensures
        r@ == "lib.deno_web.d.ts"@,
{
    String::from_str("lib.deno_web.d.ts")
}

/// What WHATWG forgiving base64 decoding yields for the given bytes,
/// or nothing when they are not forgiving-base64.
pub uninterp spec fn spec_forgiving_b64_decoded(s: Seq<u8>) -> Option<Seq<u8>>;

/// Relies on base64_simd::forgiving_decode_inplace: WHATWG forgiving
/// base64 decoding, writing the decoded prefix in place; the result
/// depends on the input bytes alone.
#[verifier::external_body]
fn forgiving_decode_inplace(b: &mut Vec<u8>) -> (r: Result<usize, ()>)
    ensures
        final(b)@.len() == old(b)@.len(),
        match r {
            Ok(n) => match spec_forgiving_b64_decoded(old(b)@) {
                Some(d) => n == d.len() && n <= old(b)@.len() && final(b)@.subrange(0, n as int)
                    == d,
                None => false,
            },
            Err(()) => spec_forgiving_b64_decoded(old(b)@) is None,
        },
{
    match base64_simd::forgiving_decode_inplace(b.as_mut_slice()) {
        Ok(d) => {
            let n = d.len();
            Ok(n)
        },
        Err(_) => Err(()),
    }
}

/// Decodes forgiving base64, as the `atob` operation does. The error
/// carries the message the DOM exception reports.
pub fn op_base64_decode(input: &Vec<u8>) -> (r: Result<
    Vec<u8>,
    DomExceptionInvalidCharacterError,
>)
    ensures
        match r {
            Ok(v) => spec_forgiving_b64_decoded(input@) == Some(v@) && v@.len() <= input@.len(),
            Err(e) => spec_forgiving_b64_decoded(input@) is None && e.msg@
                == "Failed to decode base64"@,
        },
{
    let mut buf: Vec<u8> = Vec::new();
    let mut i: usize = 0;
    while i < input.len()
        invariant
            i <= input@.len(),
            buf@ == input@.take(i as int),
        decreases input@.len() - i,
    {
        buf.push(input[i]);
        proof {
            assert(buf@ =~= input@.take(i as int + 1));
        }
        i = i + 1;
    }
    proof {
        assert(buf@ =~= input@);
    }
    match forgiving_decode_inplace(&mut buf) {
        Ok(n) => {
            buf.truncate(n);
            proof {
                assert(buf@ =~= spec_forgiving_b64_decoded(input@).unwrap());
            }
            Ok(buf)
        },
        Err(()) => Err(DomExceptionInvalidCharacterError::new("Failed to decode base64")),
    }
}

/// Decodes a binary string, `atob` on raw bytes: the same forgiving
/// base64 decoding.
pub fn op_base64_atob(s: &Vec<u8>) -> (r: Result<Vec<u8>, DomExceptionInvalidCharacterError>)
    ensures
        match r {
            Ok(v) => spec_forgiving_b64_decoded(s@) == Some(v@) && v@.len() <= s@.len(),
            Err(e) => spec_forgiving_b64_decoded(s@) is None && e.msg@
                == "Failed to decode base64"@,
        },
{
    op_base64_decode(s)
}

/// The standard base64 rendering of a byte sequence, with padding.
pub uninterp spec fn spec_b64_encoded(s: Seq<u8>) -> Seq<char>;

/// Relies on base64_simd::STANDARD.encode_to_string: standard-alphabet
/// base64 with padding; four output characters for every started
/// three-byte group, and the result depends on the input bytes alone.
/// The encoder asserts that its output length fits in half the
/// address space, so the input must stay a quarter of it.
#[verifier::external_body]
fn b64_encode(s: &Vec<u8>) -> (r: String)
    requires
        s@.len() <= usize::MAX / 4,
    ensures
        r@ == spec_b64_encoded(s@),
        r@.len() == 4 * ((s@.len() + 2) / 3),
{
    base64_simd::STANDARD.encode_to_string(s.as_slice())
}

/// Encodes bytes as forgiving base64, as the `btoa` operation does.
pub fn op_base64_encode(s: &Vec<u8>) -> (r: String)
    requires
        s@.len() <= usize::MAX / 4,
    ensures
        r@ == spec_b64_encoded(s@),
        r@.len() == 4 * ((s@.len() + 2) / 3),
{
    b64_encode(s)
}

/// Encodes a binary string: the same rendering as `op_base64_encode`.
pub fn op_base64_btoa(s: &Vec<u8>) -> (r: String)
    requires
        s@.len() <= usize::MAX / 4,
    ensures
        r@ == spec_b64_encoded(s@),
{
    b64_encode(s)
}

/// The canonical name of the text encoding a label selects, if any
/// (no replacement-encoding fallback).
pub uninterp spec fn spec_encoding_name_for_label(l: Seq<char>) -> Option<Seq<char>>;

/// Relies on encoding_rs::Encoding::for_label_no_replacement: a pure
/// table lookup from the label's bytes to the selected encoding;
/// reading the found encoding's canonical name converts it to a plain
/// value.
#[verifier::external_body]
fn encoding_name_for_label(label: &str) -> (r: Option<String>)
    ensures
        match r {
            Some(n) => spec_encoding_name_for_label(label@) == Some(n@),
            None => spec_encoding_name_for_label(label@) is None,
        },
{
    match encoding_rs::Encoding::for_label_no_replacement(label.as_bytes()) {
        Some(e) => Some(e.name().to_string()),
        None => None,
    }
}

/// What lowercasing yields; the result depends on the characters
/// alone.
pub uninterp spec fn spec_lower_of(s: Seq<char>) -> Seq<char>;

/// Relies on str::to_lowercase: the result depends on the characters
/// alone.
#[verifier::external_body]
fn lowercase(s: &str) -> (r: String)
    ensures
        r@ == spec_lower_of(s@),
        s@.len() == 0 ==> r@.len() == 0,
{
    s.to_lowercase()
}

/// Normalizes a text-encoding label to the lowercased canonical name
/// of the encoding it selects; an unknown label is an error whose
/// message names the offending label.
pub fn op_encoding_normalize_label(label: &String) -> (r: Result<String, String>)
    ensures
        match r {
            Ok(n) => match spec_encoding_name_for_label(label@) {
                Some(name) => n@ == spec_lower_of(name),
                None => false,
            },
            Err(m) => spec_encoding_name_for_label(label@) is None && m@
                == "The encoding label provided ('"@ + label@ + "') is invalid."@,
        },
{
    match encoding_name_for_label(label.as_str()) {
        Some(name) => Ok(lowercase(name.as_str())),
        None => {
            let mut m = String::from_str("The encoding label provided ('");
            m.append(label.as_str());
            m.append("') is invalid.");
            Err(m)
        },
    }
}

/// Strips a UTF-8 byte-order mark, as UTF-8 decoding does before
/// handing bytes to the engine: the first three bytes go when they are
/// exactly EF BB BF and the mark is not to be kept.
pub fn strip_utf8_bom(buf: &Vec<u8>, ignore_bom: bool) -> (r: Vec<u8>)
    ensures
        r@ == (if !ignore_bom && buf@.len() >= 3 && buf@[0] == 0xefu8 && buf@[1] == 0xbbu8
            && buf@[2] == 0xbfu8 {
            buf@.skip(3)
        } else {
            buf@
        }),
{
    let start: usize = if !ignore_bom && buf.len() >= 3 && buf[0] == 0xef && buf[1] == 0xbb
        && buf[2] == 0xbf {
        3
    } else {
        0
    };
    let mut out: Vec<u8> = Vec::new();
    let mut i: usize = start;
    while i < buf.len()
        invariant
            start <= i <= buf@.len(),
            out@ == buf@.subrange(start as int, i as int),
        decreases buf@.len() - i,
    {
        out.push(buf[i]);
        proof {
            assert(out@ =~= buf@.subrange(start as int, i as int + 1));
        }
        i = i + 1;
    }
    proof {
        if start == 3 {
            assert(out@ =~= buf@.skip(3));
        } else {
            assert(out@ =~= buf@);
        }
    }
    out
}

} // verus!
