//! SHA-256 digests of downloaded archives and the check against a published digest.
use vstd::prelude::*;

use sha2::Digest;

use crate::text::{ascii_lower_code, ascii_lowercase_codes, chars_of, codes, concat, trim, trim_str};

verus! {

/// The SHA-256 digest of `data`, as computed by `sha2::Sha256`.
pub uninterp spec fn sha256_digest(data: Seq<u8>) -> Seq<u8>;

/// The lower-case hexadecimal digit for `n` (below 16).
pub open spec fn hex_digit(n: u8) -> char {
    seq!['0', '1', '2', '3', '4', '5', '6', '7', '8', '9', 'a', 'b', 'c', 'd', 'e', 'f'][n as int]
}

/// `bytes` written as lower-case hexadecimal, two digits per byte, high half
/// first (what `{:x}` prints for a digest).
pub open spec fn lower_hex(bytes: Seq<u8>) -> Seq<char>
    decreases bytes.len(),
{
    if bytes.len() == 0 {
        Seq::empty()
    } else {
        seq![hex_digit(bytes[0] / 16), hex_digit(bytes[0] % 16)] + lower_hex(bytes.drop_first())
    }
}

/// Computes `sha2::Sha256::digest(data)` and formats it with `{:x}`, which
/// `generic_array` implements as two lower-case hexadecimal digits per byte.
/// The digest is named [`sha256_digest`]; it is 32 bytes long.
#[verifier::external_body]
fn sha256_lower_hex(data: &[u8]) -> (r: String)
    ensures
        r@ == lower_hex(sha256_digest(data@)),
        r@.len() == 64,
{
    format!("{:x}", sha2::Sha256::digest(data))
}

/// Why a downloaded archive failed its digest check.
#[derive(Debug)]
pub enum VerifyError {
    /// The published digest is empty.
    EmptySha256,
    /// The digests differ; the message names both.
    Sha256MisMatch(String),
    /// The archive could not be read.
    FsError(std::io::Error),
}

/// The outcome of comparing a computed digest with a published one: `None`
/// when they match, otherwise `Some(None)` for an empty published digest or
/// `Some(Some(message))` for a mismatch.
pub open spec fn digest_check(expected: Seq<char>, actual_hex: Seq<char>) -> Option<Option<Seq<char>>> {
    let t = trim(expected);
    if t.len() == 0 {
        Some(None)
    } else if codes(actual_hex) != ascii_lowercase_codes(t) {
        Some(Some("sha256 mismatch: expected "@ + t + ", got "@ + actual_hex))
    } else {
        None
    }
}

/// `r` matches the outcome `c` of a digest check.
pub open spec fn verify_result_is(r: Result<(), VerifyError>, c: Option<Option<Seq<char>>>) -> bool {
    match c {
        None => r is Ok,
        Some(None) => r matches Err(VerifyError::EmptySha256),
        Some(Some(m)) => match r {
            Err(VerifyError::Sha256MisMatch(s)) => s@ == m,
            _ => false,
        },
    }
}

/// Compare the computed lower-case hex digest `actual_hex` with the published
/// `expected` one, ignoring surrounding whitespace and the case of `expected`.
pub fn check_sha256(expected: &str, actual_hex: &str) -> (r: Result<(), VerifyError>)
    ensures
        verify_result_is(r, digest_check(expected@, actual_hex@)),
{
    let trimmed = trim_str(expected);
    let tv = chars_of(trimmed.as_str());
    if tv.len() == 0 {
        return Err(VerifyError::EmptySha256);
    }
    let av = chars_of(actual_hex);
    let mut same = av.len() == tv.len();
    if !same {
        assert(codes(av@).len() != ascii_lowercase_codes(tv@).len());
    }
    let mut i: usize = 0;
    while same && i < av.len()
        invariant
            same ==> av.len() == tv.len(),
            i <= av.len(),
            same ==> forall|k: int| 0 <= k < i ==> (av@[k] as int) == ascii_lower_code(tv@[k]),
            !same ==> codes(av@) != ascii_lowercase_codes(tv@),
        decreases av.len() - i, if same { 1int } else { 0int },
    {
        let a = av[i];
        let c = tv[i];
        let lower = if 'A' <= c && c <= 'Z' {
            ((c as u8) + 32) as char
        } else {
            c
        };
        assert(lower as int == ascii_lower_code(c));
        if a != lower {
            same = false;
            assert(codes(av@)[i as int] != ascii_lowercase_codes(tv@)[i as int]);
        } else {
            i = i + 1;
        }
    }
    if same {
        assert(codes(av@) =~= ascii_lowercase_codes(tv@));
    } else if av.len() != tv.len() {
        assert(codes(av@).len() != ascii_lowercase_codes(tv@).len());
    }
    if !same {
        let a = concat("sha256 mismatch: expected ", trimmed.as_str());
        let b = concat(a.as_str(), ", got ");
        return Err(VerifyError::Sha256MisMatch(concat(b.as_str(), actual_hex)));
    }
    Ok(())
}

/// The first step of a digest check, taken before the archive is read: an
/// empty published digest (after trimming) is refused at once.
pub fn require_published_digest(expected: &str) -> (r: Result<(), VerifyError>)
    ensures
        r is Ok <==> trim(expected@).len() > 0,
        r is Err ==> r matches Err(VerifyError::EmptySha256),
{
    let trimmed = trim_str(expected);
    if trimmed.as_str().unicode_len() == 0 {
        Err(VerifyError::EmptySha256)
    } else {
        Ok(())
    }
}

/// Check the downloaded archive `data` against the published digest `expected`.
pub fn verify_sha256(data: &[u8], expected: &str) -> (r: Result<(), VerifyError>)
    ensures
        verify_result_is(r, digest_check(expected@, lower_hex(sha256_digest(data@)))),
{
    let actual = sha256_lower_hex(data);
    check_sha256(expected, actual.as_str())
}

} // verus!
