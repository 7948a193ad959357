//! Authentication and API key management.
//!
//! API keys follow the format `rdb_live_<body>` (production keys) or
//! `rdb_test_<body>` (test/development keys). Only the hash of a key is
//! stored, never the raw key.
use vstd::prelude::*;
use sha2::Digest;
use crate::error::ReasonDBError;
use vstd::string::StringSliceAdditionalSpecFns;
use crate::text::{chars_of, to_string};

pub mod permissions;

verus! {

/// The kind of an API key, given by its prefix.
#[derive(Debug, Clone, Copy, PartialEq, Eq, Structural)]
pub enum KeyPrefix {
    /// `rdb_live_`: a production key.
    Live,
    /// `rdb_test_`: a test/development key.
    Test,
}

/// The SHA-256 digest of a byte sequence.
pub uninterp spec fn sha256(data: Seq<u8>) -> Seq<u8>;

/// The SHA-256 digest of `data` (`<sha2::Sha256 as Digest>::digest`): its
/// value is named `sha256`; the digest is 32 bytes long.
#[verifier::external_body]
fn sha256_digest(data: &[u8]) -> (d: Vec<u8>)
    ensures
        d@ == sha256(data@),
        d@.len() == 32,
{
    sha2::Sha256::digest(data).to_vec()
}

/// The lower-case hexadecimal digit of a value below 16.
pub open spec fn hex_digit(v: u8) -> char {
    if v < 10 {
        ('0' as u8 + v) as char
    } else {
        ('a' as u8 + (v - 10)) as char
    }
}

/// Lower-case hexadecimal text of a byte sequence: two digits per byte, the
/// high nibble first.
pub open spec fn hex_lower(data: Seq<u8>) -> Seq<char>
    decreases data.len(),
{
    if data.len() == 0 {
        Seq::empty()
    } else {
        hex_lower(data.drop_last()) + seq![hex_digit(data.last() / 16), hex_digit(data.last() % 16)]
    }
}

/// Hexadecimal text is twice as long as the data.
pub proof fn lemma_hex_lower_len(data: Seq<u8>)
    ensures
        hex_lower(data).len() == 2 * data.len(),
    decreases data.len(),
{
    if data.len() > 0 {
        lemma_hex_lower_len(data.drop_last());
    }
}

/// `hex::encode`: the lower-case hexadecimal text of `data`, two digits per
/// byte (the crate's documentation and its `byte2hex` table
/// `0123456789abcdef`).
#[verifier::external_body]
fn hex_encode(data: &[u8]) -> (s: String)
    ensures
        s@ == hex_lower(data@),
{
    hex::encode(data)
}

/// Hash an API key for storage: the lower-case hex text of the SHA-256
/// digest of the key's UTF-8 bytes (64 characters).
pub fn hash_api_key(key: &str) -> (h: String)
    ensures
        h@ == hex_lower(sha256(key.spec_bytes())),
        h@.len() == 64,
{
    let digest = sha256_digest(key.as_bytes());
    let h = hex_encode(digest.as_slice());
    proof {
        lemma_hex_lower_len(digest@);
    }
    h
}

/// The prefix of production keys.
pub open spec fn live_prefix() -> Seq<char> {
    "rdb_live_"@
}

/// The prefix of test keys.
pub open spec fn test_prefix() -> Seq<char> {
    "rdb_test_"@
}

/// The key lengths (in bytes) that `validate_key_format` accepts: 44 (the
/// prefix, 32 characters and a 3-character checksum) and 40 (the prefix and
/// 31 characters).
pub open spec fn key_length_ok(len: nat) -> bool {
    len == 40 || len == 44
}

/// `e` is an authentication error with message `msg`.
pub open spec fn is_auth_error(e: ReasonDBError, msg: Seq<char>) -> bool {
    match e {
        ReasonDBError::Auth(m) => m@ == msg,
        _ => false,
    }
}

/// `r` is an authentication error with message `msg`.
pub open spec fn fails_with(r: Result<KeyPrefix, ReasonDBError>, msg: Seq<char>) -> bool {
    match r {
        Ok(_) => false,
        Err(e) => is_auth_error(e, msg),
    }
}

/// Whether `p` is a prefix of `s`.
fn has_prefix(s: &Vec<char>, p: &str) -> (r: bool)
    ensures
        r == p@.is_prefix_of(s@),
{
    let pv = chars_of(p);
    if pv.len() > s.len() {
        return false;
    }
    let mut i: usize = 0;
    while i < pv.len()
        invariant
            pv@ == p@,
            pv.len() <= s.len(),
            i <= pv.len(),
            forall|j: int| 0 <= j < i ==> pv@[j] == s@[j],
        decreases pv.len() - i,
    {
        if pv[i] != s[i] {
            return false;
        }
        i += 1;
    }
    assert(p@ =~= s@.subrange(0, p@.len() as int));
    true
}

/// Validate the format of an API key: it must be 40 or 44 bytes long
/// ("Invalid API key format" otherwise) and start with `rdb_live_` (a
/// production key) or `rdb_test_` (a test key), else "Invalid API key
/// prefix".
pub fn validate_key_format(key: &str) -> (r: Result<KeyPrefix, ReasonDBError>)
    ensures
        !key_length_ok(key.len() as nat) ==> fails_with(r, "Invalid API key format"@),
        key_length_ok(key.len() as nat) && live_prefix().is_prefix_of(key@) ==> r
            == Ok::<KeyPrefix, ReasonDBError>(KeyPrefix::Live),
        key_length_ok(key.len() as nat) && !live_prefix().is_prefix_of(key@)
            && test_prefix().is_prefix_of(key@) ==> r == Ok::<KeyPrefix, ReasonDBError>(
            KeyPrefix::Test,
        ),
        key_length_ok(key.len() as nat) && !live_prefix().is_prefix_of(key@)
            && !test_prefix().is_prefix_of(key@) ==> fails_with(r, "Invalid API key prefix"@),
{
    let len = key.len();
    if len != 40 && len != 44 {
        return Err(ReasonDBError::Auth(to_string("Invalid API key format")));
    }
    let chars = chars_of(key);
    if has_prefix(&chars, "rdb_live_") {
        Ok(KeyPrefix::Live)
    } else if has_prefix(&chars, "rdb_test_") {
        Ok(KeyPrefix::Test)
    } else {
        Err(ReasonDBError::Auth(to_string("Invalid API key prefix")))
    }
}

} // verus!
