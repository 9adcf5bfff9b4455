//! PKCE: the high-entropy code verifier, its SHA-256-derived challenge in
//! unpadded base64url form, and the opaque state token. The hash and the
//! encoding are outside calls behind trusted contracts; everything built
//! on them is verified.

use vstd::prelude::*;
use vstd::string::*;
use sha2::Digest;
use base64::Engine;
use std::hash::{BuildHasher, Hasher};
use crate::text::push_char;

verus! {

/// The SHA-256 digest of a byte sequence. The digest depends on the bytes
/// alone; its value is not axiomatized here.
pub uninterp spec fn sha256_of(bytes: Seq<u8>) -> Seq<u8>;

/// The unpadded base64url encoding of a byte sequence.
pub uninterp spec fn base64url_nopad_of(bytes: Seq<u8>) -> Seq<char>;

/// Relies on sha2's Sha256::digest: the digest is a function of the input
/// bytes alone and is exactly 32 bytes long.
#[verifier::external_body]
fn sha256(bytes: &Vec<u8>) -> (r: Vec<u8>)
    ensures
        r@ == sha256_of(bytes@),
        r@.len() == 32,
{
    let digest = sha2::Sha256::digest(bytes.as_slice());
    digest.to_vec()
}

/// Relies on base64's URL_SAFE_NO_PAD engine: the encoding is a function
/// of the input bytes alone, and an empty input encodes to the empty
/// string.
#[verifier::external_body]
fn base64url_nopad(bytes: &Vec<u8>) -> (r: String)
    ensures
        r@ == base64url_nopad_of(bytes@),
        bytes@.len() == 0 ==> r@.len() == 0,
{
    base64::engine::general_purpose::URL_SAFE_NO_PAD.encode(bytes.as_slice())
}

/// Relies on std SystemTime::now: seconds since the Unix epoch, or zero if
/// the clock reads before it. Nothing is assumed of the value.
#[verifier::external_body]
pub(crate) fn now_unix_seconds() -> u64 {
    std::time::SystemTime::now().duration_since(std::time::UNIX_EPOCH).map(
        |d| d.as_secs(),
    ).unwrap_or(0)
}

/// Relies on std RandomState and SystemTime::now for entropy: an arbitrary
/// value; nothing is assumed of it.
#[verifier::external_body]
fn entropy_u64(counter: u64) -> u64 {
    let state = std::collections::hash_map::RandomState::new();
    let mut h = state.build_hasher();
    h.write_u64(counter);
    h.write_u128(
        std::time::SystemTime::now().duration_since(std::time::UNIX_EPOCH).map(
            |d| d.as_nanos(),
        ).unwrap_or(0),
    );
    h.finish()
}

/// The unreserved characters a code verifier may use.
pub open spec fn is_unreserved(c: char) -> bool {
    ('A' <= c && c <= 'Z') || ('a' <= c && c <= 'z') || ('0' <= c && c <= '9') || c == '-'
        || c == '.' || c == '_' || c == '~'
}

fn unreserved_char(idx: u64) -> (c: char)
    requires
        idx < 66,
    ensures
        is_unreserved(c),
{
    let table = "ABCDEFGHIJKLMNOPQRSTUVWXYZabcdefghijklmnopqrstuvwxyz0123456789-._~";
    proof {
        reveal_strlit("ABCDEFGHIJKLMNOPQRSTUVWXYZabcdefghijklmnopqrstuvwxyz0123456789-._~");
    }
    let c = table.get_char(idx as usize);
    proof {
        assert(is_unreserved(table@[idx as int]));
    }
    c
}

/// A fresh random code verifier: 64 characters, all from the unreserved
/// set, as PKCE requires (length within 43 to 128).
pub fn generate_verifier() -> (r: String)
    ensures
        r@.len() == 64,
        forall|i: int| 0 <= i < r@.len() ==> is_unreserved(#[trigger] r@[i]),
{
    let mut r = String::new();
    let mut i: u64 = 0;
    while i < 64
        invariant
            i <= 64,
            r@.len() == i,
            forall|k: int| 0 <= k < r@.len() ==> is_unreserved(#[trigger] r@[k]),
        decreases 64 - i,
    {
        let e = entropy_u64(i);
        let c = unreserved_char(e % 66);
        push_char(&mut r, c);
        i += 1;
    }
    r
}

/// The bytes of an ASCII string, one byte per character.
pub open spec fn ascii_bytes(s: Seq<char>) -> Seq<u8> {
    Seq::new(s.len(), |i: int| s[i] as u8)
}

/// The PKCE challenge of a verifier (the S256 method): the unpadded
/// base64url encoding of the SHA-256 digest of the verifier's bytes. The
/// challenge is a function of the verifier alone.
pub fn pkce_challenge(verifier: &str) -> (r: String)
    requires
        forall|i: int| 0 <= i < verifier@.len() ==> is_unreserved(#[trigger] verifier@[i]),
    ensures
        r@ == base64url_nopad_of(sha256_of(ascii_bytes(verifier@))),
{
    let n = verifier.unicode_len();
    let mut bytes: Vec<u8> = Vec::new();
    let mut i: usize = 0;
    while i < n
        invariant
            n == verifier@.len(),
            i <= n,
            forall|k: int| 0 <= k < verifier@.len() ==> is_unreserved(#[trigger] verifier@[k]),
            bytes@ == ascii_bytes(verifier@).take(i as int),
        decreases n - i,
    {
        let c = verifier.get_char(i);
        proof {
            assert(is_unreserved(verifier@[i as int]));
            assert((c as u32) < 128);
        }
        bytes.push(c as u8);
        assert(bytes@ =~= ascii_bytes(verifier@).take(i as int + 1));
        i += 1;
    }
    proof {
        assert(bytes@ =~= ascii_bytes(verifier@));
    }
    let digest = sha256(&bytes);
    base64url_nopad(&digest)
}

/// A fresh PKCE pair: a random verifier and its challenge.
pub fn generate_pkce() -> (r: (String, String))
    ensures
        r.0@.len() == 64,
        forall|i: int| 0 <= i < r.0@.len() ==> is_unreserved(#[trigger] r.0@[i]),
        r.1@ == base64url_nopad_of(sha256_of(ascii_bytes(r.0@))),
{
    let verifier = generate_verifier();
    let challenge = pkce_challenge(verifier.as_str());
    (verifier, challenge)
}

fn hex_char_of_u64(d: u64) -> (c: char)
    requires
        d < 16,
    ensures
        crate::json::is_hex_digit(c),
        c == crate::json::hex_char(d as nat),
{
    crate::json::hex_char_exec(d as u32)
}

/// A fresh random opaque state token for CSRF protection: sixteen
/// hexadecimal characters.
pub fn generate_state() -> (r: String)
    ensures
        r@.len() == 16,
        forall|i: int| 0 <= i < r@.len() ==> crate::json::is_hex_digit(#[trigger] r@[i]),
{
    let e = entropy_u64(0);
    let mut r = String::new();
    let mut i: u64 = 0;
    while i < 16
        invariant
            i <= 16,
            r@.len() == i,
            forall|k: int| 0 <= k < r@.len() ==> crate::json::is_hex_digit(#[trigger] r@[k]),
        decreases 16 - i,
    {
        let shift: u64 = (15 - i) * 4;
        let nibble: u64 = (e >> shift) & 15;
        proof {
            assert(nibble < 16) by (bit_vector)
                requires
                    nibble == (e >> shift) & 15,
            ;
        }
        let c = hex_char_of_u64(nibble);
        proof {
            assert(crate::json::is_hex_digit(c));
        }
        push_char(&mut r, c);
        i += 1;
    }
    r
}

} // verus!
