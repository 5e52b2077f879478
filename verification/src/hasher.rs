//! Content addresses: the SHA3-256 digest of a byte sequence, written as 64
//! lower-case hexadecimal digits.

use sha3::{Digest, Sha3_256};
use vstd::prelude::*;

verus! {

/// The SHA3-256 digest of `data`.
pub uninterp spec fn sha3_256_digest(data: Seq<u8>) -> Seq<u8>;

/// Calls `Sha3_256::digest` of the `sha3` crate, which feeds `data` to a fresh
/// hasher and finalizes it. The contract names the digest and states its
/// length, the 32 bytes of the fixed output size of SHA3-256.
#[verifier::external_body]
fn sha3_256(data: &[u8]) -> (digest: Vec<u8>)
    ensures
        digest@ == sha3_256_digest(data@),
        digest@.len() == 32,
{
    Sha3_256::digest(data).to_vec()
}

/// The lower-case hexadecimal digit of a value below 16.
pub open spec fn hex_digit(nibble: int) -> char {
    "0123456789abcdef"@[nibble]
}

/// Whether `c` is one of `0`..`9`, `a`..`f`.
pub open spec fn is_hex_digit(c: char) -> bool {
    ('0' <= c && c <= '9') || ('a' <= c && c <= 'f')
}

/// Two digits for each byte, the high half first.
pub open spec fn hex_of(bytes: Seq<u8>) -> Seq<char> {
    Seq::new(
        2 * bytes.len(),
        |i: int|
            if i % 2 == 0 {
                hex_digit(bytes[i / 2] as int / 16)
            } else {
                hex_digit(bytes[i / 2] as int % 16)
            },
    )
}

/// The address under which `data` is stored.
pub open spec fn hash_of(data: Seq<u8>) -> Seq<char> {
    hex_of(sha3_256_digest(data))
}

/// Whether `s` has the form of an address: 64 lower-case hexadecimal digits.
pub open spec fn is_hash(s: Seq<char>) -> bool {
    s.len() == 64 && forall|i: int| 0 <= i < s.len() ==> is_hex_digit(#[trigger] s[i])
}

/// Every digit that `hex_digit` gives is a lower-case hexadecimal digit.
pub proof fn lemma_hex_digit_is_hex(nibble: int)
    requires
        0 <= nibble < 16,
    ensures
        is_hex_digit(hex_digit(nibble)),
{
    reveal_strlit("0123456789abcdef");
}

/// The address of any data has the form of an address.
pub proof fn lemma_hash_of_is_hash(digest: Seq<u8>)
    requires
        digest.len() == 32,
    ensures
        is_hash(hex_of(digest)),
{
    let s = hex_of(digest);
    assert forall|i: int| 0 <= i < s.len() implies is_hex_digit(#[trigger] s[i]) by {
        let b = digest[i / 2] as int;
        lemma_hex_digit_is_hex(b / 16);
        lemma_hex_digit_is_hex(b % 16);
    }
}

fn digit_of(nibble: u8) -> (c: char)
    requires
        nibble < 16,
    ensures
        c == hex_digit(nibble as int),
{
    proof {
        reveal_strlit("0123456789abcdef");
    }
    match nibble {
        0 => '0',
        1 => '1',
        2 => '2',
        3 => '3',
        4 => '4',
        5 => '5',
        6 => '6',
        7 => '7',
        8 => '8',
        9 => '9',
        10 => 'a',
        11 => 'b',
        12 => 'c',
        13 => 'd',
        14 => 'e',
        _ => 'f',
    }
}

/// Writes `bytes` as lower-case hexadecimal digits.
pub fn to_hex(bytes: &[u8]) -> (text: String)
    ensures
        text@ == hex_of(bytes@),
{
    let mut digits: Vec<char> = Vec::new();
    let mut i: usize = 0;
    while i < bytes.len()
        invariant
            i <= bytes.len(),
            digits@ == hex_of(bytes@.take(i as int)),
        decreases bytes.len() - i,
    {
        let b = bytes[i];
        let ghost before = digits@;
        digits.push(digit_of(b / 16));
        digits.push(digit_of(b % 16));
        proof {
            let now = bytes@.take(i + 1);
            let old_bytes = bytes@.take(i as int);
            assert forall|k: int| 0 <= k < 2 * (i + 1) implies digits@[k] == hex_of(now)[k] by {
                if k < 2 * i {
                    assert(digits@[k] == before[k]);
                    assert(old_bytes[k / 2] == now[k / 2]);
                } else {
                    assert(k / 2 == i as int);
                    assert(now[k / 2] == b);
                }
            }
            assert(digits@ =~= hex_of(now));
        }
        i += 1;
    }
    assert(bytes@.take(i as int) == bytes@);
    crate::text::string_of(&digits)
}

/// Whether `c` is one of `0`..`9`, `a`..`f`.
pub fn char_is_hex_digit(c: char) -> (r: bool)
    ensures
        r == is_hex_digit(c),
{
    ('0' <= c && c <= '9') || ('a' <= c && c <= 'f')
}

/// Whether `s` has the form of an address.
pub fn is_valid_hash(s: &str) -> (r: bool)
    ensures
        r == is_hash(s@),
{
    let chars = crate::text::chars_of(s);
    if chars.len() != 64 {
        return false;
    }
    let mut i: usize = 0;
    while i < chars.len()
        invariant
            i <= chars.len(),
            chars@ == s@,
            forall|k: int| 0 <= k < i ==> is_hex_digit(#[trigger] chars@[k]),
        decreases chars.len() - i,
    {
        if !char_is_hex_digit(chars[i]) {
            return false;
        }
        i += 1;
    }
    true
}

/// The address of `data`: its SHA3-256 digest in hexadecimal.
pub fn hash_bytes(data: &[u8]) -> (hash: String)
    ensures
        hash@ == hash_of(data@),
        is_hash(hash@),
{
    let digest = sha3_256(data);
    proof {
        lemma_hash_of_is_hash(digest@);
    }
    to_hex(digest.as_slice())
}

} // verus!
