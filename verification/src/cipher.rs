//! Seekable XOR keystream transform.
//!
//! Archive bytes at absolute offset below 32 are stored in the clear; every
//! byte at offset 32 or above is XORed with `key[offset % key.len()]`.  The
//! keystream index is the *absolute* position in the file, so re-reading or
//! re-writing a region at the same offset is idempotent, while applying the
//! transform at a shifted offset does not in general restore the input.

use vstd::prelude::*;

verus! {

/// Absolute offset below which bytes pass through the transform unchanged.
pub const ACTIVATION_OFFSET: usize = 32;

/// The keystream byte XORed into the byte at absolute position `pos`.
pub open spec fn mask_at(key: Seq<u8>, pos: int) -> u8
    recommends
        key.len() > 0,
{
    if pos < ACTIVATION_OFFSET as int {
        0u8
    } else {
        key[pos % key.len() as int]
    }
}

/// A whole stream transformed at absolute positions `0..s.len()`.
pub open spec fn apply_keystream(key: Seq<u8>, s: Seq<u8>) -> Seq<u8> {
    Seq::new(s.len(), |i: int| s[i] ^ mask_at(key, i))
}

/// XOR with the same byte twice restores the original byte.
pub proof fn lemma_xor_involution(b: u8, m: u8)
    ensures
        (b ^ m) ^ m == b,
        b ^ 0u8 == b,
{
    assert((b ^ m) ^ m == b) by (bit_vector);
    assert(b ^ 0u8 == b) by (bit_vector);
}

/// Law: enciphering then deciphering at matching absolute offsets is the
/// identity, for any key and any stream.
pub proof fn lemma_keystream_involution(key: Seq<u8>, s: Seq<u8>)
    requires
        key.len() > 0,
    ensures
        apply_keystream(key, apply_keystream(key, s)) == s,
{
    let twice = apply_keystream(key, apply_keystream(key, s));
    assert forall|i: int| 0 <= i < s.len() implies twice[i] == s[i] by {
        lemma_xor_involution(s[i], mask_at(key, i));
    }
    assert(twice =~= s);
}

/// Law: the transform never touches the plaintext window `[0, 32)`, whatever
/// the key.
pub proof fn lemma_plaintext_boundary(key: Seq<u8>, s: Seq<u8>, pos: int)
    requires
        key.len() > 0,
        0 <= pos < s.len(),
        pos < ACTIVATION_OFFSET as int,
    ensures
        apply_keystream(key, s)[pos] == s[pos],
{
    lemma_xor_involution(s[pos], 0u8);
}

/// Law: at a position where two keys (or one key at two offsets) yield
/// different keystream bytes, the transformed bytes differ; deciphering with
/// the wrong key, or at a shifted offset, does not restore the original.
pub proof fn lemma_mask_mismatch_corrupts(b: u8, m1: u8, m2: u8)
    requires
        m1 != m2,
    ensures
        (b ^ m1) ^ m2 != b,
{
    assert(m1 != m2 ==> (b ^ m1) ^ m2 != b) by (bit_vector);
}

/// The keystream byte for position `pos`, computed from the key.
pub fn mask_byte(key: &Vec<u8>, pos: usize) -> (r: u8)
    requires
        key@.len() > 0,
    ensures
        r == mask_at(key@, pos as int),
{
    if pos < ACTIVATION_OFFSET {
        0
    } else {
        key[pos % key.len()]
    }
}


} // verus!
