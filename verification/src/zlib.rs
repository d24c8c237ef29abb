//! Chunked zlib transcoding.
//!
//! An entry's payload is partitioned into fixed 16384-byte slices (the last
//! one shorter) and each slice is deflated as an independent zlib stream.
//! The compressed streams are opaque: their contents are only named by the
//! `deflate_of` / `inflate_of` spec functions, and the one fact relied on is
//! that inflating a freshly deflated slice yields the slice back.

use vstd::prelude::*;

verus! {

/// Raw size of each independently deflated slice of an entry's payload.
pub const CHUNK_SIZE: usize = 16384;

/// What flate2's zlib encoder, at the default compression level, produces
/// for the exact input `s`.
pub uninterp spec fn deflate_of(s: Seq<u8>) -> Seq<u8>;

/// What flate2's zlib decoder produces for the exact input `s`: the
/// decompressed bytes, or `None` when `s` is not a well-formed zlib stream.
pub uninterp spec fn inflate_of(s: Seq<u8>) -> Option<Seq<u8>>;

/// Relies on flate2::write::ZlibEncoder (default level) to deflate `b` as a
/// single zlib stream, and on flate2's decoder recovering exactly the bytes
/// that were compressed; writing into a Vec cannot fail.
#[verifier::external_body]
pub fn deflate_chunk(b: &[u8]) -> (r: Vec<u8>)
    ensures
        r@ == deflate_of(b@),
        inflate_of(r@) == Some(b@),
{
    let mut enc = flate2::write::ZlibEncoder::new(Vec::new(), flate2::Compression::default());
    std::io::Write::write_all(&mut enc, b).expect("writing to a Vec cannot fail");
    enc.finish().expect("writing to a Vec cannot fail")
}

/// Relies on flate2::read::ZlibDecoder to inflate a single zlib stream,
/// failing on corrupt or truncated input.
#[verifier::external_body]
pub fn inflate_chunk(b: &[u8]) -> (r: Option<Vec<u8>>)
    ensures
        match r {
            Some(v) => inflate_of(b@) == Some(v@),
            None => inflate_of(b@) is None,
        },
{
    let mut dec = flate2::read::ZlibDecoder::new(b);
    let mut out = Vec::new();
    match std::io::Read::read_to_end(&mut dec, &mut out) {
        Ok(_) => Some(out),
        Err(_) => None,
    }
}

/// How many chunks a payload of `len` raw bytes occupies:
/// `ceil(len / 16384)`.
pub open spec fn chunk_count_of(len: nat) -> nat {
    ((len + (CHUNK_SIZE - 1)) / CHUNK_SIZE as int) as nat
}

/// The payload partitioned into its chunk slices, in order.
pub open spec fn chunk_slices(s: Seq<u8>) -> Seq<Seq<u8>>
    decreases s.len(),
{
    if s.len() == 0 {
        Seq::empty()
    } else if s.len() <= CHUNK_SIZE {
        seq![s]
    } else {
        seq![s.take(CHUNK_SIZE as int)] + chunk_slices(s.skip(CHUNK_SIZE as int))
    }
}

/// Adding the denominator to a non-negative numerator raises the quotient
/// by one.
proof fn lemma_div_plus_denominator(x: int, n: int)
    requires
        n > 0,
        x >= 0,
    ensures
        (x + n) / n == x / n + 1,
{
    vstd::arithmetic::div_mod::lemma_fundamental_div_mod(x, n);
    vstd::arithmetic::div_mod::lemma_mod_bound(x, n);
    let q = x / n;
    let r = x % n;
    assert(x + n == (q + 1) * n + r) by (nonlinear_arith)
        requires
            x == n * q + r,
    ;
    vstd::arithmetic::div_mod::lemma_fundamental_div_mod_converse(x + n, n, q + 1, r);
}

/// The partition has exactly `ceil(len / 16384)` slices, each at most 16384
/// bytes, none empty, and concatenating them restores the payload.
pub proof fn lemma_chunk_slices(s: Seq<u8>)
    ensures
        chunk_slices(s).len() == chunk_count_of(s.len()),
        forall|i: int|
            0 <= i < chunk_slices(s).len() ==> 0 < (#[trigger] chunk_slices(s)[i]).len()
                <= CHUNK_SIZE as int,
        concat_all(chunk_slices(s)) == s,
    decreases s.len(),
{
    vstd::arithmetic::div_mod::lemma_div_pos_is_pos(s.len() as int + (CHUNK_SIZE - 1) as int, CHUNK_SIZE as int);
    if s.len() == 0 {
        assert(chunk_count_of(0) == 0) by {
            vstd::arithmetic::div_mod::lemma_basic_div((CHUNK_SIZE - 1) as int, CHUNK_SIZE as int);
        }
        assert(concat_all(chunk_slices(s)) =~= s);
    } else if s.len() <= CHUNK_SIZE {
        assert(chunk_count_of(s.len()) == 1) by {
            vstd::arithmetic::div_mod::lemma_basic_div(
                (s.len() + (CHUNK_SIZE - 1)) as int - CHUNK_SIZE as int,
                CHUNK_SIZE as int,
            );
            lemma_div_plus_denominator(
                (s.len() + (CHUNK_SIZE - 1)) as int - CHUNK_SIZE as int,
                CHUNK_SIZE as int,
            );
        }
        let parts = chunk_slices(s);
        assert(parts == seq![s]);
        assert(parts.skip(1) =~= Seq::<Seq<u8>>::empty());
        assert(concat_all(parts) == s + concat_all(parts.skip(1)));
        assert(concat_all(parts) =~= s);
    } else {
        let head = s.take(CHUNK_SIZE as int);
        let tail = s.skip(CHUNK_SIZE as int);
        lemma_chunk_slices(tail);
        assert(chunk_count_of(s.len()) == 1 + chunk_count_of(tail.len())) by {
            lemma_div_plus_denominator(
                (tail.len() + (CHUNK_SIZE - 1)) as int,
                CHUNK_SIZE as int,
            );
        }
        let parts = chunk_slices(s);
        assert(parts == seq![head] + chunk_slices(tail));
        assert(parts[0] == head);
        assert(parts.skip(1) =~= chunk_slices(tail));
        assert(concat_all(parts) == head + concat_all(chunk_slices(tail)));
        assert(head + tail =~= s);
    }
}

/// A sequence of byte sequences joined in order.
pub open spec fn concat_all(parts: Seq<Seq<u8>>) -> Seq<u8>
    decreases parts.len(),
{
    if parts.len() == 0 {
        Seq::empty()
    } else {
        parts[0] + concat_all(parts.skip(1))
    }
}

/// How many chunks a payload of `len` raw bytes occupies, computed without
/// overflow.
pub fn chunk_count(len: usize) -> (r: usize)
    ensures
        r as nat == chunk_count_of(len as nat),
        r as int <= len as int,
        len > 0 ==> r >= 1,
{
    if len == 0 {
        proof {
            assert(chunk_count_of(0) == 0) by {
                vstd::arithmetic::div_mod::lemma_basic_div(
                    (CHUNK_SIZE - 1) as int,
                    CHUNK_SIZE as int,
                );
            }
        }
        0
    } else {
        let r = 1 + (len - 1) / CHUNK_SIZE;
        proof {
            let l = len as int;
            let c = CHUNK_SIZE as int;
            lemma_div_plus_denominator(l - 1, c);
            assert((l - 1 + c) / c == (l - 1) / c + 1);
            vstd::arithmetic::div_mod::lemma_div_is_ordered(l - 1, (l - 1) * c, c);
            vstd::arithmetic::div_mod::lemma_div_multiples_vanish(l - 1, c);
            assert((l - 1) * 1 <= (l - 1) * c) by (nonlinear_arith)
                requires
                    l >= 1,
                    c >= 1,
            ;
        }
        r
    }
}

/// A payload never has more chunks than bytes.
pub proof fn lemma_chunk_count_le(len: nat)
    ensures
        chunk_count_of(len) <= len,
{
    if len == 0 {
        vstd::arithmetic::div_mod::lemma_basic_div((CHUNK_SIZE - 1) as int, CHUNK_SIZE as int);
    } else {
        let l = len as int;
        let c = CHUNK_SIZE as int;
        lemma_div_plus_denominator(l - 1, c);
        vstd::arithmetic::div_mod::lemma_div_is_ordered(l - 1, (l - 1) * c, c);
        vstd::arithmetic::div_mod::lemma_div_multiples_vanish(l - 1, c);
        assert((l - 1) * 1 <= (l - 1) * c) by (nonlinear_arith)
            requires
                l >= 1,
                c >= 1,
        ;
    }
}

} // verus!
