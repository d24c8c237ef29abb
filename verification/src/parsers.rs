//! Byte-level codecs for the sibling container formats: fixed headers and
//! count-prefixed record tables, neither enciphered nor compressed.

use vstd::prelude::*;

pub mod chpath;
pub mod hit;
pub mod lbf;
pub mod levelmodifier;
pub mod lf;
pub mod lif;
pub mod llf;
pub mod lof;
pub mod loi;
pub mod ntx;
pub mod nui;
pub mod strings;
pub mod tdf;
pub mod xlt;

use crate::bytes::ByteReader;

verus! {

/// Why a sibling container failed to parse.
#[derive(Debug, Clone, Copy, PartialEq, Eq, Structural)]
pub enum ParseError {
    /// The stream ends before the record does.
    Truncated,
    /// The stream does not begin with the format's magic.
    BadMagic,
    /// A version field holds a value this codec does not know.
    BadVersion,
    /// A string field is not validly encoded.
    BadString,
}

/// Read `expected.len()` bytes and compare them with `expected`.
pub fn read_expected(r: &mut ByteReader, expected: &Vec<u8>) -> (res: Result<(), ParseError>)
    ensures
        final(r).bytes() == old(r).bytes(),
        match res {
            Ok(()) => {
                &&& old(r).spec_pos() + expected@.len() <= old(r).bytes().len()
                &&& old(r).bytes().subrange(
                    old(r).spec_pos(),
                    old(r).spec_pos() + expected@.len(),
                ) == expected@
                &&& final(r).spec_pos() == old(r).spec_pos() + expected@.len()
            },
            Err(ParseError::Truncated) => old(r).spec_pos() + expected@.len() > old(
                r,
            ).bytes().len(),
            Err(ParseError::BadMagic) => {
                &&& old(r).spec_pos() + expected@.len() <= old(r).bytes().len()
                &&& old(r).bytes().subrange(
                    old(r).spec_pos(),
                    old(r).spec_pos() + expected@.len(),
                ) != expected@
            },
            Err(_) => false,
        },
{
    let got = match r.read_exact(expected.len()) {
        Some(v) => v,
        None => {
            return Err(ParseError::Truncated);
        },
    };
    if crate::strings::bytes_eq(&got, expected) {
        Ok(())
    } else {
        Err(ParseError::BadMagic)
    }
}

/// Read a count-prefixed list of little-endian u32 values.
pub fn read_u32_list(r: &mut ByteReader, count: u32) -> (res: Option<Vec<u32>>)
    ensures
        final(r).bytes() == old(r).bytes(),
        match res {
            Some(v) => {
                &&& v@.len() == count as int
                &&& final(r).spec_pos() == old(r).spec_pos() + 4 * (count as int)
                &&& forall|k: int|
                    0 <= k < count as int ==> (#[trigger] v@[k]) == crate::agt::le32_at(
                        old(r).bytes(),
                        old(r).spec_pos() + 4 * k,
                    )
            },
            None => old(r).spec_pos() + 4 * (count as int) > old(r).bytes().len(),
        },
{
    let ghost s = r.bytes();
    let ghost pos0 = r.spec_pos();
    let mut v: Vec<u32> = Vec::new();
    let mut i: u32 = 0;
    while i < count
        invariant
            s == r.bytes(),
            s == old(r).bytes(),
            pos0 == old(r).spec_pos(),
            0 <= i <= count,
            v@.len() == i as int,
            r.spec_pos() == pos0 + 4 * (i as int),
            forall|k: int|
                0 <= k < i as int ==> (#[trigger] v@[k]) == crate::agt::le32_at(s, pos0 + 4 * k),
        decreases count - i,
    {
        let x = match r.read_u32() {
            Some(x) => x,
            None => {
                proof {
                    assert(pos0 + 4 * (i as int) + 4 > s.len());
                    assert(pos0 + 4 * (count as int) > s.len());
                }
                return None;
            },
        };
        v.push(x);
        i = i + 1;
    }
    Some(v)
}

/// Write a list of little-endian u32 values (without a count prefix).
pub fn write_u32_list(w: &mut crate::bytes::ByteWriter, values: &Vec<u32>)
    ensures
        final(w).bytes() == old(w).bytes() + spec_u32_list_bytes(values@),
{
    let mut i: usize = 0;
    proof {
        assert(values@.take(0) =~= Seq::<u32>::empty());
        assert(w.bytes() + spec_u32_list_bytes(values@.take(0)) =~= w.bytes());
    }
    while i < values.len()
        invariant
            0 <= i <= values@.len(),
            w.bytes() == old(w).bytes() + spec_u32_list_bytes(values@.take(i as int)),
        decreases values@.len() - i,
    {
        w.write_u32(values[i]);
        proof {
            assert(values@.take(i as int + 1) =~= values@.take(i as int).push(values@[i as int]));
            lemma_u32_list_bytes_push(values@.take(i as int), values@[i as int]);
            assert(old(w).bytes() + spec_u32_list_bytes(values@.take(i as int))
                + vstd::bytes::spec_u32_to_le_bytes(values@[i as int]) =~= old(w).bytes()
                + spec_u32_list_bytes(values@.take(i as int + 1)));
        }
        i = i + 1;
    }
    proof {
        assert(values@.take(values@.len() as int) =~= values@);
    }
}

/// The little-endian serialization of a u32 list.
pub open spec fn spec_u32_list_bytes(values: Seq<u32>) -> Seq<u8>
    decreases values.len(),
{
    if values.len() == 0 {
        Seq::empty()
    } else {
        vstd::bytes::spec_u32_to_le_bytes(values[0]) + spec_u32_list_bytes(values.skip(1))
    }
}

proof fn lemma_u32_list_bytes_push(t: Seq<u32>, x: u32)
    ensures
        spec_u32_list_bytes(t.push(x)) == spec_u32_list_bytes(t) + vstd::bytes::spec_u32_to_le_bytes(x),
    decreases t.len(),
{
    if t.len() == 0 {
        assert(t.push(x)[0] == x);
        assert(t.push(x).skip(1) =~= Seq::<u32>::empty());
        assert(vstd::bytes::spec_u32_to_le_bytes(x) + spec_u32_list_bytes(Seq::<u32>::empty())
            =~= vstd::bytes::spec_u32_to_le_bytes(x));
        assert(spec_u32_list_bytes(t) + vstd::bytes::spec_u32_to_le_bytes(x)
            =~= vstd::bytes::spec_u32_to_le_bytes(x));
    } else {
        assert(t.push(x)[0] == t[0]);
        assert(t.push(x).skip(1) =~= t.skip(1).push(x));
        lemma_u32_list_bytes_push(t.skip(1), x);
        assert(spec_u32_list_bytes(t.push(x)) == vstd::bytes::spec_u32_to_le_bytes(t[0]) + (
        spec_u32_list_bytes(t.skip(1)) + vstd::bytes::spec_u32_to_le_bytes(x)));
        assert(vstd::bytes::spec_u32_to_le_bytes(t[0]) + (spec_u32_list_bytes(t.skip(1))
            + vstd::bytes::spec_u32_to_le_bytes(x)) =~= (vstd::bytes::spec_u32_to_le_bytes(t[0])
            + spec_u32_list_bytes(t.skip(1))) + vstd::bytes::spec_u32_to_le_bytes(x));
    }
}

} // verus!
