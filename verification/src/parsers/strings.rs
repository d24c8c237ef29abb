//! Length-prefixed and null-terminated string codecs used by the container
//! formats.

use vstd::prelude::*;

use crate::agt::le32_at;
use crate::bytes::{ByteReader, ByteWriter};
use crate::parsers::ParseError;
use vstd::utf8::{decode_utf8, encode_utf8, valid_utf8};

verus! {

/// Read a u32 byte count followed by that many UTF-8 bytes.
pub fn read_int_prefixed_string(r: &mut ByteReader) -> (res: Result<String, ParseError>)
    ensures
        final(r).bytes() == old(r).bytes(),
        match res {
            Ok(s) => {
                &&& old(r).spec_pos() + 4 + le32_at(old(r).bytes(), old(r).spec_pos()) as int
                    <= old(r).bytes().len()
                &&& encode_utf8(s@) == old(r).bytes().subrange(
                    old(r).spec_pos() + 4,
                    old(r).spec_pos() + 4 + le32_at(old(r).bytes(), old(r).spec_pos()) as int,
                )
                &&& final(r).spec_pos() == old(r).spec_pos() + 4 + le32_at(
                    old(r).bytes(),
                    old(r).spec_pos(),
                ) as int
            },
            Err(_) => old(r).spec_pos() + 4 + le32_at(old(r).bytes(), old(r).spec_pos()) as int
                > old(r).bytes().len() || !vstd::utf8::valid_utf8(
                old(r).bytes().subrange(
                    old(r).spec_pos() + 4,
                    old(r).spec_pos() + 4 + le32_at(old(r).bytes(), old(r).spec_pos()) as int,
                ),
            ),
        },
{
    let count = match r.read_u32() {
        Some(x) => x,
        None => {
            return Err(ParseError::Truncated);
        },
    };
    let bytes = match r.read_exact(count as usize) {
        Some(v) => v,
        None => {
            return Err(ParseError::Truncated);
        },
    };
    match crate::strings::string_from_utf8(bytes) {
        Some(s) => Ok(s),
        None => Err(ParseError::BadString),
    }
}

/// Write a u32 byte count followed by the string's UTF-8 bytes.
pub fn write_int_prefixed_string(w: &mut ByteWriter, value: &String) -> (res: Result<
    (),
    ParseError,
>)
    ensures
        match res {
            Ok(()) => final(w).bytes() == old(w).bytes() + vstd::bytes::spec_u32_to_le_bytes(
                encode_utf8(value@).len() as u32,
            ) + encode_utf8(value@),
            Err(_) => {
                &&& encode_utf8(value@).len() > u32::MAX
                &&& final(w).bytes() == old(w).bytes()
            },
        },
{
    let b = value.as_str().as_bytes_vec();
    if b.len() > u32::MAX as usize {
        return Err(ParseError::BadString);
    }
    w.write_u32(b.len() as u32);
    w.write_bytes(b.as_slice());
    proof {
        assert(old(w).bytes() + vstd::bytes::spec_u32_to_le_bytes(encode_utf8(value@).len() as u32)
            + encode_utf8(value@) =~= final(w).bytes());
    }
    Ok(())
}

/// Bytes of `s` before its first NUL.
pub open spec fn spec_until_nul(s: Seq<u8>, pos: int) -> Seq<u8>
    decreases s.len() - pos,
{
    if pos < 0 || pos >= s.len() || s[pos] == 0 {
        Seq::empty()
    } else {
        seq![s[pos]] + spec_until_nul(s, pos + 1)
    }
}

/// Read bytes up to and including the next NUL, decoding them as UTF-8.
pub fn read_null_terminated_string(r: &mut ByteReader) -> (res: Result<String, ParseError>)
    ensures
        final(r).bytes() == old(r).bytes(),
        match res {
            Ok(s) => encode_utf8(s@) == spec_until_nul(old(r).bytes(), old(r).spec_pos())
                && final(r).spec_pos() == old(r).spec_pos() + spec_until_nul(
                old(r).bytes(),
                old(r).spec_pos(),
            ).len() + 1 && final(r).spec_pos() <= old(r).bytes().len(),
            Err(_) => ({
                let t = spec_until_nul(old(r).bytes(), old(r).spec_pos());
                old(r).spec_pos() + t.len() + 1 > old(r).bytes().len() || !valid_utf8(t)
            }),
        },
{
    let ghost s0 = r.bytes();
    let ghost pos0 = r.spec_pos();
    if r.position() > r.stream_len() {
        proof {
            assert(spec_until_nul(s0, pos0) =~= Seq::<u8>::empty());
        }
        return Err(ParseError::Truncated);
    }
    let mut bytes: Vec<u8> = Vec::new();
    proof {
        r.lemma_pos_nonneg();
        assert(bytes@ + spec_until_nul(s0, pos0) =~= spec_until_nul(s0, pos0));
    }
    loop
        invariant
            r.bytes() == s0,
            s0 == old(r).bytes(),
            pos0 == old(r).spec_pos(),
            pos0 <= r.spec_pos() <= s0.len(),
            0 <= pos0,
            forall|k: int| pos0 <= k < r.spec_pos() ==> s0[k] != 0,
            bytes@.len() == r.spec_pos() - pos0,
            bytes@ + spec_until_nul(s0, r.spec_pos()) == spec_until_nul(s0, pos0),
        decreases s0.len() - r.spec_pos(),
    {
        let ghost cur = r.spec_pos();
        let b = match r.read_u8() {
            Some(b) => b,
            None => {
                proof {
                    assert(spec_until_nul(s0, cur) =~= Seq::<u8>::empty());
                    assert(bytes@ + Seq::<u8>::empty() =~= bytes@);
                    assert(spec_until_nul(s0, pos0).len() == cur - pos0);
                }
                return Err(ParseError::Truncated);
            },
        };
        if b == 0 {
            proof {
                assert(spec_until_nul(s0, cur) =~= Seq::<u8>::empty());
                assert(bytes@ + Seq::<u8>::empty() =~= bytes@);
                assert(bytes@ == spec_until_nul(s0, pos0));
                assert(r.spec_pos() == pos0 + spec_until_nul(s0, pos0).len() + 1);
            }
            return match crate::strings::string_from_utf8(bytes) {
                Some(s) => Ok(s),
                None => Err(ParseError::BadString),
            };
        }
        let ghost bytes0 = bytes@;
        bytes.push(b);
        proof {
            assert(spec_until_nul(s0, cur) == seq![s0[cur]] + spec_until_nul(s0, cur + 1));
            assert(bytes@ =~= bytes0 + seq![s0[cur]]);
            assert(bytes@ + spec_until_nul(s0, cur + 1) =~= bytes0 + spec_until_nul(s0, cur));
        }
    }
}

/// Write the string's UTF-8 bytes followed by a NUL.
pub fn write_null_terminated_string(w: &mut ByteWriter, value: &String)
    ensures
        final(w).bytes() == old(w).bytes() + encode_utf8(value@) + seq![0u8],
{
    let b = value.as_str().as_bytes_vec();
    w.write_bytes(b.as_slice());
    w.write_u8(0);
}

} // verus!
