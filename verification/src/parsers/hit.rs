//! Collision mesh container header (magic `hit`).

use vstd::prelude::*;

use crate::agt::le32_at;
use crate::bytes::{ByteReader, ByteWriter};
use crate::parsers::{read_expected, ParseError};

verus! {

/// The one version this codec knows.
pub const HIT_VERSION_DATE: u32 = 20060720;

pub open spec fn spec_magic() -> Seq<u8> {
    seq![0x68u8, 0x69u8, 0x74u8, 0x00u8]
}

pub fn magic_bytes() -> (r: Vec<u8>)
    ensures
        r@ == spec_magic(),
{
    let mut v: Vec<u8> = Vec::new();
    v.push(0x68);
    v.push(0x69);
    v.push(0x74);
    v.push(0x00);
    proof {
        assert(v@ =~= spec_magic());
    }
    v
}

#[derive(Debug, Clone, Copy, PartialEq, Eq, Structural)]
pub struct Header {
    pub version_date: u32,
}

/// The serialized form of the header.
pub open spec fn spec_header_bytes(h: Header) -> Seq<u8> {
    spec_magic() + vstd::bytes::spec_u32_to_le_bytes(h.version_date)
}

/// Whether a well-formed header stands at `pos` of `s`.
pub open spec fn spec_header_ok(s: Seq<u8>, pos: int) -> bool {
    &&& pos + 8 <= s.len()
    &&& s.subrange(pos, pos + 4) == spec_magic()
    &&& le32_at(s, pos + 4) == HIT_VERSION_DATE
}

impl Header {
    pub fn parse(r: &mut ByteReader) -> (res: Result<Header, ParseError>)
        ensures
            final(r).bytes() == old(r).bytes(),
            match res {
                Ok(h) => {
                    &&& spec_header_ok(old(r).bytes(), old(r).spec_pos())
                    &&& h.version_date == HIT_VERSION_DATE
                    &&& final(r).spec_pos() == old(r).spec_pos() + 8
                },
                Err(_) => !spec_header_ok(old(r).bytes(), old(r).spec_pos()),
            },
    {
        let magic = magic_bytes();
        match read_expected(r, &magic) {
            Ok(()) => (),
            Err(e) => {
                return Err(e);
            },
        }
        let version_date = match r.read_u32() {
            Some(x) => x,
            None => {
                return Err(ParseError::Truncated);
            },
        };
        if version_date != HIT_VERSION_DATE {
            return Err(ParseError::BadVersion);
        }
        Ok(Header { version_date })
    }

    pub fn write(&self, w: &mut ByteWriter)
        ensures
            final(w).bytes() == old(w).bytes() + spec_header_bytes(*self),
    {
        let magic = magic_bytes();
        w.write_bytes(magic.as_slice());
        w.write_u32(self.version_date);
        proof {
            assert(old(w).bytes() + spec_magic() + vstd::bytes::spec_u32_to_le_bytes(
                self.version_date,
            ) =~= old(w).bytes() + spec_header_bytes(*self));
        }
    }
}

} // verus!
