//! Terrain block table container (magic `LF`): a header and a block table
//! whose records carry externally stored payload positions.

use vstd::prelude::*;

use crate::agt::le32_at;
use crate::bytes::{ByteReader, ByteWriter};
use crate::parsers::{read_expected, ParseError};

verus! {

/// The versions this codec knows.
pub const LF_VERSION_DATE_1: u32 = 20061220;

pub const LF_VERSION_DATE_2: u32 = 20090406;

pub open spec fn spec_magic() -> Seq<u8> {
    seq![
        0x4cu8, 0x46u8, 0x00u8, 0x00u8, 0x6bu8, 0x6au8, 0x63u8, 0x00u8, 0x61u8, 0x67u8, 0x00u8,
        0x00u8,
    ]
}

pub fn magic_bytes() -> (r: Vec<u8>)
    ensures
        r@ == spec_magic(),
{
    let mut v: Vec<u8> = Vec::new();
    v.push(0x4c);
    v.push(0x46);
    v.push(0x00);
    v.push(0x00);
    v.push(0x6b);
    v.push(0x6a);
    v.push(0x63);
    v.push(0x00);
    v.push(0x61);
    v.push(0x67);
    v.push(0x00);
    v.push(0x00);
    proof {
        assert(v@ =~= spec_magic());
    }
    v
}

#[derive(Debug, Clone, Copy, PartialEq, Eq, Structural)]
pub struct Header {
    pub version_date: u32,
}

/// One terrain block: its grid position and where its externally stored
/// payload lives.
#[derive(Debug, Clone, Copy, PartialEq, Eq, Structural)]
pub struct Block {
    pub index: u32,
    pub position_x: u32,
    pub position_y: u32,
    pub file_offset: u32,
    pub file_length: u32,
    pub unknown: u32,
}

pub open spec fn spec_header_ok(s: Seq<u8>, pos: int) -> bool {
    &&& pos + 16 <= s.len()
    &&& s.subrange(pos, pos + 12) == spec_magic()
    &&& (le32_at(s, pos + 12) == LF_VERSION_DATE_1 || le32_at(s, pos + 12) == LF_VERSION_DATE_2)
}

impl Header {
    pub fn parse(r: &mut ByteReader) -> (res: Result<Header, ParseError>)
        ensures
            final(r).bytes() == old(r).bytes(),
            match res {
                Ok(h) => {
                    &&& spec_header_ok(old(r).bytes(), old(r).spec_pos())
                    &&& h.version_date == le32_at(old(r).bytes(), old(r).spec_pos() + 12)
                    &&& final(r).spec_pos() == old(r).spec_pos() + 16
                },
                Err(_) => !spec_header_ok(old(r).bytes(), old(r).spec_pos()),
            },
    {
        let magic = magic_bytes();
        match read_expected(r, &magic) {
            Ok(()) => (),
            Err(e) => {
                return Err(e);
            },
        }
        let version_date = match r.read_u32() {
            Some(x) => x,
            None => {
                return Err(ParseError::Truncated);
            },
        };
        if version_date != LF_VERSION_DATE_1 && version_date != LF_VERSION_DATE_2 {
            return Err(ParseError::BadVersion);
        }
        Ok(Header { version_date })
    }

    pub fn write(&self, w: &mut ByteWriter)
        ensures
            final(w).bytes() == old(w).bytes() + spec_magic() + vstd::bytes::spec_u32_to_le_bytes(
                self.version_date,
            ),
    {
        let magic = magic_bytes();
        w.write_bytes(magic.as_slice());
        w.write_u32(self.version_date);
    }
}

impl Block {
    /// Parse one block record at the current position.
    pub fn parse(r: &mut ByteReader) -> (res: Result<Block, ParseError>)
        ensures
            final(r).bytes() == old(r).bytes(),
            match res {
                Ok(b) => {
                    &&& old(r).spec_pos() + 24 <= old(r).bytes().len()
                    &&& b.index == le32_at(old(r).bytes(), old(r).spec_pos())
                    &&& b.position_x == le32_at(old(r).bytes(), old(r).spec_pos() + 4)
                    &&& b.position_y == le32_at(old(r).bytes(), old(r).spec_pos() + 8)
                    &&& b.file_offset == le32_at(old(r).bytes(), old(r).spec_pos() + 12)
                    &&& b.file_length == le32_at(old(r).bytes(), old(r).spec_pos() + 16)
                    &&& b.unknown == le32_at(old(r).bytes(), old(r).spec_pos() + 20)
                    &&& final(r).spec_pos() == old(r).spec_pos() + 24
                },
                Err(_) => old(r).spec_pos() + 24 > old(r).bytes().len(),
            },
    {
        let index = match r.read_u32() {
            Some(x) => x,
            None => {
                return Err(ParseError::Truncated);
            },
        };
        let position_x = match r.read_u32() {
            Some(x) => x,
            None => {
                return Err(ParseError::Truncated);
            },
        };
        let position_y = match r.read_u32() {
            Some(x) => x,
            None => {
                return Err(ParseError::Truncated);
            },
        };
        let file_offset = match r.read_u32() {
            Some(x) => x,
            None => {
                return Err(ParseError::Truncated);
            },
        };
        let file_length = match r.read_u32() {
            Some(x) => x,
            None => {
                return Err(ParseError::Truncated);
            },
        };
        let unknown = match r.read_u32() {
            Some(x) => x,
            None => {
                return Err(ParseError::Truncated);
            },
        };
        Ok(Block { index, position_x, position_y, file_offset, file_length, unknown })
    }

    /// Serialize this block, recording the absolute position of its
    /// `file_offset` field for a later backpatching pass.
    pub fn write_recording(&self, w: &mut ByteWriter, offsets: &mut Vec<usize>)
        ensures
            final(w).bytes() == old(w).bytes() + vstd::bytes::spec_u32_to_le_bytes(self.index)
                + vstd::bytes::spec_u32_to_le_bytes(self.position_x)
                + vstd::bytes::spec_u32_to_le_bytes(self.position_y)
                + vstd::bytes::spec_u32_to_le_bytes(self.file_offset)
                + vstd::bytes::spec_u32_to_le_bytes(self.file_length)
                + vstd::bytes::spec_u32_to_le_bytes(self.unknown),
            final(offsets)@.len() == old(offsets)@.len() + 1,
            final(offsets)@.take(old(offsets)@.len() as int) == old(offsets)@,
            final(offsets)@.last() as int == old(w).bytes().len() + 12,
    {
        w.write_u32(self.index);
        w.write_u32(self.position_x);
        w.write_u32(self.position_y);
        offsets.push(w.stream_len());
        proof {
            vstd::bytes::lemma_auto_spec_u32_to_from_le_bytes();
            assert(offsets@.take(offsets@.len() - 1) =~= old(offsets)@);
        }
        w.write_u32(self.file_offset);
        w.write_u32(self.file_length);
        w.write_u32(self.unknown);
    }
}

} // verus!
