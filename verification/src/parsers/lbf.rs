//! Terrain block/object container (magic `LBF`): a header and nested
//! count-prefixed object tables.

use vstd::prelude::*;

use crate::agt::le32_at;
use crate::bytes::ByteReader;
use crate::parsers::{read_expected, ParseError};

verus! {

pub open spec fn spec_magic() -> Seq<u8> {
    seq![0x4cu8, 0x42u8, 0x46u8, 0x00u8, 0x6bu8, 0x6au8, 0x63u8, 0x00u8]
}

pub fn magic_bytes() -> (r: Vec<u8>)
    ensures
        r@ == spec_magic(),
{
    let mut v: Vec<u8> = Vec::new();
    v.push(0x4c);
    v.push(0x42);
    v.push(0x46);
    v.push(0x00);
    v.push(0x6b);
    v.push(0x6a);
    v.push(0x63);
    v.push(0x00);
    proof {
        assert(v@ =~= spec_magic());
    }
    v
}

#[derive(Debug, Clone, Copy, PartialEq, Eq, Structural)]
pub struct Header {
    pub unknown1: u32,
    pub version_date: u32,
    pub unknown2: u32,
    pub block_count: u32,
    pub block_object_count: u32,
}

/// One object of a block: its identity and where its externally stored
/// payload lives.
#[derive(Debug, Clone, Copy, PartialEq, Eq, Structural)]
pub struct BlockObject {
    pub unk: u32,
    pub index: u32,
    pub file_offset: u32,
    pub file_length: u32,
}

#[derive(Debug, Clone, PartialEq)]
pub struct Block {
    pub objects: Vec<BlockObject>,
}

pub open spec fn spec_header_ok(s: Seq<u8>, pos: int) -> bool {
    &&& pos + 28 <= s.len()
    &&& s.subrange(pos, pos + 8) == spec_magic()
}

impl Header {
    pub fn parse(r: &mut ByteReader) -> (res: Result<Header, ParseError>)
        ensures
            final(r).bytes() == old(r).bytes(),
            match res {
                Ok(h) => {
                    &&& spec_header_ok(old(r).bytes(), old(r).spec_pos())
                    &&& h.unknown1 == le32_at(old(r).bytes(), old(r).spec_pos() + 8)
                    &&& h.version_date == le32_at(old(r).bytes(), old(r).spec_pos() + 12)
                    &&& h.unknown2 == le32_at(old(r).bytes(), old(r).spec_pos() + 16)
                    &&& h.block_count == le32_at(old(r).bytes(), old(r).spec_pos() + 20)
                    &&& h.block_object_count == le32_at(old(r).bytes(), old(r).spec_pos() + 24)
                    &&& final(r).spec_pos() == old(r).spec_pos() + 28
                },
                Err(_) => !spec_header_ok(old(r).bytes(), old(r).spec_pos()),
            },
    {
        let magic = magic_bytes();
        match read_expected(r, &magic) {
            Ok(()) => (),
            Err(e) => {
                return Err(e);
            },
        }
        let unknown1 = match r.read_u32() {
            Some(x) => x,
            None => {
                return Err(ParseError::Truncated);
            },
        };
        let version_date = match r.read_u32() {
            Some(x) => x,
            None => {
                return Err(ParseError::Truncated);
            },
        };
        let unknown2 = match r.read_u32() {
            Some(x) => x,
            None => {
                return Err(ParseError::Truncated);
            },
        };
        let block_count = match r.read_u32() {
            Some(x) => x,
            None => {
                return Err(ParseError::Truncated);
            },
        };
        let block_object_count = match r.read_u32() {
            Some(x) => x,
            None => {
                return Err(ParseError::Truncated);
            },
        };
        Ok(Header { unknown1, version_date, unknown2, block_count, block_object_count })
    }
}

impl Block {
    /// Parse one block: an object count and that many 16-byte object
    /// records.
    pub fn parse(r: &mut ByteReader) -> (res: Result<Block, ParseError>)
        ensures
            final(r).bytes() == old(r).bytes(),
            match res {
                Ok(b) => {
                    &&& b.objects@.len() == le32_at(old(r).bytes(), old(r).spec_pos()) as int
                    &&& forall|k: int|
                        0 <= k < b.objects@.len() ==> {
                            &&& (#[trigger] b.objects@[k]).unk == le32_at(
                                old(r).bytes(),
                                old(r).spec_pos() + 4 + 16 * k,
                            )
                            &&& b.objects@[k].index == le32_at(
                                old(r).bytes(),
                                old(r).spec_pos() + 8 + 16 * k,
                            )
                            &&& b.objects@[k].file_offset == le32_at(
                                old(r).bytes(),
                                old(r).spec_pos() + 12 + 16 * k,
                            )
                            &&& b.objects@[k].file_length == le32_at(
                                old(r).bytes(),
                                old(r).spec_pos() + 16 + 16 * k,
                            )
                        }
                    &&& final(r).spec_pos() == old(r).spec_pos() + 4 + 16 * b.objects@.len()
                },
                Err(_) => old(r).spec_pos() + 4 + 16 * (le32_at(
                    old(r).bytes(),
                    old(r).spec_pos(),
                ) as int) > old(r).bytes().len(),
            },
    {
        let ghost s = r.bytes();
        let ghost pos0 = r.spec_pos();
        let object_count = match r.read_u32() {
            Some(x) => x,
            None => {
                return Err(ParseError::Truncated);
            },
        };
        let mut objects: Vec<BlockObject> = Vec::new();
        let mut i: u32 = 0;
        while i < object_count
            invariant
                s == r.bytes(),
                s == old(r).bytes(),
                pos0 == old(r).spec_pos(),
                object_count == le32_at(s, pos0),
                0 <= i <= object_count,
                objects@.len() == i as int,
                r.spec_pos() == pos0 + 4 + 16 * (i as int),
                forall|k: int|
                    0 <= k < i as int ==> {
                        &&& (#[trigger] objects@[k]).unk == le32_at(s, pos0 + 4 + 16 * k)
                        &&& objects@[k].index == le32_at(s, pos0 + 8 + 16 * k)
                        &&& objects@[k].file_offset == le32_at(s, pos0 + 12 + 16 * k)
                        &&& objects@[k].file_length == le32_at(s, pos0 + 16 + 16 * k)
                    },
            decreases object_count - i,
        {
            let unk = match r.read_u32() {
                Some(x) => x,
                None => {
                    proof {
                        assert(pos0 + 4 + 16 * (object_count as int) > s.len());
                    }
                    return Err(ParseError::Truncated);
                },
            };
            let index = match r.read_u32() {
                Some(x) => x,
                None => {
                    proof {
                        assert(pos0 + 4 + 16 * (object_count as int) > s.len());
                    }
                    return Err(ParseError::Truncated);
                },
            };
            let file_offset = match r.read_u32() {
                Some(x) => x,
                None => {
                    proof {
                        assert(pos0 + 4 + 16 * (object_count as int) > s.len());
                    }
                    return Err(ParseError::Truncated);
                },
            };
            let file_length = match r.read_u32() {
                Some(x) => x,
                None => {
                    proof {
                        assert(pos0 + 4 + 16 * (object_count as int) > s.len());
                    }
                    return Err(ParseError::Truncated);
                },
            };
            objects.push(BlockObject { unk, index, file_offset, file_length });
            i = i + 1;
        }
        Ok(Block { objects })
    }
}

} // verus!
