//! Lane table container (magic `LLF`): a header and a block table whose
//! records carry externally stored payload positions.

use vstd::prelude::*;

use crate::agt::le32_at;
use crate::bytes::{ByteReader, ByteWriter};
use crate::parsers::{read_expected, ParseError};

verus! {

/// The one version this codec knows.
pub const LLF_VERSION_DATE: u32 = 20061204;

pub open spec fn spec_magic() -> Seq<u8> {
    seq![
        0x4cu8, 0x4cu8, 0x46u8, 0x00u8, 0x6bu8, 0x6au8, 0x63u8, 0x00u8, 0x61u8, 0x67u8, 0x00u8,
        0x00u8,
    ]
}

pub fn magic_bytes() -> (r: Vec<u8>)
    ensures
        r@ == spec_magic(),
{
    let mut v: Vec<u8> = Vec::new();
    v.push(0x4c);
    v.push(0x4c);
    v.push(0x46);
    v.push(0x00);
    v.push(0x6b);
    v.push(0x6a);
    v.push(0x63);
    v.push(0x00);
    v.push(0x61);
    v.push(0x67);
    v.push(0x00);
    v.push(0x00);
    proof {
        assert(v@ =~= spec_magic());
    }
    v
}

#[derive(Debug, Clone, Copy, PartialEq, Eq, Structural)]
pub struct Header {
    pub version_date: u32,
    pub unk: u32,
}

/// One lane block: its index and where its externally stored payload lives.
#[derive(Debug, Clone, Copy, PartialEq, Eq, Structural)]
pub struct Block {
    pub block_index: u32,
    pub file_offset: u32,
    pub file_length: u32,
}

#[derive(Debug, Clone, PartialEq)]
pub struct Llf {
    pub header: Header,
    pub blocks: Vec<Block>,
}

pub open spec fn spec_header_ok(s: Seq<u8>, pos: int) -> bool {
    &&& pos + 20 <= s.len()
    &&& s.subrange(pos, pos + 12) == spec_magic()
    &&& le32_at(s, pos + 12) == LLF_VERSION_DATE
}

impl Header {
    pub fn parse(r: &mut ByteReader) -> (res: Result<Header, ParseError>)
        ensures
            final(r).bytes() == old(r).bytes(),
            match res {
                Ok(h) => {
                    &&& spec_header_ok(old(r).bytes(), old(r).spec_pos())
                    &&& h.version_date == LLF_VERSION_DATE
                    &&& h.unk == le32_at(old(r).bytes(), old(r).spec_pos() + 16)
                    &&& final(r).spec_pos() == old(r).spec_pos() + 20
                },
                Err(_) => !spec_header_ok(old(r).bytes(), old(r).spec_pos()),
            },
    {
        let magic = magic_bytes();
        match read_expected(r, &magic) {
            Ok(()) => (),
            Err(e) => {
                return Err(e);
            },
        }
        let version_date = match r.read_u32() {
            Some(x) => x,
            None => {
                return Err(ParseError::Truncated);
            },
        };
        if version_date != LLF_VERSION_DATE {
            return Err(ParseError::BadVersion);
        }
        let unk = match r.read_u32() {
            Some(x) => x,
            None => {
                return Err(ParseError::Truncated);
            },
        };
        Ok(Header { version_date, unk })
    }

    pub fn write(&self, w: &mut ByteWriter)
        ensures
            final(w).bytes() == old(w).bytes() + spec_magic() + vstd::bytes::spec_u32_to_le_bytes(
                self.version_date,
            ) + vstd::bytes::spec_u32_to_le_bytes(self.unk),
    {
        let magic = magic_bytes();
        w.write_bytes(magic.as_slice());
        w.write_u32(self.version_date);
        w.write_u32(self.unk);
    }
}

impl Block {
    /// Serialize this block, recording the absolute position of its
    /// `file_offset` field so a later pass can backpatch it once the
    /// payload's real position is known.
    pub fn write_recording(&self, w: &mut ByteWriter, offsets: &mut Vec<usize>)
        ensures
            final(w).bytes() == old(w).bytes() + vstd::bytes::spec_u32_to_le_bytes(
                self.block_index,
            ) + vstd::bytes::spec_u32_to_le_bytes(self.file_offset)
                + vstd::bytes::spec_u32_to_le_bytes(self.file_length),
            final(offsets)@.len() == old(offsets)@.len() + 1,
            final(offsets)@.take(old(offsets)@.len() as int) == old(offsets)@,
            final(offsets)@.last() as int == old(w).bytes().len() + 4,
    {
        w.write_u32(self.block_index);
        offsets.push(w.stream_len());
        proof {
            vstd::bytes::lemma_auto_spec_u32_to_from_le_bytes();
            assert(offsets@.take(offsets@.len() - 1) =~= old(offsets)@);
        }
        w.write_u32(self.file_offset);
        w.write_u32(self.file_length);
    }
}

impl Llf {
    /// Parse the header, a block count, and that many block records.
    pub fn read(r: &mut ByteReader) -> (res: Result<Llf, ParseError>)
        ensures
            final(r).bytes() == old(r).bytes(),
            match res {
                Ok(l) => {
                    &&& spec_header_ok(old(r).bytes(), old(r).spec_pos())
                    &&& l.header.version_date == LLF_VERSION_DATE
                    &&& l.blocks@.len() == le32_at(old(r).bytes(), old(r).spec_pos() + 20) as int
                    &&& forall|k: int|
                        0 <= k < l.blocks@.len() ==> {
                            &&& (#[trigger] l.blocks@[k]).block_index == le32_at(
                                old(r).bytes(),
                                old(r).spec_pos() + 24 + 12 * k,
                            )
                            &&& l.blocks@[k].file_offset == le32_at(
                                old(r).bytes(),
                                old(r).spec_pos() + 28 + 12 * k,
                            )
                            &&& l.blocks@[k].file_length == le32_at(
                                old(r).bytes(),
                                old(r).spec_pos() + 32 + 12 * k,
                            )
                        }
                    &&& final(r).spec_pos() == old(r).spec_pos() + 24 + 12 * l.blocks@.len()
                },
                Err(_) => !spec_header_ok(old(r).bytes(), old(r).spec_pos()) || old(r).spec_pos()
                    + 24 + 12 * (le32_at(old(r).bytes(), old(r).spec_pos() + 20) as int) > old(
                    r,
                ).bytes().len(),
            },
    {
        let ghost s = r.bytes();
        let ghost pos0 = r.spec_pos();
        let header = match Header::parse(r) {
            Ok(h) => h,
            Err(e) => {
                return Err(e);
            },
        };
        let block_count = match r.read_u32() {
            Some(x) => x,
            None => {
                return Err(ParseError::Truncated);
            },
        };
        let mut blocks: Vec<Block> = Vec::new();
        let mut i: u32 = 0;
        while i < block_count
            invariant
                s == r.bytes(),
                s == old(r).bytes(),
                pos0 == old(r).spec_pos(),
                spec_header_ok(s, pos0),
                block_count == le32_at(s, pos0 + 20),
                0 <= i <= block_count,
                blocks@.len() == i as int,
                r.spec_pos() == pos0 + 24 + 12 * (i as int),
                forall|k: int|
                    0 <= k < i as int ==> {
                        &&& (#[trigger] blocks@[k]).block_index == le32_at(s, pos0 + 24 + 12 * k)
                        &&& blocks@[k].file_offset == le32_at(s, pos0 + 28 + 12 * k)
                        &&& blocks@[k].file_length == le32_at(s, pos0 + 32 + 12 * k)
                    },
            decreases block_count - i,
        {
            let block_index = match r.read_u32() {
                Some(x) => x,
                None => {
                    proof {
                        assert(pos0 + 24 + 12 * (block_count as int) > s.len());
                    }
                    return Err(ParseError::Truncated);
                },
            };
            let file_offset = match r.read_u32() {
                Some(x) => x,
                None => {
                    proof {
                        assert(pos0 + 24 + 12 * (block_count as int) > s.len());
                    }
                    return Err(ParseError::Truncated);
                },
            };
            let file_length = match r.read_u32() {
                Some(x) => x,
                None => {
                    proof {
                        assert(pos0 + 24 + 12 * (block_count as int) > s.len());
                    }
                    return Err(ParseError::Truncated);
                },
            };
            blocks.push(Block { block_index, file_offset, file_length });
            i = i + 1;
        }
        Ok(Llf { header, blocks })
    }
}

} // verus!
