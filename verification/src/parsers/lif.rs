//! Terrain index container (magic `LIF`): a header and a flat block table.

use vstd::prelude::*;

use crate::agt::le32_at;
use crate::bytes::{ByteReader, ByteWriter};
use crate::parsers::{read_expected, ParseError};

verus! {

/// The one version this codec knows.
pub const LIF_VERSION_DATE: u32 = 20061213;

pub open spec fn spec_magic() -> Seq<u8> {
    seq![0x4cu8, 0x49u8, 0x46u8, 0x00u8, 0x6bu8, 0x6au8, 0x63u8, 0x00u8]
}

pub fn magic_bytes() -> (r: Vec<u8>)
    ensures
        r@ == spec_magic(),
{
    let mut v: Vec<u8> = Vec::new();
    v.push(0x4c);
    v.push(0x49);
    v.push(0x46);
    v.push(0x00);
    v.push(0x6b);
    v.push(0x6a);
    v.push(0x63);
    v.push(0x00);
    proof {
        assert(v@ =~= spec_magic());
    }
    v
}

#[derive(Debug, Clone, Copy, PartialEq, Eq, Structural)]
pub struct Header {
    pub unknown1: u32,
    pub version_date: u32,
}

#[derive(Debug, Clone, Copy, PartialEq, Eq, Structural)]
pub struct Block {
    pub index: u32,
    pub unk: u32,
}

#[derive(Debug, Clone, PartialEq)]
pub struct Lif {
    pub header: Header,
    pub blocks: Vec<Block>,
}

pub open spec fn spec_header_bytes(h: Header) -> Seq<u8> {
    spec_magic() + vstd::bytes::spec_u32_to_le_bytes(h.unknown1)
        + vstd::bytes::spec_u32_to_le_bytes(h.version_date)
}

pub open spec fn spec_header_ok(s: Seq<u8>, pos: int) -> bool {
    &&& pos + 16 <= s.len()
    &&& s.subrange(pos, pos + 8) == spec_magic()
    &&& le32_at(s, pos + 12) == LIF_VERSION_DATE
}

impl Header {
    pub fn parse(r: &mut ByteReader) -> (res: Result<Header, ParseError>)
        ensures
            final(r).bytes() == old(r).bytes(),
            match res {
                Ok(h) => {
                    &&& spec_header_ok(old(r).bytes(), old(r).spec_pos())
                    &&& h.unknown1 == le32_at(old(r).bytes(), old(r).spec_pos() + 8)
                    &&& h.version_date == LIF_VERSION_DATE
                    &&& final(r).spec_pos() == old(r).spec_pos() + 16
                },
                Err(_) => !spec_header_ok(old(r).bytes(), old(r).spec_pos()),
            },
    {
        let magic = magic_bytes();
        match read_expected(r, &magic) {
            Ok(()) => (),
            Err(e) => {
                return Err(e);
            },
        }
        let unknown1 = match r.read_u32() {
            Some(x) => x,
            None => {
                return Err(ParseError::Truncated);
            },
        };
        let version_date = match r.read_u32() {
            Some(x) => x,
            None => {
                return Err(ParseError::Truncated);
            },
        };
        if version_date != LIF_VERSION_DATE {
            return Err(ParseError::BadVersion);
        }
        Ok(Header { unknown1, version_date })
    }

    pub fn write(&self, w: &mut ByteWriter)
        ensures
            final(w).bytes() == old(w).bytes() + spec_header_bytes(*self),
    {
        let magic = magic_bytes();
        w.write_bytes(magic.as_slice());
        w.write_u32(self.unknown1);
        w.write_u32(self.version_date);
        proof {
            assert(old(w).bytes() + spec_magic() + vstd::bytes::spec_u32_to_le_bytes(self.unknown1)
                + vstd::bytes::spec_u32_to_le_bytes(self.version_date) =~= old(w).bytes()
                + spec_header_bytes(*self));
        }
    }
}

impl Lif {
    /// Parse the header, a block count, and that many `(index, unk)` block
    /// records.
    pub fn read(r: &mut ByteReader) -> (res: Result<Lif, ParseError>)
        ensures
            final(r).bytes() == old(r).bytes(),
            match res {
                Ok(l) => {
                    &&& spec_header_ok(old(r).bytes(), old(r).spec_pos())
                    &&& l.header.version_date == LIF_VERSION_DATE
                    &&& l.blocks@.len() == le32_at(old(r).bytes(), old(r).spec_pos() + 16) as int
                    &&& forall|k: int|
                        0 <= k < l.blocks@.len() ==> {
                            &&& (#[trigger] l.blocks@[k]).index == le32_at(
                                old(r).bytes(),
                                old(r).spec_pos() + 20 + 8 * k,
                            )
                            &&& l.blocks@[k].unk == le32_at(
                                old(r).bytes(),
                                old(r).spec_pos() + 24 + 8 * k,
                            )
                        }
                    &&& final(r).spec_pos() == old(r).spec_pos() + 20 + 8 * l.blocks@.len()
                },
                Err(_) => !spec_header_ok(old(r).bytes(), old(r).spec_pos()) || old(r).spec_pos()
                    + 20 + 8 * (le32_at(old(r).bytes(), old(r).spec_pos() + 16) as int) > old(
                    r,
                ).bytes().len(),
            },
    {
        let ghost s = r.bytes();
        let ghost pos0 = r.spec_pos();
        let header = match Header::parse(r) {
            Ok(h) => h,
            Err(e) => {
                return Err(e);
            },
        };
        let block_count = match r.read_u32() {
            Some(x) => x,
            None => {
                return Err(ParseError::Truncated);
            },
        };
        let mut blocks: Vec<Block> = Vec::new();
        let mut i: u32 = 0;
        while i < block_count
            invariant
                s == r.bytes(),
                s == old(r).bytes(),
                pos0 == old(r).spec_pos(),
                spec_header_ok(s, pos0),
                block_count == le32_at(s, pos0 + 16),
                0 <= i <= block_count,
                blocks@.len() == i as int,
                r.spec_pos() == pos0 + 20 + 8 * (i as int),
                forall|k: int|
                    0 <= k < i as int ==> {
                        &&& (#[trigger] blocks@[k]).index == le32_at(s, pos0 + 20 + 8 * k)
                        &&& blocks@[k].unk == le32_at(s, pos0 + 24 + 8 * k)
                    },
            decreases block_count - i,
        {
            let index = match r.read_u32() {
                Some(x) => x,
                None => {
                    proof {
                        assert(pos0 + 20 + 8 * (block_count as int) > s.len());
                    }
                    return Err(ParseError::Truncated);
                },
            };
            let unk = match r.read_u32() {
                Some(x) => x,
                None => {
                    proof {
                        assert(pos0 + 20 + 8 * (block_count as int) > s.len());
                    }
                    return Err(ParseError::Truncated);
                },
            };
            blocks.push(Block { index, unk });
            i = i + 1;
        }
        Ok(Lif { header, blocks })
    }

    /// Serialize the header, the block count, and the block records.
    pub fn write(&self, w: &mut ByteWriter)
        requires
            self.blocks@.len() <= u32::MAX,
        ensures
            final(w).bytes() == old(w).bytes() + spec_header_bytes(self.header)
                + vstd::bytes::spec_u32_to_le_bytes(self.blocks@.len() as u32) + spec_blocks_bytes(
                self.blocks@,
            ),
    {
        self.header.write(w);
        w.write_u32(self.blocks.len() as u32);
        let ghost base = w.bytes();
        let mut i: usize = 0;
        proof {
            assert(self.blocks@.take(0) =~= Seq::<Block>::empty());
            assert(base + spec_blocks_bytes(self.blocks@.take(0)) =~= base);
        }
        while i < self.blocks.len()
            invariant
                0 <= i <= self.blocks@.len(),
                w.bytes() == base + spec_blocks_bytes(self.blocks@.take(i as int)),
            decreases self.blocks@.len() - i,
        {
            w.write_u32(self.blocks[i].index);
            w.write_u32(self.blocks[i].unk);
            proof {
                assert(self.blocks@.take(i as int + 1) =~= self.blocks@.take(i as int).push(
                    self.blocks@[i as int],
                ));
                lemma_blocks_bytes_push(self.blocks@.take(i as int), self.blocks@[i as int]);
                assert(base + spec_blocks_bytes(self.blocks@.take(i as int))
                    + vstd::bytes::spec_u32_to_le_bytes(self.blocks@[i as int].index)
                    + vstd::bytes::spec_u32_to_le_bytes(self.blocks@[i as int].unk) =~= base
                    + spec_blocks_bytes(self.blocks@.take(i as int + 1)));
            }
            i = i + 1;
        }
        proof {
            assert(self.blocks@.take(self.blocks@.len() as int) =~= self.blocks@);
        }
    }
}

/// The serialized form of the block table (without its count prefix).
pub open spec fn spec_blocks_bytes(blocks: Seq<Block>) -> Seq<u8>
    decreases blocks.len(),
{
    if blocks.len() == 0 {
        Seq::empty()
    } else {
        vstd::bytes::spec_u32_to_le_bytes(blocks[0].index) + vstd::bytes::spec_u32_to_le_bytes(
            blocks[0].unk,
        ) + spec_blocks_bytes(blocks.skip(1))
    }
}

proof fn lemma_blocks_bytes_push(t: Seq<Block>, b: Block)
    ensures
        spec_blocks_bytes(t.push(b)) == spec_blocks_bytes(t) + vstd::bytes::spec_u32_to_le_bytes(
            b.index,
        ) + vstd::bytes::spec_u32_to_le_bytes(b.unk),
    decreases t.len(),
{
    let bb = vstd::bytes::spec_u32_to_le_bytes(b.index) + vstd::bytes::spec_u32_to_le_bytes(b.unk);
    if t.len() == 0 {
        assert(t.push(b)[0] == b);
        assert(t.push(b).skip(1) =~= Seq::<Block>::empty());
        assert(vstd::bytes::spec_u32_to_le_bytes(b.index) + vstd::bytes::spec_u32_to_le_bytes(
            b.unk,
        ) + spec_blocks_bytes(Seq::<Block>::empty()) =~= bb);
        assert(spec_blocks_bytes(t) + vstd::bytes::spec_u32_to_le_bytes(b.index)
            + vstd::bytes::spec_u32_to_le_bytes(b.unk) =~= bb);
    } else {
        assert(t.push(b)[0] == t[0]);
        assert(t.push(b).skip(1) =~= t.skip(1).push(b));
        lemma_blocks_bytes_push(t.skip(1), b);
        assert(spec_blocks_bytes(t.push(b)) =~= spec_blocks_bytes(t)
            + vstd::bytes::spec_u32_to_le_bytes(b.index) + vstd::bytes::spec_u32_to_le_bytes(
            b.unk,
        ));
    }
}

} // verus!
