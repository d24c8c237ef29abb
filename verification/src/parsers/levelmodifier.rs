//! Vehicle level-modifier table header (magic `DPDB`): the version tag
//! decides how many rows each stat group holds.

use vstd::prelude::*;

use crate::agt::le32_at;
use crate::bytes::{ByteReader, ByteWriter};
use crate::parsers::{read_expected, ParseError};

verus! {

/// Version magics as stored in the file.
pub const STAGE1_MAGIC: u32 = 20070507;

pub const STAGE2_MAGIC: u32 = 20100814;

pub const STAGE3_MAGIC: u32 = 20110901;

#[derive(Debug, Clone, Copy, PartialEq, Eq, Structural)]
pub enum LevelModifierVersion {
    Stage1,
    Stage2,
    Stage3,
}

impl LevelModifierVersion {
    /// The version magic written for this version.
    pub open spec fn spec_magic_value(&self) -> u32 {
        match self {
            LevelModifierVersion::Stage1 => STAGE1_MAGIC,
            LevelModifierVersion::Stage2 => STAGE2_MAGIC,
            LevelModifierVersion::Stage3 => STAGE3_MAGIC,
        }
    }

    /// Rows per speed/accel stat group.
    pub fn stat_range(&self) -> (r: usize)
        ensures
            r == match self {
                LevelModifierVersion::Stage1 => 801int,
                LevelModifierVersion::Stage2 => 1001int,
                LevelModifierVersion::Stage3 => 1601int,
            },
    {
        match self {
            LevelModifierVersion::Stage1 => 801,
            LevelModifierVersion::Stage2 => 1001,
            LevelModifierVersion::Stage3 => 1601,
        }
    }

    /// Rows per durability group; only the newest layout widens it.
    pub fn dura_range(&self) -> (r: usize)
        ensures
            r == match self {
                LevelModifierVersion::Stage1 => 801int,
                LevelModifierVersion::Stage2 => 1001int,
                LevelModifierVersion::Stage3 => 2501int,
            },
    {
        match self {
            LevelModifierVersion::Stage1 => self.stat_range(),
            LevelModifierVersion::Stage2 => self.stat_range(),
            LevelModifierVersion::Stage3 => 2501,
        }
    }

    /// Rows per boost group; only the newest layout widens it.
    pub fn boost_range(&self) -> (r: usize)
        ensures
            r == match self {
                LevelModifierVersion::Stage1 => 801int,
                LevelModifierVersion::Stage2 => 1001int,
                LevelModifierVersion::Stage3 => 1201int,
            },
    {
        match self {
            LevelModifierVersion::Stage1 => self.stat_range(),
            LevelModifierVersion::Stage2 => self.stat_range(),
            LevelModifierVersion::Stage3 => 1201,
        }
    }

    /// Whether the file carries the extra field groups of the middle
    /// layout.
    pub fn has_stage2_fields(&self) -> (r: bool)
        ensures
            r == (self is Stage2),
    {
        match self {
            LevelModifierVersion::Stage1 => false,
            LevelModifierVersion::Stage2 => true,
            LevelModifierVersion::Stage3 => false,
        }
    }
}

pub open spec fn spec_magic() -> Seq<u8> {
    seq![0x44u8, 0x50u8, 0x44u8, 0x42u8]
}

pub fn magic_bytes() -> (r: Vec<u8>)
    ensures
        r@ == spec_magic(),
{
    let mut v: Vec<u8> = Vec::new();
    v.push(0x44);
    v.push(0x50);
    v.push(0x44);
    v.push(0x42);
    proof {
        assert(v@ =~= spec_magic());
    }
    v
}

#[derive(Debug, Clone, Copy, PartialEq, Eq, Structural)]
pub struct Header {
    pub version: LevelModifierVersion,
}

pub open spec fn spec_header_ok(s: Seq<u8>, pos: int) -> bool {
    &&& pos + 8 <= s.len()
    &&& s.subrange(pos, pos + 4) == spec_magic()
    &&& (le32_at(s, pos + 4) == STAGE1_MAGIC || le32_at(s, pos + 4) == STAGE2_MAGIC || le32_at(
        s,
        pos + 4,
    ) == STAGE3_MAGIC)
}

impl Header {
    pub fn parse(r: &mut ByteReader) -> (res: Result<Header, ParseError>)
        ensures
            final(r).bytes() == old(r).bytes(),
            match res {
                Ok(h) => {
                    &&& spec_header_ok(old(r).bytes(), old(r).spec_pos())
                    &&& h.version.spec_magic_value() == le32_at(
                        old(r).bytes(),
                        old(r).spec_pos() + 4,
                    )
                    &&& final(r).spec_pos() == old(r).spec_pos() + 8
                },
                Err(_) => !spec_header_ok(old(r).bytes(), old(r).spec_pos()),
            },
    {
        let magic = magic_bytes();
        match read_expected(r, &magic) {
            Ok(()) => (),
            Err(e) => {
                return Err(e);
            },
        }
        let tag = match r.read_u32() {
            Some(x) => x,
            None => {
                return Err(ParseError::Truncated);
            },
        };
        let version = if tag == STAGE1_MAGIC {
            LevelModifierVersion::Stage1
        } else if tag == STAGE2_MAGIC {
            LevelModifierVersion::Stage2
        } else if tag == STAGE3_MAGIC {
            LevelModifierVersion::Stage3
        } else {
            return Err(ParseError::BadVersion);
        };
        Ok(Header { version })
    }

    pub fn write(&self, w: &mut ByteWriter)
        ensures
            final(w).bytes() == old(w).bytes() + spec_magic() + vstd::bytes::spec_u32_to_le_bytes(
                self.version.spec_magic_value(),
            ),
    {
        let magic = magic_bytes();
        w.write_bytes(magic.as_slice());
        let tag: u32 = match self.version {
            LevelModifierVersion::Stage1 => STAGE1_MAGIC,
            LevelModifierVersion::Stage2 => STAGE2_MAGIC,
            LevelModifierVersion::Stage3 => STAGE3_MAGIC,
        };
        w.write_u32(tag);
    }
}

} // verus!
