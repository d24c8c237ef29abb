//! Object instance container (magic `LOI`): a header and several
//! count-prefixed index tables.

use vstd::prelude::*;

use crate::agt::le32_at;
use crate::bytes::{ByteReader, ByteWriter};
use crate::parsers::{read_expected, read_u32_list, spec_u32_list_bytes, write_u32_list, ParseError};

verus! {

/// The versions this codec knows.
pub const LOI_VERSION_DATE_1: u32 = 20061222;

pub const LOI_VERSION_DATE_2: u32 = 20090403;

pub open spec fn spec_magic() -> Seq<u8> {
    seq![
        0x4cu8, 0x4fu8, 0x49u8, 0x00u8, 0x6bu8, 0x6au8, 0x63u8, 0x00u8, 0x61u8, 0x67u8, 0x00u8,
        0x00u8,
    ]
}

pub fn magic_bytes() -> (r: Vec<u8>)
    ensures
        r@ == spec_magic(),
{
    let mut v: Vec<u8> = Vec::new();
    v.push(0x4c);
    v.push(0x4f);
    v.push(0x49);
    v.push(0x00);
    v.push(0x6b);
    v.push(0x6a);
    v.push(0x63);
    v.push(0x00);
    v.push(0x61);
    v.push(0x67);
    v.push(0x00);
    v.push(0x00);
    proof {
        assert(v@ =~= spec_magic());
    }
    v
}

#[derive(Debug, Clone, Copy, PartialEq, Eq, Structural)]
pub struct Header {
    pub version_date: u32,
}

pub open spec fn spec_header_ok(s: Seq<u8>, pos: int) -> bool {
    &&& pos + 16 <= s.len()
    &&& s.subrange(pos, pos + 12) == spec_magic()
    &&& (le32_at(s, pos + 12) == LOI_VERSION_DATE_1 || le32_at(s, pos + 12) == LOI_VERSION_DATE_2)
}

impl Header {
    pub fn parse(r: &mut ByteReader) -> (res: Result<Header, ParseError>)
        ensures
            final(r).bytes() == old(r).bytes(),
            match res {
                Ok(h) => {
                    &&& spec_header_ok(old(r).bytes(), old(r).spec_pos())
                    &&& h.version_date == le32_at(old(r).bytes(), old(r).spec_pos() + 12)
                    &&& final(r).spec_pos() == old(r).spec_pos() + 16
                },
                Err(_) => !spec_header_ok(old(r).bytes(), old(r).spec_pos()),
            },
    {
        let magic = magic_bytes();
        match read_expected(r, &magic) {
            Ok(()) => (),
            Err(e) => {
                return Err(e);
            },
        }
        let version_date = match r.read_u32() {
            Some(x) => x,
            None => {
                return Err(ParseError::Truncated);
            },
        };
        if version_date != LOI_VERSION_DATE_1 && version_date != LOI_VERSION_DATE_2 {
            return Err(ParseError::BadVersion);
        }
        Ok(Header { version_date })
    }

    pub fn write(&self, w: &mut ByteWriter)
        ensures
            final(w).bytes() == old(w).bytes() + spec_magic() + vstd::bytes::spec_u32_to_le_bytes(
                self.version_date,
            ),
    {
        let magic = magic_bytes();
        w.write_bytes(magic.as_slice());
        w.write_u32(self.version_date);
    }
}

/// A bare count-prefixed list of object ids.
#[derive(Debug, Clone, PartialEq)]
pub struct UnknownObject2 {
    pub items: Vec<u32>,
}

impl UnknownObject2 {
    pub fn parse(r: &mut ByteReader) -> (res: Result<UnknownObject2, ParseError>)
        ensures
            final(r).bytes() == old(r).bytes(),
            match res {
                Ok(o) => {
                    &&& o.items@.len() == le32_at(old(r).bytes(), old(r).spec_pos()) as int
                    &&& forall|k: int|
                        0 <= k < o.items@.len() ==> (#[trigger] o.items@[k]) == le32_at(
                            old(r).bytes(),
                            old(r).spec_pos() + 4 + 4 * k,
                        )
                    &&& final(r).spec_pos() == old(r).spec_pos() + 4 + 4 * o.items@.len()
                },
                Err(_) => old(r).spec_pos() + 4 + 4 * (le32_at(
                    old(r).bytes(),
                    old(r).spec_pos(),
                ) as int) > old(r).bytes().len(),
            },
    {
        let count = match r.read_u32() {
            Some(x) => x,
            None => {
                return Err(ParseError::Truncated);
            },
        };
        let items = match read_u32_list(r, count) {
            Some(v) => v,
            None => {
                return Err(ParseError::Truncated);
            },
        };
        Ok(UnknownObject2 { items })
    }

    pub fn write(&self, w: &mut ByteWriter)
        requires
            self.items@.len() <= u32::MAX,
        ensures
            final(w).bytes() == old(w).bytes() + vstd::bytes::spec_u32_to_le_bytes(
                self.items@.len() as u32,
            ) + spec_u32_list_bytes(self.items@),
    {
        w.write_u32(self.items.len() as u32);
        write_u32_list(w, &self.items);
        proof {
            assert(old(w).bytes() + vstd::bytes::spec_u32_to_le_bytes(self.items@.len() as u32)
                + spec_u32_list_bytes(self.items@) =~= final(w).bytes());
        }
    }
}

/// A tagged count-prefixed list of object ids.
#[derive(Debug, Clone, PartialEq)]
pub struct UnknownObject3 {
    pub unknown1: u32,
    pub items: Vec<u32>,
}

impl UnknownObject3 {
    pub fn parse(r: &mut ByteReader) -> (res: Result<UnknownObject3, ParseError>)
        ensures
            final(r).bytes() == old(r).bytes(),
            match res {
                Ok(o) => {
                    &&& o.unknown1 == le32_at(old(r).bytes(), old(r).spec_pos())
                    &&& o.items@.len() == le32_at(old(r).bytes(), old(r).spec_pos() + 4) as int
                    &&& forall|k: int|
                        0 <= k < o.items@.len() ==> (#[trigger] o.items@[k]) == le32_at(
                            old(r).bytes(),
                            old(r).spec_pos() + 8 + 4 * k,
                        )
                    &&& final(r).spec_pos() == old(r).spec_pos() + 8 + 4 * o.items@.len()
                },
                Err(_) => old(r).spec_pos() + 8 + 4 * (le32_at(
                    old(r).bytes(),
                    old(r).spec_pos() + 4,
                ) as int) > old(r).bytes().len(),
            },
    {
        let unknown1 = match r.read_u32() {
            Some(x) => x,
            None => {
                return Err(ParseError::Truncated);
            },
        };
        let count = match r.read_u32() {
            Some(x) => x,
            None => {
                return Err(ParseError::Truncated);
            },
        };
        let items = match read_u32_list(r, count) {
            Some(v) => v,
            None => {
                return Err(ParseError::Truncated);
            },
        };
        Ok(UnknownObject3 { unknown1, items })
    }

    pub fn write(&self, w: &mut ByteWriter)
        requires
            self.items@.len() <= u32::MAX,
        ensures
            final(w).bytes() == old(w).bytes() + vstd::bytes::spec_u32_to_le_bytes(self.unknown1)
                + vstd::bytes::spec_u32_to_le_bytes(self.items@.len() as u32)
                + spec_u32_list_bytes(self.items@),
    {
        w.write_u32(self.unknown1);
        w.write_u32(self.items.len() as u32);
        write_u32_list(w, &self.items);
        proof {
            assert(old(w).bytes() + vstd::bytes::spec_u32_to_le_bytes(self.unknown1)
                + vstd::bytes::spec_u32_to_le_bytes(self.items@.len() as u32)
                + spec_u32_list_bytes(self.items@) =~= final(w).bytes());
        }
    }
}

/// A count-prefixed list of `UnknownObject3` records.
#[derive(Debug, Clone, PartialEq)]
pub struct UnknownObject3Section {
    pub unknown_objects_3: Vec<UnknownObject3>,
}

impl UnknownObject3Section {
    pub fn parse(r: &mut ByteReader) -> (res: Result<UnknownObject3Section, ParseError>)
        ensures
            final(r).bytes() == old(r).bytes(),
            match res {
                Ok(o) => o.unknown_objects_3@.len() == le32_at(
                    old(r).bytes(),
                    old(r).spec_pos(),
                ) as int,
                Err(_) => true,
            },
    {
        let count = match r.read_u32() {
            Some(x) => x,
            None => {
                return Err(ParseError::Truncated);
            },
        };
        let mut unknown_objects_3: Vec<UnknownObject3> = Vec::new();
        let mut i: u32 = 0;
        while i < count
            invariant
                r.bytes() == old(r).bytes(),
                0 <= i <= count,
                unknown_objects_3@.len() == i as int,
            decreases count - i,
        {
            let o = match UnknownObject3::parse(r) {
                Ok(o) => o,
                Err(e) => {
                    return Err(e);
                },
            };
            unknown_objects_3.push(o);
            i = i + 1;
        }
        Ok(UnknownObject3Section { unknown_objects_3 })
    }
}

/// A count-prefixed list of object ids with a tag between the count and the
/// items.
#[derive(Debug, Clone, PartialEq)]
pub struct UnknownObject4 {
    pub unknown1: u32,
    pub items: Vec<u32>,
}

impl UnknownObject4 {
    pub fn parse(r: &mut ByteReader) -> (res: Result<UnknownObject4, ParseError>)
        ensures
            final(r).bytes() == old(r).bytes(),
            match res {
                Ok(o) => {
                    &&& o.items@.len() == le32_at(old(r).bytes(), old(r).spec_pos()) as int
                    &&& o.unknown1 == le32_at(old(r).bytes(), old(r).spec_pos() + 4)
                    &&& forall|k: int|
                        0 <= k < o.items@.len() ==> (#[trigger] o.items@[k]) == le32_at(
                            old(r).bytes(),
                            old(r).spec_pos() + 8 + 4 * k,
                        )
                    &&& final(r).spec_pos() == old(r).spec_pos() + 8 + 4 * o.items@.len()
                },
                Err(_) => old(r).spec_pos() + 8 + 4 * (le32_at(
                    old(r).bytes(),
                    old(r).spec_pos(),
                ) as int) > old(r).bytes().len(),
            },
    {
        let count = match r.read_u32() {
            Some(x) => x,
            None => {
                return Err(ParseError::Truncated);
            },
        };
        let unknown1 = match r.read_u32() {
            Some(x) => x,
            None => {
                return Err(ParseError::Truncated);
            },
        };
        let items = match read_u32_list(r, count) {
            Some(v) => v,
            None => {
                return Err(ParseError::Truncated);
            },
        };
        Ok(UnknownObject4 { unknown1, items })
    }
}

/// A count-prefixed list of object indices.
#[derive(Debug, Clone, PartialEq)]
pub struct UnknownObject5 {
    pub object_indices: Vec<u32>,
}

impl UnknownObject5 {
    pub fn parse(r: &mut ByteReader) -> (res: Result<UnknownObject5, ParseError>)
        ensures
            final(r).bytes() == old(r).bytes(),
            match res {
                Ok(o) => {
                    &&& o.object_indices@.len() == le32_at(old(r).bytes(), old(r).spec_pos()) as int
                    &&& forall|k: int|
                        0 <= k < o.object_indices@.len() ==> (#[trigger] o.object_indices@[k])
                            == le32_at(old(r).bytes(), old(r).spec_pos() + 4 + 4 * k)
                    &&& final(r).spec_pos() == old(r).spec_pos() + 4 + 4 * o.object_indices@.len()
                },
                Err(_) => old(r).spec_pos() + 4 + 4 * (le32_at(
                    old(r).bytes(),
                    old(r).spec_pos(),
                ) as int) > old(r).bytes().len(),
            },
    {
        let count = match r.read_u32() {
            Some(x) => x,
            None => {
                return Err(ParseError::Truncated);
            },
        };
        let object_indices = match read_u32_list(r, count) {
            Some(v) => v,
            None => {
                return Err(ParseError::Truncated);
            },
        };
        Ok(UnknownObject5 { object_indices })
    }
}

/// A block-tagged count-prefixed list of object ids.
#[derive(Debug, Clone, PartialEq)]
pub struct UnknownBlock3 {
    pub block_index: u32,
    pub items: Vec<u32>,
}

impl UnknownBlock3 {
    pub fn parse(r: &mut ByteReader) -> (res: Result<UnknownBlock3, ParseError>)
        ensures
            final(r).bytes() == old(r).bytes(),
            match res {
                Ok(o) => {
                    &&& o.block_index == le32_at(old(r).bytes(), old(r).spec_pos())
                    &&& o.items@.len() == le32_at(old(r).bytes(), old(r).spec_pos() + 4) as int
                    &&& forall|k: int|
                        0 <= k < o.items@.len() ==> (#[trigger] o.items@[k]) == le32_at(
                            old(r).bytes(),
                            old(r).spec_pos() + 8 + 4 * k,
                        )
                    &&& final(r).spec_pos() == old(r).spec_pos() + 8 + 4 * o.items@.len()
                },
                Err(_) => old(r).spec_pos() + 8 + 4 * (le32_at(
                    old(r).bytes(),
                    old(r).spec_pos() + 4,
                ) as int) > old(r).bytes().len(),
            },
    {
        let block_index = match r.read_u32() {
            Some(x) => x,
            None => {
                return Err(ParseError::Truncated);
            },
        };
        let count = match r.read_u32() {
            Some(x) => x,
            None => {
                return Err(ParseError::Truncated);
            },
        };
        let items = match read_u32_list(r, count) {
            Some(v) => v,
            None => {
                return Err(ParseError::Truncated);
            },
        };
        Ok(UnknownBlock3 { block_index, items })
    }
}

/// Lamppost ids of one block.
#[derive(Debug, Clone, PartialEq)]
pub struct LampBlock {
    pub unknown_3_per_lamp_id: u32,
    pub lamp_ids: Vec<u32>,
}

impl LampBlock {
    pub fn parse(r: &mut ByteReader) -> (res: Result<LampBlock, ParseError>)
        ensures
            final(r).bytes() == old(r).bytes(),
            match res {
                Ok(o) => {
                    &&& o.lamp_ids@.len() == le32_at(old(r).bytes(), old(r).spec_pos()) as int
                    &&& o.unknown_3_per_lamp_id == le32_at(old(r).bytes(), old(r).spec_pos() + 4)
                    &&& forall|k: int|
                        0 <= k < o.lamp_ids@.len() ==> (#[trigger] o.lamp_ids@[k]) == le32_at(
                            old(r).bytes(),
                            old(r).spec_pos() + 8 + 4 * k,
                        )
                    &&& final(r).spec_pos() == old(r).spec_pos() + 8 + 4 * o.lamp_ids@.len()
                },
                Err(_) => old(r).spec_pos() + 8 + 4 * (le32_at(
                    old(r).bytes(),
                    old(r).spec_pos(),
                ) as int) > old(r).bytes().len(),
            },
    {
        let count = match r.read_u32() {
            Some(x) => x,
            None => {
                return Err(ParseError::Truncated);
            },
        };
        let unknown_3_per_lamp_id = match r.read_u32() {
            Some(x) => x,
            None => {
                return Err(ParseError::Truncated);
            },
        };
        let lamp_ids = match read_u32_list(r, count) {
            Some(v) => v,
            None => {
                return Err(ParseError::Truncated);
            },
        };
        Ok(LampBlock { unknown_3_per_lamp_id, lamp_ids })
    }
}

/// Traffic-light ids of one block.
#[derive(Debug, Clone, PartialEq)]
pub struct TrafficLightBlock {
    pub traffic_light_ids: Vec<u32>,
}

impl TrafficLightBlock {
    pub fn parse(r: &mut ByteReader) -> (res: Result<TrafficLightBlock, ParseError>)
        ensures
            final(r).bytes() == old(r).bytes(),
            match res {
                Ok(o) => {
                    &&& o.traffic_light_ids@.len() == le32_at(
                        old(r).bytes(),
                        old(r).spec_pos(),
                    ) as int
                    &&& forall|k: int|
                        0 <= k < o.traffic_light_ids@.len() ==> (
                        #[trigger] o.traffic_light_ids@[k]) == le32_at(
                            old(r).bytes(),
                            old(r).spec_pos() + 4 + 4 * k,
                        )
                    &&& final(r).spec_pos() == old(r).spec_pos() + 4 + 4
                        * o.traffic_light_ids@.len()
                },
                Err(_) => old(r).spec_pos() + 4 + 4 * (le32_at(
                    old(r).bytes(),
                    old(r).spec_pos(),
                ) as int) > old(r).bytes().len(),
            },
    {
        let count = match r.read_u32() {
            Some(x) => x,
            None => {
                return Err(ParseError::Truncated);
            },
        };
        let traffic_light_ids = match read_u32_list(r, count) {
            Some(v) => v,
            None => {
                return Err(ParseError::Truncated);
            },
        };
        Ok(TrafficLightBlock { traffic_light_ids })
    }
}

} // verus!
