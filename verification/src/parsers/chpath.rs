//! Championship path container header (magic `CHPATH`), carrying fixed
//! vendor tag strings.

use vstd::prelude::*;

use crate::agt::le32_at;
use crate::bytes::{ByteReader, ByteWriter};
use crate::parsers::strings::{
    read_null_terminated_string, spec_until_nul, write_null_terminated_string,
};
use crate::parsers::{read_expected, ParseError};
use vstd::utf8::encode_utf8;

verus! {

/// The one version this codec knows.
pub const CHPATH_VERSION_DATE: u32 = 20040810;

pub open spec fn spec_magic() -> Seq<u8> {
    seq![0x43u8, 0x48u8, 0x50u8, 0x41u8, 0x54u8, 0x48u8, 0x00u8]
}

pub fn magic_bytes() -> (r: Vec<u8>)
    ensures
        r@ == spec_magic(),
{
    let mut v: Vec<u8> = Vec::new();
    v.push(0x43);
    v.push(0x48);
    v.push(0x50);
    v.push(0x41);
    v.push(0x54);
    v.push(0x48);
    v.push(0x00);
    proof {
        assert(v@ =~= spec_magic());
    }
    v
}

#[derive(Debug, Clone, PartialEq)]
pub struct Header {
    pub version_date: u32,
    pub nhn: String,
    pub jc: String,
}

/// Whether a well-formed header stands at `pos` of `s`: the magic, the one
/// known version, and the two fixed NUL-terminated vendor tags.
pub open spec fn spec_header_ok(s: Seq<u8>, pos: int) -> bool {
    let t1 = spec_until_nul(s, pos + 11);
    let p2 = pos + 11 + t1.len() + 1;
    let t2 = spec_until_nul(s, p2);
    &&& pos + 11 <= s.len()
    &&& s.subrange(pos, pos + 7) == spec_magic()
    &&& le32_at(s, pos + 7) == CHPATH_VERSION_DATE
    &&& pos + 11 + t1.len() + 1 <= s.len()
    &&& t1 == encode_utf8("NHN-AG"@)
    &&& p2 + t2.len() + 1 <= s.len()
    &&& t2 == encode_utf8("jc"@)
}

impl Header {
    /// Parse the magic, the version, and the two null-terminated vendor
    /// tags.
    pub fn parse(r: &mut ByteReader) -> (res: Result<Header, ParseError>)
        ensures
            final(r).bytes() == old(r).bytes(),
            match res {
                Ok(h) => {
                    &&& spec_header_ok(old(r).bytes(), old(r).spec_pos())
                    &&& h.version_date == CHPATH_VERSION_DATE
                    &&& h.nhn@ == "NHN-AG"@
                    &&& h.jc@ == "jc"@
                },
                Err(_) => !spec_header_ok(old(r).bytes(), old(r).spec_pos()),
            },
    {
        let ghost s = r.bytes();
        let ghost pos0 = r.spec_pos();
        let magic = magic_bytes();
        match read_expected(r, &magic) {
            Ok(()) => (),
            Err(e) => {
                return Err(e);
            },
        }
        let version_date = match r.read_u32() {
            Some(x) => x,
            None => {
                return Err(ParseError::Truncated);
            },
        };
        if version_date != CHPATH_VERSION_DATE {
            return Err(ParseError::BadVersion);
        }
        let ghost t1 = spec_until_nul(s, pos0 + 11);
        let nhn = match read_null_terminated_string(r) {
            Ok(v) => v,
            Err(e) => {
                proof {
                    if !vstd::utf8::valid_utf8(t1) {
                        vstd::utf8::encode_utf8_valid_utf8("NHN-AG"@);
                    }
                }
                return Err(e);
            },
        };
        let expected_nhn = String::from_str("NHN-AG");
        if !nhn.eq(&expected_nhn) {
            proof {
                lemma_tag_mismatch(t1, nhn@, "NHN-AG"@);
            }
            return Err(ParseError::BadString);
        }
        let ghost p2 = pos0 + 11 + t1.len() + 1;
        let ghost t2 = spec_until_nul(s, p2);
        proof {
            assert(t1 == encode_utf8(nhn@));
            vstd::utf8::encode_utf8_decode_utf8(nhn@);
            vstd::utf8::encode_utf8_decode_utf8("NHN-AG"@);
            assert(t1 == encode_utf8("NHN-AG"@));
            assert(r.spec_pos() == p2);
        }
        let jc = match read_null_terminated_string(r) {
            Ok(v) => v,
            Err(e) => {
                proof {
                    if !vstd::utf8::valid_utf8(t2) {
                        vstd::utf8::encode_utf8_valid_utf8("jc"@);
                    }
                }
                return Err(e);
            },
        };
        let expected_jc = String::from_str("jc");
        if !jc.eq(&expected_jc) {
            proof {
                lemma_tag_mismatch(t2, jc@, "jc"@);
            }
            return Err(ParseError::BadString);
        }
        proof {
            assert(t2 == encode_utf8(jc@));
            vstd::utf8::encode_utf8_decode_utf8(jc@);
            vstd::utf8::encode_utf8_decode_utf8("jc"@);
            assert(t2 == encode_utf8("jc"@));
        }
        Ok(Header { version_date, nhn, jc })
    }

    /// Serialize the magic, the version, and the two vendor tags.
    pub fn write(&self, w: &mut ByteWriter)
        ensures
            final(w).bytes() == old(w).bytes() + spec_magic() + vstd::bytes::spec_u32_to_le_bytes(
                self.version_date,
            ) + encode_utf8(self.nhn@) + seq![0u8] + encode_utf8(self.jc@) + seq![0u8],
    {
        let magic = magic_bytes();
        w.write_bytes(magic.as_slice());
        w.write_u32(self.version_date);
        write_null_terminated_string(w, &self.nhn);
        write_null_terminated_string(w, &self.jc);
    }
}

/// A tag whose characters differ from the expected ones has different
/// bytes.
proof fn lemma_tag_mismatch(t: Seq<u8>, got: Seq<char>, expected: Seq<char>)
    requires
        t == vstd::utf8::encode_utf8(got),
        got != expected,
    ensures
        t != vstd::utf8::encode_utf8(expected),
{
    if t == vstd::utf8::encode_utf8(expected) {
        vstd::utf8::encode_utf8_decode_utf8(got);
        vstd::utf8::encode_utf8_decode_utf8(expected);
        assert(vstd::utf8::decode_utf8(t) == got);
        assert(vstd::utf8::decode_utf8(t) == expected);
    }
}

} // verus!
