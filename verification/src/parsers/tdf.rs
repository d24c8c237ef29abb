//! Tutorial dialog table: a leading bitmap blob, a fixed header, then a
//! table of cell pointers into a UTF-16 string table.

use vstd::prelude::*;

use crate::agt::{le16_at, le32_at};
use crate::parsers::ParseError;
use crate::strings::{utf16_decode, utf16_parse};

verus! {

/// The bitmap blob at the start of the file; its byte count stands in its
/// own second u16, counted from the start of the file.
#[derive(Debug, PartialEq)]
pub struct HeaderBitmap {
    pub length: (u16, u16),
    pub data: Vec<u8>,
}

/// The whole document.
#[derive(Debug, PartialEq)]
pub struct Tdf {
    pub bmp: HeaderBitmap,
    pub version: (u16, u16),
    pub year: u16,
    pub month: u8,
    pub day: u8,
    pub flag: u32,
    pub rows: Vec<Vec<String>>,
}

/// The UTF-16 code units stored little-endian at `pos`, up to the first
/// NUL unit.
pub open spec fn spec_wunits_until_nul(s: Seq<u8>, pos: int) -> Seq<u16>
    decreases s.len() - pos,
{
    if pos < 0 || pos + 2 > s.len() || le16_at(s, pos) == 0 {
        Seq::empty()
    } else {
        seq![le16_at(s, pos)] + spec_wunits_until_nul(s, pos + 2)
    }
}

/// Read a little-endian u16 at an arbitrary position.
fn le16_r(data: &[u8], pos: usize) -> (r: Option<u16>)
    ensures
        match r {
            Some(x) => pos + 2 <= data@.len() && x == le16_at(data@, pos as int),
            None => pos + 2 > data@.len(),
        },
{
    if pos > data.len() || data.len() - pos < 2 {
        return None;
    }
    Some(vstd::bytes::u16_from_le_bytes(vstd::slice::slice_subrange(data, pos, pos + 2)))
}

/// Read a little-endian u32 at an arbitrary position.
fn le32_r(data: &[u8], pos: usize) -> (r: Option<u32>)
    ensures
        match r {
            Some(x) => pos + 4 <= data@.len() && x == le32_at(data@, pos as int),
            None => pos + 4 > data@.len(),
        },
{
    if pos > data.len() || data.len() - pos < 4 {
        return None;
    }
    Some(vstd::bytes::u32_from_le_bytes(vstd::slice::slice_subrange(data, pos, pos + 4)))
}

/// Scan a NUL-terminated UTF-16 string at `pos` and decode it.
fn read_wstring_at(data: &[u8], pos: usize) -> (res: Result<String, ParseError>)
    ensures
        match res {
            Ok(t) => utf16_parse(spec_wunits_until_nul(data@, pos as int)) == Some(t@),
            Err(_) => true,
        },
{
    let ghost s = data@;
    let total = data.len();
    let mut units: Vec<u16> = Vec::new();
    let mut p: usize = pos;
    proof {
        assert(units@ + spec_wunits_until_nul(s, pos as int) =~= spec_wunits_until_nul(
            s,
            pos as int,
        ));
    }
    loop
        invariant
            s == data@,
            s.len() == total as int,
            pos <= p,
            units@ + spec_wunits_until_nul(s, p as int) == spec_wunits_until_nul(s, pos as int),
            p as int <= s.len() || p == pos,
        decreases s.len() - p,
    {
        let u = match le16_r(data, p) {
            Some(u) => u,
            None => {
                return Err(ParseError::Truncated);
            },
        };
        if u == 0 {
            proof {
                assert(spec_wunits_until_nul(s, p as int) =~= Seq::<u16>::empty());
                assert(units@ + Seq::<u16>::empty() =~= units@);
            }
            return match utf16_decode(&units) {
                Some(t) => Ok(t),
                None => Err(ParseError::BadString),
            };
        }
        let ghost units0 = units@;
        units.push(u);
        proof {
            assert(spec_wunits_until_nul(s, p as int) == seq![le16_at(s, p as int)]
                + spec_wunits_until_nul(s, p as int + 2));
            assert(units@ =~= units0 + seq![le16_at(s, p as int)]);
            assert(units@ + spec_wunits_until_nul(s, p as int + 2) =~= units0
                + spec_wunits_until_nul(s, p as int));
        }
        p = p + 2;
    }
}

impl Tdf {
    /// Parse the document: the bitmap blob, the fixed fields, then
    /// `row_count` rows of `column_count` cells, each cell a u32 pointer
    /// (relative to the end of the bitmap) to a NUL-terminated UTF-16
    /// string.
    pub fn read(data: &[u8]) -> (res: Result<Tdf, ParseError>)
        ensures
            ({
                let s = data@;
                match res {
                    Ok(t) => {
                        let bl = t.bmp.data@.len() as int;
                        let cc = le32_at(s, bl + 16) as int;
                        &&& t.bmp.length.1 as int == bl
                        &&& bl + 24 <= s.len()
                        &&& t.bmp.length == (le16_at(s, 0), le16_at(s, 2))
                        &&& t.bmp.data@ == s.subrange(0, bl)
                        &&& t.version == (le16_at(s, bl), le16_at(s, bl + 2))
                        &&& t.year == le16_at(s, bl + 4)
                        &&& t.month == s[bl + 6]
                        &&& t.day == s[bl + 7]
                        &&& t.flag == le32_at(s, bl + 8)
                        &&& t.rows@.len() == le32_at(s, bl + 20) as int
                        &&& forall|r: int|
                            0 <= r < t.rows@.len() ==> (#[trigger] t.rows@[r])@.len() == cc
                        &&& forall|r: int, c: int|
                            0 <= r < t.rows@.len() && 0 <= c < cc ==> utf16_parse(
                                spec_wunits_until_nul(
                                    s,
                                    bl + le32_at(s, bl + 24 + 4 * (r * cc + c)) as int,
                                ),
                            ) == Some((#[trigger] t.rows@[r]@[c])@)
                    },
                    Err(_) => true,
                }
            }),
    {
        let ghost s = data@;
        let total = data.len();
        let l0 = match le16_r(data, 0) {
            Some(x) => x,
            None => {
                return Err(ParseError::Truncated);
            },
        };
        let l1 = match le16_r(data, 2) {
            Some(x) => x,
            None => {
                return Err(ParseError::Truncated);
            },
        };
        let bl = l1 as usize;
        if data.len() < 24 || bl > data.len() - 24 {
            return Err(ParseError::Truncated);
        }
        let bmp_data = vstd::slice::slice_to_vec(vstd::slice::slice_subrange(data, 0, bl));
        let v0 = le16_r(data, bl).unwrap();
        let v1 = le16_r(data, bl + 2).unwrap();
        let year = le16_r(data, bl + 4).unwrap();
        let month = data[bl + 6];
        let day = data[bl + 7];
        let flag = le32_r(data, bl + 8).unwrap();
        let _length = le32_r(data, bl + 12).unwrap();
        let column_count = le32_r(data, bl + 16).unwrap();
        let row_count = le32_r(data, bl + 20).unwrap();
        let ghost cc = column_count as int;
        let mut rows: Vec<Vec<String>> = Vec::new();
        let mut cpos: usize = bl + 24;
        let mut r: u32 = 0;
        while r < row_count
            invariant
                s == data@,
                s.len() == total as int,
                bl == l1 as int,
                bl + 24 <= s.len(),
                cc == column_count as int,
                0 <= r <= row_count,
                rows@.len() == r as int,
                cpos as int == bl + 24 + 4 * ((r as int) * cc),
                forall|q: int| 0 <= q < r as int ==> (#[trigger] rows@[q])@.len() == cc,
                forall|q: int, c: int|
                    0 <= q < r as int && 0 <= c < cc ==> utf16_parse(
                        spec_wunits_until_nul(
                            s,
                            bl + le32_at(s, bl + 24 + 4 * (q * cc + c)) as int,
                        ),
                    ) == Some((#[trigger] rows@[q]@[c])@),
            decreases row_count - r,
        {
            let mut row: Vec<String> = Vec::new();
            let mut c: u32 = 0;
            while c < column_count
                invariant
                    s == data@,
                    s.len() == total as int,
                    bl == l1 as int,
                    bl + 24 <= s.len(),
                    cc == column_count as int,
                    0 <= c <= column_count,
                    row@.len() == c as int,
                    cpos as int == bl + 24 + 4 * ((r as int) * cc + c as int),
                    forall|k: int|
                        0 <= k < c as int ==> utf16_parse(
                            spec_wunits_until_nul(
                                s,
                                bl + le32_at(s, bl + 24 + 4 * ((r as int) * cc + k)) as int,
                            ),
                        ) == Some((#[trigger] row@[k])@),
                decreases column_count - c,
            {
                let ptr = match le32_r(data, cpos) {
                    Some(x) => x,
                    None => {
                        return Err(ParseError::Truncated);
                    },
                };
                let spos = match bl.checked_add(ptr as usize) {
                    Some(p) => p,
                    None => {
                        return Err(ParseError::Truncated);
                    },
                };
                let cell = match read_wstring_at(data, spos) {
                    Ok(t) => t,
                    Err(e) => {
                        return Err(e);
                    },
                };
                let ghost row0 = row@;
                row.push(cell);
                cpos = cpos + 4;
                c = c + 1;
                proof {
                    assert forall|k: int|
                        0 <= k < c as int implies utf16_parse(
                        spec_wunits_until_nul(
                            s,
                            bl + le32_at(s, bl + 24 + 4 * ((r as int) * cc + k)) as int,
                        ),
                    ) == Some((#[trigger] row@[k])@) by {
                        if k < row0.len() {
                            assert(row@[k] == row0[k]);
                        } else {
                            assert(row@[k] == cell);
                        }
                    }
                }
            }
            let ghost rows0 = rows@;
            rows.push(row);
            r = r + 1;
            proof {
                assert((r as int) * cc == ((r - 1) as int) * cc + cc) by (nonlinear_arith);
                assert forall|q: int| 0 <= q < r as int implies (#[trigger] rows@[q])@.len()
                    == cc by {
                    if q < rows0.len() {
                        assert(rows@[q] == rows0[q]);
                    } else {
                        assert(rows@[q] == row);
                    }
                }
                assert forall|q: int, c2: int|
                    0 <= q < r as int && 0 <= c2 < cc implies utf16_parse(
                    spec_wunits_until_nul(
                        s,
                        bl + le32_at(s, bl + 24 + 4 * (q * cc + c2)) as int,
                    ),
                ) == Some((#[trigger] rows@[q]@[c2])@) by {
                    if q < rows0.len() {
                        assert(rows@[q] == rows0[q]);
                    } else {
                        assert(rows@[q] == row);
                    }
                }
            }
        }
        let t = Tdf {
            bmp: HeaderBitmap { length: (l0, l1), data: bmp_data },
            version: (v0, v1),
            year,
            month,
            day,
            flag,
            rows,
        };
        Ok(t)
    }
}

} // verus!
