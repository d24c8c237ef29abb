//! Tire sheet: a count row, a header row, then one entry per row.

use vstd::prelude::*;

use crate::parsers::xlt::Xlt;
use crate::parsers::ParseError;
use crate::strutil::{parse_usize, spec_parse_usize, spec_trim, trim};
use crate::strutil::{parse_isize, spec_parse_isize};

verus! {

/// Sheet-level metadata.
#[derive(Debug, Clone, Copy, PartialEq, Eq, Structural)]
pub struct TireListMeta {
    pub count: usize,
}

/// What the metadata row denotes: its numeric cells parsed.
pub open spec fn spec_meta_of_row(row: Seq<Seq<char>>) -> Option<TireListMeta> {
    if row.len() < 2 {
        None
    } else {
        if spec_parse_usize(row[1]) is None {
            None
        } else {
            Some(
                TireListMeta {
                    count: spec_parse_usize(row[1]).unwrap(),
                },
            )
        }
    }
}

impl TireListMeta {
    /// Read the metadata row.
    pub fn from_xlt_row(row: &Vec<String>) -> (res: Result<TireListMeta, ParseError>)
        ensures
            ({
                let rv = row@.map_values(|s: String| s@);
                match res {
                    Ok(m) => spec_meta_of_row(rv) == Some(m),
                    Err(_) => spec_meta_of_row(rv) is None,
                }
            }),
    {
        if row.len() < 2 {
            return Err(ParseError::BadString);
        }
        let count = match parse_usize(&row[1]) {
            Some(x) => x,
            None => {
                return Err(ParseError::BadString);
            },
        };
        Ok(TireListMeta { count })
    }
}

/// One entry.
#[derive(Debug, Clone, PartialEq)]
pub struct TireListEntry {
    pub id: isize,
    pub name: String,
    pub listing: String,
    pub tire_group: String,
    pub car_prototype: String,
    pub description: String,
    pub file_name: String,
    pub width: usize,
    pub diameter: usize,
    pub ui_icon_id: String,
    pub new: String,
}

/// The mathematical image of an entry.
pub ghost struct TireListEntryV {
    pub id: isize,
    pub name: Seq<char>,
    pub listing: Seq<char>,
    pub tire_group: Seq<char>,
    pub car_prototype: Seq<char>,
    pub description: Seq<char>,
    pub file_name: Seq<char>,
    pub width: usize,
    pub diameter: usize,
    pub ui_icon_id: Seq<char>,
    pub new: Seq<char>,
}

impl View for TireListEntry {
    type V = TireListEntryV;

    open spec fn view(&self) -> TireListEntryV {
        TireListEntryV {
            id: self.id,
            name: self.name@,
            listing: self.listing@,
            tire_group: self.tire_group@,
            car_prototype: self.car_prototype@,
            description: self.description@,
            file_name: self.file_name@,
            width: self.width,
            diameter: self.diameter,
            ui_icon_id: self.ui_icon_id@,
            new: self.new@,
        }
    }
}

/// What an entry row denotes: numeric cells parsed after trimming, text
/// cells trimmed.
pub open spec fn spec_entry_of_row(row: Seq<Seq<char>>) -> Option<TireListEntryV> {
    if row.len() < 12 {
        None
    } else if spec_parse_isize(spec_trim(row[1])) is None || spec_parse_usize(spec_trim(row[8])) is None || spec_parse_usize(spec_trim(row[9])) is None {
        None
    } else {
        Some(
            TireListEntryV {
                id: spec_parse_isize(spec_trim(row[1])).unwrap(),
                name: spec_trim(row[2]),
                listing: spec_trim(row[3]),
                tire_group: spec_trim(row[4]),
                car_prototype: spec_trim(row[5]),
                description: spec_trim(row[6]),
                file_name: spec_trim(row[7]),
                width: spec_parse_usize(spec_trim(row[8])).unwrap(),
                diameter: spec_parse_usize(spec_trim(row[9])).unwrap(),
                ui_icon_id: spec_trim(row[10]),
                new: spec_trim(row[11]),
            },
        )
    }
}

impl TireListEntry {
    /// Read one entry row.
    pub fn from_xlt_row(row: &Vec<String>) -> (res: Result<TireListEntry, ParseError>)
        ensures
            ({
                let rv = row@.map_values(|s: String| s@);
                match res {
                    Ok(e) => spec_entry_of_row(rv) == Some(e@),
                    Err(_) => spec_entry_of_row(rv) is None,
                }
            }),
    {
        if row.len() < 12 {
            return Err(ParseError::BadString);
        }
        let id_cell = trim(row[1].as_str());
        let id = match parse_isize(&id_cell) {
            Some(x) => x,
            None => {
                return Err(ParseError::BadString);
            },
        };
        let name = trim(row[2].as_str());
        let listing = trim(row[3].as_str());
        let tire_group = trim(row[4].as_str());
        let car_prototype = trim(row[5].as_str());
        let description = trim(row[6].as_str());
        let file_name = trim(row[7].as_str());
        let width_cell = trim(row[8].as_str());
        let width = match parse_usize(&width_cell) {
            Some(x) => x,
            None => {
                return Err(ParseError::BadString);
            },
        };
        let diameter_cell = trim(row[9].as_str());
        let diameter = match parse_usize(&diameter_cell) {
            Some(x) => x,
            None => {
                return Err(ParseError::BadString);
            },
        };
        let ui_icon_id = trim(row[10].as_str());
        let new = trim(row[11].as_str());
        let e = TireListEntry { id, name, listing, tire_group, car_prototype, description, file_name, width, diameter, ui_icon_id, new };
        Ok(e)
    }
}

/// The entry region starting at row `i`: consecutive rows whose first cell
/// is non-empty after trimming; every such row must parse.
pub open spec fn spec_entries_of(rows: Seq<Seq<Seq<char>>>, i: int) -> Option<
    Seq<TireListEntryV>,
>
    decreases rows.len() - i,
{
    if i < 0 || i >= rows.len() || rows[i].len() == 0 || spec_trim(rows[i][0]).len() == 0 {
        Some(Seq::empty())
    } else {
        match spec_entry_of_row(rows[i]) {
            None => None,
            Some(e) => match spec_entries_of(rows, i + 1) {
                None => None,
                Some(rest) => Some(seq![e] + rest),
            },
        }
    }
}

/// A whole sheet.
#[derive(Debug, Clone, PartialEq)]
pub struct TireList {
    pub meta: TireListMeta,
    pub entries: Vec<TireListEntry>,
}

impl TireList {
    /// Read a sheet: the metadata on the second row, a header on the
    /// third, then entries until the first row with an empty first cell.
    pub fn from_xlt(xlt: &Xlt) -> (res: Result<TireList, ParseError>)
        ensures
            ({
                let rows = xlt.spec_rows();
                match res {
                    Ok(l) => {
                        &&& rows.len() >= 3
                        &&& spec_meta_of_row(rows[1]) == Some(l.meta)
                        &&& spec_entries_of(rows, 3) == Some(
                            l.entries@.map_values(|e: TireListEntry| e@),
                        )
                    },
                    Err(_) => rows.len() < 3 || spec_meta_of_row(rows[1]) is None
                        || spec_entries_of(rows, 3) is None,
                }
            }),
    {
        let ghost rows = xlt.spec_rows();
        let n = xlt.rows.len();
        if n < 3 {
            return Err(ParseError::BadString);
        }
        let meta = match TireListMeta::from_xlt_row(&xlt.rows[1]) {
            Ok(m) => m,
            Err(e) => {
                proof {
                    assert(rows[1] == xlt.rows@[1]@.map_values(|s: String| s@));
                }
                return Err(e);
            },
        };
        proof {
            assert(rows[1] == xlt.rows@[1]@.map_values(|s: String| s@));
        }
        let mut entries: Vec<TireListEntry> = Vec::new();
        let mut i: usize = 3;
        proof {
            if spec_entries_of(rows, 3) is Some {
                let all = spec_entries_of(rows, 3).unwrap();
                assert(entries@.map_values(|e: TireListEntry| e@) =~= Seq::<
                    TireListEntryV,
                >::empty());
                assert(entries@.map_values(|e: TireListEntry| e@) + all =~= all);
            }
        }
        while i < n
            invariant
                rows == xlt.spec_rows(),
                n == rows.len(),
                n == xlt.rows@.len(),
                n >= 3,
                spec_meta_of_row(rows[1]) == Some(meta),
                3 <= i <= n,
                spec_entries_of(rows, 3) matches Some(all) ==> spec_entries_of(rows, i as int)
                    matches Some(rest) && all == entries@.map_values(|e: TireListEntry| e@)
                    + rest,
                (spec_entries_of(rows, i as int) is None) <==> (spec_entries_of(rows, 3) is None),
            decreases n - i,
        {
            proof {
                assert(rows[i as int] == xlt.rows@[i as int]@.map_values(|s: String| s@));
            }
            let row = &xlt.rows[i];
            let stop = if row.len() == 0 {
                true
            } else {
                let first = trim(row[0].as_str());
                proof {
                    assert(rows[i as int][0] == row@[0]@);
                }
                first.unicode_len() == 0
            };
            if stop {
                proof {
                    assert(spec_entries_of(rows, i as int) == Some(Seq::<
                        TireListEntryV,
                    >::empty()));
                    if spec_entries_of(rows, 3) is Some {
                        let all = spec_entries_of(rows, 3).unwrap();
                        assert(entries@.map_values(|e: TireListEntry| e@) + Seq::<
                            TireListEntryV,
                        >::empty() =~= entries@.map_values(|e: TireListEntry| e@));
                    }
                }
                return Ok(TireList { meta, entries });
            }
            let ghost entries_before = entries@;
            let e = match TireListEntry::from_xlt_row(row) {
                Ok(e) => e,
                Err(err) => {
                    proof {
                        assert(spec_entry_of_row(rows[i as int]) is None);
                        assert(spec_entries_of(rows, i as int) is None);
                    }
                    return Err(err);
                },
            };
            entries.push(e);
            i = i + 1;
            proof {
                let m1 = entries@.map_values(|e: TireListEntry| e@);
                let m0 = entries_before.map_values(|e: TireListEntry| e@);
                assert(m1 =~= m0 + seq![e@]) by {
                    assert forall|k: int| 0 <= k < m1.len() implies m1[k] == (m0 + seq![e@])[k] by {
                        if k < m0.len() {
                            assert(entries@[k] == entries_before[k]);
                        } else {
                            assert(entries@[k] == e);
                        }
                    }
                }
                if spec_entries_of(rows, 3) is Some {
                    let all = spec_entries_of(rows, 3).unwrap();
                    let rest0 = spec_entries_of(rows, i - 1).unwrap();
                    let rest1 = spec_entries_of(rows, i as int);
                    assert(rest1 is Some);
                    assert(rest0 == seq![e@] + rest1.unwrap());
                    assert(all =~= m1 + rest1.unwrap());
                } else {
                    assert(spec_entries_of(rows, i - 1) is None);
                    assert(spec_entry_of_row(rows[i - 1]) is Some);
                    assert(spec_entries_of(rows, i as int) is None);
                }
            }
        }
        proof {
            assert(spec_entries_of(rows, n as int) == Some(Seq::<TireListEntryV>::empty()));
            if spec_entries_of(rows, 3) is Some {
                let all = spec_entries_of(rows, 3).unwrap();
                assert(entries@.map_values(|e: TireListEntry| e@) + Seq::<
                    TireListEntryV,
                >::empty() =~= entries@.map_values(|e: TireListEntry| e@));
            } else {
                assert(false);
            }
        }
        Ok(TireList { meta, entries })
    }
}

} // verus!
