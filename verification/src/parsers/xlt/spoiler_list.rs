//! Spoiler sheet: a count row, a header row, then one entry per row.

use vstd::prelude::*;

use crate::parsers::xlt::Xlt;
use crate::parsers::ParseError;
use crate::strutil::{parse_usize, spec_parse_usize, spec_trim, trim};

verus! {

/// Sheet-level metadata.
#[derive(Debug, Clone, Copy, PartialEq, Eq, Structural)]
pub struct SpoilerListMeta {
    pub count: usize,
}

/// What the metadata row denotes: the count cell parsed as a number.
pub open spec fn spec_meta_of_row(row: Seq<Seq<char>>) -> Option<SpoilerListMeta> {
    if row.len() < 2 {
        None
    } else {
        match spec_parse_usize(row[1]) {
            None => None,
            Some(c) => Some(SpoilerListMeta { count: c }),
        }
    }
}

impl SpoilerListMeta {
    /// Read the metadata row: the count stands in the second column.
    pub fn from_xlt_row(row: &Vec<String>) -> (res: Result<SpoilerListMeta, ParseError>)
        ensures
            ({
                let rv = row@.map_values(|s: String| s@);
                match res {
                    Ok(m) => spec_meta_of_row(rv) == Some(m),
                    Err(_) => spec_meta_of_row(rv) is None,
                }
            }),
    {
        if row.len() < 2 {
            return Err(ParseError::BadString);
        }
        match parse_usize(&row[1]) {
            Some(c) => Ok(SpoilerListMeta { count: c }),
            None => Err(ParseError::BadString),
        }
    }
}

/// One spoiler entry.
#[derive(Debug, Clone, PartialEq)]
pub struct SpoilerListEntry {
    pub id: usize,
    pub name: String,
    pub listing: String,
    pub group: String,
    pub animation: String,
    pub kind: String,
    pub icon_id: String,
    pub new: String,
}

/// The mathematical image of an entry.
pub ghost struct SpoilerListEntryV {
    pub id: usize,
    pub name: Seq<char>,
    pub listing: Seq<char>,
    pub group: Seq<char>,
    pub animation: Seq<char>,
    pub kind: Seq<char>,
    pub icon_id: Seq<char>,
    pub new: Seq<char>,
}

impl View for SpoilerListEntry {
    type V = SpoilerListEntryV;

    open spec fn view(&self) -> SpoilerListEntryV {
        SpoilerListEntryV {
            id: self.id,
            name: self.name@,
            listing: self.listing@,
            group: self.group@,
            animation: self.animation@,
            kind: self.kind@,
            icon_id: self.icon_id@,
            new: self.new@,
        }
    }
}

/// What an entry row denotes: a numeric id, then trimmed text columns.
pub open spec fn spec_entry_of_row(row: Seq<Seq<char>>) -> Option<SpoilerListEntryV> {
    if row.len() < 9 {
        None
    } else {
        match spec_parse_usize(spec_trim(row[1])) {
            None => None,
            Some(id) => Some(
                SpoilerListEntryV {
                    id,
                    name: spec_trim(row[2]),
                    listing: spec_trim(row[3]),
                    group: spec_trim(row[4]),
                    animation: spec_trim(row[5]),
                    kind: spec_trim(row[6]),
                    icon_id: spec_trim(row[7]),
                    new: spec_trim(row[8]),
                },
            ),
        }
    }
}

impl SpoilerListEntry {
    /// Read one entry row.
    pub fn from_xlt_row(row: &Vec<String>) -> (res: Result<SpoilerListEntry, ParseError>)
        ensures
            ({
                let rv = row@.map_values(|s: String| s@);
                match res {
                    Ok(e) => spec_entry_of_row(rv) == Some(e@),
                    Err(_) => spec_entry_of_row(rv) is None,
                }
            }),
    {
        if row.len() < 9 {
            return Err(ParseError::BadString);
        }
        let id_cell = trim(row[1].as_str());
        let id = match parse_usize(&id_cell) {
            Some(x) => x,
            None => {
                return Err(ParseError::BadString);
            },
        };
        let e = SpoilerListEntry {
            id,
            name: trim(row[2].as_str()),
            listing: trim(row[3].as_str()),
            group: trim(row[4].as_str()),
            animation: trim(row[5].as_str()),
            kind: trim(row[6].as_str()),
            icon_id: trim(row[7].as_str()),
            new: trim(row[8].as_str()),
        };
        Ok(e)
    }
}

/// The entry region starting at row `i`: consecutive rows whose first cell
/// is non-empty after trimming; every such row must parse.
pub open spec fn spec_entries_of(rows: Seq<Seq<Seq<char>>>, i: int) -> Option<
    Seq<SpoilerListEntryV>,
>
    decreases rows.len() - i,
{
    if i < 0 || i >= rows.len() || rows[i].len() == 0 || spec_trim(rows[i][0]).len() == 0 {
        Some(Seq::empty())
    } else {
        match spec_entry_of_row(rows[i]) {
            None => None,
            Some(e) => match spec_entries_of(rows, i + 1) {
                None => None,
                Some(rest) => Some(seq![e] + rest),
            },
        }
    }
}

/// A whole spoiler sheet.
#[derive(Debug, Clone, PartialEq)]
pub struct SpoilerList {
    pub meta: SpoilerListMeta,
    pub entries: Vec<SpoilerListEntry>,
}

impl SpoilerList {
    /// Read a sheet: the metadata on the second row, a header on the
    /// third, then entries until the first row with an empty first cell.
    pub fn from_xlt(xlt: &Xlt) -> (res: Result<SpoilerList, ParseError>)
        ensures
            ({
                let rows = xlt.spec_rows();
                match res {
                    Ok(l) => {
                        &&& rows.len() >= 3
                        &&& spec_meta_of_row(rows[1]) == Some(l.meta)
                        &&& spec_entries_of(rows, 3) == Some(
                            l.entries@.map_values(|e: SpoilerListEntry| e@),
                        )
                    },
                    Err(_) => rows.len() < 3 || spec_meta_of_row(rows[1]) is None
                        || spec_entries_of(rows, 3) is None,
                }
            }),
    {
        let ghost rows = xlt.spec_rows();
        let n = xlt.rows.len();
        if n < 3 {
            return Err(ParseError::BadString);
        }
        let meta = match SpoilerListMeta::from_xlt_row(&xlt.rows[1]) {
            Ok(m) => m,
            Err(e) => {
                proof {
                    assert(rows[1] == xlt.rows@[1]@.map_values(|s: String| s@));
                }
                return Err(e);
            },
        };
        proof {
            assert(rows[1] == xlt.rows@[1]@.map_values(|s: String| s@));
        }
        let mut entries: Vec<SpoilerListEntry> = Vec::new();
        let mut i: usize = 3;
        proof {
            if spec_entries_of(rows, 3) is Some {
                let all = spec_entries_of(rows, 3).unwrap();
                assert(entries@.map_values(|e: SpoilerListEntry| e@) =~= Seq::<
                    SpoilerListEntryV,
                >::empty());
                assert(entries@.map_values(|e: SpoilerListEntry| e@) + all =~= all);
            }
        }
        while i < n
            invariant
                rows == xlt.spec_rows(),
                n == rows.len(),
                n == xlt.rows@.len(),
                n >= 3,
                spec_meta_of_row(rows[1]) == Some(meta),
                3 <= i <= n,
                spec_entries_of(rows, 3) matches Some(all) ==> spec_entries_of(rows, i as int)
                    matches Some(rest) && all == entries@.map_values(|e: SpoilerListEntry| e@)
                    + rest,
                (spec_entries_of(rows, i as int) is None) <==> (spec_entries_of(rows, 3) is None),
            decreases n - i,
        {
            proof {
                assert(rows[i as int] == xlt.rows@[i as int]@.map_values(|s: String| s@));
            }
            let row = &xlt.rows[i];
            let stop = if row.len() == 0 {
                true
            } else {
                let first = trim(row[0].as_str());
                proof {
                    assert(rows[i as int][0] == row@[0]@);
                }
                first.unicode_len() == 0
            };
            if stop {
                proof {
                    assert(spec_entries_of(rows, i as int) == Some(Seq::<
                        SpoilerListEntryV,
                    >::empty()));
                    if spec_entries_of(rows, 3) is Some {
                        let all = spec_entries_of(rows, 3).unwrap();
                        assert(entries@.map_values(|e: SpoilerListEntry| e@) + Seq::<
                            SpoilerListEntryV,
                        >::empty() =~= entries@.map_values(|e: SpoilerListEntry| e@));
                    }
                }
                return Ok(SpoilerList { meta, entries });
            }
            let ghost entries_before = entries@;
            let e = match SpoilerListEntry::from_xlt_row(row) {
                Ok(e) => e,
                Err(err) => {
                    proof {
                        assert(spec_entry_of_row(rows[i as int]) is None);
                        assert(spec_entries_of(rows, i as int) is None);
                    }
                    return Err(err);
                },
            };
            entries.push(e);
            i = i + 1;
            proof {
                let m1 = entries@.map_values(|e: SpoilerListEntry| e@);
                let m0 = entries_before.map_values(|e: SpoilerListEntry| e@);
                assert(m1 =~= m0 + seq![e@]) by {
                    assert forall|k: int| 0 <= k < m1.len() implies m1[k] == (m0 + seq![e@])[k] by {
                        if k < m0.len() {
                            assert(entries@[k] == entries_before[k]);
                        } else {
                            assert(entries@[k] == e);
                        }
                    }
                }
                if spec_entries_of(rows, 3) is Some {
                    let all = spec_entries_of(rows, 3).unwrap();
                    let rest0 = spec_entries_of(rows, i - 1).unwrap();
                    let rest1 = spec_entries_of(rows, i as int);
                    assert(rest1 is Some);
                    assert(rest0 == seq![e@] + rest1.unwrap());
                    assert(all =~= m1 + rest1.unwrap());
                } else {
                    assert(spec_entries_of(rows, i - 1) is None);
                    assert(spec_entry_of_row(rows[i - 1]) is Some);
                    assert(spec_entries_of(rows, i as int) is None);
                }
            }
        }
        proof {
            assert(spec_entries_of(rows, n as int) == Some(Seq::<SpoilerListEntryV>::empty()));
            if spec_entries_of(rows, 3) is Some {
                let all = spec_entries_of(rows, 3).unwrap();
                assert(entries@.map_values(|e: SpoilerListEntry| e@) + Seq::<
                    SpoilerListEntryV,
                >::empty() =~= entries@.map_values(|e: SpoilerListEntry| e@));
            } else {
                assert(false);
            }
        }
        Ok(SpoilerList { meta, entries })
    }
}

} // verus!
