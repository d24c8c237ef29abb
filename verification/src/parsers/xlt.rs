//! Tab-separated sheet documents: UTF-16LE text with a byte-order mark,
//! CRLF-separated rows, tab-separated cells.

use vstd::prelude::*;

pub mod spoiler_list;
pub mod tire_list;
pub mod vehicle_list;
pub mod vshop_item_list;
pub mod visual_item_list;

verus! {

/// A sheet as a table of cell strings.
#[derive(Debug, Clone, PartialEq)]
pub struct Xlt {
    pub rows: Vec<Vec<String>>,
}

impl Xlt {
    /// The table as character sequences.
    pub open spec fn spec_rows(&self) -> Seq<Seq<Seq<char>>> {
        self.rows@.map_values(|r: Vec<String>| r@.map_values(|s: String| s@))
    }
}

/// The code units of a cell of text, read until a tab or the end.
pub open spec fn spec_take_cell(u: Seq<u16>, i: int) -> Seq<u16>
    decreases u.len() - i,
{
    if i < 0 || i >= u.len() || u[i] == 9 {
        Seq::empty()
    } else {
        seq![u[i]] + spec_take_cell(u, i + 1)
    }
}

/// The decoded cells of one line, from position `i`.
pub open spec fn spec_row_from(line: Seq<u16>, i: int) -> Option<Seq<Seq<char>>>
    recommends
        0 <= i <= line.len(),
    decreases line.len() - i,
{
    let c = spec_take_cell(line, i);
    match crate::strings::utf16_parse(c) {
        None => None,
        Some(t) => if i + c.len() >= line.len() {
            Some(seq![t])
        } else {
            match spec_row_from(line, i + c.len() + 1) {
                None => None,
                Some(r) => Some(seq![t] + r),
            }
        },
    }
}

/// The code units of one line, read until a carriage return or the end.
pub open spec fn spec_take_line(u: Seq<u16>, i: int) -> Seq<u16>
    decreases u.len() - i,
{
    if i < 0 || i >= u.len() || u[i] == 13 {
        Seq::empty()
    } else {
        seq![u[i]] + spec_take_line(u, i + 1)
    }
}

/// The rows denoted by the content units (the byte-order mark already
/// stripped): lines end at a carriage return followed by one more unit;
/// a trailing line without a terminator is kept; a carriage return as the
/// very last unit leaves nothing to pair it with and rejects the sheet.
pub open spec fn spec_xlt_rows(u: Seq<u16>) -> Option<Seq<Seq<Seq<char>>>>
    decreases u.len(),
{
    if u.len() == 0 {
        Some(Seq::empty())
    } else {
        let line = spec_take_line(u, 0);
        if line.len() >= u.len() {
            match spec_row_from(line, 0) {
                None => None,
                Some(r) => Some(seq![r]),
            }
        } else if line.len() + 2 <= u.len() {
            match spec_row_from(line, 0) {
                None => None,
                Some(r) => match spec_xlt_rows(u.skip(line.len() as int + 2)) {
                    None => None,
                    Some(rest) => Some(seq![r] + rest),
                },
            }
        } else {
            None
        }
    }
}

/// All code units of the document, pairs of bytes little-endian; a
/// trailing odd byte is dropped.
pub open spec fn spec_all_units(b: Seq<u8>) -> Seq<u16> {
    Seq::new((b.len() / 2) as nat, |i: int| crate::agt::le16_at(b, 2 * i))
}

/// The content units: everything after the byte-order mark.
pub open spec fn spec_content_units(b: Seq<u8>) -> Seq<u16> {
    if b.len() < 2 {
        Seq::empty()
    } else {
        spec_all_units(b).skip(1)
    }
}

/// The first `k` cells of a row joined with tabs.
pub open spec fn spec_join_prefix(row: Seq<Seq<char>>, k: int) -> Seq<char>
    recommends
        0 <= k <= row.len(),
    decreases k,
{
    if k <= 0 {
        Seq::empty()
    } else if k == 1 {
        row[0]
    } else {
        spec_join_prefix(row, k - 1) + seq!['\t'] + row[k - 1]
    }
}

/// The serialized text of one row: its cells joined with tabs, then a
/// carriage return and line feed.
pub open spec fn spec_row_text(row: Seq<Seq<char>>) -> Seq<char> {
    spec_join_prefix(row, row.len() as int) + seq!['\r', '\n']
}

/// Little-endian serialization of code units.
pub open spec fn spec_units_bytes(us: Seq<u16>) -> Seq<u8>
    decreases us.len(),
{
    if us.len() == 0 {
        Seq::empty()
    } else {
        vstd::bytes::spec_u16_to_le_bytes(us[0]) + spec_units_bytes(us.skip(1))
    }
}

proof fn lemma_units_bytes_push(t: Seq<u16>, x: u16)
    ensures
        spec_units_bytes(t.push(x)) == spec_units_bytes(t) + vstd::bytes::spec_u16_to_le_bytes(x),
    decreases t.len(),
{
    if t.len() == 0 {
        assert(t.push(x)[0] == x);
        assert(t.push(x).skip(1) =~= Seq::<u16>::empty());
        assert(vstd::bytes::spec_u16_to_le_bytes(x) + spec_units_bytes(Seq::<u16>::empty())
            =~= vstd::bytes::spec_u16_to_le_bytes(x));
        assert(spec_units_bytes(t) + vstd::bytes::spec_u16_to_le_bytes(x)
            =~= vstd::bytes::spec_u16_to_le_bytes(x));
    } else {
        assert(t.push(x)[0] == t[0]);
        assert(t.push(x).skip(1) =~= t.skip(1).push(x));
        lemma_units_bytes_push(t.skip(1), x);
        assert(spec_units_bytes(t.push(x)) == vstd::bytes::spec_u16_to_le_bytes(t[0]) + (
        spec_units_bytes(t.skip(1)) + vstd::bytes::spec_u16_to_le_bytes(x)));
        assert(vstd::bytes::spec_u16_to_le_bytes(t[0]) + (spec_units_bytes(t.skip(1))
            + vstd::bytes::spec_u16_to_le_bytes(x)) =~= (vstd::bytes::spec_u16_to_le_bytes(t[0])
            + spec_units_bytes(t.skip(1))) + vstd::bytes::spec_u16_to_le_bytes(x));
    }
}

/// The serialized rows from row `i` on.
pub open spec fn spec_sheet_bytes(rows: Seq<Seq<Seq<char>>>, i: int) -> Seq<u8>
    decreases rows.len() - i,
{
    if i < 0 || i >= rows.len() {
        Seq::empty()
    } else {
        spec_units_bytes(crate::strings::utf16_units_of(spec_row_text(rows[i])))
            + spec_sheet_bytes(rows, i + 1)
    }
}

impl Xlt {
    /// Serialize the sheet: a UTF-16LE byte-order mark, then every row's
    /// text (cells joined with tabs, each row closed with CRLF) as
    /// little-endian UTF-16 code units.
    pub fn write(&self) -> (r: Vec<u8>)
        ensures
            r@ == seq![0xFFu8, 0xFEu8] + spec_sheet_bytes(self.spec_rows(), 0),
    {
        let ghost rowsv = self.spec_rows();
        let mut out: Vec<u8> = Vec::new();
        out.push(0xFF);
        out.push(0xFE);
        proof {
            assert(out@ =~= seq![0xFFu8, 0xFEu8]);
            assert(out@ + spec_sheet_bytes(rowsv, 0) =~= seq![0xFFu8, 0xFEu8] + spec_sheet_bytes(
                rowsv,
                0,
            ));
        }
        let mut i: usize = 0;
        while i < self.rows.len()
            invariant
                rowsv == self.spec_rows(),
                0 <= i <= rowsv.len(),
                rowsv.len() == self.rows@.len(),
                out@ + spec_sheet_bytes(rowsv, i as int) == seq![0xFFu8, 0xFEu8]
                    + spec_sheet_bytes(rowsv, 0),
            decreases rowsv.len() - i,
        {
            proof {
                assert(rowsv[i as int] == self.rows@[i as int]@.map_values(|s: String| s@));
            }
            let line = row_text(&self.rows[i]);
            let units = crate::strings::utf16_encode(line.as_str());
            let ghost out0 = out@;
            let mut k: usize = 0;
            proof {
                assert(units@.take(0) =~= Seq::<u16>::empty());
                assert(out@ + spec_units_bytes(units@.take(0)) =~= out@);
            }
            while k < units.len()
                invariant
                    0 <= k <= units@.len(),
                    out@ == out0 + spec_units_bytes(units@.take(k as int)),
                decreases units@.len() - k,
            {
                let mut b = vstd::bytes::u16_to_le_bytes(units[k]);
                out.append(&mut b);
                proof {
                    assert(units@.take(k as int + 1) =~= units@.take(k as int).push(
                        units@[k as int],
                    ));
                    lemma_units_bytes_push(units@.take(k as int), units@[k as int]);
                    assert(out@ =~= out0 + spec_units_bytes(units@.take(k as int + 1)));
                }
                k = k + 1;
            }
            proof {
                assert(units@.take(units@.len() as int) =~= units@);
                assert(units@ == crate::strings::utf16_units_of(spec_row_text(rowsv[i as int])));
                assert(spec_sheet_bytes(rowsv, i as int) == spec_units_bytes(units@)
                    + spec_sheet_bytes(rowsv, i as int + 1));
                assert(out@ + spec_sheet_bytes(rowsv, i as int + 1) =~= out0 + spec_sheet_bytes(
                    rowsv,
                    i as int,
                ));
            }
            i = i + 1;
        }
        proof {
            assert(spec_sheet_bytes(rowsv, rowsv.len() as int) =~= Seq::<u8>::empty());
            assert(out@ + Seq::<u8>::empty() =~= out@);
        }
        out
    }
}

/// One row's serialized text: cells joined with tabs, closed with CRLF.
fn row_text(row: &Vec<String>) -> (r: String)
    ensures
        r@ == spec_row_text(row@.map_values(|s: String| s@)),
{
    let ghost rv = row@.map_values(|s: String| s@);
    let mut line = String::new();
    let mut k: usize = 0;
    proof {
        assert(line@ =~= spec_join_prefix(rv, 0));
    }
    while k < row.len()
        invariant
            rv == row@.map_values(|s: String| s@),
            0 <= k <= rv.len(),
            rv.len() == row@.len(),
            line@ == spec_join_prefix(rv, k as int),
        decreases rv.len() - k,
    {
        proof {
            assert(rv[k as int] == row@[k as int]@);
        }
        if k > 0 {
            line.append("\t");
            proof {
                vstd::prelude::reveal_strlit("\t");
                assert("\t"@ =~= seq!['\t']);
            }
        }
        line.append(row[k].as_str());
        proof {
            if k == 0 {
                assert(spec_join_prefix(rv, 1) == rv[0]);
                assert(line@ =~= spec_join_prefix(rv, 1));
            } else {
                assert(line@ =~= spec_join_prefix(rv, k as int) + seq!['\t'] + rv[k as int]);
            }
        }
        k = k + 1;
    }
    line.append("\r\n");
    proof {
        vstd::prelude::reveal_strlit("\r\n");
        assert("\r\n"@.len() == 2);
        assert("\r\n"@[0] == '\r');
        assert("\r\n"@[1] == '\n');
        assert("\r\n"@ =~= seq!['\r', '\n']);
        assert(line@ =~= spec_row_text(rv));
    }
    line
}

/// A scanned run without a carriage return, ended by one or by the end of
/// the units, is what `spec_take_line` reads.
proof fn lemma_take_line_prefix(w: Seq<u16>, m: int)
    requires
        0 <= m <= w.len(),
        forall|k: int| 0 <= k < m ==> w[k] != 13,
        m < w.len() ==> w[m] == 13,
    ensures
        spec_take_line(w, 0) == w.take(m),
{
    lemma_take_line_from(w, 0, m);
    assert(w.subrange(0, m) =~= w.take(m));
}

proof fn lemma_take_line_from(w: Seq<u16>, p: int, m: int)
    requires
        0 <= p <= m <= w.len(),
        forall|k: int| p <= k < m ==> w[k] != 13,
        m < w.len() ==> w[m] == 13,
    ensures
        spec_take_line(w, p) == w.subrange(p, m),
    decreases m - p,
{
    if p == m {
        assert(w.subrange(p, m) =~= Seq::<u16>::empty());
    } else {
        lemma_take_line_from(w, p + 1, m);
        assert(w.subrange(p, m) =~= seq![w[p]] + w.subrange(p + 1, m));
    }
}

/// A scanned run without a tab, ended by one or by the end of the line, is
/// what `spec_take_cell` reads.
proof fn lemma_take_cell_prefix(w: Seq<u16>, p: int, m: int)
    requires
        0 <= p <= m <= w.len(),
        forall|k: int| p <= k < m ==> w[k] != 9,
        m < w.len() ==> w[m] == 9,
    ensures
        spec_take_cell(w, p) == w.subrange(p, m),
    decreases m - p,
{
    if p == m {
        assert(w.subrange(p, m) =~= Seq::<u16>::empty());
    } else {
        lemma_take_cell_prefix(w, p + 1, m);
        assert(w.subrange(p, m) =~= seq![w[p]] + w.subrange(p + 1, m));
    }
}

/// Split one line's units into cells at tabs and decode each as UTF-16.
fn parse_row(line: &Vec<u16>) -> (res: Result<Vec<String>, crate::parsers::ParseError>)
    ensures
        match res {
            Ok(cells) => spec_row_from(line@, 0) == Some(
                cells@.map_values(|s: String| s@),
            ),
            Err(_) => spec_row_from(line@, 0) is None,
        },
{
    let ghost lv = line@;
    let n = line.len();
    let mut cells: Vec<String> = Vec::new();
    let mut i: usize = 0;
    proof {
        if spec_row_from(lv, 0) is Some {
            let all = spec_row_from(lv, 0).unwrap();
            assert(cells@.map_values(|s: String| s@) =~= Seq::<Seq<char>>::empty());
            assert(cells@.map_values(|s: String| s@) + all =~= all);
        }
    }
    loop
        invariant
            lv == line@,
            n == lv.len(),
            0 <= i <= n,
            spec_row_from(lv, 0) matches Some(all) ==> spec_row_from(lv, i as int) matches Some(
                rest,
            ) && all == cells@.map_values(|s: String| s@) + rest,
            (spec_row_from(lv, i as int) is None) <==> (spec_row_from(lv, 0) is None),
        decreases n - i + 1,
    {
        let mut e: usize = i;
        while e < n && line[e] != 9
            invariant
                lv == line@,
                n == lv.len(),
                i <= e <= n,
                forall|k: int| i <= k < e ==> lv[k] != 9,
            decreases n - e,
        {
            e = e + 1;
        }
        proof {
            lemma_take_cell_prefix(lv, i as int, e as int);
        }
        let cell_units = vstd::slice::slice_to_vec(
            vstd::slice::slice_subrange(line.as_slice(), i, e),
        );
        let cell = match crate::strings::utf16_decode(&cell_units) {
            Some(s) => s,
            None => {
                proof {
                    assert(spec_take_cell(lv, i as int) == lv.subrange(i as int, e as int));
                    assert(spec_row_from(lv, i as int) is None);
                }
                return Err(crate::parsers::ParseError::BadString);
            },
        };
        let ghost cells_before = cells@;
        cells.push(cell);
        proof {
            let m1 = cells@.map_values(|s: String| s@);
            let m0 = cells_before.map_values(|s: String| s@);
            assert(m1 =~= m0 + seq![cell@]) by {
                assert forall|k: int| 0 <= k < m1.len() implies m1[k] == (m0 + seq![cell@])[k] by {
                    if k < m0.len() {
                        assert(cells@[k] == cells_before[k]);
                    } else {
                        assert(cells@[k] == cell);
                    }
                }
            }
        }
        if e >= n {
            proof {
                let c = spec_take_cell(lv, i as int);
                assert(c.len() == e - i);
                assert(i as int + c.len() >= lv.len());
                assert(spec_row_from(lv, i as int) == Some(seq![cell@]));
                if spec_row_from(lv, 0) is Some {
                    let all = spec_row_from(lv, 0).unwrap();
                    let m0 = cells_before.map_values(|s: String| s@);
                    assert(all =~= m0 + seq![cell@]);
                    assert(all =~= cells@.map_values(|s: String| s@));
                }
            }
            return Ok(cells);
        }
        proof {
            let c = spec_take_cell(lv, i as int);
            assert(c.len() == e - i);
            assert(i as int + c.len() < lv.len());
            let next = e as int + 1;
            if spec_row_from(lv, 0) is Some {
                let all = spec_row_from(lv, 0).unwrap();
                let rest0 = spec_row_from(lv, i as int).unwrap();
                let rest1 = spec_row_from(lv, next);
                assert(rest1 is Some);
                assert(rest0 == seq![cell@] + rest1.unwrap());
                let m0 = cells_before.map_values(|s: String| s@);
                assert(all =~= (m0 + seq![cell@]) + rest1.unwrap());
                assert(all =~= cells@.map_values(|s: String| s@) + rest1.unwrap());
            } else {
                assert(spec_row_from(lv, i as int) is None);
                assert(crate::strings::utf16_parse(spec_take_cell(lv, i as int)) is Some);
                assert(spec_row_from(lv, e as int + 1) is None);
            }
        }
        i = e + 1;
    }
}

impl Xlt {
    /// Parse a sheet: skip the byte-order mark unit, split the remaining
    /// little-endian code units into lines at each carriage return (which
    /// must be followed by one more unit, normally the line feed), split
    /// each line into cells at tabs, and decode every cell as UTF-16.  A
    /// trailing line without a terminator is kept; a trailing odd byte is
    /// dropped.
    pub fn read(data: &[u8]) -> (res: Result<Xlt, crate::parsers::ParseError>)
        ensures
            match res {
                Ok(x) => spec_xlt_rows(spec_content_units(data@)) == Some(x.spec_rows()),
                Err(_) => spec_xlt_rows(spec_content_units(data@)) is None,
            },
    {
        let ghost uv = spec_content_units(data@);
        let total = data.len();
        let n2 = total / 2;
        let mut units: Vec<u16> = Vec::new();
        proof {
            vstd::arithmetic::div_mod::lemma_fundamental_div_mod(data@.len() as int, 2);
            vstd::arithmetic::div_mod::lemma_mod_bound(data@.len() as int, 2);
        }
        if n2 > 0 {
            let mut i: usize = 1;
            while i < n2
                invariant
                    n2 == data@.len() / 2,
                    2 * (n2 as int) <= data@.len(),
                    data@.len() == total,
                    total <= usize::MAX,
                    1 <= i <= n2,
                    units@.len() == i - 1,
                    forall|k: int|
                        0 <= k < i - 1 ==> (#[trigger] units@[k]) == crate::agt::le16_at(
                            data@,
                            2 * (k + 1),
                        ),
                decreases n2 - i,
            {
                let u = vstd::bytes::u16_from_le_bytes(
                    vstd::slice::slice_subrange(data, 2 * i, 2 * i + 2),
                );
                units.push(u);
                i = i + 1;
            }
        }
        proof {
            assert(units@ =~= uv);
        }
        let n = units.len();
        let mut rows: Vec<Vec<String>> = Vec::new();
        let mut pos: usize = 0;
        proof {
            if spec_xlt_rows(uv) is Some {
                let all = spec_xlt_rows(uv).unwrap();
                assert(uv.skip(0) =~= uv);
                assert(rows@.map_values(|r: Vec<String>| r@.map_values(|s: String| s@)) =~= Seq::<
                    Seq<Seq<char>>,
                >::empty());
                assert(rows@.map_values(|r: Vec<String>| r@.map_values(|s: String| s@)) + all
                    =~= all);
            } else {
                assert(uv.skip(0) =~= uv);
            }
        }
        while pos < n
            invariant
                uv == spec_content_units(data@),
                units@ == uv,
                n == uv.len(),
                0 <= pos <= n,
                spec_xlt_rows(uv) matches Some(all) ==> spec_xlt_rows(uv.skip(pos as int)) matches
                    Some(rest) && all == rows@.map_values(
                    |r: Vec<String>| r@.map_values(|s: String| s@),
                ) + rest,
                (spec_xlt_rows(uv.skip(pos as int)) is None) <==> (spec_xlt_rows(uv) is None),
            decreases n - pos,
        {
            let ghost w = uv.skip(pos as int);
            let mut j: usize = pos;
            while j < n && units[j] != 13
                invariant
                    units@ == uv,
                    n == uv.len(),
                    pos <= j <= n,
                    forall|k: int| pos <= k < j ==> uv[k] != 13,
                decreases n - j,
            {
                j = j + 1;
            }
            proof {
                assert forall|k: int| 0 <= k < j - pos implies w[k] != 13 by {
                    assert(w[k] == uv[pos + k]);
                }
                if (j as int) - (pos as int) < w.len() {
                    assert(w[j - pos] == uv[j as int]);
                }
                lemma_take_line_prefix(w, j - pos);
            }
            let line = vstd::slice::slice_to_vec(
                vstd::slice::slice_subrange(units.as_slice(), pos, j),
            );
            proof {
                assert(line@ =~= w.take(j - pos));
            }
            let row = match parse_row(&line) {
                Ok(cells) => cells,
                Err(e) => {
                    proof {
                        assert(spec_row_from(spec_take_line(w, 0), 0) is None);
                        assert(spec_xlt_rows(w) is None);
                    }
                    return Err(e);
                },
            };
            if j == n {
                // Final line without a terminator.
                let ghost rows_before = rows@;
                rows.push(row);
                proof {
                    assert(spec_take_line(w, 0).len() == w.len());
                    assert(spec_xlt_rows(w) == Some(
                        seq![row@.map_values(|s: String| s@)],
                    ));
                    lemma_rows_map_push(rows_before, rows@, row);
                    if spec_xlt_rows(uv) is Some {
                        let all = spec_xlt_rows(uv).unwrap();
                        let m0 = rows_before.map_values(
                            |r: Vec<String>| r@.map_values(|s: String| s@),
                        );
                        assert(all =~= m0 + seq![row@.map_values(|s: String| s@)]);
                        assert(all =~= rows@.map_values(
                            |r: Vec<String>| r@.map_values(|s: String| s@),
                        ));
                    }
                }
                return Ok(Xlt { rows });
            }
            if j + 1 == n {
                // A carriage return as the very last unit leaves nothing to
                // pair it with.
                proof {
                    assert(spec_take_line(w, 0).len() + 1 == w.len());
                    assert(spec_xlt_rows(w) is None);
                }
                return Err(crate::parsers::ParseError::Truncated);
            }
            let ghost rows_before = rows@;
            rows.push(row);
            proof {
                let m = j - pos;
                assert(spec_take_line(w, 0).len() == m);
                assert(spec_take_line(w, 0).len() + 2 <= w.len());
                assert(w.skip(m + 2) =~= uv.skip(pos + m + 2));
                lemma_rows_map_push(rows_before, rows@, row);
                if spec_xlt_rows(uv) is Some {
                    let all = spec_xlt_rows(uv).unwrap();
                    let rest0 = spec_xlt_rows(w).unwrap();
                    let rest1 = spec_xlt_rows(uv.skip(pos + m + 2));
                    assert(rest1 is Some);
                    assert(rest0 == seq![row@.map_values(|s: String| s@)] + rest1.unwrap());
                    let m0 = rows_before.map_values(
                        |r: Vec<String>| r@.map_values(|s: String| s@),
                    );
                    assert(all =~= (m0 + seq![row@.map_values(|s: String| s@)]) + rest1.unwrap());
                    assert(all =~= rows@.map_values(
                        |r: Vec<String>| r@.map_values(|s: String| s@),
                    ) + rest1.unwrap());
                } else {
                    assert(spec_xlt_rows(w) is None);
                    assert(spec_row_from(spec_take_line(w, 0), 0) is Some);
                    assert(spec_xlt_rows(uv.skip(pos + m + 2)) is None);
                }
            }
            pos = j + 2;
        }
        proof {
            assert(uv.skip(n as int) =~= Seq::<u16>::empty());
            assert(spec_xlt_rows(uv.skip(n as int)) == Some(Seq::<Seq<Seq<char>>>::empty()));
            if spec_xlt_rows(uv) is Some {
                let all = spec_xlt_rows(uv).unwrap();
                assert(all =~= rows@.map_values(|r: Vec<String>| r@.map_values(|s: String| s@)));
            } else {
                assert(false);
            }
        }
        Ok(Xlt { rows })
    }
}

/// Pushing a row extends the row-view sequence by the row's view.
proof fn lemma_rows_map_push(before: Seq<Vec<String>>, after: Seq<Vec<String>>, row: Vec<String>)
    requires
        after == before.push(row),
    ensures
        after.map_values(|r: Vec<String>| r@.map_values(|s: String| s@)) == before.map_values(
            |r: Vec<String>| r@.map_values(|s: String| s@),
        ) + seq![row@.map_values(|s: String| s@)],
{
    let m1 = after.map_values(|r: Vec<String>| r@.map_values(|s: String| s@));
    let m0 = before.map_values(|r: Vec<String>| r@.map_values(|s: String| s@));
    assert(m1 =~= m0 + seq![row@.map_values(|s: String| s@)]) by {
        assert forall|k: int|
            0 <= k < m1.len() implies m1[k] == (m0 + seq![
            row@.map_values(|s: String| s@),
        ])[k] by {
            if k < m0.len() {
                assert(after[k] == before[k]);
            } else {
                assert(after[k] == row);
            }
        }
    }
}

} // verus!
