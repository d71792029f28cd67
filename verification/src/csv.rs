//! Byte-level record structure of the input file.
//!
//! The input is a comma-separated table: records are stretches between
//! newline bytes, fields are stretches between commas, and a header
//! record names the columns.  Splitting is exact and total: the segments
//! of a split, laid back end to end with the separator between them, give
//! back the original bytes, and no segment contains the separator.

use vstd::prelude::*;
use crate::number::parse_decimal;
use crate::number::spec_parse_decimal;
use crate::table::TableError;
use crate::table::TrajTable;
use crate::table::filled;

verus! {

/// Index of the first occurrence of `sep`, or the length if there is
/// none.
pub open spec fn first_in(s: Seq<u8>, sep: u8) -> int
    decreases s.len(),
{
    if s.len() == 0 {
        0
    } else if s[0] == sep {
        0
    } else {
        1 + first_in(s.drop_first(), sep)
    }
}

/// The segments of `s` between occurrences of `sep`, in order: one more
/// segment than there are separators, empty segments included.
pub open spec fn split_spec(s: Seq<u8>, sep: u8) -> Seq<Seq<u8>>
    decreases s.len(),
{
    let d = first_in(s, sep);
    if 0 <= d < s.len() {
        seq![s.take(d)] + split_spec(s.subrange(d + 1, s.len() as int), sep)
    } else {
        seq![s]
    }
}

/// `first_in` names the position of the first separator: nothing before
/// it is one, and it is one unless it is the end.
proof fn lemma_first_in(s: Seq<u8>, sep: u8)
    ensures
        0 <= first_in(s, sep) <= s.len(),
        first_in(s, sep) < s.len() ==> s[first_in(s, sep)] == sep,
        forall|j: int| 0 <= j < first_in(s, sep) ==> s[j] != sep,
    decreases s.len(),
{
    if s.len() > 0 && s[0] != sep {
        lemma_first_in(s.drop_first(), sep);
        assert forall|j: int| 0 <= j < first_in(s, sep) implies s[j] != sep by {
            if j > 0 {
                assert(s.drop_first()[j - 1] != sep);
            }
        }
    }
}

/// Split `s` at every occurrence of `sep`, exactly as `split_spec` reads
/// it.
#[verifier::loop_isolation(false)]
pub fn split_bytes(s: &[u8], sep: u8) -> (r: Vec<Vec<u8>>)
    ensures
        r.deep_view() == split_spec(s@, sep),
{
    let n = s.len();
    let mut r: Vec<Vec<u8>> = Vec::new();
    let mut cur: Vec<u8> = Vec::new();
    let mut seg_start: usize = 0;
    let mut i: usize = 0;
    proof {
        assert(s@.subrange(0, n as int) =~= s@);
        assert(cur@ =~= s@.subrange(0, 0));
        assert(r.deep_view() =~~= Seq::<Seq<u8>>::empty());
        assert(Seq::<Seq<u8>>::empty() + split_spec(s@, sep) =~~= split_spec(s@, sep));
    }
    while i < n
        invariant
            seg_start <= i <= n,
            cur@ == s@.subrange(seg_start as int, i as int),
            forall|j: int| seg_start <= j < i ==> s@[j] != sep,
            split_spec(s@, sep) == r.deep_view() + split_spec(
                s@.subrange(seg_start as int, n as int),
                sep,
            ),
        decreases n - i,
    {
        if s[i] == sep {
            proof {
                let suffix = s@.subrange(seg_start as int, n as int);
                lemma_first_in(suffix, sep);
                assert(suffix[i - seg_start] == s@[i as int]);
                assert forall|j: int| 0 <= j < i - seg_start implies suffix[j] != sep by {
                    assert(suffix[j] == s@[seg_start + j]);
                }
                assert(first_in(suffix, sep) == i - seg_start);
                assert(suffix.take(i - seg_start) =~= cur@);
                assert(suffix.subrange(i - seg_start + 1, suffix.len() as int) =~= s@.subrange(
                    i + 1,
                    n as int,
                ));
                assert(r.deep_view().push(cur@) + split_spec(s@.subrange(i + 1, n as int), sep)
                    =~~= r.deep_view() + split_spec(suffix, sep));
            }
            r.push(cur);
            proof {
                assert(r.deep_view() =~~= r.deep_view().drop_last().push(cur@));
            }
            cur = Vec::new();
            seg_start = i + 1;
            proof {
                assert(cur@ =~= s@.subrange(seg_start as int, seg_start as int));
            }
        } else {
            cur.push(s[i]);
            proof {
                assert(cur@ =~= s@.subrange(seg_start as int, i + 1));
            }
        }
        i = i + 1;
    }
    proof {
        let suffix = s@.subrange(seg_start as int, n as int);
        lemma_first_in(suffix, sep);
        assert forall|j: int| 0 <= j < suffix.len() implies suffix[j] != sep by {
            assert(suffix[j] == s@[seg_start + j]);
        }
        assert(first_in(suffix, sep) == suffix.len());
        assert(suffix =~= cur@);
        assert(r.deep_view() + seq![cur@] =~~= r.deep_view().push(cur@));
    }
    r.push(cur);
    proof {
        assert(r.deep_view() =~~= r.deep_view().drop_last().push(cur@));
    }
    r
}

/// A line with a trailing carriage return shed.
pub open spec fn trim_cr(l: Seq<u8>) -> Seq<u8> {
    if l.len() > 0 && l.last() == 13 {
        l.drop_last()
    } else {
        l
    }
}

/// Whether a line carries data: not blank, and not a comment line (one
/// opening with `#`) where comments are allowed.
pub open spec fn spec_keep(l: Seq<u8>, allow_comments: bool) -> bool {
    l.len() > 0 && !(allow_comments && l[0] == 35)
}

/// The data-carrying lines among `lines`, in order: each line with a
/// trailing carriage return shed, blank and comment lines dropped.
pub open spec fn keep_rows(lines: Seq<Seq<u8>>, allow_comments: bool) -> Seq<Seq<u8>>
    decreases lines.len(),
{
    if lines.len() == 0 {
        Seq::empty()
    } else {
        let rest = keep_rows(lines.drop_last(), allow_comments);
        let l = trim_cr(lines.last());
        if spec_keep(l, allow_comments) {
            rest.push(l)
        } else {
            rest
        }
    }
}

/// The data-carrying lines of the input: the input split at newlines,
/// then sifted by `keep_rows`.
pub open spec fn spec_rows(bytes: Seq<u8>, allow_comments: bool) -> Seq<Seq<u8>> {
    keep_rows(split_spec(bytes, 10), allow_comments)
}

/// The data-carrying lines, exactly as `spec_rows` reads them.
#[verifier::loop_isolation(false)]
pub fn effective_rows(bytes: &[u8], allow_comments: bool) -> (r: Vec<Vec<u8>>)
    ensures
        r.deep_view() == spec_rows(bytes@, allow_comments),
{
    let lines = split_bytes(bytes, 10);
    let ghost all = lines.deep_view();
    let mut r: Vec<Vec<u8>> = Vec::new();
    let mut idx: usize = 0;
    proof {
        assert(all.take(0) =~= Seq::<Seq<u8>>::empty());
        assert(r.deep_view() =~~= keep_rows(all.take(0), allow_comments));
    }
    while idx < lines.len()
        invariant
            idx <= lines.len(),
            r.deep_view() == keep_rows(all.take(idx as int), allow_comments),
        decreases lines.len() - idx,
    {
        let line = &lines[idx];
        let tlen: usize = if line.len() > 0 && line[line.len() - 1] == 13 {
            line.len() - 1
        } else {
            line.len()
        };
        proof {
            assert(line@.take(tlen as int) =~= trim_cr(lines.deep_view()[idx as int]));
        }
        if tlen > 0 && !(allow_comments && line[0] == 35) {
            let mut row: Vec<u8> = Vec::new();
            let mut j: usize = 0;
            while j < tlen
                invariant
                    j <= tlen,
                    tlen <= line@.len(),
                    row@ == line@.take(tlen as int).take(j as int),
                decreases tlen - j,
            {
                proof {
                    assert(line@.take(tlen as int).take(j + 1) =~= line@.take(tlen as int).take(
                        j as int,
                    ).push(line@[j as int]));
                }
                row.push(line[j]);
                j = j + 1;
            }
            proof {
                assert(row@ =~= line@.take(tlen as int));
            }
            r.push(row);
        }
        idx = idx + 1;
        proof {
            assert(all.take(idx as int).drop_last() =~= all.take(idx - 1));
            assert(trim_cr(all.take(idx as int).last()) == trim_cr(all[idx - 1]));
            if spec_keep(trim_cr(all[idx - 1]), allow_comments) {
                assert(r.deep_view() =~~= keep_rows(all.take(idx - 1), allow_comments).push(
                    trim_cr(all[idx - 1]),
                ));
            }
            assert(r.deep_view() == keep_rows(all.take(idx as int), allow_comments));
        }
    }
    proof {
        assert(all.take(all.len() as int) =~= all);
    }
    r
}

/// Whether two byte strings hold the same bytes.
pub fn bytes_equal(a: &[u8], b: &[u8]) -> (r: bool)
    ensures
        r == (a@ == b@),
{
    if a.len() != b.len() {
        proof {
            assert(a@ != b@);
        }
        return false;
    }
    let n = a.len();
    let mut i: usize = 0;
    while i < n
        invariant
            i <= n,
            n == a@.len() == b@.len(),
            forall|j: int| 0 <= j < i ==> a@[j] == b@[j],
        decreases n - i,
    {
        if a[i] != b[i] {
            return false;
        }
        i = i + 1;
    }
    proof {
        assert(a@ =~= b@);
    }
    true
}

/// Index of the first name equal to `wanted`, or the number of names if
/// there is none.
pub open spec fn first_name(names: Seq<Seq<u8>>, wanted: Seq<u8>) -> int
    decreases names.len(),
{
    if names.len() == 0 {
        0
    } else if names[0] == wanted {
        0
    } else {
        1 + first_name(names.drop_first(), wanted)
    }
}

/// `first_name` names the position of the first match: nothing before it
/// matches, and it matches unless it is the end.
proof fn lemma_first_name(names: Seq<Seq<u8>>, wanted: Seq<u8>)
    ensures
        0 <= first_name(names, wanted) <= names.len(),
        first_name(names, wanted) < names.len() ==> names[first_name(names, wanted)] == wanted,
        forall|j: int| 0 <= j < first_name(names, wanted) ==> names[j] != wanted,
    decreases names.len(),
{
    if names.len() > 0 && names[0] != wanted {
        lemma_first_name(names.drop_first(), wanted);
        assert forall|j: int| 0 <= j < first_name(names, wanted) implies names[j] != wanted by {
            if j > 0 {
                assert(names.drop_first()[j - 1] != wanted);
            }
        }
    }
}

/// Position of the first name among `names` that holds exactly the bytes
/// of `wanted`, if any.
pub fn find_column(names: &Vec<Vec<u8>>, wanted: &[u8]) -> (r: Option<usize>)
    ensures
        r matches Some(i) ==> {
            &&& i < names.deep_view().len()
            &&& names.deep_view()[i as int] == wanted@
            &&& forall|j: int| 0 <= j < i ==> names.deep_view()[j] != wanted@
        },
        r is None ==> forall|j: int| 0 <= j < names.deep_view().len() ==> names.deep_view()[j]
            != wanted@,
{
    let n = names.len();
    let mut i: usize = 0;
    while i < n
        invariant
            i <= n,
            n == names@.len(),
            forall|j: int| 0 <= j < i ==> names.deep_view()[j] != wanted@,
        decreases n - i,
    {
        let hit = bytes_equal(names[i].as_slice(), wanted);
        proof {
            assert(names@[i as int]@ =~= names.deep_view()[i as int]);
        }
        if hit {
            return Some(i);
        }
        i = i + 1;
    }
    None
}

/// The header column names the loader selects.
pub open spec fn name_x() -> Seq<u8> {
    seq![120u8]
}

pub open spec fn name_y() -> Seq<u8> {
    seq![121u8]
}

pub open spec fn name_z() -> Seq<u8> {
    seq![122u8]
}

pub open spec fn name_t() -> Seq<u8> {
    seq![116u8]
}

/// The column names of a table: the fields of its first row.
pub open spec fn header_names(rows: Seq<Seq<u8>>) -> Seq<Seq<u8>> {
    split_spec(rows[0], 44)
}

/// The column a name selects: the position of its first occurrence in
/// the header.
pub open spec fn col_of(rows: Seq<Seq<u8>>, wanted: Seq<u8>) -> int {
    first_name(header_names(rows), wanted)
}

/// Whether the header names all four selected columns.
pub open spec fn cols_found(rows: Seq<Seq<u8>>) -> bool {
    &&& col_of(rows, name_x()) < header_names(rows).len()
    &&& col_of(rows, name_y()) < header_names(rows).len()
    &&& col_of(rows, name_z()) < header_names(rows).len()
    &&& col_of(rows, name_t()) < header_names(rows).len()
}

/// What the cell at column `c` of a split row holds: a missing or empty
/// field is a null, a decimal field is its value, and anything else is a
/// cell error (`None`).
pub open spec fn cell_value_fields(fields: Seq<Seq<u8>>, c: int) -> Option<Option<i64>> {
    let cell = if 0 <= c < fields.len() {
        fields[c]
    } else {
        Seq::empty()
    };
    if cell.len() == 0 {
        Some(None)
    } else {
        match spec_parse_decimal(cell) {
            Option::Some(v) => Some(Some(v)),
            Option::None => None,
        }
    }
}

/// What the cell at column `c` of a data row holds, the row split at
/// commas.
pub open spec fn cell_value(row: Seq<u8>, c: int) -> Option<Option<i64>> {
    cell_value_fields(split_spec(row, 44), c)
}

/// Whether every selected cell of every data row is a null or a decimal
/// number.
pub open spec fn cells_ok(rows: Seq<Seq<u8>>) -> bool {
    forall|m: int|
        1 <= m < rows.len() ==> {
            &&& cell_value(#[trigger] rows[m], col_of(rows, name_x())) is Some
            &&& cell_value(rows[m], col_of(rows, name_y())) is Some
            &&& cell_value(rows[m], col_of(rows, name_z())) is Some
            &&& cell_value(rows[m], col_of(rows, name_t())) is Some
        }
}

/// A loaded value agrees with its cell: the cell's number, or zero where
/// the cell was null.
pub open spec fn cell_matches(row: Seq<u8>, c: int, v: i64) -> bool {
    cell_value(row, c) == Some(Some(v)) || (cell_value(row, c) == Some(None::<i64>) && v == 0)
}

/// A built table agrees with the data rows, cell by cell, in the columns
/// the header selects.
pub open spec fn table_matches(t: TrajTable, rows: Seq<Seq<u8>>) -> bool {
    &&& t.wf()
    &&& t.spec_height() == rows.len() - 1
    &&& forall|m: int|
        0 <= m < rows.len() - 1 ==> cell_matches(#[trigger] rows[m + 1], col_of(rows, name_x()), t.x@[m])
    &&& forall|m: int|
        0 <= m < rows.len() - 1 ==> cell_matches(#[trigger] rows[m + 1], col_of(rows, name_y()), t.y@[m])
    &&& forall|m: int|
        0 <= m < rows.len() - 1 ==> cell_matches(#[trigger] rows[m + 1], col_of(rows, name_z()), t.z@[m])
    &&& forall|m: int|
        0 <= m < rows.len() - 1 ==> cell_matches(#[trigger] rows[m + 1], col_of(rows, name_t()), t.t@[m])
}

/// Read one selected cell of a split row.
fn read_cell(fields: &Vec<Vec<u8>>, c: usize) -> (r: Option<Option<i64>>)
    ensures
        r == cell_value_fields(fields.deep_view(), c as int),
{
    if c >= fields.len() {
        return Some(None);
    }
    let cell = fields[c].as_slice();
    proof {
        assert(cell@ =~= fields.deep_view()[c as int]);
    }
    if cell.len() == 0 {
        return Some(None);
    }
    match parse_decimal(cell) {
        Some(v) => Some(Some(v)),
        None => None,
    }
}

/// Build the trajectory table from raw file bytes: split into rows, read
/// the header, select the columns `x`, `y`, `z`, `t`, and parse every
/// cell, nulls filled with zero.  Exactly one of the four outcomes holds:
/// no rows at all, a header missing a column, a malformed cell, or the
/// table the rows describe.
#[verifier::loop_isolation(false)]
#[verifier::rlimit(100)]
pub fn parse_table(bytes: &[u8], allow_comments: bool) -> (r: Result<TrajTable, TableError>)
    ensures
        ({
            let rows = spec_rows(bytes@, allow_comments);
            &&& (rows.len() == 0 ==> r == Result::<TrajTable, TableError>::Err(
                TableError::NoHeader,
            ))
            &&& (rows.len() > 0 && !cols_found(rows) ==> r == Result::<TrajTable, TableError>::Err(
                TableError::MissingColumn,
            ))
            &&& (rows.len() > 0 && cols_found(rows) && !cells_ok(rows) ==> r == Result::<
                TrajTable,
                TableError,
            >::Err(TableError::BadCell))
            &&& (rows.len() > 0 && cols_found(rows) && cells_ok(rows) ==> (r matches Ok(t)
                && table_matches(t, rows)))
        }),
{
    let rows = effective_rows(bytes, allow_comments);
    let ghost rws = spec_rows(bytes@, allow_comments);
    if rows.len() == 0 {
        return Err(TableError::NoHeader);
    }
    let names = split_bytes(rows[0].as_slice(), 44);
    proof {
        assert(rows@[0]@ =~= rws[0]);
        assert(names.deep_view() == header_names(rws));
        lemma_first_name(header_names(rws), name_x());
        lemma_first_name(header_names(rws), name_y());
        lemma_first_name(header_names(rws), name_z());
        lemma_first_name(header_names(rws), name_t());
    }
    let mut wx: Vec<u8> = Vec::new();
    wx.push(120);
    let mut wy: Vec<u8> = Vec::new();
    wy.push(121);
    let mut wz: Vec<u8> = Vec::new();
    wz.push(122);
    let mut wt: Vec<u8> = Vec::new();
    wt.push(116);
    proof {
        assert(wx@ =~= name_x());
        assert(wy@ =~= name_y());
        assert(wz@ =~= name_z());
        assert(wt@ =~= name_t());
    }
    let cx = match find_column(&names, wx.as_slice()) {
        Some(c) => c,
        None => {
            return Err(TableError::MissingColumn);
        },
    };
    let cy = match find_column(&names, wy.as_slice()) {
        Some(c) => c,
        None => {
            return Err(TableError::MissingColumn);
        },
    };
    let cz = match find_column(&names, wz.as_slice()) {
        Some(c) => c,
        None => {
            return Err(TableError::MissingColumn);
        },
    };
    let ct = match find_column(&names, wt.as_slice()) {
        Some(c) => c,
        None => {
            return Err(TableError::MissingColumn);
        },
    };
    proof {
        assert(cx == col_of(rws, name_x()));
        assert(cy == col_of(rws, name_y()));
        assert(cz == col_of(rws, name_z()));
        assert(ct == col_of(rws, name_t()));
    }

    let mut xcol: Vec<Option<i64>> = Vec::new();
    let mut ycol: Vec<Option<i64>> = Vec::new();
    let mut zcol: Vec<Option<i64>> = Vec::new();
    let mut tcol: Vec<Option<i64>> = Vec::new();
    let mut m: usize = 1;
    while m < rows.len()
        invariant
            1 <= m <= rows@.len(),
            xcol@.len() == m - 1,
            ycol@.len() == m - 1,
            zcol@.len() == m - 1,
            tcol@.len() == m - 1,
            forall|q: int|
                0 <= q < m - 1 ==> cell_value(#[trigger] rws[q + 1], cx as int) == Some(xcol@[q]),
            forall|q: int|
                0 <= q < m - 1 ==> cell_value(#[trigger] rws[q + 1], cy as int) == Some(ycol@[q]),
            forall|q: int|
                0 <= q < m - 1 ==> cell_value(#[trigger] rws[q + 1], cz as int) == Some(zcol@[q]),
            forall|q: int|
                0 <= q < m - 1 ==> cell_value(#[trigger] rws[q + 1], ct as int) == Some(tcol@[q]),
        decreases rows@.len() - m,
    {
        let fields = split_bytes(rows[m].as_slice(), 44);
        proof {
            assert(rows@[m as int]@ =~= rws[m as int]);
            assert(fields.deep_view() == split_spec(rws[m as int], 44));
        }
        let vx = match read_cell(&fields, cx) {
            Some(d) => d,
            None => {
                return Err(TableError::BadCell);
            },
        };
        let vy = match read_cell(&fields, cy) {
            Some(d) => d,
            None => {
                return Err(TableError::BadCell);
            },
        };
        let vz = match read_cell(&fields, cz) {
            Some(d) => d,
            None => {
                return Err(TableError::BadCell);
            },
        };
        let vt = match read_cell(&fields, ct) {
            Some(d) => d,
            None => {
                return Err(TableError::BadCell);
            },
        };
        xcol.push(vx);
        ycol.push(vy);
        zcol.push(vz);
        tcol.push(vt);
        m = m + 1;
    }
    proof {
        assert forall|m2: int| 1 <= m2 < rws.len() implies {
            &&& cell_value(#[trigger] rws[m2], col_of(rws, name_x())) is Some
            &&& cell_value(rws[m2], col_of(rws, name_y())) is Some
            &&& cell_value(rws[m2], col_of(rws, name_z())) is Some
            &&& cell_value(rws[m2], col_of(rws, name_t())) is Some
        } by {
            let q = m2 - 1;
            assert(cell_value(rws[q + 1], cx as int) == Some(xcol@[q]));
            assert(cell_value(rws[q + 1], cy as int) == Some(ycol@[q]));
            assert(cell_value(rws[q + 1], cz as int) == Some(zcol@[q]));
            assert(cell_value(rws[q + 1], ct as int) == Some(tcol@[q]));
        }
        assert(cells_ok(rws));
    }
    let ghost gx = xcol@;
    let ghost gy = ycol@;
    let ghost gz = zcol@;
    let ghost gt = tcol@;
    match TrajTable::from_columns(xcol, ycol, zcol, tcol) {
        Ok(tb) => {
            proof {
                assert forall|q: int| 0 <= q < rws.len() - 1 implies cell_matches(
                    #[trigger] rws[q + 1],
                    cx as int,
                    tb.x@[q],
                ) by {
                    assert(tb.x@[q] == filled(gx)[q]);
                }
                assert forall|q: int| 0 <= q < rws.len() - 1 implies cell_matches(
                    #[trigger] rws[q + 1],
                    cy as int,
                    tb.y@[q],
                ) by {
                    assert(tb.y@[q] == filled(gy)[q]);
                }
                assert forall|q: int| 0 <= q < rws.len() - 1 implies cell_matches(
                    #[trigger] rws[q + 1],
                    cz as int,
                    tb.z@[q],
                ) by {
                    assert(tb.z@[q] == filled(gz)[q]);
                }
                assert forall|q: int| 0 <= q < rws.len() - 1 implies cell_matches(
                    #[trigger] rws[q + 1],
                    ct as int,
                    tb.t@[q],
                ) by {
                    assert(tb.t@[q] == filled(gt)[q]);
                }
            }
            Ok(tb)
        },
        Err(e) => {
            proof {
                assert(false);
            }
            Err(e)
        },
    }
}

} // verus!
