//! File kinds by extension, and the cells of a spreadsheet or CSV table.
//! Reading and writing the files themselves is left to the caller.

use vstd::prelude::*;

verus! {

#[derive(Debug, Clone, Copy, PartialEq, Eq, Structural)]
pub enum FileType {
    PDF,
    DOCX,
    TXT,
    XLSX,
    CSV,
    Unknown,
}

#[derive(Debug, Clone, PartialEq, Eq)]
pub struct ExcelCell {
    pub value: String,
    pub row: u32,
    pub col: u32,
    pub is_formula: bool,
}

#[derive(Debug, Clone, PartialEq, Eq)]
pub struct ExcelSheet {
    pub name: String,
    pub cells: Vec<ExcelCell>,
}

/// The path without trailing slashes.
pub open spec fn trimmed(s: Seq<char>) -> Seq<char>
    decreases s.len(),
{
    if s.len() > 0 && s.last() == '/' {
        trimmed(s.drop_last())
    } else {
        s
    }
}

/// The index of the last occurrence of `c` in `s`, or -1.
pub open spec fn last_index(s: Seq<char>, c: char) -> int
    decreases s.len(),
{
    if s.len() == 0 {
        -1
    } else if s.last() == c {
        s.len() - 1
    } else {
        last_index(s.drop_last(), c)
    }
}

/// The last component of a path.
pub open spec fn file_name(path: Seq<char>) -> Seq<char> {
    let t = trimmed(path);
    t.subrange(last_index(t, '/') + 1, t.len() as int)
}

/// The extension of a path: what follows the last dot of its file name,
/// unless that dot opens the name.
pub open spec fn extension(path: Seq<char>) -> Option<Seq<char>> {
    let n = file_name(path);
    if last_index(n, '.') > 0 {
        Some(n.subrange(last_index(n, '.') + 1, n.len() as int))
    } else {
        None
    }
}

pub open spec fn file_type_of(path: Seq<char>) -> FileType {
    match extension(path) {
        Some(e) => if e == "pdf"@ {
            FileType::PDF
        } else if e == "docx"@ {
            FileType::DOCX
        } else if e == "txt"@ {
            FileType::TXT
        } else if e == "xlsx"@ || e == "xls"@ {
            FileType::XLSX
        } else if e == "csv"@ {
            FileType::CSV
        } else {
            FileType::Unknown
        },
        None => FileType::Unknown,
    }
}

proof fn lemma_last_index_bounds(s: Seq<char>, c: char)
    ensures
        -1 <= last_index(s, c) < s.len(),
        last_index(s, c) >= 0 ==> s[last_index(s, c)] == c,
    decreases s.len(),
{
    if s.len() > 0 && s.last() != c {
        lemma_last_index_bounds(s.drop_last(), c);
    }
}

fn last_index_exec(s: &str, n: usize, c: char) -> (r: i64)
    requires
        n == s@.len(),
        n < i64::MAX,
    ensures
        r == last_index(s@, c),
{
    let mut k: usize = n;
    assert(s@.subrange(0, n as int) =~= s@);
    while k > 0
        invariant
            n == s@.len(),
            n < i64::MAX,
            k <= n,
            last_index(s@, c) == last_index(s@.subrange(0, k as int), c),
        decreases k,
    {
        let d = s.get_char(k - 1);
        let ghost t = s@.subrange(0, k as int);
        assert(t.drop_last() =~= s@.subrange(0, k - 1));
        if d == c {
            return (k - 1) as i64;
        }
        k = k - 1;
    }
    -1
}

/// The kind of a file, by the extension of its path.
pub fn detect_file_type(path: &str) -> (r: FileType)
    requires
        path@.len() < i64::MAX,
    ensures
        r == file_type_of(path@),
{
    let total = path.unicode_len();
    let mut end: usize = total;
    assert(path@.subrange(0, total as int) =~= path@);
    while end > 0 && path.get_char(end - 1) == '/'
        invariant
            total == path@.len(),
            end <= total,
            trimmed(path@) == trimmed(path@.subrange(0, end as int)),
        decreases end,
    {
        assert(path@.subrange(0, end as int).drop_last() =~= path@.subrange(0, end - 1));
        end = end - 1;
    }
    let t = path.substring_char(0, end);
    proof {
        if end > 0 {
            assert(t@.last() != '/');
        }
        assert(trimmed(t@) == t@);
        assert(trimmed(path@) == t@);
    }
    let slash = last_index_exec(t, end, '/');
    proof {
        lemma_last_index_bounds(t@, '/');
    }
    let start = (slash + 1) as usize;
    let name = t.substring_char(start, end);
    let nlen = end - start;
    let dot = last_index_exec(name, nlen, '.');
    proof {
        lemma_last_index_bounds(name@, '.');
    }
    if dot <= 0 {
        return FileType::Unknown;
    }
    let ext = String::from_str(name.substring_char((dot + 1) as usize, nlen));
    if ext == String::from_str("pdf") {
        FileType::PDF
    } else if ext == String::from_str("docx") {
        FileType::DOCX
    } else if ext == String::from_str("txt") {
        FileType::TXT
    } else if ext == String::from_str("xlsx") || ext == String::from_str("xls") {
        FileType::XLSX
    } else if ext == String::from_str("csv") {
        FileType::CSV
    } else {
        FileType::Unknown
    }
}

/// A cell as (value, row, column).
pub open spec fn cell_view(c: ExcelCell) -> (Seq<char>, int, int) {
    (c.value@, c.row as int, c.col as int)
}

pub open spec fn cell_views(v: Seq<ExcelCell>) -> Seq<(Seq<char>, int, int)> {
    v.map_values(|c: ExcelCell| cell_view(c))
}

/// The cells of row `i`, column by column.
pub open spec fn row_cells(row: Seq<String>, i: int) -> Seq<(Seq<char>, int, int)> {
    Seq::new(row.len(), |j: int| (row[j]@, i, j))
}

/// The cells of a table given row by row, in row-major order.
pub open spec fn table_cells(rows: Seq<Seq<String>>) -> Seq<(Seq<char>, int, int)>
    decreases rows.len(),
{
    if rows.len() == 0 {
        Seq::empty()
    } else {
        table_cells(rows.drop_last()) + row_cells(rows.last(), rows.len() - 1)
    }
}

/// The table read from CSV records: one sheet named "Sheet1" whose cells
/// are the records' values in row-major order, none a formula.
pub fn sheet_from_records(records: &Vec<Vec<String>>) -> (r: ExcelSheet)
    requires
        records@.len() <= u32::MAX + 1,
        forall|i: int| 0 <= i < records@.len() ==> (#[trigger] records@[i])@.len() <= u32::MAX + 1,
    ensures
        r.name@ == "Sheet1"@,
        cell_views(r.cells@) == table_cells(records@.map_values(|row: Vec<String>| row@)),
        forall|k: int| 0 <= k < r.cells@.len() ==> !(#[trigger] r.cells@[k]).is_formula,
{
    let ghost rs = records@.map_values(|row: Vec<String>| row@);
    let mut cells: Vec<ExcelCell> = Vec::new();
    let mut i: usize = 0;
    assert(table_cells(rs.subrange(0, 0)) =~= cell_views(cells@));
    while i < records.len()
        invariant
            rs == records@.map_values(|row: Vec<String>| row@),
            records@.len() <= u32::MAX + 1,
            forall|q: int| 0 <= q < records@.len() ==> (#[trigger] records@[q])@.len() <= u32::MAX + 1,
            i <= records@.len(),
            cell_views(cells@) == table_cells(rs.subrange(0, i as int)),
            forall|k: int| 0 <= k < cells@.len() ==> !(#[trigger] cells@[k]).is_formula,
        decreases records.len() - i,
    {
        let row = &records[i];
        let ghost base = cell_views(cells@);
        let mut j: usize = 0;
        while j < row.len()
            invariant
                rs == records@.map_values(|row: Vec<String>| row@),
                i < records@.len(),
                *row == records@[i as int],
                records@.len() <= u32::MAX + 1,
                row@.len() <= u32::MAX + 1,
                j <= row@.len(),
                cell_views(cells@) == base + row_cells(row@, i as int).subrange(0, j as int),
                forall|k: int| 0 <= k < cells@.len() ==> !(#[trigger] cells@[k]).is_formula,
            decreases row.len() - j,
        {
            let cell = ExcelCell { value: row[j].clone(), row: i as u32, col: j as u32, is_formula: false };
            let ghost before = cells@;
            cells.push(cell);
            assert(cell_views(cells@) =~= cell_views(before).push(cell_view(cell)));
            assert(row_cells(row@, i as int).subrange(0, j + 1) =~= row_cells(row@, i as int).subrange(0, j as int).push(
                (row@[j as int]@, i as int, j as int),
            ));
            j = j + 1;
        }
        proof {
            let pre = rs.subrange(0, i as int);
            assert(rs.subrange(0, i + 1).drop_last() =~= pre);
            assert(rs.subrange(0, i + 1).last() == row@);
            assert(row_cells(row@, i as int).subrange(0, row@.len() as int) =~= row_cells(row@, i as int));
        }
        i = i + 1;
    }
    assert(rs.subrange(0, records@.len() as int) =~= rs);
    ExcelSheet { name: String::from_str("Sheet1"), cells }
}


/// (column, value) of each cell in row `r`, in sheet order.
pub open spec fn row_entries(cells: Seq<ExcelCell>, r: int) -> Seq<(u32, Seq<char>)> {
    cells.filter(|c: ExcelCell| c.row == r).map_values(|c: ExcelCell| (c.col, c.value@))
}

/// Where an entry with column `col` goes in a list ordered by column: after
/// every entry whose column is not greater.
pub open spec fn col_slot(s: Seq<(u32, Seq<char>)>, col: u32) -> int
    decreases s.len(),
{
    if s.len() == 0 {
        0
    } else if s[0].0 > col {
        0
    } else {
        1 + col_slot(s.drop_first(), col)
    }
}

/// The entries ordered by column, entries with equal columns in their original order.
pub open spec fn sorted_by_col(s: Seq<(u32, Seq<char>)>) -> Seq<(u32, Seq<char>)>
    decreases s.len(),
{
    if s.len() == 0 {
        s
    } else {
        let t = sorted_by_col(s.drop_last());
        t.insert(col_slot(t, s.last().0), s.last())
    }
}

/// The largest row index among the cells, 0 when there are none.
pub open spec fn max_row(cells: Seq<ExcelCell>) -> u32
    decreases cells.len(),
{
    if cells.len() == 0 {
        0
    } else {
        let m = max_row(cells.drop_last());
        if cells.last().row > m {
            cells.last().row
        } else {
            m
        }
    }
}

/// The values of the rows `0 .. n` that hold cells, each row ordered by column.
pub open spec fn csv_rows(cells: Seq<ExcelCell>, n: int) -> Seq<Seq<Seq<char>>>
    decreases n,
{
    if n <= 0 {
        Seq::empty()
    } else {
        let row = sorted_by_col(row_entries(cells, n - 1));
        csv_rows(cells, n - 1) + if row.len() > 0 {
            seq![row.map_values(|e: (u32, Seq<char>)| e.1)]
        } else {
            Seq::empty()
        }
    }
}

pub open spec fn entries_view(v: Seq<(u32, String)>) -> Seq<(u32, Seq<char>)> {
    v.map_values(|e: (u32, String)| (e.0, e.1@))
}

fn insert_by_col(v: &mut Vec<(u32, String)>, col: u32, value: String)
    ensures
        entries_view(final(v)@) == entries_view(old(v)@).insert(col_slot(entries_view(old(v)@), col), (col, value@)),
{
    let ghost s = entries_view(v@);
    let mut p: usize = 0;
    assert(s.subrange(0, s.len() as int) =~= s);
    while p < v.len() && v[p].0 <= col
        invariant
            s == entries_view(v@),
            v@ == old(v)@,
            p <= v@.len(),
            col_slot(s, col) == p + col_slot(s.subrange(p as int, s.len() as int), col),
        decreases v.len() - p,
    {
        assert(s.subrange(p as int, s.len() as int).drop_first() =~= s.subrange(p + 1, s.len() as int));
        p = p + 1;
    }
    proof {
        if p < s.len() {
            assert(s.subrange(p as int, s.len() as int)[0] == s[p as int]);
        }
    }
    let ghost value_view = value@;
    v.insert(p, (col, value));
    assert(entries_view(v@) =~= s.insert(p as int, (col, value_view)));
}

fn max_row_exec(cells: &Vec<ExcelCell>) -> (r: u32)
    ensures
        r == max_row(cells@),
{
    let mut m: u32 = 0;
    let mut i: usize = 0;
    while i < cells.len()
        invariant
            i <= cells@.len(),
            m == max_row(cells@.subrange(0, i as int)),
        decreases cells.len() - i,
    {
        assert(cells@.subrange(0, i + 1).drop_last() =~= cells@.subrange(0, i as int));
        if cells[i].row > m {
            m = cells[i].row;
        }
        i = i + 1;
    }
    assert(cells@.subrange(0, cells@.len() as int) =~= cells@);
    m
}

/// The entries of row `r`, ordered by column.
fn row_of(cells: &Vec<ExcelCell>, r: u32) -> (out: Vec<(u32, String)>)
    ensures
        entries_view(out@) == sorted_by_col(row_entries(cells@, r as int)),
{
    let ghost pred = |c: ExcelCell| c.row == r as int;
    let ghost f = |c: ExcelCell| (c.col, c.value@);
    let mut out: Vec<(u32, String)> = Vec::new();
    let mut i: usize = 0;
    assert(cells@.subrange(0, 0).filter(pred) =~= Seq::<ExcelCell>::empty());
    assert(entries_view(out@) =~= sorted_by_col(cells@.subrange(0, 0).filter(pred).map_values(f)));
    while i < cells.len()
        invariant
            i <= cells@.len(),
            pred == (|c: ExcelCell| c.row == r as int),
            f == (|c: ExcelCell| (c.col, c.value@)),
            entries_view(out@) == sorted_by_col(cells@.subrange(0, i as int).filter(pred).map_values(f)),
        decreases cells.len() - i,
    {
        let c = &cells[i];
        let ghost fl = cells@.subrange(0, i as int).filter(pred);
        proof {
            assert(cells@.subrange(0, i + 1) =~= cells@.subrange(0, i as int).push(cells@[i as int]));
            cells@.subrange(0, i as int).lemma_filter_push(cells@[i as int], pred);
        }
        if c.row == r {
            insert_by_col(&mut out, c.col, c.value.clone());
            proof {
                let t = fl.push(cells@[i as int]).map_values(f);
                assert(t =~= fl.map_values(f).push(f(cells@[i as int])));
                assert(t.drop_last() =~= fl.map_values(f));
            }
        }
        i = i + 1;
    }
    assert(cells@.subrange(0, cells@.len() as int) =~= cells@);
    out
}

fn values_of(row: &Vec<(u32, String)>) -> (r: Vec<String>)
    ensures
        r@.map_values(|s: String| s@) == entries_view(row@).map_values(|e: (u32, Seq<char>)| e.1),
{
    let mut r: Vec<String> = Vec::new();
    let mut i: usize = 0;
    while i < row.len()
        invariant
            i <= row@.len(),
            r@.map_values(|s: String| s@) == entries_view(row@).map_values(|e: (u32, Seq<char>)| e.1).subrange(0, i as int),
        decreases row.len() - i,
    {
        let ghost before = r@;
        let v = row[i].1.clone();
        r.push(v);
        proof {
            let w = entries_view(row@).map_values(|e: (u32, Seq<char>)| e.1);
            assert(r@ == before.push(row@[i as int].1));
            assert(w[i as int] == row@[i as int].1@);
            assert(r@.map_values(|s: String| s@) =~= before.map_values(|s: String| s@).push(row@[i as int].1@));
            assert(w.subrange(0, i + 1) =~= w.subrange(0, i as int).push(w[i as int]));
        }
        i = i + 1;
    }
    assert(entries_view(row@).map_values(|e: (u32, Seq<char>)| e.1).subrange(0, row@.len() as int) =~= entries_view(row@).map_values(
        |e: (u32, Seq<char>)| e.1,
    ));
    r
}

/// The rows to write for a sheet in CSV: rows 0 up to the largest row index,
/// those holding no cell left out, each row's values ordered by column
/// (cells in the same column keep their order).
pub fn sheet_rows(sheet: &ExcelSheet) -> (r: Vec<Vec<String>>)
    ensures
        r@.map_values(|row: Vec<String>| row@.map_values(|s: String| s@)) == csv_rows(sheet.cells@, max_row(sheet.cells@) + 1),
{
    let cells = &sheet.cells;
    let m = max_row_exec(cells);
    let mut out: Vec<Vec<String>> = Vec::new();
    let mut r: u64 = 0;
    while r <= m as u64
        invariant
            m == max_row(cells@),
            r <= m as u64 + 1,
            out@.map_values(|row: Vec<String>| row@.map_values(|s: String| s@)) == csv_rows(cells@, r as int),
        decreases m as u64 + 1 - r,
    {
        let entries = row_of(cells, r as u32);
        let ghost before = out@.map_values(|row: Vec<String>| row@.map_values(|s: String| s@));
        if entries.len() > 0 {
            let values = values_of(&entries);
            out.push(values);
            assert(out@.map_values(|row: Vec<String>| row@.map_values(|s: String| s@)) =~= before.push(
                entries_view(entries@).map_values(|e: (u32, Seq<char>)| e.1),
            ));
        }
        proof {
            let row = sorted_by_col(row_entries(cells@, r as int));
            if row.len() > 0 {
                assert(csv_rows(cells@, r + 1) =~= before + seq![row.map_values(|e: (u32, Seq<char>)| e.1)]);
            } else {
                assert(csv_rows(cells@, r + 1) =~= before + Seq::<Seq<Seq<char>>>::empty());
            }
        }
        r = r + 1;
    }
    out
}

} // verus!
