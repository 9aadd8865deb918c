//! Page-scoped reading of a staging table: page parameters, which rows a
//! page covers, and how a stored row reads back.

use vstd::prelude::*;
use vstd::string::*;
use vstd::arithmetic::div_mod::lemma_fundamental_div_mod;
use crate::sql::StagingTable;
use crate::staged::StagedRow;
use crate::text::str_eq;
use crate::value::{CellValue, CellView, read_cell, read_id_cell, read_errors_cell, read_of, read_id_of, read_errors_of, opt_view};
use crate::json::views_of;
use crate::record::errors_key;

verus! {

/// The largest page size served.
pub const MAX_PAGE_SIZE: u32 = 100;

/// The page parameters of a read of both staging tables.
pub struct PaginationQuery {
    pub valid_page: u32,
    pub valid_page_size: u32,
    pub invalid_page: u32,
    pub invalid_page_size: u32,
}

/// The page asked for when none is given.
pub fn default_page() -> (r: u32)
    ensures
        r == 1,
{
    1
}

/// The page size asked for when none is given.
pub fn default_page_size() -> (r: u32)
    ensures
        r == 20,
{
    20
}

pub open spec fn clamped_page(p: u32) -> u32 {
    if p < 1 { 1 } else { p }
}

pub open spec fn clamped_page_size(s: u32) -> u32 {
    if s < 1 {
        1
    } else if s > MAX_PAGE_SIZE {
        MAX_PAGE_SIZE
    } else {
        s
    }
}

/// Page numbers start at 1.
pub fn clamp_page(p: u32) -> (r: u32)
    ensures
        r == clamped_page(p),
{
    if p < 1 { 1 } else { p }
}

/// Page sizes lie between 1 and the largest page size.
pub fn clamp_page_size(s: u32) -> (r: u32)
    ensures
        r == clamped_page_size(s),
{
    if s < 1 {
        1
    } else if s > MAX_PAGE_SIZE {
        MAX_PAGE_SIZE
    } else {
        s
    }
}

impl PaginationQuery {
    /// The first page of each table, at the default size.
    pub fn new() -> (r: PaginationQuery)
        ensures
            r.valid_page == 1 && r.invalid_page == 1,
            r.valid_page_size == 20 && r.invalid_page_size == 20,
    {
        PaginationQuery {
            valid_page: default_page(),
            valid_page_size: default_page_size(),
            invalid_page: default_page(),
            invalid_page_size: default_page_size(),
        }
    }

    /// The same query with each page number and size clamped.
    pub fn clamped(&self) -> (r: PaginationQuery)
        ensures
            r.valid_page == clamped_page(self.valid_page),
            r.valid_page_size == clamped_page_size(self.valid_page_size),
            r.invalid_page == clamped_page(self.invalid_page),
            r.invalid_page_size == clamped_page_size(self.invalid_page_size),
    {
        PaginationQuery {
            valid_page: clamp_page(self.valid_page),
            valid_page_size: clamp_page_size(self.valid_page_size),
            invalid_page: clamp_page(self.invalid_page),
            invalid_page_size: clamp_page_size(self.invalid_page_size),
        }
    }
}

/// The position of the first row of a page.
pub open spec fn page_offset_of(page: nat, size: nat) -> nat {
    ((page - 1) * size) as nat
}

/// How many of `total` rows a page holds.
pub open spec fn page_len(total: nat, page: nat, size: nat) -> nat {
    let off = page_offset_of(page, size);
    if off >= total {
        0
    } else if total - off < size {
        (total - off) as nat
    } else {
        size
    }
}

/// The row positions `[start, end)` that a page covers out of `total` rows
/// ordered by identifier.
pub fn page_bounds(total: u64, page: u32, size: u32) -> (r: (u64, u64))
    requires
        page >= 1,
    ensures
        r.0 == if page_offset_of(page as nat, size as nat) < total { page_offset_of(page as nat, size as nat) } else { total as nat },
        r.1 - r.0 == page_len(total as nat, page as nat, size as nat),
        r.1 <= total,
{
    proof {
        assert(((page - 1) as int) * (size as int) <= 0xFFFF_FFFFint * 0xFFFF_FFFFint) by (nonlinear_arith)
            requires
                0 <= (page - 1) <= 0xFFFF_FFFFint,
                0 <= size <= 0xFFFF_FFFFint,
        ;
    }
    let off: u64 = ((page - 1) as u64) * (size as u64);
    if off >= total {
        (total, total)
    } else if total - off < size as u64 {
        (off, total)
    } else {
        (off, off + size as u64)
    }
}

/// The number of pages that `total` rows fill.
pub open spec fn page_count(total: nat, size: nat) -> nat {
    ((total + size - 1) / (size as int)) as nat
}

/// The rows on pages 1 to `n`.
pub open spec fn rows_in_pages(total: nat, size: nat, n: nat) -> nat
    decreases n,
{
    if n == 0 {
        0
    } else {
        rows_in_pages(total, size, (n - 1) as nat) + page_len(total, n, size)
    }
}

proof fn lemma_rows_in_pages(total: nat, size: nat, n: nat)
    requires
        size >= 1,
    ensures
        rows_in_pages(total, size, n) as int == if n * size < total { (n * size) as int } else { total as int },
    decreases n,
{
    if n > 0 {
        let m = (n - 1) as nat;
        lemma_rows_in_pages(total, size, m);
        let a = m * size;
        assert(n * size == a + size) by (nonlinear_arith)
            requires
                n == m + 1,
                a == m * size,
        ;
        assert(page_offset_of(n, size) == a);
        assert(rows_in_pages(total, size, n) == rows_in_pages(total, size, m) + page_len(total, n, size));
        let b = n * size;
        if a >= total {
            assert(page_len(total, n, size) == 0);
        } else if total - a < size {
            assert(page_len(total, n, size) == total - a);
        } else {
            assert(page_len(total, n, size) == size);
        }
    } else {
        assert(n * size == 0) by (nonlinear_arith)
            requires
                n == 0,
        ;
    }
}

/// Reading every page of a table in turn yields `total` rows in all: the
/// pages partition the rows.
pub proof fn lemma_pages_cover(total: nat, size: nat)
    requires
        size >= 1,
    ensures
        rows_in_pages(total, size, page_count(total, size)) == total,
        page_len(total, page_count(total, size) + 1, size) == 0,
{
    let n = page_count(total, size);
    lemma_fundamental_div_mod((total + size - 1) as int, size as int);
    assert(n * size >= total) by (nonlinear_arith)
        requires
            (total + size - 1) == size * n + (total + size - 1) % (size as int),
            (total + size - 1) % (size as int) < size,
            size >= 1,
    ;
    lemma_rows_in_pages(total, size, n);
    assert(page_offset_of(n + 1, size) == n * size);
}

/// A row as read back: its entries in column order, then a copy of the
/// identifier under `id`. When a key comes twice, the later entry stands.
pub struct ReadRow {
    pub entries: Vec<(String, CellValue)>,
}

pub open spec fn entries_view(e: Seq<(String, CellValue)>) -> Seq<(Seq<char>, CellView)> {
    e.map_values(|p: (String, CellValue)| (p.0@, p.1@))
}

pub open spec fn read_column_of(t: StagingTable, c: Seq<char>, cell: Option<Seq<char>>) -> CellView {
    if t == StagingTable::Invalid && c == errors_key() {
        read_errors_of(cell)
    } else {
        read_of(cell)
    }
}

/// The entries of a read row: `_id` as an object-id wrapper, the columns,
/// then the same wrapper again under the legacy key `id`.
pub open spec fn read_row_of(t: StagingTable, cols: Seq<Seq<char>>, id: Seq<char>, cells: Seq<Option<Seq<char>>>) -> Seq<(Seq<char>, CellView)> {
    let idv = read_id_of(Some(id));
    (seq![("_id"@, idv)] + Seq::new(cols.len(), |k: int| (cols[k], read_column_of(t, cols[k], cells[k])))).push(("id"@, idv))
}

/// Reads a stored row of table `t` back.
pub fn read_row(t: StagingTable, cols: &Vec<String>, row: &StagedRow) -> (r: ReadRow)
    requires
        row.cells@.len() == cols@.len(),
    ensures
        entries_view(r.entries@) == read_row_of(t, views_of(cols@), row.id@, row@.1),
{
    let ghost cv = views_of(cols@);
    let ghost ce = row@.1;
    let idc = Some(row.id.clone());
    let idv = read_id_cell(&idc);
    let mut entries: Vec<(String, CellValue)> = Vec::new();
    let id_entry = (String::from_str("_id"), idv);
    entries.push(id_entry);
    let mut k: usize = 0;
    while k < cols.len()
        invariant
            k <= cols@.len(),
            row.cells@.len() == cols@.len(),
            cv == views_of(cols@),
            ce == row@.1,
            entries@.len() == k + 1,
            entries_view(entries@)[0] == ("_id"@, read_id_of(Some(row.id@))),
            forall|j: int| 0 <= j < k ==> #[trigger] entries_view(entries@)[j + 1] == (cv[j], read_column_of(t, cv[j], ce[j])),
        decreases cols@.len() - k,
    {
        let c = &cols[k];
        let v = if t == StagingTable::Invalid && str_eq(c.as_str(), "errors") {
            read_errors_cell(&row.cells[k])
        } else {
            read_cell(&row.cells[k])
        };
        assert(opt_view(row.cells@[k as int]) == ce[k as int]);
        let ghost before = entries_view(entries@);
        entries.push((c.clone(), v));
        assert(entries_view(entries@) =~= before.push((cv[k as int], read_column_of(t, cv[k as int], ce[k as int]))));
        k += 1;
    }
    let ghost body = entries_view(entries@);
    assert(body =~= seq![("_id"@, read_id_of(Some(row.id@)))] + Seq::new(cv.len(), |j: int| (cv[j], read_column_of(t, cv[j], ce[j])))) by {
        assert forall|j: int| 1 <= j < body.len() implies body[j] == (seq![("_id"@, read_id_of(Some(row.id@)))] + Seq::new(cv.len(), |j: int| (cv[j], read_column_of(t, cv[j], ce[j]))))[j] by {
            assert(body[(j - 1) + 1] == (cv[j - 1], read_column_of(t, cv[j - 1], ce[j - 1])));
        }
    }
    entries.push((String::from_str("id"), CellValue::ObjectId(row.id.clone())));
    assert(entries_view(entries@) =~= body.push(("id"@, read_id_of(Some(row.id@)))));
    ReadRow { entries }
}

/// One page of a table as served: its rows, the table's total row count,
/// and the page number and size served.
pub struct Page {
    pub data: Vec<ReadRow>,
    pub total: u64,
    pub page: u32,
    pub page_size: u32,
}

/// Reads back the rows of one page of table `t`.
pub fn load_page(t: StagingTable, cols: &Vec<String>, rows: &Vec<StagedRow>, total: u64, page: u32, page_size: u32) -> (r: Page)
    requires
        forall|i: int| 0 <= i < rows@.len() ==> (#[trigger] rows@[i]).cells@.len() == cols@.len(),
    ensures
        r.data@.len() == rows@.len(),
        forall|i: int| 0 <= i < rows@.len() ==> entries_view((#[trigger] r.data@[i]).entries@) == read_row_of(t, views_of(cols@), rows@[i].id@, rows@[i]@.1),
        r.total == total,
        r.page == page,
        r.page_size == page_size,
{
    let mut data: Vec<ReadRow> = Vec::new();
    let mut i: usize = 0;
    while i < rows.len()
        invariant
            i <= rows@.len(),
            forall|j: int| 0 <= j < rows@.len() ==> (#[trigger] rows@[j]).cells@.len() == cols@.len(),
            data@.len() == i,
            forall|j: int| 0 <= j < i ==> entries_view((#[trigger] data@[j]).entries@) == read_row_of(t, views_of(cols@), rows@[j].id@, rows@[j]@.1),
        decreases rows@.len() - i,
    {
        let r = read_row(t, cols, &rows[i]);
        data.push(r);
        i += 1;
    }
    Page { data, total, page, page_size }
}

/// The page served when nothing has been staged: no rows, total 0, page 1.
pub fn empty_page(page_size: u32) -> (r: Page)
    ensures
        r.data@.len() == 0,
        r.total == 0,
        r.page == 1,
        r.page_size == page_size,
{
    Page { data: Vec::new(), total: 0, page: 1, page_size }
}

} // verus!
