//! Rows of the two staging tables, and how an upload fills them.

use vstd::prelude::*;
use vstd::string::*;
use crate::json::views_of;
use crate::record::{Item, Record, lookup, explicit_id, row_id_of, kept_keys, is_data_column, is_not_errors, is_not_id, errors_key};
use crate::text::str_eq;
use crate::value::{FieldValue, opt_view, stored_of, json_text_of, stored_cell, json_text};

verus! {

/// A staged row: its identifier and one cell per column of its table, in the
/// table's column order (`None` is SQL NULL).
pub struct StagedRow {
    pub id: String,
    pub cells: Vec<Option<String>>,
}

pub type RowView = (Seq<char>, Seq<Option<Seq<char>>>);

impl View for StagedRow {
    type V = RowView;

    open spec fn view(&self) -> RowView {
        (self.id@, self.cells@.map_values(|c: Option<String>| opt_view(c)))
    }
}

pub open spec fn rows_view(rows: Seq<StagedRow>) -> Seq<RowView> {
    rows.map_values(|r: StagedRow| r@)
}

/// No two rows share an identifier.
pub open spec fn distinct_ids(rows: Seq<RowView>) -> bool {
    forall|i: int, j: int| 0 <= i < j < rows.len() ==> rows[i].0 != rows[j].0
}

/// The two staging tables that an upload creates and fills. The invalid
/// table's last column is `errors`.
pub struct UploadPlan {
    pub valid_columns: Vec<String>,
    pub invalid_columns: Vec<String>,
    pub valid_rows: Vec<StagedRow>,
    pub invalid_rows: Vec<StagedRow>,
}

pub struct PlanView {
    pub valid_columns: Seq<Seq<char>>,
    pub invalid_columns: Seq<Seq<char>>,
    pub valid_rows: Seq<RowView>,
    pub invalid_rows: Seq<RowView>,
}

impl View for UploadPlan {
    type V = PlanView;

    open spec fn view(&self) -> PlanView {
        PlanView {
            valid_columns: views_of(self.valid_columns@),
            invalid_columns: views_of(self.invalid_columns@),
            valid_rows: rows_view(self.valid_rows@),
            invalid_rows: rows_view(self.invalid_rows@),
        }
    }
}

/// Why an upload is refused.
#[derive(PartialEq, Eq, Structural, Debug, Clone, Copy)]
pub enum UploadError {
    /// Neither valid nor invalid items were given.
    NoData,
    /// An item of either list is not a flat record.
    NotARecord,
    /// An invalid record has no `errors` field holding a non-empty array.
    MissingErrors,
    /// Two rows of one table would share an identifier.
    DuplicateId,
}

/// The stored cell of column `col` for a record.
pub open spec fn cell_for(fields: Seq<(String, FieldValue)>, col: Seq<char>) -> Option<Seq<char>> {
    match lookup(fields, col) {
        Some(v) => stored_of(v),
        None => None,
    }
}

/// The errors cell of an invalid record: the JSON text of its `errors`
/// field. (An upload accepts only invalid records whose `errors` is a
/// non-empty array, so the `[]` fallback is never stored by one.)
pub open spec fn errors_cell_for(fields: Seq<(String, FieldValue)>) -> Option<Seq<char>> {
    match lookup(fields, errors_key()) {
        Some(v) => Some(json_text_of(v)),
        None => Some("[]"@),
    }
}

pub open spec fn invalid_cell_for(fields: Seq<(String, FieldValue)>, col: Seq<char>) -> Option<Seq<char>> {
    if col == errors_key() {
        errors_cell_for(fields)
    } else {
        cell_for(fields, col)
    }
}

pub open spec fn table_cell_for(fields: Seq<(String, FieldValue)>, col: Seq<char>, invalid: bool) -> Option<Seq<char>> {
    if invalid {
        invalid_cell_for(fields, col)
    } else {
        cell_for(fields, col)
    }
}

pub open spec fn row_of(fields: Seq<(String, FieldValue)>, cols: Seq<Seq<char>>, fresh: Seq<char>, invalid: bool) -> RowView {
    (
        row_id_of(fields, fresh),
        cols.map_values(|c: Seq<char>| table_cell_for(fields, c, invalid)),
    )
}

/// The rows that a batch of records gives a table: one per record, in
/// order, a record without an identifier of its own taking the fresh
/// identifier at its position. (An upload refuses a batch with any item that
/// is not a record, so every item gives a row.)
pub open spec fn staged_rows(items: Seq<Item>, fresh: Seq<Seq<char>>, cols: Seq<Seq<char>>, invalid: bool) -> Seq<RowView>
    decreases items.len(),
{
    if items.len() == 0 {
        Seq::empty()
    } else {
        let rest = staged_rows(items.drop_last(), fresh.drop_last(), cols, invalid);
        match items.last() {
            Item::Record(r) => rest.push(row_of(r.fields@, cols, fresh.last(), invalid)),
            Item::Other => rest,
        }
    }
}

/// The columns of the valid table: the first record's field names but `_id`
/// and `id`.
pub open spec fn valid_columns_of(valid: Seq<Item>) -> Seq<Seq<char>> {
    if valid.len() > 0 {
        match valid[0] {
            Item::Record(r) => kept_keys(r.fields@, |k: Seq<char>| is_data_column(k)),
            Item::Other => Seq::empty(),
        }
    } else {
        Seq::empty()
    }
}

/// The columns of the invalid table: the first invalid record's field names
/// but `errors` and `_id`, then `errors`.
pub open spec fn invalid_columns_of(invalid: Seq<Item>) -> Seq<Seq<char>> {
    let data = if invalid.len() > 0 {
        match invalid[0] {
            Item::Record(r) => kept_keys(r.fields@, |k: Seq<char>| is_not_errors(k) && is_not_id(k)),
            Item::Other => Seq::empty(),
        }
    } else {
        Seq::empty()
    };
    data.push(errors_key())
}

/// Every item is a flat record.
pub open spec fn all_records(items: Seq<Item>) -> bool {
    forall|i: int| 0 <= i < items.len() ==> (#[trigger] items[i]) is Record
}

/// The record's `errors` field is an array other than the empty `[]`.
pub open spec fn has_error_list(fields: Seq<(String, FieldValue)>) -> bool {
    match lookup(fields, errors_key()) {
        Some(FieldValue::Array(t)) => t@ != "[]"@,
        _ => false,
    }
}

/// Every record of the batch carries a non-empty errors array.
pub open spec fn all_have_errors(items: Seq<Item>) -> bool {
    forall|i: int| 0 <= i < items.len() ==> match #[trigger] items[i] {
        Item::Record(r) => has_error_list(r.fields@),
        Item::Other => true,
    }
}

/// The outcome of an upload, given the fresh identifier for each item. The
/// whole batch is refused when any item is malformed: not a record, or an
/// invalid record without its reasons.
pub open spec fn upload_outcome(valid: Seq<Item>, invalid: Seq<Item>, valid_fresh: Seq<Seq<char>>, invalid_fresh: Seq<Seq<char>>) -> Result<PlanView, UploadError> {
    if valid.len() == 0 && invalid.len() == 0 {
        Err(UploadError::NoData)
    } else if !all_records(valid) || !all_records(invalid) {
        Err(UploadError::NotARecord)
    } else if !all_have_errors(invalid) {
        Err(UploadError::MissingErrors)
    } else {
        let vc = valid_columns_of(valid);
        let ic = invalid_columns_of(invalid);
        let vr = staged_rows(valid, valid_fresh, vc, false);
        let ir = staged_rows(invalid, invalid_fresh, ic, true);
        if distinct_ids(vr) && distinct_ids(ir) {
            Ok(PlanView { valid_columns: vc, invalid_columns: ic, valid_rows: vr, invalid_rows: ir })
        } else {
            Err(UploadError::DuplicateId)
        }
    }
}

pub open spec fn plan_result_view(r: Result<UploadPlan, UploadError>) -> Result<PlanView, UploadError> {
    match r {
        Ok(p) => Ok(p@),
        Err(e) => Err(e),
    }
}

/// The stored cell of column `col` for a record.
pub fn record_cell(r: &Record, col: &str) -> (c: Option<String>)
    ensures
        opt_view(c) == cell_for(r.fields@, col@),
{
    match r.get(col) {
        Some(v) => stored_cell(v),
        None => None,
    }
}

fn errors_cell(r: &Record) -> (c: Option<String>)
    ensures
        opt_view(c) == errors_cell_for(r.fields@),
{
    match r.get("errors") {
        Some(v) => Some(json_text(v)),
        None => Some(String::from_str("[]")),
    }
}

/// The row that a record gives a table with columns `cols`.
pub fn build_row(r: &Record, cols: &Vec<String>, fresh: &String, invalid: bool) -> (row: StagedRow)
    ensures
        row@ == row_of(r.fields@, views_of(cols@), fresh@, invalid),
{
    let id = match r.explicit_id() {
        Some(i) => i,
        None => fresh.clone(),
    };
    let mut cells: Vec<Option<String>> = Vec::new();
    let mut j: usize = 0;
    while j < cols.len()
        invariant
            j <= cols@.len(),
            cells@.len() == j,
            forall|k: int| 0 <= k < j ==> opt_view(#[trigger] cells@[k]) == table_cell_for(r.fields@, cols@[k]@, invalid),
        decreases cols@.len() - j,
    {
        let col = cols[j].as_str();
        let c = if invalid && str_eq(col, "errors") {
            errors_cell(r)
        } else {
            record_cell(r, col)
        };
        cells.push(c);
        j += 1;
    }
    assert(cells@.map_values(|c: Option<String>| opt_view(c)) =~= views_of(cols@).map_values(|c: Seq<char>| table_cell_for(r.fields@, c, invalid)));
    StagedRow { id, cells }
}

/// True when two rows share an identifier.
pub fn has_duplicate_id(rows: &Vec<StagedRow>) -> (r: bool)
    ensures
        r == !distinct_ids(rows_view(rows@)),
{
    let n = rows.len();
    let mut i: usize = 0;
    while i < n
        invariant
            n == rows@.len(),
            i <= n,
            forall|a: int, b: int| 0 <= a < b < n && a < i ==> rows@[a].id@ != rows@[b].id@,
        decreases n - i,
    {
        let mut j: usize = i + 1;
        while j < n
            invariant
                n == rows@.len(),
                i < n,
                i + 1 <= j <= n,
                forall|a: int, b: int| 0 <= a < b < n && a < i ==> rows@[a].id@ != rows@[b].id@,
                forall|b: int| i < b < j ==> rows@[i as int].id@ != rows@[b].id@,
            decreases n - j,
        {
            if rows[i].id == rows[j].id {
                assert(rows_view(rows@)[i as int].0 == rows_view(rows@)[j as int].0);
                return true;
            }
            j += 1;
        }
        i += 1;
    }
    assert(distinct_ids(rows_view(rows@))) by {
        assert forall|a: int, b: int| 0 <= a < b < rows_view(rows@).len() implies rows_view(rows@)[a].0 != rows_view(rows@)[b].0 by {
            assert(rows@[a].id@ != rows@[b].id@);
        }
    }
    false
}

/// The rows that a batch of items gives a table with columns `cols`.
pub fn build_rows(items: &Vec<Item>, fresh: &Vec<String>, cols: &Vec<String>, invalid: bool) -> (rows: Vec<StagedRow>)
    requires
        fresh.len() == items.len(),
    ensures
        rows_view(rows@) == staged_rows(items@, views_of(fresh@), views_of(cols@), invalid),
{
    let mut rows: Vec<StagedRow> = Vec::new();
    let mut i: usize = 0;
    while i < items.len()
        invariant
            fresh@.len() == items@.len(),
            i <= items@.len(),
            rows_view(rows@) == staged_rows(items@.subrange(0, i as int), views_of(fresh@).subrange(0, i as int), views_of(cols@), invalid),
        decreases items@.len() - i,
    {
        let ghost before = rows_view(rows@);
        assert(items@.subrange(0, i + 1).drop_last() =~= items@.subrange(0, i as int));
        assert(views_of(fresh@).subrange(0, i + 1).drop_last() =~= views_of(fresh@).subrange(0, i as int));
        match &items[i] {
            Item::Record(r) => {
                let row = build_row(r, cols, &fresh[i], invalid);
                rows.push(row);
                assert(rows_view(rows@) =~= before.push(row@));
            },
            Item::Other => {},
        }
        i += 1;
    }
    assert(items@.subrange(0, items@.len() as int) =~= items@);
    assert(views_of(fresh@).subrange(0, items@.len() as int) =~= views_of(fresh@));
    rows
}

fn every_record(items: &Vec<Item>) -> (r: bool)
    ensures
        r == all_records(items@),
{
    let mut i: usize = 0;
    while i < items.len()
        invariant
            i <= items@.len(),
            forall|k: int| 0 <= k < i ==> (#[trigger] items@[k]) is Record,
        decreases items@.len() - i,
    {
        if let Item::Other = &items[i] {
            return false;
        }
        i += 1;
    }
    true
}

fn record_has_error_list(r: &Record) -> (b: bool)
    ensures
        b == has_error_list(r.fields@),
{
    match r.get("errors") {
        Some(FieldValue::Array(t)) => !str_eq(t.as_str(), "[]"),
        _ => false,
    }
}

fn every_error_list(items: &Vec<Item>) -> (r: bool)
    ensures
        r == all_have_errors(items@),
{
    let mut i: usize = 0;
    while i < items.len()
        invariant
            i <= items@.len(),
            forall|k: int| 0 <= k < i ==> match #[trigger] items@[k] {
                Item::Record(r) => has_error_list(r.fields@),
                Item::Other => true,
            },
        decreases items@.len() - i,
    {
        if let Item::Record(r) = &items[i] {
            if !record_has_error_list(r) {
                return false;
            }
        }
        i += 1;
    }
    true
}

/// Builds the staging tables of an upload, a record without an identifier
/// of its own taking the fresh identifier at its position.
pub fn prepare_upload_with_ids(valid: &Vec<Item>, invalid: &Vec<Item>, valid_fresh: &Vec<String>, invalid_fresh: &Vec<String>) -> (r: Result<UploadPlan, UploadError>)
    requires
        valid_fresh.len() == valid.len(),
        invalid_fresh.len() == invalid.len(),
    ensures
        plan_result_view(r) == upload_outcome(valid@, invalid@, views_of(valid_fresh@), views_of(invalid_fresh@)),
{
    if valid.len() == 0 && invalid.len() == 0 {
        return Err(UploadError::NoData);
    }
    if !every_record(valid) || !every_record(invalid) {
        return Err(UploadError::NotARecord);
    }
    if !every_error_list(invalid) {
        return Err(UploadError::MissingErrors);
    }
    let valid_columns = if valid.len() > 0 {
        match &valid[0] {
            Item::Record(r) => r.data_columns(),
            Item::Other => Vec::new(),
        }
    } else {
        Vec::new()
    };
    let mut invalid_columns = if invalid.len() > 0 {
        match &invalid[0] {
            Item::Record(r) => r.invalid_columns(),
            Item::Other => Vec::new(),
        }
    } else {
        Vec::new()
    };
    invalid_columns.push(String::from_str("errors"));
    assert(views_of(valid_columns@) =~= valid_columns_of(valid@));
    assert(views_of(invalid_columns@) =~= invalid_columns_of(invalid@));
    let valid_rows = build_rows(valid, valid_fresh, &valid_columns, false);
    let invalid_rows = build_rows(invalid, invalid_fresh, &invalid_columns, true);
    if has_duplicate_id(&valid_rows) || has_duplicate_id(&invalid_rows) {
        return Err(UploadError::DuplicateId);
    }
    Ok(UploadPlan { valid_columns, invalid_columns, valid_rows, invalid_rows })
}

/// Relies on `uuid::Uuid::new_v4` and the hyphenated text that `to_string`
/// gives a `Uuid`: 36 characters.
#[verifier::external_body]
fn fresh_uuid() -> (r: String)
    ensures
        r@.len() == 36,
{
    uuid::Uuid::new_v4().to_string()
}

/// A fresh identifier for each item that is a record without one of its
/// own; an empty placeholder for the others.
fn fresh_ids(items: &Vec<Item>) -> (r: Vec<String>)
    ensures
        r@.len() == items@.len(),
        forall|i: int| 0 <= i < items@.len() ==> (#[trigger] items@[i] matches Item::Record(rec) && explicit_id(rec.fields@) is None) ==> r@[i]@.len() == 36,
{
    let mut out: Vec<String> = Vec::new();
    let mut i: usize = 0;
    while i < items.len()
        invariant
            i <= items@.len(),
            out@.len() == i,
            forall|k: int| 0 <= k < i ==> (#[trigger] items@[k] matches Item::Record(rec) && explicit_id(rec.fields@) is None) ==> out@[k]@.len() == 36,
        decreases items@.len() - i,
    {
        let id = match &items[i] {
            Item::Record(r) => match r.explicit_id() {
                Some(_) => String::new(),
                None => fresh_uuid(),
            },
            Item::Other => String::new(),
        };
        out.push(id);
        i += 1;
    }
    out
}

/// Builds the staging tables of an upload; a record without an identifier
/// of its own gets a freshly generated UUID.
pub fn prepare_upload(valid: &Vec<Item>, invalid: &Vec<Item>) -> (r: Result<UploadPlan, UploadError>)
    ensures
        exists|vf: Seq<Seq<char>>, ivf: Seq<Seq<char>>| {
            &&& vf.len() == valid@.len()
            &&& ivf.len() == invalid@.len()
            &&& forall|i: int| 0 <= i < valid@.len() ==> (#[trigger] valid@[i] matches Item::Record(rec) && explicit_id(rec.fields@) is None) ==> vf[i].len() == 36
            &&& forall|i: int| 0 <= i < invalid@.len() ==> (#[trigger] invalid@[i] matches Item::Record(rec) && explicit_id(rec.fields@) is None) ==> ivf[i].len() == 36
            &&& plan_result_view(r) == upload_outcome(valid@, invalid@, vf, ivf)
        },
{
    let vf = fresh_ids(valid);
    let ivf = fresh_ids(invalid);
    let r = prepare_upload_with_ids(valid, invalid, &vf, &ivf);
    assert(forall|i: int| 0 <= i < valid@.len() ==> (#[trigger] valid@[i] matches Item::Record(rec) && explicit_id(rec.fields@) is None) ==> views_of(vf@)[i].len() == 36);
    assert(forall|i: int| 0 <= i < invalid@.len() ==> (#[trigger] invalid@[i] matches Item::Record(rec) && explicit_id(rec.fields@) is None) ==> views_of(ivf@)[i].len() == 36);
    r
}

} // verus!
