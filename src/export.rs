//! Export of staged or committed rows as CSV: the records to write, with
//! their header row, and the encoding.

use vstd::prelude::*;
use vstd::string::*;
use crate::json::views_of;
use crate::schema::{CollectionSchema, property_names, short_name_of};
use crate::staged::{StagedRow, RowView, rows_view};
use crate::text::str_eq;
use crate::value::opt_view;

verus! {

/// The CSV bytes that the csv crate's default writer produces for the
/// records.
pub uninterp spec fn csv_of(records: Seq<Seq<Seq<char>>>) -> Seq<u8>;

/// The CSV bytes that the csv crate's writer produces for the records when
/// it quotes every field that is not a number.
pub uninterp spec fn csv_non_numeric_of(records: Seq<Seq<Seq<char>>>) -> Seq<u8>;

/// The RFC 3339 text of an instant given in milliseconds since the Unix
/// epoch (the epoch itself when out of range).
pub uninterp spec fn rfc3339_of_millis(ms: i64) -> Seq<char>;

pub open spec fn records_view(r: Seq<Vec<String>>) -> Seq<Seq<Seq<char>>> {
    r.map_values(|rec: Vec<String>| views_of(rec@))
}

/// Every record has as many fields as the first.
pub open spec fn same_lengths(r: Seq<Seq<Seq<char>>>) -> bool {
    forall|i: int| 0 <= i < r.len() ==> (#[trigger] r[i]).len() == r[0].len()
}

/// Relies on `csv::Writer::from_writer` over a `Vec<u8>`, `write_record` and
/// `into_inner`: a record whose length differs from the first is refused;
/// writing into memory fails otherwise never.
#[verifier::external_body]
fn encode_csv(records: &Vec<Vec<String>>) -> (r: Option<Vec<u8>>)
    ensures
        r is Some <==> same_lengths(records_view(records@)),
        r matches Some(b) ==> b@ == csv_of(records_view(records@)),
{
    let mut w = csv::Writer::from_writer(Vec::new());
    for rec in records {
        if w.write_record(rec).is_err() {
            return None;
        }
    }
    w.into_inner().ok()
}

/// Relies on `csv::WriterBuilder` with `QuoteStyle::NonNumeric` and double
/// quoting, over a `Vec<u8>`: as `encode_csv`, with that quoting.
#[verifier::external_body]
fn encode_csv_non_numeric(records: &Vec<Vec<String>>) -> (r: Option<Vec<u8>>)
    ensures
        r is Some <==> same_lengths(records_view(records@)),
        r matches Some(b) ==> b@ == csv_non_numeric_of(records_view(records@)),
{
    let mut w = csv::WriterBuilder::new().quote_style(csv::QuoteStyle::NonNumeric).double_quote(true).from_writer(Vec::new());
    for rec in records {
        if w.write_record(rec).is_err() {
            return None;
        }
    }
    w.into_inner().ok()
}

/// Relies on `chrono::DateTime::from_timestamp_millis`, `unwrap_or_default`
/// and `to_rfc3339`.
#[verifier::external_body]
fn rfc3339_text(ms: i64) -> (r: String)
    ensures
        r@ == rfc3339_of_millis(ms),
{
    chrono::DateTime::from_timestamp_millis(ms).unwrap_or_default().to_rfc3339()
}

pub open spec fn digit_char(d: int) -> char {
    seq!['0', '1', '2', '3', '4', '5', '6', '7', '8', '9'][d]
}

pub open spec fn nat_text(n: nat) -> Seq<char>
    decreases n,
{
    if n < 10 {
        seq![digit_char(n as int)]
    } else {
        nat_text(n / 10).push(digit_char((n % 10) as int))
    }
}

/// The decimal text of an integer.
pub open spec fn decimal_text(i: int) -> Seq<char> {
    if i < 0 {
        seq!['-'] + nat_text((-i) as nat)
    } else {
        nat_text(i as nat)
    }
}

fn digit_text(d: u64) -> (r: &'static str)
    requires
        d < 10,
    ensures
        r@ == seq![digit_char(d as int)],
{
    let digits = "0123456789";
    proof {
        reveal_strlit("0123456789");
    }
    assert(digits@ =~= seq!['0', '1', '2', '3', '4', '5', '6', '7', '8', '9']);
    let r = digits.substring_char(d as usize, d as usize + 1);
    assert(r@ =~= seq![digit_char(d as int)]);
    r
}

fn nat_text_of(n: u64) -> (r: String)
    ensures
        r@ == nat_text(n as nat),
    decreases n,
{
    let last = digit_text(n % 10);
    if n < 10 {
        String::from_str(last)
    } else {
        let mut s = nat_text_of(n / 10);
        s.append(last);
        assert(s@ =~= nat_text((n / 10) as nat).push(digit_char((n % 10) as int)));
        s
    }
}

/// The decimal text of an integer, with a leading minus sign when negative.
fn int_text(i: i64) -> (r: String)
    ensures
        r@ == decimal_text(i as int),
{
    if i < 0 {
        let m: u64 = if i == i64::MIN { 9_223_372_036_854_775_808 } else { (0 - i) as u64 };
        let mut s = String::from_str("-");
        proof {
            reveal_strlit("-");
        }
        let digits = nat_text_of(m);
        s.append(digits.as_str());
        assert(s@ =~= seq!['-'] + nat_text((-i) as nat));
        s
    } else {
        nat_text_of(i as u64)
    }
}

/// The ids named by a comma-separated list: the pieces between commas.
pub open spec fn comma_pieces(s: Seq<char>) -> Seq<Seq<char>>
    decreases s.len(),
{
    if s.len() == 0 {
        seq![Seq::empty()]
    } else {
        let p = comma_pieces(s.drop_last());
        if s.last() == ',' {
            p.push(Seq::empty())
        } else {
            p.update(p.len() - 1, p.last().push(s.last()))
        }
    }
}

proof fn lemma_comma_pieces_nonempty(s: Seq<char>)
    ensures
        comma_pieces(s).len() >= 1,
    decreases s.len(),
{
    if s.len() > 0 {
        lemma_comma_pieces_nonempty(s.drop_last());
    }
}

/// The ids of a download request given as one comma-separated parameter;
/// none when the parameter is absent.
pub fn split_ids(param: &Option<String>) -> (r: Vec<String>)
    ensures
        views_of(r@) == match param {
            Some(s) => comma_pieces(s@),
            None => Seq::empty(),
        },
{
    match param {
        None => Vec::new(),
        Some(s) => {
            let t = s.as_str();
            let n = t.unicode_len();
            let mut done: Vec<String> = Vec::new();
            let mut cur = String::new();
            let mut i: usize = 0;
            while i < n
                invariant
                    n == t@.len(),
                    t@ == s@,
                    i <= n,
                    views_of(done@).push(cur@) == comma_pieces(t@.subrange(0, i as int)),
                decreases n - i,
            {
                assert(t@.subrange(0, i + 1).drop_last() =~= t@.subrange(0, i as int));
                proof {
                    lemma_comma_pieces_nonempty(t@.subrange(0, i as int));
                }
                let c = t.get_char(i);
                let ghost bd = views_of(done@);
                let ghost bc = cur@;
                if c == ',' {
                    done.push(cur);
                    cur = String::new();
                    assert(views_of(done@) =~= bd.push(bc));
                    assert(views_of(done@).push(cur@) =~= bd.push(bc).push(Seq::<char>::empty()));
                } else {
                    let piece = t.substring_char(i, i + 1);
                    cur.append(piece);
                    assert(piece@ =~= seq![c]);
                    assert(cur@ =~= bc.push(c));
                    assert(views_of(done@) == bd);
                    assert(views_of(done@).push(cur@) =~= bd.push(bc).update(bd.len() as int, bc.push(c)));
                }
                i += 1;
            }
            assert(t@.subrange(0, n as int) =~= t@);
            let ghost bd = views_of(done@);
            done.push(cur);
            assert(views_of(done@) =~= bd.push(cur@));
            done
        },
    }
}

pub open spec fn cell_text(c: Option<Seq<char>>) -> Seq<char> {
    match c {
        Some(s) => s,
        None => Seq::empty(),
    }
}

/// The CSV record of a staged row: its identifier, then its cells, NULL as
/// the empty field.
pub open spec fn staged_record(r: RowView) -> Seq<Seq<char>> {
    seq![r.0] + r.1.map_values(|c: Option<Seq<char>>| cell_text(c))
}

/// The records of a staged-table export: the header (`_id` and the columns),
/// then one record per row, in row order, of the rows whose identifier is
/// listed, or of all rows when no identifier is.
pub open spec fn staged_records_of(cols: Seq<Seq<char>>, rows: Seq<RowView>, ids: Seq<Seq<char>>) -> Seq<Seq<Seq<char>>>
    decreases rows.len(),
{
    if rows.len() == 0 {
        seq![seq!["_id"@] + cols]
    } else {
        let rest = staged_records_of(cols, rows.drop_last(), ids);
        if ids.len() == 0 || ids.contains(rows.last().0) {
            rest.push(staged_record(rows.last()))
        } else {
            rest
        }
    }
}

fn listed(ids: &Vec<String>, s: &String) -> (r: bool)
    ensures
        r == views_of(ids@).contains(s@),
{
    let mut i: usize = 0;
    while i < ids.len()
        invariant
            i <= ids@.len(),
            forall|k: int| 0 <= k < i ==> ids@[k]@ != s@,
        decreases ids@.len() - i,
    {
        if ids[i] == *s {
            assert(views_of(ids@)[i as int] == s@);
            return true;
        }
        i += 1;
    }
    assert(!views_of(ids@).contains(s@)) by {
        if views_of(ids@).contains(s@) {
            let k = choose|k: int| 0 <= k < views_of(ids@).len() && views_of(ids@)[k] == s@;
            assert(ids@[k]@ == s@);
        }
    }
    false
}

fn staged_row_record(row: &StagedRow) -> (r: Vec<String>)
    ensures
        views_of(r@) == staged_record(row@),
{
    let mut rec: Vec<String> = Vec::new();
    rec.push(row.id.clone());
    let mut j: usize = 0;
    while j < row.cells.len()
        invariant
            j <= row.cells@.len(),
            rec@.len() == j + 1,
            rec@[0]@ == row.id@,
            forall|k: int| 0 <= k < j ==> (#[trigger] rec@[k + 1])@ == cell_text(opt_view(row.cells@[k])),
        decreases row.cells@.len() - j,
    {
        let t = match &row.cells[j] {
            Some(s) => s.clone(),
            None => String::new(),
        };
        rec.push(t);
        j += 1;
    }
    assert(views_of(rec@) =~= staged_record(row@)) by {
        assert forall|k: int| 1 <= k < rec@.len() implies views_of(rec@)[k] == staged_record(row@)[k] by {
            assert(rec@[(k - 1) + 1]@ == cell_text(opt_view(row.cells@[k - 1])));
        }
    }
    rec
}

/// The records of an export of the staged valid table.
pub fn staged_records(cols: &Vec<String>, rows: &Vec<StagedRow>, ids: &Vec<String>) -> (r: Vec<Vec<String>>)
    ensures
        records_view(r@) == staged_records_of(views_of(cols@), rows_view(rows@), views_of(ids@)),
{
    let ghost rv = rows_view(rows@);
    let ghost cv = views_of(cols@);
    let ghost iv = views_of(ids@);
    let mut header: Vec<String> = Vec::new();
    header.push(String::from_str("_id"));
    let mut k: usize = 0;
    while k < cols.len()
        invariant
            k <= cols@.len(),
            views_of(header@) =~= seq!["_id"@] + cv.subrange(0, k as int),
            cv == views_of(cols@),
        decreases cols@.len() - k,
    {
        let ghost bh = views_of(header@);
        header.push(cols[k].clone());
        assert(views_of(header@) =~= bh.push(cv[k as int]));
        assert(seq!["_id"@] + cv.subrange(0, k + 1) =~= (seq!["_id"@] + cv.subrange(0, k as int)).push(cv[k as int]));
        k += 1;
    }
    assert(cv.subrange(0, cols@.len() as int) =~= cv);
    let mut out: Vec<Vec<String>> = Vec::new();
    out.push(header);
    assert(records_view(out@) =~= seq![seq!["_id"@] + cv]);
    let mut i: usize = 0;
    while i < rows.len()
        invariant
            i <= rows@.len(),
            rv == rows_view(rows@),
            cv == views_of(cols@),
            iv == views_of(ids@),
            records_view(out@) == staged_records_of(cv, rv.subrange(0, i as int), iv),
        decreases rows@.len() - i,
    {
        assert(rv.subrange(0, i + 1).drop_last() =~= rv.subrange(0, i as int));
        assert(rv.subrange(0, i + 1).last() == rows@[i as int]@);
        if ids.len() == 0 || listed(ids, &rows[i].id) {
            let ghost before = records_view(out@);
            let rec = staged_row_record(&rows[i]);
            out.push(rec);
            assert(records_view(out@) =~= before.push(staged_record(rows@[i as int]@)));
        }
        i += 1;
    }
    assert(rv.subrange(0, rows@.len() as int) =~= rv);
    out
}

/// Why an export yields no file.
#[derive(PartialEq, Eq, Structural, Debug, Clone, Copy)]
pub enum ExportError {
    /// A record's length differs from the header's.
    UnequalLengths,
}

/// The CSV file of an export of the staged valid table.
pub fn export_staged_csv(cols: &Vec<String>, rows: &Vec<StagedRow>, ids: &Vec<String>) -> (r: Result<Vec<u8>, ExportError>)
    ensures
        same_lengths(staged_records_of(views_of(cols@), rows_view(rows@), views_of(ids@))) ==> (r matches Ok(b) && b@ == csv_of(staged_records_of(views_of(cols@), rows_view(rows@), views_of(ids@)))),
        !same_lengths(staged_records_of(views_of(cols@), rows_view(rows@), views_of(ids@))) ==> r == Err::<Vec<u8>, ExportError>(ExportError::UnequalLengths),
{
    let records = staged_records(cols, rows, ids);
    match encode_csv(&records) {
        Some(b) => Ok(b),
        None => Err(ExportError::UnequalLengths),
    }
}

/// A field value of a committed document.
pub enum DocValue {
    /// An object id, as its hexadecimal text.
    ObjectId(String),
    /// A point in time, in milliseconds since the Unix epoch.
    DateTime(i64),
    Text(String),
    Int32(i32),
    Int64(i64),
    /// A double, as its text.
    Double(String),
    Boolean(bool),
    /// Any other value, as its text.
    Other(String),
}

/// A committed document: its fields in order.
pub struct Document {
    pub fields: Vec<(String, DocValue)>,
}

pub open spec fn doc_value_text(v: DocValue) -> Seq<char> {
    match v {
        DocValue::ObjectId(h) => h@,
        DocValue::DateTime(ms) => rfc3339_of_millis(ms),
        DocValue::Text(s) => s@,
        DocValue::Int32(i) => decimal_text(i as int),
        DocValue::Int64(i) => decimal_text(i as int),
        DocValue::Double(s) => s@,
        DocValue::Boolean(b) => if b { "true"@ } else { "false"@ },
        DocValue::Other(s) => s@,
    }
}

/// The text of field `f` of a document: its first value's text, or empty.
pub open spec fn doc_field_text(fields: Seq<(String, DocValue)>, f: Seq<char>) -> Seq<char>
    decreases fields.len(),
{
    if fields.len() == 0 {
        Seq::empty()
    } else if fields[0].0@ == f {
        doc_value_text(fields[0].1)
    } else {
        doc_field_text(fields.drop_first(), f)
    }
}

/// How header names are written.
#[derive(PartialEq, Eq, Structural, Debug, Clone, Copy)]
pub enum HeaderMode {
    Original,
    Short,
}

impl HeaderMode {
    /// `short` selects short names; anything else the field names.
    pub fn from_param(p: &str) -> (r: HeaderMode)
        ensures
            r == if p@ == "short"@ { HeaderMode::Short } else { HeaderMode::Original },
    {
        if str_eq(p, "short") { HeaderMode::Short } else { HeaderMode::Original }
    }
}

/// The fields exported: the declared properties in order, with `_id` first
/// when asked for and not declared.
pub open spec fn export_fields_of(props: Seq<Seq<char>>, include_id: bool) -> Seq<Seq<char>> {
    if include_id && !props.contains("_id"@) {
        seq!["_id"@] + props
    } else {
        props
    }
}

pub open spec fn header_of(names: Seq<(String, String)>, f: Seq<char>, mode: HeaderMode) -> Seq<char> {
    if mode == HeaderMode::Short { short_name_of(names, f) } else { f }
}

/// The records of an export of committed documents: the header row, then
/// one record per document, a missing field as the empty field.
pub open spec fn collection_records_of(schema: CollectionSchema, docs: Seq<Document>, mode: HeaderMode, include_id: bool) -> Seq<Seq<Seq<char>>> {
    let fields = export_fields_of(property_names(schema.properties@), include_id);
    seq![fields.map_values(|f: Seq<char>| header_of(schema.short_names@, f, mode))]
        + docs.map_values(|d: Document| fields.map_values(|f: Seq<char>| doc_field_text(d.fields@, f)))
}

fn value_text(v: &DocValue) -> (r: String)
    ensures
        r@ == doc_value_text(*v),
{
    match v {
        DocValue::ObjectId(h) => h.clone(),
        DocValue::DateTime(ms) => rfc3339_text(*ms),
        DocValue::Text(s) => s.clone(),
        DocValue::Int32(i) => int_text(*i as i64),
        DocValue::Int64(i) => int_text(*i),
        DocValue::Double(s) => s.clone(),
        DocValue::Boolean(b) => if *b { String::from_str("true") } else { String::from_str("false") },
        DocValue::Other(s) => s.clone(),
    }
}

fn field_text(d: &Document, f: &String) -> (r: String)
    ensures
        r@ == doc_field_text(d.fields@, f@),
{
    let ghost fs = d.fields@;
    let n = d.fields.len();
    let mut i: usize = 0;
    assert(fs.subrange(0, n as int) =~= fs);
    while i < n
        invariant
            n == fs.len(),
            fs == d.fields@,
            i <= n,
            doc_field_text(fs, f@) == doc_field_text(fs.subrange(i as int, n as int), f@),
        decreases n - i,
    {
        assert(fs.subrange(i as int, n as int).drop_first() =~= fs.subrange(i + 1, n as int));
        if d.fields[i].0 == *f {
            return value_text(&d.fields[i].1);
        }
        i += 1;
    }
    String::new()
}

/// The fields of an export of committed documents.
pub fn export_fields(schema: &CollectionSchema, include_id: bool) -> (r: Vec<String>)
    ensures
        views_of(r@) == export_fields_of(property_names(schema.properties@), include_id),
{
    let names = schema.field_names();
    let id = String::from_str("_id");
    if include_id && !listed(&names, &id) {
        let mut out: Vec<String> = Vec::new();
        out.push(id);
        let mut k: usize = 0;
        while k < names.len()
            invariant
                k <= names@.len(),
                views_of(out@) =~= seq!["_id"@] + views_of(names@).subrange(0, k as int),
            decreases names@.len() - k,
        {
            let ghost bo = views_of(out@);
            out.push(names[k].clone());
            assert(views_of(out@) =~= bo.push(views_of(names@)[k as int]));
            assert(seq!["_id"@] + views_of(names@).subrange(0, k + 1) =~= (seq!["_id"@] + views_of(names@).subrange(0, k as int)).push(views_of(names@)[k as int]));
            k += 1;
        }
        assert(views_of(names@).subrange(0, names@.len() as int) =~= views_of(names@));
        out
    } else {
        names
    }
}

/// The records of an export of committed documents.
pub fn collection_records(schema: &CollectionSchema, docs: &Vec<Document>, mode: HeaderMode, include_id: bool) -> (r: Vec<Vec<String>>)
    ensures
        records_view(r@) == collection_records_of(*schema, docs@, mode, include_id),
{
    let fields = export_fields(schema, include_id);
    let ghost fv = views_of(fields@);
    let mut header: Vec<String> = Vec::new();
    let mut k: usize = 0;
    while k < fields.len()
        invariant
            k <= fields@.len(),
            fv == views_of(fields@),
            views_of(header@) =~= fv.subrange(0, k as int).map_values(|f: Seq<char>| header_of(schema.short_names@, f, mode)),
        decreases fields@.len() - k,
    {
        let h = if mode == HeaderMode::Short { schema.short_name(&fields[k]) } else { fields[k].clone() };
        let ghost bh = views_of(header@);
        header.push(h);
        assert(views_of(header@) =~= bh.push(header_of(schema.short_names@, fv[k as int], mode)));
        assert(fv.subrange(0, k + 1).map_values(|f: Seq<char>| header_of(schema.short_names@, f, mode)) =~= fv.subrange(0, k as int).map_values(|f: Seq<char>| header_of(schema.short_names@, f, mode)).push(header_of(schema.short_names@, fv[k as int], mode)));
        k += 1;
    }
    assert(fv.subrange(0, fields@.len() as int) =~= fv);
    let mut out: Vec<Vec<String>> = Vec::new();
    out.push(header);
    let mut i: usize = 0;
    while i < docs.len()
        invariant
            i <= docs@.len(),
            fv == views_of(fields@),
            fv == export_fields_of(property_names(schema.properties@), include_id),
            records_view(out@) =~= seq![fv.map_values(|f: Seq<char>| header_of(schema.short_names@, f, mode))]
                + docs@.subrange(0, i as int).map_values(|d: Document| fv.map_values(|f: Seq<char>| doc_field_text(d.fields@, f))),
        decreases docs@.len() - i,
    {
        let mut rec: Vec<String> = Vec::new();
        let mut j: usize = 0;
        while j < fields.len()
            invariant
                i < docs@.len(),
                j <= fields@.len(),
                fv == views_of(fields@),
                views_of(rec@) =~= fv.subrange(0, j as int).map_values(|f: Seq<char>| doc_field_text(docs@[i as int].fields@, f)),
            decreases fields@.len() - j,
        {
            let ghost br = views_of(rec@);
            let t = field_text(&docs[i], &fields[j]);
            rec.push(t);
            assert(views_of(rec@) =~= br.push(doc_field_text(docs@[i as int].fields@, fv[j as int])));
            assert(fv.subrange(0, j + 1).map_values(|f: Seq<char>| doc_field_text(docs@[i as int].fields@, f)) =~= fv.subrange(0, j as int).map_values(|f: Seq<char>| doc_field_text(docs@[i as int].fields@, f)).push(doc_field_text(docs@[i as int].fields@, fv[j as int])));
            j += 1;
        }
        assert(fv.subrange(0, fields@.len() as int) =~= fv);
        let ghost bo = records_view(out@);
        let ghost rv = views_of(rec@);
        out.push(rec);
        assert(records_view(out@) =~= bo.push(rv));
        assert(docs@.subrange(0, i + 1).map_values(|d: Document| fv.map_values(|f: Seq<char>| doc_field_text(d.fields@, f))) =~= docs@.subrange(0, i as int).map_values(|d: Document| fv.map_values(|f: Seq<char>| doc_field_text(d.fields@, f))).push(rv));
        i += 1;
    }
    assert(docs@.subrange(0, docs@.len() as int) =~= docs@);
    out
}

/// The CSV file of an export of committed documents.
pub fn export_collection_csv(schema: &CollectionSchema, docs: &Vec<Document>, mode: HeaderMode, include_id: bool) -> (r: Result<Vec<u8>, ExportError>)
    ensures
        same_lengths(collection_records_of(*schema, docs@, mode, include_id)) ==> (r matches Ok(b) && b@ == csv_non_numeric_of(collection_records_of(*schema, docs@, mode, include_id))),
        !same_lengths(collection_records_of(*schema, docs@, mode, include_id)) ==> r == Err::<Vec<u8>, ExportError>(ExportError::UnequalLengths),
{
    let records = collection_records(schema, docs, mode, include_id);
    match encode_csv_non_numeric(&records) {
        Some(b) => Ok(b),
        None => Err(ExportError::UnequalLengths),
    }
}

} // verus!
