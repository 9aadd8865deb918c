//! Committing staged valid rows: coercion of stored text to the declared
//! field types, the documents to upsert, and the summary of the upserts.

use vstd::prelude::*;
use vstd::string::*;
use crate::json::{views_of, is_json_text, is_json_array_text, parses_as_json, parses_as_json_array};
use crate::numtext::{decimal_value, is_float_text, is_float, parse_i32, parse_i64};
use crate::schema::{CollectionSchema, PropertySchema, type_of_field};
use crate::staged::{StagedRow, RowView, rows_view};
use crate::text::str_eq;
use crate::value::opt_view;

verus! {

/// A field value ready to be committed.
pub enum ImportValue {
    Null,
    /// An object id, as the 24 hexadecimal digits given.
    ObjectId(String),
    /// A point in time, in milliseconds since the Unix epoch (UTC).
    DateTime(i64),
    Int32(i32),
    Int64(i64),
    /// A double, as a text that std parses as one.
    Double(String),
    Boolean(bool),
    Text(String),
    /// A JSON array, as its text.
    Array(String),
    /// A JSON value, as its text.
    Document(String),
}

pub enum ImportView {
    Null,
    ObjectId(Seq<char>),
    DateTime(i64),
    Int32(i32),
    Int64(i64),
    Double(Seq<char>),
    Boolean(bool),
    Text(Seq<char>),
    Array(Seq<char>),
    Document(Seq<char>),
}

impl View for ImportValue {
    type V = ImportView;

    open spec fn view(&self) -> ImportView {
        match self {
            ImportValue::Null => ImportView::Null,
            ImportValue::ObjectId(s) => ImportView::ObjectId(s@),
            ImportValue::DateTime(t) => ImportView::DateTime(*t),
            ImportValue::Int32(i) => ImportView::Int32(*i),
            ImportValue::Int64(i) => ImportView::Int64(*i),
            ImportValue::Double(s) => ImportView::Double(s@),
            ImportValue::Boolean(b) => ImportView::Boolean(*b),
            ImportValue::Text(s) => ImportView::Text(s@),
            ImportValue::Array(s) => ImportView::Array(s@),
            ImportValue::Document(s) => ImportView::Document(s@),
        }
    }
}

/// Why a stored text cannot take its declared type.
#[derive(PartialEq, Eq, Structural, Debug, Clone, Copy)]
pub enum CoerceError {
    InvalidObjectId,
    InvalidDate,
    InvalidInteger,
    InvalidLong,
    InvalidDouble,
    InvalidBoolean,
    InvalidArray,
    InvalidObject,
}

pub open spec fn is_hex_digit(c: char) -> bool {
    ('0' <= c && c <= '9') || ('a' <= c && c <= 'f') || ('A' <= c && c <= 'F')
}

/// The texts bson reads as an object id: exactly 24 hexadecimal digits, in
/// either case.
pub open spec fn is_object_id_text(s: Seq<char>) -> bool {
    s.len() == 24 && forall|i: int| 0 <= i < s.len() ==> is_hex_digit(#[trigger] s[i])
}

/// The instant of an RFC 3339 timestamp, in milliseconds.
pub uninterp spec fn rfc3339_millis(s: Seq<char>) -> Option<i64>;

/// The instant of a `YYYY-MM-DD HH:MM:SS` UTC timestamp, in milliseconds.
pub uninterp spec fn naive_datetime_millis(s: Seq<char>) -> Option<i64>;

/// The instant of midnight UTC of a `YYYY-MM-DD` date, in milliseconds.
pub uninterp spec fn naive_date_millis(s: Seq<char>) -> Option<i64>;

/// The lowercase form of a text.
pub uninterp spec fn lower_of(s: Seq<char>) -> Seq<char>;

/// Relies on `bson::oid::ObjectId::parse_str`: it hex-decodes the text
/// (either case) and succeeds exactly when that gives 12 bytes.
#[verifier::external_body]
fn object_id_parses(s: &str) -> (r: bool)
    ensures
        r == is_object_id_text(s@),
{
    bson::oid::ObjectId::parse_str(s).is_ok()
}

/// Relies on `chrono::DateTime::parse_from_rfc3339` and `timestamp_millis`.
#[verifier::external_body]
fn parse_rfc3339(s: &str) -> (r: Option<i64>)
    ensures
        r == rfc3339_millis(s@),
{
    chrono::DateTime::parse_from_rfc3339(s).ok().map(|dt| dt.timestamp_millis())
}

/// Relies on `chrono::NaiveDateTime::parse_from_str` with the format
/// `%Y-%m-%d %H:%M:%S`, taken as UTC.
#[verifier::external_body]
fn parse_naive_datetime(s: &str) -> (r: Option<i64>)
    ensures
        r == naive_datetime_millis(s@),
{
    chrono::NaiveDateTime::parse_from_str(s, "%Y-%m-%d %H:%M:%S").ok().map(|dt| dt.and_utc().timestamp_millis())
}

/// Relies on `chrono::NaiveDate::parse_from_str` with the format
/// `%Y-%m-%d`, at midnight UTC.
#[verifier::external_body]
fn parse_naive_date(s: &str) -> (r: Option<i64>)
    ensures
        r == naive_date_millis(s@),
{
    chrono::NaiveDate::parse_from_str(s, "%Y-%m-%d").ok().and_then(|d| d.and_hms_opt(0, 0, 0)).map(|dt| dt.and_utc().timestamp_millis())
}

/// A character's lowercase form when it is an ASCII capital letter, else
/// itself.
pub open spec fn ascii_lower(c: char) -> char {
    if 'A' <= c && c <= 'Z' {
        (((c as u32) + 32) as u8) as char
    } else {
        c
    }
}

pub open spec fn is_ascii_text(s: Seq<char>) -> bool {
    forall|i: int| 0 <= i < s.len() ==> (#[trigger] s[i] as u32) < 128
}

/// Relies on `str::to_lowercase`: the result depends on the characters
/// alone; on ASCII text it maps `A`-`Z` to `a`-`z` and keeps every other
/// character.
#[verifier::external_body]
fn lowercase(s: &str) -> (r: String)
    ensures
        r@ == lower_of(s@),
        r@.len() == s@.len() || !is_ascii_text(s@),
        forall|i: int| 0 <= i < s@.len() && is_ascii_text(s@) ==> r@[i] == ascii_lower(#[trigger] s@[i]),
{
    s.to_lowercase()
}

pub open spec fn bool_token_of(s: Seq<char>) -> Option<bool> {
    if s == "true"@ || s == "yes"@ || s == "1"@ || s == "t"@ || s == "y"@ {
        Some(true)
    } else if s == "false"@ || s == "no"@ || s == "0"@ || s == "f"@ || s == "n"@ {
        Some(false)
    } else {
        None
    }
}

/// The truth value of a lowercased boolean token.
pub fn bool_token(s: &str) -> (r: Option<bool>)
    ensures
        r == bool_token_of(s@),
{
    if str_eq(s, "true") || str_eq(s, "yes") || str_eq(s, "1") || str_eq(s, "t") || str_eq(s, "y") {
        Some(true)
    } else if str_eq(s, "false") || str_eq(s, "no") || str_eq(s, "0") || str_eq(s, "f") || str_eq(s, "n") {
        Some(false)
    } else {
        None
    }
}

pub open spec fn int32_of(v: Seq<char>) -> Option<i32> {
    match decimal_value(v) {
        Some(x) => if i32::MIN <= x <= i32::MAX { Some(x as i32) } else { None },
        None => None,
    }
}

pub open spec fn int64_of(v: Seq<char>) -> Option<i64> {
    match decimal_value(v) {
        Some(x) => if i64::MIN <= x <= i64::MAX { Some(x as i64) } else { None },
        None => None,
    }
}

pub open spec fn date_millis_of(v: Seq<char>) -> Option<i64> {
    match rfc3339_millis(v) {
        Some(t) => Some(t),
        None => match naive_datetime_millis(v) {
            Some(t) => Some(t),
            None => naive_date_millis(v),
        },
    }
}

/// A stored text coerced to declared type `ty`. The empty text is null;
/// an unknown type keeps the text.
pub open spec fn coerce_of(v: Seq<char>, ty: Seq<char>) -> Result<ImportView, CoerceError> {
    if v.len() == 0 {
        Ok(ImportView::Null)
    } else if ty == "objectId"@ {
        if is_object_id_text(v) { Ok(ImportView::ObjectId(v)) } else { Err(CoerceError::InvalidObjectId) }
    } else if ty == "date"@ {
        match date_millis_of(v) {
            Some(t) => Ok(ImportView::DateTime(t)),
            None => Err(CoerceError::InvalidDate),
        }
    } else if ty == "int"@ || ty == "int32"@ {
        match int32_of(v) {
            Some(i) => Ok(ImportView::Int32(i)),
            None => Err(CoerceError::InvalidInteger),
        }
    } else if ty == "long"@ || ty == "int64"@ {
        match int64_of(v) {
            Some(i) => Ok(ImportView::Int64(i)),
            None => Err(CoerceError::InvalidLong),
        }
    } else if ty == "double"@ || ty == "number"@ {
        if is_float_text(v) { Ok(ImportView::Double(v)) } else { Err(CoerceError::InvalidDouble) }
    } else if ty == "bool"@ || ty == "boolean"@ {
        match bool_token_of(lower_of(v)) {
            Some(b) => Ok(ImportView::Boolean(b)),
            None => Err(CoerceError::InvalidBoolean),
        }
    } else if ty == "array"@ {
        if is_json_array_text(v) { Ok(ImportView::Array(v)) } else { Err(CoerceError::InvalidArray) }
    } else if ty == "object"@ || ty == "document"@ {
        if is_json_text(v) { Ok(ImportView::Document(v)) } else { Err(CoerceError::InvalidObject) }
    } else {
        Ok(ImportView::Text(v))
    }
}

pub open spec fn coerce_view(r: Result<ImportValue, CoerceError>) -> Result<ImportView, CoerceError> {
    match r {
        Ok(v) => Ok(v@),
        Err(e) => Err(e),
    }
}

/// Coerces a stored text to declared type `ty`.
pub fn coerce(v: &str, ty: &str) -> (r: Result<ImportValue, CoerceError>)
    ensures
        coerce_view(r) == coerce_of(v@, ty@),
{
    if v.unicode_len() == 0 {
        return Ok(ImportValue::Null);
    }
    let text = String::from_str(v);
    if str_eq(ty, "objectId") {
        if object_id_parses(v) { Ok(ImportValue::ObjectId(text)) } else { Err(CoerceError::InvalidObjectId) }
    } else if str_eq(ty, "date") {
        match parse_rfc3339(v) {
            Some(t) => Ok(ImportValue::DateTime(t)),
            None => match parse_naive_datetime(v) {
                Some(t) => Ok(ImportValue::DateTime(t)),
                None => match parse_naive_date(v) {
                    Some(t) => Ok(ImportValue::DateTime(t)),
                    None => Err(CoerceError::InvalidDate),
                },
            },
        }
    } else if str_eq(ty, "int") || str_eq(ty, "int32") {
        match parse_i32(v) {
            Some(i) => Ok(ImportValue::Int32(i)),
            None => Err(CoerceError::InvalidInteger),
        }
    } else if str_eq(ty, "long") || str_eq(ty, "int64") {
        match parse_i64(v) {
            Some(i) => Ok(ImportValue::Int64(i)),
            None => Err(CoerceError::InvalidLong),
        }
    } else if str_eq(ty, "double") || str_eq(ty, "number") {
        if is_float(v) { Ok(ImportValue::Double(text)) } else { Err(CoerceError::InvalidDouble) }
    } else if str_eq(ty, "bool") || str_eq(ty, "boolean") {
        let lower = lowercase(v);
        match bool_token(lower.as_str()) {
            Some(b) => Ok(ImportValue::Boolean(b)),
            None => Err(CoerceError::InvalidBoolean),
        }
    } else if str_eq(ty, "array") {
        if parses_as_json_array(v) { Ok(ImportValue::Array(text)) } else { Err(CoerceError::InvalidArray) }
    } else if str_eq(ty, "object") || str_eq(ty, "document") {
        if parses_as_json(v) { Ok(ImportValue::Document(text)) } else { Err(CoerceError::InvalidObject) }
    } else {
        Ok(ImportValue::Text(text))
    }
}

pub open spec fn error_kind_text(e: CoerceError) -> Seq<char> {
    match e {
        CoerceError::InvalidObjectId => "Invalid ObjectId"@,
        CoerceError::InvalidDate => "Invalid date format"@,
        CoerceError::InvalidInteger => "Invalid integer"@,
        CoerceError::InvalidLong => "Invalid long integer"@,
        CoerceError::InvalidDouble => "Invalid double"@,
        CoerceError::InvalidBoolean => "Invalid boolean value"@,
        CoerceError::InvalidArray => "Invalid array"@,
        CoerceError::InvalidObject => "Invalid object"@,
    }
}

/// The error recorded for a field whose text cannot take its type.
pub open spec fn field_error_of(col: Seq<char>, e: CoerceError, v: Seq<char>) -> Seq<char> {
    "Field "@ + col + ": "@ + error_kind_text(e) + ": "@ + v
}

impl CoerceError {
    /// What went wrong, in words.
    pub fn text(&self) -> (r: &'static str)
        ensures
            r@ == error_kind_text(*self),
    {
        match self {
            CoerceError::InvalidObjectId => "Invalid ObjectId",
            CoerceError::InvalidDate => "Invalid date format",
            CoerceError::InvalidInteger => "Invalid integer",
            CoerceError::InvalidLong => "Invalid long integer",
            CoerceError::InvalidDouble => "Invalid double",
            CoerceError::InvalidBoolean => "Invalid boolean value",
            CoerceError::InvalidArray => "Invalid array",
            CoerceError::InvalidObject => "Invalid object",
        }
    }
}

fn field_error(col: &str, e: CoerceError, v: &str) -> (r: String)
    ensures
        r@ == field_error_of(col@, e, v@),
{
    let mut s = String::from_str("Field ");
    s.append(col);
    s.append(": ");
    s.append(e.text());
    s.append(": ");
    s.append(v);
    s
}

pub type DocView = Seq<(Seq<char>, ImportView)>;

/// The fields of a document and the errors recorded while coercing the cells
/// of columns `cols`, in order; a NULL cell is left out.
pub open spec fn import_fields(cols: Seq<Seq<char>>, cells: Seq<Option<Seq<char>>>, props: Seq<PropertySchema>) -> (DocView, Seq<Seq<char>>)
    decreases cols.len(),
{
    if cols.len() == 0 {
        (Seq::empty(), Seq::empty())
    } else {
        let (f, e) = import_fields(cols.drop_last(), cells.drop_last(), props);
        let c = cols.last();
        match cells.last() {
            None => (f, e),
            Some(v) => match coerce_of(v, type_of_field(props, c)) {
                Ok(x) => (f.push((c, x)), e),
                Err(k) => (f, e.push(field_error_of(c, k, v))),
            },
        }
    }
}

pub open spec fn has_id_field(f: DocView) -> bool {
    exists|k: int| 0 <= k < f.len() && (#[trigger] f[k]).0 == "_id"@
}

pub open spec fn missing_id_text() -> Seq<char> {
    "Document missing _id"@
}

/// The documents to upsert and the errors recorded, for the rows whose
/// identifier is among `ids`, in row order. Each row's columns are `_id`
/// and then `cols`; a row whose `_id` could not be coerced is not committed.
pub open spec fn import_plan_of(cols: Seq<Seq<char>>, rows: Seq<RowView>, ids: Seq<Seq<char>>, props: Seq<PropertySchema>) -> (Seq<DocView>, Seq<Seq<char>>)
    decreases rows.len(),
{
    if rows.len() == 0 {
        (Seq::empty(), Seq::empty())
    } else {
        let (d, e) = import_plan_of(cols, rows.drop_last(), ids, props);
        let r = rows.last();
        if !ids.contains(r.0) {
            (d, e)
        } else {
            let (f, fe) = import_fields(seq!["_id"@] + cols, seq![Some(r.0)] + r.1, props);
            if has_id_field(f) {
                (d.push(f), e + fe)
            } else {
                (d, (e + fe).push(missing_id_text()))
            }
        }
    }
}

/// A document to upsert by its `_id`.
pub struct ImportDoc {
    pub fields: Vec<(String, ImportValue)>,
}

pub open spec fn doc_view(d: ImportDoc) -> DocView {
    d.fields@.map_values(|p: (String, ImportValue)| (p.0@, p.1@))
}

/// The documents to upsert, and the errors recorded on the way.
pub struct ImportPlan {
    pub docs: Vec<ImportDoc>,
    pub errors: Vec<String>,
}

fn contains_id(ids: &Vec<String>, s: &String) -> (r: bool)
    ensures
        r == views_of(ids@).contains(s@),
{
    let mut i: usize = 0;
    while i < ids.len()
        invariant
            i <= ids@.len(),
            forall|k: int| 0 <= k < i ==> ids@[k]@ != s@,
        decreases ids@.len() - i,
    {
        if ids[i] == *s {
            assert(views_of(ids@)[i as int] == s@);
            return true;
        }
        i += 1;
    }
    assert(!views_of(ids@).contains(s@)) by {
        if views_of(ids@).contains(s@) {
            let k = choose|k: int| 0 <= k < views_of(ids@).len() && views_of(ids@)[k] == s@;
            assert(ids@[k]@ == s@);
        }
    }
    false
}

fn doc_has_id(fields: &Vec<(String, ImportValue)>) -> (r: bool)
    ensures
        r == has_id_field(fields@.map_values(|p: (String, ImportValue)| (p.0@, p.1@))),
{
    let ghost fv = fields@.map_values(|p: (String, ImportValue)| (p.0@, p.1@));
    let mut i: usize = 0;
    while i < fields.len()
        invariant
            i <= fields@.len(),
            fv == fields@.map_values(|p: (String, ImportValue)| (p.0@, p.1@)),
            forall|k: int| 0 <= k < i ==> fv[k].0 != "_id"@,
        decreases fields@.len() - i,
    {
        if str_eq(fields[i].0.as_str(), "_id") {
            assert(fv[i as int].0 == "_id"@);
            return true;
        }
        i += 1;
    }
    false
}

/// Coerces one row's cells, `_id` first.
fn import_row(cols: &Vec<String>, row: &StagedRow, schema: &CollectionSchema) -> (r: (Vec<(String, ImportValue)>, Vec<String>))
    requires
        row.cells@.len() == cols@.len(),
    ensures
        (r.0@.map_values(|p: (String, ImportValue)| (p.0@, p.1@)), views_of(r.1@))
            == import_fields(seq!["_id"@] + views_of(cols@), seq![Some(row.id@)] + row@.1, schema.properties@),
{
    let ghost ac = seq!["_id"@] + views_of(cols@);
    let ghost ae = seq![Some(row.id@)] + row@.1;
    let ghost ps = schema.properties@;
    let mut fields: Vec<(String, ImportValue)> = Vec::new();
    let mut errors: Vec<String> = Vec::new();
    let mut j: usize = 0;
    while j <= cols.len()
        invariant
            row.cells@.len() == cols@.len(),
            ac == seq!["_id"@] + views_of(cols@),
            ae == seq![Some(row.id@)] + row@.1,
            ps == schema.properties@,
            j <= cols@.len() + 1,
            (fields@.map_values(|p: (String, ImportValue)| (p.0@, p.1@)), views_of(errors@))
                == import_fields(ac.subrange(0, j as int), ae.subrange(0, j as int), ps),
        decreases cols@.len() + 1 - j,
    {
        assert(ac.subrange(0, j + 1).drop_last() =~= ac.subrange(0, j as int));
        assert(ae.subrange(0, j + 1).drop_last() =~= ae.subrange(0, j as int));
        let ghost bf = fields@.map_values(|p: (String, ImportValue)| (p.0@, p.1@));
        let ghost be = views_of(errors@);
        let col: String = if j == 0 { String::from_str("_id") } else { cols[j - 1].clone() };
        let cell: Option<String> = if j == 0 { Some(row.id.clone()) } else { row.cells[j - 1].clone() };
        assert(col@ == ac[j as int]);
        assert(opt_view(cell) == ae[j as int]) by {
            if j > 0 {
                assert(opt_view(row.cells@[j - 1]) == row@.1[j - 1]);
            }
        }
        match cell {
            None => {},
            Some(v) => {
                let ty = schema.type_of(col.as_str());
                match coerce(v.as_str(), ty.as_str()) {
                    Ok(x) => {
                        let ghost xv = x@;
                        fields.push((col, x));
                        assert(fields@.map_values(|p: (String, ImportValue)| (p.0@, p.1@)) =~= bf.push((ac[j as int], xv)));
                    },
                    Err(k) => {
                        let msg = field_error(col.as_str(), k, v.as_str());
                        errors.push(msg);
                        assert(views_of(errors@) =~= be.push(field_error_of(ac[j as int], k, v@)));
                    },
                }
            },
        }
        if j == cols.len() {
            assert(ac.subrange(0, j + 1) =~= ac);
            assert(ae.subrange(0, j + 1) =~= ae);
            return (fields, errors);
        }
        j += 1;
    }
    assert(ac.subrange(0, j as int) =~= ac);
    assert(ae.subrange(0, j as int) =~= ae);
    (fields, errors)
}

/// The documents to upsert for the staged valid rows whose identifier is
/// among `ids`, with each cell coerced to its declared type. An identifier
/// with no row is skipped without an error.
pub fn plan_import(cols: &Vec<String>, rows: &Vec<StagedRow>, ids: &Vec<String>, schema: &CollectionSchema) -> (r: ImportPlan)
    requires
        forall|i: int| 0 <= i < rows@.len() ==> (#[trigger] rows@[i]).cells@.len() == cols@.len(),
    ensures
        (r.docs@.map_values(|d: ImportDoc| doc_view(d)), views_of(r.errors@))
            == import_plan_of(views_of(cols@), rows_view(rows@), views_of(ids@), schema.properties@),
{
    let ghost rv = rows_view(rows@);
    let ghost cv = views_of(cols@);
    let ghost iv = views_of(ids@);
    let ghost ps = schema.properties@;
    let mut docs: Vec<ImportDoc> = Vec::new();
    let mut errors: Vec<String> = Vec::new();
    let mut i: usize = 0;
    while i < rows.len()
        invariant
            i <= rows@.len(),
            forall|k: int| 0 <= k < rows@.len() ==> (#[trigger] rows@[k]).cells@.len() == cols@.len(),
            rv == rows_view(rows@),
            cv == views_of(cols@),
            iv == views_of(ids@),
            ps == schema.properties@,
            (docs@.map_values(|d: ImportDoc| doc_view(d)), views_of(errors@)) == import_plan_of(cv, rv.subrange(0, i as int), iv, ps),
        decreases rows@.len() - i,
    {
        assert(rv.subrange(0, i + 1).drop_last() =~= rv.subrange(0, i as int));
        assert(rv.subrange(0, i + 1).last() == rows@[i as int]@);
        let row = &rows[i];
        if contains_id(ids, &row.id) {
            let ghost bd = docs@.map_values(|d: ImportDoc| doc_view(d));
            let ghost be = views_of(errors@);
            let (fields, mut ferrs) = import_row(cols, row, schema);
            let ghost fe = views_of(ferrs@);
            let has = doc_has_id(&fields);
            errors.append(&mut ferrs);
            assert(views_of(errors@) =~= be + fe);
            if has {
                let d = ImportDoc { fields };
                let ghost dv = doc_view(d);
                docs.push(d);
                assert(docs@.map_values(|d: ImportDoc| doc_view(d)) =~= bd.push(dv));
            } else {
                errors.push(String::from_str("Document missing _id"));
                assert(views_of(errors@) =~= (be + fe).push(missing_id_text()));
            }
        }
        i += 1;
    }
    assert(rv.subrange(0, rows@.len() as int) =~= rv);
    ImportPlan { docs, errors }
}

/// How one upsert ended.
pub enum UpsertOutcome {
    /// A new document was created.
    Inserted,
    /// An existing document matched; it reports how many it modified.
    Updated(u64),
    /// The store refused the upsert, with its message.
    Failed(String),
}

/// The counts and errors of an import.
pub struct ImportSummary {
    pub inserted_count: u64,
    pub modified_count: u64,
    pub errors: Vec<String>,
}

pub open spec fn inserted_of(outs: Seq<UpsertOutcome>) -> nat
    decreases outs.len(),
{
    if outs.len() == 0 {
        0
    } else {
        inserted_of(outs.drop_last()) + if outs.last() is Inserted { 1nat } else { 0nat }
    }
}

pub open spec fn modified_of(outs: Seq<UpsertOutcome>) -> nat
    decreases outs.len(),
{
    if outs.len() == 0 {
        0
    } else {
        modified_of(outs.drop_last()) + match outs.last() {
            UpsertOutcome::Updated(n) => n as nat,
            _ => 0nat,
        }
    }
}

pub open spec fn failures_of(outs: Seq<UpsertOutcome>) -> Seq<Seq<char>>
    decreases outs.len(),
{
    if outs.len() == 0 {
        Seq::empty()
    } else {
        let rest = failures_of(outs.drop_last());
        match outs.last() {
            UpsertOutcome::Failed(m) => rest.push("update_one error: "@ + m@),
            _ => rest,
        }
    }
}

/// The summary of an import: the documents created, the documents modified
/// (saturating at the largest `u64`), then the errors of planning followed
/// by one per refused upsert, in order.
pub fn summarize_import(plan_errors: &Vec<String>, outcomes: &Vec<UpsertOutcome>) -> (r: ImportSummary)
    ensures
        r.inserted_count == inserted_of(outcomes@),
        r.modified_count == if modified_of(outcomes@) > u64::MAX { u64::MAX as nat } else { modified_of(outcomes@) },
        views_of(r.errors@) == views_of(plan_errors@) + failures_of(outcomes@),
{
    let mut inserted: u64 = 0;
    let mut modified: u64 = 0;
    let mut errors: Vec<String> = Vec::new();
    let mut k: usize = 0;
    while k < plan_errors.len()
        invariant
            k <= plan_errors@.len(),
            views_of(errors@) =~= views_of(plan_errors@.subrange(0, k as int)),
        decreases plan_errors@.len() - k,
    {
        let ghost be = views_of(errors@);
        errors.push(plan_errors[k].clone());
        assert(views_of(errors@) =~= be.push(plan_errors@[k as int]@));
        assert(views_of(plan_errors@.subrange(0, k + 1)) =~= views_of(plan_errors@.subrange(0, k as int)).push(plan_errors@[k as int]@));
        k += 1;
    }
    assert(plan_errors@.subrange(0, plan_errors@.len() as int) =~= plan_errors@);
    let ghost head = views_of(errors@);
    let mut i: usize = 0;
    while i < outcomes.len()
        invariant
            i <= outcomes@.len(),
            inserted == inserted_of(outcomes@.subrange(0, i as int)),
            inserted <= i,
            modified == if modified_of(outcomes@.subrange(0, i as int)) > u64::MAX { u64::MAX as nat } else { modified_of(outcomes@.subrange(0, i as int)) },
            views_of(errors@) == head + failures_of(outcomes@.subrange(0, i as int)),
        decreases outcomes@.len() - i,
    {
        assert(outcomes@.subrange(0, i + 1).drop_last() =~= outcomes@.subrange(0, i as int));
        let ghost be = views_of(errors@);
        match &outcomes[i] {
            UpsertOutcome::Inserted => {
                inserted = inserted + 1;
            },
            UpsertOutcome::Updated(n) => {
                modified = modified.saturating_add(*n);
            },
            UpsertOutcome::Failed(m) => {
                let mut s = String::from_str("update_one error: ");
                s.append(m.as_str());
                errors.push(s);
                assert(views_of(errors@) =~= be.push("update_one error: "@ + m@));
            },
        }
        i += 1;
    }
    assert(outcomes@.subrange(0, outcomes@.len() as int) =~= outcomes@);
    ImportSummary { inserted_count: inserted, modified_count: modified, errors }
}

} // verus!
