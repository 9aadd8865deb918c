//! Values of uploaded records, how they are kept as text in the staging
//! tables, and how stored text is read back into typed values.

use vstd::prelude::*;
use vstd::string::*;
use crate::json::{is_json_text, json_of_string, parses_as_json, encode_string};
use crate::text::{is_digit, str_eq, starts_with_char, ends_with_char};

verus! {

/// One value of a flat uploaded record.
pub enum FieldValue {
    Null,
    Bool(bool),
    /// A number, as its canonical decimal JSON text.
    Number(String),
    Text(String),
    /// An array, as its compact JSON text.
    Array(String),
    /// An object, as its compact JSON text, with its `$oid` member when that
    /// member is a string (an object-id wrapper).
    Object { json: String, oid: Option<String> },
}

/// A value read back from a stored cell.
pub enum CellValue {
    Null,
    Bool(bool),
    /// A JSON number, as its text.
    Number(String),
    /// A JSON array, as its text.
    Array(String),
    /// A JSON object, as its text.
    Object(String),
    /// Any JSON value, as its text (the errors column).
    Json(String),
    Text(String),
    /// A row identifier shown as an object-id wrapper `{"$oid": ...}`.
    ObjectId(String),
}

pub enum CellView {
    Null,
    Bool(bool),
    Number(Seq<char>),
    Array(Seq<char>),
    Object(Seq<char>),
    Json(Seq<char>),
    Text(Seq<char>),
    ObjectId(Seq<char>),
}

impl View for CellValue {
    type V = CellView;

    open spec fn view(&self) -> CellView {
        match self {
            CellValue::Null => CellView::Null,
            CellValue::Bool(b) => CellView::Bool(*b),
            CellValue::Number(s) => CellView::Number(s@),
            CellValue::Array(s) => CellView::Array(s@),
            CellValue::Object(s) => CellView::Object(s@),
            CellValue::Json(s) => CellView::Json(s@),
            CellValue::Text(s) => CellView::Text(s@),
            CellValue::ObjectId(s) => CellView::ObjectId(s@),
        }
    }
}

pub open spec fn opt_view(o: Option<String>) -> Option<Seq<char>> {
    match o {
        Some(s) => Some(s@),
        None => None,
    }
}

pub open spec fn true_text() -> Seq<char> {
    "true"@
}

pub open spec fn false_text() -> Seq<char> {
    "false"@
}

pub open spec fn null_text() -> Seq<char> {
    "null"@
}

/// A string cell: the empty string is stored as NULL.
pub open spec fn text_cell(s: Seq<char>) -> Option<Seq<char>> {
    if s.len() == 0 {
        None
    } else {
        Some(s)
    }
}

/// What the staging tables hold for a value.
pub open spec fn stored_of(v: FieldValue) -> Option<Seq<char>> {
    match v {
        FieldValue::Null => None,
        FieldValue::Bool(b) => Some(if b { true_text() } else { false_text() }),
        FieldValue::Number(t) => Some(t@),
        FieldValue::Text(s) => text_cell(s@),
        FieldValue::Array(t) => Some(t@),
        FieldValue::Object { json, oid } => match oid {
            Some(o) => Some(o@),
            None => Some(json@),
        },
    }
}

/// The JSON text of a value.
pub open spec fn json_text_of(v: FieldValue) -> Seq<char> {
    match v {
        FieldValue::Null => null_text(),
        FieldValue::Bool(b) => if b { true_text() } else { false_text() },
        FieldValue::Number(t) => t@,
        FieldValue::Text(s) => json_of_string(s@),
        FieldValue::Array(t) => t@,
        FieldValue::Object { json, oid: _ } => json@,
    }
}

pub open spec fn looks_object(s: Seq<char>) -> bool {
    s.len() > 0 && s[0] == '{' && s[s.len() - 1] == '}'
}

pub open spec fn looks_array(s: Seq<char>) -> bool {
    s.len() > 0 && s[0] == '[' && s[s.len() - 1] == ']'
}

/// Starts with a minus sign or a digit and ends with a digit: on a JSON text,
/// exactly the bare numbers.
pub open spec fn numeric_shape(s: Seq<char>) -> bool {
    s.len() > 0 && (s[0] == '-' || is_digit(s[0])) && is_digit(s[s.len() - 1])
}

pub open spec fn is_literal(s: Seq<char>) -> bool {
    s == true_text() || s == false_text() || s == null_text()
}

/// Stored text that is read back as a JSON object, array or number when it
/// parses as JSON.
pub open spec fn json_shaped(s: Seq<char>) -> bool {
    looks_object(s) || looks_array(s) || numeric_shape(s)
}

/// Stored text that reads back as a JSON value rather than as a string.
pub open spec fn reads_as_json(s: Seq<char>) -> bool {
    is_literal(s) || (json_shaped(s) && is_json_text(s))
}

/// How a stored cell of an ordinary column reads back.
pub open spec fn read_of(c: Option<Seq<char>>) -> CellView {
    match c {
        None => CellView::Null,
        Some(s) => if s == true_text() {
            CellView::Bool(true)
        } else if s == false_text() {
            CellView::Bool(false)
        } else if s == null_text() {
            CellView::Null
        } else if json_shaped(s) && is_json_text(s) {
            if looks_object(s) {
                CellView::Object(s)
            } else if looks_array(s) {
                CellView::Array(s)
            } else {
                CellView::Number(s)
            }
        } else {
            CellView::Text(s)
        },
    }
}

/// How the `_id` cell reads back: always as an object-id wrapper of its
/// text, whatever the text looks like.
pub open spec fn read_id_of(c: Option<Seq<char>>) -> CellView {
    match c {
        Some(s) => CellView::ObjectId(s),
        None => CellView::Null,
    }
}

/// How the errors cell of the invalid table reads back.
pub open spec fn read_errors_of(c: Option<Seq<char>>) -> CellView {
    match c {
        None => CellView::Null,
        Some(s) => if is_json_text(s) {
            CellView::Json(s)
        } else {
            CellView::Text(s)
        },
    }
}

/// The text kept for a value in a staging table (`None` is SQL NULL).
pub fn stored_cell(v: &FieldValue) -> (r: Option<String>)
    ensures
        opt_view(r) == stored_of(*v),
{
    match v {
        FieldValue::Null => None,
        FieldValue::Bool(b) => {
            if *b {
                Some(String::from_str("true"))
            } else {
                Some(String::from_str("false"))
            }
        },
        FieldValue::Number(t) => Some(t.clone()),
        FieldValue::Text(s) => {
            if s.as_str().unicode_len() == 0 {
                None
            } else {
                Some(s.clone())
            }
        },
        FieldValue::Array(t) => Some(t.clone()),
        FieldValue::Object { json, oid } => match oid {
            Some(o) => Some(o.clone()),
            None => Some(json.clone()),
        },
    }
}

/// The JSON text of a value.
pub fn json_text(v: &FieldValue) -> (r: String)
    ensures
        r@ == json_text_of(*v),
{
    match v {
        FieldValue::Null => String::from_str("null"),
        FieldValue::Bool(b) => {
            if *b {
                String::from_str("true")
            } else {
                String::from_str("false")
            }
        },
        FieldValue::Number(t) => t.clone(),
        FieldValue::Text(s) => encode_string(s.as_str()),
        FieldValue::Array(t) => t.clone(),
        FieldValue::Object { json, oid: _ } => json.clone(),
    }
}

fn is_numeric_shape(s: &str) -> (r: bool)
    ensures
        r == numeric_shape(s@),
{
    let n = s.unicode_len();
    if n == 0 {
        return false;
    }
    let first = s.get_char(0);
    let last = s.get_char(n - 1);
    (first == '-' || ('0' <= first && first <= '9')) && ('0' <= last && last <= '9')
}

/// Reads a stored cell of an ordinary column back: text that looks like a
/// JSON object, array, literal or number and parses as JSON becomes that
/// value; anything else stays a string.
pub fn read_cell(c: &Option<String>) -> (r: CellValue)
    ensures
        r@ == read_of(opt_view(*c)),
{
    match c {
        None => CellValue::Null,
        Some(s) => {
            let t = s.as_str();
            if str_eq(t, "true") {
                return CellValue::Bool(true);
            }
            if str_eq(t, "false") {
                return CellValue::Bool(false);
            }
            if str_eq(t, "null") {
                return CellValue::Null;
            }
            let obj = starts_with_char(t, '{') && ends_with_char(t, '}');
            let arr = starts_with_char(t, '[') && ends_with_char(t, ']');
            if (obj || arr || is_numeric_shape(t)) && parses_as_json(t) {
                if obj {
                    CellValue::Object(s.clone())
                } else if arr {
                    CellValue::Array(s.clone())
                } else {
                    CellValue::Number(s.clone())
                }
            } else {
                CellValue::Text(s.clone())
            }
        },
    }
}

/// Reads the `_id` cell back.
pub fn read_id_cell(c: &Option<String>) -> (r: CellValue)
    ensures
        r@ == read_id_of(opt_view(*c)),
{
    match c {
        Some(s) => CellValue::ObjectId(s.clone()),
        None => CellValue::Null,
    }
}

/// Reads the errors cell of the invalid table back.
pub fn read_errors_cell(c: &Option<String>) -> (r: CellValue)
    ensures
        r@ == read_errors_of(opt_view(*c)),
{
    match c {
        None => CellValue::Null,
        Some(s) => {
            if parses_as_json(s.as_str()) {
                CellValue::Json(s.clone())
            } else {
                CellValue::Text(s.clone())
            }
        },
    }
}

/// The values that a staging table keeps without loss: numbers, arrays and
/// objects hold JSON text of their own kind.
pub open spec fn well_formed_value(v: FieldValue) -> bool {
    match v {
        FieldValue::Number(t) => numeric_shape(t@) && is_json_text(t@),
        FieldValue::Array(t) => looks_array(t@) && is_json_text(t@),
        FieldValue::Object { json, oid: _ } => looks_object(json@) && is_json_text(json@),
        _ => true,
    }
}

/// What reading back the stored form of a value gives.
pub open spec fn expected_read(v: FieldValue) -> CellView {
    match v {
        FieldValue::Null => CellView::Null,
        FieldValue::Bool(b) => CellView::Bool(b),
        FieldValue::Number(t) => CellView::Number(t@),
        FieldValue::Text(s) => if s@.len() == 0 {
            CellView::Null
        } else {
            CellView::Text(s@)
        },
        FieldValue::Array(t) => CellView::Array(t@),
        FieldValue::Object { json, oid: _ } => CellView::Object(json@),
    }
}

/// Storing a value and reading it back gives a value of the same kind and
/// content; an empty string comes back as null. This holds of every value but
/// an object-id wrapper and a string that is itself the text of a JSON
/// object, array, literal or number.
pub proof fn lemma_cell_round_trip(v: FieldValue)
    requires
        well_formed_value(v),
        v matches FieldValue::Text(s) ==> !reads_as_json(s@),
        v matches FieldValue::Object { json: _, oid } ==> oid is None,
    ensures
        read_of(stored_of(v)) == expected_read(v),
{
    reveal_strlit("true");
    reveal_strlit("false");
    reveal_strlit("null");
    match v {
        FieldValue::Bool(b) => {
            assert(true_text().len() == 4 && false_text().len() == 5);
        },
        FieldValue::Number(t) => {
            assert(t@[0] != 't' && t@[0] != 'f' && t@[0] != 'n');
            assert(t@ != true_text());
            assert(t@ != false_text());
            assert(t@ != null_text());
        },
        FieldValue::Array(t) => {
            assert(t@ != true_text());
            assert(t@ != false_text());
            assert(t@ != null_text());
        },
        FieldValue::Object { json, oid: _ } => {
            assert(json@ != true_text());
            assert(json@ != false_text());
            assert(json@ != null_text());
        },
        _ => {},
    }
}

} // verus!
