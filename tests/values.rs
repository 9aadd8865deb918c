use csv_staging::record::{Item, Record};
use csv_staging::staged::build_row;
use csv_staging::value::{json_text, read_cell, read_errors_cell, read_id_cell, stored_cell, CellValue, FieldValue};

fn text(s: &str) -> FieldValue {
    FieldValue::Text(s.to_string())
}

fn record(fields: Vec<(&str, FieldValue)>) -> Record {
    Record { fields: fields.into_iter().map(|(k, v)| (k.to_string(), v)).collect() }
}

fn stored_then_read(v: &FieldValue) -> CellValue {
    read_cell(&stored_cell(v))
}

#[test]
fn stored_cell_of_each_kind() {
    assert_eq!(stored_cell(&FieldValue::Null), None);
    assert_eq!(stored_cell(&FieldValue::Bool(true)), Some("true".to_string()));
    assert_eq!(stored_cell(&FieldValue::Bool(false)), Some("false".to_string()));
    assert_eq!(stored_cell(&FieldValue::Number("12".to_string())), Some("12".to_string()));
    assert_eq!(stored_cell(&text("abc")), Some("abc".to_string()));
    assert_eq!(stored_cell(&text("")), None);
    assert_eq!(stored_cell(&FieldValue::Array("[1,2]".to_string())), Some("[1,2]".to_string()));
    let obj = FieldValue::Object { json: "{\"a\":1}".to_string(), oid: None };
    assert_eq!(stored_cell(&obj), Some("{\"a\":1}".to_string()));
    let oid = FieldValue::Object { json: "{\"$oid\":\"abc\"}".to_string(), oid: Some("abc".to_string()) };
    assert_eq!(stored_cell(&oid), Some("abc".to_string()));
}

#[test]
fn round_trip_keeps_kind_and_content() {
    assert!(matches!(stored_then_read(&FieldValue::Null), CellValue::Null));
    assert!(matches!(stored_then_read(&FieldValue::Bool(true)), CellValue::Bool(true)));
    assert!(matches!(stored_then_read(&FieldValue::Bool(false)), CellValue::Bool(false)));
    match stored_then_read(&FieldValue::Number("-42".to_string())) {
        CellValue::Number(t) => assert_eq!(t, "-42"),
        _ => panic!("integer did not come back as a number"),
    }
    match stored_then_read(&FieldValue::Number("3.25".to_string())) {
        CellValue::Number(t) => assert_eq!(t, "3.25"),
        _ => panic!("float did not come back as a number"),
    }
    match stored_then_read(&text("hello")) {
        CellValue::Text(t) => assert_eq!(t, "hello"),
        _ => panic!("string did not come back as a string"),
    }
    match stored_then_read(&FieldValue::Array("[1,\"x\"]".to_string())) {
        CellValue::Array(t) => assert_eq!(t, "[1,\"x\"]"),
        _ => panic!("array did not come back as an array"),
    }
    match stored_then_read(&FieldValue::Object { json: "{\"k\":[true]}".to_string(), oid: None }) {
        CellValue::Object(t) => assert_eq!(t, "{\"k\":[true]}"),
        _ => panic!("object did not come back as an object"),
    }
}

#[test]
fn empty_string_round_trips_as_null() {
    assert!(matches!(stored_then_read(&text("")), CellValue::Null));
}

#[test]
fn json_looking_strings_are_read_as_json() {
    assert!(matches!(stored_then_read(&text("true")), CellValue::Bool(true)));
    assert!(matches!(stored_then_read(&text("null")), CellValue::Null));
    assert!(matches!(stored_then_read(&text("123")), CellValue::Number(_)));
}

#[test]
fn text_that_only_looks_like_json_stays_text() {
    for s in ["{not json}", "[1,", "1-2", "007", "+5", " 5", "inf"] {
        match read_cell(&Some(s.to_string())) {
            CellValue::Text(t) => assert_eq!(t, s),
            _ => panic!("{} should stay a string", s),
        }
    }
}

#[test]
fn id_cell_reads_as_object_id() {
    match read_id_cell(&Some("abc".to_string())) {
        CellValue::ObjectId(t) => assert_eq!(t, "abc"),
        _ => panic!("string id should become an object id"),
    }
    for id in ["17", "true", "null", "{\"a\":1}", "[1]"] {
        match read_id_cell(&Some(id.to_string())) {
            CellValue::ObjectId(t) => assert_eq!(t, id),
            _ => panic!("id {} should become an object id", id),
        }
    }
}

#[test]
fn errors_cell_reads_any_json() {
    match read_errors_cell(&Some("[\"bad\"]".to_string())) {
        CellValue::Json(t) => assert_eq!(t, "[\"bad\"]"),
        _ => panic!("errors should read as JSON"),
    }
    match read_errors_cell(&Some("\"one\"".to_string())) {
        CellValue::Json(t) => assert_eq!(t, "\"one\""),
        _ => panic!("a JSON string should read as JSON"),
    }
    match read_errors_cell(&Some("not json".to_string())) {
        CellValue::Text(t) => assert_eq!(t, "not json"),
        _ => panic!("non-JSON stays text"),
    }
    assert!(matches!(read_errors_cell(&None), CellValue::Null));
}

#[test]
fn json_text_quotes_strings() {
    assert_eq!(json_text(&text("a\"b")), "\"a\\\"b\"");
    assert_eq!(json_text(&FieldValue::Null), "null");
    assert_eq!(json_text(&FieldValue::Bool(false)), "false");
    assert_eq!(json_text(&FieldValue::Array("[]".to_string())), "[]");
}

#[test]
fn explicit_id_rules() {
    assert_eq!(record(vec![("_id", text("x"))]).explicit_id(), Some("x".to_string()));
    let wrapped = FieldValue::Object { json: "{\"$oid\":\"ff\"}".to_string(), oid: Some("ff".to_string()) };
    assert_eq!(record(vec![("_id", wrapped)]).explicit_id(), Some("ff".to_string()));
    let empty_oid = FieldValue::Object { json: "{\"$oid\":\"\"}".to_string(), oid: Some(String::new()) };
    assert_eq!(record(vec![("_id", empty_oid), ("id", text("z"))]).explicit_id(), Some("z".to_string()));
    let no_oid = FieldValue::Object { json: "{}".to_string(), oid: None };
    assert_eq!(record(vec![("_id", no_oid), ("id", text("x"))]).explicit_id(), Some("x".to_string()));
    let bare = FieldValue::Object { json: "{}".to_string(), oid: None };
    assert_eq!(record(vec![("_id", bare)]).explicit_id(), None);
    assert_eq!(record(vec![("_id", text("")), ("id", text("y"))]).explicit_id(), Some("y".to_string()));
    assert_eq!(record(vec![("id", FieldValue::Number("7".to_string()))]).explicit_id(), Some("7".to_string()));
    assert_eq!(record(vec![("name", text("n"))]).explicit_id(), None);
}

#[test]
fn data_and_invalid_columns() {
    let r = record(vec![("_id", text("1")), ("id", text("2")), ("a", text("x")), ("errors", text("e"))]);
    assert_eq!(r.data_columns(), vec!["a".to_string(), "errors".to_string()]);
    assert_eq!(r.invalid_columns(), vec!["id".to_string(), "a".to_string()]);
    assert!(r.get("a").is_some());
    assert!(r.get("missing").is_none());
    let _ = Item::Record(r);
}

#[test]
fn upload_takes_the_legacy_id_when_the_primary_gives_none() {
    let r = record(vec![("_id", FieldValue::Object { json: "{}".to_string(), oid: None }), ("id", text("x"))]);
    let row = build_row(&r, &vec![], &"fresh".to_string(), false);
    assert_eq!(row.id, "x");
}
