use csv_staging::import::{bool_token, coerce, plan_import, summarize_import, CoerceError, ImportValue, UpsertOutcome};
use csv_staging::schema::{CollectionSchema, PropertySchema};
use csv_staging::staged::StagedRow;

fn strings(v: &[&str]) -> Vec<String> {
    v.iter().map(|s| s.to_string()).collect()
}

fn prop(name: &str, ty: &str) -> PropertySchema {
    PropertySchema { name: name.to_string(), bson_type: Some(ty.to_string()), unique: false }
}

fn err_of(v: &str, ty: &str) -> CoerceError {
    match coerce(v, ty) {
        Err(e) => e,
        Ok(_) => panic!("{} as {} should fail", v, ty),
    }
}

#[test]
fn empty_text_is_null_for_every_type() {
    for ty in ["int", "date", "bool", "objectId", "string", "array"] {
        assert!(matches!(coerce("", ty), Ok(ImportValue::Null)));
    }
}

#[test]
fn integers() {
    assert!(matches!(coerce("42", "int"), Ok(ImportValue::Int32(42))));
    assert!(matches!(coerce("+7", "int32"), Ok(ImportValue::Int32(7))));
    assert!(matches!(coerce("-2147483648", "int"), Ok(ImportValue::Int32(-2147483648))));
    assert_eq!(err_of("2147483648", "int"), CoerceError::InvalidInteger);
    assert_eq!(err_of(" 5", "int"), CoerceError::InvalidInteger);
    assert_eq!(err_of("4.0", "int"), CoerceError::InvalidInteger);
    assert!(matches!(coerce("2147483648", "long"), Ok(ImportValue::Int64(2147483648))));
    assert!(matches!(coerce("-9", "int64"), Ok(ImportValue::Int64(-9))));
    assert_eq!(err_of("9223372036854775808", "long"), CoerceError::InvalidLong);
}

#[test]
fn doubles() {
    for ok in ["1.5", "1e3", "-2.5E-3", "inf", "NaN", "+Infinity", ".5", "5.", "7"] {
        match coerce(ok, "double") {
            Ok(ImportValue::Double(t)) => {
                assert_eq!(t, ok);
                assert!(ok.parse::<f64>().is_ok());
            }
            _ => panic!("{} should be a double", ok),
        }
    }
    for bad in ["1.2.3", "e5", "abc", "1e", ".", "1e+", "--1", "in"] {
        assert_eq!(err_of(bad, "number"), CoerceError::InvalidDouble);
        assert!(bad.parse::<f64>().is_err());
    }
}

#[test]
fn booleans() {
    assert!(matches!(coerce("Yes", "bool"), Ok(ImportValue::Boolean(true))));
    assert!(matches!(coerce("T", "boolean"), Ok(ImportValue::Boolean(true))));
    assert!(matches!(coerce("0", "bool"), Ok(ImportValue::Boolean(false))));
    assert!(matches!(coerce("FALSE", "bool"), Ok(ImportValue::Boolean(false))));
    assert_eq!(err_of("maybe", "bool"), CoerceError::InvalidBoolean);
    assert_eq!(bool_token("y"), Some(true));
    assert_eq!(bool_token("n"), Some(false));
    assert_eq!(bool_token("Y"), None);
}

#[test]
fn dates() {
    assert!(matches!(coerce("2024-01-02T03:04:05Z", "date"), Ok(ImportValue::DateTime(1704164645000))));
    assert!(matches!(coerce("2024-01-02T05:04:05+02:00", "date"), Ok(ImportValue::DateTime(1704164645000))));
    assert!(matches!(coerce("2024-01-02 03:04:05", "date"), Ok(ImportValue::DateTime(1704164645000))));
    assert!(matches!(coerce("2024-01-02", "date"), Ok(ImportValue::DateTime(1704153600000))));
    assert_eq!(err_of("02/01/2024", "date"), CoerceError::InvalidDate);
}

#[test]
fn object_ids_arrays_objects_and_strings() {
    assert!(matches!(coerce("507f1f77bcf86cd799439011", "objectId"), Ok(ImportValue::ObjectId(_))));
    assert!(matches!(coerce("507F1F77BCF86CD799439011", "objectId"), Ok(ImportValue::ObjectId(_))));
    assert_eq!(err_of("507f1f77bcf86cd79943901", "objectId"), CoerceError::InvalidObjectId);
    assert_eq!(err_of("a", "objectId"), CoerceError::InvalidObjectId);
    assert!(matches!(coerce("[1, 2]", "array"), Ok(ImportValue::Array(t)) if t == "[1, 2]"));
    assert_eq!(err_of("{}", "array"), CoerceError::InvalidArray);
    assert!(matches!(coerce("{\"a\":1}", "object"), Ok(ImportValue::Document(_))));
    assert!(matches!(coerce("5", "document"), Ok(ImportValue::Document(_))));
    assert_eq!(err_of("{", "object"), CoerceError::InvalidObject);
    assert!(matches!(coerce("12", "string"), Ok(ImportValue::Text(t)) if t == "12"));
    assert!(matches!(coerce("x", "decimal"), Ok(ImportValue::Text(t)) if t == "x"));
}

fn schema() -> CollectionSchema {
    CollectionSchema { properties: vec![prop("age", "int"), prop("born", "date")], short_names: vec![] }
}

#[test]
fn import_of_unknown_id_is_skipped_silently() {
    let cols = strings(&["age"]);
    let rows = vec![StagedRow { id: "a".to_string(), cells: vec![Some("3".to_string())] }];
    let plan = plan_import(&cols, &rows, &strings(&["zzz"]), &schema());
    assert!(plan.docs.is_empty());
    assert!(plan.errors.is_empty());
}

#[test]
fn import_coerces_and_records_field_errors() {
    let cols = strings(&["age", "born", "note"]);
    let rows = vec![
        StagedRow { id: "a".to_string(), cells: vec![Some("3".to_string()), Some("2024-01-02".to_string()), None] },
        StagedRow { id: "b".to_string(), cells: vec![Some("x".to_string()), None, Some("hi".to_string())] },
        StagedRow { id: "c".to_string(), cells: vec![None, None, None] },
    ];
    let plan = plan_import(&cols, &rows, &strings(&["b", "a", "missing"]), &schema());
    assert_eq!(plan.docs.len(), 2);
    let a = &plan.docs[0].fields;
    assert_eq!(a.len(), 3);
    assert_eq!(a[0].0, "_id");
    assert!(matches!(&a[0].1, ImportValue::Text(t) if t == "a"));
    assert!(matches!(&a[1].1, ImportValue::Int32(3)));
    assert!(matches!(&a[2].1, ImportValue::DateTime(1704153600000)));
    let b = &plan.docs[1].fields;
    assert_eq!(b.len(), 2);
    assert_eq!(b[1].0, "note");
    assert_eq!(plan.errors, strings(&["Field age: Invalid integer: x"]));
}

#[test]
fn import_rejects_rows_without_id() {
    let s = CollectionSchema { properties: vec![prop("_id", "objectId")], short_names: vec![] };
    let rows = vec![StagedRow { id: "a".to_string(), cells: vec![] }];
    let plan = plan_import(&vec![], &rows, &strings(&["a"]), &s);
    assert!(plan.docs.is_empty());
    assert_eq!(plan.errors, strings(&["Field _id: Invalid ObjectId: a", "Document missing _id"]));
}

#[test]
fn import_summary_counts() {
    let outcomes = vec![
        UpsertOutcome::Inserted,
        UpsertOutcome::Updated(1),
        UpsertOutcome::Updated(0),
        UpsertOutcome::Failed("boom".to_string()),
        UpsertOutcome::Inserted,
    ];
    let s = summarize_import(&strings(&["Document missing _id"]), &outcomes);
    assert_eq!(s.inserted_count, 2);
    assert_eq!(s.modified_count, 1);
    assert_eq!(s.errors, strings(&["Document missing _id", "update_one error: boom"]));
    let big = summarize_import(&vec![], &vec![UpsertOutcome::Updated(u64::MAX), UpsertOutcome::Updated(5)]);
    assert_eq!(big.modified_count, u64::MAX);
}
