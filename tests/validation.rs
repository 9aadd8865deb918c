use csv_staging::record::{Item, Record};
use csv_staging::schema::{CollectionSchema, PropertySchema};
use csv_staging::staged::{prepare_upload_with_ids, StagedRow};
use csv_staging::validate::{distinct_values, plan_checks, relocate_conflicts, row_reasons, FieldLookup, ValidationSummary};
use csv_staging::value::FieldValue;

fn strings(v: &[&str]) -> Vec<String> {
    v.iter().map(|s| s.to_string()).collect()
}

fn row(id: &str, cells: &[Option<&str>]) -> StagedRow {
    StagedRow { id: id.to_string(), cells: cells.iter().map(|c| c.map(|s| s.to_string())).collect() }
}

fn lookup(field: &str, values: &[&str]) -> FieldLookup {
    FieldLookup { field: field.to_string(), values: strings(values) }
}

fn upload_rows(records: &[(&str, &str)]) -> (Vec<String>, Vec<StagedRow>) {
    let items: Vec<Item> = records
        .iter()
        .map(|(id, name)| {
            Item::Record(Record {
                fields: vec![
                    ("_id".to_string(), FieldValue::Text(id.to_string())),
                    ("name".to_string(), FieldValue::Text(name.to_string())),
                ],
            })
        })
        .collect();
    let fresh: Vec<String> = items.iter().map(|_| String::new()).collect();
    let plan = prepare_upload_with_ids(&items, &vec![], &fresh, &vec![]).ok().unwrap();
    (plan.valid_columns, plan.valid_rows)
}

/// The rows that stay valid after a relocation.
fn remaining(rows: &[StagedRow], removed: &[String]) -> Vec<StagedRow> {
    rows.iter()
        .filter(|r| !removed.contains(&r.id))
        .map(|r| StagedRow { id: r.id.clone(), cells: r.cells.clone() })
        .collect()
}

#[test]
fn three_rows_two_conflicts() {
    let (cols, rows) = upload_rows(&[("a", "X"), ("b", "Y"), ("c", "Z")]);
    let fields = strings(&["name"]);
    let plan = plan_checks(&cols, &rows, &fields);
    assert_eq!(plan.ids, strings(&["a", "b", "c"]));
    assert_eq!(plan.fields.len(), 1);
    assert_eq!(plan.fields[0].field, "name");
    assert_eq!(plan.fields[0].values, strings(&["X", "Y", "Z"]));
    let inv_cols = strings(&["name", "errors"]);
    let r = relocate_conflicts(&cols, &rows, &inv_cols, &fields, &strings(&["b"]), &vec![lookup("name", &["Z"])]);
    assert_eq!(r.summary, ValidationSummary { validated_count: 3, conflicts_found: 2, remaining_valid: 1 });
    assert_eq!(r.removed_ids, strings(&["b", "c"]));
    let left = remaining(&rows, &r.removed_ids);
    assert_eq!(left.len(), 1);
    assert_eq!(left[0].id, "a");
    assert_eq!(r.moved[0].id, "b");
    assert_eq!(r.moved[0].cells, vec![Some("Y".to_string()), Some("[\"Existing document with the same _id\"]".to_string())]);
    assert_eq!(r.moved[1].cells, vec![Some("Z".to_string()), Some("[\"Duplicate value for unique field 'name'\"]".to_string())]);
}

#[test]
fn row_colliding_twice_has_both_reasons() {
    let cols = strings(&["email", "code"]);
    let r = row("id1", &[Some("e@x"), Some("C1")]);
    let reasons = row_reasons(&cols, &r, &strings(&["email", "code"]), &strings(&["id1"]), &vec![lookup("email", &["e@x"]), lookup("code", &["C1"])]);
    assert_eq!(reasons, strings(&[
        "Existing document with the same _id",
        "Duplicate value for unique field 'email'",
        "Duplicate value for unique field 'code'",
    ]));
}

#[test]
fn empty_unique_values_are_never_checked() {
    let cols = strings(&["email"]);
    let rows = vec![row("1", &[Some("")]), row("2", &[None]), row("3", &[Some("m")]), row("4", &[Some("m")])];
    assert_eq!(distinct_values(&cols, &rows, &"email".to_string()), strings(&["m"]));
    let only_empty = vec![row("1", &[Some("")])];
    let plan = plan_checks(&cols, &only_empty, &strings(&["email"]));
    assert_eq!(plan.fields.len(), 0);
    let reasons = row_reasons(&cols, &only_empty[0], &strings(&["email"]), &vec![], &vec![lookup("email", &[""])]);
    assert!(reasons.is_empty());
}

#[test]
fn second_validation_finds_nothing() {
    let (cols, rows) = upload_rows(&[("a", "X"), ("b", "Y"), ("c", "Z"), ("d", "Z")]);
    let fields = strings(&["name"]);
    let inv_cols = strings(&["name", "errors"]);
    let held_ids = ["b"];
    let held_names = ["Z"];
    let answer = |rows: &Vec<StagedRow>| {
        let plan = plan_checks(&cols, rows, &fields);
        let ids: Vec<String> = plan.ids.into_iter().filter(|i| held_ids.contains(&i.as_str())).collect();
        let found: Vec<FieldLookup> = plan
            .fields
            .into_iter()
            .map(|l| FieldLookup { field: l.field, values: l.values.into_iter().filter(|v| held_names.contains(&v.as_str())).collect() })
            .collect();
        (ids, found)
    };
    let (ids1, found1) = answer(&rows);
    let first = relocate_conflicts(&cols, &rows, &inv_cols, &fields, &ids1, &found1);
    assert_eq!(first.summary.conflicts_found, 3);
    let left = remaining(&rows, &first.removed_ids);
    let (ids2, found2) = answer(&left);
    let second = relocate_conflicts(&cols, &left, &inv_cols, &fields, &ids2, &found2);
    assert_eq!(second.summary, ValidationSummary { validated_count: 1, conflicts_found: 0, remaining_valid: 1 });
}

#[test]
fn counts_always_add_up() {
    let cols = strings(&["k"]);
    let rows = vec![row("1", &[Some("a")]), row("2", &[Some("b")]), row("3", &[None])];
    for ids in [vec![], strings(&["1"]), strings(&["1", "2", "3"])] {
        let r = relocate_conflicts(&cols, &rows, &strings(&["errors"]), &strings(&["k"]), &ids, &vec![lookup("k", &["b"])]);
        assert_eq!(r.summary.validated_count, r.summary.conflicts_found + r.summary.remaining_valid);
    }
}

#[test]
fn validating_nothing_is_a_no_op() {
    let r = relocate_conflicts(&vec![], &vec![], &strings(&["errors"]), &vec![], &vec![], &vec![]);
    assert_eq!(r.summary, ValidationSummary { validated_count: 0, conflicts_found: 0, remaining_valid: 0 });
    assert!(r.moved.is_empty());
}

#[test]
fn relocated_row_fills_invalid_columns() {
    let cols = strings(&["name", "extra"]);
    let rows = vec![row("a", &[Some("N"), Some("E")])];
    let inv_cols = strings(&["id", "name", "errors"]);
    let r = relocate_conflicts(&cols, &rows, &inv_cols, &vec![], &strings(&["a"]), &vec![]);
    assert_eq!(r.moved[0].cells, vec![None, Some("N".to_string()), Some("[\"Existing document with the same _id\"]".to_string())]);
}

#[test]
fn unique_fields_come_from_the_schema() {
    let schema = CollectionSchema {
        properties: vec![
            PropertySchema { name: "email".to_string(), bson_type: Some("string".to_string()), unique: true },
            PropertySchema { name: "age".to_string(), bson_type: Some("int".to_string()), unique: false },
            PropertySchema { name: "code".to_string(), bson_type: None, unique: true },
        ],
        short_names: vec![("email".to_string(), "E".to_string())],
    };
    assert_eq!(schema.unique_fields(), strings(&["email", "code"]));
    assert_eq!(schema.type_of("age"), "int");
    assert_eq!(schema.type_of("code"), "string");
    assert_eq!(schema.type_of("missing"), "string");
    assert_eq!(schema.short_name(&"email".to_string()), "E");
    assert_eq!(schema.short_name(&"age".to_string()), "age");
}
