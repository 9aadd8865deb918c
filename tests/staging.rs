use csv_staging::page::{clamp_page, clamp_page_size, default_page, default_page_size, empty_page, load_page, page_bounds, read_row, PaginationQuery};
use csv_staging::record::{Item, Record};
use csv_staging::sql::{create_table_sql, drop_table_sql, insert_sql, quote_ident, StagingTable};
use csv_staging::staged::{prepare_upload, prepare_upload_with_ids, StagedRow, UploadError};
use csv_staging::value::{CellValue, FieldValue};

fn item(fields: Vec<(&str, &str)>) -> Item {
    Item::Record(Record {
        fields: fields.into_iter().map(|(k, v)| (k.to_string(), FieldValue::Text(v.to_string()))).collect(),
    })
}

fn invalid_item(fields: Vec<(&str, &str)>, errors: &str) -> Item {
    let mut fs: Vec<(String, FieldValue)> = fields.into_iter().map(|(k, v)| (k.to_string(), FieldValue::Text(v.to_string()))).collect();
    fs.push(("errors".to_string(), FieldValue::Array(errors.to_string())));
    Item::Record(Record { fields: fs })
}

fn strings(v: &[&str]) -> Vec<String> {
    v.iter().map(|s| s.to_string()).collect()
}

#[test]
fn upload_with_nothing_is_refused() {
    let r = prepare_upload_with_ids(&vec![], &vec![], &vec![], &vec![]);
    assert_eq!(r.err(), Some(UploadError::NoData));
}

#[test]
fn upload_whose_first_item_is_not_a_record_is_refused() {
    let r = prepare_upload_with_ids(&vec![Item::Other], &vec![], &strings(&["u"]), &vec![]);
    assert_eq!(r.err(), Some(UploadError::NotARecord));
}

#[test]
fn upload_with_any_malformed_item_is_refused() {
    let valid = vec![item(vec![("_id", "a")]), Item::Other];
    let r = prepare_upload_with_ids(&valid, &vec![], &strings(&["", ""]), &vec![]);
    assert_eq!(r.err(), Some(UploadError::NotARecord));
    let invalid = vec![Item::Other, invalid_item(vec![("name", "W")], "[\"bad\"]")];
    let r = prepare_upload_with_ids(&vec![], &invalid, &vec![], &strings(&["", ""]));
    assert_eq!(r.err(), Some(UploadError::NotARecord));
}

#[test]
fn invalid_record_without_reasons_is_refused() {
    let no_errors = vec![item(vec![("name", "W")])];
    let r = prepare_upload_with_ids(&vec![], &no_errors, &vec![], &strings(&["g"]));
    assert_eq!(r.err(), Some(UploadError::MissingErrors));
    let empty_errors = vec![invalid_item(vec![("name", "W")], "[]")];
    let r = prepare_upload_with_ids(&vec![], &empty_errors, &vec![], &strings(&["g"]));
    assert_eq!(r.err(), Some(UploadError::MissingErrors));
    let text_errors = vec![item(vec![("name", "W"), ("errors", "bad")])];
    let r = prepare_upload_with_ids(&vec![], &text_errors, &vec![], &strings(&["g"]));
    assert_eq!(r.err(), Some(UploadError::MissingErrors));
}

#[test]
fn upload_with_a_repeated_id_is_refused() {
    let valid = vec![item(vec![("_id", "a"), ("n", "1")]), item(vec![("_id", "a"), ("n", "2")])];
    let r = prepare_upload_with_ids(&valid, &vec![], &strings(&["", ""]), &vec![]);
    assert_eq!(r.err(), Some(UploadError::DuplicateId));
}

#[test]
fn upload_builds_both_tables() {
    let valid = vec![item(vec![("_id", "a"), ("name", "X"), ("note", "")]), item(vec![("name", "Y")])];
    let invalid = vec![invalid_item(vec![("id", "q"), ("name", "W")], "[\"bad\"]"), invalid_item(vec![("name", "V")], "[\"x\",\"y\"]")];
    let plan = prepare_upload_with_ids(&valid, &invalid, &strings(&["f0", "f1"]), &strings(&["g0", "g1"])).ok().unwrap();
    assert_eq!(plan.valid_columns, strings(&["name", "note"]));
    assert_eq!(plan.invalid_columns, strings(&["id", "name", "errors"]));
    assert_eq!(plan.valid_rows.len(), 2);
    assert_eq!(plan.valid_rows[0].id, "a");
    assert_eq!(plan.valid_rows[0].cells, vec![Some("X".to_string()), None]);
    assert_eq!(plan.valid_rows[1].id, "f1");
    assert_eq!(plan.valid_rows[1].cells, vec![Some("Y".to_string()), None]);
    assert_eq!(plan.invalid_rows[0].id, "q");
    assert_eq!(plan.invalid_rows[0].cells, vec![Some("q".to_string()), Some("W".to_string()), Some("[\"bad\"]".to_string())]);
    assert_eq!(plan.invalid_rows[1].id, "g1");
    assert_eq!(plan.invalid_rows[1].cells, vec![None, Some("V".to_string()), Some("[\"x\",\"y\"]".to_string())]);
}

#[test]
fn upload_generates_uuids_for_rows_without_ids() {
    let valid = vec![item(vec![("name", "X")]), item(vec![("_id", "k"), ("name", "Y")])];
    let plan = prepare_upload(&valid, &vec![]).ok().unwrap();
    assert_eq!(plan.valid_rows[0].id.len(), 36);
    assert_eq!(plan.valid_rows[0].id.matches('-').count(), 4);
    assert_eq!(plan.valid_rows[1].id, "k");
}

#[test]
fn identifiers_are_quoted() {
    assert_eq!(quote_ident("a\"b"), "\"a\"\"b\"");
    assert_eq!(quote_ident(""), "\"\"");
}

#[test]
fn table_statements() {
    let cols = strings(&["name", "we\"ird"]);
    assert_eq!(create_table_sql(StagingTable::Valid, &cols), "CREATE TABLE valid_data (\"_id\" TEXT PRIMARY KEY, \"name\" TEXT, \"we\"\"ird\" TEXT)");
    assert_eq!(create_table_sql(StagingTable::Invalid, &vec![]), "CREATE TABLE invalid_data (\"_id\" TEXT PRIMARY KEY)");
    assert_eq!(drop_table_sql(StagingTable::Invalid), "DROP TABLE IF EXISTS invalid_data");
    assert_eq!(insert_sql(StagingTable::Valid, &cols, false), "INSERT INTO valid_data (\"_id\", \"name\", \"we\"\"ird\") VALUES (?, ?, ?)");
    assert_eq!(insert_sql(StagingTable::Invalid, &strings(&["errors"]), true), "INSERT OR REPLACE INTO invalid_data (\"_id\", \"errors\") VALUES (?, ?)");
}

#[test]
fn page_parameters_are_clamped() {
    assert_eq!(default_page(), 1);
    assert_eq!(default_page_size(), 20);
    assert_eq!(clamp_page(0), 1);
    assert_eq!(clamp_page(7), 7);
    assert_eq!(clamp_page_size(0), 1);
    assert_eq!(clamp_page_size(500), 100);
    assert_eq!(clamp_page_size(30), 30);
    let q = PaginationQuery { valid_page: 0, valid_page_size: 1000, invalid_page: 3, invalid_page_size: 0 }.clamped();
    assert_eq!((q.valid_page, q.valid_page_size, q.invalid_page, q.invalid_page_size), (1, 100, 3, 1));
    let d = PaginationQuery::new();
    assert_eq!((d.valid_page, d.valid_page_size), (1, 20));
}

#[test]
fn page_bounds_cover_each_row_once() {
    assert_eq!(page_bounds(45, 1, 20), (0, 20));
    assert_eq!(page_bounds(45, 3, 20), (40, 45));
    assert_eq!(page_bounds(45, 4, 20), (45, 45));
    assert_eq!(page_bounds(0, 1, 20), (0, 0));
    assert_eq!(page_bounds(10, u32::MAX, u32::MAX), (10, 10));
    for total in [0u64, 1, 19, 20, 21, 99, 100, 101] {
        for size in [1u32, 3, 20, 100] {
            let mut sum = 0;
            let mut page = 1u32;
            loop {
                let (s, e) = page_bounds(total, page, size);
                if s == e {
                    break;
                }
                sum += e - s;
                page += 1;
            }
            assert_eq!(sum, total);
        }
    }
}

#[test]
fn rows_read_back_with_legacy_id() {
    let row = StagedRow { id: "r1".to_string(), cells: vec![Some("5".to_string()), None, Some("[\"e\"]".to_string())] };
    let cols = strings(&["qty", "note", "errors"]);
    let r = read_row(StagingTable::Invalid, &cols, &row);
    assert_eq!(r.entries.len(), 5);
    assert_eq!(r.entries[0].0, "_id");
    assert!(matches!(&r.entries[0].1, CellValue::ObjectId(s) if s == "r1"));
    assert!(matches!(&r.entries[1].1, CellValue::Number(s) if s == "5"));
    assert!(matches!(&r.entries[2].1, CellValue::Null));
    assert!(matches!(&r.entries[3].1, CellValue::Json(s) if s == "[\"e\"]"));
    assert_eq!(r.entries[4].0, "id");
    assert!(matches!(&r.entries[4].1, CellValue::ObjectId(s) if s == "r1"));
    let numeric = StagedRow { id: "12".to_string(), cells: vec![None, None, None] };
    let r2 = read_row(StagingTable::Valid, &cols, &numeric);
    assert_eq!(r2.entries.len(), 5);
    assert!(matches!(&r2.entries[0].1, CellValue::ObjectId(s) if s == "12"));
    assert_eq!(r2.entries[4].0, "id");
    assert!(matches!(&r2.entries[4].1, CellValue::ObjectId(s) if s == "12"));
    let literal = StagedRow { id: "true".to_string(), cells: vec![None, None, None] };
    let r3 = read_row(StagingTable::Valid, &cols, &literal);
    assert!(matches!(&r3.entries[0].1, CellValue::ObjectId(s) if s == "true"));
    assert!(matches!(&r3.entries[4].1, CellValue::ObjectId(s) if s == "true"));
}

#[test]
fn pages_keep_the_total() {
    let cols = strings(&["a"]);
    let rows = vec![StagedRow { id: "x".to_string(), cells: vec![Some("b".to_string())] }];
    let p = load_page(StagingTable::Valid, &cols, &rows, 7, 2, 1);
    assert_eq!((p.total, p.page, p.page_size, p.data.len()), (7, 2, 1, 1));
    let e = empty_page(20);
    assert_eq!((e.total, e.page, e.page_size, e.data.len()), (0, 1, 20, 0));
}
