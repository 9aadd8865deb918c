use csv_staging::export::{collection_records, export_collection_csv, export_fields, export_staged_csv, split_ids, staged_records, DocValue, Document, HeaderMode};
use csv_staging::schema::{CollectionSchema, PropertySchema};
use csv_staging::staged::StagedRow;

fn strings(v: &[&str]) -> Vec<String> {
    v.iter().map(|s| s.to_string()).collect()
}

fn schema() -> CollectionSchema {
    CollectionSchema {
        properties: vec![
            PropertySchema { name: "name".to_string(), bson_type: Some("string".to_string()), unique: false },
            PropertySchema { name: "age".to_string(), bson_type: Some("int".to_string()), unique: false },
            PropertySchema { name: "seen".to_string(), bson_type: Some("date".to_string()), unique: false },
        ],
        short_names: vec![("name".to_string(), "N".to_string())],
    }
}

#[test]
fn ids_split_on_commas() {
    assert_eq!(split_ids(&None), Vec::<String>::new());
    assert_eq!(split_ids(&Some("a,b".to_string())), strings(&["a", "b"]));
    assert_eq!(split_ids(&Some("a,,b".to_string())), strings(&["a", "", "b"]));
    assert_eq!(split_ids(&Some(String::new())), strings(&[""]));
    assert_eq!(split_ids(&Some("x,".to_string())), strings(&["x", ""]));
}

#[test]
fn staged_export_filters_by_id() {
    let cols = strings(&["name"]);
    let rows = vec![
        StagedRow { id: "a".to_string(), cells: vec![Some("X".to_string())] },
        StagedRow { id: "b".to_string(), cells: vec![None] },
    ];
    let all = staged_records(&cols, &rows, &vec![]);
    assert_eq!(all, vec![strings(&["_id", "name"]), strings(&["a", "X"]), strings(&["b", ""])]);
    let some = staged_records(&cols, &rows, &strings(&["b"]));
    assert_eq!(some, vec![strings(&["_id", "name"]), strings(&["b", ""])]);
    let bytes = export_staged_csv(&cols, &rows, &vec![]).ok().unwrap();
    assert_eq!(String::from_utf8(bytes).unwrap(), "_id,name\na,X\nb,\n");
    let quoted = vec![StagedRow { id: "c".to_string(), cells: vec![Some("x,y".to_string())] }];
    let bytes = export_staged_csv(&cols, &quoted, &vec![]).ok().unwrap();
    assert_eq!(String::from_utf8(bytes).unwrap(), "_id,name\nc,\"x,y\"\n");
}

#[test]
fn staged_export_refuses_ragged_rows() {
    let rows = vec![StagedRow { id: "a".to_string(), cells: vec![] }];
    assert!(export_staged_csv(&strings(&["name"]), &rows, &vec![]).is_err());
}

#[test]
fn collection_export_headers() {
    assert_eq!(export_fields(&schema(), false), strings(&["name", "age", "seen"]));
    assert_eq!(export_fields(&schema(), true), strings(&["_id", "name", "age", "seen"]));
    let docs = vec![Document {
        fields: vec![
            ("_id".to_string(), DocValue::ObjectId("507f1f77bcf86cd799439011".to_string())),
            ("age".to_string(), DocValue::Int32(-5)),
            ("name".to_string(), DocValue::Text("Ann".to_string())),
            ("seen".to_string(), DocValue::DateTime(0)),
        ],
    }];
    let short = collection_records(&schema(), &docs, HeaderMode::Short, true);
    assert_eq!(short[0], strings(&["_id", "N", "age", "seen"]));
    assert_eq!(short[1], strings(&["507f1f77bcf86cd799439011", "Ann", "-5", "1970-01-01T00:00:00+00:00"]));
    let original = collection_records(&schema(), &docs, HeaderMode::Original, false);
    assert_eq!(original[0], strings(&["name", "age", "seen"]));
    assert_eq!(HeaderMode::from_param("short"), HeaderMode::Short);
    assert_eq!(HeaderMode::from_param("original"), HeaderMode::Original);
}

#[test]
fn collection_export_renders_values() {
    let docs = vec![
        Document { fields: vec![("name".to_string(), DocValue::Boolean(true)), ("age".to_string(), DocValue::Int64(9000000000))] },
        Document { fields: vec![("name".to_string(), DocValue::Double("1.5".to_string()))] },
    ];
    let bytes = export_collection_csv(&schema(), &docs, HeaderMode::Original, false).ok().unwrap();
    let text = String::from_utf8(bytes).unwrap();
    assert_eq!(text, "\"name\",\"age\",\"seen\"\n\"true\",9000000000,\"\"\n1.5,\"\",\"\"\n");
}
