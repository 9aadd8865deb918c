use csv_staging::defaults::get_default_lib_sort_field;
use csv_staging::models::{ApiResponse, DeleteResponse, DownloadJsonRequest, DownloadParams, InsertResponse};
use csv_staging::registry::{StagingRegistry, STAGING_DIR, STAGING_FILE};

#[test]
fn delete_without_upload_is_a_no_op() {
    let mut reg = StagingRegistry::new();
    assert_eq!(reg.release("never_uploaded"), None);
    assert_eq!(reg.release("never_uploaded"), None);
    assert_eq!(reg.path_of("never_uploaded"), None);
}

#[test]
fn registry_records_resolves_and_releases() {
    let mut reg = StagingRegistry::new();
    assert_eq!(reg.resolve("books", "/d/temp/books/temp_data.sqlite"), "/d/temp/books/temp_data.sqlite");
    assert_eq!(reg.resolve("books", "/elsewhere"), "/d/temp/books/temp_data.sqlite");
    reg.record("books", "/new");
    reg.record("pens", "/pens");
    assert_eq!(reg.path_of("books"), Some("/new".to_string()));
    assert_eq!(reg.release("books"), Some("/new".to_string()));
    assert_eq!(reg.path_of("books"), None);
    assert_eq!(reg.path_of("pens"), Some("/pens".to_string()));
    assert_eq!((STAGING_DIR, STAGING_FILE), ("temp", "temp_data.sqlite"));
}

#[test]
fn library_sort_fields() {
    assert_eq!(get_default_lib_sort_field("school_accounts"), "school_id");
    assert_eq!(get_default_lib_sort_field("attendance"), "time_in_date");
    assert_eq!(get_default_lib_sort_field("purposes"), "label");
    assert_eq!(get_default_lib_sort_field("semesters"), "label");
    assert_eq!(get_default_lib_sort_field("settings_styles"), "component_name");
    assert_eq!(get_default_lib_sort_field("other"), "created_at");
}

#[test]
fn response_envelopes() {
    let ok = ApiResponse::ok(3u32);
    assert!(ok.success && ok.data == Some(3) && ok.error.is_none());
    let bad: ApiResponse<u32> = ApiResponse::failure("nope".to_string());
    assert!(!bad.success && bad.data.is_none() && bad.error == Some("nope".to_string()));
    let p = DownloadParams { ids: Some("a,b".to_string()) };
    assert_eq!(p.id_list(), vec!["a".to_string(), "b".to_string()]);
    let body = DownloadJsonRequest { ids: vec!["x".to_string()] };
    assert_eq!(body.ids.len(), 1);
    let i = InsertResponse { id: "1".to_string() };
    let d = DeleteResponse { success: true, deleted_count: 2 };
    assert_eq!((i.id.as_str(), d.success, d.deleted_count), ("1", true, 2));
}
