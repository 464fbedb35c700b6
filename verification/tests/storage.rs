use search_engine::storage::file_store::page_file_name;

#[test]
fn page_files_named_by_id() {
    assert_eq!(page_file_name(0), "data/0.html");
    assert_eq!(page_file_name(7), "data/7.html");
    assert_eq!(page_file_name(42), "data/42.html");
    assert_eq!(page_file_name(1000), "data/1000.html");
    assert_eq!(page_file_name(usize::MAX), format!("data/{}.html", usize::MAX));
}
