use history_store::actions::{create_history, delete_history, find, search, Table};
use history_store::models::SearchFilter;

#[test]
fn test_create_and_search_history() {
    let mut table = Table::new();
    let h = "test-host";
    let w = "/test/dir";
    let c = "test command";

    let new_history = create_history(&mut table, h, w, c).unwrap();
    assert_eq!(new_history.hostname, h);
    assert_eq!(new_history.working_directory, w);
    assert_eq!(new_history.command, c);

    let query = SearchFilter { pwd: Some(w.to_string()) };
    let results = search(&table, &query).unwrap();

    assert_eq!(results.len(), 1);
    let found_history = &results[0];
    assert_eq!(found_history.hostname, h);
    assert_eq!(found_history.working_directory, Some(w.to_string()));
    assert_eq!(found_history.command, c);
}

#[test]
fn test_delete_history() {
    let mut table = Table::new();
    let h = "delete-host";
    let w = "/delete/dir";
    let c = "delete command";

    create_history(&mut table, h, w, c).unwrap();

    let query = SearchFilter { pwd: Some(w.to_string()) };
    let results = search(&table, &query).unwrap();
    assert_eq!(results.len(), 1);
    let history_to_delete = &results[0];

    let delete_result = delete_history(&mut table, history_to_delete.id).unwrap();
    assert_eq!(delete_result.count, 1);

    let find_result = find(&table, history_to_delete.id).unwrap();
    assert!(find_result.is_none());
}
