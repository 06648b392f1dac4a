use history_store::actions::{create_history_at, delete_history, find, search, Table};
use history_store::models::SearchFilter;
use history_store::table::SEARCH_LIMIT;

fn everything() -> SearchFilter {
    SearchFilter { pwd: None }
}

fn in_dir(dir: &str) -> SearchFilter {
    SearchFilter { pwd: Some(dir.to_string()) }
}

#[test]
fn search_in_directory_returns_only_that_directory() {
    let mut table = Table::new();
    create_history_at(&mut table, "h1", "/a", "ls", 1).unwrap();
    create_history_at(&mut table, "h1", "/b", "ls", 2).unwrap();

    let found = search(&table, &in_dir("/a")).unwrap();
    assert_eq!(found.len(), 1);
    assert_eq!(found[0].working_directory, Some("/a".to_string()));
    assert_eq!(found[0].hostname, "h1");
    assert_eq!(found[0].command, "ls");
}

#[test]
fn directory_filter_is_exact() {
    let mut table = Table::new();
    create_history_at(&mut table, "h1", "/a", "ls", 1).unwrap();
    create_history_at(&mut table, "h1", "/a/b", "ls", 2).unwrap();
    create_history_at(&mut table, "h1", "/A", "ls", 3).unwrap();
    create_history_at(&mut table, "h1", "/a ", "ls", 4).unwrap();

    assert_eq!(search(&table, &in_dir("/a")).unwrap().len(), 1);
    assert_eq!(search(&table, &in_dir("/")).unwrap().len(), 0);
    assert_eq!(search(&table, &in_dir("")).unwrap().len(), 0);
    assert_eq!(search(&table, &in_dir("/a/")).unwrap().len(), 0);
}

#[test]
fn search_lists_newest_first() {
    let mut table = Table::new();
    create_history_at(&mut table, "h1", "/a", "one", 10).unwrap();
    create_history_at(&mut table, "h1", "/a", "two", 30).unwrap();
    create_history_at(&mut table, "h1", "/a", "three", 20).unwrap();
    create_history_at(&mut table, "h1", "/b", "four", 40).unwrap();

    let all = search(&table, &everything()).unwrap();
    let commands: Vec<&str> = all.iter().map(|entry| entry.command.as_str()).collect();
    assert_eq!(commands, vec!["four", "two", "three", "one"]);

    let in_a = search(&table, &in_dir("/a")).unwrap();
    let commands: Vec<&str> = in_a.iter().map(|entry| entry.command.as_str()).collect();
    assert_eq!(commands, vec!["two", "three", "one"]);

    // Using a command again moves it to the front.
    create_history_at(&mut table, "h1", "/a", "one", 50).unwrap();
    let all = search(&table, &everything()).unwrap();
    let commands: Vec<&str> = all.iter().map(|entry| entry.command.as_str()).collect();
    assert_eq!(commands, vec!["one", "four", "two", "three"]);
}

#[test]
fn equal_times_keep_one_order() {
    let mut table = Table::new();
    create_history_at(&mut table, "h1", "/a", "one", 10).unwrap();
    create_history_at(&mut table, "h1", "/a", "two", 10).unwrap();
    create_history_at(&mut table, "h1", "/a", "three", 10).unwrap();

    let first = search(&table, &everything()).unwrap();
    let second = search(&table, &everything()).unwrap();
    let filtered = search(&table, &in_dir("/a")).unwrap();
    let order = vec!["three", "two", "one"];
    let names = |list: &Vec<history_store::models::History>| -> Vec<String> {
        list.iter().map(|entry| entry.command.clone()).collect()
    };
    assert_eq!(names(&first), order);
    assert_eq!(names(&second), order);
    assert_eq!(names(&filtered), order);
}

#[test]
fn search_on_an_empty_table_is_empty() {
    let table = Table::new();
    assert!(search(&table, &everything()).unwrap().is_empty());
    assert!(search(&table, &in_dir("/a")).unwrap().is_empty());
    assert_eq!(table.len(), 0);
}

#[test]
fn unfiltered_search_stops_at_the_limit() {
    assert_eq!(SEARCH_LIMIT, 10_000);
    let mut table = Table::new();
    let total: i64 = 10_003;
    for n in 0..total {
        // Older and older, so that each row goes to the end.
        let command = format!("cmd {}", n);
        create_history_at(&mut table, "h1", "/big", &command, total - n).unwrap();
    }
    assert_eq!(table.len(), 10_003);

    let capped = search(&table, &everything()).unwrap();
    assert_eq!(capped.len(), 10_000);
    assert_eq!(capped[0].command, "cmd 0");
    assert_eq!(capped[9_999].command, "cmd 9999");

    // The directory filter is not capped.
    let filtered = search(&table, &in_dir("/big")).unwrap();
    assert_eq!(filtered.len(), 10_003);
    assert_eq!(filtered[10_002].command, "cmd 10002");
}

#[test]
fn find_returns_the_row_with_the_identifier() {
    let mut table = Table::new();
    create_history_at(&mut table, "h1", "/a", "ls", 5).unwrap();
    create_history_at(&mut table, "h2", "/b", "pwd", 6).unwrap();

    let first = find(&table, 1).unwrap().unwrap();
    assert_eq!(first.id, 1);
    assert_eq!(first.hostname, "h1");
    assert_eq!(first.working_directory, Some("/a".to_string()));
    assert_eq!(first.command, "ls");
    assert_eq!(first.created_at, 5);
    assert_eq!(first.updated_at, 5);

    let second = find(&table, 2).unwrap().unwrap();
    assert_eq!(second.id, 2);
    assert_eq!(second.command, "pwd");

    assert!(find(&table, 3).unwrap().is_none());
    assert!(find(&table, 0).unwrap().is_none());
    assert!(find(&table, -1).unwrap().is_none());
}

#[test]
fn create_delete_find_is_absent() {
    let mut table = Table::new();
    create_history_at(&mut table, "h1", "/a", "ls", 1).unwrap();
    let id = search(&table, &everything()).unwrap()[0].id;
    delete_history(&mut table, id).unwrap();
    assert!(find(&table, id).unwrap().is_none());
    assert!(search(&table, &in_dir("/a")).unwrap().is_empty());
}

#[test]
fn delete_returns_one_then_zero() {
    let mut table = Table::new();
    create_history_at(&mut table, "h1", "/a", "ls", 1).unwrap();
    create_history_at(&mut table, "h1", "/b", "ls", 2).unwrap();

    let first = delete_history(&mut table, 1).unwrap();
    assert_eq!(first.count, 1);
    assert_eq!(first.message, "Successfully deleted");
    let second = delete_history(&mut table, 1).unwrap();
    assert_eq!(second.count, 0);
    assert_eq!(second.message, "Successfully deleted");

    // The other row is untouched.
    assert_eq!(table.len(), 1);
    let left = find(&table, 2).unwrap().unwrap();
    assert_eq!(left.working_directory, Some("/b".to_string()));
}

#[test]
fn delete_of_a_missing_identifier_removes_nothing() {
    let mut table = Table::new();
    assert_eq!(delete_history(&mut table, 7).unwrap().count, 0);
    create_history_at(&mut table, "h1", "/a", "ls", 1).unwrap();
    assert_eq!(delete_history(&mut table, 7).unwrap().count, 0);
    assert_eq!(delete_history(&mut table, -3).unwrap().count, 0);
    assert_eq!(table.len(), 1);
}

#[test]
fn a_deleted_triple_gets_a_new_identifier() {
    let mut table = Table::new();
    create_history_at(&mut table, "h1", "/a", "ls", 1).unwrap();
    delete_history(&mut table, 1).unwrap();
    create_history_at(&mut table, "h1", "/a", "ls", 2).unwrap();
    let found = search(&table, &everything()).unwrap();
    assert_eq!(found.len(), 1);
    assert_eq!(found[0].id, 2);
    assert_eq!(found[0].created_at, 2);
}
