use history_store::actions::search_plan;
use history_store::models::SearchFilter;

#[test]
fn plan_with_a_directory_has_no_limit() {
    let plan = search_plan(&SearchFilter { pwd: Some("/a".to_string()) });
    assert_eq!(plan.directory, Some("/a".to_string()));
    assert_eq!(plan.limit, None);
}

#[test]
fn plan_without_a_directory_is_capped() {
    let plan = search_plan(&SearchFilter { pwd: None });
    assert_eq!(plan.directory, None);
    assert_eq!(plan.limit, Some(10_000));
}

#[test]
fn plan_keeps_an_empty_directory() {
    let plan = search_plan(&SearchFilter { pwd: Some(String::new()) });
    assert_eq!(plan.directory, Some(String::new()));
    assert_eq!(plan.limit, None);
}
