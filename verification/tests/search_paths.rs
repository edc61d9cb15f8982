use ament_rs::search_paths::get_search_paths_from;
use ament_rs::search_paths::search_paths_from_value;
use ament_rs::AMENT_PREFIX_PATH_ENV_VAR;

#[test]
fn split_three_segments() {
    assert_eq!(get_search_paths_from("a:b:c"), vec!["a", "b", "c"]);
}

#[test]
fn split_empty_list_is_one_empty_segment() {
    assert_eq!(get_search_paths_from(""), vec![""]);
}

#[test]
fn split_single_segment() {
    assert_eq!(get_search_paths_from("/opt/ros/crystal"), vec!["/opt/ros/crystal"]);
}

#[test]
fn split_lone_colon() {
    assert_eq!(get_search_paths_from(":"), vec!["", ""]);
}

#[test]
fn split_trailing_colon() {
    assert_eq!(get_search_paths_from("a:"), vec!["a", ""]);
}

#[test]
fn split_leading_colon() {
    assert_eq!(get_search_paths_from(":b"), vec!["", "b"]);
}

#[test]
fn split_keeps_inner_empty_segments() {
    assert_eq!(get_search_paths_from("a::c"), vec!["a", "", "c"]);
}

#[test]
fn split_does_not_trim() {
    assert_eq!(get_search_paths_from(" a : b "), vec![" a ", " b "]);
}

#[test]
fn conventional_variable_name() {
    assert_eq!(AMENT_PREFIX_PATH_ENV_VAR, "AMENT_PREFIX_PATH");
}

#[test]
fn unset_and_empty_values_give_no_prefix_list() {
    assert_eq!(search_paths_from_value(None), None);
    assert_eq!(search_paths_from_value(Some("")), None);
}

#[test]
fn non_empty_value_is_split() {
    assert_eq!(search_paths_from_value(Some("a:b")), Some(vec!["a".to_string(), "b".to_string()]));
}
