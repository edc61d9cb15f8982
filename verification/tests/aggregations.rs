use ament_rs::resources::first_found_prefix;
use ament_rs::resources::first_per_resource;
use ament_rs::resources::index_directory;
use ament_rs::resources::kept_pairs;
use ament_rs::resources::list_all_prefixes;
use ament_rs::resources::prefixes_of_resource;
use ament_rs::resources::prefixes_per_resource;
use ament_rs::resources::resource_file_path;

fn pair(name: &str, prefix: &str) -> (String, String) {
    (name.to_string(), prefix.to_string())
}

#[test]
fn first_per_resource_keeps_first_prefix() {
    let stream = vec![
        pair("ros_core", "/opt/ros/crystal"),
        pair("ros_core", "/opt/ros/bouncy"),
        pair("rclrs", "/opt/ros/bouncy"),
    ];
    let firsts = first_per_resource(&stream);
    assert_eq!(
        firsts,
        vec![pair("ros_core", "/opt/ros/crystal"), pair("rclrs", "/opt/ros/bouncy")]
    );
}

#[test]
fn prefixes_per_resource_keeps_duplicates_in_order() {
    let stream = vec![pair("res", "a"), pair("res", "b"), pair("res", "a")];
    let grouped = prefixes_per_resource(&stream);
    assert_eq!(grouped.len(), 1);
    assert_eq!(grouped[0].0, "res");
    assert_eq!(grouped[0].1, vec!["a", "b", "a"]);
}

#[test]
fn prefixes_of_resource_filters_in_stream_order() {
    let stream = vec![
        pair("x", "p1"),
        pair("y", "p1"),
        pair("x", "p2"),
        pair("z", "p3"),
        pair("x", "p3"),
    ];
    assert_eq!(prefixes_of_resource("x", &stream), vec!["p1", "p2", "p3"]);
    assert_eq!(prefixes_of_resource("y", &stream), vec!["p1"]);
    assert_eq!(prefixes_of_resource("missing", &stream), Vec::<String>::new());
}

#[test]
fn aggregations_agree_on_names() {
    let stream = vec![
        pair("alpha", "p1"),
        pair("beta", "p1"),
        pair("alpha", "p2"),
        pair("gamma", "p2"),
    ];
    let firsts = first_per_resource(&stream);
    let grouped = prefixes_per_resource(&stream);
    let first_names: Vec<&String> = firsts.iter().map(|e| &e.0).collect();
    let keys: Vec<&String> = grouped.iter().map(|e| &e.0).collect();
    assert_eq!(first_names, keys);
}

#[test]
fn resource_under_two_prefixes() {
    let stream = vec![pair("ros_core", "/opt/ros/crystal"), pair("ros_core", "/opt/ros/bouncy")];
    let firsts = first_per_resource(&stream);
    assert_eq!(firsts, vec![pair("ros_core", "/opt/ros/crystal")]);
    let grouped = prefixes_per_resource(&stream);
    assert_eq!(grouped[0].1, vec!["/opt/ros/crystal", "/opt/ros/bouncy"]);
}

#[test]
fn repeated_calls_return_identical_results() {
    let stream = vec![pair("a", "p1"), pair("b", "p2"), pair("a", "p2")];
    assert_eq!(first_per_resource(&stream), first_per_resource(&stream));
    assert_eq!(prefixes_per_resource(&stream), prefixes_per_resource(&stream));
    assert_eq!(prefixes_of_resource("a", &stream), prefixes_of_resource("a", &stream));
}

#[test]
fn index_directory_joins_the_conventional_path() {
    assert_eq!(
        index_directory("/opt/ros/crystal", "packages"),
        "/opt/ros/crystal/share/ament_index/resource_index/packages"
    );
}

#[test]
fn resource_file_path_joins_the_resource_name() {
    assert_eq!(
        resource_file_path("/opt/ros/crystal", "packages", "ros_core"),
        "/opt/ros/crystal/share/ament_index/resource_index/packages/ros_core"
    );
}

#[test]
fn kept_pairs_filters_non_files_and_hidden_names() {
    let entries = vec![
        ("visible".to_string(), true),
        (".hidden".to_string(), true),
        ("subdir".to_string(), false),
        ("other".to_string(), true),
    ];
    let prefix = "p1".to_string();
    assert_eq!(kept_pairs(&entries, &prefix), vec![pair("visible", "p1"), pair("other", "p1")]);
}

#[test]
fn first_found_prefix_takes_the_head() {
    assert_eq!(first_found_prefix(&vec![]), None);
    assert_eq!(
        first_found_prefix(&vec!["a".to_string(), "b".to_string()]),
        Some("a".to_string())
    );
}

#[test]
fn empty_prefix_joins_to_relative_paths() {
    assert_eq!(index_directory("", "packages"), "share/ament_index/resource_index/packages");
    assert_eq!(
        resource_file_path("", "packages", "ros_core"),
        "share/ament_index/resource_index/packages/ros_core"
    );
    assert_eq!(
        ament_rs::packages::share_directory_for(Some("".to_string()), "pkg"),
        Some("share/pkg".to_string())
    );
}

#[test]
fn share_directory_for_joins_the_found_prefix() {
    assert_eq!(ament_rs::packages::share_directory_for(None, "pkg"), None);
    assert_eq!(
        ament_rs::packages::share_directory_for(Some("/opt/ros/crystal".to_string()), "pkg"),
        Some("/opt/ros/crystal/share/pkg".to_string())
    );
}

#[test]
fn list_all_prefixes_pairs_every_prefix_in_order() {
    let prefixes = vec!["p1".to_string(), "p2".to_string()];
    let dirs = list_all_prefixes("things", &prefixes);
    assert_eq!(
        dirs,
        vec![
            pair("p1", "p1/share/ament_index/resource_index/things"),
            pair("p2", "p2/share/ament_index/resource_index/things"),
        ]
    );
}
