use ament_rs::packages::get_package_share_directory;
use ament_rs::resources::find_resource;
use ament_rs::resources::get_resource_prefix;
use ament_rs::resources::get_resources_prefix;
use ament_rs::resources::has_resource;
use ament_rs::resources::list_all_prefixes_of_resource;
use ament_rs::resources::list_all_prefixes_of_resources;
use ament_rs::resources::list_all_prefixes_of_resources_disjointly;
use ament_rs::resources::list_prefix_of_resources;
use ament_rs::Ament;

fn prefix_under(root: &tempfile::TempDir, name: &str) -> String {
    root.path().join(name).to_str().unwrap().to_string()
}

fn register(prefix: &str, resource_type: &str, resource_name: &str) {
    let dir = format!("{}/share/ament_index/resource_index/{}", prefix, resource_type);
    fs_err::create_dir_all(&dir).unwrap();
    fs_err::write(format!("{}/{}", dir, resource_name), b"").unwrap();
}

#[test]
fn package_in_two_prefixes_resolves_to_the_first() {
    let root = tempfile::TempDir::new().unwrap();
    let crystal = prefix_under(&root, "crystal");
    let bouncy = prefix_under(&root, "bouncy");
    register(&crystal, "packages", "ros_core");
    register(&bouncy, "packages", "ros_core");
    let prefixes = vec![crystal.clone(), bouncy.clone()];

    assert_eq!(get_resource_prefix("ros_core", "packages", &prefixes), Some(crystal.clone()));
    assert_eq!(find_resource("ros_core", "packages", &prefixes), Some(crystal.clone()));

    let grouped = list_all_prefixes_of_resources("packages", &prefixes);
    assert_eq!(grouped, vec![("ros_core".to_string(), vec![crystal.clone(), bouncy.clone()])]);

    let ament = Ament { prefixes: prefixes.clone() };
    assert_eq!(ament.find_package("ros_core"), Some(crystal.clone()));
    assert_eq!(
        ament.get_packages_prefixes(),
        vec![("ros_core".to_string(), vec![crystal.clone(), bouncy.clone()])]
    );
    assert_eq!(
        ament.get_package_share_directory("ros_core"),
        Some(format!("{}/share/ros_core", crystal))
    );
    assert_eq!(
        get_package_share_directory("ros_core", &prefixes),
        Some(format!("{}/share/ros_core", crystal))
    );
}

#[test]
fn missing_index_directory_contributes_nothing() {
    let root = tempfile::TempDir::new().unwrap();
    let bare = prefix_under(&root, "bare");
    let stocked = prefix_under(&root, "stocked");
    fs_err::create_dir_all(&bare).unwrap();
    register(&stocked, "things", "widget");
    let prefixes = vec![bare.clone(), stocked.clone()];

    let stream = list_all_prefixes_of_resources_disjointly("things", &prefixes);
    assert_eq!(stream, vec![("widget".to_string(), stocked.clone())]);
    assert_eq!(get_resource_prefix("widget", "things", &prefixes), Some(stocked.clone()));
    assert_eq!(find_resource("widget", "things", &prefixes), Some(stocked.clone()));
}

#[test]
fn hidden_and_non_file_entries_are_ignored() {
    let root = tempfile::TempDir::new().unwrap();
    let prefix = prefix_under(&root, "only");
    register(&prefix, "things", "visible");
    register(&prefix, "things", ".hidden");
    let subdir = format!("{}/share/ament_index/resource_index/things/nested", prefix);
    fs_err::create_dir_all(&subdir).unwrap();
    let prefixes = vec![prefix.clone()];

    let firsts = list_prefix_of_resources("things", &prefixes);
    assert_eq!(firsts, vec![("visible".to_string(), prefix.clone())]);
    assert!(!has_resource(".hidden", "things", &prefixes));
    assert!(!has_resource("nested", "things", &prefixes));
    assert!(has_resource("visible", "things", &prefixes));
}

#[test]
fn absent_resource_is_not_found_anywhere() {
    let root = tempfile::TempDir::new().unwrap();
    let prefix = prefix_under(&root, "only");
    register(&prefix, "things", "widget");
    let prefixes = vec![prefix.clone()];

    assert_eq!(find_resource("gadget", "things", &prefixes), None);
    assert!(!has_resource("gadget", "things", &prefixes));
    assert_eq!(get_resource_prefix("gadget", "things", &prefixes), None);
    assert_eq!(get_package_share_directory("gadget", &prefixes), None);
    assert_eq!(
        list_all_prefixes_of_resource("gadget", "things", &prefixes),
        Vec::<String>::new()
    );
}

#[test]
fn empty_prefix_list_finds_nothing() {
    let prefixes: Vec<String> = vec![];
    assert_eq!(find_resource("anything", "things", &prefixes), None);
    assert_eq!(list_prefix_of_resources("things", &prefixes), vec![]);
    assert_eq!(list_all_prefixes_of_resources("things", &prefixes), vec![]);
    assert_eq!(get_resources_prefix("things", &prefixes), vec![]);
}

#[test]
fn duplicate_prefix_entries_are_all_retained() {
    let root = tempfile::TempDir::new().unwrap();
    let a = prefix_under(&root, "a");
    let b = prefix_under(&root, "b");
    register(&a, "things", "widget");
    register(&b, "things", "widget");
    let prefixes = vec![a.clone(), b.clone(), a.clone()];

    assert_eq!(
        list_all_prefixes_of_resource("widget", "things", &prefixes),
        vec![a.clone(), b.clone(), a.clone()]
    );
    let grouped = list_all_prefixes_of_resources("things", &prefixes);
    assert_eq!(grouped, vec![("widget".to_string(), vec![a.clone(), b.clone(), a.clone()])]);
}

#[test]
fn ament_struct_queries_use_the_stored_prefixes() {
    let root = tempfile::TempDir::new().unwrap();
    let prefix = prefix_under(&root, "only");
    register(&prefix, "packages", "demo_pkg");
    register(&prefix, "things", "widget");
    let ament = Ament { prefixes: vec![prefix.clone()] };

    assert!(ament.has_package("demo_pkg"));
    assert!(!ament.has_package("widget"));
    assert!(ament.has_resource("widget", "things"));
    assert_eq!(ament.find_resource("widget", "things"), Some(prefix.clone()));
    assert_eq!(ament.get_packages_prefix(), vec![("demo_pkg".to_string(), prefix.clone())]);
    assert_eq!(ament.get_resources_prefix("things"), vec![("widget".to_string(), prefix.clone())]);
    assert_eq!(
        ament.get_resources_prefixes("things"),
        vec![("widget".to_string(), vec![prefix.clone()])]
    );
}
