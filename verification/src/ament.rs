//! The [`Ament`] struct: a stored list of prefixes in which resources and
//! packages are searched.
use crate::packages;
use crate::packages::share_dir_view;
use crate::resources;
use crate::resources::is_hidden_name;
use crate::resources::prefix_views;
use vstd::prelude::*;

verus! {

/// Stores a list of prefixes in which resources will be searched. Order is
/// significant: an earlier prefix has higher priority in every lookup.
#[derive(Clone, Debug, PartialEq)]
pub struct Ament {
    /// The list of prefixes in which resources will be searched.
    pub prefixes: Vec<String>,
}

impl Ament {
    /// Each package name with the first stored prefix containing it.
    pub fn get_packages_prefix(&self) -> (firsts: Vec<(String, String)>)
        ensures
            forall|i: int, k: int|
                0 <= i < k < firsts@.len() ==> (#[trigger] firsts@[i]).0@ != (
                #[trigger] firsts@[k]).0@,
            forall|i: int|
                0 <= i < firsts@.len() ==> !is_hidden_name((#[trigger] firsts@[i]).0@)
                    && prefix_views(self.prefixes@).contains(firsts@[i].1@),
    {
        self.get_resources_prefix("packages")
    }

    /// Each package name with the ordered list of all stored prefixes
    /// containing it.
    pub fn get_packages_prefixes(&self) -> (grouped: Vec<(String, Vec<String>)>)
        ensures
            forall|i: int, k: int|
                0 <= i < k < grouped@.len() ==> (#[trigger] grouped@[i]).0@ != (
                #[trigger] grouped@[k]).0@,
            forall|i: int| 0 <= i < grouped@.len() ==> (#[trigger] grouped@[i]).1@.len() >= 1,
            forall|i: int, k: int|
                0 <= i < grouped@.len() && 0 <= k < grouped@[i].1@.len() ==> prefix_views(
                    self.prefixes@,
                ).contains((#[trigger] grouped@[i].1@[k])@),
    {
        self.get_resources_prefixes("packages")
    }

    /// The `share` directory of the package, or `None` when no stored
    /// prefix registers the package.
    pub fn get_package_share_directory(&self, package_name: &str) -> (dir: Option<String>)
        ensures
            dir matches Some(d) ==> exists|i: int|
                0 <= i < self.prefixes@.len() && d@ == share_dir_view(
                    (#[trigger] self.prefixes@[i])@,
                    package_name@,
                ),
            is_hidden_name(package_name@) ==> dir is None,
    {
        packages::get_package_share_directory(package_name, &self.prefixes)
    }

    /// The first stored prefix in which the package is found, or `None` if
    /// the package is found nowhere.
    pub fn find_package(&self, package_name: &str) -> (first: Option<String>)
        ensures
            first matches Some(p) ==> prefix_views(self.prefixes@).contains(p@),
            is_hidden_name(package_name@) ==> first is None,
    {
        self.find_resource(package_name, "packages")
    }

    /// Whether the package exists in the resource index of some stored
    /// prefix.
    pub fn has_package(&self, package_name: &str) -> (found: bool)
        ensures
            is_hidden_name(package_name@) ==> !found,
    {
        self.has_resource(package_name, "packages")
    }

    /// Each resource name of the given type with the first stored prefix
    /// containing it.
    pub fn get_resources_prefix(&self, resource_type: &str) -> (firsts: Vec<(String, String)>)
        ensures
            forall|i: int, k: int|
                0 <= i < k < firsts@.len() ==> (#[trigger] firsts@[i]).0@ != (
                #[trigger] firsts@[k]).0@,
            forall|i: int|
                0 <= i < firsts@.len() ==> !is_hidden_name((#[trigger] firsts@[i]).0@)
                    && prefix_views(self.prefixes@).contains(firsts@[i].1@),
    {
        resources::get_resources_prefix(resource_type, &self.prefixes)
    }

    /// Each resource name of the given type with the ordered list of all
    /// stored prefixes containing it.
    pub fn get_resources_prefixes(&self, resource_type: &str) -> (grouped: Vec<
        (String, Vec<String>),
    >)
        ensures
            forall|i: int, k: int|
                0 <= i < k < grouped@.len() ==> (#[trigger] grouped@[i]).0@ != (
                #[trigger] grouped@[k]).0@,
            forall|i: int| 0 <= i < grouped@.len() ==> (#[trigger] grouped@[i]).1@.len() >= 1,
            forall|i: int, k: int|
                0 <= i < grouped@.len() && 0 <= k < grouped@[i].1@.len() ==> prefix_views(
                    self.prefixes@,
                ).contains((#[trigger] grouped@[i].1@[k])@),
    {
        resources::list_all_prefixes_of_resources(resource_type, &self.prefixes)
    }

    /// The first stored prefix in which the resource is found, or `None` if
    /// the resource is found nowhere.
    pub fn find_resource(&self, resource_name: &str, resource_type: &str) -> (first: Option<
        String,
    >)
        ensures
            first matches Some(p) ==> prefix_views(self.prefixes@).contains(p@),
            is_hidden_name(resource_name@) ==> first is None,
    {
        resources::find_resource(resource_name, resource_type, &self.prefixes)
    }

    /// Whether the resource exists in the index of some stored prefix.
    pub fn has_resource(&self, resource_name: &str, resource_type: &str) -> (found: bool)
        ensures
            is_hidden_name(resource_name@) ==> !found,
    {
        resources::has_resource(resource_name, resource_type, &self.prefixes)
    }
}

} // verus!
