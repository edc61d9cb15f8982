//! Packages registered as ament resources: the resource type `packages`,
//! with the derived `share/<package>` directory lookup.
use crate::resources::get_resource_prefix;
use crate::resources::is_hidden_name;
use crate::resources::prefix_views;
use vstd::prelude::*;

verus! {

/// The conventional share directory of a package under a prefix. An empty
/// prefix gives the relative `share/<package>` path, as joining path
/// components does.
pub open spec fn share_dir_view(prefix: Seq<char>, package_name: Seq<char>) -> Seq<char> {
    if prefix.len() == 0 {
        "share/"@ + package_name
    } else {
        prefix + "/"@ + "share/"@ + package_name
    }
}

/// Joins the prefix in which a package was found, when one was, with
/// `share` and the package name: `None` exactly when no prefix was found,
/// and otherwise the share directory under the found prefix itself.
pub fn share_directory_for(found: Option<String>, package_name: &str) -> (dir: Option<String>)
    ensures
        dir is None <==> found is None,
        found matches Some(p) ==> dir matches Some(d) && d@ == share_dir_view(p@, package_name@),
{
    match found {
        None => None,
        Some(p) => {
            let mut dir = String::new();
            if !p.as_str().is_empty() {
                dir.append(p.as_str());
                dir.append("/");
            }
            dir.append("share/");
            dir.append(package_name);
            Some(dir)
        },
    }
}

/// The `share` directory of the package, or `None` when no prefix registers
/// the package: the first prefix whose index lists the package, joined by
/// [`share_directory_for`] with `share` and the package name. Whether that
/// directory exists on disk is not checked — the package's marker file, not
/// the share directory, gates the result.
pub fn get_package_share_directory(package_name: &str, prefixes: &Vec<String>) -> (dir: Option<
    String,
>)
    ensures
        dir matches Some(d) ==> exists|i: int|
            0 <= i < prefixes@.len() && d@ == share_dir_view(
                (#[trigger] prefixes@[i])@,
                package_name@,
            ),
        is_hidden_name(package_name@) ==> dir is None,
{
    let found = get_resource_prefix(package_name, "packages", prefixes);
    let ghost found_g = found;
    let dir = share_directory_for(found, package_name);
    proof {
        if found_g is Some {
            let pv = found_g->0@;
            let w = choose|w: int|
                0 <= w < prefix_views(prefixes@).len() && prefix_views(prefixes@)[w] == pv;
            assert(prefixes@[w]@ == pv);
        }
    }
    dir
}

} // verus!
