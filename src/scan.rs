//! Decisions taken for each entry met while walking a source tree.

use vstd::prelude::*;
use crate::text::str_equal;

verus! {

/// Directory names whose subtrees are never entered: build output,
/// dependency caches, VCS internals, generated, translation and log
/// directories.
pub open spec fn ignored_dir_names() -> Seq<Seq<char>> {
    seq![
        ".git"@, ".yarn"@, "assets"@, "docs"@, "cypress"@, "storybook"@, "__mocks__"@,
        ".maestro"@, ".github"@, "examples"@, "codemods"@, "msw"@, "fastlane"@,
        "code-signing"@, ".reassure"@, ".vscode"@, "build"@, "Pods"@,
        ".gradle"@, "node_modules"@, "dist"@, "coverage"@, ".next"@, ".cache"@, "tmp"@,
        "temp"@, "target"@, "test-utils"@, "__fixture__"@, "Locales"@, "translations"@,
        "generated"@, "cache"@, "logs"@,
    ]
}

fn ignored_dir_list() -> (r: Vec<&'static str>)
    ensures
        r@.map_values(|s: &str| s@) == ignored_dir_names(),
{
    let r = vec![
        ".git", ".yarn", "assets", "docs", "cypress", "storybook", "__mocks__",
        ".maestro", ".github", "examples", "codemods", "msw", "fastlane",
        "code-signing", ".reassure", ".vscode", "build", "Pods",
        ".gradle", "node_modules", "dist", "coverage", ".next", ".cache", "tmp",
        "temp", "target", "test-utils", "__fixture__", "Locales", "translations",
        "generated", "cache", "logs",
    ];
    assert(r@.map_values(|s: &str| s@) =~= ignored_dir_names());
    r
}

/// An entry is walked into (a directory) or considered (a file) unless it is
/// a directory with an ignored name or the ignore file marks it.
pub open spec fn keep_entry_spec(name: Seq<char>, is_dir: bool, ignored_by_rules: bool) -> bool {
    !(is_dir && ignored_dir_names().contains(name)) && !ignored_by_rules
}

/// Whether the walk keeps the entry called `name`; `ignored_by_rules` is
/// what the root's ignore file says of it.
pub fn keep_entry(name: &str, is_dir: bool, ignored_by_rules: bool) -> (r: bool)
    ensures
        r == keep_entry_spec(name@, is_dir, ignored_by_rules),
{
    if is_dir {
        let list = ignored_dir_list();
        let ghost views = list@.map_values(|s: &str| s@);
        let mut i: usize = 0;
        while i < list.len()
            invariant
                is_dir,
                i <= list@.len(),
                views == list@.map_values(|s: &str| s@),
                views == ignored_dir_names(),
                forall|k: int| 0 <= k < i ==> views[k] != name@,
            decreases list@.len() - i,
        {
            if str_equal(list[i], name) {
                assert(views[i as int] == name@);
                return false;
            }
            i = i + 1;
        }
    }
    !ignored_by_rules
}

#[verifier::external_type_specification]
#[verifier::external_body]
pub struct ExGitignore(ignore::gitignore::Gitignore);

/// Relies on `ignore::gitignore::Gitignore::matched` and `Match::is_ignore`:
/// whether the ignore rules mark the entry at `path` ignored (a whitelist
/// match or no match does not). What comes back depends on the rules read
/// from disk, so nothing is stated of it.
#[verifier::external_body]
fn rules_ignore(rules: &ignore::gitignore::Gitignore, path: &str, is_dir: bool) -> (r: bool) {
    rules.matched(std::path::Path::new(path), is_dir).is_ignore()
}

/// Whether the walk keeps the entry called `name` at `path`, consulting the
/// root's ignore rules where there are any and the name alone does not
/// already prune it. Without rules the name alone decides; with rules the
/// entry may be dropped on their word, never kept against its name.
pub fn keep_walk_entry(
    name: &str,
    path: &str,
    is_dir: bool,
    rules: Option<&ignore::gitignore::Gitignore>,
) -> (r: bool)
    ensures
        r ==> keep_entry_spec(name@, is_dir, false),
        rules.is_none() ==> r == keep_entry_spec(name@, is_dir, false),
{
    if !keep_entry(name, is_dir, false) {
        return false;
    }
    let ignored_by_rules = match rules {
        Some(gi) => rules_ignore(gi, path, is_dir),
        None => false,
    };
    keep_entry(name, is_dir, ignored_by_rules)
}

/// Bytes in a mebibyte.
pub const BYTES_PER_MB: u64 = 1048576;

/// Whether a file of `len` bytes is within a cutoff of `max_mb` mebibytes.
pub fn within_size_limit(len: u64, max_mb: usize) -> (r: bool)
    ensures
        r == (len as int <= max_mb as int * BYTES_PER_MB as int),
{
    (len as u128) <= (max_mb as u128) * (BYTES_PER_MB as u128)
}

} // verus!
