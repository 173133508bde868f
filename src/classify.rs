//! Which files are worth indexing: a pure, total predicate on paths.

use vstd::prelude::*;
use crate::paths::{extension, extension_of, file_name, file_name_of};
use crate::text::{
    contains_seq, ends_with_seq, lower_of, lowercase, str_contains, str_ends_with, str_equal,
};

verus! {

/// Lockfiles and metadata files, lowercased, that are never indexed.
pub open spec fn ignored_file_names() -> Seq<Seq<char>> {
    seq![
        ".ds_store"@, "package-lock.json"@, "yarn.lock"@, "pnpm-lock.yaml"@, "cargo.lock"@,
        ".eslintrc"@, ".prettierrc"@, ".npmignore"@, ".gitignore"@,
    ]
}

/// Extensions, with their dot, of binary, media, archive and lock files.
pub open spec fn binary_extensions() -> Seq<Seq<char>> {
    seq![
        ".png"@, ".jpg"@, ".jpeg"@, ".gif"@, ".bmp"@, ".ico"@, ".svg"@, ".webp"@,
        ".zip"@, ".tar"@, ".gz"@, ".bz2"@, ".7z"@, ".rar"@, ".xz"@,
        ".exe"@, ".dll"@, ".so"@, ".dylib"@, ".a"@, ".o"@, ".obj"@, ".bin"@,
        ".rmeta"@, ".rlib"@, ".os"@, ".bs"@,
        ".ttf"@, ".otf"@, ".woff"@, ".woff2"@, ".eot"@,
        ".mp3"@, ".mp4"@, ".avi"@, ".mov"@, ".wav"@, ".flac"@, ".ogg"@,
        ".pdf"@, ".doc"@, ".docx"@, ".xls"@, ".xlsx"@, ".ppt"@, ".pptx"@,
        ".db"@, ".sqlite"@, ".sql"@, ".pyc"@, ".pyo"@, ".class"@, ".jar"@, ".war"@,
        ".onnx"@, ".ort"@, ".pck"@, ".tscn"@, ".lock"@, ".po"@, ".mo"@,
    ]
}

/// Name endings of generated artifacts: source maps, dependency files,
/// timestamps, minified bundles, type declarations.
pub open spec fn generated_suffixes() -> Seq<Seq<char>> {
    seq![".map"@, ".d"@, ".timestamp"@, ".min.js"@, ".min.css"@, ".d.ts"@]
}

/// Extensionless tooling files that are indexed all the same.
pub open spec fn bare_names_allowed() -> Seq<Seq<char>> {
    seq!["Makefile"@, "Dockerfile"@, "Gemfile"@, "Rakefile"@, "Podfile"@, "Containerfile"@]
}

/// Infixes that mark a test file.
pub open spec fn test_markers() -> Seq<Seq<char>> {
    seq![".test."@, ".spec."@]
}

/// Some entry of `list` is a suffix of `s`.
pub open spec fn ends_with_any(s: Seq<char>, list: Seq<Seq<char>>) -> bool {
    exists|k: int| 0 <= k < list.len() && ends_with_seq(s, #[trigger] list[k])
}

/// Some entry of `list` occurs in `s`.
pub open spec fn contains_any(s: Seq<char>, list: Seq<Seq<char>>) -> bool {
    exists|k: int| 0 <= k < list.len() && contains_seq(s, #[trigger] list[k])
}

/// Some `/`-separated segment of `path` is `__tests__`.
pub open spec fn in_test_directory(path: Seq<char>) -> bool {
    contains_seq(seq!['/'] + path + seq!['/'], "/__tests__/"@)
}

/// The classification of `path`, given its final name lowercased and its
/// extension lowercased (the latter read only where there is an extension).
/// The first rule that applies decides.
pub open spec fn index_rule(path: Seq<char>, name_lower: Seq<char>, ext_lower: Seq<char>) -> bool {
    let name = file_name_of(path);
    let ext = extension_of(name);
    if ignored_file_names().contains(name_lower) {
        false
    } else if ext is Some && binary_extensions().contains(seq!['.'] + ext_lower) {
        false
    } else if ends_with_any(name_lower, generated_suffixes()) {
        false
    } else if contains_any(name, test_markers()) {
        false
    } else if in_test_directory(path) {
        false
    } else if ext is None && !bare_names_allowed().contains(name) {
        false
    } else {
        true
    }
}

/// Whether `path` is indexed, with the lowercasing of its name and extension.
pub open spec fn should_index(path: Seq<char>) -> bool {
    let name = file_name_of(path);
    index_rule(
        path,
        lower_of(name),
        match extension_of(name) {
            Some(e) => lower_of(e),
            None => seq![],
        },
    )
}

fn ignored_file_name_list() -> (r: Vec<&'static str>)
    ensures
        r@.map_values(|s: &str| s@) == ignored_file_names(),
{
    let r = vec![
        ".ds_store", "package-lock.json", "yarn.lock", "pnpm-lock.yaml", "cargo.lock",
        ".eslintrc", ".prettierrc", ".npmignore", ".gitignore",
    ];
    assert(r@.map_values(|s: &str| s@) =~= ignored_file_names());
    r
}

fn binary_extension_list() -> (r: Vec<&'static str>)
    ensures
        r@.map_values(|s: &str| s@) == binary_extensions(),
{
    let r = vec![
        ".png", ".jpg", ".jpeg", ".gif", ".bmp", ".ico", ".svg", ".webp",
        ".zip", ".tar", ".gz", ".bz2", ".7z", ".rar", ".xz",
        ".exe", ".dll", ".so", ".dylib", ".a", ".o", ".obj", ".bin",
        ".rmeta", ".rlib", ".os", ".bs",
        ".ttf", ".otf", ".woff", ".woff2", ".eot",
        ".mp3", ".mp4", ".avi", ".mov", ".wav", ".flac", ".ogg",
        ".pdf", ".doc", ".docx", ".xls", ".xlsx", ".ppt", ".pptx",
        ".db", ".sqlite", ".sql", ".pyc", ".pyo", ".class", ".jar", ".war",
        ".onnx", ".ort", ".pck", ".tscn", ".lock", ".po", ".mo",
    ];
    assert(r@.map_values(|s: &str| s@) =~= binary_extensions());
    r
}

fn generated_suffix_list() -> (r: Vec<&'static str>)
    ensures
        r@.map_values(|s: &str| s@) == generated_suffixes(),
{
    let r = vec![".map", ".d", ".timestamp", ".min.js", ".min.css", ".d.ts"];
    assert(r@.map_values(|s: &str| s@) =~= generated_suffixes());
    r
}

fn bare_name_list() -> (r: Vec<&'static str>)
    ensures
        r@.map_values(|s: &str| s@) == bare_names_allowed(),
{
    let r = vec!["Makefile", "Dockerfile", "Gemfile", "Rakefile", "Podfile", "Containerfile"];
    assert(r@.map_values(|s: &str| s@) =~= bare_names_allowed());
    r
}

fn test_marker_list() -> (r: Vec<&'static str>)
    ensures
        r@.map_values(|s: &str| s@) == test_markers(),
{
    let r = vec![".test.", ".spec."];
    assert(r@.map_values(|s: &str| s@) =~= test_markers());
    r
}

/// Whether `s` equals some entry of `list`.
fn listed(list: &Vec<&str>, s: &str) -> (r: bool)
    ensures
        r == list@.map_values(|x: &str| x@).contains(s@),
{
    let ghost views = list@.map_values(|x: &str| x@);
    let mut i: usize = 0;
    while i < list.len()
        invariant
            i <= list@.len(),
            views == list@.map_values(|x: &str| x@),
            forall|k: int| 0 <= k < i ==> views[k] != s@,
        decreases list@.len() - i,
    {
        if str_equal(list[i], s) {
            assert(views[i as int] == s@);
            return true;
        }
        i = i + 1;
    }
    false
}

/// Whether some entry of `list` is a suffix of `s`.
fn ends_with_listed(list: &Vec<&str>, s: &str) -> (r: bool)
    ensures
        r == ends_with_any(s@, list@.map_values(|x: &str| x@)),
{
    let ghost views = list@.map_values(|x: &str| x@);
    let mut i: usize = 0;
    while i < list.len()
        invariant
            i <= list@.len(),
            views == list@.map_values(|x: &str| x@),
            forall|k: int| 0 <= k < i ==> !ends_with_seq(s@, #[trigger] views[k]),
        decreases list@.len() - i,
    {
        if str_ends_with(s, list[i]) {
            assert(ends_with_seq(s@, views[i as int]));
            return true;
        }
        i = i + 1;
    }
    false
}

/// Whether some entry of `list` occurs in `s`.
fn contains_listed(list: &Vec<&str>, s: &str) -> (r: bool)
    ensures
        r == contains_any(s@, list@.map_values(|x: &str| x@)),
{
    let ghost views = list@.map_values(|x: &str| x@);
    let mut i: usize = 0;
    while i < list.len()
        invariant
            i <= list@.len(),
            views == list@.map_values(|x: &str| x@),
            forall|k: int| 0 <= k < i ==> !contains_seq(s@, #[trigger] views[k]),
        decreases list@.len() - i,
    {
        if str_contains(s, list[i]) {
            assert(contains_seq(s@, views[i as int]));
            return true;
        }
        i = i + 1;
    }
    false
}

/// The classification of `path` once its name and extension have been
/// lowercased (`ext_lower` is read only where the name has an extension).
pub fn index_decision(path: &str, name_lower: &str, ext_lower: &str) -> (r: bool)
    ensures
        r == index_rule(path@, name_lower@, ext_lower@),
{
    let name = file_name(path);
    let ext = extension(name);
    if listed(&ignored_file_name_list(), name_lower) {
        return false;
    }
    if ext.is_some() {
        proof {
            reveal_strlit(".");
        }
        let mut dotted = String::from_str(".");
        dotted.append(ext_lower);
        assert(dotted@ =~= seq!['.'] + ext_lower@);
        if listed(&binary_extension_list(), dotted.as_str()) {
            return false;
        }
    }
    if ends_with_listed(&generated_suffix_list(), name_lower) {
        return false;
    }
    if contains_listed(&test_marker_list(), name) {
        return false;
    }
    proof {
        reveal_strlit("/");
    }
    let mut framed = String::from_str("/");
    framed.append(path);
    framed.append("/");
    assert(framed@ =~= seq!['/'] + path@ + seq!['/']);
    if str_contains(framed.as_str(), "/__tests__/") {
        return false;
    }
    if ext.is_none() && !listed(&bare_name_list(), name) {
        return false;
    }
    true
}

/// Whether a file at `path` is indexed. Total: every path is classified,
/// and an empty file name is excluded.
pub fn should_index_file(path: &str) -> (r: bool)
    ensures
        r == should_index(path@),
{
    let name = file_name(path);
    let name_lower = lowercase(name);
    let ext_lower = match extension(name) {
        Some(e) => lowercase(e),
        None => String::new(),
    };
    index_decision(path, name_lower.as_str(), ext_lower.as_str())
}

} // verus!
