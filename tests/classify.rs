use indexer::classify::{index_decision, should_index_file};
use indexer::paths::{extension, file_name};
use indexer::scan::{keep_entry, keep_walk_entry, within_size_limit};
use ignore::gitignore::GitignoreBuilder;

#[test]
fn ordinary_source_files_are_indexed() {
    assert!(should_index_file("src/main.rs"));
    assert!(should_index_file("README.md"));
    assert!(should_index_file("web/app/page.tsx"));
    assert!(should_index_file("Makefile"));
    assert!(should_index_file("docker/Dockerfile"));
}

#[test]
fn ignored_names_match_case_insensitively() {
    assert!(!should_index_file("package-lock.json"));
    assert!(!should_index_file("sub/.DS_Store"));
    assert!(!should_index_file("sub/.ds_store"));
    assert!(!should_index_file("CARGO.LOCK"));
    assert!(!should_index_file(".gitignore"));
}

#[test]
fn binary_extensions_are_excluded_in_any_case() {
    assert!(!should_index_file("img/logo.png"));
    assert!(!should_index_file("img/LOGO.PNG"));
    assert!(!should_index_file("vendor/lib.tar.gz"));
    assert!(!should_index_file("db/schema.sql"));
}

#[test]
fn generated_artifacts_are_excluded() {
    assert!(!should_index_file("dist2/app.min.js"));
    assert!(!should_index_file("src/types.d.ts"));
    assert!(!should_index_file("src/TYPES.D.TS"));
    assert!(!should_index_file("out/bundle.js.map"));
    assert!(!should_index_file("out/build.timestamp"));
}

#[test]
fn test_files_and_directories_are_excluded() {
    assert!(!should_index_file("src/app.test.ts"));
    assert!(!should_index_file("src/app.spec.js"));
    assert!(!should_index_file("src/__tests__/app.ts"));
    assert!(!should_index_file("__tests__/app.ts"));
    assert!(should_index_file("src/__tests__x/app.ts"));
}

#[test]
fn extensionless_files_need_the_allowlist() {
    assert!(!should_index_file("LICENSE"));
    assert!(!should_index_file("bin/run"));
    assert!(!should_index_file(".env"));
    assert!(!should_index_file("makefile"));
}

#[test]
fn empty_and_odd_paths_are_classified_without_failing() {
    assert!(!should_index_file(""));
    assert!(!should_index_file("/"));
    assert!(!should_index_file("src/"));
    assert!(!should_index_file(".."));
    assert!(!should_index_file("a/."));
    assert!(should_index_file("naïve/é.rs"));
}

#[test]
fn decision_on_lowercased_parts() {
    assert!(index_decision("x/Foo.RS", "foo.rs", "rs"));
    assert!(!index_decision("x/Foo.PNG", "foo.png", "png"));
    assert!(!index_decision("x/yarn.lock", "yarn.lock", "lock"));
    assert!(!index_decision("x/app.min.js", "app.min.js", "js"));
}

#[test]
fn final_name_and_extension() {
    assert_eq!(file_name("a/b/c.txt"), "c.txt");
    assert_eq!(file_name("c.txt"), "c.txt");
    assert_eq!(file_name("a/b/"), "");
    assert_eq!(extension("c.tar.gz"), Some("gz"));
    assert_eq!(extension(".bashrc"), None);
    assert_eq!(extension("a."), Some(""));
    assert_eq!(extension("Makefile"), None);
}

#[test]
fn walk_prunes_ignored_directories_only() {
    assert!(!keep_entry("node_modules", true, false));
    assert!(!keep_entry(".git", true, false));
    assert!(keep_entry("node_modules", false, false));
    assert!(keep_entry("src", true, false));
    assert!(!keep_entry("src", true, true));
    assert!(!keep_entry("main.rs", false, true));
}

#[test]
fn size_cutoff_is_inclusive() {
    assert!(within_size_limit(10 * 1048576, 10));
    assert!(!within_size_limit(10 * 1048576 + 1, 10));
    assert!(within_size_limit(0, 0));
    assert!(!within_size_limit(1, 0));
    assert!(within_size_limit(u64::MAX, usize::MAX));
}

#[test]
fn ignore_rules_drop_matching_entries() {
    let mut builder = GitignoreBuilder::new("/repo");
    builder.add_line(None, "*.log").unwrap();
    builder.add_line(None, "secret/").unwrap();
    let rules = builder.build().unwrap();
    assert!(!keep_walk_entry("a.log", "/repo/a.log", false, Some(&rules)));
    assert!(keep_walk_entry("a.rs", "/repo/a.rs", false, Some(&rules)));
    assert!(!keep_walk_entry("secret", "/repo/secret", true, Some(&rules)));
    assert!(keep_walk_entry("secret", "/repo/secret", false, Some(&rules)));
    assert!(!keep_walk_entry("target", "/repo/target", true, Some(&rules)));
    assert!(!keep_walk_entry("target", "/repo/target", true, None));
    assert!(keep_walk_entry("a.log", "/repo/a.log", false, None));
}
