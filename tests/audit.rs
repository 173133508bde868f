use indexer::audit::{dir_keys, ext_key, file_audit, ranked};

fn sorted(mut v: Vec<(String, usize)>) -> Vec<(String, usize)> {
    v.sort();
    v
}

#[test]
fn directory_keys_by_depth() {
    assert_eq!(dir_keys("main.rs"), vec![".".to_string()]);
    assert_eq!(dir_keys("src/main.rs"), vec!["src".to_string()]);
    assert_eq!(dir_keys("src/bin/tool.rs"), vec!["src".to_string(), "src/bin".to_string()]);
    assert_eq!(dir_keys("a/b/c/d.rs"), vec!["a".to_string(), "a/b".to_string()]);
}

#[test]
fn extension_keys() {
    assert_eq!(ext_key("src/main.rs"), ".rs");
    assert_eq!(ext_key("Makefile"), "(no ext)");
    assert_eq!(ext_key("a/b.tar.gz"), ".gz");
}

#[test]
fn audit_counts_each_key() {
    let rels: Vec<String> = ["src/a.rs", "src/b.rs", "src/bin/c.rs", "Makefile", "web/x.ts"]
        .iter()
        .map(|s| s.to_string())
        .collect();
    let (dirs, exts) = file_audit(&rels);
    assert_eq!(
        sorted(dirs.entries()),
        vec![
            (".".to_string(), 1),
            ("src".to_string(), 3),
            ("src/bin".to_string(), 1),
            ("web".to_string(), 1),
        ]
    );
    assert_eq!(
        sorted(exts.entries()),
        vec![("(no ext)".to_string(), 1), (".rs".to_string(), 3), (".ts".to_string(), 1)]
    );
}

#[test]
fn audit_of_nothing() {
    let (dirs, exts) = file_audit(&Vec::new());
    assert!(dirs.entries().is_empty());
    assert!(exts.entries().is_empty());
}

#[test]
fn ranking_by_count_then_key() {
    let entries = vec![
        ("b".to_string(), 2),
        ("src".to_string(), 5),
        ("a".to_string(), 2),
        (".".to_string(), 1),
        ("Z".to_string(), 2),
    ];
    assert_eq!(
        ranked(&entries),
        vec![
            ("src".to_string(), 5),
            ("Z".to_string(), 2),
            ("a".to_string(), 2),
            ("b".to_string(), 2),
            (".".to_string(), 1),
        ]
    );
    assert!(ranked(&Vec::new()).is_empty());
}
