use locker::report::{decimal_text, describe_group, join_texts};
use locker::{lint, FlakeLock, Locked, Node, OrderedMap, Verdict, SUPPORTED_VERSION};

fn github(owner: &str, repo: &str) -> Node {
    Node {
        locked: Some(Locked::GitHub {
            owner: owner.to_string(),
            repo: repo.to_string(),
        }),
    }
}

fn path(path: &str) -> Node {
    Node {
        locked: Some(Locked::Path {
            path: path.to_string(),
        }),
    }
}

fn document(version: usize, nodes: Vec<(&str, Node)>) -> FlakeLock {
    let mut map = OrderedMap::new();
    for (name, node) in nodes {
        map.insert(name.to_string(), node);
    }
    FlakeLock {
        nodes: map,
        version,
        root: "root".to_string(),
    }
}

fn with_duplicates(version: usize) -> FlakeLock {
    document(
        version,
        vec![
            ("root", Node { locked: None }),
            ("a", github("Owner", "Repo")),
            ("b", path("./local")),
            ("c", github("owner", "repo")),
            ("d", github("OWNER", "REPO")),
            ("e", path("./local")),
        ],
    )
}

fn clean(version: usize) -> FlakeLock {
    document(
        version,
        vec![
            ("root", Node { locked: None }),
            ("a", github("owner", "repo")),
            ("b", github("owner", "other")),
            ("c", path("./local")),
        ],
    )
}

fn lines(listed: &[&str]) -> Vec<String> {
    listed.iter().map(|line| line.to_string()).collect()
}

#[test]
fn the_supported_version_is_seven() {
    assert_eq!(SUPPORTED_VERSION, 7);
}

#[test]
fn another_version_is_turned_down_with_exit_code_one() {
    for version in [0, 1, 6, 8, 70, usize::MAX] {
        let verdict = lint(clean(version));
        assert!(matches!(verdict, Verdict::UnsupportedVersion { found } if found == version));
        assert_eq!(verdict.exit_code(), 1);
    }
}

#[test]
fn another_version_is_turned_down_before_the_nodes_are_looked_at() {
    let verdict = lint(with_duplicates(6));
    assert!(matches!(
        verdict,
        Verdict::UnsupportedVersion { found: 6 }
    ));
    assert_eq!(verdict.exit_code(), 1);
}

#[test]
fn another_version_is_named_on_the_diagnostic_stream() {
    let report = lint(clean(8)).report();
    assert!(report.standard.is_empty());
    assert_eq!(
        report.diagnostic,
        lines(&["Unsupported flake.lock version: 8"])
    );
}

#[test]
fn a_clean_document_exits_with_zero() {
    let verdict = lint(clean(7));
    assert!(matches!(verdict, Verdict::NoDuplicates));
    assert_eq!(verdict.exit_code(), 0);
}

#[test]
fn a_clean_document_gets_one_line_on_standard_output() {
    let report = lint(clean(7)).report();
    assert_eq!(report.standard, lines(&["No duplicate inputs found."]));
    assert!(report.diagnostic.is_empty());
}

#[test]
fn a_document_without_nodes_is_clean() {
    let verdict = lint(document(7, vec![]));
    assert!(matches!(verdict, Verdict::NoDuplicates));
    assert_eq!(verdict.exit_code(), 0);
}

#[test]
fn duplicates_exit_with_one() {
    let verdict = lint(with_duplicates(7));
    assert_eq!(verdict.exit_code(), 1);
    match verdict {
        Verdict::DuplicatesFound { groups } => {
            assert_eq!(groups.len(), 2);
            assert_eq!(
                groups.get("github:owner/repo").unwrap(),
                &lines(&["c", "d"])
            );
            assert_eq!(groups.get("path:./local").unwrap(), &lines(&["e"]));
        }
        other => panic!("expected duplicates, got {:?}", other),
    }
}

#[test]
fn duplicates_are_reported_one_line_for_each_group() {
    let report = lint(with_duplicates(7)).report();
    assert_eq!(
        report.standard,
        lines(&["The following flake uris contained duplicate entries in your flake.lock:"])
    );
    assert_eq!(
        report.diagnostic,
        lines(&["  'github:owner/repo': c, d", "  'path:./local': e"])
    );
}

#[test]
fn a_group_line_quotes_the_uri_and_lists_the_names() {
    assert_eq!(
        describe_group("github:nixos/nixpkgs", &lines(&["nixpkgs_2", "nixpkgs_3"])),
        "  'github:nixos/nixpkgs': nixpkgs_2, nixpkgs_3"
    );
    assert_eq!(describe_group("git:u", &lines(&["only"])), "  'git:u': only");
    assert_eq!(describe_group("", &lines(&[])), "  '': ");
}

#[test]
fn texts_are_joined_with_the_separator_between_them() {
    assert_eq!(join_texts(&lines(&[]), ", "), "");
    assert_eq!(join_texts(&lines(&["a"]), ", "), "a");
    assert_eq!(join_texts(&lines(&["a", "b"]), ", "), "a, b");
    assert_eq!(join_texts(&lines(&["a", "", "c"]), "-"), "a--c");
    assert_eq!(join_texts(&lines(&["a", "b", "c"]), ""), "abc");
}

#[test]
fn numbers_are_written_in_decimal() {
    assert_eq!(decimal_text(0), "0");
    assert_eq!(decimal_text(7), "7");
    assert_eq!(decimal_text(9), "9");
    assert_eq!(decimal_text(10), "10");
    assert_eq!(decimal_text(101), "101");
    assert_eq!(decimal_text(12345), "12345");
    assert_eq!(decimal_text(usize::MAX), usize::MAX.to_string());
}
