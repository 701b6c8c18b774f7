use locker::{find_duplicates, parse_inputs, FlakeLock, Locked, Node, OrderedMap};

fn inputs(entries: &[(&str, &str)]) -> OrderedMap<String> {
    let mut map = OrderedMap::new();
    for (name, uri) in entries {
        map.insert(name.to_string(), uri.to_string());
    }
    map
}

fn names(listed: &[&str]) -> Vec<String> {
    listed.iter().map(|name| name.to_string()).collect()
}

#[test]
fn later_inputs_of_a_uri_are_recorded_and_the_first_is_not() {
    let duplicates = find_duplicates(inputs(&[
        ("input1", "A"),
        ("input2", "B"),
        ("input3", "A"),
        ("input4", "C"),
        ("input5", "C"),
    ]));
    assert_eq!(duplicates.len(), 2);
    assert_eq!(duplicates.get("A").unwrap(), &names(&["input3"]));
    assert_eq!(duplicates.get("C").unwrap(), &names(&["input5"]));
    assert!(!duplicates.contains_key("B"));
}

#[test]
fn groups_stand_in_the_order_in_which_they_were_opened() {
    let duplicates = find_duplicates(inputs(&[
        ("a", "X"),
        ("b", "Y"),
        ("c", "Y"),
        ("d", "X"),
        ("e", "Y"),
    ]));
    let expected = vec![
        ("Y".to_string(), names(&["c", "e"])),
        ("X".to_string(), names(&["d"])),
    ];
    assert_eq!(duplicates.entries(), &expected);
}

#[test]
fn every_input_but_the_first_is_listed_in_order() {
    let duplicates = find_duplicates(inputs(&[
        ("one", "U"),
        ("two", "U"),
        ("three", "U"),
        ("four", "U"),
    ]));
    assert_eq!(duplicates.len(), 1);
    assert_eq!(
        duplicates.get("U").unwrap(),
        &names(&["two", "three", "four"])
    );
}

#[test]
fn distinct_uris_give_no_duplicates() {
    let duplicates = find_duplicates(inputs(&[("a", "X"), ("b", "Y"), ("c", "Z")]));
    assert!(duplicates.is_empty());
    assert_eq!(duplicates.len(), 0);
}

#[test]
fn no_inputs_give_no_duplicates() {
    let duplicates = find_duplicates(inputs(&[]));
    assert!(duplicates.is_empty());
}

#[test]
fn a_single_input_gives_no_duplicates() {
    let duplicates = find_duplicates(inputs(&[("only", "X")]));
    assert!(duplicates.is_empty());
}

#[test]
fn uris_are_compared_as_they_are() {
    let duplicates = find_duplicates(inputs(&[("a", "git:X"), ("b", "git:x")]));
    assert!(duplicates.is_empty());
}

fn github(owner: &str, repo: &str) -> Node {
    Node {
        locked: Some(Locked::GitHub {
            owner: owner.to_string(),
            repo: repo.to_string(),
        }),
    }
}

fn tarball(url: &str) -> Node {
    Node {
        locked: Some(Locked::Tarball {
            url: url.to_string(),
        }),
    }
}

/// A document in which seven inputs are pinned to nixpkgs, two to
/// flake-utils, and one each to a tarball and to a repository of its own.
fn many_pins() -> FlakeLock {
    let mut nodes = OrderedMap::new();
    nodes.insert("root".to_string(), Node { locked: None });
    nodes.insert("nixpkgs".to_string(), github("NixOS", "nixpkgs"));
    nodes.insert("flake-utils".to_string(), github("numtide", "flake-utils"));
    nodes.insert("nixpkgs_2".to_string(), github("nixos", "nixpkgs"));
    nodes.insert(
        "flake-compat".to_string(),
        tarball("https://example.org/f/pinned/flake-compat/1.0.1/source.tar.gz"),
    );
    nodes.insert("nixpkgs_3".to_string(), github("NixOS", "nixpkgs"));
    nodes.insert("nixpkgs_4".to_string(), github("NixOS", "Nixpkgs"));
    nodes.insert("flake-utils_2".to_string(), github("numtide", "flake-utils"));
    nodes.insert("nixpkgs_5".to_string(), github("NIXOS", "NIXPKGS"));
    nodes.insert("crane".to_string(), github("ipetkov", "crane"));
    nodes.insert("nixpkgs_6".to_string(), github("nixos", "nixpkgs"));
    nodes.insert("nixpkgs_7".to_string(), github("NixOS", "nixpkgs"));
    FlakeLock {
        nodes,
        version: 7,
        root: "root".to_string(),
    }
}

#[test]
fn repeated_pins_of_one_repository_form_one_group() {
    let duplicates = find_duplicates(parse_inputs(many_pins()));

    assert_eq!(duplicates.len(), 2);
    assert!(duplicates.contains_key("github:nixos/nixpkgs"));
    assert_eq!(duplicates.get("github:nixos/nixpkgs").unwrap().len(), 6);
    assert_eq!(
        duplicates.get("github:nixos/nixpkgs").unwrap(),
        &names(&[
            "nixpkgs_2",
            "nixpkgs_3",
            "nixpkgs_4",
            "nixpkgs_5",
            "nixpkgs_6",
            "nixpkgs_7"
        ])
    );
    assert_eq!(
        duplicates.get("github:numtide/flake-utils").unwrap(),
        &names(&["flake-utils_2"])
    );
}

#[test]
fn a_source_that_is_pinned_once_is_no_key() {
    let duplicates = find_duplicates(parse_inputs(many_pins()));

    assert!(!duplicates
        .contains_key("tarball:https://example.org/f/pinned/flake-compat/1.0.1/source.tar.gz"));
    assert!(!duplicates.contains_key("github:ipetkov/crane"));
    assert!(duplicates
        .get("tarball:https://example.org/f/pinned/flake-compat/1.0.1/source.tar.gz")
        .is_none());
}
