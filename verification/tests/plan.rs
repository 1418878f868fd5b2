use makedocs::model::Error;
use makedocs::plan::plan_workspace;

const LOCK: &str = r#"[[package]]
name = "foo"
version = "1.3.5"
[[package]]
name = "bar"
version = "0.2.2""#;

fn no_strings() -> Vec<String> {
    Vec::new()
}

#[test]
fn plain_manifest_yields_one_entry_for_the_root() {
    let root = r#"dependencies = {foo = "1.3"}"#;
    let (entries, warns) = plan_workspace(
        ".",
        root,
        &Vec::new(),
        LOCK,
        &no_strings(),
        &no_strings(),
        true,
    )
    .unwrap();
    assert_eq!(entries.len(), 1);
    assert_eq!(entries[0].dir, ".");
    let lines: Vec<String> = entries[0].targets.iter().map(|t| t.rendered()).collect();
    assert_eq!(lines, ["foo:1.3.5"]);
    assert!(warns.is_empty());
}

#[test]
fn two_members_and_a_dependency_bearing_root_yield_three_entries_root_last() {
    let root = r#"
[workspace]
members = ["a", "b"]

[dependencies]
foo = "1.3"
"#;
    let members = vec![
        ("a".to_string(), Some(r#"dependencies = {bar = "0.2"}"#.to_string())),
        ("b".to_string(), Some(r#"dependencies = {foo = "1.3"}"#.to_string())),
    ];
    let (entries, warns) = plan_workspace(
        ".",
        root,
        &members,
        LOCK,
        &no_strings(),
        &no_strings(),
        true,
    )
    .unwrap();
    assert_eq!(entries.len(), 3);
    assert_eq!(entries[0].dir, "a");
    assert_eq!(entries[1].dir, "b");
    assert_eq!(entries[2].dir, ".");
    let lines: Vec<Vec<String>> = entries
        .iter()
        .map(|e| e.targets.iter().map(|t| t.rendered()).collect())
        .collect();
    assert_eq!(lines[0], ["bar:0.2.2"]);
    assert_eq!(lines[1], ["foo:1.3.5"]);
    assert_eq!(lines[2], ["foo:1.3.5"]);
    assert!(warns.is_empty());
}

#[test]
fn virtual_workspace_root_gets_no_entry_of_its_own() {
    let root = r#"
[workspace]
members = ["a"]
"#;
    let members = vec![("a".to_string(), Some(r#"dependencies = {foo = "1.3"}"#.to_string()))];
    let (entries, _) = plan_workspace(
        ".",
        root,
        &members,
        LOCK,
        &no_strings(),
        &no_strings(),
        true,
    )
    .unwrap();
    assert_eq!(entries.len(), 1);
    assert_eq!(entries[0].dir, "a");
}

#[test]
fn member_with_empty_targets_is_kept_in_the_plan() {
    let root = r#"
[workspace]
members = ["empty", "a"]
"#;
    let members = vec![
        ("empty".to_string(), Some("".to_string())),
        ("a".to_string(), Some(r#"dependencies = {foo = "1.3"}"#.to_string())),
    ];
    let (entries, _) = plan_workspace(
        ".",
        root,
        &members,
        LOCK,
        &no_strings(),
        &no_strings(),
        true,
    )
    .unwrap();
    assert_eq!(entries.len(), 2);
    assert_eq!(entries[0].dir, "empty");
    assert!(entries[0].targets.is_empty());
}

#[test]
fn missing_member_manifest_fails_naming_the_path() {
    let root = r#"
[workspace]
members = ["gone"]
"#;
    let members = vec![("gone".to_string(), None)];
    let err = plan_workspace(
        ".",
        root,
        &members,
        LOCK,
        &no_strings(),
        &no_strings(),
        true,
    )
    .unwrap_err();
    match err {
        Error::Member { path } => assert_eq!(path, "gone"),
        other => panic!("expected a member error, got {:?}", other),
    }
}

#[test]
fn unparsable_member_manifest_fails_naming_the_path() {
    let root = r#"
[workspace]
members = ["broken"]
"#;
    let members = vec![("broken".to_string(), Some("dependencies = {".to_string()))];
    let err = plan_workspace(
        ".",
        root,
        &members,
        LOCK,
        &no_strings(),
        &no_strings(),
        true,
    )
    .unwrap_err();
    match err {
        Error::Member { path } => assert_eq!(path, "broken"),
        other => panic!("expected a member error, got {:?}", other),
    }
}

#[test]
fn member_warnings_come_before_the_roots() {
    let root = r#"
[workspace]
members = ["a"]

[dependencies]
ghost-root = "1.0"
"#;
    let members =
        vec![("a".to_string(), Some(r#"dependencies = {ghost-member = "1.0"}"#.to_string()))];
    let (entries, warns) = plan_workspace(
        ".",
        root,
        &members,
        LOCK,
        &no_strings(),
        &no_strings(),
        true,
    )
    .unwrap();
    assert_eq!(entries.len(), 2);
    assert_eq!(warns, ["ghost-member", "ghost-root"]);
}
