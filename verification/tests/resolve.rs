use makedocs::model::{LockEntry, LockPool, Manifest};
use makedocs::resolve::resolve_dependencies;

fn parse_manifest(text: &str) -> Manifest {
    Manifest::parse(text).unwrap()
}

fn lock_of(pairs: &[(&str, &str)]) -> LockPool {
    let mut entries = Vec::new();
    for (name, version) in pairs {
        entries.push(LockEntry { name: name.to_string(), version: version.to_string() });
    }
    LockPool { entries }
}

fn strings(xs: &[&str]) -> Vec<String> {
    xs.iter().map(|s| s.to_string()).collect()
}

fn rendered(m: &Manifest, pool: &LockPool, excluded: &[&str], extra: &[&str]) -> (Vec<String>, Vec<String>) {
    let (targets, warns) =
        resolve_dependencies(m, pool, &strings(excluded), &strings(extra), true).unwrap();
    (targets.iter().map(|t| t.rendered()).collect(), warns)
}

#[test]
fn excluded_name_leaves_no_trace() {
    let m = parse_manifest(r#"dependencies = {gone = "1.0", kept = "1.0"}"#);
    let pool = lock_of(&[("gone", "1.0.0"), ("kept", "1.0.2")]);
    let (lines, warns) = rendered(&m, &pool, &["gone"], &[]);
    assert_eq!(lines, ["kept:1.0.2"]);
    assert!(warns.is_empty());
    assert!(!lines.iter().any(|l| l.starts_with("gone")));
}

#[test]
fn extra_names_appear_verbatim_without_lookup() {
    let m = parse_manifest(r#"dependencies = {}"#);
    // The pool pins the extra name; a lookup would attach its version.
    let pool = lock_of(&[("forced", "3.1.4")]);
    let (lines, warns) = rendered(&m, &pool, &[], &["forced"]);
    assert_eq!(lines, ["forced"]);
    assert!(warns.is_empty());
}

#[test]
fn extra_names_do_not_depend_on_the_pool() {
    let m = parse_manifest(r#"dependencies = {}"#);
    let full = lock_of(&[("forced", "3.1.4"), ("other", "0.1.0")]);
    let empty_manifest_pool = lock_of(&[]);
    let (lines_full, _) = rendered(&m, &full, &[], &["forced"]);
    let (lines_empty, _) = rendered(&m, &empty_manifest_pool, &[], &["forced"]);
    assert_eq!(lines_full, lines_empty);
}

#[test]
fn missing_dependency_raises_exactly_one_warning() {
    let m = parse_manifest(r#"dependencies = {present = "1.0", absent = "1.0"}"#);
    let pool = lock_of(&[("present", "1.0.1")]);
    let (targets, warns) =
        resolve_dependencies(&m, &pool, &Vec::new(), &Vec::new(), true).unwrap();
    let lines: Vec<String> = targets.iter().map(|t| t.rendered()).collect();
    assert_eq!(lines, ["absent", "present:1.0.1"]);
    assert_eq!(warns, ["absent"]);
}

#[test]
fn rename_override_is_both_lookup_key_and_display_name() {
    let m = parse_manifest(r#"dependencies = {renamed = {package = "foo", version = "1.3"}}"#);
    let pool = lock_of(&[("foo", "1.3.5"), ("renamed", "1.3.9")]);
    let (lines, _) = rendered(&m, &pool, &[], &[]);
    assert_eq!(lines, ["foo:1.3.5"]);
}

#[test]
fn path_marker_alone_resolves_like_the_wildcard() {
    let m = parse_manifest(r#"dependencies = {dev = {path = "../dev"}}"#);
    let pool = lock_of(&[("dev", "0.0.1"), ("dev", "0.2.0")]);
    let (lines, _) = rendered(&m, &pool, &[], &[]);
    assert_eq!(lines, ["dev:0.2.0"]);
}

#[test]
fn workspace_member_list_is_parsed() {
    let m = parse_manifest(
        r#"
[workspace]
members = ["crates/a", "crates/b"]
"#,
    );
    assert_eq!(m.members, Some(vec!["crates/a".to_string(), "crates/b".to_string()]));
    let plain = parse_manifest(r#"dependencies = {}"#);
    assert!(plain.members.is_none());
}
