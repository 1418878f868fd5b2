use makedocs::invoke::{build_invocation, create_arguments, open_invocation, plan_has_targets};
use makedocs::model::{PlanEntry, Target};

fn target(name: &str, version: Option<&str>) -> Target {
    Target { name: name.to_string(), version: version.map(|v| v.to_string()) }
}

fn entry(dir: &str, targets: Vec<Target>) -> PlanEntry {
    PlanEntry { dir: dir.to_string(), targets }
}

#[test]
fn create_arguments_interleaves_restrict_flags() {
    let input = vec!["foo:1.3.5".to_string(), "include-me".to_string()];
    let args = create_arguments(&input);
    assert_eq!(args, ["-p", "foo:1.3.5", "-p", "include-me"]);
}

#[test]
fn create_arguments_of_nothing_is_empty() {
    let input: Vec<String> = Vec::new();
    let args = create_arguments(&input);
    assert!(args.is_empty());
}

#[test]
fn build_invocation_basic_arguments() {
    let e = entry(".", vec![target("foo", Some("1.3.5")), target("bare", None)]);
    let args = build_invocation(&e, false, None);
    assert_eq!(args, ["doc", "--no-deps", "-p", "foo:1.3.5", "-p", "bare"]);
}

#[test]
fn build_invocation_private_items_and_root_package() {
    let e = entry(".", vec![target("foo", Some("1.3.5"))]);
    let pkgid = "file:///work/demo#0.1.0".to_string();
    let args = build_invocation(&e, true, Some(&pkgid));
    assert_eq!(
        args,
        ["doc", "--no-deps", "-p", "foo:1.3.5", "--document-private-items", "-p", pkgid.as_str()],
    );
}

#[test]
fn open_invocation_restricts_to_first_target_of_first_entry() {
    let plan = vec![
        entry(".", vec![target("foo", Some("1.3.5")), target("bar", Some("0.2.2"))]),
        entry("b", vec![target("baz", Some("2.0.0"))]),
    ];
    let args = open_invocation(&plan, false).unwrap();
    assert_eq!(args, ["doc", "--no-deps", "--open", "-p", "foo:1.3.5"]);
}

#[test]
fn open_invocation_with_root_package_has_no_restriction() {
    let plan = vec![entry(".", vec![target("foo", Some("1.3.5"))])];
    let args = open_invocation(&plan, true).unwrap();
    assert_eq!(args, ["doc", "--no-deps", "--open"]);
}

#[test]
fn open_invocation_is_skipped_when_first_entry_is_empty() {
    let plan = vec![entry(".", Vec::new()), entry("b", vec![target("foo", Some("1.0.0"))])];
    assert!(open_invocation(&plan, false).is_none());
    let empty: Vec<PlanEntry> = Vec::new();
    assert!(open_invocation(&empty, false).is_none());
}

#[test]
fn plan_has_targets_finds_a_nonempty_entry() {
    let plan = vec![entry(".", Vec::new()), entry("b", vec![target("foo", None)])];
    assert!(plan_has_targets(&plan));
    let bare = vec![entry(".", Vec::new())];
    assert!(!plan_has_targets(&bare));
    let none: Vec<PlanEntry> = Vec::new();
    assert!(!plan_has_targets(&none));
}
