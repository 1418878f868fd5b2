use makedocs::resolve::get_crates;

#[test]
fn get_crates_buildtime_deps() {
    let cargo_toml = r#"dependencies = {renamed = {package = "foo", version = "1.3"}}"#;
    let cargo_lock = r#"[[package]]
name="foo"
version="1.3.5""#;
    let crates = get_crates(cargo_toml, cargo_lock, &[], &[], true).unwrap();
    assert_eq!(crates, ["foo:1.3.5"]);
}

#[test]
fn get_crates_include_exclude_crate() {
    let cargo_toml = r#"dependencies = {some-crate = "1.0.0", foo = "1.2.0"}"#;
    let cargo_lock = r#"[[package]]
name = "some-crate"
version="1.3.2"
[[package]]
name="foo"
version="1.3.5"
[[package]]
name = "include-me"
version="1.2.3""#;
    let crates = get_crates(
        cargo_toml,
        &cargo_lock,
        &["some-crate"],
        &["include-me"],
        true,
    )
    .unwrap();
    assert_eq!(crates, ["foo:1.3.5", "include-me"]);
}

#[test]
fn get_crates_from_path() {
    let cargo_toml = r#"dependencies = {some-crate = { path = "some-crate" }}"#;
    let cargo_lock = r#"[[package]]
name = "some-crate"
version="1.3.2"
[[package]]
name = "some-crate"
version = "1.3.6""#;
    let crates = get_crates(cargo_toml, cargo_lock, &[], &[], true).unwrap();
    assert_eq!(crates, ["some-crate:1.3.6"]);
}

#[test]
fn get_version_from_git() {
    let cargo_toml = r#"dependencies = {libc = { git = "https://github.com/rust-lang/libc" }}"#;
    let cargo_lock = r#"[[package]]
name = "libc"
version = "0.2.43"
source = "git+https://github.com/rust-lang/libc#9c5e70ae306463a23ec02179ac2c9fe05c3fb44e"
"#;
    let crates = get_crates(cargo_toml, cargo_lock, &[], &[], true).unwrap();
    assert_eq!(crates, ["libc:0.2.43"]);
}

#[test]
fn get_crates_buildtime_table_included_and_skipped() {
    let cargo_toml = r#"
[dependencies]
foo = "1.2"

[build-dependencies]
bar = "0.3"
"#;
    let cargo_lock = r#"[[package]]
name = "foo"
version = "1.2.9"
[[package]]
name = "bar"
version = "0.3.1""#;
    let with_build = get_crates(cargo_toml, cargo_lock, &[], &[], true).unwrap();
    assert_eq!(with_build, ["foo:1.2.9", "bar:0.3.1"]);
    let without_build = get_crates(cargo_toml, cargo_lock, &[], &[], false).unwrap();
    assert_eq!(without_build, ["foo:1.2.9"]);
}

#[test]
fn get_crates_empty_manifest_has_no_targets() {
    let cargo_lock = r#"[[package]]
name = "foo"
version = "1.0.0""#;
    let crates = get_crates("", cargo_lock, &[], &[], true).unwrap();
    assert!(crates.is_empty());
}

#[test]
fn get_crates_missing_dependency_degrades_to_bare_name() {
    let cargo_toml = r#"dependencies = {ghost-crate = "2.0"}"#;
    let cargo_lock = r#"[[package]]
name = "foo"
version = "1.0.0""#;
    let crates = get_crates(cargo_toml, cargo_lock, &[], &[], true).unwrap();
    assert_eq!(crates, ["ghost-crate"]);
}

#[test]
fn get_crates_nonmatching_versions_are_filtered_out() {
    let cargo_toml = r#"dependencies = {foo = "1.2.0"}"#;
    let cargo_lock = r#"[[package]]
name = "foo"
version = "0.9.0""#;
    let crates = get_crates(cargo_toml, cargo_lock, &[], &[], true).unwrap();
    assert_eq!(crates, ["foo"]);
}

#[test]
fn get_crates_wildcard_version_string() {
    let cargo_toml = r#"dependencies = {foo = "*"}"#;
    let cargo_lock = r#"[[package]]
name = "foo"
version = "0.1.0"
[[package]]
name = "foo"
version = "2.5.1""#;
    let crates = get_crates(cargo_toml, cargo_lock, &[], &[], true).unwrap();
    assert_eq!(crates, ["foo:2.5.1"]);
}

#[test]
fn get_crates_rename_is_looked_up_under_override() {
    // The manifest key exists in the lock too, but under a lower version:
    // the override decides both the lookup and the displayed name.
    let cargo_toml = r#"dependencies = {alias = {package = "real-name", version = "0.2"}}"#;
    let cargo_lock = r#"[[package]]
name = "alias"
version = "9.9.9"
[[package]]
name = "real-name"
version = "0.2.7""#;
    let crates = get_crates(cargo_toml, cargo_lock, &[], &[], true).unwrap();
    assert_eq!(crates, ["real-name:0.2.7"]);
}

#[test]
fn get_crates_manifest_syntax_error() {
    let err = get_crates("dependencies = {", "[[package]]\nname=\"a\"\nversion=\"1.0.0\"", &[], &[], true)
        .unwrap_err();
    assert!(matches!(err, makedocs::model::Error::ManifestSyntax));
}

#[test]
fn get_crates_lock_without_package_record_is_refused() {
    let err = get_crates(r#"dependencies = {foo = "1.0"}"#, "", &[], &[], true).unwrap_err();
    assert!(matches!(err, makedocs::model::Error::LockSyntax));
}

#[test]
fn get_crates_lock_with_bad_version_is_refused() {
    let cargo_lock = r#"[[package]]
name = "foo"
version = "not-a-version""#;
    let err = get_crates(r#"dependencies = {foo = "1.0"}"#, cargo_lock, &[], &[], true).unwrap_err();
    assert!(matches!(err, makedocs::model::Error::LockSyntax));
}

#[test]
fn get_crates_invalid_spec_names_the_key() {
    let cargo_toml = r#"dependencies = {broken = {optional = true}}"#;
    let cargo_lock = r#"[[package]]
name = "broken"
version = "1.0.0""#;
    let err = get_crates(cargo_toml, cargo_lock, &[], &[], true).unwrap_err();
    match err {
        makedocs::model::Error::InvalidSpec { key } => assert_eq!(key, "broken"),
        other => panic!("expected an invalid-spec error, got {:?}", other),
    }
}

#[test]
fn get_crates_invalid_value_names_the_key() {
    let cargo_toml = r#"dependencies = {odd = 17}"#;
    let cargo_lock = r#"[[package]]
name = "odd"
version = "1.0.0""#;
    let err = get_crates(cargo_toml, cargo_lock, &[], &[], true).unwrap_err();
    match err {
        makedocs::model::Error::InvalidValue { key } => assert_eq!(key, "odd"),
        other => panic!("expected an invalid-value error, got {:?}", other),
    }
}

#[test]
fn get_crates_invalid_constraint_names_the_key() {
    let cargo_toml = r#"dependencies = {foo = "definitely not a range"}"#;
    let cargo_lock = r#"[[package]]
name = "foo"
version = "1.0.0""#;
    let err = get_crates(cargo_toml, cargo_lock, &[], &[], true).unwrap_err();
    match err {
        makedocs::model::Error::InvalidConstraint { key } => assert_eq!(key, "foo"),
        other => panic!("expected an invalid-constraint error, got {:?}", other),
    }
}

#[test]
fn get_crates_excluded_invalid_entry_raises_no_error() {
    // Exclusion is applied before the declaration is examined.
    let cargo_toml = r#"dependencies = {broken = {optional = true}, foo = "1.0"}"#;
    let cargo_lock = r#"[[package]]
name = "foo"
version = "1.0.4""#;
    let crates = get_crates(cargo_toml, cargo_lock, &["broken"], &[], true).unwrap();
    assert_eq!(crates, ["foo:1.0.4"]);
}
