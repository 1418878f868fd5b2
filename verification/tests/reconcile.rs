use makedocs::model::{Constraint, LockEntry, LockPool, Target};
use makedocs::reconcile::reconcile;

fn pool_of(pairs: &[(&str, &str)]) -> LockPool {
    let mut entries = Vec::new();
    for (name, version) in pairs {
        entries.push(LockEntry { name: name.to_string(), version: version.to_string() });
    }
    LockPool { entries }
}

fn rendered(t: &Target) -> String {
    t.rendered()
}

#[test]
fn reconcile_single_satisfying_entry_is_returned_exactly() {
    let pool = pool_of(&[("foo", "1.2.3"), ("bar", "0.4.0")]);
    let (target, warned) = reconcile(&pool, "foo", &Constraint::Req("1.2".to_string()));
    assert!(!warned);
    assert_eq!(rendered(&target), "foo:1.2.3");
}

#[test]
fn reconcile_picks_highest_of_several_satisfying() {
    let pool = pool_of(&[("foo", "1.2.3"), ("foo", "1.9.0"), ("foo", "1.4.7")]);
    let (target, warned) = reconcile(&pool, "foo", &Constraint::Req("1.2".to_string()));
    assert!(!warned);
    assert_eq!(rendered(&target), "foo:1.9.0");
}

#[test]
fn reconcile_picks_highest_whatever_the_pool_order() {
    let ascending = pool_of(&[("foo", "1.3.2"), ("foo", "1.3.6")]);
    let descending = pool_of(&[("foo", "1.3.6"), ("foo", "1.3.2")]);
    let (a, _) = reconcile(&ascending, "foo", &Constraint::Any);
    let (d, _) = reconcile(&descending, "foo", &Constraint::Any);
    assert_eq!(rendered(&a), "foo:1.3.6");
    assert_eq!(rendered(&d), "foo:1.3.6");
}

#[test]
fn reconcile_wildcard_returns_highest_across_major_lines() {
    let pool = pool_of(&[("foo", "0.2.0"), ("foo", "2.0.1"), ("foo", "1.9.9")]);
    let (target, warned) = reconcile(&pool, "foo", &Constraint::Any);
    assert!(!warned);
    assert_eq!(rendered(&target), "foo:2.0.1");
}

#[test]
fn reconcile_constraint_filters_before_picking() {
    // 2.0.1 is the highest version present, but the range keeps it out.
    let pool = pool_of(&[("foo", "1.4.0"), ("foo", "2.0.1"), ("foo", "1.2.0")]);
    let (target, warned) = reconcile(&pool, "foo", &Constraint::Req("1.2".to_string()));
    assert!(!warned);
    assert_eq!(rendered(&target), "foo:1.4.0");
}

#[test]
fn reconcile_absent_name_degrades_to_bare_target_with_warning() {
    let pool = pool_of(&[("bar", "1.0.0")]);
    let (target, warned) = reconcile(&pool, "foo", &Constraint::Any);
    assert!(warned);
    assert_eq!(rendered(&target), "foo");
    assert!(target.version.is_none());
}

#[test]
fn reconcile_matches_by_exact_name_only() {
    let pool = pool_of(&[("foobar", "1.0.0"), ("foo-bar", "1.0.0")]);
    let (target, warned) = reconcile(&pool, "foo", &Constraint::Any);
    assert!(warned);
    assert_eq!(rendered(&target), "foo");
}

#[test]
fn target_rendering_with_and_without_version() {
    let with = Target { name: "foo".to_string(), version: Some("1.0.0".to_string()) };
    let without = Target { name: "foo".to_string(), version: None };
    assert_eq!(with.rendered(), "foo:1.0.0");
    assert_eq!(without.rendered(), "foo");
}
