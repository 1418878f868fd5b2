//! The dependency set resolver: walk a manifest's dependency tables,
//! apply the exclusion set, resolve renames, reconcile each entry against
//! the lock pool, and append the caller's extra names verbatim.

use vstd::prelude::*;
use vstd::string::StringExecFns;

use crate::extract::{lock_spec, manifest_spec};
use crate::model::{
    dep_constraint, dep_display, dep_table_view, render_target, Constraint, ConstraintV, DepSpec,
    DepSpecV, Error, ErrorV, LockEntryV, LockPool, Manifest, ManifestV, Target, TargetV,
};
use crate::reconcile::{matching_versions, reconcile, reconcile_post};
use crate::strutil::{is_wildcard, str_eq};
use crate::versions::{check_req, req_valid};

verus! {

/// The one table resolution walks: the direct table, with the build-time
/// table appended when build-time dependencies are taken in.
pub open spec fn merged_entries(m: ManifestV, buildtime: bool) -> Seq<(Seq<char>, DepSpecV)> {
    if buildtime {
        m.dependencies + m.build_dependencies
    } else {
        m.dependencies
    }
}

/// The entries that survive the exclusion set, in table order.
pub open spec fn kept_entries(
    es: Seq<(Seq<char>, DepSpecV)>,
    excluded: Seq<Seq<char>>,
) -> Seq<(Seq<char>, DepSpecV)>
    decreases es.len(),
{
    if es.len() == 0 {
        Seq::empty()
    } else {
        let rest = kept_entries(es.drop_last(), excluded);
        if excluded.contains(es.last().0) {
            rest
        } else {
            rest.push(es.last())
        }
    }
}

/// The constraint an error-free declaration asks for.
pub open spec fn entry_constraint(s: DepSpecV) -> ConstraintV {
    match dep_constraint(s) {
        Some(c) => c,
        None => ConstraintV::Any,
    }
}

/// What is wrong with one declaration, if anything: it carries none of
/// version, path and version-control source; or its constraint is not a
/// well-formed range expression.
pub open spec fn entry_error(k: Seq<char>, s: DepSpecV) -> Option<ErrorV> {
    match dep_constraint(s) {
        None => Some(ErrorV::InvalidSpec { key: k }),
        Some(ConstraintV::Any) => None,
        Some(ConstraintV::Req(r)) => if req_valid(r) {
            None
        } else {
            Some(ErrorV::InvalidConstraint { key: k })
        },
    }
}

/// The first faulty entry's error, in table order.
pub open spec fn first_entry_error(es: Seq<(Seq<char>, DepSpecV)>) -> Option<ErrorV>
    decreases es.len(),
{
    if es.len() == 0 {
        None
    } else {
        match entry_error(es[0].0, es[0].1) {
            Some(e) => Some(e),
            None => first_entry_error(es.drop_first()),
        }
    }
}

/// The display names of the kept entries the lock pool cannot satisfy, in
/// table order: the warnings resolution raises.
pub open spec fn missing_names(
    pool: Seq<LockEntryV>,
    es: Seq<(Seq<char>, DepSpecV)>,
) -> Seq<Seq<char>>
    decreases es.len(),
{
    if es.len() == 0 {
        Seq::empty()
    } else {
        let rest = missing_names(pool, es.drop_last());
        let name = dep_display(es.last().0, es.last().1);
        if matching_versions(pool, name, entry_constraint(es.last().1)).len() == 0 {
            rest.push(name)
        } else {
            rest
        }
    }
}

/// What a resolved target list promises: one reconciled target per kept
/// entry, in order, then the extra names verbatim, versionless and
/// without any lock lookup.
pub open spec fn resolve_targets_post(
    pool: Seq<LockEntryV>,
    ks: Seq<(Seq<char>, DepSpecV)>,
    extra: Seq<Seq<char>>,
    targets: Seq<TargetV>,
) -> bool {
    &&& targets.len() == ks.len() + extra.len()
    &&& forall|i: int|
        0 <= i < ks.len() ==> reconcile_post(
            pool,
            dep_display(ks[i].0, ks[i].1),
            entry_constraint(ks[i].1),
            targets[i],
            matching_versions(
                pool,
                dep_display(ks[i].0, ks[i].1),
                entry_constraint(ks[i].1),
            ).len() == 0,
        )
    &&& forall|i: int|
        0 <= i < extra.len() ==> targets[ks.len() + i] == (TargetV {
            name: extra[i],
            version: None,
        })
}

/// What dependency set resolution promises: the first faulty kept entry's
/// error, or the resolved targets beside the warnings, one per kept entry
/// the pool cannot satisfy.
pub open spec fn resolve_post(
    m: ManifestV,
    pool: Seq<LockEntryV>,
    excluded: Seq<Seq<char>>,
    extra: Seq<Seq<char>>,
    buildtime: bool,
    r: Result<(Seq<TargetV>, Seq<Seq<char>>), ErrorV>,
) -> bool {
    let ks = kept_entries(merged_entries(m, buildtime), excluded);
    match first_entry_error(ks) {
        Some(e) => r == Err::<(Seq<TargetV>, Seq<Seq<char>>), ErrorV>(e),
        None => match r {
            Ok((targets, warns)) => resolve_targets_post(pool, ks, extra, targets) && warns
                == missing_names(pool, ks),
            Err(_) => false,
        },
    }
}

proof fn lemma_kept_concat(a: Seq<(Seq<char>, DepSpecV)>, b: Seq<(Seq<char>, DepSpecV)>, ex: Seq<Seq<char>>)
    ensures
        kept_entries(a + b, ex) == kept_entries(a, ex) + kept_entries(b, ex),
    decreases b.len(),
{
    if b.len() == 0 {
        assert(a + b =~= a);
        assert(kept_entries(a, ex) + kept_entries(b, ex) =~= kept_entries(a, ex));
    } else {
        assert((a + b).drop_last() =~= a + b.drop_last());
        lemma_kept_concat(a, b.drop_last(), ex);
        assert((a + b).last() == b.last());
        if !ex.contains(b.last().0) {
            assert(kept_entries(a, ex) + kept_entries(b.drop_last(), ex).push(b.last()) =~= (
            kept_entries(a, ex) + kept_entries(b.drop_last(), ex)).push(b.last()));
        }
    }
}

proof fn lemma_missing_concat(
    pool: Seq<LockEntryV>,
    a: Seq<(Seq<char>, DepSpecV)>,
    b: Seq<(Seq<char>, DepSpecV)>,
)
    ensures
        missing_names(pool, a + b) == missing_names(pool, a) + missing_names(pool, b),
    decreases b.len(),
{
    if b.len() == 0 {
        assert(a + b =~= a);
        assert(missing_names(pool, a) + missing_names(pool, b) =~= missing_names(pool, a));
    } else {
        assert((a + b).drop_last() =~= a + b.drop_last());
        lemma_missing_concat(pool, a, b.drop_last());
        assert((a + b).last() == b.last());
        let name = dep_display(b.last().0, b.last().1);
        if matching_versions(pool, name, entry_constraint(b.last().1)).len() == 0 {
            assert(missing_names(pool, a) + missing_names(pool, b.drop_last()).push(name) =~= (
            missing_names(pool, a) + missing_names(pool, b.drop_last())).push(name));
        }
    }
}

proof fn lemma_first_error_concat(a: Seq<(Seq<char>, DepSpecV)>, b: Seq<(Seq<char>, DepSpecV)>)
    ensures
        first_entry_error(a + b) == if first_entry_error(a) is Some {
            first_entry_error(a)
        } else {
            first_entry_error(b)
        },
    decreases a.len(),
{
    if a.len() == 0 {
        assert(a + b =~= b);
    } else {
        assert((a + b)[0] == a[0]);
        assert((a + b).drop_first() =~= a.drop_first() + b);
        lemma_first_error_concat(a.drop_first(), b);
    }
}

proof fn lemma_first_error_push(es: Seq<(Seq<char>, DepSpecV)>, entry: (Seq<char>, DepSpecV))
    requires
        first_entry_error(es) is None,
    ensures
        first_entry_error(es.push(entry)) == entry_error(entry.0, entry.1),
    decreases es.len(),
{
    if es.len() == 0 {
        assert(es.push(entry)[0] == entry);
        assert(es.push(entry).drop_first() =~= Seq::<(Seq<char>, DepSpecV)>::empty());
        assert(first_entry_error(es.push(entry).drop_first()) is None);
    } else {
        assert(es.push(entry)[0] == es[0]);
        assert(entry_error(es[0].0, es[0].1) is None);
        assert(first_entry_error(es.drop_first()) is None);
        assert(es.push(entry).drop_first() =~= es.drop_first().push(entry));
        lemma_first_error_push(es.drop_first(), entry);
        assert(first_entry_error(es.push(entry)) == first_entry_error(
            es.drop_first().push(entry),
        ));
    }
}

/// Resolve one dependency table against the pool, appending the targets
/// to `out` and the warnings to `warns`.
fn resolve_entries(
    entries: &Vec<(String, DepSpec)>,
    pool: &LockPool,
    excluded: &Vec<String>,
    out: &mut Vec<Target>,
    warns: &mut Vec<String>,
) -> (r: Result<(), Error>)
    requires
        pool.wf(),
    ensures
        ({
            let ks = kept_entries(dep_table_view(entries@), excluded.deep_view());
            match r {
                Ok(_) => {
                    &&& first_entry_error(ks) is None
                    &&& final(out)@.len() == old(out)@.len() + ks.len()
                    &&& (forall|i: int| 0 <= i < old(out)@.len() ==> final(out)@[i] == old(out)@[i])
                    &&& (forall|i: int|
                        0 <= i < ks.len() ==> reconcile_post(
                            pool@,
                            dep_display(ks[i].0, ks[i].1),
                            entry_constraint(ks[i].1),
                            final(out)@[old(out)@.len() + i]@,
                            matching_versions(
                                pool@,
                                dep_display(ks[i].0, ks[i].1),
                                entry_constraint(ks[i].1),
                            ).len() == 0,
                        ))
                    &&& final(warns).deep_view() == old(warns).deep_view() + missing_names(
                        pool@,
                        ks,
                    )
                },
                Err(e) => first_entry_error(ks) == Some(e@),
            }
        }),
{
    let ghost base = out@.len();
    let ghost wbase = warns.deep_view();
    let ghost tv = dep_table_view(entries@);
    let ghost ex = excluded.deep_view();
    let n = entries.len();
    let mut i: usize = 0;
    proof {
        assert(kept_entries(tv.take(0), ex) =~= Seq::<(Seq<char>, DepSpecV)>::empty());
        assert(warns.deep_view() =~= wbase + missing_names(pool@, kept_entries(tv.take(0), ex)));
    }
    while i < n
        invariant
            pool.wf(),
            n == entries@.len(),
            i <= n,
            tv == dep_table_view(entries@),
            ex == excluded.deep_view(),
            tv.len() == n,
            forall|k: int| 0 <= k < n ==> tv[k] == (entries@[k].0@, entries@[k].1@),
            base == old(out)@.len(),
            wbase == old(warns).deep_view(),
            base <= out@.len(),
            first_entry_error(kept_entries(tv.take(i as int), ex)) is None,
            out@.len() == base + kept_entries(tv.take(i as int), ex).len(),
            forall|k: int| 0 <= k < base ==> out@[k] == old(out)@[k],
            forall|k: int|
                0 <= k < kept_entries(tv.take(i as int), ex).len() ==> reconcile_post(
                    pool@,
                    dep_display(
                        kept_entries(tv.take(i as int), ex)[k].0,
                        kept_entries(tv.take(i as int), ex)[k].1,
                    ),
                    entry_constraint(kept_entries(tv.take(i as int), ex)[k].1),
                    out@[base + k]@,
                    matching_versions(
                        pool@,
                        dep_display(
                            kept_entries(tv.take(i as int), ex)[k].0,
                            kept_entries(tv.take(i as int), ex)[k].1,
                        ),
                        entry_constraint(kept_entries(tv.take(i as int), ex)[k].1),
                    ).len() == 0,
                ),
            warns.deep_view() == wbase + missing_names(pool@, kept_entries(tv.take(i as int), ex)),
        decreases n - i,
    {
        let ghost ks_pre = kept_entries(tv.take(i as int), ex);
        let key = &entries[i].0;
        let skipped = contains_str(excluded, key.as_str());
        proof {
            assert(tv.take(i as int + 1).drop_last() =~= tv.take(i as int));
            assert(tv.take(i as int + 1).last() == tv[i as int]);
        }
        if !skipped {
            // The name the entry is looked up under and displayed as.
            let display: String = match &entries[i].1 {
                DepSpec::Detailed { package: Some(p), .. } => p.clone(),
                _ => key.clone(),
            };
            // The constraint it asks for, or what is wrong with it.
            let constraint: Constraint = match &entries[i].1 {
                DepSpec::Plain(v) => {
                    if is_wildcard(v.as_str()) {
                        Constraint::Any
                    } else if check_req(v.as_str()) {
                        Constraint::Req(v.clone())
                    } else {
                        proof {
                            lemma_first_error_push(ks_pre, tv[i as int]);
                            lemma_error_prefix(tv, ex, i as int + 1);
                        }
                        return Err(Error::InvalidConstraint { key: key.clone() });
                    }
                },
                DepSpec::Detailed { version: Some(v), .. } => {
                    if is_wildcard(v.as_str()) {
                        Constraint::Any
                    } else if check_req(v.as_str()) {
                        Constraint::Req(v.clone())
                    } else {
                        proof {
                            lemma_first_error_push(ks_pre, tv[i as int]);
                            lemma_error_prefix(tv, ex, i as int + 1);
                        }
                        return Err(Error::InvalidConstraint { key: key.clone() });
                    }
                },
                DepSpec::Detailed { version: None, path, vcs, .. } => {
                    if *path || *vcs {
                        Constraint::Any
                    } else {
                        proof {
                            lemma_first_error_push(ks_pre, tv[i as int]);
                            lemma_error_prefix(tv, ex, i as int + 1);
                        }
                        return Err(Error::InvalidSpec { key: key.clone() });
                    }
                },
            };
            proof {
                assert(display@ == dep_display(tv[i as int].0, tv[i as int].1));
                assert(constraint@ == entry_constraint(tv[i as int].1));
                assert(entry_error(tv[i as int].0, tv[i as int].1) is None);
                lemma_first_error_push(ks_pre, tv[i as int]);
            }
            let (t, warned) = reconcile(pool, display.as_str(), &constraint);
            let ghost dname = display@;
            let ghost wpre = warns.deep_view();
            out.push(t);
            if warned {
                warns.push(display);
            }
            proof {
                let ks_now = kept_entries(tv.take(i as int + 1), ex);
                assert(ks_now == ks_pre.push(tv[i as int]));
                assert(ks_now.drop_last() =~= ks_pre);
                assert(forall|k: int| 0 <= k < ks_pre.len() ==> ks_now[k] == ks_pre[k]);
                assert(ks_now[ks_pre.len() as int] == tv[i as int]);
                assert(dep_display(tv[i as int].0, tv[i as int].1) == dname);
                assert(warned == (matching_versions(
                    pool@,
                    dname,
                    entry_constraint(tv[i as int].1),
                ).len() == 0));
                assert(wpre == wbase + missing_names(pool@, ks_pre));
                if warned {
                    assert(missing_names(pool@, ks_now) =~= missing_names(pool@, ks_pre).push(
                        dname,
                    ));
                    assert(warns.deep_view() =~= wpre.push(dname));
                } else {
                    assert(missing_names(pool@, ks_now) =~= missing_names(pool@, ks_pre));
                    assert(warns.deep_view() == wpre);
                }
                assert(warns.deep_view() =~= wbase + missing_names(pool@, ks_now));
            }
        }
        i += 1;
    }
    proof {
        assert(tv.take(n as int) =~= tv);
    }
    Ok(())
}

/// A fault-free kept prefix passes the error on from the rest.
proof fn lemma_error_prefix(tv: Seq<(Seq<char>, DepSpecV)>, ex: Seq<Seq<char>>, i: int)
    requires
        0 <= i <= tv.len(),
    ensures
        kept_entries(tv, ex) == kept_entries(tv.take(i), ex) + kept_entries(tv.skip(i), ex),
        first_entry_error(kept_entries(tv, ex)) == if first_entry_error(
            kept_entries(tv.take(i), ex),
        ) is Some {
            first_entry_error(kept_entries(tv.take(i), ex))
        } else {
            first_entry_error(kept_entries(tv.skip(i), ex))
        },
{
    assert(tv =~= tv.take(i) + tv.skip(i));
    lemma_kept_concat(tv.take(i), tv.skip(i), ex);
    lemma_first_error_concat(kept_entries(tv.take(i), ex), kept_entries(tv.skip(i), ex));
}

/// Whether `s` is one of the strings in `v`.
fn contains_str(v: &Vec<String>, s: &str) -> (r: bool)
    ensures
        r == v.deep_view().contains(s@),
{
    let n = v.len();
    let mut i: usize = 0;
    while i < n
        invariant
            n == v@.len(),
            i <= n,
            forall|k: int| 0 <= k < i ==> v.deep_view()[k] != s@,
        decreases n - i,
    {
        if str_eq(v[i].as_str(), s) {
            assert(v.deep_view()[i as int] == s@);
            return true;
        }
        i += 1;
    }
    assert(forall|k: int| 0 <= k < v.deep_view().len() ==> v.deep_view()[k] != s@);
    false
}

/// Resolve a manifest's dependency tables against the lock pool: the
/// direct table, the build-time table when asked for, then the extra
/// names verbatim. Returns the targets and the not-found warnings.
pub fn resolve_dependencies(
    manifest: &Manifest,
    pool: &LockPool,
    excluded: &Vec<String>,
    extra: &Vec<String>,
    include_buildtime: bool,
) -> (r: Result<(Vec<Target>, Vec<String>), Error>)
    requires
        pool.wf(),
    ensures
        resolve_post(
            manifest@,
            pool@,
            excluded.deep_view(),
            extra.deep_view(),
            include_buildtime,
            match r {
                Ok(p) => Ok((p.0@.map_values(|t: Target| t@), p.1.deep_view())),
                Err(e) => Err(e@),
            },
        ),
{
    let ghost m = manifest@;
    let ghost ex = excluded.deep_view();
    let ghost merged = merged_entries(m, include_buildtime);
    let mut out: Vec<Target> = Vec::new();
    let mut warns: Vec<String> = Vec::new();
    let ghost k1 = kept_entries(m.dependencies, ex);
    proof {
        if !include_buildtime {
            assert(merged == m.dependencies);
        } else {
            lemma_kept_concat(m.dependencies, m.build_dependencies, ex);
            lemma_first_error_concat(k1, kept_entries(m.build_dependencies, ex));
            lemma_missing_concat(pool@, k1, kept_entries(m.build_dependencies, ex));
        }
    }
    let ghost k2 = kept_entries(m.build_dependencies, ex);
    let ghost ks = kept_entries(merged, ex);
    match resolve_entries(&manifest.dependencies, pool, excluded, &mut out, &mut warns) {
        Ok(_) => {},
        Err(e) => {
            proof {
                assert(first_entry_error(ks) == Some(e@));
            }
            return Err(e);
        },
    }
    let ghost out1 = out@;
    if include_buildtime {
        match resolve_entries(&manifest.build_dependencies, pool, excluded, &mut out, &mut warns) {
            Ok(_) => {},
            Err(e) => {
                proof {
                    assert(first_entry_error(ks) == Some(e@));
                }
                return Err(e);
            },
        }
    }
    proof {
        assert(first_entry_error(ks) is None);
        assert(out@.len() == ks.len());
        assert(warns.deep_view() =~= missing_names(pool@, ks));
        assert forall|i: int| 0 <= i < ks.len() implies reconcile_post(
            pool@,
            dep_display(ks[i].0, ks[i].1),
            entry_constraint(ks[i].1),
            out@[i]@,
            matching_versions(pool@, dep_display(ks[i].0, ks[i].1), entry_constraint(ks[i].1)).len()
                == 0,
        ) by {
            if include_buildtime {
                if i < k1.len() {
                    assert(ks[i] == k1[i]);
                    assert(out@[i] == out1[i]);
                } else {
                    assert(ks[i] == k2[i - k1.len()]);
                }
            } else {
                assert(ks == k1);
            }
        }
    }
    // Append the extra names verbatim: no lock lookup, no version suffix.
    let ghost out2 = out@;
    let ghost exbase = out@.len();
    let ne = extra.len();
    let mut j: usize = 0;
    while j < ne
        invariant
            ne == extra@.len(),
            j <= ne,
            exbase == out2.len(),
            out@.len() == exbase + j,
            forall|k: int| 0 <= k < exbase ==> out@[k] == out2[k],
            forall|k: int|
                0 <= k < j ==> out@[exbase + k]@ == (TargetV {
                    name: extra.deep_view()[k],
                    version: None,
                }),
        decreases ne - j,
    {
        out.push(Target { name: extra[j].clone(), version: None });
        j += 1;
    }
    proof {
        let tvw = out@.map_values(|t: Target| t@);
        assert forall|i: int| 0 <= i < ks.len() implies reconcile_post(
            pool@,
            dep_display(ks[i].0, ks[i].1),
            entry_constraint(ks[i].1),
            tvw[i],
            matching_versions(pool@, dep_display(ks[i].0, ks[i].1), entry_constraint(ks[i].1)).len()
                == 0,
        ) by {
            assert(out@[i] == out2[i]);
        }
        assert(resolve_targets_post(pool@, ks, extra.deep_view(), tvw));
    }
    Ok((out, warns))
}

/// The command-line renderings of a target list, in order.
pub open spec fn rendered_lines(targets: Seq<TargetV>) -> Seq<Seq<char>> {
    targets.map_values(|t: TargetV| render_target(t))
}

/// What `get_crates` promises: the first parse or declaration fault, or
/// the rendered targets of a resolution pass over the two documents.
pub open spec fn get_crates_post(
    toml: Seq<char>,
    lock: Seq<char>,
    excluded: Seq<Seq<char>>,
    extra: Seq<Seq<char>>,
    buildtime: bool,
    r: Result<Seq<Seq<char>>, ErrorV>,
) -> bool {
    match manifest_spec(toml) {
        Err(e) => r == Err::<Seq<Seq<char>>, ErrorV>(e),
        Ok(m) => match lock_spec(lock) {
            Err(e) => r == Err::<Seq<Seq<char>>, ErrorV>(e),
            Ok(pool) => {
                let ks = kept_entries(merged_entries(m, buildtime), excluded);
                match first_entry_error(ks) {
                    Some(e) => r == Err::<Seq<Seq<char>>, ErrorV>(e),
                    None => match r {
                        Ok(lines) => exists|targets: Seq<TargetV>|
                            resolve_targets_post(pool, ks, extra, targets) && lines
                                == rendered_lines(targets),
                        Err(_) => false,
                    },
                }
            },
        },
    }
}

fn strs_to_strings(xs: &[&str]) -> (r: Vec<String>)
    ensures
        r.deep_view() == xs.deep_view(),
{
    let n = xs.len();
    let mut r: Vec<String> = Vec::new();
    let mut i: usize = 0;
    while i < n
        invariant
            n == xs@.len(),
            i <= n,
            r@.len() == i,
            forall|k: int| 0 <= k < i ==> r@[k]@ == xs@[k]@,
        decreases n - i,
    {
        r.push(String::from_str(xs[i]));
        i += 1;
    }
    proof {
        assert forall|k: int| 0 <= k < n implies r.deep_view()[k] == xs.deep_view()[k] by {
            assert(r.deep_view()[k] == r@[k]@);
            assert(xs.deep_view()[k] == xs@[k]@);
        }
        assert(r.deep_view() =~= xs.deep_view());
    }
    r
}

/// Parse the two documents and resolve the manifest's dependencies into
/// rendered target lines, under the given exclusions and extras. The
/// warnings a resolution pass raises are not part of this summary; a
/// caller that wants them resolves through `resolve_dependencies`.
pub fn get_crates(
    toml_file: &str,
    lock_file: &str,
    excluded_crates: &[&str],
    extra_crates: &[&str],
    buildtime: bool,
) -> (r: Result<Vec<String>, Error>)
    ensures
        get_crates_post(
            toml_file@,
            lock_file@,
            excluded_crates.deep_view(),
            extra_crates.deep_view(),
            buildtime,
            match r {
                Ok(v) => Ok(v.deep_view()),
                Err(e) => Err(e@),
            },
        ),
{
    let manifest = match Manifest::parse(toml_file) {
        Ok(m) => m,
        Err(e) => {
            return Err(e);
        },
    };
    let pool = match LockPool::parse(lock_file) {
        Ok(p) => p,
        Err(e) => {
            return Err(e);
        },
    };
    let excluded = strs_to_strings(excluded_crates);
    let extra = strs_to_strings(extra_crates);
    match resolve_dependencies(&manifest, &pool, &excluded, &extra, buildtime) {
        Ok((targets, _warns)) => {
            let ghost tvw = targets@.map_values(|t: Target| t@);
            let n = targets.len();
            let mut lines: Vec<String> = Vec::new();
            let mut i: usize = 0;
            while i < n
                invariant
                    n == targets@.len(),
                    tvw == targets@.map_values(|t: Target| t@),
                    i <= n,
                    lines@.len() == i,
                    forall|k: int| 0 <= k < i ==> lines@[k]@ == render_target(tvw[k]),
                decreases n - i,
            {
                lines.push(targets[i].rendered());
                i += 1;
            }
            proof {
                assert forall|k: int| 0 <= k < n implies lines.deep_view()[k] == rendered_lines(
                    tvw,
                )[k] by {
                    assert(lines.deep_view()[k] == lines@[k]@);
                }
                assert(lines.deep_view() =~= rendered_lines(tvw));
            }
            Ok(lines)
        },
        Err(e) => Err(e),
    }
}

/// Law: an excluded name leaves no trace in the resolved targets — as
/// long as nothing else renames itself to that name and the extras do not
/// carry it, no target bears it.
pub proof fn lemma_exclude_no_trace(
    pool: Seq<LockEntryV>,
    es: Seq<(Seq<char>, DepSpecV)>,
    excluded: Seq<Seq<char>>,
    extra: Seq<Seq<char>>,
    targets: Seq<TargetV>,
    n: Seq<char>,
)
    requires
        resolve_targets_post(pool, kept_entries(es, excluded), extra, targets),
        excluded.contains(n),
        forall|i: int| 0 <= i < extra.len() ==> extra[i] != n,
        forall|i: int|
            0 <= i < es.len() ==> dep_display(es[i].0, es[i].1) != n || es[i].0 == n,
    ensures
        forall|j: int| 0 <= j < targets.len() ==> targets[j].name != n,
{
    let ks = kept_entries(es, excluded);
    lemma_kept_entries_sub(es, excluded);
    assert forall|j: int| 0 <= j < targets.len() implies targets[j].name != n by {
        if j < ks.len() {
            let entry = ks[j];
            assert(es.contains(entry) && !excluded.contains(entry.0));
            let i = choose|i: int| 0 <= i < es.len() && es[i] == entry;
            assert(targets[j].name == dep_display(entry.0, entry.1));
        } else {
            assert(targets[j] == (TargetV { name: extra[j - ks.len()], version: None }));
        }
    }
}

/// Every kept entry is a table entry whose key the exclusion set lacks.
proof fn lemma_kept_entries_sub(es: Seq<(Seq<char>, DepSpecV)>, excluded: Seq<Seq<char>>)
    ensures
        forall|i: int|
            #![auto]
            0 <= i < kept_entries(es, excluded).len() ==> es.contains(
                kept_entries(es, excluded)[i],
            ) && !excluded.contains(kept_entries(es, excluded)[i].0),
    decreases es.len(),
{
    if es.len() > 0 {
        lemma_kept_entries_sub(es.drop_last(), excluded);
        let ks = kept_entries(es, excluded);
        let rest = kept_entries(es.drop_last(), excluded);
        assert forall|i: int| 0 <= i < ks.len() implies es.contains(ks[i]) && !excluded.contains(
            ks[i].0,
        ) by {
            if i < rest.len() {
                assert(es.drop_last().contains(rest[i]));
                let k = choose|k: int| 0 <= k < es.drop_last().len() && es.drop_last()[k] == rest[i];
                assert(es[k] == rest[i]);
            } else {
                assert(ks[i] == es.last());
                assert(es[es.len() - 1] == es.last());
            }
        }
    }
}

/// Law: the extra names stand verbatim at the tail of the targets,
/// versionless, and do not depend on the lock pool at all — two passes
/// over different pools agree on that whole tail.
pub proof fn lemma_extra_verbatim(
    pool1: Seq<LockEntryV>,
    pool2: Seq<LockEntryV>,
    ks: Seq<(Seq<char>, DepSpecV)>,
    extra: Seq<Seq<char>>,
    t1: Seq<TargetV>,
    t2: Seq<TargetV>,
)
    requires
        resolve_targets_post(pool1, ks, extra, t1),
        resolve_targets_post(pool2, ks, extra, t2),
    ensures
        t1.len() == t2.len(),
        forall|i: int|
            ks.len() <= i < t1.len() ==> t1[i] == t2[i] && t1[i].version is None && t1[i].name
                == extra[i - ks.len()],
{
    assert forall|i: int|
        ks.len() <= i < t1.len() implies t1[i] == t2[i] && t1[i].version is None && t1[i].name
        == extra[i - ks.len()] by {
        let k = i - ks.len();
        assert(t1[ks.len() + k] == (TargetV { name: extra[k], version: None }));
        assert(t2[ks.len() + k] == (TargetV { name: extra[k], version: None }));
    }
}

/// Law: a declaration with a rename override is looked up under the
/// override and displayed under it.
pub proof fn lemma_rename_override(
    pool: Seq<LockEntryV>,
    ks: Seq<(Seq<char>, DepSpecV)>,
    extra: Seq<Seq<char>>,
    targets: Seq<TargetV>,
    i: int,
    p: Seq<char>,
)
    requires
        resolve_targets_post(pool, ks, extra, targets),
        0 <= i < ks.len(),
        ks[i].1 matches DepSpecV::Detailed { package: Some(q), .. } && q == p,
    ensures
        targets[i].name == p,
        reconcile_post(
            pool,
            p,
            entry_constraint(ks[i].1),
            targets[i],
            matching_versions(pool, p, entry_constraint(ks[i].1)).len() == 0,
        ),
{
    assert(dep_display(ks[i].0, ks[i].1) == p);
}

/// Law: a declaration carrying only a path marker resolves exactly as
/// under the wildcard constraint.
pub proof fn lemma_path_only_wildcard(
    pool: Seq<LockEntryV>,
    ks: Seq<(Seq<char>, DepSpecV)>,
    extra: Seq<Seq<char>>,
    targets: Seq<TargetV>,
    i: int,
)
    requires
        resolve_targets_post(pool, ks, extra, targets),
        0 <= i < ks.len(),
        ks[i].1 matches DepSpecV::Detailed { version: None, path: true, .. },
    ensures
        reconcile_post(
            pool,
            dep_display(ks[i].0, ks[i].1),
            ConstraintV::Any,
            targets[i],
            matching_versions(pool, dep_display(ks[i].0, ks[i].1), ConstraintV::Any).len() == 0,
        ),
{
    assert(entry_constraint(ks[i].1) == ConstraintV::Any);
}

} // verus!
