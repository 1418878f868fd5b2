//! The version reconciler: given a dependency's lookup name and
//! constraint, select the best pinned version the lock pool offers.
//!
//! Policy: among the pool entries with that name whose version satisfies
//! the constraint, the highest version wins. When none satisfies it, the
//! outcome is a bare, versionless target and a warning — a deliberate
//! degrade, not an error.

use vstd::prelude::*;
use vstd::string::StringExecFns;

use crate::model::{constraint_sat, Constraint, ConstraintV, LockEntryV, LockPool, Target, TargetV};
use crate::strutil::str_eq;
use crate::versions::{req_matches, req_valid, version_le, version_le_exec, version_valid};

verus! {

/// The versions of the pool entries named `name` that satisfy `c`, in
/// pool order.
pub open spec fn matching_versions(
    pool: Seq<LockEntryV>,
    name: Seq<char>,
    c: ConstraintV,
) -> Seq<Seq<char>>
    decreases pool.len(),
{
    if pool.len() == 0 {
        Seq::empty()
    } else {
        let rest = matching_versions(pool.drop_last(), name, c);
        if pool.last().name == name && constraint_sat(c, pool.last().version) {
            rest.push(pool.last().version)
        } else {
            rest
        }
    }
}

/// Every version pinned under `name`, in pool order.
pub open spec fn versions_of(pool: Seq<LockEntryV>, name: Seq<char>) -> Seq<Seq<char>>
    decreases pool.len(),
{
    if pool.len() == 0 {
        Seq::empty()
    } else {
        let rest = versions_of(pool.drop_last(), name);
        if pool.last().name == name {
            rest.push(pool.last().version)
        } else {
            rest
        }
    }
}

/// What reconciliation promises. The target always carries the requested
/// name. With no satisfying entry, it is versionless and a warning is
/// raised; otherwise it carries a satisfying version at least as high as
/// every other satisfying version, and no warning.
pub open spec fn reconcile_post(
    pool: Seq<LockEntryV>,
    name: Seq<char>,
    c: ConstraintV,
    t: TargetV,
    warned: bool,
) -> bool {
    let cands = matching_versions(pool, name, c);
    &&& t.name == name
    &&& match t.version {
        None => cands.len() == 0 && warned,
        Some(v) => {
            &&& !warned
            &&& cands.contains(v)
            &&& forall|j: int| 0 <= j < cands.len() ==> version_le(cands[j], v)
        },
    }
}

proof fn lemma_matching_versions_valid(pool: Seq<LockEntryV>, name: Seq<char>, c: ConstraintV)
    requires
        forall|i: int| 0 <= i < pool.len() ==> version_valid(pool[i].version),
    ensures
        forall|j: int|
            #![auto]
            0 <= j < matching_versions(pool, name, c).len() ==> version_valid(
                matching_versions(pool, name, c)[j],
            ),
    decreases pool.len(),
{
    if pool.len() > 0 {
        assert(forall|i: int|
            0 <= i < pool.drop_last().len() ==> version_valid(pool.drop_last()[i].version));
        lemma_matching_versions_valid(pool.drop_last(), name, c);
        let rest = matching_versions(pool.drop_last(), name, c);
        let mv = matching_versions(pool, name, c);
        assert(version_valid(pool[pool.len() - 1].version));
        assert forall|j: int| 0 <= j < mv.len() implies version_valid(mv[j]) by {
            if pool.last().name == name && constraint_sat(c, pool.last().version) {
                if j < rest.len() {
                    assert(mv[j] == rest[j]);
                } else {
                    assert(mv[j] == pool.last().version);
                }
            } else {
                assert(mv[j] == rest[j]);
            }
        }
    }
}

/// The index of a highest version among `cands`.
fn max_index(cands: &Vec<String>) -> (m: usize)
    requires
        cands@.len() > 0,
        forall|k: int| 0 <= k < cands@.len() ==> version_valid(cands@[k]@),
    ensures
        m < cands@.len(),
        forall|k: int| 0 <= k < cands@.len() ==> version_le(cands@[k]@, cands@[m as int]@),
{
    let mut m: usize = 0;
    let mut j: usize = 0;
    while j < cands.len()
        invariant
            m < cands@.len(),
            j <= cands@.len(),
            forall|k: int| 0 <= k < cands@.len() ==> version_valid(cands@[k]@),
            forall|k: int| 0 <= k < j ==> version_le(cands@[k]@, cands@[m as int]@),
        decreases cands@.len() - j,
    {
        let le = version_le_exec(cands[j].as_str(), cands[m].as_str());
        if !le {
            // Comparing the new champion with itself settles that it is
            // at least itself, whatever the order's internals.
            let _refl = version_le_exec(cands[j].as_str(), cands[j].as_str());
            proof {
                assert(version_le(cands@[j as int]@, cands@[j as int]@));
                assert(version_le(cands@[m as int]@, cands@[j as int]@));
                assert(forall|k: int|
                    0 <= k < j ==> version_le(cands@[k]@, cands@[j as int]@));
            }
            m = j;
        }
        j += 1;
    }
    m
}

/// Reconcile one dependency against the lock pool. Returns the resolved
/// target and whether a not-found warning was raised.
pub fn reconcile(pool: &LockPool, name: &str, constraint: &Constraint) -> (r: (Target, bool))
    requires
        pool.wf(),
        constraint@ matches ConstraintV::Req(s) ==> req_valid(s),
    ensures
        reconcile_post(pool@, name@, constraint@, r.0@, r.1),
{
    let n = pool.entries.len();
    let mut cands: Vec<String> = Vec::new();
    let mut i: usize = 0;
    while i < n
        invariant
            pool.wf(),
            n == pool.entries@.len(),
            i <= n,
            constraint@ matches ConstraintV::Req(s) ==> req_valid(s),
            cands@.map_values(|s: String| s@) == matching_versions(
                pool@.take(i as int),
                name@,
                constraint@,
            ),
        decreases n - i,
    {
        let ghost pre = cands@.map_values(|s: String| s@);
        let e = &pool.entries[i];
        assert(pool@[i as int] == pool.entries@[i as int]@);
        let hit = if str_eq(e.name.as_str(), name) {
            match constraint {
                Constraint::Any => true,
                Constraint::Req(r) => req_matches(r.as_str(), e.version.as_str()),
            }
        } else {
            false
        };
        if hit {
            cands.push(e.version.clone());
        }
        proof {
            assert(pool@.take(i as int + 1).drop_last() =~= pool@.take(i as int));
            assert(pool@.take(i as int + 1).last() == pool@[i as int]);
            if hit {
                assert(cands@.map_values(|s: String| s@) =~= pre.push(pool@[i as int].version));
            }
        }
        i += 1;
    }
    proof {
        assert(pool@.take(n as int) =~= pool@);
    }
    let ghost cs = matching_versions(pool@, name@, constraint@);
    if cands.len() == 0 {
        (Target { name: String::from_str(name), version: None }, true)
    } else {
        proof {
            lemma_matching_versions_valid(pool@, name@, constraint@);
            assert(forall|k: int| 0 <= k < cands@.len() ==> cands@.map_values(
                |s: String| s@,
            )[k] == cands@[k]@);
        }
        let m = max_index(&cands);
        let v = cands[m].clone();
        proof {
            assert(cs.contains(v@)) by {
                assert(cs[m as int] == v@);
            }
        }
        (Target { name: String::from_str(name), version: Some(v) }, false)
    }
}

/// Law: when exactly one pool entry satisfies the constraint, the
/// reconciled target carries exactly that entry's version.
pub proof fn lemma_reconcile_single(
    pool: Seq<LockEntryV>,
    name: Seq<char>,
    c: ConstraintV,
    t: TargetV,
    warned: bool,
)
    requires
        reconcile_post(pool, name, c, t, warned),
        matching_versions(pool, name, c).len() == 1,
    ensures
        t.name == name,
        t.version == Some(matching_versions(pool, name, c)[0]),
{
    let cands = matching_versions(pool, name, c);
    match t.version {
        Some(v) => {
            assert(cands.contains(v));
            let i = choose|i: int| 0 <= i < cands.len() && cands[i] == v;
            assert(i == 0);
        },
        None => {
            assert(false);
        },
    }
}

/// Law: with at least one satisfying entry, the reconciled version is at
/// least every satisfying version.
pub proof fn lemma_reconcile_highest(
    pool: Seq<LockEntryV>,
    name: Seq<char>,
    c: ConstraintV,
    t: TargetV,
    warned: bool,
)
    requires
        reconcile_post(pool, name, c, t, warned),
        matching_versions(pool, name, c).len() > 0,
    ensures
        t.version matches Some(v) && (forall|j: int|
            0 <= j < matching_versions(pool, name, c).len() ==> version_le(
                matching_versions(pool, name, c)[j],
                v,
            )),
{
    match t.version {
        Some(_) => {},
        None => {
            assert(false);
        },
    }
}

proof fn lemma_wildcard_matches_all(pool: Seq<LockEntryV>, name: Seq<char>)
    ensures
        matching_versions(pool, name, ConstraintV::Any) == versions_of(pool, name),
    decreases pool.len(),
{
    if pool.len() > 0 {
        lemma_wildcard_matches_all(pool.drop_last(), name);
    }
}

/// Law: under the wildcard constraint, the reconciled version is present
/// under the queried name and at least every version pinned under it,
/// whatever those versions are.
pub proof fn lemma_reconcile_wildcard(
    pool: Seq<LockEntryV>,
    name: Seq<char>,
    t: TargetV,
    warned: bool,
)
    requires
        reconcile_post(pool, name, ConstraintV::Any, t, warned),
        versions_of(pool, name).len() > 0,
    ensures
        t.version matches Some(v) && versions_of(pool, name).contains(v) && (forall|j: int|
            0 <= j < versions_of(pool, name).len() ==> version_le(versions_of(pool, name)[j], v)),
{
    lemma_wildcard_matches_all(pool, name);
    match t.version {
        Some(_) => {},
        None => {
            assert(false);
        },
    }
}

} // verus!
