//! The workspace planner: one plan entry per workspace member, each
//! resolved against the shared lock pool, and one more for the root when
//! the root manifest itself declares dependencies — the root always last.
//! A manifest without a workspace yields exactly one entry, for the root.

use vstd::prelude::*;
use vstd::string::StringExecFns;

use crate::extract::{lock_spec, manifest_spec};
use crate::model::{
    opt_str_view, DepSpecV, Error, ErrorV, LockEntryV, Manifest, ManifestV, PlanEntry, PlanEntryV,
    Target,
};
use crate::resolve::{
    first_entry_error, kept_entries, merged_entries, missing_names, resolve_dependencies,
    resolve_targets_post,
};

verus! {

/// The view of a member list: each path beside its manifest text, when
/// one could be read.
pub open spec fn members_view(s: Seq<(String, Option<String>)>) -> Seq<
    (Seq<char>, Option<Seq<char>>),
> {
    s.map_values(|e: (String, Option<String>)| (e.0@, opt_str_view(e.1)))
}

/// Whether the root manifest itself declares any dependencies and so
/// earns a plan entry of its own.
pub open spec fn root_has_deps(m: ManifestV) -> bool {
    m.dependencies.len() > 0 || m.build_dependencies.len() > 0
}

/// The kept entries of one member's manifest; empty when the member's
/// manifest is missing or faulty (those members fail the plan instead).
pub open spec fn member_kept(
    e: (Seq<char>, Option<Seq<char>>),
    excluded: Seq<Seq<char>>,
    buildtime: bool,
) -> Seq<(Seq<char>, DepSpecV)> {
    match e.1 {
        Some(text) => match manifest_spec(text) {
            Ok(m) => kept_entries(merged_entries(m, buildtime), excluded),
            Err(_) => Seq::empty(),
        },
        None => Seq::empty(),
    }
}

/// What fails for one member: a missing or unparsable manifest — named
/// after the member's path — or the first faulty kept declaration in it.
pub open spec fn member_fault(
    e: (Seq<char>, Option<Seq<char>>),
    excluded: Seq<Seq<char>>,
    buildtime: bool,
) -> Option<ErrorV> {
    match e.1 {
        None => Some(ErrorV::Member { path: e.0 }),
        Some(text) => match manifest_spec(text) {
            Err(_) => Some(ErrorV::Member { path: e.0 }),
            Ok(m) => first_entry_error(kept_entries(merged_entries(m, buildtime), excluded)),
        },
    }
}

/// The first failing member's fault, in member order.
pub open spec fn first_member_fault(
    members: Seq<(Seq<char>, Option<Seq<char>>)>,
    excluded: Seq<Seq<char>>,
    buildtime: bool,
) -> Option<ErrorV>
    decreases members.len(),
{
    if members.len() == 0 {
        None
    } else {
        match member_fault(members[0], excluded, buildtime) {
            Some(e) => Some(e),
            None => first_member_fault(members.drop_first(), excluded, buildtime),
        }
    }
}

/// All the members' not-found warnings, in member order.
pub open spec fn members_missing(
    pool: Seq<LockEntryV>,
    members: Seq<(Seq<char>, Option<Seq<char>>)>,
    excluded: Seq<Seq<char>>,
    buildtime: bool,
) -> Seq<Seq<char>>
    decreases members.len(),
{
    if members.len() == 0 {
        Seq::empty()
    } else {
        members_missing(pool, members.drop_last(), excluded, buildtime) + missing_names(
            pool,
            member_kept(members.last(), excluded, buildtime),
        )
    }
}

/// What the planned entries promise in workspace mode: one per member in
/// member order, then the root's when the root declares dependencies.
pub open spec fn workspace_entries_post(
    pool: Seq<LockEntryV>,
    root_dir: Seq<char>,
    root: ManifestV,
    members: Seq<(Seq<char>, Option<Seq<char>>)>,
    excluded: Seq<Seq<char>>,
    extra: Seq<Seq<char>>,
    buildtime: bool,
    entries: Seq<PlanEntryV>,
) -> bool {
    &&& entries.len() == members.len() + if root_has_deps(root) {
        1int
    } else {
        0int
    }
    &&& forall|i: int|
        0 <= i < members.len() ==> entries[i].dir == members[i].0 && resolve_targets_post(
            pool,
            member_kept(members[i], excluded, buildtime),
            extra,
            entries[i].targets,
        )
    &&& root_has_deps(root) ==> entries[members.len() as int].dir == root_dir
        && resolve_targets_post(
        pool,
        kept_entries(merged_entries(root, buildtime), excluded),
        extra,
        entries[members.len() as int].targets,
    )
}

/// What workspace planning promises. The lock document is read first,
/// then the root manifest; a manifest without a workspace yields one
/// entry for the root directory; one with a workspace yields the members'
/// entries in declared order, the root's entry last when the root itself
/// declares dependencies, and the members' warnings before the root's.
pub open spec fn plan_post(
    root_dir: Seq<char>,
    root_text: Seq<char>,
    members: Seq<(Seq<char>, Option<Seq<char>>)>,
    lock_text: Seq<char>,
    excluded: Seq<Seq<char>>,
    extra: Seq<Seq<char>>,
    buildtime: bool,
    r: Result<(Seq<PlanEntryV>, Seq<Seq<char>>), ErrorV>,
) -> bool {
    match lock_spec(lock_text) {
        Err(e) => r == Err::<(Seq<PlanEntryV>, Seq<Seq<char>>), ErrorV>(e),
        Ok(pool) => match manifest_spec(root_text) {
            Err(e) => r == Err::<(Seq<PlanEntryV>, Seq<Seq<char>>), ErrorV>(e),
            Ok(root) => {
                let root_ks = kept_entries(merged_entries(root, buildtime), excluded);
                if root.members is None {
                    match first_entry_error(root_ks) {
                        Some(e) => r == Err::<(Seq<PlanEntryV>, Seq<Seq<char>>), ErrorV>(e),
                        None => match r {
                            Ok((entries, warns)) => {
                                &&& entries.len() == 1
                                &&& entries[0].dir == root_dir
                                &&& resolve_targets_post(pool, root_ks, extra, entries[0].targets)
                                &&& warns == missing_names(pool, root_ks)
                            },
                            Err(_) => false,
                        },
                    }
                } else {
                    match first_member_fault(members, excluded, buildtime) {
                        Some(e) => r == Err::<(Seq<PlanEntryV>, Seq<Seq<char>>), ErrorV>(e),
                        None => match first_entry_error(root_ks) {
                            Some(e) => r == Err::<(Seq<PlanEntryV>, Seq<Seq<char>>), ErrorV>(e),
                            None => match r {
                                Ok((entries, warns)) => workspace_entries_post(
                                    pool,
                                    root_dir,
                                    root,
                                    members,
                                    excluded,
                                    extra,
                                    buildtime,
                                    entries,
                                ) && warns == members_missing(pool, members, excluded, buildtime)
                                    + if root_has_deps(root) {
                                    missing_names(pool, root_ks)
                                } else {
                                    Seq::empty()
                                },
                                Err(_) => false,
                            },
                        },
                    }
                }
            },
        },
    }
}

proof fn lemma_member_fault_push(
    members: Seq<(Seq<char>, Option<Seq<char>>)>,
    entry: (Seq<char>, Option<Seq<char>>),
    excluded: Seq<Seq<char>>,
    buildtime: bool,
)
    requires
        first_member_fault(members, excluded, buildtime) is None,
    ensures
        first_member_fault(members.push(entry), excluded, buildtime) == member_fault(
            entry,
            excluded,
            buildtime,
        ),
    decreases members.len(),
{
    if members.len() == 0 {
        assert(members.push(entry)[0] == entry);
        assert(members.push(entry).drop_first() =~= Seq::<(Seq<char>, Option<Seq<char>>)>::empty());
        assert(first_member_fault(members.push(entry).drop_first(), excluded, buildtime) is None);
    } else {
        assert(members.push(entry)[0] == members[0]);
        assert(member_fault(members[0], excluded, buildtime) is None);
        assert(first_member_fault(members.drop_first(), excluded, buildtime) is None);
        assert(members.push(entry).drop_first() =~= members.drop_first().push(entry));
        lemma_member_fault_push(members.drop_first(), entry, excluded, buildtime);
        assert(first_member_fault(members.push(entry), excluded, buildtime) == first_member_fault(
            members.drop_first().push(entry),
            excluded,
            buildtime,
        ));
    }
}

proof fn lemma_member_fault_prefix(
    members: Seq<(Seq<char>, Option<Seq<char>>)>,
    i: int,
    excluded: Seq<Seq<char>>,
    buildtime: bool,
)
    requires
        0 <= i <= members.len(),
        first_member_fault(members.take(i), excluded, buildtime) is Some,
    ensures
        first_member_fault(members, excluded, buildtime) == first_member_fault(
            members.take(i),
            excluded,
            buildtime,
        ),
    decreases i,
{
    if i > 0 {
        assert(members.take(i)[0] == members[0]);
        if member_fault(members[0], excluded, buildtime) is Some {
            assert(first_member_fault(members.take(i), excluded, buildtime) == member_fault(
                members[0],
                excluded,
                buildtime,
            ));
        } else {
            assert(members.take(i).drop_first() =~= members.drop_first().take(i - 1));
            lemma_member_fault_prefix(members.drop_first(), i - 1, excluded, buildtime);
        }
    }
}

/// Plan a whole run: parse the lock document and the root manifest, then
/// resolve the root alone, or each workspace member and conditionally the
/// root. `members` carries, for each declared member path in order, the
/// member manifest's text, or nothing when it could not be read.
pub fn plan_workspace(
    root_dir: &str,
    root_text: &str,
    members: &Vec<(String, Option<String>)>,
    lock_text: &str,
    excluded: &Vec<String>,
    extra: &Vec<String>,
    include_buildtime: bool,
) -> (r: Result<(Vec<PlanEntry>, Vec<String>), Error>)
    ensures
        plan_post(
            root_dir@,
            root_text@,
            members_view(members@),
            lock_text@,
            excluded.deep_view(),
            extra.deep_view(),
            include_buildtime,
            match r {
                Ok(p) => Ok((p.0@.map_values(|pe: PlanEntry| pe@), p.1.deep_view())),
                Err(e) => Err(e@),
            },
        ),
{
    let pool = match crate::model::LockPool::parse(lock_text) {
        Ok(p) => p,
        Err(e) => {
            return Err(e);
        },
    };
    let root = match Manifest::parse(root_text) {
        Ok(m) => m,
        Err(e) => {
            return Err(e);
        },
    };
    let ghost mv = members_view(members@);
    let ghost ex = excluded.deep_view();
    let has_workspace = root.members.is_some();
    if !has_workspace {
        match resolve_dependencies(&root, &pool, excluded, extra, include_buildtime) {
            Ok((targets, warns)) => {
                let mut entries: Vec<PlanEntry> = Vec::new();
                entries.push(PlanEntry { dir: String::from_str(root_dir), targets });
                Ok((entries, warns))
            },
            Err(e) => Err(e),
        }
    } else {
        let mut entries: Vec<PlanEntry> = Vec::new();
        let mut warns: Vec<String> = Vec::new();
        let n = members.len();
        let mut i: usize = 0;
        proof {
            assert(mv.take(0) =~= Seq::<(Seq<char>, Option<Seq<char>>)>::empty());
            assert(warns.deep_view() =~= members_missing(
                pool@,
                mv.take(0),
                ex,
                include_buildtime,
            ));
        }
        while i < n
            invariant
                pool.wf(),
                lock_spec(lock_text@) == Ok::<Seq<LockEntryV>, ErrorV>(pool@),
                manifest_spec(root_text@) == Ok::<ManifestV, ErrorV>(root@),
                root@.members is Some,
                n == members@.len(),
                i <= n,
                mv == members_view(members@),
                ex == excluded.deep_view(),
                mv.len() == n,
                forall|k: int| 0 <= k < n ==> mv[k] == (members@[k].0@, opt_str_view(members@[k].1)),
                first_member_fault(mv.take(i as int), ex, include_buildtime) is None,
                entries@.len() == i,
                forall|k: int|
                    0 <= k < i ==> entries@[k]@.dir == mv[k].0 && resolve_targets_post(
                        pool@,
                        member_kept(mv[k], ex, include_buildtime),
                        extra.deep_view(),
                        entries@[k]@.targets,
                    ),
                warns.deep_view() == members_missing(pool@, mv.take(i as int), ex, include_buildtime),
            decreases n - i,
        {
            let ghost wpre = warns.deep_view();
            proof {
                assert(mv.take(i as int + 1).drop_last() =~= mv.take(i as int));
                assert(mv.take(i as int + 1).last() == mv[i as int]);
                assert(mv.take(i as int + 1) =~= mv.take(i as int).push(mv[i as int]));
            }
            let path = members[i].0.clone();
            let manifest: Manifest = match &members[i].1 {
                None => {
                    proof {
                        assert(mv[i as int].1 is None);
                        assert(member_fault(mv[i as int], ex, include_buildtime) == Some(
                            ErrorV::Member { path: mv[i as int].0 },
                        ));
                        lemma_member_fault_push(mv.take(i as int), mv[i as int], ex, include_buildtime);
                        lemma_member_fault_prefix(mv, i as int + 1, ex, include_buildtime);
                    }
                    return Err(Error::Member { path });
                },
                Some(text) => match Manifest::parse(text.as_str()) {
                    Ok(m) => m,
                    Err(_) => {
                        proof {
                            assert(mv[i as int].1 == Some(text@));
                            assert(manifest_spec(text@) is Err);
                            assert(member_fault(mv[i as int], ex, include_buildtime) == Some(
                                ErrorV::Member { path: mv[i as int].0 },
                            ));
                            lemma_member_fault_push(mv.take(i as int), mv[i as int], ex, include_buildtime);
                            lemma_member_fault_prefix(mv, i as int + 1, ex, include_buildtime);
                        }
                        return Err(Error::Member { path });
                    },
                },
            };
            match resolve_dependencies(&manifest, &pool, excluded, extra, include_buildtime) {
                Ok((targets, ws)) => {
                    entries.push(PlanEntry { dir: path, targets });
                    let nw = ws.len();
                    let mut j: usize = 0;
                    proof {
                        assert(ws.deep_view().take(0) =~= Seq::<Seq<char>>::empty());
                        assert(wpre + ws.deep_view().take(0) =~= wpre);
                    }
                    while j < nw
                        invariant
                            nw == ws@.len(),
                            j <= nw,
                            warns.deep_view() == wpre + ws.deep_view().take(j as int),
                        decreases nw - j,
                    {
                        let ghost wd = warns.deep_view();
                        warns.push(ws[j].clone());
                        proof {
                            assert(ws.deep_view()[j as int] == ws@[j as int]@);
                            assert(warns.deep_view() =~= wd.push(ws@[j as int]@));
                            assert(ws.deep_view().take(j as int + 1) =~= ws.deep_view().take(
                                j as int,
                            ).push(ws@[j as int]@));
                            assert(warns.deep_view() =~= wpre + ws.deep_view().take(j as int + 1));
                        }
                        j += 1;
                    }
                    proof {
                        assert(ws.deep_view().take(nw as int) =~= ws.deep_view());
                        lemma_member_fault_push(mv.take(i as int), mv[i as int], ex, include_buildtime);
                        assert(member_kept(mv[i as int], ex, include_buildtime) == kept_entries(
                            merged_entries(manifest@, include_buildtime),
                            ex,
                        ));
                        assert(warns.deep_view() =~= members_missing(
                            pool@,
                            mv.take(i as int + 1),
                            ex,
                            include_buildtime,
                        ));
                    }
                },
                Err(e) => {
                    proof {
                        assert(member_fault(mv[i as int], ex, include_buildtime) == Some(e@));
                        lemma_member_fault_push(mv.take(i as int), mv[i as int], ex, include_buildtime);
                        lemma_member_fault_prefix(mv, i as int + 1, ex, include_buildtime);
                    }
                    return Err(e);
                },
            }
            i += 1;
        }
        proof {
            assert(mv.take(n as int) =~= mv);
        }
        let root_deps = root.dependencies.len() > 0 || root.build_dependencies.len() > 0;
        if root_deps {
            match resolve_dependencies(&root, &pool, excluded, extra, include_buildtime) {
                Ok((targets, ws)) => {
                    let ghost wpre = warns.deep_view();
                    entries.push(PlanEntry { dir: String::from_str(root_dir), targets });
                    let nw = ws.len();
                    let mut j: usize = 0;
                    proof {
                        assert(ws.deep_view().take(0) =~= Seq::<Seq<char>>::empty());
                        assert(wpre + ws.deep_view().take(0) =~= wpre);
                    }
                    while j < nw
                        invariant
                            nw == ws@.len(),
                            j <= nw,
                            warns.deep_view() == wpre + ws.deep_view().take(j as int),
                        decreases nw - j,
                    {
                        let ghost wd = warns.deep_view();
                        warns.push(ws[j].clone());
                        proof {
                            assert(ws.deep_view()[j as int] == ws@[j as int]@);
                            assert(warns.deep_view() =~= wd.push(ws@[j as int]@));
                            assert(ws.deep_view().take(j as int + 1) =~= ws.deep_view().take(
                                j as int,
                            ).push(ws@[j as int]@));
                            assert(warns.deep_view() =~= wpre + ws.deep_view().take(j as int + 1));
                        }
                        j += 1;
                    }
                    proof {
                        assert(ws.deep_view().take(nw as int) =~= ws.deep_view());
                    }
                },
                Err(e) => {
                    return Err(e);
                },
            }
        }
        proof {
            let rks = kept_entries(merged_entries(root@, include_buildtime), ex);
            if !root_deps {
                assert(merged_entries(root@, include_buildtime).len() == 0);
                assert(rks =~= Seq::<(Seq<char>, DepSpecV)>::empty());
                assert(first_entry_error(rks) is None);
                assert(missing_names(pool@, rks) =~= Seq::<Seq<char>>::empty());
                assert(warns.deep_view() =~= members_missing(pool@, mv, ex, include_buildtime)
                    + Seq::<Seq<char>>::empty());
            }
            assert(root_has_deps(root@) == root_deps);
            let ev = entries@.map_values(|e: PlanEntry| e@);
            assert forall|k: int| 0 <= k < mv.len() implies ev[k].dir == mv[k].0
                && resolve_targets_post(
                pool@,
                member_kept(mv[k], ex, include_buildtime),
                extra.deep_view(),
                ev[k].targets,
            ) by {
                assert(ev[k] == entries@[k]@);
            }
            assert(workspace_entries_post(
                pool@,
                root_dir@,
                root@,
                mv,
                ex,
                extra.deep_view(),
                include_buildtime,
                ev,
            ));
        }
        Ok((entries, warns))
    }
}

} // verus!
