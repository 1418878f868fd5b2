//! The invocation planner: turn a plan entry's targets into the argument
//! list of one documentation-tool invocation, and build the separate
//! "open the result" invocation when one is wanted.

use vstd::prelude::*;
use vstd::string::StringExecFns;

use crate::model::{render_target, PlanEntry, PlanEntryV, TargetV};

verus! {

/// The flag pairs of a target list: a restrict-to-this-unit flag before
/// each target's rendering, in target order.
pub open spec fn flag_pairs(ts: Seq<TargetV>) -> Seq<Seq<char>>
    decreases ts.len(),
{
    if ts.len() == 0 {
        Seq::empty()
    } else {
        flag_pairs(ts.drop_last()) + seq![("-p")@, render_target(ts.last())]
    }
}

/// Turn a list of rendered target lines into flag pairs: `-p` before
/// each line, in order.
pub fn create_arguments<'a>(input: &'a Vec<String>) -> (r: Vec<&'a str>)
    ensures
        r@.len() == 2 * input@.len(),
        forall|j: int|
            0 <= j < r@.len() ==> r@[j]@ == if j % 2 == 0 {
                ("-p")@
            } else {
                input@[j / 2]@
            },
{
    let n = input.len();
    let mut r: Vec<&str> = Vec::new();
    let mut i: usize = 0;
    while i < n
        invariant
            n == input@.len(),
            i <= n,
            r@.len() == 2 * i,
            forall|j: int|
                0 <= j < r@.len() ==> r@[j]@ == if j % 2 == 0 {
                    ("-p")@
                } else {
                    input@[j / 2]@
                },
        decreases n - i,
    {
        r.push("-p");
        r.push(input[i].as_str());
        i += 1;
    }
    r
}

/// What one build invocation's arguments are: the fixed subcommand and
/// no-transitive-dependencies flag, the entry's flag pairs, the
/// private-items flag when asked for, and a final restrict pair for the
/// root package identifier when one is supplied.
pub open spec fn invocation_args(
    targets: Seq<TargetV>,
    private_items: bool,
    root_pkg: Option<Seq<char>>,
) -> Seq<Seq<char>> {
    seq![("doc")@, ("--no-deps")@] + flag_pairs(targets) + (if private_items {
        seq![("--document-private-items")@]
    } else {
        Seq::empty()
    }) + (match root_pkg {
        Some(id) => seq![("-p")@, id],
        None => Seq::empty(),
    })
}

/// Build one entry's invocation arguments. `root_pkg` carries the
/// package identifier the external tool reported for the root package,
/// when the root package is to be documented too.
pub fn build_invocation(
    entry: &PlanEntry,
    private_items: bool,
    root_pkg: Option<&String>,
) -> (r: Vec<String>)
    ensures
        r.deep_view() == invocation_args(
            entry@.targets,
            private_items,
            match root_pkg {
                Some(id) => Some(id@),
                None => None,
            },
        ),
{
    let ghost tv = entry@.targets;
    let mut r: Vec<String> = Vec::new();
    r.push(String::from_str("doc"));
    r.push(String::from_str("--no-deps"));
    let n = entry.targets.len();
    let mut i: usize = 0;
    proof {
        assert(flag_pairs(tv.take(0)) =~= Seq::<Seq<char>>::empty());
        assert(r.deep_view() =~= seq![("doc")@, ("--no-deps")@] + flag_pairs(tv.take(0)));
    }
    while i < n
        invariant
            n == entry.targets@.len(),
            tv == entry@.targets,
            tv.len() == n,
            i <= n,
            r.deep_view() == seq![("doc")@, ("--no-deps")@] + flag_pairs(tv.take(i as int)),
        decreases n - i,
    {
        let ghost pre = r.deep_view();
        r.push(String::from_str("-p"));
        r.push(entry.targets[i].rendered());
        proof {
            assert(tv.take(i as int + 1).drop_last() =~= tv.take(i as int));
            assert(tv.take(i as int + 1).last() == tv[i as int]);
            assert(tv[i as int] == entry.targets@[i as int]@);
            assert(r.deep_view() =~= pre + seq![("-p")@, render_target(tv[i as int])]);
            assert(flag_pairs(tv.take(i as int + 1)) =~= flag_pairs(tv.take(i as int)) + seq![
                ("-p")@,
                render_target(tv[i as int]),
            ]);
            assert(r.deep_view() =~= seq![("doc")@, ("--no-deps")@] + flag_pairs(
                tv.take(i as int + 1),
            ));
        }
        i += 1;
    }
    proof {
        assert(tv.take(n as int) =~= tv);
    }
    if private_items {
        r.push(String::from_str("--document-private-items"));
    }
    match root_pkg {
        Some(id) => {
            r.push(String::from_str("-p"));
            r.push(id.clone());
        },
        None => {},
    }
    proof {
        assert(r.deep_view() =~= invocation_args(
            tv,
            private_items,
            match root_pkg {
                Some(id) => Some(id@),
                None => None,
            },
        ));
    }
    r
}

/// What the separate "open the result" invocation is, if any: skipped
/// when the plan is empty or its first entry has nothing to document;
/// otherwise the fixed arguments plus, unless the root package is being
/// documented, a restrict pair for the first entry's first target.
pub open spec fn open_args(plan: Seq<PlanEntryV>, want_root: bool) -> Option<Seq<Seq<char>>> {
    if plan.len() == 0 || plan[0].targets.len() == 0 {
        None
    } else if want_root {
        Some(seq![("doc")@, ("--no-deps")@, ("--open")@])
    } else {
        Some(
            seq![("doc")@, ("--no-deps")@, ("--open")@, ("-p")@, render_target(plan[0].targets[0])],
        )
    }
}

/// Build the "open the result" invocation for a plan, when one applies.
/// The external tool refuses to open under more than one restriction, so
/// this is a second, independent invocation rather than a flag on the
/// build ones.
pub fn open_invocation(plan: &Vec<PlanEntry>, want_root: bool) -> (r: Option<Vec<String>>)
    ensures
        match r {
            Some(args) => open_args(plan@.map_values(|pe: PlanEntry| pe@), want_root) == Some(
                args.deep_view(),
            ),
            None => open_args(plan@.map_values(|pe: PlanEntry| pe@), want_root) is None,
        },
{
    let ghost pv = plan@.map_values(|pe: PlanEntry| pe@);
    if plan.len() == 0 {
        return None;
    }
    let first = &plan[0];
    if first.targets.len() == 0 {
        proof {
            assert(pv[0].targets.len() == 0);
        }
        return None;
    }
    let mut args: Vec<String> = Vec::new();
    args.push(String::from_str("doc"));
    args.push(String::from_str("--no-deps"));
    args.push(String::from_str("--open"));
    if !want_root {
        args.push(String::from_str("-p"));
        args.push(first.targets[0].rendered());
        proof {
            assert(pv[0].targets[0] == first.targets@[0]@);
            assert(args.deep_view() =~= seq![
                ("doc")@,
                ("--no-deps")@,
                ("--open")@,
                ("-p")@,
                render_target(pv[0].targets[0]),
            ]);
        }
    } else {
        proof {
            assert(args.deep_view() =~= seq![("doc")@, ("--no-deps")@, ("--open")@]);
        }
    }
    Some(args)
}

/// Whether any plan entry has anything to document at all. A plan where
/// none has is fatal for the whole run; a single empty entry is only
/// skipped.
pub fn plan_has_targets(plan: &Vec<PlanEntry>) -> (r: bool)
    ensures
        r == (exists|i: int| 0 <= i < plan@.len() && plan@[i]@.targets.len() > 0),
{
    let n = plan.len();
    let mut i: usize = 0;
    while i < n
        invariant
            n == plan@.len(),
            i <= n,
            forall|k: int| 0 <= k < i ==> plan@[k]@.targets.len() == 0,
        decreases n - i,
    {
        if plan[i].targets.len() > 0 {
            assert(plan@[i as int]@.targets.len() > 0);
            return true;
        }
        i += 1;
    }
    false
}

} // verus!
