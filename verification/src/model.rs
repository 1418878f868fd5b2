//! The data the planner works over: manifests, the lock pool, resolved
//! targets, plan entries, and the errors resolution can raise.

use vstd::prelude::*;
use vstd::string::StringExecFns;

use crate::strutil::wildcard;
use crate::versions::{satisfies, version_valid};

verus! {

/// One pinned package of the lock pool: a name and an exact version.
pub struct LockEntry {
    pub name: String,
    pub version: String,
}

pub struct LockEntryV {
    pub name: Seq<char>,
    pub version: Seq<char>,
}

impl View for LockEntry {
    type V = LockEntryV;

    open spec fn view(&self) -> LockEntryV {
        LockEntryV { name: self.name@, version: self.version@ }
    }
}

/// The lock pool: an ordered sequence of pinned packages. One name may
/// recur with different exact versions; only (name, version) pairs are
/// unique, and nothing here depends on that.
pub struct LockPool {
    pub entries: Vec<LockEntry>,
}

impl View for LockPool {
    type V = Seq<LockEntryV>;

    open spec fn view(&self) -> Seq<LockEntryV> {
        self.entries@.map_values(|e: LockEntry| e@)
    }
}

impl LockPool {
    /// Every pinned version is a well-formed exact version.
    pub open spec fn wf(&self) -> bool {
        forall|i: int| 0 <= i < self@.len() ==> version_valid(self@[i].version)
    }
}

/// A version constraint: the wildcard, or a range expression.
pub enum Constraint {
    Any,
    Req(String),
}

pub enum ConstraintV {
    Any,
    Req(Seq<char>),
}

impl View for Constraint {
    type V = ConstraintV;

    open spec fn view(&self) -> ConstraintV {
        match self {
            Constraint::Any => ConstraintV::Any,
            Constraint::Req(s) => ConstraintV::Req(s@),
        }
    }
}

/// Whether the exact version `ver` satisfies the constraint `c`. The
/// wildcard satisfies everything.
pub open spec fn constraint_sat(c: ConstraintV, ver: Seq<char>) -> bool {
    match c {
        ConstraintV::Any => true,
        ConstraintV::Req(r) => satisfies(r, ver),
    }
}

/// A dependency declaration: a bare constraint string, or a detailed
/// record with an optional constraint, a filesystem-path marker, a
/// version-control-source marker, and an optional package rename.
pub enum DepSpec {
    Plain(String),
    Detailed { version: Option<String>, path: bool, vcs: bool, package: Option<String> },
}

pub enum DepSpecV {
    Plain(Seq<char>),
    Detailed { version: Option<Seq<char>>, path: bool, vcs: bool, package: Option<Seq<char>> },
}

pub open spec fn opt_str_view(o: Option<String>) -> Option<Seq<char>> {
    match o {
        Some(s) => Some(s@),
        None => None,
    }
}

impl View for DepSpec {
    type V = DepSpecV;

    open spec fn view(&self) -> DepSpecV {
        match self {
            DepSpec::Plain(s) => DepSpecV::Plain(s@),
            DepSpec::Detailed { version, path, vcs, package } => DepSpecV::Detailed {
                version: opt_str_view(*version),
                path: *path,
                vcs: *vcs,
                package: opt_str_view(*package),
            },
        }
    }
}

/// The name a dependency is looked up under and displayed as: the rename
/// override when the declaration carries one, else the table key.
pub open spec fn dep_display(key: Seq<char>, s: DepSpecV) -> Seq<char> {
    match s {
        DepSpecV::Plain(_) => key,
        DepSpecV::Detailed { package: Some(p), .. } => p,
        DepSpecV::Detailed { package: None, .. } => key,
    }
}

/// The constraint a declaration asks for: a bare or explicit version
/// string as given (the wildcard string meaning any version); a path or
/// version-control marker alone meaning any version; `None` when the
/// declaration carries none of the three and is invalid.
pub open spec fn dep_constraint(s: DepSpecV) -> Option<ConstraintV> {
    match s {
        DepSpecV::Plain(v) => Some(
            if v == wildcard() {
                ConstraintV::Any
            } else {
                ConstraintV::Req(v)
            },
        ),
        DepSpecV::Detailed { version: Some(v), .. } => Some(
            if v == wildcard() {
                ConstraintV::Any
            } else {
                ConstraintV::Req(v)
            },
        ),
        DepSpecV::Detailed { version: None, path, vcs, .. } => if path || vcs {
            Some(ConstraintV::Any)
        } else {
            None
        },
    }
}

/// A manifest: its two dependency tables, and the declared workspace
/// member paths when it declares a workspace.
pub struct Manifest {
    pub dependencies: Vec<(String, DepSpec)>,
    pub build_dependencies: Vec<(String, DepSpec)>,
    pub members: Option<Vec<String>>,
}

pub struct ManifestV {
    pub dependencies: Seq<(Seq<char>, DepSpecV)>,
    pub build_dependencies: Seq<(Seq<char>, DepSpecV)>,
    pub members: Option<Seq<Seq<char>>>,
}

pub open spec fn dep_table_view(t: Seq<(String, DepSpec)>) -> Seq<(Seq<char>, DepSpecV)> {
    t.map_values(|e: (String, DepSpec)| (e.0@, e.1@))
}

impl View for Manifest {
    type V = ManifestV;

    open spec fn view(&self) -> ManifestV {
        ManifestV {
            dependencies: dep_table_view(self.dependencies@),
            build_dependencies: dep_table_view(self.build_dependencies@),
            members: match &self.members {
                Some(m) => Some(m.deep_view()),
                None => None,
            },
        }
    }
}

/// One documentation target: a display name, and the pinned version it
/// resolved to — `None` when the lock pool had no match, a degraded but
/// usable outcome.
#[derive(Debug)]
pub struct Target {
    pub name: String,
    pub version: Option<String>,
}

pub struct TargetV {
    pub name: Seq<char>,
    pub version: Option<Seq<char>>,
}

impl View for Target {
    type V = TargetV;

    open spec fn view(&self) -> TargetV {
        TargetV { name: self.name@, version: opt_str_view(self.version) }
    }
}

/// How a target is written on a command line: `name` or `name:version`.
pub open spec fn render_target(t: TargetV) -> Seq<char> {
    match t.version {
        None => t.name,
        Some(v) => t.name + seq![':'] + v,
    }
}

impl Target {
    /// The target's textual rendering.
    pub fn rendered(&self) -> (r: String)
        ensures
            r@ == render_target(self@),
    {
        let mut s = String::from_str(self.name.as_str());
        match &self.version {
            Some(v) => {
                s.append(":");
                s.append(v.as_str());
                proof {
                    reveal_strlit(":");
                    assert((":")@ =~= seq![':']);
                    assert(s@ =~= render_target(self@));
                }
            },
            None => {},
        }
        s
    }
}

/// One planned invocation context: a working directory and the targets
/// to document there.
#[derive(Debug)]
pub struct PlanEntry {
    pub dir: String,
    pub targets: Vec<Target>,
}

pub struct PlanEntryV {
    pub dir: Seq<char>,
    pub targets: Seq<TargetV>,
}

impl View for PlanEntry {
    type V = PlanEntryV;

    open spec fn view(&self) -> PlanEntryV {
        PlanEntryV { dir: self.dir@, targets: self.targets@.map_values(|t: Target| t@) }
    }
}

/// The fatal failures of parsing and resolution. Warnings (a dependency
/// absent from the lock pool; an entry with nothing to document) are not
/// errors: they travel beside results as plain lists.
#[derive(Debug)]
pub enum Error {
    /// The manifest document does not have the expected shape.
    ManifestSyntax,
    /// The lock document does not have the expected shape.
    LockSyntax,
    /// A dependency entry's value is neither a string nor a table, or a
    /// field that must be a string is not one.
    InvalidValue { key: String },
    /// A detailed declaration carries none of version, path and
    /// version-control source.
    InvalidSpec { key: String },
    /// A declared constraint is not a well-formed range expression.
    InvalidConstraint { key: String },
    /// A workspace member's manifest could not be read or parsed.
    Member { path: String },
}

pub enum ErrorV {
    ManifestSyntax,
    LockSyntax,
    InvalidValue { key: Seq<char> },
    InvalidSpec { key: Seq<char> },
    InvalidConstraint { key: Seq<char> },
    Member { path: Seq<char> },
}

impl View for Error {
    type V = ErrorV;

    open spec fn view(&self) -> ErrorV {
        match self {
            Error::ManifestSyntax => ErrorV::ManifestSyntax,
            Error::LockSyntax => ErrorV::LockSyntax,
            Error::InvalidValue { key } => ErrorV::InvalidValue { key: key@ },
            Error::InvalidSpec { key } => ErrorV::InvalidSpec { key: key@ },
            Error::InvalidConstraint { key } => ErrorV::InvalidConstraint { key: key@ },
            Error::Member { path } => ErrorV::Member { path: path@ },
        }
    }
}

} // verus!
