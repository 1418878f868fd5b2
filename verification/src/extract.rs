//! From a parsed document tree to the typed models: the manifest's
//! dependency tables and workspace members, and the lock pool's pinned
//! packages. Shape faults are reported here, before any resolution.

use vstd::prelude::*;

use crate::doc_model::{
    entries_view, items_view, lemma_entries_view, lemma_items_view, tbl_get, tbl_lookup, DocValue,
    DocValueV,
};
use crate::doc_parse::{doc_of, parse_document};
use crate::model::{
    dep_table_view, DepSpec, DepSpecV, Error, ErrorV, LockEntry, LockEntryV, LockPool, Manifest,
    ManifestV,
};
use crate::versions::version_valid;

verus! {

/// An optional string field of a table: absent, present as a string, or
/// present as something else — which is a fault named after `key`.
pub open spec fn opt_str_field(
    es: Seq<(Seq<char>, DocValueV)>,
    field: Seq<char>,
    key: Seq<char>,
) -> Result<Option<Seq<char>>, ErrorV> {
    match tbl_lookup(es, field) {
        None => Ok(None),
        Some(DocValueV::Str(s)) => Ok(Some(s)),
        Some(_) => Err(ErrorV::InvalidValue { key }),
    }
}

/// The declaration under one dependency key: a bare string, or a table
/// whose `package` and `version` fields must be strings when present and
/// whose `path` and `git` fields only need to be present to count.
pub open spec fn dep_spec_of(key: Seq<char>, v: DocValueV) -> Result<DepSpecV, ErrorV> {
    match v {
        DocValueV::Str(s) => Ok(DepSpecV::Plain(s)),
        DocValueV::Tbl(es) => match opt_str_field(es, "package"@, key) {
            Err(e) => Err(e),
            Ok(package) => match opt_str_field(es, "version"@, key) {
                Err(e) => Err(e),
                Ok(version) => Ok(
                    DepSpecV::Detailed {
                        version,
                        path: tbl_lookup(es, "path"@) is Some,
                        vcs: tbl_lookup(es, "git"@) is Some,
                        package,
                    },
                ),
            },
        },
        _ => Err(ErrorV::InvalidValue { key }),
    }
}

/// A whole dependency table, entry by entry; the first faulty entry
/// decides the error.
pub open spec fn dep_entries_of(es: Seq<(Seq<char>, DocValueV)>) -> Result<
    Seq<(Seq<char>, DepSpecV)>,
    ErrorV,
>
    decreases es.len(),
{
    if es.len() == 0 {
        Ok(Seq::empty())
    } else {
        match dep_entries_of(es.drop_last()) {
            Err(e) => Err(e),
            Ok(rest) => match dep_spec_of(es.last().0, es.last().1) {
                Err(e) => Err(e),
                Ok(s) => Ok(rest.push((es.last().0, s))),
            },
        }
    }
}

/// The strings of an array of strings; `None` when some item is not one.
pub open spec fn str_items(items: Seq<DocValueV>) -> Option<Seq<Seq<char>>>
    decreases items.len(),
{
    if items.len() == 0 {
        Some(Seq::empty())
    } else {
        match str_items(items.drop_last()) {
            None => None,
            Some(rest) => match items.last() {
                DocValueV::Str(s) => Some(rest.push(s)),
                _ => None,
            },
        }
    }
}

/// The manifest a document describes: its `dependencies` and
/// `build-dependencies` tables (absent tables are empty), and the
/// `workspace.members` list when the document declares one.
pub open spec fn manifest_of_doc(doc: DocValueV) -> Result<ManifestV, ErrorV> {
    match doc {
        DocValueV::Tbl(es) => {
            let deps = match tbl_lookup(es, "dependencies"@) {
                None => Ok(Seq::<(Seq<char>, DepSpecV)>::empty()),
                Some(DocValueV::Tbl(d)) => dep_entries_of(d),
                Some(_) => Err(ErrorV::ManifestSyntax),
            };
            let builds = match tbl_lookup(es, "build-dependencies"@) {
                None => Ok(Seq::<(Seq<char>, DepSpecV)>::empty()),
                Some(DocValueV::Tbl(d)) => dep_entries_of(d),
                Some(_) => Err(ErrorV::ManifestSyntax),
            };
            let members = match tbl_lookup(es, "workspace"@) {
                None => Ok(None),
                Some(DocValueV::Tbl(w)) => match tbl_lookup(w, "members"@) {
                    None => Ok(None),
                    Some(DocValueV::Arr(items)) => match str_items(items) {
                        Some(ss) => Ok(Some(ss)),
                        None => Err(ErrorV::ManifestSyntax),
                    },
                    Some(_) => Err(ErrorV::ManifestSyntax),
                },
                Some(_) => Err(ErrorV::ManifestSyntax),
            };
            match (deps, builds, members) {
                (Ok(d), Ok(b), Ok(m)) => Ok(
                    ManifestV { dependencies: d, build_dependencies: b, members: m },
                ),
                (Err(e), _, _) => Err(e),
                (_, Err(e), _) => Err(e),
                (_, _, Err(e)) => Err(e),
            }
        },
        _ => Err(ErrorV::ManifestSyntax),
    }
}

/// One pinned package of the lock document: a table with string `name`
/// and `version` fields, the version a well-formed exact version.
pub open spec fn lock_entry_of(v: DocValueV) -> Result<LockEntryV, ErrorV> {
    match v {
        DocValueV::Tbl(es) => match (tbl_lookup(es, "name"@), tbl_lookup(es, "version"@)) {
            (Some(DocValueV::Str(n)), Some(DocValueV::Str(ver))) => if version_valid(ver) {
                Ok(LockEntryV { name: n, version: ver })
            } else {
                Err(ErrorV::LockSyntax)
            },
            _ => Err(ErrorV::LockSyntax),
        },
        _ => Err(ErrorV::LockSyntax),
    }
}

/// All pinned packages, in order; the first faulty one decides the error.
pub open spec fn lock_entries_of(items: Seq<DocValueV>) -> Result<Seq<LockEntryV>, ErrorV>
    decreases items.len(),
{
    if items.len() == 0 {
        Ok(Seq::empty())
    } else {
        match lock_entries_of(items.drop_last()) {
            Err(e) => Err(e),
            Ok(rest) => match lock_entry_of(items.last()) {
                Err(e) => Err(e),
                Ok(entry) => Ok(rest.push(entry)),
            },
        }
    }
}

/// The lock pool a document describes: the repeated `package` record.
pub open spec fn lock_of_doc(doc: DocValueV) -> Result<Seq<LockEntryV>, ErrorV> {
    match doc {
        DocValueV::Tbl(es) => match tbl_lookup(es, "package"@) {
            Some(DocValueV::Arr(items)) => lock_entries_of(items),
            _ => Err(ErrorV::LockSyntax),
        },
        _ => Err(ErrorV::LockSyntax),
    }
}

/// What parsing a manifest's text yields.
pub open spec fn manifest_spec(s: Seq<char>) -> Result<ManifestV, ErrorV> {
    match doc_of(s) {
        None => Err(ErrorV::ManifestSyntax),
        Some(d) => manifest_of_doc(d),
    }
}

/// What parsing a lock document's text yields.
pub open spec fn lock_spec(s: Seq<char>) -> Result<Seq<LockEntryV>, ErrorV> {
    match doc_of(s) {
        None => Err(ErrorV::LockSyntax),
        Some(d) => lock_of_doc(d),
    }
}

fn dep_spec_from(key: &String, v: &DocValue) -> (r: Result<DepSpec, Error>)
    ensures
        match r {
            Ok(d) => dep_spec_of(key@, v@) == Ok::<DepSpecV, ErrorV>(d@),
            Err(e) => dep_spec_of(key@, v@) == Err::<DepSpecV, ErrorV>(e@),
        },
{
    match v {
        DocValue::Str(s) => Ok(DepSpec::Plain(s.clone())),
        DocValue::Tbl(es) => {
            let package: Option<String> = match tbl_get(es, "package") {
                None => None,
                Some(DocValue::Str(p)) => Some(p.clone()),
                Some(_) => {
                    return Err(Error::InvalidValue { key: key.clone() });
                },
            };
            let version: Option<String> = match tbl_get(es, "version") {
                None => None,
                Some(DocValue::Str(s)) => Some(s.clone()),
                Some(_) => {
                    return Err(Error::InvalidValue { key: key.clone() });
                },
            };
            let path = tbl_get(es, "path").is_some();
            let vcs = tbl_get(es, "git").is_some();
            Ok(DepSpec::Detailed { version, path, vcs, package })
        },
        _ => Err(Error::InvalidValue { key: key.clone() }),
    }
}

fn parse_dep_table(entries: &Vec<(String, DocValue)>) -> (r: Result<Vec<(String, DepSpec)>, Error>)
    ensures
        match r {
            Ok(t) => dep_entries_of(entries_view(entries@)) == Ok::<
                Seq<(Seq<char>, DepSpecV)>,
                ErrorV,
            >(dep_table_view(t@)),
            Err(e) => dep_entries_of(entries_view(entries@)) == Err::<
                Seq<(Seq<char>, DepSpecV)>,
                ErrorV,
            >(e@),
        },
{
    proof {
        lemma_entries_view(entries@);
    }
    let ghost full = entries_view(entries@);
    let n = entries.len();
    let mut out: Vec<(String, DepSpec)> = Vec::new();
    proof {
        assert(dep_table_view(out@) =~= Seq::<(Seq<char>, DepSpecV)>::empty());
    }
    let mut i: usize = 0;
    while i < n
        invariant
            n == entries@.len(),
            full == entries_view(entries@),
            full.len() == n,
            forall|k: int|
                0 <= k < n ==> full[k] == (entries@[k].0@, crate::doc_model::value_view(
                    entries@[k].1,
                )),
            i <= n,
            dep_entries_of(full.take(i as int)) == Ok::<Seq<(Seq<char>, DepSpecV)>, ErrorV>(
                dep_table_view(out@),
            ),
        decreases n - i,
    {
        let ghost pre = dep_table_view(out@);
        let key = entries[i].0.clone();
        match dep_spec_from(&key, &entries[i].1) {
            Ok(d) => {
                out.push((key, d));
            },
            Err(e) => {
                proof {
                    assert(full.take(i as int + 1).drop_last() =~= full.take(i as int));
                    assert(full.take(i as int + 1).last() == full[i as int]);
                    assert(dep_entries_of(full.take(i as int + 1)) == Err::<
                        Seq<(Seq<char>, DepSpecV)>,
                        ErrorV,
                    >(e@));
                    lemma_dep_entries_prefix_err(full, i as int + 1, e@);
                }
                return Err(e);
            },
        }
        proof {
            assert(full.take(i as int + 1).drop_last() =~= full.take(i as int));
            assert(full.take(i as int + 1).last() == full[i as int]);
            assert(dep_table_view(out@) =~= pre.push(
                (entries@[i as int].0@, out@[out@.len() - 1].1@),
            ));
        }
        i += 1;
    }
    proof {
        assert(full.take(n as int) =~= full);
    }
    Ok(out)
}

/// A faulty prefix decides the whole table's outcome.
proof fn lemma_dep_entries_prefix_err(es: Seq<(Seq<char>, DocValueV)>, i: int, e: ErrorV)
    requires
        0 <= i <= es.len(),
        dep_entries_of(es.take(i)) == Err::<Seq<(Seq<char>, DepSpecV)>, ErrorV>(e),
    ensures
        dep_entries_of(es) == Err::<Seq<(Seq<char>, DepSpecV)>, ErrorV>(e),
    decreases es.len() - i,
{
    if i < es.len() {
        assert(es.take(i + 1).drop_last() =~= es.take(i));
        lemma_dep_entries_prefix_err(es, i + 1, e);
    } else {
        assert(es.take(i) =~= es);
    }
}

fn parse_members(items: &Vec<DocValue>) -> (r: Option<Vec<String>>)
    ensures
        match r {
            Some(ms) => str_items(items_view(items@)) == Some(ms.deep_view()),
            None => str_items(items_view(items@)) is None,
        },
{
    proof {
        lemma_items_view(items@);
    }
    let ghost full = items_view(items@);
    let n = items.len();
    let mut out: Vec<String> = Vec::new();
    let mut i: usize = 0;
    while i < n
        invariant
            n == items@.len(),
            full == items_view(items@),
            full.len() == n,
            forall|k: int| 0 <= k < n ==> full[k] == crate::doc_model::value_view(items@[k]),
            i <= n,
            str_items(full.take(i as int)) == Some(out.deep_view()),
        decreases n - i,
    {
        let ghost pre = out.deep_view();
        match &items[i] {
            DocValue::Str(s) => {
                out.push(s.clone());
            },
            _ => {
                proof {
                    assert(full.take(i as int + 1).drop_last() =~= full.take(i as int));
                    assert(full.take(i as int + 1).last() == full[i as int]);
                    lemma_str_items_prefix_none(full, i as int + 1);
                }
                return None;
            },
        }
        proof {
            assert(full.take(i as int + 1).drop_last() =~= full.take(i as int));
            assert(full.take(i as int + 1).last() == full[i as int]);
            assert(out.deep_view() =~= pre.push(out@[out@.len() - 1]@));
        }
        i += 1;
    }
    proof {
        assert(full.take(n as int) =~= full);
    }
    Some(out)
}

/// A non-string item in a prefix decides the whole list's outcome.
proof fn lemma_str_items_prefix_none(items: Seq<DocValueV>, i: int)
    requires
        0 <= i <= items.len(),
        str_items(items.take(i)) is None,
    ensures
        str_items(items) is None,
    decreases items.len() - i,
{
    if i < items.len() {
        assert(items.take(i + 1).drop_last() =~= items.take(i));
        lemma_str_items_prefix_none(items, i + 1);
    } else {
        assert(items.take(i) =~= items);
    }
}

/// The manifest a parsed document describes.
fn manifest_from_doc(doc: &DocValue) -> (r: Result<Manifest, Error>)
    ensures
        match r {
            Ok(m) => manifest_of_doc(doc@) == Ok::<ManifestV, ErrorV>(m@),
            Err(e) => manifest_of_doc(doc@) == Err::<ManifestV, ErrorV>(e@),
        },
{
    match doc {
        DocValue::Tbl(es) => {
            let dependencies: Vec<(String, DepSpec)> = match tbl_get(es, "dependencies") {
                None => Vec::new(),
                Some(DocValue::Tbl(d)) => match parse_dep_table(d) {
                    Ok(t) => t,
                    Err(e) => {
                        return Err(e);
                    },
                },
                Some(_) => {
                    return Err(Error::ManifestSyntax);
                },
            };
            let build_dependencies: Vec<(String, DepSpec)> = match tbl_get(
                es,
                "build-dependencies",
            ) {
                None => Vec::new(),
                Some(DocValue::Tbl(d)) => match parse_dep_table(d) {
                    Ok(t) => t,
                    Err(e) => {
                        return Err(e);
                    },
                },
                Some(_) => {
                    return Err(Error::ManifestSyntax);
                },
            };
            let members: Option<Vec<String>> = match tbl_get(es, "workspace") {
                None => None,
                Some(DocValue::Tbl(w)) => match tbl_get(w, "members") {
                    None => None,
                    Some(DocValue::Arr(items)) => match parse_members(items) {
                        Some(ms) => Some(ms),
                        None => {
                            return Err(Error::ManifestSyntax);
                        },
                    },
                    Some(_) => {
                        return Err(Error::ManifestSyntax);
                    },
                },
                Some(_) => {
                    return Err(Error::ManifestSyntax);
                },
            };
            proof {
                assert(dep_table_view(Seq::<(String, DepSpec)>::empty()) =~= Seq::<
                    (Seq<char>, DepSpecV),
                >::empty());
            }
            Ok(Manifest { dependencies, build_dependencies, members })
        },
        _ => Err(Error::ManifestSyntax),
    }
}

fn lock_entry_from(v: &DocValue) -> (r: Result<LockEntry, Error>)
    ensures
        match r {
            Ok(entry) => lock_entry_of(v@) == Ok::<LockEntryV, ErrorV>(entry@),
            Err(e) => lock_entry_of(v@) == Err::<LockEntryV, ErrorV>(e@),
        },
{
    match v {
        DocValue::Tbl(es) => {
            let name: String = match tbl_get(es, "name") {
                Some(DocValue::Str(n)) => n.clone(),
                _ => {
                    return Err(Error::LockSyntax);
                },
            };
            let version: String = match tbl_get(es, "version") {
                Some(DocValue::Str(s)) => s.clone(),
                _ => {
                    return Err(Error::LockSyntax);
                },
            };
            if crate::versions::check_version(version.as_str()) {
                Ok(LockEntry { name, version })
            } else {
                Err(Error::LockSyntax)
            }
        },
        _ => Err(Error::LockSyntax),
    }
}

fn lock_from_doc(doc: &DocValue) -> (r: Result<Vec<LockEntry>, Error>)
    ensures
        match r {
            Ok(entries) => lock_of_doc(doc@) == Ok::<Seq<LockEntryV>, ErrorV>(
                entries@.map_values(|e: LockEntry| e@),
            ),
            Err(e) => lock_of_doc(doc@) == Err::<Seq<LockEntryV>, ErrorV>(e@),
        },
{
    match doc {
        DocValue::Tbl(es) => match tbl_get(es, "package") {
            Some(DocValue::Arr(items)) => {
                proof {
                    lemma_items_view(items@);
                }
                let ghost full = items_view(items@);
                let n = items.len();
                let mut out: Vec<LockEntry> = Vec::new();
                proof {
                    assert(out@.map_values(|e: LockEntry| e@) =~= Seq::<LockEntryV>::empty());
                    assert(lock_of_doc(doc@) == lock_entries_of(full));
                }
                let mut i: usize = 0;
                while i < n
                    invariant
                        n == items@.len(),
                        full == items_view(items@),
                        lock_of_doc(doc@) == lock_entries_of(full),
                        full.len() == n,
                        forall|k: int|
                            0 <= k < n ==> full[k] == crate::doc_model::value_view(items@[k]),
                        i <= n,
                        lock_entries_of(full.take(i as int)) == Ok::<Seq<LockEntryV>, ErrorV>(
                            out@.map_values(|e: LockEntry| e@),
                        ),
                    decreases n - i,
                {
                    let ghost pre = out@.map_values(|e: LockEntry| e@);
                    match lock_entry_from(&items[i]) {
                        Ok(entry) => {
                            out.push(entry);
                        },
                        Err(e) => {
                            proof {
                                assert(full.take(i as int + 1).drop_last() =~= full.take(i as int));
                                assert(full.take(i as int + 1).last() == full[i as int]);
                                assert(lock_entries_of(full.take(i as int + 1)) == Err::<
                                    Seq<LockEntryV>,
                                    ErrorV,
                                >(e@));
                                lemma_lock_entries_prefix_err(full, i as int + 1, e@);
                            }
                            return Err(e);
                        },
                    }
                    proof {
                        assert(full.take(i as int + 1).drop_last() =~= full.take(i as int));
                        assert(full.take(i as int + 1).last() == full[i as int]);
                        assert(out@.map_values(|e: LockEntry| e@) =~= pre.push(
                            out@[out@.len() - 1]@,
                        ));
                    }
                    i += 1;
                }
                proof {
                    assert(full.take(n as int) =~= full);
                }
                Ok(out)
            },
            _ => Err(Error::LockSyntax),
        },
        _ => Err(Error::LockSyntax),
    }
}

/// A faulty prefix decides the whole record's outcome.
proof fn lemma_lock_entries_prefix_err(items: Seq<DocValueV>, i: int, e: ErrorV)
    requires
        0 <= i <= items.len(),
        lock_entries_of(items.take(i)) == Err::<Seq<LockEntryV>, ErrorV>(e),
    ensures
        lock_entries_of(items) == Err::<Seq<LockEntryV>, ErrorV>(e),
    decreases items.len() - i,
{
    if i < items.len() {
        assert(items.take(i + 1).drop_last() =~= items.take(i));
        lemma_lock_entries_prefix_err(items, i + 1, e);
    } else {
        assert(items.take(i) =~= items);
    }
}

/// Every pinned version a well-formed lock record yields is well formed.
pub proof fn lemma_lock_entries_valid(items: Seq<DocValueV>, s: Seq<LockEntryV>)
    requires
        lock_entries_of(items) == Ok::<Seq<LockEntryV>, ErrorV>(s),
    ensures
        forall|i: int| 0 <= i < s.len() ==> version_valid(s[i].version),
    decreases items.len(),
{
    if items.len() > 0 {
        match lock_entries_of(items.drop_last()) {
            Ok(rest) => {
                lemma_lock_entries_valid(items.drop_last(), rest);
                assert(forall|i: int| 0 <= i < s.len() - 1 ==> s[i] == rest[i]);
            },
            Err(_) => {
                assert(false);
            },
        }
    }
}

impl Manifest {
    /// Parse a manifest document's text.
    pub fn parse(text: &str) -> (r: Result<Manifest, Error>)
        ensures
            match r {
                Ok(m) => manifest_spec(text@) == Ok::<ManifestV, ErrorV>(m@),
                Err(e) => manifest_spec(text@) == Err::<ManifestV, ErrorV>(e@),
            },
    {
        match parse_document(text) {
            None => Err(Error::ManifestSyntax),
            Some(doc) => manifest_from_doc(&doc),
        }
    }
}

impl LockPool {
    /// Parse a lock document's text. A pool this returns is well formed:
    /// every pinned version in it parses as an exact version.
    pub fn parse(text: &str) -> (r: Result<LockPool, Error>)
        ensures
            match r {
                Ok(pool) => lock_spec(text@) == Ok::<Seq<LockEntryV>, ErrorV>(pool@)
                    && pool.wf(),
                Err(e) => lock_spec(text@) == Err::<Seq<LockEntryV>, ErrorV>(e@),
            },
    {
        match parse_document(text) {
            None => Err(Error::LockSyntax),
            Some(doc) => match lock_from_doc(&doc) {
                Ok(entries) => {
                    let pool = LockPool { entries };
                    proof {
                        match doc@ {
                            DocValueV::Tbl(es) => {
                                match tbl_lookup(es, "package"@) {
                                    Some(DocValueV::Arr(items)) => {
                                        lemma_lock_entries_valid(items, pool@);
                                    },
                                    _ => {
                                        assert(false);
                                    },
                                }
                            },
                            _ => {
                                assert(false);
                            },
                        }
                    }
                    Ok(pool)
                },
                Err(e) => Err(e),
            },
        }
    }
}

} // verus!
