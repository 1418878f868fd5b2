//! A plain model of a parsed configuration document.
//!
//! A document is a tree of values: strings, arrays, tables (ordered lists of
//! key/value pairs), or other kinds that this library never reads.

use vstd::prelude::*;

verus! {

broadcast use
    vstd::std_specs::vec::axiom_vec_index_decreases,
    vstd::seq::axiom_seq_index_decreases,
    vstd::seq::axiom_seq_subrange_decreases;

/// A document value, reduced to what the resolver reads: strings, arrays and
/// tables. Every other kind of value collapses to `Other`.
pub enum DocValue {
    Str(String),
    Arr(Vec<DocValue>),
    Tbl(Vec<(String, DocValue)>),
    Other,
}

/// The mathematical shape of a `DocValue`.
pub enum DocValueV {
    Str(Seq<char>),
    Arr(Seq<DocValueV>),
    Tbl(Seq<(Seq<char>, DocValueV)>),
    Other,
}

/// The view of a whole value.
pub open spec fn value_view(v: DocValue) -> DocValueV
    decreases v,
{
    match v {
        DocValue::Str(s) => DocValueV::Str(s@),
        DocValue::Arr(items) => DocValueV::Arr(items_view(items@)),
        DocValue::Tbl(entries) => DocValueV::Tbl(entries_view(entries@)),
        DocValue::Other => DocValueV::Other,
    }
}

/// The views of the items of an array, in order.
pub open spec fn items_view(s: Seq<DocValue>) -> Seq<DocValueV>
    decreases s,
{
    if s.len() == 0 {
        Seq::empty()
    } else {
        items_view(s.drop_last()).push(value_view(s.last()))
    }
}

/// The views of the entries of a table, in order.
pub open spec fn entries_view(s: Seq<(String, DocValue)>) -> Seq<(Seq<char>, DocValueV)>
    decreases s,
{
    if s.len() == 0 {
        Seq::empty()
    } else {
        entries_view(s.drop_last()).push((s.last().0@, value_view(s.last().1)))
    }
}

impl View for DocValue {
    type V = DocValueV;

    open spec fn view(&self) -> DocValueV {
        value_view(*self)
    }
}

/// An array's view has one item view per item, in order.
pub proof fn lemma_items_view(s: Seq<DocValue>)
    ensures
        items_view(s).len() == s.len(),
        forall|i: int| 0 <= i < s.len() ==> items_view(s)[i] == value_view(s[i]),
    decreases s.len(),
{
    if s.len() > 0 {
        lemma_items_view(s.drop_last());
    }
}

/// A table's view has one entry view per entry, in order.
pub proof fn lemma_entries_view(s: Seq<(String, DocValue)>)
    ensures
        entries_view(s).len() == s.len(),
        forall|i: int| 0 <= i < s.len() ==> entries_view(s)[i] == (s[i].0@, value_view(s[i].1)),
    decreases s.len(),
{
    if s.len() > 0 {
        lemma_entries_view(s.drop_last());
    }
}

/// The value under the first entry of `es` whose key is `key`, if any.
pub open spec fn tbl_lookup(es: Seq<(Seq<char>, DocValueV)>, key: Seq<char>) -> Option<DocValueV>
    decreases es.len(),
{
    if es.len() == 0 {
        None
    } else if es[0].0 == key {
        Some(es[0].1)
    } else {
        tbl_lookup(es.drop_first(), key)
    }
}

proof fn lemma_tbl_lookup_found(es: Seq<(Seq<char>, DocValueV)>, key: Seq<char>, i: int)
    requires
        0 <= i < es.len(),
        es[i].0 == key,
        forall|j: int| 0 <= j < i ==> es[j].0 != key,
    ensures
        tbl_lookup(es, key) == Some(es[i].1),
    decreases i,
{
    if i > 0 {
        lemma_tbl_lookup_found(es.drop_first(), key, i - 1);
    }
}

proof fn lemma_tbl_lookup_absent(es: Seq<(Seq<char>, DocValueV)>, key: Seq<char>)
    requires
        forall|j: int| 0 <= j < es.len() ==> es[j].0 != key,
    ensures
        tbl_lookup(es, key) is None,
    decreases es.len(),
{
    if es.len() > 0 {
        lemma_tbl_lookup_absent(es.drop_first(), key);
    }
}

/// Look `key` up in a table, returning the first entry that carries it.
pub fn tbl_get<'a>(entries: &'a Vec<(String, DocValue)>, key: &str) -> (r: Option<&'a DocValue>)
    ensures
        match r {
            Some(v) => tbl_lookup(entries_view(entries@), key@) == Some(v@),
            None => tbl_lookup(entries_view(entries@), key@) is None,
        },
{
    proof {
        lemma_entries_view(entries@);
    }
    let n = entries.len();
    let mut i: usize = 0;
    while i < n
        invariant
            n == entries@.len(),
            i <= n,
            forall|j: int| 0 <= j < i ==> entries@[j].0@ != key@,
        decreases n - i,
    {
        if crate::strutil::str_eq(entries[i].0.as_str(), key) {
            proof {
                lemma_entries_view(entries@);
                lemma_tbl_lookup_found(entries_view(entries@), key@, i as int);
            }
            return Some(&entries[i].1);
        }
        i += 1;
    }
    proof {
        lemma_entries_view(entries@);
        lemma_tbl_lookup_absent(entries_view(entries@), key@);
    }
    None
}

} // verus!
