//! Small string helpers shared across the library.

use vstd::prelude::*;

verus! {

/// Relies on str's `PartialEq`: two string slices are equal exactly when
/// they hold the same characters.
#[verifier::external_body]
pub fn str_eq(a: &str, b: &str) -> (r: bool)
    ensures
        r == (a@ == b@),
{
    a == b
}

/// The wildcard constraint: any version at all.
pub open spec fn wildcard() -> Seq<char> {
    seq!['*']
}

/// Whether `s` is the wildcard constraint.
pub fn is_wildcard(s: &str) -> (r: bool)
    ensures
        r == (s@ == wildcard()),
{
    let r = str_eq(s, "*");
    proof {
        reveal_strlit("*");
        assert(("*")@ =~= wildcard());
    }
    r
}

} // verus!
