//! The version primitives the reconciler builds on.
//!
//! Versions and version constraints stay plain strings throughout the
//! library; what a range expression means, and how two exact versions
//! compare, is delegated to the `semver` crate behind the trusted
//! functions below. The four spec functions name those outcomes: each is
//! a function of the argument strings alone.

use vstd::prelude::*;

verus! {

/// Whether `s` is a well-formed exact version (it parses as one).
pub uninterp spec fn version_valid(s: Seq<char>) -> bool;

/// Whether `s` is a well-formed version-range expression.
pub uninterp spec fn req_valid(s: Seq<char>) -> bool;

/// Whether the exact version `ver` lies in the range `req` describes.
pub uninterp spec fn satisfies(req: Seq<char>, ver: Seq<char>) -> bool;

/// Whether the exact version `a` precedes or equals `b`.
pub uninterp spec fn version_le(a: Seq<char>, b: Seq<char>) -> bool;

/// Relies on semver::Version::parse: whether it accepts `s` depends on
/// `s` alone.
#[verifier::external_body]
pub fn check_version(s: &str) -> (r: bool)
    ensures
        r == version_valid(s@),
{
    semver::Version::parse(s).is_ok()
}

/// Relies on semver::VersionReq::parse: whether it accepts `s` depends on
/// `s` alone.
#[verifier::external_body]
pub fn check_req(s: &str) -> (r: bool)
    ensures
        r == req_valid(s@),
{
    semver::VersionReq::parse(s).is_ok()
}

/// Relies on semver::VersionReq::matches, after semver::VersionReq::parse
/// and semver::Version::parse turn the two strings into the crate's own
/// types; the verdict depends on the two strings alone. Both parses
/// succeed by the preconditions.
#[verifier::external_body]
pub fn req_matches(req: &str, ver: &str) -> (r: bool)
    requires
        req_valid(req@),
        version_valid(ver@),
    ensures
        r == satisfies(req@, ver@),
{
    let parsed_req = semver::VersionReq::parse(req).unwrap();
    let parsed_ver = semver::Version::parse(ver).unwrap();
    parsed_req.matches(&parsed_ver)
}

/// Relies on semver::Version's `Ord`, after semver::Version::parse on the
/// two strings; the verdict depends on the two strings alone. Both parses
/// succeed by the preconditions. `Ord` is documented as a total order,
/// which the last three clauses state of this call's outcome: when the
/// answer is no, `b` precedes `a`; and whatever precedes the lower of the
/// two also precedes the higher.
#[verifier::external_body]
pub fn version_le_exec(a: &str, b: &str) -> (r: bool)
    requires
        version_valid(a@),
        version_valid(b@),
    ensures
        r == version_le(a@, b@),
        r || version_le(b@, a@),
        r ==> (forall|x: Seq<char>|
            version_valid(x) && version_le(x, a@) ==> version_le(x, b@)),
        !r ==> (forall|x: Seq<char>|
            version_valid(x) && version_le(x, b@) ==> version_le(x, a@)),
{
    semver::Version::parse(a).unwrap() <= semver::Version::parse(b).unwrap()
}

} // verus!
