//! Version constraints and the exact facts a lock records.

use vstd::prelude::*;

verus! {

/// `semver::VersionReq`, carried through as it is.
#[verifier::external_type_specification]
#[verifier::external_body]
pub struct ExVersionReq(semver::VersionReq);

/// A version constraint. Precedence: commit, tag, branch, semver range,
/// latest.
pub enum Constraint {
    Latest,
    Semver(semver::VersionReq),
    Tag(String),
    Branch(String),
    Commit(String),
}

/// The exact version facts written to a lock.
#[derive(Debug)]
pub struct Resolved {
    pub version: String,
    pub commit: Option<String>,
    pub checksum: Option<String>,
}

} // verus!
