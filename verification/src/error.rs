//! The library's error type.

use vstd::prelude::*;

verus! {

/// Everything that can go wrong in skillctl.
///
/// The rendered message of each variant is the application's concern; the
/// library keeps the data that the message is made of.
#[derive(Debug)]
pub enum Error {
    /// A file could not be read or written.
    Io { path: String, message: String },
    /// A skill id, namespace or name breaks the id grammar.
    InvalidSkillId(String),
    /// A `SKILL.md` document is unusable.
    InvalidSkill(String),
    /// A profile document is unusable.
    InvalidProfile(String),
    /// No skill matches the query.
    SkillNotFound(String),
    /// No profile of that name is installed.
    ProfileNotFound(String),
    /// A bare name matches several skills.
    AmbiguousSkillName { name: String, matches: Vec<String> },
    /// No project encloses the directory.
    NotAProject(String),
    /// The project is not on the trust list.
    UntrustedProject(String),
    /// A required binary or runtime is missing.
    DependencyMissing(String),
    /// A source could not be resolved or fetched.
    Source(String),
    /// An installed file does not have the recorded checksum.
    ChecksumMismatch { id: String, expected: String, found: String },
    /// Anything else, with its message.
    Other(String),
}

impl Error {
    /// An `Other` error with the given message.
    pub fn other(msg: String) -> (e: Error)
        ensures
            e matches Error::Other(m) && m@ == msg@,
    {
        Error::Other(msg)
    }
}

} // verus!
