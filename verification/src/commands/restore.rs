//! `skillctl restore`: checking installed skills against the lock or the
//! registry, and fetching again those that are missing or changed.

use vstd::prelude::*;
use crate::digest::{hex_seq, sha256_of, checksum_matches};
use crate::error::Error;
use crate::source::{restore_source, restore_source_outcome, Source};
use crate::store::{joined, path_join, GlobalEntry};
use crate::text::{concat, push_str};

verus! {

/// The arguments of `skillctl restore`.
pub struct Args {
    /// Restore every installed skill.
    pub global: bool,
    /// Restore the project's locked skills.
    pub project: bool,
}

/// Whether the project's skills are meant rather than every installed one:
/// `--project` wins, then `--global`; without either, the project's when
/// one encloses the working directory.
pub fn project_first(project: bool, global: bool, in_project: bool) -> (r: bool)
    ensures
        r == (project || (!global && in_project)),
{
    if project {
        true
    } else if global {
        false
    } else {
        in_project
    }
}

/// What restoring one skill does.
#[derive(Debug)]
pub enum RestoreStep {
    /// The installed `SKILL.md` has the recorded checksum.
    Verified,
    /// Fetch it again from this source.
    Refetch(Source),
}

/// The installed bytes exist and have the recorded checksum.
pub open spec fn intact(installed: Option<&[u8]>, checksum: Seq<char>) -> bool {
    match installed {
        Some(b) => "sha256:"@ + hex_seq(sha256_of(b@)) == checksum,
        None => false,
    }
}

/// Decides what to do with the skill `id`, installed as `entry` (if the
/// registry has it), whose installed `SKILL.md` holds `installed` (if it
/// exists).
pub fn restore_step(id: &str, entry: Option<&GlobalEntry>, installed: Option<&[u8]>) -> (r: Result<RestoreStep, Error>)
    ensures
        entry is None ==> (r matches Err(Error::SkillNotFound(m)) && m@ == id@
            + " not in global registry"@),
        entry matches Some(e) ==> {
            &&& intact(installed, e.checksum@) ==> (r matches Ok(RestoreStep::Verified))
            &&& !intact(installed, e.checksum@) ==> exists|res: Result<Source, Error>|
                #![trigger restore_source_outcome(id@, *e, res)]
                restore_source_outcome(id@, *e, res) && match res {
                    Ok(s) => r matches Ok(RestoreStep::Refetch(s2)) && s2 == s,
                    Err(err) => r matches Err(e2) && e2 == err,
                }
        },
{
    let e = match entry {
        Some(e) => e,
        None => {
            return Err(Error::SkillNotFound(concat(id, " not in global registry")));
        },
    };
    if let Some(b) = installed {
        if checksum_matches(b, e.checksum.as_str()) {
            return Ok(RestoreStep::Verified);
        }
    }
    let res = restore_source(id, e);
    proof {
        assert(restore_source_outcome(id@, *e, res));
    }
    match res {
        Ok(s) => Ok(RestoreStep::Refetch(s)),
        Err(err) => Err(err),
    }
}

/// The `SKILL.md` of a fetched tree: the fetched path itself when it is a
/// file, else the one at its root.
pub fn fetched_skill_md(root: &str, root_is_file: bool) -> (r: String)
    ensures
        root_is_file ==> r@ == root@,
        !root_is_file ==> r@ == joined(root@, "SKILL.md"@),
{
    if root_is_file {
        root.to_owned()
    } else {
        path_join(root, "SKILL.md")
    }
}

} // verus!
