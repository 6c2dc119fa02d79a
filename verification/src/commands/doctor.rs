//! `skillctl doctor`: whether the binaries and environment variables that
//! skills require are there.

use vstd::prelude::*;
use crate::error::Error;
use crate::skill::{BinaryReq, Requires};
use crate::types::clone_opt;

verus! {

/// The arguments of `skillctl doctor`.
pub struct Args {
    /// One skill; otherwise the project's skills, or every installed one.
    pub id: Option<String>,
    /// Check the enclosing project's skills.
    pub project: bool,
}

/// Which skills a `doctor` run checks.
#[derive(Clone, Copy, Debug, PartialEq, Eq, Structural)]
pub enum DoctorScope {
    /// The one named skill.
    One,
    /// The skills of the enclosing project.
    Project,
    /// Every installed skill.
    Registry,
}

/// Decides which skills to check: a named one; with `--project` those of
/// the enclosing project, which must exist; else those of the enclosing
/// project if there is one, or every installed skill.
pub fn doctor_scope(args: &Args, in_project: bool, cwd: &str) -> (r: Result<DoctorScope, Error>)
    ensures
        args.id is Some ==> r == Ok::<DoctorScope, Error>(DoctorScope::One),
        args.id is None && args.project && !in_project ==> (r matches Err(Error::NotAProject(p))
            && p@ == cwd@),
        args.id is None && in_project ==> r == Ok::<DoctorScope, Error>(DoctorScope::Project),
        args.id is None && !args.project && !in_project ==> r == Ok::<DoctorScope, Error>(
            DoctorScope::Registry,
        ),
{
    if args.id.is_some() {
        Ok(DoctorScope::One)
    } else if in_project {
        Ok(DoctorScope::Project)
    } else if args.project {
        Err(Error::NotAProject(cwd.to_owned()))
    } else {
        Ok(DoctorScope::Registry)
    }
}

/// One check of one requirement.
#[derive(Debug)]
pub struct CheckItem {
    /// `binary` or `env`.
    pub kind: String,
    pub name: String,
    pub required: Option<String>,
    pub found: Option<String>,
    pub ok: bool,
}

/// The checks of one skill.
#[derive(Debug)]
pub struct SkillCheck {
    pub id: String,
    pub checks: Vec<CheckItem>,
}

/// The check of a required binary, found at `found` on `PATH` or not.
pub open spec fn is_binary_check(c: CheckItem, b: BinaryReq, found: Option<String>) -> bool {
    &&& c.kind@ == "binary"@
    &&& c.name == b.name
    &&& c.required == b.version
    &&& c.found == found
    &&& c.ok == found is Some
}

/// The check of a required environment variable, set or not.
pub open spec fn is_env_check(c: CheckItem, name: String, set: bool) -> bool {
    &&& c.kind@ == "env"@
    &&& c.name == name
    &&& c.required is None
    &&& (set ==> (c.found matches Some(f) && f@ == "set"@))
    &&& (!set ==> c.found is None)
    &&& c.ok == set
}

/// The checks of a skill with requirements `reqs`: one per binary (found
/// where `found_bins` says), then one per environment variable (set where
/// `env_set` says).
pub fn skill_checks(id: String, reqs: &Requires, found_bins: Vec<Option<String>>, env_set: &Vec<bool>) -> (s: SkillCheck)
    requires
        found_bins@.len() == reqs.binaries@.len(),
        env_set@.len() == reqs.env@.len(),
    ensures
        s.id == id,
        s.checks@.len() == reqs.binaries@.len() + reqs.env@.len(),
        forall|k: int|
            0 <= k < reqs.binaries@.len() ==> is_binary_check(
                #[trigger] s.checks@[k],
                reqs.binaries@[k],
                found_bins@[k],
            ),
        forall|k: int|
            0 <= k < reqs.env@.len() ==> is_env_check(
                #[trigger] s.checks@[reqs.binaries@.len() + k],
                reqs.env@[k],
                env_set@[k],
            ),
{
    let mut checks: Vec<CheckItem> = Vec::new();
    let nb = reqs.binaries.len();
    let mut i: usize = 0;
    while i < nb
        invariant
            0 <= i <= nb,
            nb == reqs.binaries@.len(),
            found_bins@.len() == nb,
            checks@.len() == i,
            forall|k: int|
                0 <= k < i ==> is_binary_check(#[trigger] checks@[k], reqs.binaries@[k], found_bins@[k]),
        decreases nb - i,
    {
        let b = &reqs.binaries[i];
        let found = clone_opt(&found_bins[i]);
        let ok = found.is_some();
        checks.push(
            CheckItem {
                kind: "binary".to_owned(),
                name: b.name.clone(),
                required: clone_opt(&b.version),
                found,
                ok,
            },
        );
        i = i + 1;
    }
    let ne = reqs.env.len();
    let mut j: usize = 0;
    while j < ne
        invariant
            0 <= j <= ne,
            nb == reqs.binaries@.len(),
            ne == reqs.env@.len(),
            env_set@.len() == ne,
            checks@.len() == nb + j,
            forall|k: int|
                0 <= k < nb ==> is_binary_check(#[trigger] checks@[k], reqs.binaries@[k], found_bins@[k]),
            forall|k: int|
                0 <= k < j ==> is_env_check(#[trigger] checks@[nb + k], reqs.env@[k], env_set@[k]),
        decreases ne - j,
    {
        let set = env_set[j];
        checks.push(
            CheckItem {
                kind: "env".to_owned(),
                name: reqs.env[j].clone(),
                required: None,
                found: if set {
                    Some("set".to_owned())
                } else {
                    None
                },
                ok: set,
            },
        );
        j = j + 1;
    }
    SkillCheck { id, checks }
}

/// Every check of every skill passed.
pub fn doctor_ok(skills: &Vec<SkillCheck>) -> (b: bool)
    ensures
        b == forall|i: int, k: int|
            0 <= i < skills@.len() && 0 <= k < skills@[i].checks@.len() ==> (
            #[trigger] skills@[i].checks@[k]).ok,
{
    let mut i: usize = 0;
    while i < skills.len()
        invariant
            0 <= i <= skills@.len(),
            forall|a: int, k: int|
                0 <= a < i && 0 <= k < skills@[a].checks@.len() ==> (
                #[trigger] skills@[a].checks@[k]).ok,
        decreases skills@.len() - i,
    {
        let mut k: usize = 0;
        while k < skills[i].checks.len()
            invariant
                0 <= k <= skills@[i as int].checks@.len(),
                i < skills@.len(),
                forall|j: int| 0 <= j < k ==> (#[trigger] skills@[i as int].checks@[j]).ok,
            decreases skills@[i as int].checks@.len() - k,
        {
            if !skills[i].checks[k].ok {
                return false;
            }
            k = k + 1;
        }
        i = i + 1;
    }
    true
}

} // verus!
