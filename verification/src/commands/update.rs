//! `skillctl update`: fetching installed skills again and refreshing their
//! registry records.

use vstd::prelude::*;
use crate::error::Error;
use crate::id::{valid_segment, Namespace, SkillId, SkillName, NAMESPACE_MAX, NAME_MAX};
use crate::skill::{derive_summary, opt_view, summary_of, SkillDoc};
use crate::store::{short_outcome, GlobalEntry, GlobalStore, RegistryLock};
use crate::strmap::keys_of;
use crate::text::{str_eq, views};
use crate::types::{clone_opt, clone_strings};

verus! {

/// The arguments of `skillctl update`.
pub struct Args {
    /// One skill; every installed skill without.
    pub id: Option<String>,
    pub global: bool,
    pub project: bool,
    /// Allow updates across breaking versions.
    pub breaking: bool,
}

/// The skills a command acts on: the one named by `query` (resolved
/// against the registry), or every installed skill.
pub fn target_ids(store: &GlobalStore, reg: &RegistryLock, query: Option<&str>) -> (r: Result<Vec<String>, Error>)
    ensures
        query is None ==> (r matches Ok(v) && views(v@) == keys_of(reg.skills@)),
        query matches Some(q) ==> exists|res: Result<SkillId, Error>|
            #![trigger short_outcome(reg.skills@, q@, res)]
            short_outcome(reg.skills@, q@, res) && match res {
                Ok(id) => r matches Ok(v) && v@.len() == 1 && v@[0]@ == id.text(),
                Err(e) => r == Err::<Vec<String>, Error>(e),
            },
{
    match query {
        Some(q) => {
            let res = store.resolve_short(reg, q);
            proof {
                assert(short_outcome(reg.skills@, q@, res));
            }
            match res {
                Ok(id) => {
                    let mut v: Vec<String> = Vec::new();
                    v.push(id.to_string());
                    Ok(v)
                },
                Err(e) => Err(e),
            }
        },
        None => Ok(reg.skills.keys()),
    }
}

/// `a` and `b` record the same installed skill.
pub open spec fn same_entry(a: GlobalEntry, b: GlobalEntry) -> bool {
    &&& a.id@ == b.id@
    &&& a.namespace@ == b.namespace@
    &&& a.name@ == b.name@
    &&& a.version@ == b.version@
    &&& a.source@ == b.source@
    &&& a.local_path == b.local_path
    &&& a.repo == b.repo
    &&& a.commit == b.commit
    &&& a.checksum@ == b.checksum@
    &&& a.summary@ == b.summary@
    &&& a.triggers@ == b.triggers@
    &&& a.languages@ == b.languages@
    &&& a.tags@ == b.tags@
}

/// A copy of an installed skill's record.
pub fn clone_entry(e: &GlobalEntry) -> (c: GlobalEntry)
    ensures
        same_entry(c, *e),
{
    GlobalEntry {
        id: e.id.clone(),
        namespace: e.namespace.clone(),
        name: e.name.clone(),
        version: e.version.clone(),
        source: e.source.clone(),
        local_path: clone_opt(&e.local_path),
        repo: clone_opt(&e.repo),
        commit: clone_opt(&e.commit),
        checksum: e.checksum.clone(),
        summary: e.summary.clone(),
        triggers: clone_strings(&e.triggers),
        languages: clone_strings(&e.languages),
        tags: clone_strings(&e.tags),
    }
}

/// The id a fetched skill is installed under again: the namespace its
/// frontmatter declares (else the recorded one) and the recorded name.
pub fn update_id(e: &GlobalEntry, doc: &SkillDoc) -> (r: Result<SkillId, Error>)
    ensures
        doc.frontmatter.metadata.namespace is None && !valid_segment(
            e.namespace@,
            NAMESPACE_MAX as nat,
        ) ==> (r matches Err(Error::InvalidSkillId(m)) && m@ == "invalid namespace: "@
            + e.namespace@),
        (doc.frontmatter.metadata.namespace is Some || valid_segment(
            e.namespace@,
            NAMESPACE_MAX as nat,
        )) ==> if valid_segment(e.name@, NAME_MAX as nat) {
            r matches Ok(id) && id.name@ == e.name@ && match doc.frontmatter.metadata.namespace {
                Some(ns) => id.namespace == ns,
                None => id.namespace@ == e.namespace@,
            }
        } else {
            r matches Err(Error::InvalidSkillId(m)) && m@ == "invalid name: "@ + e.name@
        },
{
    let ns = match &doc.frontmatter.metadata.namespace {
        Some(n) => n.clone(),
        None => Namespace::parse(e.namespace.as_str())?,
    };
    let name = SkillName::parse(e.name.as_str())?;
    Ok(SkillId { namespace: ns, name })
}

/// The record after fetching a skill again, when its version or checksum
/// changed: the new version, checksum, commit and summary; `None` when
/// nothing changed.
pub fn refreshed_entry(e: &GlobalEntry, doc: &SkillDoc, checksum: &str, commit: Option<String>) -> (r: Option<GlobalEntry>)
    ensures
        (e.version@ == doc.frontmatter.version@ && e.checksum@ == checksum@) ==> r is None,
        !(e.version@ == doc.frontmatter.version@ && e.checksum@ == checksum@) ==> (r matches Some(n)
            && n.version@ == doc.frontmatter.version@ && n.checksum@ == checksum@ && n.commit
            == commit && n.summary@ == summary_of(
            opt_view(doc.frontmatter.metadata.summary),
            doc.frontmatter.description@,
        ) && n.id@ == e.id@ && n.namespace@ == e.namespace@ && n.name@ == e.name@ && n.source@
            == e.source@ && n.local_path == e.local_path && n.repo == e.repo && n.triggers@
            == e.triggers@ && n.languages@ == e.languages@ && n.tags@ == e.tags@),
{
    if str_eq(e.version.as_str(), doc.frontmatter.version.as_str()) && str_eq(
        e.checksum.as_str(),
        checksum,
    ) {
        return None;
    }
    let mut n = clone_entry(e);
    n.version = doc.frontmatter.version.clone();
    n.checksum = checksum.to_owned();
    n.commit = commit;
    n.summary = derive_summary(&doc.frontmatter);
    Some(n)
}

} // verus!
