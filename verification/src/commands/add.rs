//! `skillctl add`: installing skills from a source into the global
//! library — one skill, every skill of a repository, or a catalog of the
//! candidates to choose from.

use vstd::prelude::*;
use crate::error::Error;
use crate::id::{parse_outcome, valid_segment, SkillId, SkillName, NAME_MAX};
use crate::protocol::{tsv_clean, tsv_clean_seq};
use crate::skill::{derive_summary, opt_view, summary_of, Frontmatter, SkillDoc};
use crate::source::{Fetched, Source};
use crate::store::{parent_of, parent_path, GlobalEntry};
use crate::text::{chars_of, concat, has_prefix, push_char, push_str, starts_with_str, str_eq, substring};
use crate::types::{clone_opt, clone_strings};

verus! {

/// The arguments of `skillctl add`.
pub struct Args {
    /// A local path, `github:owner/repo[/path][@ref]` or a URL.
    pub source: String,
    /// Install as this id (a single skill only).
    pub as_id: Option<String>,
    /// Install every skill of a repository that holds several.
    pub all: bool,
}

/// What `add` does with a fetched tree.
#[derive(Clone, Copy, Debug, PartialEq, Eq, Structural)]
pub enum AddMode {
    /// The tree is one skill: install it.
    Single,
    /// Install every candidate.
    Bulk,
    /// Show the candidates.
    Discover,
}

/// Decides what `add` does: a tree whose root is a skill is installed as
/// one; otherwise its candidates are installed with `--all`, or listed.
pub fn add_mode(root: &str, root_is_skill: bool, candidates: usize, all: bool) -> (r: Result<AddMode, Error>)
    ensures
        root_is_skill ==> r == Ok::<AddMode, Error>(AddMode::Single),
        !root_is_skill && candidates == 0 ==> (r matches Err(Error::Other(m)) && m@
            == "no SKILL.md found at "@ + root@ + " or in skills/*/"@),
        !root_is_skill && candidates > 0 && all ==> r == Ok::<AddMode, Error>(AddMode::Bulk),
        !root_is_skill && candidates > 0 && !all ==> r == Ok::<AddMode, Error>(AddMode::Discover),
{
    if root_is_skill {
        return Ok(AddMode::Single);
    }
    if candidates == 0 {
        let mut m = concat("no SKILL.md found at ", root);
        push_str(&mut m, " or in skills/*/");
        return Err(Error::Other(m));
    }
    if all {
        Ok(AddMode::Bulk)
    } else {
        Ok(AddMode::Discover)
    }
}

/// The id a skill is installed under: the one forced with `--as`, else
/// the frontmatter's `metadata.namespace` and `name`.
pub fn install_id(forced: Option<&str>, fm: &Frontmatter) -> (r: Result<SkillId, Error>)
    ensures
        forced matches Some(f) ==> parse_outcome(f@, r),
        forced is None && fm.metadata.namespace is None ==> (r matches Err(Error::Other(m)) && m@
            == "metadata.namespace missing for `"@ + fm.name@
            + "`; pass --as <namespace/name>"@),
        forced is None && fm.metadata.namespace is Some ==> if valid_segment(
            fm.name@,
            NAME_MAX as nat,
        ) {
            r matches Ok(id) && Some(id.namespace) == fm.metadata.namespace && id.name@ == fm.name@
        } else {
            r matches Err(Error::InvalidSkillId(m)) && m@ == "invalid name: "@ + fm.name@
        },
{
    match forced {
        Some(f) => SkillId::parse(f),
        None => {
            let ns = match &fm.metadata.namespace {
                Some(ns) => ns.clone(),
                None => {
                    let mut m = concat("metadata.namespace missing for `", fm.name.as_str());
                    push_str(&mut m, "`; pass --as <namespace/name>");
                    return Err(Error::Other(m));
                },
            };
            let name = SkillName::parse(fm.name.as_str())?;
            Ok(SkillId { namespace: ns, name })
        },
    }
}

/// The registry record of a skill installed under `id` from `fetched`,
/// whose `SKILL.md` has the frontmatter `fm` and the checksum `checksum`.
pub open spec fn is_registry_entry(
    e: GlobalEntry,
    id: SkillId,
    fm: Frontmatter,
    source: Source,
    fetched: Fetched,
    checksum: Seq<char>,
) -> bool {
    &&& e.id@ == id.text()
    &&& e.namespace@ == id.namespace@
    &&& e.name@ == id.name@
    &&& e.version == fm.version
    &&& e.source == fetched.source_kind
    &&& e.local_path == (match source {
        Source::Local { path } => Some(path),
        _ => None,
    })
    &&& e.repo == fetched.repo
    &&& e.commit == fetched.commit
    &&& e.checksum@ == checksum
    &&& e.summary@ == summary_of(opt_view(fm.metadata.summary), fm.description@)
    &&& e.triggers@ == fm.metadata.triggers@
    &&& e.languages@ == fm.metadata.languages@
    &&& e.tags@ == fm.metadata.tags@
}

/// The registry record of a freshly installed skill.
pub fn registry_entry(
    id: &SkillId,
    fm: &Frontmatter,
    source: &Source,
    fetched: &Fetched,
    checksum: &str,
) -> (e: GlobalEntry)
    ensures
        is_registry_entry(e, *id, *fm, *source, *fetched, checksum@),
{
    let local_path = match source {
        Source::Local { path } => Some(path.clone()),
        _ => None,
    };
    GlobalEntry {
        id: id.to_string(),
        namespace: id.namespace.as_str().to_owned(),
        name: id.name.as_str().to_owned(),
        version: fm.version.clone(),
        source: fetched.source_kind.clone(),
        local_path,
        repo: clone_opt(&fetched.repo),
        commit: clone_opt(&fetched.commit),
        checksum: checksum.to_owned(),
        summary: derive_summary(fm),
        triggers: clone_strings(&fm.metadata.triggers),
        languages: clone_strings(&fm.metadata.languages),
        tags: clone_strings(&fm.metadata.tags),
    }
}

/// The files of a skill directory that installing does not copy: the git
/// metadata and the `SKILL.md` itself (written separately).
pub open spec fn copy_skipped(rel: Seq<char>) -> bool {
    has_prefix(rel, ".git/"@) || rel == ".git"@ || rel == "SKILL.md"@
}

/// Whether installing skips the file at relative path `rel`.
pub fn copy_skips(rel: &str) -> (b: bool)
    ensures
        b == copy_skipped(rel@),
{
    starts_with_str(rel, ".git/") || str_eq(rel, ".git") || str_eq(rel, "SKILL.md")
}

/// The directory whose files are copied for a skill: the parent of its
/// `SKILL.md`, or the skill root when that has none.
pub fn copy_source_dir(skill_root: &str, skill_md: &str) -> (r: String)
    ensures
        match parent_of(skill_md@) {
            Some(p) => r@ == p,
            None => r@ == skill_root@,
        },
{
    match parent_path(skill_md) {
        Some(p) => p,
        None => skill_root.to_owned(),
    }
}

/// The root of a discovered skill: the directory of its `SKILL.md`.
pub fn skill_root_of(skill_md: &str) -> (r: Result<String, Error>)
    ensures
        match parent_of(skill_md@) {
            Some(p) => r matches Ok(s) && s@ == p,
            None => r matches Err(Error::Other(m)) && m@ == "invalid skill_md: "@ + skill_md@,
        },
{
    match parent_path(skill_md) {
        Some(p) => Ok(p),
        None => Err(Error::Other(concat("invalid skill_md: ", skill_md))),
    }
}

/// One candidate of a repository that holds several skills.
#[derive(Debug)]
pub struct DiscoveredView {
    pub name: String,
    pub namespace: Option<String>,
    pub path: String,
    pub version: String,
    pub description: String,
}

/// The catalog record of a candidate whose `SKILL.md` parsed as `doc`.
pub fn discovered_view(doc: &SkillDoc, rel_path: &str) -> (v: DiscoveredView)
    ensures
        v.name == doc.frontmatter.name,
        match doc.frontmatter.metadata.namespace {
            Some(ns) => v.namespace matches Some(s) && s@ == ns@,
            None => v.namespace is None,
        },
        v.path@ == rel_path@,
        v.version == doc.frontmatter.version,
        v.description@ == summary_of(
            opt_view(doc.frontmatter.metadata.summary),
            doc.frontmatter.description@,
        ),
{
    DiscoveredView {
        name: doc.frontmatter.name.clone(),
        namespace: match &doc.frontmatter.metadata.namespace {
            Some(ns) => Some(ns.as_str().to_owned()),
            None => None,
        },
        path: rel_path.to_owned(),
        version: doc.frontmatter.version.clone(),
        description: derive_summary(&doc.frontmatter),
    }
}

/// A catalog description: cleaned for TSV and cut to 80 characters, the
/// last kept one replaced by `…`.
pub open spec fn catalog_description(d: Seq<char>) -> Seq<char> {
    let c = tsv_clean_seq(d);
    if c.len() > 80 {
        c.take(79).push('…')
    } else {
        c
    }
}

/// The TSV line of one candidate: name, namespace, path and description.
pub open spec fn catalog_row(v: DiscoveredView) -> Seq<char> {
    tsv_clean_seq(v.name@) + "\t"@ + match v.namespace {
        Some(ns) => ns@,
        None => Seq::empty(),
    } + "\t"@ + tsv_clean_seq(v.path@) + "\t"@ + catalog_description(v.description@)
}

/// The catalog of the candidates as TSV: a header, then one line each.
pub fn catalog_tsv(views: &Vec<DiscoveredView>) -> (lines: Vec<String>)
    ensures
        lines@.len() == views@.len() + 1,
        lines@[0]@ == "NAME\tNAMESPACE\tPATH\tDESCRIPTION"@,
        forall|k: int| 0 <= k < views@.len() ==> (#[trigger] lines@[k + 1])@ == catalog_row(views@[k]),
{
    let mut lines: Vec<String> = Vec::new();
    lines.push("NAME\tNAMESPACE\tPATH\tDESCRIPTION".to_owned());
    let mut i: usize = 0;
    while i < views.len()
        invariant
            0 <= i <= views@.len(),
            lines@.len() == i + 1,
            lines@[0]@ == "NAME\tNAMESPACE\tPATH\tDESCRIPTION"@,
            forall|k: int| 0 <= k < i ==> (#[trigger] lines@[k + 1])@ == catalog_row(views@[k]),
        decreases views@.len() - i,
    {
        let v = &views[i];
        let desc = tsv_clean(v.description.as_str());
        let dc = chars_of(desc.as_str());
        let desc = if dc.len() > 80 {
            let mut t = substring(dc.as_slice(), 0, 79);
            push_char(&mut t, '…');
            t
        } else {
            desc
        };
        let mut line = tsv_clean(v.name.as_str());
        push_str(&mut line, "\t");
        match &v.namespace {
            Some(ns) => push_str(&mut line, ns.as_str()),
            None => {},
        }
        push_str(&mut line, "\t");
        push_str(&mut line, tsv_clean(v.path.as_str()).as_str());
        push_str(&mut line, "\t");
        push_str(&mut line, desc.as_str());
        proof {
            assert(line@ == catalog_row(*v));
        }
        lines.push(line);
        i = i + 1;
    }
    lines
}

/// The `SKILL.md` of a skill root: the root itself when it is a file named
/// `SKILL.md`, else the `SKILL.md` inside it when there is one.
pub fn locate_skill_md(root: &str, root_is_skill_file: bool, inner_exists: bool) -> (r: Result<String, Error>)
    ensures
        root_is_skill_file ==> (r matches Ok(p) && p@ == root@),
        !root_is_skill_file && inner_exists ==> (r matches Ok(p) && p@ == crate::store::joined(
            root@,
            "SKILL.md"@,
        )),
        !root_is_skill_file && !inner_exists ==> (r matches Err(Error::Other(m)) && m@
            == "SKILL.md not found at "@ + root@),
{
    if root_is_skill_file {
        return Ok(root.to_owned());
    }
    if inner_exists {
        return Ok(crate::store::path_join(root, "SKILL.md"));
    }
    Err(Error::Other(concat("SKILL.md not found at ", root)))
}

} // verus!
