//! `skillctl describe`: the structured capabilities of one skill.

use vstd::prelude::*;
use crate::id::SkillId;
use crate::protocol::{DescribeResponse, PROTOCOL_VERSION};
use crate::skill::{derive_summary, opt_view, summary_of, BinaryReq, Requires, SkillDoc};
use crate::types::{clone_opt, clone_strings, Tier};

verus! {

/// The arguments of `skillctl describe`.
pub struct Args {
    /// A full id or a short name.
    pub id: String,
    /// Only the catalog fields.
    pub brief: bool,
    /// Everything (the default).
    pub detail: bool,
    /// Look the skill up in the global library rather than the project.
    pub global: bool,
}

/// `a` and `b` declare the same requirements.
pub open spec fn same_requires(a: Requires, b: Requires) -> bool {
    a.binaries@ == b.binaries@ && a.env@ == b.env@ && a.runtimes@ == b.runtimes@
}

/// A copy of a skill's requirements.
pub fn clone_requires(r: &Requires) -> (c: Requires)
    ensures
        same_requires(c, *r),
{
    let mut binaries: Vec<BinaryReq> = Vec::new();
    let mut i: usize = 0;
    while i < r.binaries.len()
        invariant
            0 <= i <= r.binaries@.len(),
            binaries@ == r.binaries@.take(i as int),
        decreases r.binaries@.len() - i,
    {
        let b = &r.binaries[i];
        binaries.push(BinaryReq { name: b.name.clone(), version: clone_opt(&b.version) });
        proof {
            assert(r.binaries@.take(i + 1) =~= r.binaries@.take(i as int).push(r.binaries@[i as int]));
        }
        i = i + 1;
    }
    proof {
        assert(r.binaries@.take(i as int) =~= r.binaries@);
    }
    Requires {
        binaries,
        env: clone_strings(&r.env),
        runtimes: clone_strings(&r.runtimes),
    }
}

/// The answer of `describe` for the skill `id` (whose text is `id_str`) at
/// `version` and `tier`, whose `SKILL.md` parsed as `doc` and whose
/// directory holds `resources`.
pub fn describe_response(
    id_str: &str,
    id: &SkillId,
    version: &str,
    tier: Tier,
    doc: &SkillDoc,
    resources: Vec<String>,
) -> (r: DescribeResponse)
    ensures
        r.protocol == PROTOCOL_VERSION,
        r.id@ == id_str@,
        r.name@ == id.name@,
        r.namespace@ == id.namespace@,
        r.version@ == version@,
        r.tier == tier,
        r.summary@ == summary_of(
            opt_view(doc.frontmatter.metadata.summary),
            doc.frontmatter.description@,
        ),
        r.description == doc.frontmatter.description,
        r.commands@.len() == 0,
        r.tags@ == doc.frontmatter.metadata.tags@,
        r.languages@ == doc.frontmatter.metadata.languages@,
        r.triggers@ == doc.frontmatter.metadata.triggers@,
        same_requires(r.requires, doc.frontmatter.metadata.requires),
        r.resources == resources,
{
    let m = &doc.frontmatter.metadata;
    DescribeResponse {
        protocol: PROTOCOL_VERSION,
        id: id_str.to_owned(),
        name: id.name.as_str().to_owned(),
        namespace: id.namespace.as_str().to_owned(),
        version: version.to_owned(),
        tier,
        summary: derive_summary(&doc.frontmatter),
        description: doc.frontmatter.description.clone(),
        commands: Vec::new(),
        tags: clone_strings(&m.tags),
        languages: clone_strings(&m.languages),
        triggers: clone_strings(&m.triggers),
        requires: clone_requires(&m.requires),
        resources,
    }
}

} // verus!
