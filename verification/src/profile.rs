//! Profiles: a user's curated set of skills for a kind of project.

use vstd::prelude::*;
use crate::id::SkillId;
use crate::strmap::{as_map, StrMap};
use crate::types::{clone_opt, Tier};

verus! {

/// How a profile or manifest refers to one skill.
#[derive(Debug)]
pub enum SkillSpec {
    /// The short form: `"deps" = "*"`.
    Version(String),
    /// The full form: `{ version = "1.2.0", path = "..." }`.
    Detailed {
        version: Option<String>,
        path: Option<String>,
        git: Option<String>,
        rev: Option<String>,
    },
}

/// The version requirement of a spec: its version, or `*` when it names
/// none.
pub open spec fn version_req_of(spec: SkillSpec) -> Seq<char> {
    match spec {
        SkillSpec::Version(v) => v@,
        SkillSpec::Detailed { version: Some(v), .. } => v@,
        SkillSpec::Detailed { .. } => "*"@,
    }
}

impl SkillSpec {
    /// The version requirement.
    pub fn version_req(&self) -> (r: &str)
        ensures
            r@ == version_req_of(*self),
    {
        match self {
            SkillSpec::Version(v) => v.as_str(),
            SkillSpec::Detailed { version: Some(v), .. } => v.as_str(),
            SkillSpec::Detailed { .. } => "*",
        }
    }

    /// A copy.
    pub fn clone(&self) -> (r: SkillSpec)
        ensures
            r == *self,
    {
        match self {
            SkillSpec::Version(v) => SkillSpec::Version(v.clone()),
            SkillSpec::Detailed { version, path, git, rev } => SkillSpec::Detailed {
                version: clone_opt(version),
                path: clone_opt(path),
                git: clone_opt(git),
                rev: clone_opt(rev),
            },
        }
    }
}

/// A profile's own description.
#[derive(Debug)]
pub struct ProfileMeta {
    pub name: String,
    pub description: Option<String>,
    pub author: Option<String>,
    pub homepage: Option<String>,
}

/// The `[skills.core]` and `[skills.extra]` tables.
#[derive(Debug)]
pub struct SkillsTable {
    pub core: StrMap<SkillSpec>,
    pub extra: StrMap<SkillSpec>,
}

/// An installed profile.
#[derive(Debug)]
pub struct Profile {
    pub profile: ProfileMeta,
    pub skills: SkillsTable,
}

impl SkillsTable {
    /// Empty tables.
    pub fn new() -> (t: SkillsTable)
        ensures
            t.core@.len() == 0,
            t.extra@.len() == 0,
    {
        SkillsTable { core: StrMap::new(), extra: StrMap::new() }
    }
}

/// The union of the core tables of `ps`, a key taking its spec from the
/// first profile that has it.
pub open spec fn merged_core(ps: Seq<Profile>) -> Map<Seq<char>, SkillSpec>
    decreases ps.len(),
{
    if ps.len() == 0 {
        Map::empty()
    } else {
        as_map(ps.last().skills.core@).union_prefer_right(merged_core(ps.drop_last()))
    }
}

/// The union of the extra tables of `ps`, first profile winning.
pub open spec fn merged_extra(ps: Seq<Profile>) -> Map<Seq<char>, SkillSpec>
    decreases ps.len(),
{
    if ps.len() == 0 {
        Map::empty()
    } else {
        as_map(ps.last().skills.extra@).union_prefer_right(merged_extra(ps.drop_last()))
    }
}

/// Adds the entries of `src` whose keys `dst` lacks.
fn add_missing(dst: &mut StrMap<SkillSpec>, src: &StrMap<SkillSpec>)
    ensures
        as_map(final(dst)@) == as_map(src@).union_prefer_right(as_map(old(dst)@)),
{
    let n = src.len();
    let ghost d0 = as_map(dst@);
    let mut i: usize = 0;
    while i < n
        invariant
            0 <= i <= n,
            n == src@.len(),
            crate::strmap::sorted_keys(src@),
            as_map(dst@) == as_map(src@.take(i as int)).union_prefer_right(d0),
        decreases n - i,
    {
        let k = src.key_at(i);
        let v = src.value_at(i);
        proof {
            crate::strmap::lemma_take_push_map(src@, i as int);
        }
        if !dst.contains_key(k.as_str()) {
            dst.insert(k.clone(), v.clone());
        }
        proof {
            assert(as_map(dst@) =~= as_map(src@.take(i + 1)).union_prefer_right(d0));
        }
        i = i + 1;
    }
    proof {
        assert(src@.take(n as int) =~= src@);
    }
}

/// The tables of several profiles merged: core and extra are each the union
/// of the profiles' tables, and a skill named by several profiles keeps the
/// spec of the first.
pub fn merge(profiles: &[Profile]) -> (out: SkillsTable)
    ensures
        as_map(out.core@) == merged_core(profiles@),
        as_map(out.extra@) == merged_extra(profiles@),
{
    let mut out = SkillsTable::new();
    proof {
        assert(as_map(out.core@) =~= Map::<Seq<char>, SkillSpec>::empty());
        assert(as_map(out.extra@) =~= Map::<Seq<char>, SkillSpec>::empty());
        assert(profiles@.take(0) =~= Seq::<Profile>::empty());
    }
    let mut i: usize = 0;
    while i < profiles.len()
        invariant
            0 <= i <= profiles@.len(),
            as_map(out.core@) == merged_core(profiles@.take(i as int)),
            as_map(out.extra@) == merged_extra(profiles@.take(i as int)),
        decreases profiles@.len() - i,
    {
        add_missing(&mut out.core, &profiles[i].skills.core);
        add_missing(&mut out.extra, &profiles[i].skills.extra);
        proof {
            assert(profiles@.take(i + 1).drop_last() =~= profiles@.take(i as int));
            assert(profiles@.take(i + 1).last() == profiles@[i as int]);
        }
        i = i + 1;
    }
    proof {
        assert(profiles@.take(profiles@.len() as int) =~= profiles@);
    }
    out
}

/// The tier that the tables give a skill: core when the core table names
/// it, else extra when the extra table does.
pub fn tier_of(table: &SkillsTable, id: &SkillId) -> (r: Option<Tier>)
    ensures
        as_map(table.core@).contains_key(id.text()) ==> r == Some(Tier::Core),
        !as_map(table.core@).contains_key(id.text()) && as_map(table.extra@).contains_key(
            id.text(),
        ) ==> r == Some(Tier::Extra),
        !as_map(table.core@).contains_key(id.text()) && !as_map(table.extra@).contains_key(
            id.text(),
        ) ==> r is None,
{
    let key = id.to_string();
    if table.core.contains_key(key.as_str()) {
        Some(Tier::Core)
    } else if table.extra.contains_key(key.as_str()) {
        Some(Tier::Extra)
    } else {
        None
    }
}

/// The core half of `law_merge_first_wins`.
proof fn lemma_merge_core(ps: Seq<Profile>, k: Seq<char>)
    ensures
        merged_core(ps).contains_key(k) <==> exists|j: int|
            0 <= j < ps.len() && #[trigger] as_map(ps[j].skills.core@).contains_key(k),
        forall|i: int|
            0 <= i < ps.len() && #[trigger] as_map(ps[i].skills.core@).contains_key(k) && (forall|j: int|
                0 <= j < i ==> !as_map(ps[j].skills.core@).contains_key(k)) ==> merged_core(ps)[k]
                == as_map(ps[i].skills.core@)[k],
    decreases ps.len(),
{
    if ps.len() > 0 {
        let q = ps.drop_last();
        lemma_merge_core(q, k);
        assert forall|j: int| 0 <= j < q.len() implies q[j] == ps[j] by {}
        if exists|j: int| 0 <= j < ps.len() && #[trigger] as_map(ps[j].skills.core@).contains_key(k) {
            let j = choose|j: int| 0 <= j < ps.len() && #[trigger] as_map(ps[j].skills.core@).contains_key(k);
            if j < q.len() {
                assert(as_map(q[j].skills.core@).contains_key(k));
            }
        }
        if merged_core(q).contains_key(k) {
            let j = choose|j: int| 0 <= j < q.len() && #[trigger] as_map(q[j].skills.core@).contains_key(k);
            assert(as_map(ps[j].skills.core@).contains_key(k));
        }
        assert forall|i: int|
            0 <= i < ps.len() && #[trigger] as_map(ps[i].skills.core@).contains_key(k) && (forall|j: int|
                0 <= j < i ==> !as_map(ps[j].skills.core@).contains_key(k)) implies merged_core(ps)[k]
                == as_map(ps[i].skills.core@)[k] by {
            if i < q.len() {
                assert(as_map(q[i].skills.core@).contains_key(k));
                assert forall|j: int| 0 <= j < i implies !as_map(q[j].skills.core@).contains_key(k) by {
                    assert(q[j] == ps[j]);
                }
            } else {
                if merged_core(q).contains_key(k) {
                    let j = choose|j: int| 0 <= j < q.len() && #[trigger] as_map(q[j].skills.core@).contains_key(k);
                    assert(ps[j] == q[j]);
                    assert(false);
                }
            }
        }
    }
}

/// The extra half of `law_merge_first_wins`.
proof fn lemma_merge_extra(ps: Seq<Profile>, k: Seq<char>)
    ensures
        merged_extra(ps).contains_key(k) <==> exists|j: int|
            0 <= j < ps.len() && #[trigger] as_map(ps[j].skills.extra@).contains_key(k),
        forall|i: int|
            0 <= i < ps.len() && #[trigger] as_map(ps[i].skills.extra@).contains_key(k) && (forall|j: int|
                0 <= j < i ==> !as_map(ps[j].skills.extra@).contains_key(k)) ==> merged_extra(ps)[k]
                == as_map(ps[i].skills.extra@)[k],
    decreases ps.len(),
{
    if ps.len() > 0 {
        let q = ps.drop_last();
        lemma_merge_extra(q, k);
        assert forall|j: int| 0 <= j < q.len() implies q[j] == ps[j] by {}
        if exists|j: int| 0 <= j < ps.len() && #[trigger] as_map(ps[j].skills.extra@).contains_key(k) {
            let j = choose|j: int| 0 <= j < ps.len() && #[trigger] as_map(ps[j].skills.extra@).contains_key(k);
            if j < q.len() {
                assert(as_map(q[j].skills.extra@).contains_key(k));
            }
        }
        if merged_extra(q).contains_key(k) {
            let j = choose|j: int| 0 <= j < q.len() && #[trigger] as_map(q[j].skills.extra@).contains_key(k);
            assert(as_map(ps[j].skills.extra@).contains_key(k));
        }
        assert forall|i: int|
            0 <= i < ps.len() && #[trigger] as_map(ps[i].skills.extra@).contains_key(k) && (forall|j: int|
                0 <= j < i ==> !as_map(ps[j].skills.extra@).contains_key(k)) implies merged_extra(ps)[k]
                == as_map(ps[i].skills.extra@)[k] by {
            if i < q.len() {
                assert(as_map(q[i].skills.extra@).contains_key(k));
                assert forall|j: int| 0 <= j < i implies !as_map(q[j].skills.extra@).contains_key(k) by {
                    assert(q[j] == ps[j]);
                }
            } else {
                if merged_extra(q).contains_key(k) {
                    let j = choose|j: int| 0 <= j < q.len() && #[trigger] as_map(q[j].skills.extra@).contains_key(k);
                    assert(ps[j] == q[j]);
                    assert(false);
                }
            }
        }
    }
}

/// Merging keeps every skill of every profile: a key is in a merged table
/// exactly when some profile's table of that tier has it, and it keeps the
/// spec of the first profile that has it.
pub proof fn law_merge_first_wins(ps: Seq<Profile>, k: Seq<char>)
    ensures
        merged_core(ps).contains_key(k) <==> exists|j: int|
            0 <= j < ps.len() && #[trigger] as_map(ps[j].skills.core@).contains_key(k),
        forall|i: int|
            0 <= i < ps.len() && #[trigger] as_map(ps[i].skills.core@).contains_key(k) && (forall|j: int|
                0 <= j < i ==> !as_map(ps[j].skills.core@).contains_key(k)) ==> merged_core(ps)[k]
                == as_map(ps[i].skills.core@)[k],
        merged_extra(ps).contains_key(k) <==> exists|j: int|
            0 <= j < ps.len() && #[trigger] as_map(ps[j].skills.extra@).contains_key(k),
        forall|i: int|
            0 <= i < ps.len() && #[trigger] as_map(ps[i].skills.extra@).contains_key(k) && (forall|j: int|
                0 <= j < i ==> !as_map(ps[j].skills.extra@).contains_key(k)) ==> merged_extra(ps)[k]
                == as_map(ps[i].skills.extra@)[k],
{
    lemma_merge_core(ps, k);
    lemma_merge_extra(ps, k);
}

} // verus!
