//! The stores: the global skill library with its registry, the project's
//! manifest and lock, and the trust list.

use vstd::prelude::*;
use crate::error::Error;
use crate::id::{parse_outcome, valid_id, IdVerdict, SkillId, id_verdict, byte_len};
use crate::profile::SkillSpec;
use crate::strmap::{as_map, StrMap};
use crate::text::{chars_of, concat, push_char, push_str, str_eq, views};
use crate::types::{clone_strings, Tier};

verus! {

/// The project's manifest, `skillctl.toml`.
#[derive(Debug)]
pub struct Manifest {
    pub project: ProjectMeta,
    pub skills: ManifestSkills,
    pub agent: AgentConfig,
}

/// The `[project]` table.
#[derive(Debug)]
pub struct ProjectMeta {
    pub name: String,
    pub started_from: Vec<String>,
    pub linked_to: Vec<String>,
}

/// The project's `[skills.core]` and `[skills.extra]` tables.
#[derive(Debug)]
pub struct ManifestSkills {
    pub core: StrMap<SkillSpec>,
    pub extra: StrMap<SkillSpec>,
}

/// The `[agent]` table.
#[derive(Debug)]
pub struct AgentConfig {
    pub enabled: bool,
    pub target: String,
}

impl Default for AgentConfig {
    fn default() -> (r: Self)
        ensures
            !r.enabled,
            r.target@ == "AGENTS.md"@,
    {
        AgentConfig { enabled: false, target: "AGENTS.md".to_owned() }
    }
}

impl ManifestSkills {
    /// Empty tables.
    pub fn new() -> (t: ManifestSkills)
        ensures
            t.core@.len() == 0,
            t.extra@.len() == 0,
    {
        ManifestSkills { core: StrMap::new(), extra: StrMap::new() }
    }
}

/// The flat view of a manifest's skills: the core entries in key order,
/// then the extra entries in key order.
pub open spec fn flat_skills(m: Manifest) -> Seq<(Seq<char>, SkillSpec, Tier)> {
    Seq::new(m.skills.core@.len(), |i: int| (m.skills.core@[i].0, m.skills.core@[i].1, Tier::Core))
        + Seq::new(
        m.skills.extra@.len(),
        |i: int| (m.skills.extra@[i].0, m.skills.extra@[i].1, Tier::Extra),
    )
}

/// The text views of a flat list.
pub open spec fn flat_view(v: Seq<(String, SkillSpec, Tier)>) -> Seq<(Seq<char>, SkillSpec, Tier)> {
    Seq::new(v.len(), |i: int| (v[i].0@, v[i].1, v[i].2))
}

impl Manifest {
    /// `(id, spec, tier)` for each skill, core first.
    pub fn iter_skills(&self) -> (r: Vec<(String, SkillSpec, Tier)>)
        ensures
            flat_view(r@) == flat_skills(*self),
    {
        let mut r: Vec<(String, SkillSpec, Tier)> = Vec::new();
        let nc = self.skills.core.len();
        let mut i: usize = 0;
        while i < nc
            invariant
                0 <= i <= nc,
                nc == self.skills.core@.len(),
                flat_view(r@) == flat_skills(*self).take(i as int),
            decreases nc - i,
        {
            let k = self.skills.core.key_at(i).clone();
            let v = self.skills.core.value_at(i).clone();
            let ghost before = r@;
            r.push((k, v, Tier::Core));
            proof {
                assert(flat_view(r@) =~= flat_view(before).push(flat_skills(*self)[i as int]));
                assert(flat_skills(*self).take(i + 1) =~= flat_skills(*self).take(i as int).push(
                    flat_skills(*self)[i as int],
                ));
            }
            i = i + 1;
        }
        let ne = self.skills.extra.len();
        let mut j: usize = 0;
        while j < ne
            invariant
                0 <= j <= ne,
                nc == self.skills.core@.len(),
                ne == self.skills.extra@.len(),
                flat_view(r@) == flat_skills(*self).take(nc + j),
            decreases ne - j,
        {
            let k = self.skills.extra.key_at(j).clone();
            let v = self.skills.extra.value_at(j).clone();
            let ghost before = r@;
            r.push((k, v, Tier::Extra));
            proof {
                assert(flat_view(r@) =~= flat_view(before).push(
                    flat_skills(*self)[nc + j as int],
                ));
                assert(flat_skills(*self).take(nc + j + 1) =~= flat_skills(*self).take(
                    nc + j as int,
                ).push(flat_skills(*self)[nc + j as int]));
            }
            j = j + 1;
        }
        proof {
            assert(flat_skills(*self).take(nc + ne) =~= flat_skills(*self));
        }
        r
    }
}

/// One locked skill in `skillctl.lock`.
#[derive(Debug)]
pub struct LockEntry {
    pub id: String,
    pub namespace: String,
    pub name: String,
    pub version: String,
    pub tier: Tier,
    pub source: String,
    pub global_ref: Option<String>,
    pub checksum: String,
    pub summary: String,
    pub triggers: Vec<String>,
    pub languages: Vec<String>,
    pub tags: Vec<String>,
}

/// The project lock.
#[derive(Debug)]
pub struct Lock {
    pub skills: StrMap<LockEntry>,
}

/// One installed skill in the global `registry.lock`.
#[derive(Debug)]
pub struct GlobalEntry {
    pub id: String,
    pub namespace: String,
    pub name: String,
    pub version: String,
    pub source: String,
    pub local_path: Option<String>,
    pub repo: Option<String>,
    pub commit: Option<String>,
    pub checksum: String,
    pub summary: String,
    pub triggers: Vec<String>,
    pub languages: Vec<String>,
    pub tags: Vec<String>,
}

/// The global registry of installed skills.
#[derive(Debug)]
pub struct RegistryLock {
    pub skills: StrMap<GlobalEntry>,
}

/// The projects that the user trusts.
#[derive(Debug)]
pub struct TrustedList {
    pub projects: Vec<String>,
}

impl Lock {
    /// An empty lock.
    pub fn new() -> (l: Lock)
        ensures
            l.skills@.len() == 0,
    {
        Lock { skills: StrMap::new() }
    }
}

impl RegistryLock {
    /// An empty registry.
    pub fn new() -> (r: RegistryLock)
        ensures
            r.skills@.len() == 0,
    {
        RegistryLock { skills: StrMap::new() }
    }
}

/// `base` with `seg` adjoined as `Utf8Path::join` does on Unix: an absolute
/// `seg` replaces `base`; otherwise a `/` separates them unless `base` is
/// empty or already ends in one.
pub open spec fn joined(base: Seq<char>, seg: Seq<char>) -> Seq<char> {
    if seg.len() > 0 && seg[0] == '/' {
        seg
    } else if base.len() == 0 || base.last() == '/' {
        base + seg
    } else {
        base + seq!['/'] + seg
    }
}

/// Executable `joined`.
pub fn path_join(base: &str, seg: &str) -> (r: String)
    ensures
        r@ == joined(base@, seg@),
{
    let s = chars_of(seg);
    if s.len() > 0 && s[0] == '/' {
        return seg.to_owned();
    }
    let b = chars_of(base);
    let mut out = base.to_owned();
    if !(b.len() == 0 || b[b.len() - 1] == '/') {
        push_char(&mut out, '/');
    }
    push_str(&mut out, seg);
    out
}

/// The global library, by default `~/.skillctl`.
pub struct GlobalStore {
    pub root: String,
}

impl GlobalStore {
    /// `<root>/skills`.
    pub fn skills_dir(&self) -> (r: String)
        ensures
            r@ == joined(self.root@, "skills"@),
    {
        path_join(self.root.as_str(), "skills")
    }

    /// `<root>/profiles`.
    pub fn profiles_dir(&self) -> (r: String)
        ensures
            r@ == joined(self.root@, "profiles"@),
    {
        path_join(self.root.as_str(), "profiles")
    }

    /// `<root>/registry.lock`.
    pub fn registry_lock_path(&self) -> (r: String)
        ensures
            r@ == joined(self.root@, "registry.lock"@),
    {
        path_join(self.root.as_str(), "registry.lock")
    }

    /// `<root>/skills/<namespace>/<name>/<version>`.
    pub fn skill_dir(&self, id: &SkillId, version: &str) -> (r: String)
        ensures
            r@ == joined(
                joined(joined(joined(self.root@, "skills"@), id.namespace@), id.name@),
                version@,
            ),
    {
        let a = path_join(self.root.as_str(), "skills");
        let b = path_join(a.as_str(), id.namespace.as_str());
        let c = path_join(b.as_str(), id.name.as_str());
        path_join(c.as_str(), version)
    }

    /// `<skill_dir>/SKILL.md`.
    pub fn skill_md(&self, id: &SkillId, version: &str) -> (r: String)
        ensures
            r@ == joined(
                joined(
                    joined(joined(joined(self.root@, "skills"@), id.namespace@), id.name@),
                    version@,
                ),
                "SKILL.md"@,
            ),
    {
        let d = self.skill_dir(id, version);
        path_join(d.as_str(), "SKILL.md")
    }

    /// `<root>/profiles/<name>.toml`.
    pub fn profile_path(&self, name: &str) -> (r: String)
        ensures
            r@ == joined(joined(self.root@, "profiles"@), name@ + ".toml"@),
    {
        let d = self.profiles_dir();
        let f = concat(name, ".toml");
        path_join(d.as_str(), f.as_str())
    }

    /// `<root>/trusted.json`.
    pub fn trusted_path(&self) -> (r: String)
        ensures
            r@ == joined(self.root@, "trusted.json"@),
    {
        path_join(self.root.as_str(), "trusted.json")
    }
}

/// A project, rooted at the directory that holds `skillctl.toml`.
#[derive(Debug)]
pub struct ProjectStore {
    pub root: String,
}

impl ProjectStore {
    /// The project rooted at `root`, whether or not it has a manifest yet.
    pub fn at(root: String) -> (p: ProjectStore)
        ensures
            p.root@ == root@,
    {
        ProjectStore { root }
    }

    /// `<root>/skillctl.toml`.
    pub fn manifest_path(&self) -> (r: String)
        ensures
            r@ == joined(self.root@, "skillctl.toml"@),
    {
        path_join(self.root.as_str(), "skillctl.toml")
    }

    /// `<root>/skillctl.lock`.
    pub fn lock_path(&self) -> (r: String)
        ensures
            r@ == joined(self.root@, "skillctl.lock"@),
    {
        path_join(self.root.as_str(), "skillctl.lock")
    }

    /// `<root>/AGENTS.md`.
    pub fn agents_md_path(&self) -> (r: String)
        ensures
            r@ == joined(self.root@, "AGENTS.md"@),
    {
        path_join(self.root.as_str(), "AGENTS.md")
    }

    /// `<root>/.skillctl/project-index.json`.
    pub fn index_path(&self) -> (r: String)
        ensures
            r@ == joined(joined(self.root@, ".skillctl"@), "project-index.json"@),
    {
        let d = path_join(self.root.as_str(), ".skillctl");
        path_join(d.as_str(), "project-index.json")
    }
}


/// The short name of a full id: its second segment, when the text is a
/// valid id.
pub open spec fn short_name(id: Seq<char>) -> Option<Seq<char>> {
    match id_verdict(id, byte_len(id)) {
        IdVerdict::Valid(_, name) => Some(name),
        _ => None,
    }
}

/// The manifest entries whose key is a valid id with short name `q`, in
/// the order of the flat view, each as `(key, tier)`.
pub open spec fn short_hits(flat: Seq<(Seq<char>, SkillSpec, Tier)>, q: Seq<char>) -> Seq<(Seq<char>, Tier)>
    decreases flat.len(),
{
    if flat.len() == 0 {
        Seq::empty()
    } else {
        let prev = short_hits(flat.drop_last(), q);
        let e = flat.last();
        if short_name(e.0) == Some(q) {
            prev.push((e.0, e.2))
        } else {
            prev
        }
    }
}

/// The tier of the first entry of the flat view whose key is `q`.
pub open spec fn first_key_tier(flat: Seq<(Seq<char>, SkillSpec, Tier)>, q: Seq<char>) -> Option<Tier>
    decreases flat.len(),
{
    if flat.len() == 0 {
        None
    } else if flat[0].0 == q {
        Some(flat[0].2)
    } else {
        first_key_tier(flat.drop_first(), q)
    }
}

/// The keys of a list of hits.
pub open spec fn hit_keys(hits: Seq<(Seq<char>, Tier)>) -> Seq<Seq<char>> {
    Seq::new(hits.len(), |i: int| hits[i].0)
}

/// The ids of the registry entries whose short name field is `q`, in key
/// order.
pub open spec fn name_matches(entries: Seq<(Seq<char>, GlobalEntry)>, q: Seq<char>) -> Seq<Seq<char>>
    decreases entries.len(),
{
    if entries.len() == 0 {
        Seq::empty()
    } else {
        let prev = name_matches(entries.drop_last(), q);
        if entries.last().1.name@ == q {
            prev.push(entries.last().1.id@)
        } else {
            prev
        }
    }
}

/// Where a query over the project's skills leads: a full id to the tier of
/// the entry with that key; a bare name to the one entry whose id has that
/// short name.
pub open spec fn resolved_in_project(flat: Seq<(Seq<char>, SkillSpec, Tier)>, q: Seq<char>, r: Result<(String, Tier), Error>) -> bool {
    if valid_id(q) {
        match first_key_tier(flat, q) {
            Some(t) => r matches Ok((s, t2)) && s@ == q && t2 == t,
            None => r matches Err(Error::SkillNotFound(m)) && m@ == q,
        }
    } else {
        let hits = short_hits(flat, q);
        if hits.len() == 0 {
            r matches Err(Error::SkillNotFound(m)) && m@ == q
        } else if hits.len() == 1 {
            r matches Ok((s, t)) && s@ == hits[0].0 && t == hits[0].1
        } else {
            r matches Err(Error::AmbiguousSkillName { name, matches }) && name@ == q
                && views(matches@) == hit_keys(hits)
        }
    }
}

/// The ids of the registry entries named `q`, in key order.
pub fn registry_name_matches(reg: &RegistryLock, q: &str) -> (r: Vec<String>)
    ensures
        views(r@) == name_matches(reg.skills@, q@),
{
    let n = reg.skills.len();
    let mut r: Vec<String> = Vec::new();
    let mut i: usize = 0;
    while i < n
        invariant
            0 <= i <= n,
            n == reg.skills@.len(),
            views(r@) == name_matches(reg.skills@.take(i as int), q@),
        decreases n - i,
    {
        let e = reg.skills.value_at(i);
        proof {
            assert(reg.skills@.take(i + 1).drop_last() =~= reg.skills@.take(i as int));
        }
        if crate::text::str_eq(e.name.as_str(), q) {
            let ghost before = r@;
            r.push(e.id.clone());
            proof {
                assert(views(r@) =~= views(before).push(e.id@));
            }
        }
        i = i + 1;
    }
    proof {
        assert(reg.skills@.take(n as int) =~= reg.skills@);
    }
    r
}

/// What resolving `q` against the registry entries gives: a full id is
/// taken as it is; a short name must name exactly one installed skill.
pub open spec fn short_outcome(entries: Seq<(Seq<char>, GlobalEntry)>, q: Seq<char>, r: Result<SkillId, Error>) -> bool {
    if valid_id(q) {
        parse_outcome(q, r)
    } else {
        let ms = name_matches(entries, q);
        &&& ms.len() == 0 ==> (r matches Err(Error::SkillNotFound(m)) && m@ == q)
        &&& ms.len() == 1 ==> parse_outcome(ms[0], r)
        &&& ms.len() > 1 ==> (r matches Err(Error::AmbiguousSkillName { name, matches }) && name@
            == q && views(matches@) == ms)
    }
}

impl GlobalStore {
    /// Resolves a full id or a short name against the registry: a full id is
    /// taken as it is; a short name must name exactly one installed skill.
    pub fn resolve_short(&self, reg: &RegistryLock, query: &str) -> (r: Result<SkillId, Error>)
        ensures
            short_outcome(reg.skills@, query@, r),
    {
        if let Ok(id) = SkillId::parse(query) {
            return Ok(id);
        }
        let ms = registry_name_matches(reg, query);
        proof {
            assert(ms@.len() == views(ms@).len());
        }
        if ms.len() == 0 {
            Err(Error::SkillNotFound(query.to_owned()))
        } else if ms.len() == 1 {
            proof {
                assert(views(ms@)[0] == ms@[0]@);
            }
            SkillId::parse(ms[0].as_str())
        } else {
            Err(Error::AmbiguousSkillName { name: query.to_owned(), matches: ms })
        }
    }
}

impl ProjectStore {
    /// Resolves a full id or a short name among the project's skills.
    pub fn resolve_skill(&self, manifest: &Manifest, query: &str) -> (r: Result<(String, Tier), Error>)
        ensures
            resolved_in_project(flat_skills(*manifest), query@, r),
    {
        let flat = manifest.iter_skills();
        let ghost fs = flat_skills(*manifest);
        proof {
            assert(flat@.len() == fs.len());
            assert forall|k: int| 0 <= k < flat@.len() implies flat@[k].0@ == fs[k].0 && flat@[k].2
                == fs[k].2 by {
                assert(flat_view(flat@)[k] == fs[k]);
            }
        }
        let parsed_query = SkillId::parse(query);
        if parsed_query.is_ok() {
            proof {
                assert(valid_id(query@));
            }
            let mut i: usize = 0;
            proof {
                assert(fs.skip(0) =~= fs);
            }
            while i < flat.len()
                invariant
                    0 <= i <= flat@.len(),
                    flat@.len() == fs.len(),
                    forall|k: int| 0 <= k < flat@.len() ==> (#[trigger] flat@[k]).0@ == fs[k].0
                        && flat@[k].2 == fs[k].2,
                    first_key_tier(fs, query@) == first_key_tier(fs.skip(i as int), query@),
                    valid_id(query@),
                    fs == flat_skills(*manifest),
                decreases flat@.len() - i,
            {
                proof {
                    assert(fs.skip(i as int)[0] == fs[i as int]);
                    assert(fs.skip(i as int).drop_first() =~= fs.skip(i + 1));
                }
                if crate::text::str_eq(flat[i].0.as_str(), query) {
                    proof {
                        assert(first_key_tier(fs.skip(i as int), query@) == Some(fs[i as int].2));
                    }
                    return Ok((flat[i].0.clone(), flat[i].2));
                }
                i = i + 1;
            }
            proof {
                assert(fs.skip(i as int).len() == 0);
            }
            return Err(Error::SkillNotFound(query.to_owned()));
        }
        let mut hits: Vec<(String, Tier)> = Vec::new();
        let mut i: usize = 0;
        while i < flat.len()
            invariant
                0 <= i <= flat@.len(),
                flat@.len() == fs.len(),
                forall|k: int| 0 <= k < flat@.len() ==> (#[trigger] flat@[k]).0@ == fs[k].0
                    && flat@[k].2 == fs[k].2,
                hits@.len() == short_hits(fs.take(i as int), query@).len(),
                forall|k: int| 0 <= k < hits@.len() ==> (#[trigger] hits@[k]).0@ == short_hits(
                    fs.take(i as int),
                    query@,
                )[k].0 && hits@[k].1 == short_hits(fs.take(i as int), query@)[k].1,
            decreases flat@.len() - i,
        {
            proof {
                assert(fs.take(i + 1).drop_last() =~= fs.take(i as int));
                assert(fs.take(i + 1).last() == fs[i as int]);
            }
            let parsed = SkillId::parse(flat[i].0.as_str());
            if let Ok(id) = parsed {
                if crate::text::str_eq(id.name.as_str(), query) {
                    hits.push((flat[i].0.clone(), flat[i].2));
                }
            }
            i = i + 1;
        }
        proof {
            assert(fs.take(i as int) =~= fs);
        }
        if hits.len() == 0 {
            Err(Error::SkillNotFound(query.to_owned()))
        } else if hits.len() == 1 {
            let (s, t) = hits.remove(0);
            Ok((s, t))
        } else {
            let mut ms: Vec<String> = Vec::new();
            let mut j: usize = 0;
            while j < hits.len()
                invariant
                    0 <= j <= hits@.len(),
                    views(ms@) == hit_keys(short_hits(fs, query@)).take(j as int),
                    hits@.len() == short_hits(fs, query@).len(),
                    forall|k: int| 0 <= k < hits@.len() ==> (#[trigger] hits@[k]).0@ == short_hits(
                        fs,
                        query@,
                    )[k].0,
                decreases hits@.len() - j,
            {
                let ghost before = ms@;
                ms.push(hits[j].0.clone());
                proof {
                    assert(views(ms@) =~= views(before).push(hits@[j as int].0@));
                    assert(hit_keys(short_hits(fs, query@)).take(j + 1) =~= hit_keys(
                        short_hits(fs, query@),
                    ).take(j as int).push(short_hits(fs, query@)[j as int].0));
                }
                j = j + 1;
            }
            proof {
                assert(hit_keys(short_hits(fs, query@)).take(j as int) =~= hit_keys(
                    short_hits(fs, query@),
                ));
            }
            Err(Error::AmbiguousSkillName { name: query.to_owned(), matches: ms })
        }
    }
}

/// `le` is the lock entry that taking the installed skill `e` into a
/// project at tier `t` records.
pub open spec fn is_lock_entry(le: LockEntry, e: GlobalEntry, t: Tier) -> bool {
    &&& le.id == e.id
    &&& le.namespace == e.namespace
    &&& le.name == e.name
    &&& le.version == e.version
    &&& le.tier == t
    &&& le.source@ == "global"@
    &&& le.global_ref matches Some(g) && g@ == e.id@ + "@"@ + e.version@
    &&& le.checksum == e.checksum
    &&& le.summary == e.summary
    &&& le.triggers@ == e.triggers@
    &&& le.languages@ == e.languages@
    &&& le.tags@ == e.tags@
}

impl LockEntry {
    /// The lock entry of the installed skill `e` taken in at tier `t`.
    pub fn from_global(e: &GlobalEntry, t: Tier) -> (le: LockEntry)
        ensures
            is_lock_entry(le, *e, t),
    {
        let mut global_ref = e.id.clone();
        push_char(&mut global_ref, '@');
        push_str(&mut global_ref, e.version.as_str());
        proof {
            reveal_strlit("@");
            assert(global_ref@ == e.id@ + "@"@ + e.version@);
        }
        LockEntry {
            id: e.id.clone(),
            namespace: e.namespace.clone(),
            name: e.name.clone(),
            version: e.version.clone(),
            tier: t,
            source: "global".to_owned(),
            global_ref: Some(global_ref),
            checksum: e.checksum.clone(),
            summary: e.summary.clone(),
            triggers: clone_strings(&e.triggers),
            languages: clone_strings(&e.languages),
            tags: clone_strings(&e.tags),
        }
    }
}

/// The final component of a path, as `camino::Utf8Path::file_name` gives
/// it.
pub uninterp spec fn file_name_of(p: Seq<char>) -> Option<Seq<char>>;

/// `camino::Utf8Path::file_name`: the final component of the path, if it
/// is a normal one (none for a root, `..` or an empty path).
#[verifier::external_body]
pub(crate) fn file_name(path: &str) -> (r: Option<String>)
    ensures
        match r {
            Some(s) => file_name_of(path@) == Some(s@),
            None => file_name_of(path@) is None,
        },
{
    camino::Utf8Path::new(path).file_name().map(|n| n.to_owned())
}

/// The parent of a path, as `camino::Utf8Path::parent` gives it: the path
/// without its final component, if it has one.
pub uninterp spec fn parent_of(p: Seq<char>) -> Option<Seq<char>>;

/// `camino::Utf8Path::parent`: the path without its final component, or
/// none when the path ends in a root or is empty.
#[verifier::external_body]
pub(crate) fn parent_path(p: &str) -> (r: Option<String>)
    ensures
        match r {
            Some(s) => parent_of(p@) == Some(s@),
            None => parent_of(p@) is None,
        },
{
    match camino::Utf8Path::new(p).parent() {
        Some(q) => Some(q.as_str().to_owned()),
        None => None,
    }
}

/// Paths sorted by the order of `camino::Utf8PathBuf` (component by
/// component), equal ones keeping their order.
pub uninterp spec fn path_sorted(v: Seq<Seq<char>>) -> Seq<Seq<char>>;

/// std's stable `slice::sort` on the paths as `camino::Utf8PathBuf`s: the
/// paths in path order; sorting only rearranges them.
#[verifier::external_body]
pub(crate) fn sort_paths(v: &Vec<String>) -> (r: Vec<String>)
    ensures
        views(r@) == path_sorted(views(v@)),
        views(r@).to_multiset() == views(v@).to_multiset(),
{
    let mut ps: Vec<camino::Utf8PathBuf> = v.iter().map(camino::Utf8PathBuf::from).collect();
    ps.sort();
    ps.into_iter().map(camino::Utf8PathBuf::into_string).collect()
}

/// The trust list with the project `canonical` added and the list sorted,
/// or `None` when it is already there. `canons[i]` is the canonical form of
/// the `i`-th listed path.
pub fn with_trusted(list: &TrustedList, canons: &Vec<String>, canonical: &str) -> (r: Option<TrustedList>)
    ensures
        views(canons@).contains(canonical@) ==> r is None,
        !views(canons@).contains(canonical@) ==> (r matches Some(l) && exists|added: Seq<String>|
            added.len() == list.projects@.len() + 1 && added.drop_last() == list.projects@
                && added.last()@ == canonical@ && views(l.projects@) == path_sorted(views(added))
                && views(l.projects@).to_multiset() == views(added).to_multiset()),
{
    if crate::text::contains_str(canons, canonical) {
        return None;
    }
    let mut added: Vec<String> = Vec::new();
    let mut i: usize = 0;
    while i < list.projects.len()
        invariant
            0 <= i <= list.projects@.len(),
            added@ == list.projects@.take(i as int),
        decreases list.projects@.len() - i,
    {
        added.push(list.projects[i].clone());
        proof {
            assert(list.projects@.take(i + 1) =~= list.projects@.take(i as int).push(
                list.projects@[i as int],
            ));
        }
        i = i + 1;
    }
    added.push(canonical.to_owned());
    proof {
        assert(added@.drop_last() =~= list.projects@);
    }
    Some(TrustedList { projects: sort_paths(&added) })
}

/// The trust list without the entries whose canonical form is
/// `canonical`, or `None` when none is.
pub fn without_trusted(list: &TrustedList, canons: &Vec<String>, canonical: &str) -> (r: Option<TrustedList>)
    requires
        canons@.len() == list.projects@.len(),
    ensures
        !views(canons@).contains(canonical@) ==> r is None,
        views(canons@).contains(canonical@) ==> (r matches Some(l) && exists|kept: Seq<int>|
            (forall|a: int, b: int| 0 <= a < b < kept.len() ==> kept[a] < kept[b]) && (forall|
                i: int,
            |
                0 <= i < list.projects@.len() ==> (kept.contains(i) <==> canons@[i]@
                    != canonical@)) && l.projects@ == Seq::new(
                kept.len(),
                |k: int| list.projects@[kept[k]],
            )),
{
    let mut kept_list: Vec<String> = Vec::new();
    let ghost mut kept: Seq<int> = Seq::empty();
    let mut i: usize = 0;
    while i < list.projects.len()
        invariant
            0 <= i <= list.projects@.len(),
            canons@.len() == list.projects@.len(),
            forall|k: int| 0 <= k < kept.len() ==> 0 <= #[trigger] kept[k] < i,
            forall|a: int, b: int| 0 <= a < b < kept.len() ==> kept[a] < kept[b],
            forall|j: int| 0 <= j < i ==> (kept.contains(j) <==> canons@[j]@ != canonical@),
            kept_list@ == Seq::new(kept.len(), |k: int| list.projects@[kept[k]]),
        decreases list.projects@.len() - i,
    {
        if !str_eq(canons[i].as_str(), canonical) {
            kept_list.push(list.projects[i].clone());
            proof {
                let old_kept = kept;
                kept = kept.push(i as int);
                assert forall|j: int| 0 <= j <= i implies (kept.contains(j) <==> canons@[j]@
                    != canonical@) by {
                    if j < i {
                        if kept.contains(j) {
                            let k = choose|k: int| 0 <= k < kept.len() && kept[k] == j;
                            assert(k < old_kept.len());
                        }
                        if old_kept.contains(j) {
                            let k = choose|k: int| 0 <= k < old_kept.len() && old_kept[k] == j;
                            assert(kept[k] == j);
                        }
                    } else {
                        assert(kept[kept.len() - 1] == j);
                    }
                }
                assert(kept_list@ =~= Seq::new(kept.len(), |k: int| list.projects@[kept[k]]));
            }
        } else {
            proof {
                assert(!kept.contains(i as int));
            }
        }
        i = i + 1;
    }
    if kept_list.len() == list.projects.len() {
        proof {
            if views(canons@).contains(canonical@) {
                let j = choose|j: int| 0 <= j < views(canons@).len() && views(canons@)[j] == canonical@;
                assert(!kept.contains(j));
                // every index is kept, so `j` would be
                assert forall|k: int| 0 <= k < kept.len() implies kept[k] == k by {
                    lemma_increasing_full(kept, list.projects@.len() as int, k);
                }
                assert(kept[j] == j);
            }
        }
        return None;
    }
    proof {
        if !views(canons@).contains(canonical@) {
            assert forall|j: int| 0 <= j < list.projects@.len() implies kept.contains(j) by {
                assert(views(canons@)[j] != canonical@);
            }
            lemma_all_kept(kept, list.projects@.len() as int);
        }
    }
    Some(TrustedList { projects: kept_list })
}

/// An increasing list of `n` indices below `n` is `0, 1, ..., n - 1`.
proof fn lemma_increasing_full(kept: Seq<int>, n: int, k: int)
    requires
        kept.len() == n,
        forall|j: int| 0 <= j < kept.len() ==> 0 <= #[trigger] kept[j] < n,
        forall|a: int, b: int| 0 <= a < b < kept.len() ==> kept[a] < kept[b],
        0 <= k < n,
    ensures
        kept[k] == k,
    decreases n - k,
{
    if k < n - 1 {
        lemma_increasing_full(kept, n, k + 1);
        assert(kept[k] < kept[k + 1]);
    }
    lemma_increasing_lower(kept, k);
}

/// The `k`-th of increasing indices is at least `k`.
proof fn lemma_increasing_lower(kept: Seq<int>, k: int)
    requires
        forall|j: int| 0 <= j < kept.len() ==> 0 <= #[trigger] kept[j],
        forall|a: int, b: int| 0 <= a < b < kept.len() ==> kept[a] < kept[b],
        0 <= k < kept.len(),
    ensures
        kept[k] >= k,
    decreases k,
{
    if k > 0 {
        lemma_increasing_lower(kept, k - 1);
        assert(kept[k - 1] < kept[k]);
    }
}

/// Increasing indices below `n` that hold every index below `n` are `n`
/// of them.
proof fn lemma_all_kept(kept: Seq<int>, n: int)
    requires
        n >= 0,
        forall|j: int| 0 <= j < kept.len() ==> 0 <= #[trigger] kept[j] < n,
        forall|a: int, b: int| 0 <= a < b < kept.len() ==> kept[a] < kept[b],
        forall|j: int| 0 <= j < n ==> kept.contains(j),
    ensures
        kept.len() == n,
{
    if kept.len() > n {
        lemma_increasing_lower(kept, n);
    }
    if kept.len() < n {
        // `n` values below `n` cannot fit in fewer slots, each one at an index
        // no greater than itself.
        let s = Set::new(|j: int| 0 <= j < n);
        let t = kept.to_set();
        assert(s.subset_of(t));
        vstd::set_lib::lemma_int_range(0, n);
        assert(s =~= vstd::set_lib::set_int_range(0, n));
        vstd::seq_lib::seq_to_set_is_finite(kept);
        vstd::set_lib::lemma_len_subset(s, t);
        kept.lemma_cardinality_of_set();
    }
}

/// One step of looking for the project that encloses a directory.
#[derive(Debug)]
pub enum DiscoverStep {
    /// The directory holds a `skillctl.toml`: it is the project's root.
    Found(ProjectStore),
    /// Look in this parent directory next.
    Up(String),
    /// There is no directory above: no project encloses the start.
    NotFound,
}

/// Looks at `dir`, which holds a `skillctl.toml` when `has_manifest`: it is
/// the project, or the search goes on in its parent (as
/// `camino::Utf8Path::parent` gives it), or ends without one.
pub fn discover_step(dir: &str, has_manifest: bool) -> (r: DiscoverStep)
    ensures
        has_manifest ==> (r matches DiscoverStep::Found(p) && p.root@ == dir@),
        !has_manifest ==> match parent_of(dir@) {
            Some(q) => r matches DiscoverStep::Up(u) && u@ == q,
            None => r is NotFound,
        },
{
    if has_manifest {
        return DiscoverStep::Found(ProjectStore::at(dir.to_owned()));
    }
    match parent_path(dir) {
        Some(q) => DiscoverStep::Up(q),
        None => DiscoverStep::NotFound,
    }
}

} // verus!
