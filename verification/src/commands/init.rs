//! `skillctl init`: a project's manifest and lock, started from profiles.

use vstd::prelude::*;
use crate::commands::use_cmd::{arg_target, lemma_lock_step, lock_placed, lock_placed_all};
use crate::error::Error;
use crate::id::SkillId;
use crate::profile::{version_req_of, SkillSpec};
use crate::store::{
    file_name, file_name_of, name_matches, registry_name_matches, AgentConfig, GlobalEntry, Lock, LockEntry, Manifest,
    ManifestSkills, ProjectMeta, RegistryLock,
};
use crate::strmap::{as_map, StrMap};
use crate::text::{chars_of, concat, push_str, str_eq, string_from, views};
use crate::types::{clone_strings, Tier};

verus! {

/// The arguments of `skillctl init`.
pub struct Args {
    /// The profiles to start from, in order of precedence.
    pub profiles: Vec<String>,
    /// Keep following the profiles (recorded as `linked_to`).
    pub link: bool,
    /// Overwrite an existing manifest.
    pub force: bool,
    /// Only suggest profiles for the detected stack.
    pub suggest: bool,
}

/// `m` after inserting `vs[k]` at `ks[k]` for each `k` in turn.
pub open spec fn insert_all<V>(m: Map<Seq<char>, V>, ks: Seq<Seq<char>>, vs: Seq<V>) -> Map<Seq<char>, V>
    decreases ks.len(),
{
    if ks.len() == 0 || vs.len() == 0 {
        m
    } else {
        insert_all(m, ks.drop_last(), vs.drop_last()).insert(ks.last(), vs.last())
    }
}

/// The message of a skill that a profile names but that is not installed.
pub open spec fn missing_msg(id: Seq<char>) -> Seq<char> {
    id + " (not in global store; run `skillctl add` first)"@
}

/// The message of a version that a profile asks for and that is not the
/// installed one.
pub open spec fn mismatch_msg(id: Seq<char>, req: Seq<char>, installed: Seq<char>) -> Seq<char> {
    "version mismatch for "@ + id + ": requested `"@ + req + "`, installed `"@ + installed + "`"@
}

/// A profile entry goes through: its key stands for an installed skill,
/// and it asks for any version or for the installed one.
pub open spec fn bucket_step_ok(key: Seq<char>, spec: SkillSpec, entries: Seq<(Seq<char>, GlobalEntry)>) -> bool {
    match arg_target(key, entries) {
        Some(t) => as_map(entries).contains_key(t) && (version_req_of(spec) == "*"@ || version_req_of(
            spec,
        ) == as_map(entries)[t].version@),
        None => false,
    }
}

/// `e` is the error of a profile entry that does not go through.
pub open spec fn bucket_step_error(
    key: Seq<char>,
    spec: SkillSpec,
    entries: Seq<(Seq<char>, GlobalEntry)>,
    e: Error,
) -> bool {
    match arg_target(key, entries) {
        None => {
            let ms = name_matches(entries, key);
            if ms.len() == 0 {
                e matches Error::SkillNotFound(m) && m@ == missing_msg(key)
            } else {
                e matches Error::AmbiguousSkillName { name, matches } && name@ == key && views(
                    matches@,
                ) == ms
            }
        },
        Some(t) => if !as_map(entries).contains_key(t) {
            e matches Error::SkillNotFound(m) && m@ == missing_msg(t)
        } else {
            e matches Error::Other(m) && m@ == mismatch_msg(
                t,
                version_req_of(spec),
                as_map(entries)[t].version@,
            )
        },
    }
}

/// The specs of a table.
pub open spec fn table_specs(s: Seq<(Seq<char>, SkillSpec)>) -> Seq<SkillSpec> {
    Seq::new(s.len(), |i: int| s[i].1)
}

/// The ids that the entries of a table stand for.
pub open spec fn bucket_targets(s: Seq<(Seq<char>, SkillSpec)>, entries: Seq<(Seq<char>, GlobalEntry)>) -> Seq<Seq<char>> {
    Seq::new(
        s.len(),
        |i: int|
            match arg_target(s[i].0, entries) {
                Some(t) => t,
                None => s[i].0,
            },
    )
}

/// Every entry of the table goes through.
pub open spec fn bucket_all_ok(s: Seq<(Seq<char>, SkillSpec)>, entries: Seq<(Seq<char>, GlobalEntry)>) -> bool {
    forall|k: int| 0 <= k < s.len() ==> #[trigger] bucket_step_ok(s[k].0, s[k].1, entries)
}

/// `e` is the error of the first entry of the table that does not go
/// through.
pub open spec fn bucket_first_refusal(
    s: Seq<(Seq<char>, SkillSpec)>,
    entries: Seq<(Seq<char>, GlobalEntry)>,
    e: Error,
) -> bool {
    exists|k: int|
        0 <= k < s.len() && (forall|j: int| 0 <= j < k ==> #[trigger] bucket_step_ok(s[j].0, s[j].1, entries))
            && !bucket_step_ok(#[trigger] s[k].0, s[k].1, entries) && bucket_step_error(
            s[k].0,
            s[k].1,
            entries,
            e,
        )
}

/// Resolves the skills of one merged profile table into the manifest table
/// `dst`, the list of enabled ids and the lock, at tier `tier`. An entry
/// keyed by a short name is taken to the one installed skill of that name;
/// the version it asks for must be `*` or the installed one.
pub fn resolve_bucket(
    src: &StrMap<SkillSpec>,
    dst: &mut StrMap<SkillSpec>,
    out_ids: &mut Vec<String>,
    lock: &mut Lock,
    registry: &RegistryLock,
    tier: Tier,
) -> (r: Result<(), Error>)
    ensures
        bucket_all_ok(src@, registry.skills@) ==> {
            let ts = bucket_targets(src@, registry.skills@);
            &&& r is Ok
            &&& as_map(final(dst)@) == insert_all(as_map(old(dst)@), ts, table_specs(src@))
            &&& views(final(out_ids)@) == views(old(out_ids)@) + ts
            &&& lock_placed_all(
                as_map(old(lock).skills@),
                as_map(final(lock).skills@),
                ts,
                as_map(registry.skills@),
                tier,
            )
        },
        !bucket_all_ok(src@, registry.skills@) ==> (r matches Err(e) && bucket_first_refusal(
            src@,
            registry.skills@,
            e,
        )),
{
    let ghost s = src@;
    let ghost entries = registry.skills@;
    let ghost ts = bucket_targets(s, entries);
    let ghost d0 = as_map(dst@);
    let ghost o0 = views(out_ids@);
    let ghost l0 = as_map(lock.skills@);
    let n = src.len();
    proof {
        assert(ts.take(0) =~= Seq::<Seq<char>>::empty());
        assert(o0 + ts.take(0) =~= o0);
    }
    let mut i: usize = 0;
    while i < n
        invariant
            0 <= i <= n,
            n == s.len(),
            s == src@,
            entries == registry.skills@,
            ts == bucket_targets(s, entries),
            d0 == as_map(old(dst)@),
            o0 == views(old(out_ids)@),
            l0 == as_map(old(lock).skills@),
            forall|j: int| 0 <= j < i ==> #[trigger] bucket_step_ok(s[j].0, s[j].1, entries),
            as_map(dst@) == insert_all(d0, ts.take(i as int), table_specs(s).take(i as int)),
            views(out_ids@) == o0 + ts.take(i as int),
            lock_placed_all(l0, as_map(lock.skills@), ts.take(i as int), as_map(entries), tier),
        decreases n - i,
    {
        let key = src.key_at(i);
        let spec = src.value_at(i);
        proof {
            assert(ts.take(i + 1).drop_last() =~= ts.take(i as int));
            assert(table_specs(s).take(i + 1).drop_last() =~= table_specs(s).take(i as int));
        }
        let parsed = SkillId::parse(key.as_str());
        let resolved: String = if parsed.is_ok() {
            key.clone()
        } else {
            let ms = registry_name_matches(registry, key.as_str());
            proof {
                assert(ms@.len() == views(ms@).len());
            }
            if ms.len() == 0 {
                let e = Error::SkillNotFound(
                    concat(key.as_str(), " (not in global store; run `skillctl add` first)"),
                );
                proof {
                    assert(!bucket_step_ok(s[i as int].0, s[i as int].1, entries));
                    assert(bucket_first_refusal(s, entries, e));
                }
                return Err(e);
            } else if ms.len() == 1 {
                proof {
                    assert(views(ms@)[0] == ms@[0]@);
                }
                ms[0].clone()
            } else {
                let e = Error::AmbiguousSkillName { name: key.clone(), matches: ms };
                proof {
                    assert(!bucket_step_ok(s[i as int].0, s[i as int].1, entries));
                    assert(bucket_first_refusal(s, entries, e));
                }
                return Err(e);
            }
        };
        proof {
            assert(resolved@ == ts[i as int]);
        }
        let entry = match registry.skills.get(resolved.as_str()) {
            Some(e) => e,
            None => {
                let e = Error::SkillNotFound(
                    concat(resolved.as_str(), " (not in global store; run `skillctl add` first)"),
                );
                proof {
                    assert(!bucket_step_ok(s[i as int].0, s[i as int].1, entries));
                    assert(bucket_first_refusal(s, entries, e));
                }
                return Err(e);
            },
        };
        let req = spec.version_req();
        if !(str_eq(req, "*") || str_eq(req, entry.version.as_str())) {
            let mut m = concat("version mismatch for ", resolved.as_str());
            push_str(&mut m, ": requested `");
            push_str(&mut m, req);
            push_str(&mut m, "`, installed `");
            push_str(&mut m, entry.version.as_str());
            push_str(&mut m, "`");
            let e = Error::Other(m);
            proof {
                assert(!bucket_step_ok(s[i as int].0, s[i as int].1, entries));
                assert(bucket_first_refusal(s, entries, e));
            }
            return Err(e);
        }
        dst.insert(resolved.clone(), spec.clone());
        let ghost before_ids = out_ids@;
        out_ids.push(resolved.clone());
        let ghost prev = as_map(lock.skills@);
        lock.skills.insert(resolved, LockEntry::from_global(entry, tier));
        proof {
            assert(views(out_ids@) =~= views(before_ids).push(ts[i as int]));
            assert(o0 + ts.take(i + 1) =~= (o0 + ts.take(i as int)).push(ts[i as int]));
            assert(as_map(lock.skills@).remove(ts[i as int]) =~= prev.remove(ts[i as int]));
            lemma_lock_step(l0, prev, as_map(lock.skills@), ts, i as int, as_map(entries), tier);
        }
        i = i + 1;
    }
    proof {
        assert(ts.take(n as int) =~= ts);
        assert(table_specs(s).take(n as int) =~= table_specs(s));
        assert(bucket_all_ok(s, entries));
    }
    Ok(())
}

/// The project's name: the last component of its directory, or
/// `skillctl-project` when it has none.
pub fn project_name(root: &str) -> (r: String)
    ensures
        match file_name_of(root@) {
            Some(n) => r@ == n,
            None => r@ == "skillctl-project"@,
        },
{
    match file_name(root) {
        Some(n) => n,
        None => "skillctl-project".to_owned(),
    }
}

/// The manifest of a freshly started project: its name, the profiles it
/// started from (and follows, with `--link`), the resolved skills, and the
/// Agent entry block enabled in `AGENTS.md`.
pub fn init_manifest(project: String, args: &Args, skills: ManifestSkills) -> (m: Manifest)
    ensures
        m.project.name == project,
        m.project.started_from@ == args.profiles@,
        args.link ==> m.project.linked_to@ == args.profiles@,
        !args.link ==> m.project.linked_to@.len() == 0,
        m.skills == skills,
        m.agent.enabled,
        m.agent.target@ == "AGENTS.md"@,
{
    let linked_to = if args.link {
        clone_strings(&args.profiles)
    } else {
        Vec::new()
    };
    Manifest {
        project: ProjectMeta {
            name: project,
            started_from: clone_strings(&args.profiles),
            linked_to,
        },
        skills,
        agent: AgentConfig { enabled: true, target: "AGENTS.md".to_owned() },
    }
}

/// Refuses to start a project over an existing manifest unless forced.
pub fn check_fresh(manifest_exists: bool, force: bool, manifest_path: &str) -> (r: Result<(), Error>)
    ensures
        (manifest_exists && !force) ==> (r matches Err(Error::Other(m)) && m@
            == "skillctl.toml already exists at "@ + manifest_path@ + "; use --force to overwrite"@),
        !(manifest_exists && !force) ==> r is Ok,
{
    if manifest_exists && !force {
        let mut m = concat("skillctl.toml already exists at ", manifest_path);
        push_str(&mut m, "; use --force to overwrite");
        return Err(Error::Other(m));
    }
    Ok(())
}

} // verus!
