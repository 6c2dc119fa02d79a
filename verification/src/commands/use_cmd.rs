//! `skillctl use`: adjusting by hand which installed skills a project
//! enables, and at which tier.

use vstd::prelude::*;
use crate::error::Error;
use crate::order::{is_sorted_order, sorted_order};
use crate::tui::Candidate;
use crate::id::{valid_id, SkillId};
use crate::profile::SkillSpec;
use crate::store::{
    is_lock_entry, name_matches, registry_name_matches, GlobalEntry, Lock, LockEntry, Manifest,
    RegistryLock,
};
use crate::strmap::as_map;
use crate::text::{concat, views};
use crate::types::Tier;

verus! {

/// The arguments of `skillctl use`.
pub struct Args {
    /// Full ids or short names.
    pub ids: Vec<String>,
    /// Enable the named skills (the default).
    pub add: bool,
    /// Disable the named skills.
    pub remove: bool,
    /// Disable every skill.
    pub clear: bool,
    /// Enable the named skills as core rather than extra.
    pub core: bool,
}

/// What a `use` invocation does.
#[derive(Clone, Copy, Debug, PartialEq, Eq, Structural)]
pub enum UseMode {
    /// No ids and neither `--clear` nor `--remove`: the interactive picker.
    Picker,
    /// Disable everything.
    Clear,
    /// Disable the named skills.
    Remove,
    /// Enable the named skills at the given tier.
    Add(Tier),
}

/// The mode an invocation selects.
pub open spec fn mode_of(clear: bool, remove: bool, core: bool, no_ids: bool) -> UseMode {
    if no_ids && !clear && !remove {
        UseMode::Picker
    } else if clear {
        UseMode::Clear
    } else if remove {
        UseMode::Remove
    } else if core {
        UseMode::Add(Tier::Core)
    } else {
        UseMode::Add(Tier::Extra)
    }
}

/// Selects the mode of an invocation.
pub fn mode(args: &Args) -> (m: UseMode)
    ensures
        m == mode_of(args.clear, args.remove, args.core, args.ids@.len() == 0),
{
    if args.ids.len() == 0 && !args.clear && !args.remove {
        UseMode::Picker
    } else if args.clear {
        UseMode::Clear
    } else if args.remove {
        UseMode::Remove
    } else if args.core {
        UseMode::Add(Tier::Core)
    } else {
        UseMode::Add(Tier::Extra)
    }
}

/// The id a command-line argument stands for: itself when it is a full id,
/// else the id of the one installed skill with that short name.
pub open spec fn arg_target(raw: Seq<char>, entries: Seq<(Seq<char>, GlobalEntry)>) -> Option<Seq<char>> {
    if valid_id(raw) {
        Some(raw)
    } else {
        let ms = name_matches(entries, raw);
        if ms.len() == 1 {
            Some(ms[0])
        } else {
            None
        }
    }
}

/// `e` is the error for an argument that stands for no id: no installed
/// skill has that name, or several have.
pub open spec fn arg_refusal(raw: Seq<char>, entries: Seq<(Seq<char>, GlobalEntry)>, e: Error) -> bool {
    let ms = name_matches(entries, raw);
    if ms.len() == 0 {
        e matches Error::SkillNotFound(m) && m@ == raw
    } else {
        e matches Error::AmbiguousSkillName { name, matches } && name@ == raw && views(matches@)
            == ms
    }
}

/// Resolves a command-line argument to a full id.
pub fn resolve_arg_id(raw: &str, registry: &RegistryLock) -> (r: Result<String, Error>)
    ensures
        match arg_target(raw@, registry.skills@) {
            Some(t) => r matches Ok(s) && s@ == t,
            None => r matches Err(e) && arg_refusal(raw@, registry.skills@, e),
        },
{
    let parsed = SkillId::parse(raw);
    if parsed.is_ok() {
        proof {
            assert(valid_id(raw@));
        }
        return Ok(raw.to_owned());
    }
    proof {
        assert(!valid_id(raw@));
    }
    let ms = registry_name_matches(registry, raw);
    proof {
        assert(ms@.len() == views(ms@).len());
    }
    if ms.len() == 0 {
        Err(Error::SkillNotFound(raw.to_owned()))
    } else if ms.len() == 1 {
        proof {
            assert(views(ms@)[0] == ms@[0]@);
        }
        Ok(ms[0].clone())
    } else {
        Err(Error::AmbiguousSkillName { name: raw.to_owned(), matches: ms })
    }
}

/// A tier table after placing `id` at tier `t`: the table of that tier gains
/// it, the other loses it.
pub open spec fn placed(
    m: Map<Seq<char>, SkillSpec>,
    id: Seq<char>,
    spec: SkillSpec,
    t: Tier,
    own: Tier,
) -> Map<Seq<char>, SkillSpec> {
    if t == own {
        m.insert(id, spec)
    } else {
        m.remove(id)
    }
}

/// The lock `after` is `before` with the entry for `id` set to the record
/// of `e` at tier `t`.
pub open spec fn lock_placed(
    before: Map<Seq<char>, LockEntry>,
    after: Map<Seq<char>, LockEntry>,
    id: Seq<char>,
    e: GlobalEntry,
    t: Tier,
) -> bool {
    &&& after.contains_key(id)
    &&& is_lock_entry(after[id], e, t)
    &&& after.remove(id) == before.remove(id)
}

/// The message of a skill that is not installed.
pub open spec fn not_installed_msg(id: Seq<char>) -> Seq<char> {
    id + " (run `skillctl add` first)"@
}

/// Enables the installed skill `id` at `target_tier`: its spec pins the
/// installed version and its lock entry records the installed skill.
pub fn apply_add(
    manifest: &mut Manifest,
    lock: &mut Lock,
    registry: &RegistryLock,
    id: &str,
    target_tier: Tier,
) -> (r: Result<(), Error>)
    ensures
        !as_map(registry.skills@).contains_key(id@) ==> (r matches Err(Error::SkillNotFound(m))
            && m@ == not_installed_msg(id@) && *final(manifest) == *old(manifest) && *final(lock)
            == *old(lock)),
        as_map(registry.skills@).contains_key(id@) ==> {
            let e = as_map(registry.skills@)[id@];
            let spec = SkillSpec::Version(e.version);
            &&& r is Ok
            &&& as_map(final(manifest).skills.core@) == placed(
                as_map(old(manifest).skills.core@),
                id@,
                spec,
                target_tier,
                Tier::Core,
            )
            &&& as_map(final(manifest).skills.extra@) == placed(
                as_map(old(manifest).skills.extra@),
                id@,
                spec,
                target_tier,
                Tier::Extra,
            )
            &&& final(manifest).project == old(manifest).project
            &&& final(manifest).agent == old(manifest).agent
            &&& lock_placed(
                as_map(old(lock).skills@),
                as_map(final(lock).skills@),
                id@,
                e,
                target_tier,
            )
        },
{
    let entry = match registry.skills.get(id) {
        Some(e) => e,
        None => {
            return Err(Error::SkillNotFound(concat(id, " (run `skillctl add` first)")));
        },
    };
    let spec = SkillSpec::Version(entry.version.clone());
    let _ = manifest.skills.core.remove(id);
    let _ = manifest.skills.extra.remove(id);
    match target_tier {
        Tier::Core => manifest.skills.core.insert(id.to_owned(), spec),
        Tier::Extra => manifest.skills.extra.insert(id.to_owned(), spec),
    }
    let ghost before = as_map(lock.skills@);
    lock.skills.insert(id.to_owned(), LockEntry::from_global(entry, target_tier));
    proof {
        assert(as_map(lock.skills@).remove(id@) =~= before.remove(id@));
        let m0 = as_map(old(manifest).skills.core@);
        let x0 = as_map(old(manifest).skills.extra@);
        if target_tier == Tier::Core {
            assert(m0.remove(id@).insert(id@, spec) =~= m0.insert(id@, spec));
        } else {
            assert(x0.remove(id@).insert(id@, spec) =~= x0.insert(id@, spec));
        }
    }
    Ok(())
}

/// One argument of an invocation goes through: it stands for an id, and
/// when skills are being enabled that id is installed.
pub open spec fn use_step_ok(raw: Seq<char>, entries: Seq<(Seq<char>, GlobalEntry)>, add_mode: bool) -> bool {
    match arg_target(raw, entries) {
        Some(t) => !add_mode || as_map(entries).contains_key(t),
        None => false,
    }
}

/// `e` is the error for an argument that does not go through.
pub open spec fn use_step_error(raw: Seq<char>, entries: Seq<(Seq<char>, GlobalEntry)>, e: Error) -> bool {
    match arg_target(raw, entries) {
        None => arg_refusal(raw, entries, e),
        Some(t) => e matches Error::SkillNotFound(m) && m@ == not_installed_msg(t),
    }
}

/// Every argument goes through.
pub open spec fn all_go_through(raws: Seq<Seq<char>>, entries: Seq<(Seq<char>, GlobalEntry)>, add_mode: bool) -> bool {
    forall|k: int| 0 <= k < raws.len() ==> #[trigger] use_step_ok(raws[k], entries, add_mode)
}

/// `e` is the error of the first argument that does not go through.
pub open spec fn first_refusal(
    raws: Seq<Seq<char>>,
    entries: Seq<(Seq<char>, GlobalEntry)>,
    add_mode: bool,
    e: Error,
) -> bool {
    exists|k: int|
        0 <= k < raws.len() && (forall|j: int| 0 <= j < k ==> #[trigger] use_step_ok(raws[j], entries, add_mode))
            && !use_step_ok(#[trigger] raws[k], entries, add_mode) && use_step_error(raws[k], entries, e)
}

/// The ids that the arguments stand for.
pub open spec fn targets_of(raws: Seq<Seq<char>>, entries: Seq<(Seq<char>, GlobalEntry)>) -> Seq<Seq<char>> {
    Seq::new(
        raws.len(),
        |i: int|
            match arg_target(raws[i], entries) {
                Some(t) => t,
                None => raws[i],
            },
    )
}

/// A tier table after placing each of `ts` in turn at tier `t`, each with
/// the installed version as its spec.
pub open spec fn placed_all(
    m: Map<Seq<char>, SkillSpec>,
    ts: Seq<Seq<char>>,
    reg: Map<Seq<char>, GlobalEntry>,
    t: Tier,
    own: Tier,
) -> Map<Seq<char>, SkillSpec>
    decreases ts.len(),
{
    if ts.len() == 0 {
        m
    } else {
        placed(
            placed_all(m, ts.drop_last(), reg, t, own),
            ts.last(),
            SkillSpec::Version(reg[ts.last()].version),
            t,
            own,
        )
    }
}

/// The lock `after` is `before` with an entry for each of `ts` recording
/// the installed skill at tier `t`.
pub open spec fn lock_placed_all(
    before: Map<Seq<char>, LockEntry>,
    after: Map<Seq<char>, LockEntry>,
    ts: Seq<Seq<char>>,
    reg: Map<Seq<char>, GlobalEntry>,
    t: Tier,
) -> bool {
    &&& forall|k: Seq<char>| #[trigger] after.contains_key(k) <==> (before.contains_key(k) || ts.contains(k))
    &&& forall|k: Seq<char>| ts.contains(k) ==> is_lock_entry(#[trigger] after[k], reg[k], t)
    &&& forall|k: Seq<char>| before.contains_key(k) && !ts.contains(k) ==> #[trigger] after[k] == before[k]
}

pub(crate) proof fn lemma_lock_step(
    l0: Map<Seq<char>, LockEntry>,
    prev: Map<Seq<char>, LockEntry>,
    next: Map<Seq<char>, LockEntry>,
    ts: Seq<Seq<char>>,
    i: int,
    reg: Map<Seq<char>, GlobalEntry>,
    t: Tier,
)
    requires
        0 <= i < ts.len(),
        lock_placed_all(l0, prev, ts.take(i), reg, t),
        lock_placed(prev, next, ts[i], reg[ts[i]], t),
    ensures
        lock_placed_all(l0, next, ts.take(i + 1), reg, t),
{
    let a = ts.take(i);
    let b = ts.take(i + 1);
    assert forall|k: Seq<char>| b.contains(k) <==> (a.contains(k) || k == ts[i]) by {
        if b.contains(k) {
            let j = choose|j: int| 0 <= j < b.len() && b[j] == k;
            if j < i {
                assert(a[j] == k);
            }
        }
        if a.contains(k) {
            let j = choose|j: int| 0 <= j < a.len() && a[j] == k;
            assert(b[j] == k);
        }
        if k == ts[i] {
            assert(b[i] == k);
        }
    }
    assert forall|k: Seq<char>| k != ts[i] implies (next.contains_key(k) <==> prev.contains_key(k))
        && (prev.contains_key(k) ==> next[k] == prev[k]) by {
        assert(next.remove(ts[i]).contains_key(k) == prev.remove(ts[i]).contains_key(k));
        if prev.contains_key(k) {
            assert(next.remove(ts[i])[k] == prev.remove(ts[i])[k]);
        }
    }
    assert forall|k: Seq<char>| #[trigger] next.contains_key(k) <==> (l0.contains_key(k) || b.contains(k)) by {
        assert(b.contains(k) <==> (a.contains(k) || k == ts[i]));
        if k != ts[i] {
            assert(next.remove(ts[i]).contains_key(k) == prev.remove(ts[i]).contains_key(k));
            assert(prev.contains_key(k) <==> (l0.contains_key(k) || a.contains(k)));
        }
    }
    assert forall|k: Seq<char>| b.contains(k) implies is_lock_entry(#[trigger] next[k], reg[k], t) by {
        if k != ts[i] {
            assert(a.contains(k));
            assert(prev.contains_key(k));
        }
    }
    assert forall|k: Seq<char>| l0.contains_key(k) && !b.contains(k) implies #[trigger] next[k] == l0[k] by {
        assert(k != ts[i]);
        assert(!a.contains(k));
        assert(prev.contains_key(k));
    }
}

/// Carries out `skillctl use` with ids, `--remove` or `--clear` on the
/// manifest and the lock: either every argument goes through and the
/// tables change as a whole, or the first argument that does not go
/// through gives the error.
pub fn apply_use(args: &Args, manifest: &mut Manifest, lock: &mut Lock, registry: &RegistryLock) -> (r: Result<(), Error>)
    ensures
        final(manifest).project == old(manifest).project,
        final(manifest).agent == old(manifest).agent,
        args.clear ==> r is Ok && final(manifest).skills.core@.len() == 0
            && final(manifest).skills.extra@.len() == 0 && final(lock).skills@.len() == 0,
        !args.clear ==> {
            let raws = views(args.ids@);
            let entries = registry.skills@;
            let add_mode = !args.remove;
            let ts = targets_of(raws, entries);
            let tier = if args.core {
                Tier::Core
            } else {
                Tier::Extra
            };
            &&& all_go_through(raws, entries, add_mode) ==> {
                &&& r is Ok
                &&& args.remove ==> {
                    &&& as_map(final(manifest).skills.core@) == as_map(
                        old(manifest).skills.core@,
                    ).remove_keys(ts.to_set())
                    &&& as_map(final(manifest).skills.extra@) == as_map(
                        old(manifest).skills.extra@,
                    ).remove_keys(ts.to_set())
                    &&& as_map(final(lock).skills@) == as_map(old(lock).skills@).remove_keys(
                        ts.to_set(),
                    )
                }
                &&& !args.remove ==> {
                    &&& as_map(final(manifest).skills.core@) == placed_all(
                        as_map(old(manifest).skills.core@),
                        ts,
                        as_map(entries),
                        tier,
                        Tier::Core,
                    )
                    &&& as_map(final(manifest).skills.extra@) == placed_all(
                        as_map(old(manifest).skills.extra@),
                        ts,
                        as_map(entries),
                        tier,
                        Tier::Extra,
                    )
                    &&& lock_placed_all(
                        as_map(old(lock).skills@),
                        as_map(final(lock).skills@),
                        ts,
                        as_map(entries),
                        tier,
                    )
                }
            }
            &&& !all_go_through(raws, entries, add_mode) ==> (r matches Err(e) && first_refusal(
                raws,
                entries,
                add_mode,
                e,
            ))
        },
{
    if args.clear {
        manifest.skills.core.clear();
        manifest.skills.extra.clear();
        lock.skills.clear();
        return Ok(());
    }
    let ghost raws = views(args.ids@);
    let ghost entries = registry.skills@;
    let ghost add_mode = !args.remove;
    let ghost ts = targets_of(raws, entries);
    let ghost c0 = as_map(manifest.skills.core@);
    let ghost x0 = as_map(manifest.skills.extra@);
    let ghost l0 = as_map(lock.skills@);
    let ghost p0 = manifest.project;
    let ghost a0 = manifest.agent;
    let tier = if args.core {
        Tier::Core
    } else {
        Tier::Extra
    };
    proof {
        assert(ts.take(0).to_set() =~= Set::<Seq<char>>::empty());
        assert(c0.remove_keys(Set::empty()) =~= c0);
        assert(x0.remove_keys(Set::empty()) =~= x0);
        assert(l0.remove_keys(Set::empty()) =~= l0);
        assert(ts.take(0) =~= Seq::<Seq<char>>::empty());
    }
    let mut i: usize = 0;
    while i < args.ids.len()
        invariant
            0 <= i <= args.ids@.len(),
            !args.clear,
            raws == views(args.ids@),
            entries == registry.skills@,
            add_mode == !args.remove,
            ts == targets_of(raws, entries),
            tier == (if args.core {
                Tier::Core
            } else {
                Tier::Extra
            }),
            manifest.project == p0,
            manifest.agent == a0,
            p0 == old(manifest).project,
            a0 == old(manifest).agent,
            c0 == as_map(old(manifest).skills.core@),
            x0 == as_map(old(manifest).skills.extra@),
            l0 == as_map(old(lock).skills@),
            forall|j: int| 0 <= j < i ==> #[trigger] use_step_ok(raws[j], entries, add_mode),
            args.remove ==> as_map(manifest.skills.core@) == c0.remove_keys(ts.take(i as int).to_set())
                && as_map(manifest.skills.extra@) == x0.remove_keys(ts.take(i as int).to_set())
                && as_map(lock.skills@) == l0.remove_keys(ts.take(i as int).to_set()),
            !args.remove ==> as_map(manifest.skills.core@) == placed_all(
                c0,
                ts.take(i as int),
                as_map(entries),
                tier,
                Tier::Core,
            ) && as_map(manifest.skills.extra@) == placed_all(
                x0,
                ts.take(i as int),
                as_map(entries),
                tier,
                Tier::Extra,
            ) && lock_placed_all(l0, as_map(lock.skills@), ts.take(i as int), as_map(entries), tier),
        decreases args.ids@.len() - i,
    {
        let raw = args.ids[i].as_str();
        proof {
            assert(raws[i as int] == raw@);
            assert(ts.take(i + 1).drop_last() =~= ts.take(i as int));
            assert(ts.take(i + 1) =~= ts.take(i as int).push(ts[i as int]));
            ts.take(i as int).lemma_push_to_set_commute(ts[i as int]);
        }
        let id = match resolve_arg_id(raw, registry) {
            Ok(id) => id,
            Err(e) => {
                proof {
                    assert(!use_step_ok(raws[i as int], entries, add_mode));
                    assert(use_step_error(raws[i as int], entries, e));
                    assert(i < raws.len());
                    assert(first_refusal(raws, entries, add_mode, e));
                }
                return Err(e);
            },
        };
        proof {
            assert(id@ == ts[i as int]);
        }
        if args.remove {
            let _ = manifest.skills.core.remove(id.as_str());
            let _ = manifest.skills.extra.remove(id.as_str());
            let _ = lock.skills.remove(id.as_str());
            proof {
                let s = ts.take(i as int).to_set();
                assert(c0.remove_keys(s).remove(id@) =~= c0.remove_keys(s.insert(id@)));
                assert(x0.remove_keys(s).remove(id@) =~= x0.remove_keys(s.insert(id@)));
                assert(l0.remove_keys(s).remove(id@) =~= l0.remove_keys(s.insert(id@)));
            }
        } else {
            let ghost prev = as_map(lock.skills@);
            match apply_add(manifest, lock, registry, id.as_str(), tier) {
                Ok(()) => {},
                Err(e) => {
                    proof {
                        assert(!use_step_ok(raws[i as int], entries, add_mode));
                        assert(use_step_error(raws[i as int], entries, e));
                        assert(i < raws.len());
                        assert(first_refusal(raws, entries, add_mode, e));
                    }
                    return Err(e);
                },
            }
            proof {
                lemma_lock_step(l0, prev, as_map(lock.skills@), ts, i as int, as_map(entries), tier);
            }
        }
        i = i + 1;
    }
    proof {
        assert(ts.take(i as int) =~= ts);
        assert(all_go_through(raws, entries, add_mode));
    }
    Ok(())
}

/// The installed skills whose id is well formed, in key order.
pub open spec fn valid_entries(es: Seq<(Seq<char>, GlobalEntry)>) -> Seq<GlobalEntry>
    decreases es.len(),
{
    if es.len() == 0 {
        Seq::empty()
    } else if valid_id(es.last().1.id@) {
        valid_entries(es.drop_last()).push(es.last().1)
    } else {
        valid_entries(es.drop_last())
    }
}

/// The ids of a list of installed skills.
pub open spec fn ids_of(es: Seq<GlobalEntry>) -> Seq<Seq<char>> {
    Seq::new(es.len(), |i: int| es[i].id@)
}

/// The tier at which a manifest enables `id`, if it does.
pub open spec fn enabled_tier(core: Map<Seq<char>, SkillSpec>, extra: Map<Seq<char>, SkillSpec>, id: Seq<char>) -> Option<Tier> {
    if core.contains_key(id) {
        Some(Tier::Core)
    } else if extra.contains_key(id) {
        Some(Tier::Extra)
    } else {
        None
    }
}

/// `c` offers the installed skill `e` in the picker, marked as the manifest
/// enables it.
pub open spec fn candidate_for(
    c: Candidate,
    e: GlobalEntry,
    core: Map<Seq<char>, SkillSpec>,
    extra: Map<Seq<char>, SkillSpec>,
) -> bool {
    &&& c.id.text() == e.id@
    &&& c.summary == e.summary
    &&& c.languages@.len() == 0
    &&& c.tags@.len() == 0
    &&& c.tier == enabled_tier(core, extra, e.id@)
    &&& c.enabled == (c.tier is Some)
}

/// The picker's candidates: every installed skill with a well-formed id,
/// sorted by id, marked as the manifest enables it.
pub fn picker_candidates(manifest: &Manifest, registry: &RegistryLock) -> (r: Result<Vec<Candidate>, Error>)
    ensures
        registry.skills@.len() == 0 ==> (r matches Err(Error::Other(m)) && m@
            == "no skills in global store; run `skillctl add` first"@),
        registry.skills@.len() > 0 ==> (r matches Ok(cs) && exists|ord: Seq<usize>|
            is_sorted_order(ids_of(valid_entries(registry.skills@)), ord) && cs@.len() == ord.len()
                && forall|k: int|
                0 <= k < ord.len() ==> candidate_for(
                    #[trigger] cs@[k],
                    valid_entries(registry.skills@)[ord[k] as int],
                    as_map(manifest.skills.core@),
                    as_map(manifest.skills.extra@),
                )),
{
    let n = registry.skills.len();
    if n == 0 {
        return Err(Error::Other("no skills in global store; run `skillctl add` first".to_owned()));
    }
    let ghost es = registry.skills@;
    let mut idx: Vec<usize> = Vec::new();
    let mut ids: Vec<String> = Vec::new();
    let mut i: usize = 0;
    while i < n
        invariant
            0 <= i <= n,
            n == es.len(),
            es == registry.skills@,
            idx@.len() == ids@.len(),
            idx@.len() == valid_entries(es.take(i as int)).len(),
            forall|k: int| 0 <= k < idx@.len() ==> #[trigger] idx@[k] < n && es[idx@[k] as int].1
                == valid_entries(es.take(i as int))[k],
            forall|k: int| 0 <= k < ids@.len() ==> (#[trigger] ids@[k])@ == valid_entries(es.take(i as int))[k].id@,
        decreases n - i,
    {
        let e = registry.skills.value_at(i);
        proof {
            assert(es.take(i + 1).drop_last() =~= es.take(i as int));
            assert(es.take(i + 1).last() == es[i as int]);
        }
        let parsed = SkillId::parse(e.id.as_str());
        if parsed.is_ok() {
            proof {
                assert(valid_id(e.id@));
            }
            idx.push(i);
            ids.push(e.id.clone());
        } else {
            proof {
                assert(!valid_id(e.id@));
            }
        }
        i = i + 1;
    }
    let ghost ves = valid_entries(es);
    proof {
        assert(es.take(n as int) =~= es);
        assert(views(ids@) =~= ids_of(ves));
    }
    let ord = sorted_order(&ids);
    let mut out: Vec<Candidate> = Vec::new();
    let mut k: usize = 0;
    while k < ord.len()
        invariant
            0 <= k <= ord@.len(),
            es == registry.skills@,
            ves == valid_entries(es),
            is_sorted_order(ids_of(ves), ord@),
            idx@.len() == ves.len(),
            forall|j: int| 0 <= j < idx@.len() ==> #[trigger] idx@[j] < n && es[idx@[j] as int].1 == ves[j],
            n == es.len(),
            out@.len() == k,
            forall|j: int|
                0 <= j < k ==> candidate_for(
                    #[trigger] out@[j],
                    ves[ord@[j] as int],
                    as_map(manifest.skills.core@),
                    as_map(manifest.skills.extra@),
                ),
        decreases ord@.len() - k,
    {
        let e = registry.skills.value_at(idx[ord[k]]);
        let id = match SkillId::parse(e.id.as_str()) {
            Ok(id) => id,
            Err(_) => {
                proof {
                    assert(valid_id(ves[ord@[k as int] as int].id@)) by {
                        lemma_valid_entries_valid(es);
                    }
                }
                return Err(Error::Other("no skills in global store; run `skillctl add` first".to_owned()));
            },
        };
        let tier = if manifest.skills.core.contains_key(e.id.as_str()) {
            Some(Tier::Core)
        } else if manifest.skills.extra.contains_key(e.id.as_str()) {
            Some(Tier::Extra)
        } else {
            None
        };
        out.push(
            Candidate {
                id,
                summary: e.summary.clone(),
                languages: Vec::new(),
                tags: Vec::new(),
                enabled: tier.is_some(),
                tier,
            },
        );
        k = k + 1;
    }
    Ok(out)
}

/// The entries that `valid_entries` keeps have well-formed ids.
proof fn lemma_valid_entries_valid(es: Seq<(Seq<char>, GlobalEntry)>)
    ensures
        forall|k: int| 0 <= k < valid_entries(es).len() ==> valid_id(#[trigger] valid_entries(es)[k].id@),
    decreases es.len(),
{
    if es.len() > 0 {
        lemma_valid_entries_valid(es.drop_last());
    }
}

/// The texts of a list of ids.
pub open spec fn id_texts(ids: Seq<SkillId>) -> Seq<Seq<char>> {
    Seq::new(ids.len(), |i: int| ids[i].text())
}

/// Every one of the ids is installed.
pub open spec fn all_installed(ts: Seq<Seq<char>>, reg: Map<Seq<char>, GlobalEntry>) -> bool {
    forall|k: int| 0 <= k < ts.len() ==> #[trigger] reg.contains_key(ts[k])
}

/// `e` is the error of the first of the ids that is not installed.
pub open spec fn first_missing(ts: Seq<Seq<char>>, reg: Map<Seq<char>, GlobalEntry>, e: Error) -> bool {
    exists|k: int|
        0 <= k < ts.len() && (forall|j: int| 0 <= j < k ==> #[trigger] reg.contains_key(ts[j]))
            && !reg.contains_key(#[trigger] ts[k]) && (e matches Error::SkillNotFound(m) && m@
            == not_installed_msg(ts[k]))
}

/// Replaces the project's skills with the picker's choice: everything is
/// disabled, then the core choices are enabled as core and the extra ones
/// as extra, in order; the first choice that is not installed stops it.
pub fn apply_selection(
    manifest: &mut Manifest,
    lock: &mut Lock,
    registry: &RegistryLock,
    core_ids: &Vec<SkillId>,
    extra_ids: &Vec<SkillId>,
) -> (r: Result<(), Error>)
    ensures
        final(manifest).project == old(manifest).project,
        final(manifest).agent == old(manifest).agent,
        ({
            let ts = id_texts(core_ids@) + id_texts(extra_ids@);
            let reg = as_map(registry.skills@);
            let nc = core_ids@.len() as int;
            &&& all_installed(ts, reg) ==> {
                &&& r is Ok
                &&& as_map(final(manifest).skills.core@) == placed_all(
                    placed_all(Map::empty(), ts.take(nc), reg, Tier::Core, Tier::Core),
                    ts.skip(nc),
                    reg,
                    Tier::Extra,
                    Tier::Core,
                )
                &&& as_map(final(manifest).skills.extra@) == placed_all(
                    placed_all(Map::empty(), ts.take(nc), reg, Tier::Core, Tier::Extra),
                    ts.skip(nc),
                    reg,
                    Tier::Extra,
                    Tier::Extra,
                )
            }
            &&& !all_installed(ts, reg) ==> (r matches Err(e) && first_missing(ts, reg, e))
        }),
{
    manifest.skills.core.clear();
    manifest.skills.extra.clear();
    lock.skills.clear();
    let ghost reg = as_map(registry.skills@);
    let ghost ts = id_texts(core_ids@) + id_texts(extra_ids@);
    let ghost nc = core_ids@.len() as int;
    let ghost p0 = manifest.project;
    let ghost a0 = manifest.agent;
    proof {
        assert(as_map(manifest.skills.core@) =~= Map::<Seq<char>, SkillSpec>::empty());
        assert(as_map(manifest.skills.extra@) =~= Map::<Seq<char>, SkillSpec>::empty());
        assert(ts.take(0) =~= Seq::<Seq<char>>::empty());
    }
    let mut i: usize = 0;
    while i < core_ids.len()
        invariant
            0 <= i <= core_ids@.len(),
            reg == as_map(registry.skills@),
            ts == id_texts(core_ids@) + id_texts(extra_ids@),
            nc == core_ids@.len(),
            manifest.project == p0,
            manifest.agent == a0,
            p0 == old(manifest).project,
            a0 == old(manifest).agent,
            forall|j: int| 0 <= j < i ==> #[trigger] reg.contains_key(ts[j]),
            as_map(manifest.skills.core@) == placed_all(Map::empty(), ts.take(i as int), reg, Tier::Core, Tier::Core),
            as_map(manifest.skills.extra@) == placed_all(Map::empty(), ts.take(i as int), reg, Tier::Core, Tier::Extra),
        decreases core_ids@.len() - i,
    {
        let t = core_ids[i].to_string();
        proof {
            assert(t@ == ts[i as int]);
            assert(ts.take(i + 1).drop_last() =~= ts.take(i as int));
            assert(ts.take(i + 1).last() == ts[i as int]);
        }
        match apply_add(manifest, lock, registry, t.as_str(), Tier::Core) {
            Ok(()) => {},
            Err(e) => {
                proof {
                    assert(!reg.contains_key(ts[i as int]));
                    assert(first_missing(ts, reg, e));
                }
                return Err(e);
            },
        }
        i = i + 1;
    }
    proof {
        assert(ts.take(nc) =~= ts.take(i as int));
        assert(ts.skip(nc).take(0) =~= Seq::<Seq<char>>::empty());
    }
    let mut j: usize = 0;
    while j < extra_ids.len()
        invariant
            0 <= j <= extra_ids@.len(),
            reg == as_map(registry.skills@),
            ts == id_texts(core_ids@) + id_texts(extra_ids@),
            nc == core_ids@.len(),
            ts.len() == nc + extra_ids@.len(),
            manifest.project == p0,
            manifest.agent == a0,
            p0 == old(manifest).project,
            a0 == old(manifest).agent,
            forall|k: int| 0 <= k < nc + j ==> #[trigger] reg.contains_key(ts[k]),
            as_map(manifest.skills.core@) == placed_all(
                placed_all(Map::empty(), ts.take(nc), reg, Tier::Core, Tier::Core),
                ts.skip(nc).take(j as int),
                reg,
                Tier::Extra,
                Tier::Core,
            ),
            as_map(manifest.skills.extra@) == placed_all(
                placed_all(Map::empty(), ts.take(nc), reg, Tier::Core, Tier::Extra),
                ts.skip(nc).take(j as int),
                reg,
                Tier::Extra,
                Tier::Extra,
            ),
        decreases extra_ids@.len() - j,
    {
        let t = extra_ids[j].to_string();
        proof {
            assert(t@ == ts[nc + j]);
            assert(ts.skip(nc).take(j + 1).drop_last() =~= ts.skip(nc).take(j as int));
            assert(ts.skip(nc).take(j + 1).last() == ts[nc + j]);
        }
        match apply_add(manifest, lock, registry, t.as_str(), Tier::Extra) {
            Ok(()) => {},
            Err(e) => {
                proof {
                    assert(!reg.contains_key(ts[nc + j]));
                    assert(first_missing(ts, reg, e));
                }
                return Err(e);
            },
        }
        j = j + 1;
    }
    proof {
        assert(ts.skip(nc).take(j as int) =~= ts.skip(nc));
        assert(all_installed(ts, reg));
    }
    Ok(())
}

/// The ids a manifest enables: the core ones, then the extra ones, each in
/// key order.
pub fn enabled_ids(manifest: &Manifest) -> (r: Vec<String>)
    ensures
        views(r@) == crate::strmap::keys_of(manifest.skills.core@) + crate::strmap::keys_of(
            manifest.skills.extra@,
        ),
{
    let mut r = manifest.skills.core.keys();
    let mut x = manifest.skills.extra.keys();
    let ghost a = r@;
    let ghost b = x@;
    r.append(&mut x);
    proof {
        assert(views(r@) =~= views(a) + views(b));
    }
    r
}

/// Enabling a skill puts it in exactly one of the two tier tables, the one
/// of its tier.
pub proof fn law_one_tier(
    core: Map<Seq<char>, SkillSpec>,
    extra: Map<Seq<char>, SkillSpec>,
    id: Seq<char>,
    spec: SkillSpec,
    t: Tier,
)
    ensures
        placed(core, id, spec, t, Tier::Core).contains_key(id) == (t == Tier::Core),
        placed(extra, id, spec, t, Tier::Extra).contains_key(id) == (t == Tier::Extra),
{
}

/// Removing skills with `use --remove` leaves none of them enabled, and
/// every other enabled skill as it was.
pub proof fn law_remove_disables(m: Map<Seq<char>, SkillSpec>, ts: Seq<Seq<char>>, k: Seq<char>)
    ensures
        ts.contains(k) ==> !m.remove_keys(ts.to_set()).contains_key(k),
        !ts.contains(k) && m.contains_key(k) ==> m.remove_keys(ts.to_set()).contains_key(k)
            && m.remove_keys(ts.to_set())[k] == m[k],
{
}

} // verus!
