//! `skillctl list`: the catalog of a project's skills, or of every
//! installed skill.

use vstd::prelude::*;
use crate::error::Error;
use crate::id::{byte_len, id_verdict, parse_outcome, valid_id, IdVerdict, SkillId};
use crate::order::{is_sorted_order, sorted_order};
use crate::skill::Requires;
use crate::protocol::{tsv_clean, tsv_clean_seq, ListResponse, ListedSkill, PROTOCOL_VERSION};
use crate::store::{flat_skills, GlobalEntry, Lock, LockEntry, Manifest, RegistryLock};
use crate::strmap::as_map;
use crate::text::{contains_str, join, join_seq, opt_str, push_str, views};
use crate::types::{clone_strings, tier_label, Tier};

verus! {

/// The arguments of `skillctl list`.
pub struct Args {
    /// List every installed skill.
    pub global: bool,
    /// List the project's skills.
    pub project: bool,
    /// Keep only skills for this language.
    pub lang: Option<String>,
    /// Keep only skills with this tag.
    pub tag: Option<String>,
}

/// Whether the project's catalog is listed rather than the global one:
/// `--project` wins, then `--global`; without either, the project's when
/// one encloses the working directory.
pub fn project_first(args: &Args, in_project: bool) -> (r: bool)
    ensures
        r == (args.project || (!args.global && in_project)),
{
    if args.project {
        true
    } else if args.global {
        false
    } else {
        in_project
    }
}

/// `s` is the catalog record of the project skill `key` at tier `tier`:
/// its exact facts from the lock, or placeholders when the lock has none.
pub open spec fn listed_from_project(s: ListedSkill, key: Seq<char>, tier: Tier, lock: Map<Seq<char>, LockEntry>) -> bool {
    &&& s.id@ == key
    &&& id_verdict(key, byte_len(key)) matches IdVerdict::Valid(ns, name) && s.namespace@ == ns
        && s.name@ == name
    &&& s.tier == tier
    &&& if lock.contains_key(key) {
        let le = lock[key];
        &&& s.version == le.version
        &&& s.summary == le.summary
        &&& s.triggers@ == le.triggers@
        &&& s.languages@ == le.languages@
        &&& s.tags@ == le.tags@
    } else {
        &&& s.version@ == "*"@
        &&& s.summary@.len() == 0
        &&& s.triggers@.len() == 0
        &&& s.languages@.len() == 0
        &&& s.tags@.len() == 0
    }
}

/// Every key of the flat view is a full id.
pub open spec fn all_keys_valid(flat: Seq<(Seq<char>, crate::profile::SkillSpec, Tier)>) -> bool {
    forall|k: int| 0 <= k < flat.len() ==> #[trigger] valid_id(flat[k].0)
}

/// `e` is the error of parsing the first key that is not a full id.
pub open spec fn first_bad_key(flat: Seq<(Seq<char>, crate::profile::SkillSpec, Tier)>, e: Error) -> bool {
    exists|k: int|
        0 <= k < flat.len() && (forall|j: int| 0 <= j < k ==> #[trigger] valid_id(flat[j].0))
            && !valid_id(#[trigger] flat[k].0) && parse_outcome(flat[k].0, Err(e))
}

/// The positions of `avail` that hold `true`, in order.
pub open spec fn kept_positions(avail: Seq<bool>) -> Seq<int>
    decreases avail.len(),
{
    if avail.len() == 0 {
        Seq::empty()
    } else {
        let p = kept_positions(avail.drop_last());
        if avail.last() {
            p.push(avail.len() - 1)
        } else {
            p
        }
    }
}

/// The skills that the catalog keeps are exactly the available ones, each
/// once, in their order: an unavailable skill is left out entirely, never
/// listed and then refused.
pub proof fn law_listing_only_available(avail: Seq<bool>)
    ensures
        forall|j: int|
            0 <= j < kept_positions(avail).len() ==> 0 <= #[trigger] kept_positions(avail)[j]
                < avail.len() && avail[kept_positions(avail)[j]],
        forall|a: int, b: int|
            0 <= a < b < kept_positions(avail).len() ==> #[trigger] kept_positions(avail)[a]
                < #[trigger] kept_positions(avail)[b],
        forall|k: int| 0 <= k < avail.len() && #[trigger] avail[k] ==> kept_positions(avail).contains(k),
    decreases avail.len(),
{
    if avail.len() > 0 {
        let d = avail.drop_last();
        law_listing_only_available(d);
        let p = kept_positions(d);
        assert forall|k: int| 0 <= k < avail.len() && #[trigger] avail[k] implies kept_positions(
            avail,
        ).contains(k) by {
            if k < avail.len() - 1 {
                assert(d[k] == avail[k]);
                let j = choose|j: int| 0 <= j < p.len() && p[j] == k;
                if avail.last() {
                    assert(kept_positions(avail)[j] == k);
                }
            } else {
                assert(kept_positions(avail) == p.push(avail.len() - 1));
                assert(kept_positions(avail)[p.len() as int] == k);
            }
        }
    }
}

/// The catalog of the project's skills, core first, each in key order,
/// without those that `available` marks unavailable here (whose required
/// binaries or environment variables are missing, or that are not
/// installed). Every key must be a full id.
pub fn project_listing(manifest: &Manifest, lock: &Lock, available: &Vec<bool>) -> (r: Result<Vec<ListedSkill>, Error>)
    requires
        available@.len() == flat_skills(*manifest).len(),
    ensures
        all_keys_valid(flat_skills(*manifest)) ==> (r matches Ok(v) && v@.len() == kept_positions(
            available@,
        ).len() && forall|j: int|
            0 <= j < v@.len() ==> listed_from_project(
                #[trigger] v@[j],
                flat_skills(*manifest)[kept_positions(available@)[j]].0,
                flat_skills(*manifest)[kept_positions(available@)[j]].2,
                as_map(lock.skills@),
            )),
        !all_keys_valid(flat_skills(*manifest)) ==> (r matches Err(e) && first_bad_key(
            flat_skills(*manifest),
            e,
        )),
{
    let flat = manifest.iter_skills();
    let ghost fs = flat_skills(*manifest);
    let ghost lm = as_map(lock.skills@);
    let ghost av = available@;
    proof {
        assert forall|k: int| 0 <= k < flat@.len() implies flat@[k].0@ == fs[k].0 && flat@[k].2
            == fs[k].2 by {
            assert(crate::store::flat_view(flat@)[k] == fs[k]);
        }
        assert(av.take(0) =~= Seq::<bool>::empty());
    }
    let mut out: Vec<ListedSkill> = Vec::new();
    let mut i: usize = 0;
    while i < flat.len()
        invariant
            0 <= i <= flat@.len(),
            flat@.len() == fs.len(),
            av.len() == fs.len(),
            av == available@,
            fs == flat_skills(*manifest),
            lm == as_map(lock.skills@),
            forall|k: int| 0 <= k < flat@.len() ==> (#[trigger] flat@[k]).0@ == fs[k].0 && flat@[k].2
                == fs[k].2,
            out@.len() == kept_positions(av.take(i as int)).len(),
            forall|j: int| 0 <= j < i ==> #[trigger] valid_id(fs[j].0),
            forall|j: int|
                0 <= j < out@.len() ==> 0 <= #[trigger] kept_positions(av.take(i as int))[j] < i,
            forall|j: int|
                0 <= j < out@.len() ==> listed_from_project(
                    #[trigger] out@[j],
                    fs[kept_positions(av.take(i as int))[j]].0,
                    fs[kept_positions(av.take(i as int))[j]].2,
                    lm,
                ),
        decreases flat@.len() - i,
    {
        let key = flat[i].0.as_str();
        let tier = flat[i].2;
        let id = match SkillId::parse(key) {
            Ok(id) => id,
            Err(e) => {
                proof {
                    assert(!valid_id(fs[i as int].0));
                    assert(first_bad_key(fs, e));
                }
                return Err(e);
            },
        };
        proof {
            assert(valid_id(fs[i as int].0));
            assert(av.take(i + 1).drop_last() =~= av.take(i as int));
            assert(av.take(i + 1).last() == av[i as int]);
        }
        if available[i] {
            let (version, summary, triggers, languages, tags) = match lock.skills.get(key) {
                Some(le) => (
                    le.version.clone(),
                    le.summary.clone(),
                    clone_strings(&le.triggers),
                    clone_strings(&le.languages),
                    clone_strings(&le.tags),
                ),
                None => ("*".to_owned(), String::new(), Vec::new(), Vec::new(), Vec::new()),
            };
            out.push(
                ListedSkill {
                    id: key.to_owned(),
                    name: id.name.as_str().to_owned(),
                    namespace: id.namespace.as_str().to_owned(),
                    version,
                    tier,
                    summary,
                    languages,
                    triggers,
                    tags,
                },
            );
        }
        i = i + 1;
    }
    proof {
        assert(av.take(fs.len() as int) =~= av);
    }
    Ok(out)
}

/// Whether a skill's requirements are met here: every required binary was
/// found on `PATH` and every required environment variable is set.
pub fn requirements_met(reqs: &Requires, found_bins: &Vec<Option<String>>, env_set: &Vec<bool>) -> (b: bool)
    requires
        found_bins@.len() == reqs.binaries@.len(),
        env_set@.len() == reqs.env@.len(),
    ensures
        b == ((forall|k: int| 0 <= k < found_bins@.len() ==> (#[trigger] found_bins@[k]) is Some)
            && (forall|k: int| 0 <= k < env_set@.len() ==> #[trigger] env_set@[k])),
{
    let mut i: usize = 0;
    while i < found_bins.len()
        invariant
            0 <= i <= found_bins@.len(),
            forall|k: int| 0 <= k < i ==> (#[trigger] found_bins@[k]) is Some,
        decreases found_bins@.len() - i,
    {
        if found_bins[i].is_none() {
            return false;
        }
        i = i + 1;
    }
    let mut j: usize = 0;
    while j < env_set.len()
        invariant
            0 <= j <= env_set@.len(),
            forall|k: int| 0 <= k < found_bins@.len() ==> (#[trigger] found_bins@[k]) is Some,
            forall|k: int| 0 <= k < j ==> #[trigger] env_set@[k],
        decreases env_set@.len() - j,
    {
        if !env_set[j] {
            return false;
        }
        j = j + 1;
    }
    true
}

/// `s` is the catalog record of the installed skill `e`; outside a
/// project every skill is listed as extra.
pub open spec fn listed_from_global(s: ListedSkill, e: GlobalEntry) -> bool {
    &&& s.id == e.id
    &&& s.name == e.name
    &&& s.namespace == e.namespace
    &&& s.version == e.version
    &&& s.tier == Tier::Extra
    &&& s.summary == e.summary
    &&& s.languages@ == e.languages@
    &&& s.triggers@ == e.triggers@
    &&& s.tags@ == e.tags@
}

/// The ids of the installed skills, in key order.
pub open spec fn entry_ids(entries: Seq<(Seq<char>, GlobalEntry)>) -> Seq<Seq<char>> {
    Seq::new(entries.len(), |i: int| entries[i].1.id@)
}

/// The catalog of every installed skill, sorted by id (stably).
pub fn global_listing(reg: &RegistryLock) -> (r: Vec<ListedSkill>)
    ensures
        exists|ord: Seq<usize>|
            is_sorted_order(entry_ids(reg.skills@), ord) && r@.len() == ord.len() && forall|k: int|
                0 <= k < ord.len() ==> listed_from_global(
                    #[trigger] r@[k],
                    reg.skills@[ord[k] as int].1,
                ),
{
    let ghost es = reg.skills@;
    let n = reg.skills.len();
    let mut ids: Vec<String> = Vec::new();
    let mut i: usize = 0;
    while i < n
        invariant
            0 <= i <= n,
            n == es.len(),
            es == reg.skills@,
            ids@.len() == i,
            forall|k: int| 0 <= k < i ==> (#[trigger] ids@[k])@ == es[k].1.id@,
        decreases n - i,
    {
        ids.push(reg.skills.value_at(i).id.clone());
        i = i + 1;
    }
    proof {
        assert(views(ids@) =~= entry_ids(es));
    }
    let ord = sorted_order(&ids);
    let mut out: Vec<ListedSkill> = Vec::new();
    let mut k: usize = 0;
    while k < ord.len()
        invariant
            0 <= k <= ord@.len(),
            n == es.len(),
            es == reg.skills@,
            is_sorted_order(entry_ids(es), ord@),
            out@.len() == k,
            forall|j: int| 0 <= j < k ==> listed_from_global(#[trigger] out@[j], es[ord@[j] as int].1),
        decreases ord@.len() - k,
    {
        let e = reg.skills.value_at(ord[k]);
        out.push(
            ListedSkill {
                id: e.id.clone(),
                name: e.name.clone(),
                namespace: e.namespace.clone(),
                version: e.version.clone(),
                tier: Tier::Extra,
                summary: e.summary.clone(),
                languages: clone_strings(&e.languages),
                triggers: clone_strings(&e.triggers),
                tags: clone_strings(&e.tags),
            },
        );
        k = k + 1;
    }
    out
}

/// `s` passes the `--lang` and `--tag` filters.
pub open spec fn passes(s: ListedSkill, lang: Option<Seq<char>>, tag: Option<Seq<char>>) -> bool {
    &&& lang matches Some(l) ==> views(s.languages@).contains(l)
    &&& tag matches Some(t) ==> views(s.tags@).contains(t)
}

/// The members of `v` that pass the filters, in order.
pub open spec fn filtered(v: Seq<ListedSkill>, lang: Option<Seq<char>>, tag: Option<Seq<char>>) -> Seq<ListedSkill>
    decreases v.len(),
{
    if v.len() == 0 {
        v
    } else if passes(v.last(), lang, tag) {
        filtered(v.drop_last(), lang, tag).push(v.last())
    } else {
        filtered(v.drop_last(), lang, tag)
    }
}

/// Keeps the skills for the language `lang` and with the tag `tag`, where
/// given.
pub fn apply_filters(skills: &mut Vec<ListedSkill>, lang: Option<&str>, tag: Option<&str>)
    ensures
        final(skills)@ == filtered(old(skills)@, opt_str(lang), opt_str(tag)),
{
    let ghost v0 = skills@;
    let n: usize = skills.len();
    let mut rest: Vec<ListedSkill> = Vec::new();
    std::mem::swap(&mut rest, skills);
    let mut i: usize = 0;
    proof {
        assert(v0.take(0) =~= Seq::<ListedSkill>::empty());
    }
    while rest.len() > 0
        invariant
            rest@ == v0.skip(i as int),
            i <= n,
            n == v0.len(),
            skills@ == filtered(v0.take(i as int), opt_str(lang), opt_str(tag)),
        decreases rest@.len(),
    {
        let s = rest.remove(0);
        proof {
            assert(i < n);
            assert(s == v0[i as int]);
            assert(v0.take(i + 1).drop_last() =~= v0.take(i as int));
            assert(v0.take(i + 1).last() == v0[i as int]);
            assert(rest@ =~= v0.skip(i + 1));
        }
        let keep_lang = match lang {
            Some(l) => contains_str(&s.languages, l),
            None => true,
        };
        let keep_tag = match tag {
            Some(t) => contains_str(&s.tags, t),
            None => true,
        };
        if keep_lang && keep_tag {
            skills.push(s);
        }
        i = i + 1;
    }
    proof {
        assert(v0.take(i as int) =~= v0);
    }
}

/// The answer of `list`.
pub fn list_response(scope: &str, skills: Vec<ListedSkill>) -> (r: ListResponse)
    ensures
        r.protocol == PROTOCOL_VERSION,
        r.scope@ == scope@,
        r.count == skills@.len(),
        r.skills == skills,
{
    ListResponse { protocol: PROTOCOL_VERSION, scope: scope.to_owned(), count: skills.len(), skills }
}

/// The protocol's name of a tier.
pub open spec fn tier_text(t: Tier) -> Seq<char> {
    match t {
        Tier::Core => "core"@,
        Tier::Extra => "extra"@,
    }
}

/// The TSV line of one catalog record: tier, id, summary and triggers.
pub open spec fn tsv_row(s: ListedSkill) -> Seq<char> {
    tier_text(s.tier) + "\t"@ + tsv_clean_seq(s.id@) + "\t"@ + tsv_clean_seq(s.summary@) + "\t"@
        + tsv_clean_seq(join_seq(views(s.triggers@), ","@))
}

/// The Agent-oriented TSV of a catalog: a header, then one line per skill.
pub fn listing_tsv(skills: &Vec<ListedSkill>) -> (lines: Vec<String>)
    ensures
        lines@.len() == skills@.len() + 1,
        lines@[0]@ == "TIER\tID\tSUMMARY\tTRIGGERS"@,
        forall|k: int| 0 <= k < skills@.len() ==> (#[trigger] lines@[k + 1])@ == tsv_row(skills@[k]),
{
    let mut lines: Vec<String> = Vec::new();
    lines.push("TIER\tID\tSUMMARY\tTRIGGERS".to_owned());
    let mut i: usize = 0;
    while i < skills.len()
        invariant
            0 <= i <= skills@.len(),
            lines@.len() == i + 1,
            lines@[0]@ == "TIER\tID\tSUMMARY\tTRIGGERS"@,
            forall|k: int| 0 <= k < i ==> (#[trigger] lines@[k + 1])@ == tsv_row(skills@[k]),
        decreases skills@.len() - i,
    {
        let s = &skills[i];
        let mut line = tier_label(s.tier).to_owned();
        push_str(&mut line, "\t");
        push_str(&mut line, tsv_clean(s.id.as_str()).as_str());
        push_str(&mut line, "\t");
        push_str(&mut line, tsv_clean(s.summary.as_str()).as_str());
        push_str(&mut line, "\t");
        let triggers = join(s.triggers.as_slice(), ",");
        push_str(&mut line, tsv_clean(triggers.as_str()).as_str());
        lines.push(line);
        i = i + 1;
    }
    lines
}

/// The filters keep exactly the skills that pass them, in their order.
pub proof fn law_filtered_pass(v: Seq<ListedSkill>, lang: Option<Seq<char>>, tag: Option<Seq<char>>)
    ensures
        forall|k: int| 0 <= k < filtered(v, lang, tag).len() ==> passes(#[trigger] filtered(v, lang, tag)[k], lang, tag),
        forall|k: int| 0 <= k < v.len() && passes(#[trigger] v[k], lang, tag) ==> filtered(v, lang, tag).contains(v[k]),
        filtered(v, lang, tag).len() <= v.len(),
        lang is None && tag is None ==> filtered(v, lang, tag) == v,
    decreases v.len(),
{
    if v.len() > 0 {
        let d = v.drop_last();
        law_filtered_pass(d, lang, tag);
        let f = filtered(d, lang, tag);
        assert forall|k: int| 0 <= k < v.len() && passes(#[trigger] v[k], lang, tag) implies filtered(v, lang, tag).contains(v[k]) by {
            if k < d.len() {
                assert(d[k] == v[k]);
                assert(f.contains(v[k]));
                let j = choose|j: int| 0 <= j < f.len() && f[j] == v[k];
                assert(filtered(v, lang, tag)[j] == v[k]);
            } else {
                assert(filtered(v, lang, tag)[f.len() as int] == v[k]);
            }
        }
        if lang is None && tag is None {
            assert(filtered(v, lang, tag) =~= v);
        }
    }
}

/// Each line of the catalog TSV has exactly the four columns tier, id,
/// summary and triggers: the cleaned values hold no tab.
pub proof fn law_tsv_row_fields(s: ListedSkill)
    ensures
        crate::text::split_seq(tsv_row(s), crate::text::Sep::Char('\t')) == seq![
            tier_text(s.tier),
            tsv_clean_seq(s.id@),
            tsv_clean_seq(s.summary@),
            tsv_clean_seq(join_seq(views(s.triggers@), ","@)),
        ],
{
    reveal_strlit("core");
    reveal_strlit("extra");
    reveal_strlit("\t");
    let parts = seq![
        tier_text(s.tier),
        tsv_clean_seq(s.id@),
        tsv_clean_seq(s.summary@),
        tsv_clean_seq(join_seq(views(s.triggers@), ","@)),
    ];
    assert forall|i: int, j: int| 0 <= i < parts.len() && 0 <= j < parts[i].len() implies #[trigger] parts[i][j] != '\t' by {
        crate::protocol::law_tsv_clean_one_field(s.id@);
        crate::protocol::law_tsv_clean_one_field(s.summary@);
        crate::protocol::law_tsv_clean_one_field(join_seq(views(s.triggers@), ","@));
    }
    let sep = seq!['\t'];
    let p1 = seq![parts[0]];
    let p2 = seq![parts[0], parts[1]];
    let p3 = seq![parts[0], parts[1], parts[2]];
    assert(join_seq(p1, sep) == parts[0]);
    assert(p2.drop_last() =~= p1);
    assert(join_seq(p2, sep) == parts[0] + sep + parts[1]);
    assert(p3.drop_last() =~= p2);
    assert(join_seq(p3, sep) == parts[0] + sep + parts[1] + sep + parts[2]);
    assert(parts.drop_last() =~= p3);
    assert(join_seq(parts, sep) == parts[0] + sep + parts[1] + sep + parts[2] + sep + parts[3]);
    assert("\t"@ == sep);
    assert(join_seq(parts, sep) =~= tsv_row(s));
    crate::text::lemma_split_join(parts, '\t');
}

} // verus!
