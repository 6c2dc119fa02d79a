//! `skillctl profile`: the user's curated profiles in the global library.

use vstd::prelude::*;
use crate::error::Error;
use crate::order::{is_sorted_order, sorted_order};
use crate::profile::Profile;
use crate::source::{parse_source, source_outcome, toml_stem, toml_stem_of, Source};
use crate::store::{joined, path_join, GlobalStore};
use crate::text::{
    ascii_lower_seq, concat, contains_chars, contains_seq, lower_chars, push_str, trim, trim_seq,
    views,
};
use crate::types::clone_opt;

verus! {

/// The subcommands of `skillctl profile`.
pub enum ProfileCmd {
    Add(AddArgs),
    List,
    Show(ShowArgs),
    Remove(RemoveArgs),
    Update(UpdateArgs),
}

/// The arguments of `profile add`.
pub struct AddArgs {
    /// A local `.toml` file or `github:` reference.
    pub source: String,
    /// Install under this name instead of the file's `profile.name`.
    pub as_name: Option<String>,
}

/// The arguments of `profile show`.
pub struct ShowArgs {
    pub name: String,
}

/// The arguments of `profile remove`.
pub struct RemoveArgs {
    pub name: String,
}

/// The arguments of `profile update`.
pub struct UpdateArgs {
    /// One profile; every installed one without.
    pub name: Option<String>,
}

/// Where the source of an installed profile is recorded:
/// `<root>/profiles/<name>.source.json`.
pub fn sidecar_path(store: &GlobalStore, name: &str) -> (r: String)
    ensures
        r@ == joined(joined(store.root@, "profiles"@), name@ + ".source.json"@),
{
    let d = store.profiles_dir();
    let f = concat(name, ".source.json");
    path_join(d.as_str(), f.as_str())
}

/// Names a profile being installed: `--as` renames it; a blank name is
/// refused.
pub fn profile_name(prof: &mut Profile, forced: Option<&str>) -> (r: Result<String, Error>)
    ensures
        forced matches Some(f) ==> final(prof).profile.name@ == f@,
        forced is None ==> final(prof).profile.name == old(prof).profile.name,
        final(prof).profile.description == old(prof).profile.description,
        final(prof).profile.author == old(prof).profile.author,
        final(prof).profile.homepage == old(prof).profile.homepage,
        final(prof).skills == old(prof).skills,
        trim_seq(final(prof).profile.name@).len() == 0 ==> (r matches Err(Error::Other(m)) && m@
            == "profile name is empty; use --as <name>"@),
        trim_seq(final(prof).profile.name@).len() > 0 ==> (r matches Ok(n) && n@
            == final(prof).profile.name@),
{
    if let Some(f) = forced {
        prof.profile.name = f.to_owned();
    }
    let name = prof.profile.name.clone();
    if crate::text::chars_of(trim(name.as_str()).as_str()).len() == 0 {
        return Err(Error::Other("profile name is empty; use --as <name>".to_owned()));
    }
    Ok(name)
}

/// What `profile update` does with one installed profile.
#[derive(Debug)]
pub enum ProfileUpdateStep {
    /// No source was recorded for it: it is skipped.
    Skip,
    /// Fetch it again from this source; `original` is the recorded text.
    Refetch { source: Source, original: String },
}

/// Decides what to do with an installed profile whose recorded source text
/// is `recorded` (none when no source was recorded): skip it, or fetch it
/// again from the parsed source. A recorded text that is no source is an
/// error.
pub fn profile_update_step(recorded: Option<String>) -> (r: Result<ProfileUpdateStep, Error>)
    ensures
        recorded is None ==> (r matches Ok(ProfileUpdateStep::Skip)),
        recorded matches Some(t) ==> exists|res: Result<Source, Error>|
            #![trigger source_outcome(t@, res)]
            source_outcome(t@, res) && match res {
                Ok(src) => r matches Ok(ProfileUpdateStep::Refetch { source, original }) && source
                    == src && original == t,
                Err(e) => r == Err::<ProfileUpdateStep, Error>(e),
            },
{
    match recorded {
        None => Ok(ProfileUpdateStep::Skip),
        Some(t) => {
            let res = parse_source(t.as_str());
            proof {
                assert(source_outcome(t@, res));
            }
            match res {
                Ok(source) => Ok(ProfileUpdateStep::Refetch { source, original: t }),
                Err(e) => Err(e),
            }
        },
    }
}

/// The `.toml` file a profile is installed from: the fetched path, which
/// must be a file; `what` completes the refusal's wording.
pub fn profile_toml_path(root: &str, root_is_file: bool, what: &str) -> (r: Result<String, Error>)
    ensures
        root_is_file ==> (r matches Ok(p) && p@ == root@),
        !root_is_file ==> (r matches Err(Error::Other(m)) && m@ == "profile source must be a .toml file"@
            + what@ + ": "@ + root@),
{
    if root_is_file {
        Ok(root.to_owned())
    } else {
        let mut m = concat("profile source must be a .toml file", what);
        push_str(&mut m, ": ");
        push_str(&mut m, root);
        Err(Error::Other(m))
    }
}

/// A fetched profile keeps the name it is installed under locally,
/// whatever its file says; nothing else of it changes.
pub fn keep_local_name(prof: &mut Profile, name: &str)
    ensures
        final(prof).profile.name@ == name@,
        final(prof).profile.description == old(prof).profile.description,
        final(prof).profile.author == old(prof).profile.author,
        final(prof).profile.homepage == old(prof).profile.homepage,
        final(prof).skills == old(prof).skills,
{
    prof.profile.name = name.to_owned();
}

/// The stems of the `.toml` file names, in order.
pub open spec fn toml_stems_of(names: Seq<Seq<char>>) -> Seq<Seq<char>>
    decreases names.len(),
{
    if names.len() == 0 {
        Seq::empty()
    } else {
        match toml_stem_of(names.last()) {
            Some(s) => toml_stems_of(names.drop_last()).push(s),
            None => toml_stems_of(names.drop_last()),
        }
    }
}

/// The profile names among the file names of the profiles directory.
pub fn toml_stems(names: &Vec<String>) -> (r: Vec<String>)
    ensures
        views(r@) == toml_stems_of(views(names@)),
{
    let mut r: Vec<String> = Vec::new();
    let mut i: usize = 0;
    while i < names.len()
        invariant
            0 <= i <= names@.len(),
            views(r@) == toml_stems_of(views(names@).take(i as int)),
        decreases names@.len() - i,
    {
        proof {
            assert(views(names@).take(i + 1).drop_last() =~= views(names@).take(i as int));
            assert(views(names@).take(i + 1).last() == names@[i as int]@);
        }
        let ghost before = r@;
        match toml_stem(names[i].as_str()) {
            Some(s) => {
                r.push(s);
                proof {
                    assert(views(r@) =~= views(before).push(r@[r@.len() - 1]@));
                }
            },
            None => {},
        }
        i = i + 1;
    }
    proof {
        assert(views(names@).take(i as int) =~= views(names@));
    }
    r
}

/// The profiles `profile update` refreshes: the named one, or every
/// installed one (`names` are the file names of the profiles directory).
pub fn update_targets(name: Option<String>, names: &Vec<String>) -> (r: Vec<String>)
    ensures
        name matches Some(n) ==> r@ == seq![n],
        name is None ==> views(r@) == toml_stems_of(views(names@)),
{
    match name {
        Some(n) => {
            let mut r: Vec<String> = Vec::new();
            r.push(n);
            proof {
                assert(r@ =~= seq![r@[0]]);
            }
            r
        },
        None => toml_stems(names),
    }
}

/// A line of `profile list`.
#[derive(Debug)]
pub struct ProfileSummary {
    pub name: String,
    pub description: Option<String>,
    pub core_count: usize,
    pub extra_count: usize,
}

/// The summary of an installed profile.
pub fn profile_summary(p: &Profile) -> (s: ProfileSummary)
    ensures
        s.name == p.profile.name,
        s.description == p.profile.description,
        s.core_count == p.skills.core@.len(),
        s.extra_count == p.skills.extra@.len(),
{
    ProfileSummary {
        name: p.profile.name.clone(),
        description: clone_opt(&p.profile.description),
        core_count: p.skills.core.len(),
        extra_count: p.skills.extra.len(),
    }
}

/// The names of a list of summaries.
pub open spec fn summary_names(v: Seq<ProfileSummary>) -> Seq<Seq<char>> {
    Seq::new(v.len(), |i: int| v[i].name@)
}

/// Sorts the summaries by name, keeping equal names in their order.
pub fn sort_summaries(v: Vec<ProfileSummary>) -> (r: Vec<ProfileSummary>)
    ensures
        exists|ord: Seq<usize>|
            #![trigger is_sorted_order(summary_names(v@), ord)]
            is_sorted_order(summary_names(v@), ord) && r@.len() == ord.len() && forall|k: int|
                0 <= k < ord.len() ==> #[trigger] r@[k] == v@[ord[k] as int],
{
    let mut names: Vec<String> = Vec::new();
    let mut i: usize = 0;
    while i < v.len()
        invariant
            0 <= i <= v@.len(),
            names@.len() == i,
            forall|k: int| 0 <= k < i ==> (#[trigger] names@[k])@ == v@[k].name@,
        decreases v@.len() - i,
    {
        names.push(v[i].name.clone());
        i = i + 1;
    }
    proof {
        assert(views(names@) =~= summary_names(v@));
    }
    let ord = sorted_order(&names);
    let mut r: Vec<ProfileSummary> = Vec::new();
    let mut k: usize = 0;
    while k < ord.len()
        invariant
            0 <= k <= ord@.len(),
            is_sorted_order(summary_names(v@), ord@),
            r@.len() == k,
            forall|j: int| 0 <= j < k ==> #[trigger] r@[j] == v@[ord@[j] as int],
        decreases ord@.len() - k,
    {
        let s = &v[ord[k]];
        r.push(
            ProfileSummary {
                name: s.name.clone(),
                description: clone_opt(&s.description),
                core_count: s.core_count,
                extra_count: s.extra_count,
            },
        );
        k = k + 1;
    }
    r
}

/// A profile is suggested for a stack when its name, in ASCII lower case,
/// contains one of the detected stack names.
pub open spec fn suggested_for(stem: Seq<char>, detected: Seq<Seq<char>>) -> bool {
    exists|k: int| 0 <= k < detected.len() && contains_seq(ascii_lower_seq(stem), #[trigger] detected[k])
}

/// The profiles to suggest: those among `stems` matching a detected stack,
/// in order.
pub open spec fn suggestions(stems: Seq<Seq<char>>, detected: Seq<Seq<char>>) -> Seq<Seq<char>>
    decreases stems.len(),
{
    if stems.len() == 0 {
        Seq::empty()
    } else if suggested_for(stems.last(), detected) {
        suggestions(stems.drop_last(), detected).push(stems.last())
    } else {
        suggestions(stems.drop_last(), detected)
    }
}

/// The installed profiles matching the detected stacks, in order.
pub fn suggest_profiles(stems: &Vec<String>, detected: &Vec<&'static str>) -> (r: Vec<String>)
    ensures
        views(r@) == suggestions(views(stems@), crate::detect::str_views(detected@)),
{
    let ghost ds = crate::detect::str_views(detected@);
    let mut r: Vec<String> = Vec::new();
    let mut i: usize = 0;
    while i < stems.len()
        invariant
            0 <= i <= stems@.len(),
            ds == crate::detect::str_views(detected@),
            views(r@) == suggestions(views(stems@).take(i as int), ds),
        decreases stems@.len() - i,
    {
        proof {
            assert(views(stems@).take(i + 1).drop_last() =~= views(stems@).take(i as int));
            assert(views(stems@).take(i + 1).last() == stems@[i as int]@);
        }
        let lower = lower_chars(stems[i].as_str());
        let mut hit = false;
        let mut k: usize = 0;
        while k < detected.len()
            invariant
                0 <= k <= detected@.len(),
                ds == crate::detect::str_views(detected@),
                lower@ == ascii_lower_seq(stems@[i as int]@),
                hit == exists|j: int| 0 <= j < k && contains_seq(lower@, #[trigger] ds[j]),
            decreases detected@.len() - k,
        {
            let t = crate::text::chars_of(detected[k]);
            if contains_chars(lower.as_slice(), t.as_slice()) {
                hit = true;
            }
            proof {
                assert(ds[k as int] == t@);
            }
            k = k + 1;
        }
        let ghost before = r@;
        if hit {
            r.push(stems[i].clone());
            proof {
                assert(views(r@) =~= views(before).push(stems@[i as int]@));
            }
        }
        i = i + 1;
    }
    proof {
        assert(views(stems@).take(i as int) =~= views(stems@));
    }
    r
}

/// Sorts names, keeping equal ones in their order.
pub fn sort_names(v: &Vec<String>) -> (r: Vec<String>)
    ensures
        exists|ord: Seq<usize>|
            #![trigger is_sorted_order(views(v@), ord)]
            is_sorted_order(views(v@), ord) && r@.len() == ord.len() && forall|k: int|
                0 <= k < ord.len() ==> #[trigger] r@[k] == v@[ord[k] as int],
{
    let ord = sorted_order(v);
    let mut r: Vec<String> = Vec::new();
    let mut k: usize = 0;
    while k < ord.len()
        invariant
            0 <= k <= ord@.len(),
            is_sorted_order(views(v@), ord@),
            r@.len() == k,
            forall|j: int| 0 <= j < k ==> #[trigger] r@[j] == v@[ord@[j] as int],
        decreases ord@.len() - k,
    {
        r.push(v[ord[k]].clone());
        k = k + 1;
    }
    r
}

/// A profile is suggested exactly when its name, in ASCII lower case,
/// contains one of the detected stack names, wherever that name stands in
/// the detected list; nothing else is suggested.
pub proof fn law_suggests_every_match(stems: Seq<Seq<char>>, detected: Seq<Seq<char>>)
    ensures
        forall|k: int, j: int|
            0 <= k < stems.len() && 0 <= j < detected.len() && contains_seq(
                ascii_lower_seq(#[trigger] stems[k]),
                #[trigger] detected[j],
            ) ==> suggestions(stems, detected).contains(stems[k]),
        forall|x: Seq<char>|
            #[trigger] suggestions(stems, detected).contains(x) ==> stems.contains(x) && exists|j: int|
                0 <= j < detected.len() && contains_seq(ascii_lower_seq(x), #[trigger] detected[j]),
    decreases stems.len(),
{
    if stems.len() > 0 {
        let d = stems.drop_last();
        law_suggests_every_match(d, detected);
        let sd = suggestions(d, detected);
        let s = suggestions(stems, detected);
        assert forall|k: int, j: int|
            0 <= k < stems.len() && 0 <= j < detected.len() && contains_seq(
                ascii_lower_seq(#[trigger] stems[k]),
                #[trigger] detected[j],
            ) implies s.contains(stems[k]) by {
            if k < stems.len() - 1 {
                assert(d[k] == stems[k]);
                assert(sd.contains(d[k]));
                let m = choose|m: int| 0 <= m < sd.len() && sd[m] == d[k];
                if suggested_for(stems.last(), detected) {
                    assert(s[m] == sd[m]);
                }
            } else {
                assert(suggested_for(stems.last(), detected));
                assert(s[sd.len() as int] == stems.last());
            }
        }
        assert forall|x: Seq<char>| #[trigger] s.contains(x) implies stems.contains(x) && exists|j: int|
            0 <= j < detected.len() && contains_seq(ascii_lower_seq(x), #[trigger] detected[j]) by {
            let m = choose|m: int| 0 <= m < s.len() && s[m] == x;
            if m < sd.len() {
                assert(s[m] == sd[m]);
                assert(sd.contains(x));
                let i = choose|i: int| 0 <= i < d.len() && d[i] == x;
                assert(stems[i] == x);
            } else {
                assert(suggested_for(stems.last(), detected));
                assert(x == stems.last());
                assert(stems[stems.len() - 1] == x);
            }
        }
    }
}

} // verus!
