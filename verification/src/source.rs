//! Where skills and profiles come from: `github:` references, local paths
//! and URLs, and the decisions around fetching them.

use vstd::prelude::*;
use crate::error::Error;
use crate::order::{is_sorted_order, sorted_order};
use crate::store::{joined, path_join, GlobalEntry};
use crate::text::{
    chars_of, concat, find_in, find_seq, has_prefix, lemma_find_seq, occurs_at, push_str,
    rfind_char, rfind_in, starts_with_str, string_from, substring, trim, trim_seq, views,
};
use crate::types::clone_opt;

verus! {

/// A source of skills or profiles.
#[allow(inconsistent_fields)]
#[derive(Debug)]
pub enum Source {
    /// `github:owner/repo[/sub/path][@ref]`.
    Github { repo: String, path: Option<String>, reference: Option<String> },
    /// A local path.
    Local { path: String },
    /// An `http://` or `https://` URL.
    Url { url: String },
}

/// A source brought to the local disk.
#[derive(Debug)]
pub struct Fetched {
    /// Where the fetched copy is (the directory or file to install from).
    pub root: String,
    /// The commit that a git source resolved to.
    pub commit: Option<String>,
    /// `local` or `github`, as recorded in the registry.
    pub source_kind: String,
    /// The `owner/repo` of a git source.
    pub repo: Option<String>,
}

/// The reference part of `github:...`: the text after the last `@` when
/// that is not empty.
pub open spec fn split_ref(rest: Seq<char>) -> (Seq<char>, Option<Seq<char>>) {
    match rfind_char(rest, '@') {
        Some(k) => if k + 1 < rest.len() {
            (rest.take(k), Some(rest.skip(k + 1)))
        } else {
            (rest, None)
        },
        None => (rest, None),
    }
}

/// Owner, name and sub-path of `owner/name[/sub/path]`, the first two not
/// empty, an empty sub-path counting as none.
pub open spec fn github_fields(p: Seq<char>) -> Option<(Seq<char>, Seq<char>, Option<Seq<char>>)> {
    match find_seq(p, seq!['/']) {
        None => None,
        Some(i) => {
            let owner = p.take(i);
            let after = p.skip(i + 1);
            if owner.len() == 0 {
                None
            } else {
                match find_seq(after, seq!['/']) {
                    None => if after.len() == 0 {
                        None
                    } else {
                        Some((owner, after, None))
                    },
                    Some(j) => {
                        let name = after.take(j);
                        let path = after.skip(j + 1);
                        if name.len() == 0 {
                            None
                        } else if path.len() == 0 {
                            Some((owner, name, None))
                        } else {
                            Some((owner, name, Some(path)))
                        }
                    },
                }
            }
        },
    }
}

/// The optional text of an optional string.
pub open spec fn opt_text(o: Option<String>) -> Option<Seq<char>> {
    match o {
        Some(s) => Some(s@),
        None => None,
    }
}

/// What `github:` followed by `rest` parses to.
pub open spec fn github_outcome(rest: Seq<char>, r: Result<Source, Error>) -> bool {
    let (p, reference) = split_ref(rest);
    match github_fields(p) {
        Some((owner, name, path)) => r matches Ok(Source::Github { repo, path: sp, reference: sr })
            && repo@ == owner + seq!['/'] + name && opt_text(sp) == path && opt_text(sr)
            == reference,
        None => r matches Err(Error::Other(m)) && m@ == "invalid github source: "@ + rest,
    }
}

/// The first `/` of `cs` at or after `from`.
fn find_slash(cs: &[char], from: usize) -> (r: Option<usize>)
    requires
        from <= cs@.len(),
    ensures
        match find_seq(cs@.skip(from as int), seq!['/']) {
            Some(k) => r == Some((from + k) as usize),
            None => r is None,
        },
{
    let tail = &cs[from..cs.len()];
    let slash: [char; 1] = ['/'];
    proof {
        assert(slash@ == seq!['/']);
        assert(tail@ == cs@.skip(from as int));
    }
    match find_in(tail, &slash, 0) {
        Some(k) => {
            proof {
                lemma_find_seq(tail@, seq!['/']);
            }
            Some(from + k)
        },
        None => None,
    }
}

/// Parses the part of a `github:` source after the prefix.
fn parse_github(rest: &str) -> (r: Result<Source, Error>)
    ensures
        github_outcome(rest@, r),
{
    let cs = chars_of(rest);
    proof {
        crate::text::lemma_rfind_char(rest@, '@');
    }
    let at = rfind_in(cs.as_slice(), '@');
    proof {
        if let Some(k) = at {
            assert(cs@ == rest@);
            assert(k < cs@.len());
        }
    }
    let (p, reference): (Vec<char>, Option<String>) = match at {
        Some(k) => if k < cs.len() - 1 {
            (chars_of(substring(cs.as_slice(), 0, k).as_str()), Some(substring(cs.as_slice(), k + 1, cs.len())))
        } else {
            (cs.clone(), None)
        },
        None => (cs.clone(), None),
    };
    proof {
        assert(p@ == split_ref(rest@).0);
        assert(opt_text(reference) == split_ref(rest@).1);
        assert(p@.skip(0) =~= p@);
    }
    let invalid = concat("invalid github source: ", rest);
    let i = match find_slash(p.as_slice(), 0) {
        None => {
            return Err(Error::Other(invalid));
        },
        Some(i) => i,
    };
    proof {
        lemma_find_seq(p@, seq!['/']);
        assert(occurs_at(p@, seq!['/'], i as int));
    }
    if i == 0 {
        return Err(Error::Other(invalid));
    }
    let owner = substring(p.as_slice(), 0, i);
    let (name, path): (String, Option<String>) = match find_slash(p.as_slice(), i + 1) {
        None => {
            if i + 1 == p.len() {
                proof {
                    assert(p@.skip(i + 1).len() == 0);
                }
                return Err(Error::Other(invalid));
            }
            (substring(p.as_slice(), i + 1, p.len()), None)
        },
        Some(j) => {
            proof {
                lemma_find_seq(p@.skip(i + 1), seq!['/']);
                assert(occurs_at(p@.skip(i + 1), seq!['/'], j - i - 1));
            }
            if j == i + 1 {
                return Err(Error::Other(invalid));
            }
            let name = substring(p.as_slice(), i + 1, j);
            if j + 1 == p.len() {
                (name, None)
            } else {
                (name, Some(substring(p.as_slice(), j + 1, p.len())))
            }
        },
    };
    let mut repo = owner;
    push_str(&mut repo, "/");
    push_str(&mut repo, name.as_str());
    proof {
        reveal_strlit("/");
        let after = p@.skip(i + 1);
        assert(owner@ == p@.take(i as int));
        assert(repo@ == owner@ + seq!['/'] + name@);
        match find_seq(after, seq!['/']) {
            Some(jj) => {
                assert(name@ =~= after.take(jj));
                assert(p@.subrange(i + 1 + jj + 1, p@.len() as int) =~= after.skip(jj + 1));
                assert(github_fields(p@) == Some((owner@, name@, opt_text(path))));
            },
            None => {
                assert(name@ =~= after);
                assert(github_fields(p@) == Some((owner@, name@, opt_text(path))));
            },
        }
    }
    Ok(Source::Github { repo, path, reference })
}

/// What a source string parses to: `github:` references, `http(s)://`
/// URLs, and anything else as a local path.
pub open spec fn source_outcome(s: Seq<char>, r: Result<Source, Error>) -> bool {
    if has_prefix(s, "github:"@) {
        github_outcome(s.skip(7), r)
    } else if has_prefix(s, "https://"@) || has_prefix(s, "http://"@) {
        r matches Ok(Source::Url { url }) && url@ == s
    } else {
        r matches Ok(Source::Local { path }) && path@ == s
    }
}

/// Parses a source string.
pub fn parse_source(s: &str) -> (r: Result<Source, Error>)
    ensures
        source_outcome(s@, r),
{
    if starts_with_str(s, "github:") {
        proof {
            reveal_strlit("github:");
        }
        let cs = chars_of(s);
        let rest = substring(cs.as_slice(), 7, cs.len());
        proof {
            assert(rest@ =~= s@.skip(7));
        }
        return parse_github(rest.as_str());
    }
    if starts_with_str(s, "https://") || starts_with_str(s, "http://") {
        return Ok(Source::Url { url: s.to_owned() });
    }
    Ok(Source::Local { path: s.to_owned() })
}

/// How a source is brought to the local disk.
#[derive(Debug)]
pub enum FetchPlan {
    /// A local path, taken where it is.
    Local { root: String },
    /// A GitHub repository, shallow-cloned with `git` into the destination.
    Clone { repo: String, url: String, args: Vec<String>, sub_path: Option<String> },
}

/// The clone URL of a GitHub repository.
pub open spec fn clone_url(repo: Seq<char>) -> Seq<char> {
    "https://github.com/"@ + repo + ".git"@
}

/// The `git` arguments of a shallow clone of `url` into `dest`, at
/// `reference` when one is given.
pub open spec fn clone_args(url: Seq<char>, reference: Option<Seq<char>>, dest: Seq<char>) -> Seq<Seq<char>> {
    seq!["clone"@, "--depth"@, "1"@] + match reference {
        Some(r) => seq!["--branch"@, r],
        None => Seq::empty(),
    } + seq![url, dest]
}

/// Decides how to fetch a source: a local path is made absolute against
/// the working directory; a GitHub source is cloned into `dest`; a URL is
/// refused.
pub fn fetch_plan(source: &Source, cwd: &str, dest: &str) -> (r: Result<FetchPlan, Error>)
    ensures
        match *source {
            Source::Local { path } => r matches Ok(FetchPlan::Local { root }) && root@ == joined(
                cwd@,
                path@,
            ),
            Source::Github { repo, path, reference } => r matches Ok(
                FetchPlan::Clone { repo: rr, url, args, sub_path },
            ) && rr == repo && url@ == clone_url(repo@) && views(args@) == clone_args(
                clone_url(repo@),
                opt_text(reference),
                dest@,
            ) && sub_path == path,
            Source::Url { .. } => r matches Err(Error::Source(m)) && m@
                == "URL source not yet implemented (requires `source-http` feature)"@,
        },
{
    match source {
        Source::Local { path } => Ok(FetchPlan::Local { root: path_join(cwd, path.as_str()) }),
        Source::Github { repo, path, reference } => {
            let mut url = concat("https://github.com/", repo.as_str());
            push_str(&mut url, ".git");
            let mut args: Vec<String> = Vec::new();
            args.push("clone".to_owned());
            args.push("--depth".to_owned());
            args.push("1".to_owned());
            if let Some(r) = reference {
                args.push("--branch".to_owned());
                args.push(r.clone());
            }
            args.push(url.clone());
            args.push(dest.to_owned());
            proof {
                assert(views(args@) =~= clone_args(url@, opt_text(*reference), dest@));
            }
            Ok(
                FetchPlan::Clone {
                    repo: repo.clone(),
                    url,
                    args,
                    sub_path: clone_opt(path),
                },
            )
        },
        Source::Url { .. } => Err(
            Error::Source("URL source not yet implemented (requires `source-http` feature)".to_owned()),
        ),
    }
}

/// A local source once its path has been looked at: refused when nothing
/// is there.
pub fn local_fetched(root: String, exists: bool) -> (r: Result<Fetched, Error>)
    ensures
        !exists ==> (r matches Err(Error::Source(m)) && m@ == "local source not found: "@ + root@),
        exists ==> (r matches Ok(f) && f.root == root && f.commit is None && f.source_kind@
            == "local"@ && f.repo is None),
{
    if !exists {
        return Err(Error::Source(concat("local source not found: ", root.as_str())));
    }
    Ok(Fetched { root, commit: None, source_kind: "local".to_owned(), repo: None })
}

/// The error of a failed clone, with what `git` wrote to its error stream.
pub fn clone_failure(url: &str, stderr: &str) -> (e: Error)
    ensures
        e matches Error::Source(m) && m@ == "git clone "@ + url@ + " failed: "@ + trim_seq(stderr@),
{
    let mut m = concat("git clone ", url);
    push_str(&mut m, " failed: ");
    push_str(&mut m, trim(stderr).as_str());
    Error::Source(m)
}

/// The commit a clone resolved to: what `git rev-parse HEAD` printed,
/// trimmed, when it succeeded.
pub fn resolved_commit(success: bool, stdout: &str) -> (r: Option<String>)
    ensures
        success ==> (r matches Some(c) && c@ == trim_seq(stdout@)),
        !success ==> r is None,
{
    if success {
        Some(trim(stdout))
    } else {
        None
    }
}

/// The two places a sub-path of a fetched tree may name: the path itself,
/// and the same name under `skills/`.
pub fn sub_path_candidates(root: &str, sub: &str) -> (r: (String, String))
    ensures
        r.0@ == joined(root@, sub@),
        r.1@ == joined(joined(root@, "skills"@), sub@),
{
    let direct = path_join(root, sub);
    let skills = path_join(root, "skills");
    (direct, path_join(skills.as_str(), sub))
}

/// The root of a cloned repository: the clone itself, or the sub-path
/// (falling back to `skills/<sub-path>`) when the source names one.
pub fn clone_root(temp: &str, sub: Option<&str>, direct_exists: bool, fallback_exists: bool) -> (r: Result<String, Error>)
    ensures
        match sub {
            None => r matches Ok(root) && root@ == temp@,
            Some(p) => if direct_exists {
                r matches Ok(root) && root@ == joined(temp@, p@)
            } else if fallback_exists {
                r matches Ok(root) && root@ == joined(joined(temp@, "skills"@), p@)
            } else {
                r matches Err(Error::Source(m)) && m@ == "path not found in repo: `"@ + p@
                    + "` (also tried `skills/"@ + p@ + "`)"@
            },
        },
{
    match sub {
        None => Ok(temp.to_owned()),
        Some(p) => {
            let (direct, fallback) = sub_path_candidates(temp, p);
            if direct_exists {
                Ok(direct)
            } else if fallback_exists {
                Ok(fallback)
            } else {
                let mut m = concat("path not found in repo: `", p);
                push_str(&mut m, "` (also tried `skills/");
                push_str(&mut m, p);
                push_str(&mut m, "`)");
                Err(Error::Source(m))
            }
        },
    }
}

/// A cloned GitHub source.
pub fn github_fetched(root: String, commit: Option<String>, repo: &str) -> (f: Fetched)
    ensures
        f.root == root,
        f.commit == commit,
        f.source_kind@ == "github"@,
        f.repo matches Some(rr) && rr@ == repo@,
{
    Fetched { root, commit, source_kind: "github".to_owned(), repo: Some(repo.to_owned()) }
}

/// Where a sub-path names a skill in a fetched tree: the directory to
/// install from, given which candidate directories hold a `SKILL.md`.
/// Without a sub-path the root itself must hold one; with one, the path
/// itself is tried before `skills/<sub-path>`.
pub fn resolve_skill_path(root: &str, sub_path: Option<&str>, direct_has_md: bool, skills_has_md: bool) -> (r: Result<String, Error>)
    ensures
        match sub_path {
            None => if direct_has_md {
                r matches Ok(d) && d@ == root@
            } else {
                r matches Err(Error::Source(m)) && m@ == "no SKILL.md at root"@
            },
            Some(p) => if direct_has_md {
                r matches Ok(d) && d@ == joined(root@, p@)
            } else if skills_has_md {
                r matches Ok(d) && d@ == joined(joined(root@, "skills"@), p@)
            } else {
                r matches Err(Error::Source(m)) && m@ == "no SKILL.md at `"@ + p@ + "` or `skills/"@
                    + p@ + "` in fetched repo"@
            },
        },
{
    match sub_path {
        None => if direct_has_md {
            Ok(root.to_owned())
        } else {
            Err(Error::Source("no SKILL.md at root".to_owned()))
        },
        Some(p) => {
            let (direct, fallback) = sub_path_candidates(root, p);
            if direct_has_md {
                Ok(direct)
            } else if skills_has_md {
                Ok(fallback)
            } else {
                let mut m = concat("no SKILL.md at `", p);
                push_str(&mut m, "` or `skills/");
                push_str(&mut m, p);
                push_str(&mut m, "` in fetched repo");
                Err(Error::Source(m))
            }
        },
    }
}

/// A skill found in a fetched tree.
#[derive(Debug)]
pub struct DiscoveredSkill {
    /// Its directory relative to the tree's root, such as `skills/release-flow`.
    pub rel_path: String,
    /// Its `SKILL.md`.
    pub skill_md: String,
}

/// The names of `dirs` (each a directory name and whether it holds a
/// `SKILL.md`), in key order.
pub open spec fn dir_names(dirs: Seq<(String, bool)>) -> Seq<Seq<char>> {
    Seq::new(dirs.len(), |i: int| dirs[i].0@)
}

/// The installable skills of a fetched tree: the root's own `SKILL.md`
/// first, then each directory of `skills/` that holds one, by name.
/// `subdirs` are the directories of `skills/`, each with whether it holds a
/// `SKILL.md`.
pub fn discover_skills(root: &str, root_has_md: bool, subdirs: &Vec<(String, bool)>) -> (r: Vec<DiscoveredSkill>)
    ensures
        exists|ord: Seq<usize>|
            #![trigger is_sorted_order(dir_names(subdirs@), ord)]
            is_sorted_order(dir_names(subdirs@), ord) && {
                let kept = Seq::new(ord.len(), |k: int| subdirs@[ord[k] as int]).filter(
                    |d: (String, bool)| d.1,
                );
                let base: int = if root_has_md {
                    1
                } else {
                    0
                };
                &&& r@.len() == base + kept.len()
                &&& root_has_md ==> r@[0].rel_path@.len() == 0 && r@[0].skill_md@ == joined(
                    root@,
                    "SKILL.md"@,
                )
                &&& forall|k: int|
                    0 <= k < kept.len() ==> (#[trigger] r@[base + k]).rel_path@ == joined(
                        "skills"@,
                        kept[k].0@,
                    ) && r@[base + k].skill_md@ == joined(
                        joined(joined(root@, "skills"@), kept[k].0@),
                        "SKILL.md"@,
                    )
            },
{
    let mut out: Vec<DiscoveredSkill> = Vec::new();
    if root_has_md {
        out.push(DiscoveredSkill { rel_path: String::new(), skill_md: path_join(root, "SKILL.md") });
    }
    let ghost base: int = if root_has_md {
        1
    } else {
        0
    };
    let mut names: Vec<String> = Vec::new();
    let mut i: usize = 0;
    while i < subdirs.len()
        invariant
            0 <= i <= subdirs@.len(),
            names@.len() == i,
            forall|k: int| 0 <= k < i ==> (#[trigger] names@[k])@ == subdirs@[k].0@,
        decreases subdirs@.len() - i,
    {
        names.push(subdirs[i].0.clone());
        i = i + 1;
    }
    proof {
        assert(views(names@) =~= dir_names(subdirs@));
    }
    let ord = sorted_order(&names);
    let ghost sorted = Seq::new(ord@.len(), |k: int| subdirs@[ord@[k] as int]);
    let skills_dir = path_join(root, "skills");
    let mut k: usize = 0;
    proof {
        assert(sorted.take(0).filter(|d: (String, bool)| d.1) =~= Seq::<(String, bool)>::empty());
    }
    while k < ord.len()
        invariant
            0 <= k <= ord@.len(),
            is_sorted_order(dir_names(subdirs@), ord@),
            sorted == Seq::new(ord@.len(), |j: int| subdirs@[ord@[j] as int]),
            skills_dir@ == joined(root@, "skills"@),
            base == (if root_has_md {
                1int
            } else {
                0
            }),
            out@.len() == base + sorted.take(k as int).filter(|d: (String, bool)| d.1).len(),
            root_has_md ==> out@[0].rel_path@.len() == 0 && out@[0].skill_md@ == joined(
                root@,
                "SKILL.md"@,
            ),
            forall|j: int|
                0 <= j < sorted.take(k as int).filter(|d: (String, bool)| d.1).len() ==> (
                #[trigger] out@[base + j]).rel_path@ == joined(
                    "skills"@,
                    sorted.take(k as int).filter(|d: (String, bool)| d.1)[j].0@,
                ) && out@[base + j].skill_md@ == joined(
                    joined(skills_dir@, sorted.take(k as int).filter(|d: (String, bool)| d.1)[j].0@),
                    "SKILL.md"@,
                ),
        decreases ord@.len() - k,
    {
        let d = &subdirs[ord[k]];
        proof {
            assert(sorted.take(k + 1) =~= sorted.take(k as int).push(sorted[k as int]));
            assert(sorted[k as int] == *d);
            assert(sorted.take(k as int).push(*d).filter(|d: (String, bool)| d.1)
                == if d.1 {
                    sorted.take(k as int).filter(|d: (String, bool)| d.1).push(*d)
                } else {
                    sorted.take(k as int).filter(|d: (String, bool)| d.1)
                }) by {
                reveal(Seq::filter);
                assert(sorted.take(k as int).push(*d).drop_last() =~= sorted.take(k as int));
            }
        }
        if d.1 {
            let dir = path_join(skills_dir.as_str(), d.0.as_str());
            out.push(
                DiscoveredSkill {
                    rel_path: path_join("skills", d.0.as_str()),
                    skill_md: path_join(dir.as_str(), "SKILL.md"),
                },
            );
        }
        k = k + 1;
    }
    proof {
        assert(sorted.take(k as int) =~= sorted);
    }
    out
}

/// The stem of a file name whose extension is `toml`, as `Path::extension`
/// and `Path::file_stem` split it: at the last `.`, which must not be the
/// first character.
pub open spec fn toml_stem_of(name: Seq<char>) -> Option<Seq<char>> {
    match rfind_char(name, '.') {
        Some(k) => if k > 0 && name.skip(k + 1) == "toml"@ {
            Some(name.take(k))
        } else {
            None
        },
        None => None,
    }
}

/// The stem of a `.toml` file name.
pub fn toml_stem(name: &str) -> (r: Option<String>)
    ensures
        match toml_stem_of(name@) {
            Some(s) => r matches Some(t) && t@ == s,
            None => r is None,
        },
{
    let cs = chars_of(name);
    proof {
        crate::text::lemma_rfind_char(name@, '.');
    }
    let n = cs.len();
    let at = rfind_in(cs.as_slice(), '.');
    match at {
        Some(k) => {
            proof {
                assert(cs@ == name@);
                assert(rfind_char(name@, '.') == Some(k as int));
                assert(k < n);
            }
            if k == 0 {
                return None;
            }
            let ext = substring(cs.as_slice(), k + 1, n);
            proof {
                assert(ext@ =~= name@.skip(k + 1));
            }
            if crate::text::str_eq(ext.as_str(), "toml") {
                Some(substring(cs.as_slice(), 0, k))
            } else {
                None
            }
        },
        None => None,
    }
}

/// Where `restore` fetches the skill `id`, installed from `e`, again: its
/// local path, or its GitHub repository at the recorded commit; any other
/// source is refused.
pub open spec fn restore_source_outcome(id: Seq<char>, e: GlobalEntry, r: Result<Source, Error>) -> bool {
    if e.source@ == "local"@ && e.local_path is Some {
        r matches Ok(Source::Local { path }) && path == e.local_path->0
    } else if e.source@ == "github"@ && e.repo is Some {
        r matches Ok(Source::Github { repo, path, reference }) && repo == e.repo->0 && path is None
            && reference == e.commit
    } else {
        r matches Err(Error::Other(m)) && m@ == "cannot restore "@ + id + ": unknown source `"@
            + e.source@ + "`"@
    }
}

/// Where a skill installed from `e` is fetched again by `restore`.
pub fn restore_source(id: &str, e: &GlobalEntry) -> (r: Result<Source, Error>)
    ensures
        restore_source_outcome(id@, *e, r),
{
    match update_source(e) {
        Some(Source::Github { repo, path, .. }) => Ok(
            Source::Github { repo, path, reference: clone_opt(&e.commit) },
        ),
        Some(s) => Ok(s),
        None => {
            let mut m = concat("cannot restore ", id);
            push_str(&mut m, ": unknown source `");
            push_str(&mut m, e.source.as_str());
            push_str(&mut m, "`");
            Err(Error::Other(m))
        },
    }
}

/// Where `update` fetches a skill installed from `e` again: its local
/// path, or the head of its GitHub repository; nowhere for other sources.
pub fn update_source(e: &GlobalEntry) -> (r: Option<Source>)
    ensures
        (e.source@ == "local"@ && e.local_path is Some) ==> (r matches Some(Source::Local { path })
            && path == e.local_path->0),
        !(e.source@ == "local"@ && e.local_path is Some) && e.source@ == "github"@ && e.repo is Some
            ==> (r matches Some(Source::Github { repo, path, reference }) && repo == e.repo->0
            && path is None && reference is None),
        !(e.source@ == "local"@ && e.local_path is Some) && !(e.source@ == "github"@
            && e.repo is Some) ==> r is None,
{
    let is_local = crate::text::str_eq(e.source.as_str(), "local");
    if is_local {
        if let Some(p) = &e.local_path {
            return Some(Source::Local { path: p.clone() });
        }
    }
    if crate::text::str_eq(e.source.as_str(), "github") {
        if let Some(repo) = &e.repo {
            return Some(Source::Github { repo: repo.clone(), path: None, reference: None });
        }
    }
    None
}

/// The file names of `names` with the extension `toml`, in order.
pub open spec fn toml_files(names: Seq<Seq<char>>) -> Seq<Seq<char>>
    decreases names.len(),
{
    if names.len() == 0 {
        Seq::empty()
    } else if toml_stem_of(names.last()) is Some {
        toml_files(names.drop_last()).push(names.last())
    } else {
        toml_files(names.drop_last())
    }
}

/// The profiles of a fetched tree: each `.toml` file of its `profiles/`
/// directory (`dir`, whose file names are `names`), by name.
pub fn discover_profiles(dir: &str, names: &Vec<String>) -> (r: Vec<DiscoveredSkill>)
    ensures
        exists|ord: Seq<usize>|
            #![trigger is_sorted_order(toml_files(views(names@)), ord)]
            is_sorted_order(toml_files(views(names@)), ord) && r@.len() == ord.len() && forall|k: int|
                0 <= k < ord.len() ==> (#[trigger] r@[k]).rel_path@ == joined(
                    "profiles"@,
                    toml_files(views(names@))[ord[k] as int],
                ) && r@[k].skill_md@ == joined(dir@, toml_files(views(names@))[ord[k] as int]),
{
    let mut files: Vec<String> = Vec::new();
    let mut i: usize = 0;
    while i < names.len()
        invariant
            0 <= i <= names@.len(),
            views(files@) == toml_files(views(names@).take(i as int)),
        decreases names@.len() - i,
    {
        proof {
            assert(views(names@).take(i + 1).drop_last() =~= views(names@).take(i as int));
            assert(views(names@).take(i + 1).last() == names@[i as int]@);
        }
        let ghost before = files@;
        if toml_stem(names[i].as_str()).is_some() {
            files.push(names[i].clone());
            proof {
                assert(views(files@) =~= views(before).push(names@[i as int]@));
            }
        }
        i = i + 1;
    }
    proof {
        assert(views(names@).take(i as int) =~= views(names@));
    }
    let ord = sorted_order(&files);
    let mut r: Vec<DiscoveredSkill> = Vec::new();
    let mut k: usize = 0;
    while k < ord.len()
        invariant
            0 <= k <= ord@.len(),
            is_sorted_order(views(files@), ord@),
            views(files@) == toml_files(views(names@)),
            r@.len() == k,
            forall|j: int|
                0 <= j < k ==> (#[trigger] r@[j]).rel_path@ == joined(
                    "profiles"@,
                    views(files@)[ord@[j] as int],
                ) && r@[j].skill_md@ == joined(dir@, views(files@)[ord@[j] as int]),
        decreases ord@.len() - k,
    {
        let f = files[ord[k]].as_str();
        r.push(DiscoveredSkill { rel_path: path_join("profiles", f), skill_md: path_join(dir, f) });
        k = k + 1;
    }
    r
}

} // verus!
