//! Stack detection: weak hints about a project's technologies, read from
//! its top-level files. Hints only ever suggest; they never enable skills.

use vstd::prelude::*;
use crate::strmap::{lemma_lt_transitive, seq_lt};

verus! {

/// The stacks a project shows traces of.
#[derive(Debug)]
pub struct StackHint {
    pub rust: bool,
    pub tauri: bool,
    pub nodejs: bool,
    pub typescript: bool,
    pub python: bool,
    pub go: bool,
    pub docker: bool,
    pub github_actions: bool,
    pub android: bool,
    pub ios: bool,
}

/// The names of the stacks that `h` shows, in alphabetical order.
pub open spec fn tags_of(h: StackHint) -> Seq<Seq<char>> {
    (if h.android { seq!["android"@] } else { Seq::empty() })
    + (if h.docker { seq!["docker"@] } else { Seq::empty() })
    + (if h.github_actions { seq!["github-actions"@] } else { Seq::empty() })
    + (if h.go { seq!["go"@] } else { Seq::empty() })
    + (if h.ios { seq!["ios"@] } else { Seq::empty() })
    + (if h.nodejs { seq!["nodejs"@] } else { Seq::empty() })
    + (if h.python { seq!["python"@] } else { Seq::empty() })
    + (if h.rust { seq!["rust"@] } else { Seq::empty() })
    + (if h.tauri { seq!["tauri"@] } else { Seq::empty() })
    + (if h.typescript { seq!["typescript"@] } else { Seq::empty() })
}

/// The text views of a list of string slices.
pub open spec fn str_views(v: Seq<&'static str>) -> Seq<Seq<char>> {
    Seq::new(v.len(), |i: int| v[i]@)
}

/// Appends `t` when `on`.
fn push_if(out: &mut Vec<&'static str>, on: bool, t: &'static str)
    ensures
        str_views(final(out)@) == str_views(old(out)@) + (if on {
            seq![t@]
        } else {
            Seq::empty()
        }),
{
    let ghost before = out@;
    if on {
        out.push(t);
        proof {
            assert(str_views(out@) =~= str_views(before) + seq![t@]);
        }
    } else {
        proof {
            assert(str_views(out@) =~= str_views(before) + Seq::<Seq<char>>::empty());
        }
    }
}

impl StackHint {
    /// The names of the detected stacks, in alphabetical order.
    pub fn tags(&self) -> (out: Vec<&'static str>)
        ensures
            str_views(out@) == tags_of(*self),
    {
        let mut out: Vec<&'static str> = Vec::new();
        proof {
            assert(str_views(out@) =~= Seq::<Seq<char>>::empty());
        }
        push_if(&mut out, self.android, "android");
        push_if(&mut out, self.docker, "docker");
        push_if(&mut out, self.github_actions, "github-actions");
        push_if(&mut out, self.go, "go");
        push_if(&mut out, self.ios, "ios");
        push_if(&mut out, self.nodejs, "nodejs");
        push_if(&mut out, self.python, "python");
        push_if(&mut out, self.rust, "rust");
        push_if(&mut out, self.tauri, "tauri");
        push_if(&mut out, self.typescript, "typescript");
        proof {
            let h = *self;
            assert(tags_of(h) =~= Seq::<Seq<char>>::empty()
                + (if h.android { seq!["android"@] } else { Seq::empty() })
                + (if h.docker { seq!["docker"@] } else { Seq::empty() })
                + (if h.github_actions { seq!["github-actions"@] } else { Seq::empty() })
                + (if h.go { seq!["go"@] } else { Seq::empty() })
                + (if h.ios { seq!["ios"@] } else { Seq::empty() })
                + (if h.nodejs { seq!["nodejs"@] } else { Seq::empty() })
                + (if h.python { seq!["python"@] } else { Seq::empty() })
                + (if h.rust { seq!["rust"@] } else { Seq::empty() })
                + (if h.tauri { seq!["tauri"@] } else { Seq::empty() })
                + (if h.typescript { seq!["typescript"@] } else { Seq::empty() }));
        }
        out
    }
}

/// The top-level entries whose presence detection looks at, in the order
/// that `hint_from_probe` reads the answers.
pub open spec fn probe_paths() -> Seq<Seq<char>> {
    seq![
        "Cargo.toml"@, "src-tauri"@, "tauri.conf.json"@, "package.json"@, "tsconfig.json"@,
        "pyproject.toml"@, "requirements.txt"@, "setup.py"@, "go.mod"@, "Dockerfile"@,
        "docker-compose.yml"@, "compose.yaml"@, ".github/workflows"@, "android"@,
        "build.gradle"@, "build.gradle.kts"@, "ios"@, "Package.swift"@, "Podfile"@,
    ]
}

/// The entries to probe, relative to the project root.
pub fn probes() -> (r: Vec<&'static str>)
    ensures
        str_views(r@) == probe_paths(),
{
    let r = vec![
        "Cargo.toml", "src-tauri", "tauri.conf.json", "package.json", "tsconfig.json",
        "pyproject.toml", "requirements.txt", "setup.py", "go.mod", "Dockerfile",
        "docker-compose.yml", "compose.yaml", ".github/workflows", "android",
        "build.gradle", "build.gradle.kts", "ios", "Package.swift", "Podfile",
    ];
    proof {
        assert(str_views(r@) =~= probe_paths());
    }
    r
}

/// The stacks shown by the probed entries: `exists[i]` tells whether the
/// `i`-th entry of `probes` exists, `is_dir[i]` whether it is a directory.
/// TypeScript counts only in a Node.js project; some stacks are shown by a
/// directory, which a plain file of that name does not stand for.
pub fn hint_from_probe(exists: &Vec<bool>, is_dir: &Vec<bool>) -> (h: StackHint)
    requires
        exists@.len() == probe_paths().len(),
        is_dir@.len() == probe_paths().len(),
    ensures
        h.rust == exists@[0],
        h.tauri == (is_dir@[1] || exists@[2]),
        h.nodejs == exists@[3],
        h.typescript == (exists@[3] && exists@[4]),
        h.python == (exists@[5] || exists@[6] || exists@[7]),
        h.go == exists@[8],
        h.docker == (exists@[9] || exists@[10] || exists@[11]),
        h.github_actions == is_dir@[12],
        h.android == (is_dir@[13] || exists@[14] || exists@[15]),
        h.ios == (is_dir@[16] || exists@[17] || exists@[18]),
{
    let nodejs = exists[3];
    StackHint {
        rust: exists[0],
        tauri: is_dir[1] || exists[2],
        nodejs,
        typescript: nodejs && exists[4],
        python: exists[5] || exists[6] || exists[7],
        go: exists[8],
        docker: exists[9] || exists[10] || exists[11],
        github_actions: is_dir[12],
        android: is_dir[13] || exists[14] || exists[15],
        ios: is_dir[16] || exists[17] || exists[18],
    }
}

/// Each name comes strictly before every later one.
pub open spec fn strictly_sorted(s: Seq<Seq<char>>) -> bool {
    forall|i: int, j: int| 0 <= i < j < s.len() ==> seq_lt(#[trigger] s[i], #[trigger] s[j])
}

/// The name `x` when `on`, else nothing.
pub open spec fn opt_name(on: bool, x: Seq<char>) -> Seq<Seq<char>> {
    if on {
        seq![x]
    } else {
        Seq::empty()
    }
}

/// Appending a name that follows every name so far keeps the order
/// strict, and everything then precedes any name after it.
proof fn lemma_tag_step(a: Seq<Seq<char>>, x: Seq<char>, y: Seq<char>, on: bool)
    requires
        strictly_sorted(a),
        forall|i: int| 0 <= i < a.len() ==> seq_lt(#[trigger] a[i], x),
        seq_lt(x, y),
    ensures
        strictly_sorted(a + opt_name(on, x)),
        forall|i: int|
            0 <= i < (a + opt_name(on, x)).len() ==> seq_lt(#[trigger] (a + opt_name(on, x))[i], y),
{
    let b = a + opt_name(on, x);
    assert forall|i: int| 0 <= i < b.len() implies seq_lt(#[trigger] b[i], y) by {
        if i < a.len() {
            assert(b[i] == a[i]);
            lemma_lt_transitive(a[i], x, y);
        } else {
            assert(b[i] == x);
        }
    }
    assert forall|i: int, j: int| 0 <= i < j < b.len() implies seq_lt(#[trigger] b[i], #[trigger] b[j]) by {
        if j < a.len() {
            assert(b[i] == a[i] && b[j] == a[j]);
        } else {
            assert(b[i] == a[i] && b[j] == x);
        }
    }
}

/// A name whose first character is smaller comes first.
proof fn lemma_first_char_lt(a: Seq<char>, b: Seq<char>)
    requires
        a.len() > 0,
        b.len() > 0,
        (a[0] as u32) < (b[0] as u32),
    ensures
        seq_lt(a, b),
{
}

/// The stack names come out in alphabetical order, each at most once.
pub proof fn law_tags_alphabetical(h: StackHint)
    ensures
        strictly_sorted(tags_of(h)),
{
    reveal_strlit("android");
    reveal_strlit("docker");
    reveal_strlit("github-actions");
    reveal_strlit("go");
    reveal_strlit("ios");
    reveal_strlit("nodejs");
    reveal_strlit("python");
    reveal_strlit("rust");
    reveal_strlit("tauri");
    reveal_strlit("typescript");
    reveal_strlit("z");
    lemma_first_char_lt("android"@, "docker"@);
    lemma_first_char_lt("docker"@, "github-actions"@);
    assert(seq_lt("github-actions"@, "go"@)) by {
        lemma_first_char_lt("github-actions"@.drop_first(), "go"@.drop_first());
    }
    lemma_first_char_lt("go"@, "ios"@);
    lemma_first_char_lt("ios"@, "nodejs"@);
    lemma_first_char_lt("nodejs"@, "python"@);
    lemma_first_char_lt("python"@, "rust"@);
    lemma_first_char_lt("rust"@, "tauri"@);
    assert(seq_lt("tauri"@, "typescript"@)) by {
        lemma_first_char_lt("tauri"@.drop_first(), "typescript"@.drop_first());
    }
    lemma_first_char_lt("typescript"@, "z"@);
    let t0 = Seq::<Seq<char>>::empty();
    lemma_tag_step(t0, "android"@, "docker"@, h.android);
    let t1 = t0 + opt_name(h.android, "android"@);
    lemma_tag_step(t1, "docker"@, "github-actions"@, h.docker);
    let t2 = t1 + opt_name(h.docker, "docker"@);
    lemma_tag_step(t2, "github-actions"@, "go"@, h.github_actions);
    let t3 = t2 + opt_name(h.github_actions, "github-actions"@);
    lemma_tag_step(t3, "go"@, "ios"@, h.go);
    let t4 = t3 + opt_name(h.go, "go"@);
    lemma_tag_step(t4, "ios"@, "nodejs"@, h.ios);
    let t5 = t4 + opt_name(h.ios, "ios"@);
    lemma_tag_step(t5, "nodejs"@, "python"@, h.nodejs);
    let t6 = t5 + opt_name(h.nodejs, "nodejs"@);
    lemma_tag_step(t6, "python"@, "rust"@, h.python);
    let t7 = t6 + opt_name(h.python, "python"@);
    lemma_tag_step(t7, "rust"@, "tauri"@, h.rust);
    let t8 = t7 + opt_name(h.rust, "rust"@);
    lemma_tag_step(t8, "tauri"@, "typescript"@, h.tauri);
    let t9 = t8 + opt_name(h.tauri, "tauri"@);
    lemma_tag_step(t9, "typescript"@, "z"@, h.typescript);
    let t10 = t9 + opt_name(h.typescript, "typescript"@);
    assert(tags_of(h) =~= t10);
}

} // verus!
