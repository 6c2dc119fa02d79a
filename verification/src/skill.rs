//! `SKILL.md` documents: their frontmatter, the lenient repair of loosely
//! written YAML, summaries and diagnostics.

use vstd::prelude::*;
use crate::error::Error;
use crate::id::Namespace;
use crate::text::{
    chars_of, concat, find_in, find_seq, is_whitespace, is_ws, lemma_find_seq, occurs_at,
    push_char, push_str, split_by, split_seq, string_from, substring, trim, trim_seq,
    trim_start_seq, utf8_len, views, Sep,
};

verus! {

/// A parsed `SKILL.md`.
#[derive(Debug)]
pub struct SkillDoc {
    pub frontmatter: Frontmatter,
    pub body: String,
}

/// The top-level frontmatter. `name` and `description` are required;
/// `version` defaults to `0.0.0`.
#[derive(Debug)]
pub struct Frontmatter {
    pub name: String,
    pub version: String,
    pub description: String,
    pub metadata: Metadata,
    pub license: Option<String>,
    pub compatibility: Option<String>,
}

/// The optional `metadata.*` fields.
#[derive(Debug)]
pub struct Metadata {
    pub namespace: Option<Namespace>,
    pub summary: Option<String>,
    pub triggers: Vec<String>,
    pub languages: Vec<String>,
    pub tags: Vec<String>,
    pub author: Option<String>,
    pub homepage: Option<String>,
    pub requires: Requires,
}

/// External requirements a skill declares.
#[derive(Debug)]
pub struct Requires {
    pub binaries: Vec<BinaryReq>,
    pub env: Vec<String>,
    pub runtimes: Vec<String>,
}

/// A binary that must be on `PATH`, with an optional version requirement.
#[derive(Debug)]
pub struct BinaryReq {
    pub name: String,
    pub version: Option<String>,
}

/// A finding of the lenient validation.
#[derive(Debug)]
pub struct Diagnostic {
    pub severity: Severity,
    pub message: String,
}

/// How serious a diagnostic is.
#[derive(Clone, Copy, Debug, PartialEq, Eq, Structural)]
pub enum Severity {
    Warning,
    Error,
}

/// The version a skill gets when its frontmatter has none.
pub fn default_version() -> (r: String)
    ensures
        r@ == "0.0.0"@,
{
    "0.0.0".to_owned()
}

/// The languages a skill is for when its frontmatter names none: `["*"]`,
/// any language.
pub fn default_languages() -> (r: Vec<String>)
    ensures
        r@.len() == 1,
        r@[0]@ == "*"@,
{
    let mut v: Vec<String> = Vec::new();
    v.push("*".to_owned());
    v
}

/// A character of the CJK unified ideographs, CJK punctuation and kana, or
/// Hangul syllables.
pub open spec fn cjk(c: char) -> bool {
    let u = c as u32;
    (0x4E00 <= u <= 0x9FFF) || (0x3000 <= u <= 0x30FF) || (0xAC00 <= u <= 0xD7AF)
}

/// Executable `cjk`.
pub fn is_cjk(c: char) -> (b: bool)
    ensures
        b == cjk(c),
{
    let u = c as u32;
    (0x4E00 <= u && u <= 0x9FFF) || (0x3000 <= u && u <= 0x30FF) || (0xAC00 <= u && u <= 0xD7AF)
}

/// The summary that a catalog shows for a skill: its trimmed
/// `metadata.summary` when that is non-blank, else its trimmed description,
/// cut to 80 characters when it holds CJK text and to 160 otherwise, the
/// last kept character replaced by `…` when it had to be cut.
pub open spec fn summary_of(summary: Option<Seq<char>>, description: Seq<char>) -> Seq<char> {
    if summary is Some && trim_seq(summary->0).len() > 0 {
        trim_seq(summary->0)
    } else {
        let d = trim_seq(description);
        let limit: int = if exists|i: int| 0 <= i < d.len() && cjk(#[trigger] d[i]) {
            80
        } else {
            160
        };
        if d.len() <= limit {
            d
        } else {
            d.take(limit - 1).push('…')
        }
    }
}

/// The optional summary's text.
pub open spec fn opt_view(o: Option<String>) -> Option<Seq<char>> {
    match o {
        Some(s) => Some(s@),
        None => None,
    }
}

/// Derives the catalog summary of a skill.
pub fn derive_summary(fm: &Frontmatter) -> (r: String)
    ensures
        r@ == summary_of(opt_view(fm.metadata.summary), fm.description@),
{
    if let Some(s) = &fm.metadata.summary {
        let t = trim(s.as_str());
        if chars_of(t.as_str()).len() > 0 {
            return t;
        }
    }
    let d = trim(fm.description.as_str());
    let cs = chars_of(d.as_str());
    let mut any_cjk = false;
    let mut i: usize = 0;
    while i < cs.len()
        invariant
            0 <= i <= cs@.len(),
            any_cjk == exists|k: int| 0 <= k < i && cjk(#[trigger] cs@[k]),
        decreases cs@.len() - i,
    {
        if is_cjk(cs[i]) {
            any_cjk = true;
        }
        i = i + 1;
    }
    let limit: usize = if any_cjk {
        80
    } else {
        160
    };
    if cs.len() <= limit {
        return d;
    }
    let mut out = substring(cs.as_slice(), 0, limit - 1);
    push_char(&mut out, '…');
    out
}

/// Completes the reading of a `SKILL.md` once its frontmatter has been
/// deserialised: a document without frontmatter, or with a blank `name` or
/// `description`, is refused; a blank `version` becomes `0.0.0`.
pub fn finish_parse(data: Option<Frontmatter>, body: String) -> (r: Result<SkillDoc, Error>)
    ensures
        data is None ==> (r matches Err(Error::InvalidSkill(m)) && m@ == "missing frontmatter"@),
        data matches Some(fm) ==> {
            if trim_seq(fm.name@).len() == 0 {
                r matches Err(Error::InvalidSkill(m)) && m@ == "frontmatter `name` is empty"@
            } else if trim_seq(fm.description@).len() == 0 {
                r matches Err(Error::InvalidSkill(m)) && m@
                    == "frontmatter `description` is empty"@
            } else {
                r matches Ok(doc) && doc.body@ == body@ && doc.frontmatter.name@ == fm.name@
                    && doc.frontmatter.description@ == fm.description@
                    && doc.frontmatter.metadata == fm.metadata && doc.frontmatter.license
                    == fm.license && doc.frontmatter.compatibility == fm.compatibility
                    && doc.frontmatter.version@ == (if trim_seq(fm.version@).len() == 0 {
                    "0.0.0"@
                } else {
                    fm.version@
                })
            }
        },
{
    let mut fm = match data {
        None => {
            return Err(Error::InvalidSkill("missing frontmatter".to_owned()));
        },
        Some(fm) => fm,
    };
    if chars_of(trim(fm.name.as_str()).as_str()).len() == 0 {
        return Err(Error::InvalidSkill("frontmatter `name` is empty".to_owned()));
    }
    if chars_of(trim(fm.version.as_str()).as_str()).len() == 0 {
        fm.version = default_version();
    }
    if chars_of(trim(fm.description.as_str()).as_str()).len() == 0 {
        return Err(Error::InvalidSkill("frontmatter `description` is empty".to_owned()));
    }
    Ok(SkillDoc { frontmatter: fm, body })
}

/// The lenient checks of a document: a warning for a name longer than 64
/// characters, and one for a blank body. Cosmetic problems only warn.
pub fn validate(doc: &SkillDoc) -> (diags: Vec<Diagnostic>)
    ensures
        diags@.len() == (if doc.frontmatter.name@.len() > 64 {
            1int
        } else {
            0
        }) + (if trim_seq(doc.body@).len() == 0 {
            1int
        } else {
            0
        }),
        forall|i: int| 0 <= i < diags@.len() ==> (#[trigger] diags@[i]).severity == Severity::Warning,
        doc.frontmatter.name@.len() > 64 ==> diags@[0].message@
            == "name exceeds 64 chars: "@ + doc.frontmatter.name@,
        trim_seq(doc.body@).len() == 0 ==> diags@.last().message@ == "SKILL.md body is empty"@,
{
    let mut diags: Vec<Diagnostic> = Vec::new();
    if chars_of(doc.frontmatter.name.as_str()).len() > 64 {
        diags.push(
            Diagnostic {
                severity: Severity::Warning,
                message: concat("name exceeds 64 chars: ", doc.frontmatter.name.as_str()),
            },
        );
    }
    if chars_of(trim(doc.body.as_str()).as_str()).len() == 0 {
        diags.push(
            Diagnostic {
                severity: Severity::Warning,
                message: "SKILL.md body is empty".to_owned(),
            },
        );
    }
    diags
}


/// No diagnostic is an error: the document passes validation.
pub fn no_errors(diags: &Vec<Diagnostic>) -> (b: bool)
    ensures
        b == forall|k: int| 0 <= k < diags@.len() ==> (#[trigger] diags@[k]).severity != Severity::Error,
{
    let mut i: usize = 0;
    while i < diags.len()
        invariant
            0 <= i <= diags@.len(),
            forall|k: int| 0 <= k < i ==> (#[trigger] diags@[k]).severity != Severity::Error,
        decreases diags@.len() - i,
    {
        if diags[i].severity == Severity::Error {
            return false;
        }
        i = i + 1;
    }
    true
}

/// A line without the `\r` of a `\r\n` ending.
pub open spec fn strip_cr(l: Seq<char>) -> Seq<char> {
    if l.len() > 0 && l.last() == '\r' {
        l.drop_last()
    } else {
        l
    }
}

/// The lines of `s` as `str::lines` gives them: split at `\n`, a `\r`
/// before the `\n` removed, no empty line after a final `\n`.
pub open spec fn lines_seq(s: Seq<char>) -> Seq<Seq<char>> {
    let ps = split_seq(s, Sep::Char('\n'));
    let n = ps.len() as int;
    Seq::new((n - 1) as nat, |i: int| strip_cr(ps[i])) + if ps[n - 1].len() > 0 {
        seq![ps[n - 1]]
    } else {
        Seq::empty()
    }
}

/// A character allowed in a frontmatter key: ASCII alphanumeric, `_`, `-`.
pub open spec fn key_char(c: char) -> bool {
    ('a' <= c && c <= 'z') || ('A' <= c && c <= 'Z') || ('0' <= c && c <= '9') || c == '_' || c
        == '-'
}

/// A value holds a colon, and starts as no quoted, block or flow scalar
/// and no comment does.
pub open spec fn needs_quote(v: Seq<char>) -> bool {
    &&& v.len() > 0
    &&& exists|i: int| 0 <= i < v.len() && #[trigger] v[i] == ':'
    &&& v[0] != '"' && v[0] != '\'' && v[0] != '|' && v[0] != '>' && v[0] != '[' && v[0] != '{'
        && v[0] != '#'
}

/// A value inside double quotes: backslashes doubled, quotes escaped.
pub open spec fn escape_seq(v: Seq<char>) -> Seq<char>
    decreases v.len(),
{
    if v.len() == 0 {
        v
    } else {
        let c = v.last();
        escape_seq(v.drop_last()) + if c == '\\' {
            seq!['\\', '\\']
        } else if c == '"' {
            seq!['\\', '"']
        } else {
            seq![c]
        }
    }
}

/// One frontmatter line after repair, with its newline: a simple
/// `key: value` line whose value needs quoting gets it quoted; any other
/// line is kept as it is.
pub open spec fn fix_line(line: Seq<char>) -> Seq<char> {
    let t = trim_start_seq(line);
    let indent = line.take(line.len() - t.len());
    match find_seq(t, seq![':']) {
        Some(ci) => {
            let key = t.take(ci);
            let after = t.skip(ci + 1);
            if key.len() > 0 && (forall|j: int| 0 <= j < key.len() ==> key_char(#[trigger] key[j]))
                && after.len() > 0 && (after[0] == ' ' || after[0] == '\t') && needs_quote(
                trim_start_seq(after),
            ) {
                indent + key + seq![':', ' ', '"'] + escape_seq(trim_start_seq(after)) + seq![
                    '"',
                    '\n',
                ]
            } else {
                line.push('\n')
            }
        },
        None => line.push('\n'),
    }
}

/// The repaired lines, one after the other.
pub open spec fn fix_lines(ls: Seq<Seq<char>>) -> Seq<char>
    decreases ls.len(),
{
    if ls.len() == 0 {
        Seq::empty()
    } else {
        fix_lines(ls.drop_last()) + fix_line(ls.last())
    }
}

/// The document with unquoted colons in its frontmatter values quoted; a
/// document without a `---` frontmatter (or without its closing `---`) is
/// returned as it is.
pub open spec fn fixed_colons(input: Seq<char>) -> Seq<char> {
    let rest = if input.len() >= 4 && input.take(4) == seq!['-', '-', '-', '\n'] {
        Some(input.skip(4))
    } else if input.len() >= 5 && input.take(5) == seq!['-', '-', '-', '\r', '\n'] {
        Some(input.skip(5))
    } else {
        None
    };
    match rest {
        None => input,
        Some(r) => match find_seq(r, seq!['\n', '-', '-', '-']) {
            None => input,
            Some(e) => seq!['-', '-', '-', '\n'] + fix_lines(lines_seq(r.take(e))) + r.skip(e),
        },
    }
}

/// The number of leading whitespace characters of `cs`.
fn ws_prefix_len(cs: &[char]) -> (i: usize)
    ensures
        i <= cs@.len(),
        trim_start_seq(cs@) == cs@.skip(i as int),
{
    let mut i: usize = 0;
    while i < cs.len() && is_whitespace(cs[i])
        invariant
            0 <= i <= cs@.len(),
            forall|k: int| 0 <= k < i ==> is_ws(#[trigger] cs@[k]),
        decreases cs@.len() - i,
    {
        i = i + 1;
    }
    proof {
        crate::text::lemma_trim_start_prefix(cs@, i as int);
    }
    i
}

/// Appends the characters of `cs`.
fn push_chars(out: &mut String, cs: &[char])
    ensures
        final(out)@ == old(out)@ + cs@,
{
    let ghost before = out@;
    let mut m: usize = 0;
    while m < cs.len()
        invariant
            0 <= m <= cs@.len(),
            out@ == before + cs@.take(m as int),
        decreases cs@.len() - m,
    {
        push_char(out, cs[m]);
        proof {
            assert(cs@.take(m + 1) =~= cs@.take(m as int).push(cs@[m as int]));
        }
        m = m + 1;
    }
    proof {
        assert(cs@.take(cs@.len() as int) == cs@);
    }
}

/// Appends `escape_seq(value)`.
fn push_escaped(out: &mut String, value: &[char])
    ensures
        final(out)@ == old(out)@ + escape_seq(value@),
{
    let ghost before = out@;
    let mut m: usize = 0;
    while m < value.len()
        invariant
            0 <= m <= value@.len(),
            out@ == before + escape_seq(value@.take(m as int)),
        decreases value@.len() - m,
    {
        let c = value[m];
        proof {
            assert(value@.take(m + 1).drop_last() == value@.take(m as int));
            assert(value@.take(m + 1).last() == c);
        }
        if c == '\\' {
            push_char(out, '\\');
            push_char(out, '\\');
        } else if c == '"' {
            push_char(out, '\\');
            push_char(out, '"');
        } else {
            push_char(out, c);
        }
        m = m + 1;
    }
    proof {
        assert(value@.take(value@.len() as int) == value@);
    }
}

/// Whether every character of a non-empty `key` is a key character.
fn is_key(key: &[char]) -> (b: bool)
    ensures
        b == (key@.len() > 0 && forall|j: int| 0 <= j < key@.len() ==> key_char(#[trigger] key@[j])),
{
    if key.len() == 0 {
        return false;
    }
    let mut k: usize = 0;
    while k < key.len()
        invariant
            0 <= k <= key@.len(),
            forall|j: int| 0 <= j < k ==> key_char(#[trigger] key@[j]),
        decreases key@.len() - k,
    {
        let c = key[k];
        if !(('a' <= c && c <= 'z') || ('A' <= c && c <= 'Z') || ('0' <= c && c <= '9') || c == '_'
            || c == '-') {
            return false;
        }
        k = k + 1;
    }
    true
}

/// Executable `needs_quote`.
fn value_needs_quote(value: &[char]) -> (b: bool)
    ensures
        b == needs_quote(value@),
{
    if value.len() == 0 {
        return false;
    }
    let mut has_colon = false;
    let mut q: usize = 0;
    while q < value.len()
        invariant
            0 <= q <= value@.len(),
            has_colon == exists|r: int| 0 <= r < q && #[trigger] value@[r] == ':',
        decreases value@.len() - q,
    {
        if value[q] == ':' {
            has_colon = true;
        }
        q = q + 1;
    }
    has_colon && value[0] != '"' && value[0] != '\'' && value[0] != '|' && value[0] != '>'
        && value[0] != '[' && value[0] != '{' && value[0] != '#'
}

/// The repair of one line, appended to `out`.
fn push_fixed_line(out: &mut String, line: &[char])
    ensures
        final(out)@ == old(out)@ + fix_line(line@),
{
    let ghost before = out@;
    let i = ws_prefix_len(line);
    let t = &line[i..line.len()];
    proof {
        assert(t@ == trim_start_seq(line@));
        assert(line@.take(i as int) == line@.take(line@.len() - t@.len()));
    }
    let colon: [char; 1] = [':'];
    assert(colon@ =~= seq![':']);
    if let Some(ci) = find_in(t, &colon, 0) {
        proof {
            lemma_find_seq(t@, seq![':']);
            assert(occurs_at(t@, seq![':'], ci as int));
            assert(ci + 1 <= t.len());
        }
        let key = &t[0..ci];
        let after = &t[ci + 1..t.len()];
        assert(key@ == t@.take(ci as int));
        assert(after@ == t@.skip(ci + 1));
        if is_key(key) && after.len() > 0 && (after[0] == ' ' || after[0] == '\t') {
            let j = ws_prefix_len(after);
            let value = &after[j..after.len()];
            assert(value@ == trim_start_seq(after@));
            if value_needs_quote(value) {
                push_chars(out, &line[0..i]);
                push_chars(out, key);
                push_char(out, ':');
                push_char(out, ' ');
                push_char(out, '"');
                push_escaped(out, value);
                push_char(out, '"');
                push_char(out, '\n');
                proof {
                    assert(out@ =~= before + fix_line(line@));
                }
                return;
            }
        }
    }
    push_chars(out, line);
    push_char(out, '\n');
    proof {
        assert(out@ =~= before + fix_line(line@));
    }
}


/// Whether `cs` begins with the characters of `prefix`.
fn starts_with(cs: &[char], prefix: &[char]) -> (b: bool)
    ensures
        b == (cs@.len() >= prefix@.len() && cs@.take(prefix@.len() as int) == prefix@),
{
    let r = crate::text::matches_at(cs, prefix, 0);
    proof {
        if cs@.len() >= prefix@.len() {
            assert(cs@.subrange(0, prefix@.len() as int) == cs@.take(prefix@.len() as int));
        }
    }
    r
}

/// Quotes the values of simple `key: value` frontmatter lines that hold an
/// unquoted colon, so that a strict YAML reader accepts them.
pub fn fix_unquoted_colons(input: &str) -> (out: String)
    ensures
        out@ == fixed_colons(input@),
{
    let cs = chars_of(input);
    let lf: [char; 4] = ['-', '-', '-', '\n'];
    let crlf: [char; 5] = ['-', '-', '-', '\r', '\n'];
    proof {
        assert(lf@ =~= seq!['-', '-', '-', '\n']);
        assert(crlf@ =~= seq!['-', '-', '-', '\r', '\n']);
    }
    let start: usize = if starts_with(cs.as_slice(), &lf) {
        4
    } else if starts_with(cs.as_slice(), &crlf) {
        5
    } else {
        return input.to_owned();
    };
    let rest = &cs.as_slice()[start..cs.len()];
    assert(rest@ == input@.skip(start as int));
    let pat: [char; 4] = ['\n', '-', '-', '-'];
    assert(pat@ =~= seq!['\n', '-', '-', '-']);
    let e = match find_in(rest, &pat, 0) {
        None => {
            return input.to_owned();
        },
        Some(e) => e,
    };
    proof {
        lemma_find_seq(rest@, pat@);
        assert(occurs_at(rest@, pat@, e as int));
    }
    let fm = &rest[0..e];
    assert(fm@ == rest@.take(e as int));
    let pieces = split_by(fm, Sep::Char('\n'), false);
    let ghost ps = split_seq(fm@, Sep::Char('\n'));
    let ghost ls = lines_seq(fm@);
    let n = pieces.len();
    assert(views(pieces@) == ps);
    assert(n >= 1);
    let mut out = "---\n".to_owned();
    proof {
        reveal_strlit("---\n");
        assert(ls.take(0) =~= Seq::<Seq<char>>::empty());
    }
    let mut idx: usize = 0;
    while idx < n - 1
        invariant
            0 <= idx <= n - 1,
            n == ps.len(),
            views(pieces@) == ps,
            ls == lines_seq(fm@),
            ps == split_seq(fm@, Sep::Char('\n')),
            out@ == seq!['-', '-', '-', '\n'] + fix_lines(ls.take(idx as int)),
        decreases n - 1 - idx,
    {
        let line = chars_of(pieces[idx].as_str());
        assert(line@ == ps[idx as int]);
        let len = line.len();
        let body = if len > 0 && line[len - 1] == '\r' {
            &line.as_slice()[0..len - 1]
        } else {
            line.as_slice()
        };
        proof {
            assert(body@ == strip_cr(ps[idx as int]));
            assert(ls[idx as int] == strip_cr(ps[idx as int]));
            assert(ls.take(idx + 1).drop_last() =~= ls.take(idx as int));
            assert(ls.take(idx + 1).last() == ls[idx as int]);
        }
        push_fixed_line(&mut out, body);
        idx = idx + 1;
    }
    let last = chars_of(pieces[n - 1].as_str());
    assert(last@ == ps[n - 1]);
    if last.len() > 0 {
        push_fixed_line(&mut out, last.as_slice());
        proof {
            assert(ls =~= ls.take(n - 1).push(ps[n - 1]));
        }
    } else {
        proof {
            assert(ls =~= ls.take(n - 1));
        }
    }
    let tail = &rest[e..rest.len()];
    push_chars(&mut out, tail);
    proof {
        assert(tail@ == rest@.skip(e as int));
        assert(out@ =~= fixed_colons(input@));
    }
    out
}

/// A summary derived from the description is at most 160 characters long,
/// and at most 80 when the description holds CJK text; a cut one ends in
/// `…`.
pub proof fn law_summary_bounded(description: Seq<char>)
    ensures
        summary_of(None, description).len() <= 160,
        (exists|i: int| 0 <= i < trim_seq(description).len() && cjk(#[trigger] trim_seq(description)[i]))
            ==> summary_of(None, description).len() <= 80,
        summary_of(None, description).len() < trim_seq(description).len() ==> summary_of(
            None,
            description,
        ).last() == '…',
{
}

/// A summary taken from the description keeps its start: it is the whole
/// trimmed description when that fits, or else a cut one, ending in `…`,
/// whose other characters are the first ones of the trimmed description.
/// A non-blank `metadata.summary` is used as it is, trimmed.
pub proof fn law_summary_keeps_start(summary: Option<Seq<char>>, description: Seq<char>)
    ensures
        ({
            let t = trim_seq(description);
            let s = summary_of(None, description);
            &&& s.len() >= t.len() ==> s == t
            &&& s.len() < t.len() ==> s.len() > 0 && s.last() == '…' && s.drop_last()
                == t.take(s.len() - 1)
            &&& s.len() < t.len() ==> s.len() == if exists|i: int|
                0 <= i < t.len() && cjk(#[trigger] t[i]) {
                80int
            } else {
                160int
            }
            &&& s.len() >= t.len() ==> t.len() <= if exists|i: int|
                0 <= i < t.len() && cjk(#[trigger] t[i]) {
                80int
            } else {
                160int
            }
        }),
        (summary is Some && trim_seq(summary->0).len() > 0) ==> summary_of(summary, description)
            == trim_seq(summary->0),
        (summary is None || trim_seq(summary->0).len() == 0) ==> summary_of(summary, description)
            == summary_of(None, description),
{
    let t = trim_seq(description);
    let s = summary_of(None, description);
    if s.len() < t.len() {
        assert(s.drop_last() =~= t.take(s.len() - 1));
    }
}

/// YAML's reading of the text between double quotes: a backslash takes
/// the character after it literally.
pub open spec fn yaml_unescape(s: Seq<char>) -> Seq<char>
    decreases s.len(),
{
    if s.len() == 0 {
        s
    } else if s[0] == '\\' && s.len() >= 2 {
        seq![s[1]] + yaml_unescape(s.skip(2))
    } else {
        seq![s[0]] + yaml_unescape(s.skip(1))
    }
}

/// The text can stand between double quotes: every `"` is escaped by a
/// backslash, and no backslash is left without a character to escape.
pub open spec fn quote_safe(s: Seq<char>) -> bool
    decreases s.len(),
{
    if s.len() == 0 {
        true
    } else if s[0] == '\\' {
        s.len() >= 2 && quote_safe(s.skip(2))
    } else if s[0] == '"' {
        false
    } else {
        quote_safe(s.skip(1))
    }
}

/// Escaping a concatenation escapes each part.
proof fn lemma_escape_concat(a: Seq<char>, b: Seq<char>)
    ensures
        escape_seq(a + b) == escape_seq(a) + escape_seq(b),
    decreases b.len(),
{
    if b.len() == 0 {
        assert(a + b =~= a);
        assert(escape_seq(a) + escape_seq(b) =~= escape_seq(a));
    } else {
        lemma_escape_concat(a, b.drop_last());
        assert((a + b).drop_last() =~= a + b.drop_last());
        assert((a + b).last() == b.last());
        assert(escape_seq(a + b) =~= escape_seq(a) + escape_seq(b));
    }
}

/// A value quoted by the colon repair reads back as itself: its escaped
/// form can stand between double quotes, and YAML's unescaping of it gives
/// back exactly the value.
pub proof fn law_escape_roundtrip(v: Seq<char>)
    ensures
        quote_safe(escape_seq(v)),
        yaml_unescape(escape_seq(v)) == v,
    decreases v.len(),
{
    if v.len() > 0 {
        let c = v[0];
        let rest = v.skip(1);
        law_escape_roundtrip(rest);
        assert(v =~= seq![c] + rest);
        lemma_escape_concat(seq![c], rest);
        assert(seq![c].drop_last() =~= Seq::<char>::empty());
        assert(seq![c].last() == c);
        assert(escape_seq(Seq::<char>::empty()) =~= Seq::<char>::empty());
        assert(escape_seq(seq![c].drop_last()) =~= Seq::<char>::empty());
        let e = escape_seq(seq![c]);
        let er = escape_seq(rest);
        let w = e + er;
        assert(escape_seq(v) == w);
        if c == '\\' {
            assert(e =~= seq!['\\', '\\']);
            assert(w.skip(2) =~= er);
            assert(w[0] == '\\' && w[1] == '\\');
        } else if c == '"' {
            assert(e =~= seq!['\\', '"']);
            assert(w.skip(2) =~= er);
            assert(w[0] == '\\' && w[1] == '"');
        } else {
            assert(e =~= seq![c]);
            assert(w.skip(1) =~= er);
            assert(w[0] == c);
        }
        assert(yaml_unescape(w) =~= v);
    }
}

} // verus!
