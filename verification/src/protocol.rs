//! The wire schema of the protocol surface: what `list`, `describe` and a
//! failed command answer with `--format json` or `--format tsv`.

use vstd::prelude::*;
use crate::error::Error;
use crate::skill::Requires;
use crate::text::{chars_of, push_char, push_str, string_from};
use crate::types::{clone_strings, Tier};

verus! {

/// The protocol version that every answer carries.
pub const PROTOCOL_VERSION: u32 = 1;

/// The answer of `list`.
#[derive(Debug)]
pub struct ListResponse {
    pub protocol: u32,
    pub scope: String,
    pub count: usize,
    pub skills: Vec<ListedSkill>,
}

/// One skill of a `list` answer: its catalog record.
#[derive(Debug)]
pub struct ListedSkill {
    pub id: String,
    pub name: String,
    pub namespace: String,
    pub version: String,
    pub tier: Tier,
    pub summary: String,
    pub languages: Vec<String>,
    pub triggers: Vec<String>,
    pub tags: Vec<String>,
}

/// The answer of `describe`.
#[derive(Debug)]
pub struct DescribeResponse {
    pub protocol: u32,
    pub id: String,
    pub name: String,
    pub namespace: String,
    pub version: String,
    pub tier: Tier,
    pub summary: String,
    pub description: String,
    pub commands: Vec<String>,
    pub tags: Vec<String>,
    pub languages: Vec<String>,
    pub triggers: Vec<String>,
    pub requires: Requires,
    pub resources: Vec<String>,
}

/// The answer of any command that fails under `--format json`.
#[derive(Debug)]
pub struct ErrorEnvelope {
    pub protocol: u32,
    /// Always `false`.
    pub success: bool,
    /// The error code, such as `ambiguous_skill_name`.
    pub error: String,
    pub hint: Option<String>,
    pub matches: Vec<String>,
}

impl ErrorEnvelope {
    /// An envelope with the given code and neither hint nor matches.
    pub fn new(error_code: String) -> (env: ErrorEnvelope)
        ensures
            env.protocol == PROTOCOL_VERSION,
            !env.success,
            env.error == error_code,
            env.hint is None,
            env.matches@.len() == 0,
    {
        ErrorEnvelope {
            protocol: PROTOCOL_VERSION,
            success: false,
            error: error_code,
            hint: None,
            matches: Vec::new(),
        }
    }
}

/// The protocol's code for each error.
pub open spec fn error_code_of(e: Error) -> Seq<char> {
    match e {
        Error::SkillNotFound(_) => "skill_not_found"@,
        Error::ProfileNotFound(_) => "profile_not_found"@,
        Error::AmbiguousSkillName { .. } => "ambiguous_skill_name"@,
        Error::NotAProject(_) => "not_a_project"@,
        Error::UntrustedProject(_) => "untrusted_project"@,
        Error::DependencyMissing(_) => "dependency_missing"@,
        Error::InvalidSkillId(_) => "invalid_skill_id"@,
        Error::InvalidSkill(_) => "invalid_skill"@,
        Error::InvalidProfile(_) => "invalid_profile"@,
        Error::ChecksumMismatch { .. } => "checksum_mismatch"@,
        Error::Io { .. } => "io_error"@,
        Error::Source(_) => "source_error"@,
        Error::Other(_) => "error"@,
    }
}

/// The protocol's code for an error.
pub fn error_code(e: &Error) -> (r: &'static str)
    ensures
        r@ == error_code_of(*e),
{
    match e {
        Error::SkillNotFound(_) => "skill_not_found",
        Error::ProfileNotFound(_) => "profile_not_found",
        Error::AmbiguousSkillName { .. } => "ambiguous_skill_name",
        Error::NotAProject(_) => "not_a_project",
        Error::UntrustedProject(_) => "untrusted_project",
        Error::DependencyMissing(_) => "dependency_missing",
        Error::InvalidSkillId(_) => "invalid_skill_id",
        Error::InvalidSkill(_) => "invalid_skill",
        Error::InvalidProfile(_) => "invalid_profile",
        Error::ChecksumMismatch { .. } => "checksum_mismatch",
        Error::Io { .. } => "io_error",
        Error::Source(_) => "source_error",
        Error::Other(_) => "error",
    }
}

/// The hint that an ambiguous name gets.
pub open spec fn ambiguity_hint() -> Seq<char> {
    "Use full id, e.g. namespace/name"@
}

/// The envelope of a failed command. `display` is the error's rendered
/// message, which stands as the hint of every error but an ambiguous name;
/// that one gets a fixed hint and its candidate ids.
pub fn error_envelope(e: &Error, display: String) -> (env: ErrorEnvelope)
    ensures
        env.protocol == PROTOCOL_VERSION,
        !env.success,
        env.error@ == error_code_of(*e),
        match *e {
            Error::AmbiguousSkillName { matches, .. } => env.hint matches Some(h) && h@
                == ambiguity_hint() && env.matches@ == matches@,
            _ => env.hint == Some(display) && env.matches@.len() == 0,
        },
{
    let mut env = ErrorEnvelope::new(error_code(e).to_owned());
    match e {
        Error::AmbiguousSkillName { matches, .. } => {
            env.hint = Some("Use full id, e.g. namespace/name".to_owned());
            env.matches = clone_strings(matches);
        },
        _ => {
            env.hint = Some(display);
        },
    }
    env
}

/// A TSV field: tabs and line breaks become spaces.
pub open spec fn tsv_clean_seq(s: Seq<char>) -> Seq<char> {
    Seq::new(
        s.len(),
        |i: int|
            if s[i] == '\t' || s[i] == '\n' || s[i] == '\r' {
                ' '
            } else {
                s[i]
            },
    )
}

/// Makes a value fit in one TSV field.
pub fn tsv_clean(s: &str) -> (r: String)
    ensures
        r@ == tsv_clean_seq(s@),
{
    let cs = chars_of(s);
    let mut out: Vec<char> = Vec::new();
    let mut i: usize = 0;
    while i < cs.len()
        invariant
            0 <= i <= cs@.len(),
            cs@ == s@,
            out@ == tsv_clean_seq(s@).take(i as int),
        decreases cs@.len() - i,
    {
        let c = cs[i];
        if c == '\t' || c == '\n' || c == '\r' {
            out.push(' ');
        } else {
            out.push(c);
        }
        proof {
            assert(tsv_clean_seq(s@).take(i + 1) =~= tsv_clean_seq(s@).take(i as int).push(
                tsv_clean_seq(s@)[i as int],
            ));
        }
        i = i + 1;
    }
    proof {
        assert(tsv_clean_seq(s@).take(i as int) =~= tsv_clean_seq(s@));
    }
    string_from(out.as_slice())
}

/// A cleaned TSV field holds no tab and no line break, and has the length
/// of the value.
pub proof fn law_tsv_clean_one_field(s: Seq<char>)
    ensures
        tsv_clean_seq(s).len() == s.len(),
        forall|i: int|
            0 <= i < s.len() ==> #[trigger] tsv_clean_seq(s)[i] != '\t' && tsv_clean_seq(s)[i] != '\n'
                && tsv_clean_seq(s)[i] != '\r',
{
}

/// The one TSV line of a failed command: `ERROR`, the code and the hint (or
/// the rendered message), tab-separated.
pub fn error_tsv_line(e: &Error, display: &str) -> (r: String)
    ensures
        r@ == "ERROR\t"@ + error_code_of(*e) + "\t"@ + tsv_clean_seq(
            match *e {
                Error::AmbiguousSkillName { .. } => ambiguity_hint(),
                _ => display@,
            },
        ),
{
    let mut out = "ERROR\t".to_owned();
    push_str(&mut out, error_code(e));
    push_str(&mut out, "\t");
    let hint = match e {
        Error::AmbiguousSkillName { .. } => tsv_clean("Use full id, e.g. namespace/name"),
        _ => tsv_clean(display),
    };
    push_str(&mut out, hint.as_str());
    out
}

/// Cleaning a TSV field changes nothing but tabs, newlines and carriage
/// returns, each of which becomes one space; a field without them comes
/// back unchanged.
pub proof fn law_tsv_clean_keeps_text(s: Seq<char>)
    ensures
        tsv_clean_seq(s).len() == s.len(),
        forall|i: int|
            0 <= i < s.len() && s[i] != '\t' && s[i] != '\n' && s[i] != '\r' ==> #[trigger] tsv_clean_seq(
                s,
            )[i] == s[i],
        forall|i: int|
            0 <= i < s.len() && (s[i] == '\t' || s[i] == '\n' || s[i] == '\r') ==> #[trigger] tsv_clean_seq(
                s,
            )[i] == ' ',
        (forall|i: int| 0 <= i < s.len() ==> s[i] != '\t' && s[i] != '\n' && s[i] != '\r')
            ==> tsv_clean_seq(s) == s,
{
    if forall|i: int| 0 <= i < s.len() ==> s[i] != '\t' && s[i] != '\n' && s[i] != '\r' {
        assert(tsv_clean_seq(s) =~= s);
    }
}

} // verus!
