//! Decisions shared by the subcommands: the output format and the trust
//! gate.

use vstd::prelude::*;
use crate::error::Error;
use crate::text::str_eq;

verus! {

/// How a command prints its answer.
#[derive(Clone, Copy, Debug, PartialEq, Eq, Structural)]
pub enum OutputFormat {
    /// Aligned text for people.
    Human,
    /// The full JSON wire schema.
    Json,
    /// Compact TSV for Agents, where a command offers it.
    Tsv,
}

/// Whether an answer is printed as JSON; `Tsv` falls back to the human
/// view on commands without a TSV rendering.
pub fn emits_json(fmt: OutputFormat) -> (b: bool)
    ensures
        b == (fmt == OutputFormat::Json),
{
    match fmt {
        OutputFormat::Json => true,
        _ => false,
    }
}

/// The trust gate is on when `SKILLCTL_TRUST_GATE` is `1` or `true`.
pub fn trust_gate_enabled(value: Option<&str>) -> (b: bool)
    ensures
        b == (value matches Some(v) && (v@ == "1"@ || v@ == "true"@)),
{
    match value {
        Some(v) => str_eq(v, "1") || str_eq(v, "true"),
        None => false,
    }
}

/// Refuses a project that is missing from the trust list, when the
/// `SKILLCTL_TRUST_GATE` check is switched on.
pub fn ensure_trusted(gate_on: bool, trusted: bool, project_root: &str) -> (r: Result<(), Error>)
    ensures
        (!gate_on || trusted) ==> r is Ok,
        (gate_on && !trusted) ==> (r matches Err(Error::UntrustedProject(p)) && p@ == project_root@),
{
    if !gate_on || trusted {
        Ok(())
    } else {
        Err(Error::UntrustedProject(project_root.to_owned()))
    }
}

/// The error of a command run outside any project.
pub fn not_a_project(dir: &str) -> (e: Error)
    ensures
        e matches Error::NotAProject(p) && p@ == dir@,
{
    Error::NotAProject(dir.to_owned())
}

/// The project that `trust` acts on: the enclosing project of the
/// canonical path, else the path itself when it exists.
pub fn trust_root(enclosing: Option<String>, canonical: String, exists: bool) -> (r: Result<String, Error>)
    ensures
        enclosing matches Some(p) ==> r == Ok::<String, Error>(p),
        enclosing is None && exists ==> r == Ok::<String, Error>(canonical),
        enclosing is None && !exists ==> (r matches Err(Error::Other(m)) && m@
            == "path does not exist: "@ + canonical@),
{
    match enclosing {
        Some(p) => Ok(p),
        None => if exists {
            Ok(canonical)
        } else {
            Err(Error::Other(crate::text::concat("path does not exist: ", canonical.as_str())))
        },
    }
}

} // verus!
