use skillctl::commands::util::{emits_json, OutputFormat};
use skillctl::detect::{hint_from_probe, probes, StackHint};
use skillctl::error::Error;
use skillctl::protocol::{error_code, error_envelope, error_tsv_line, tsv_clean, ErrorEnvelope};

#[test]
fn error_envelopes() {
    let e = Error::AmbiguousSkillName { name: "deps".into(), matches: vec!["a/deps".into(), "b/deps".into()] };
    let env = error_envelope(&e, "ambiguous".into());
    assert_eq!(env.error, "ambiguous_skill_name");
    assert!(!env.success);
    assert_eq!(env.hint.as_deref(), Some("Use full id, e.g. namespace/name"));
    assert_eq!(env.matches, vec!["a/deps", "b/deps"]);
    let nf = Error::NotAProject("/w".into());
    let env = error_envelope(&nf, "project not initialized: /w".into());
    assert_eq!(env.error, "not_a_project");
    assert_eq!(env.hint.as_deref(), Some("project not initialized: /w"));
    assert!(env.matches.is_empty());
    assert_eq!(error_code(&Error::Other("x".into())), "error");
    assert_eq!(error_code(&Error::Io { path: "p".into(), message: "m".into() }), "io_error");
    let fresh = ErrorEnvelope::new("skill_not_found".into());
    assert_eq!(fresh.protocol, 1);
    assert!(fresh.hint.is_none());
}

#[test]
fn tsv_errors_and_cleaning() {
    assert_eq!(tsv_clean("a\tb\nc\rd"), "a b c d");
    let line = error_tsv_line(&Error::SkillNotFound("x".into()), "skill not found:\tx");
    assert_eq!(line, "ERROR\tskill_not_found\tskill not found: x");
    assert!(emits_json(OutputFormat::Json) && !emits_json(OutputFormat::Tsv));
}

#[test]
fn detects_rust_from_probes() {
    let names = probes();
    let exists: Vec<bool> = names.iter().map(|n| *n == "Cargo.toml").collect();
    let is_dir = vec![false; names.len()];
    let h = hint_from_probe(&exists, &is_dir);
    assert!(h.rust);
    assert!(!h.go);
    assert_eq!(h.tags(), vec!["rust"]);
}

#[test]
fn stack_tags_in_order() {
    let h = StackHint {
        rust: true,
        tauri: false,
        nodejs: true,
        typescript: true,
        python: false,
        go: false,
        docker: true,
        github_actions: true,
        android: false,
        ios: true,
    };
    assert_eq!(h.tags(), vec!["docker", "github-actions", "ios", "nodejs", "rust", "typescript"]);
    let names = probes();
    let mut exists = vec![false; names.len()];
    exists[4] = true; // tsconfig without package.json
    let h = hint_from_probe(&exists, &vec![false; names.len()]);
    assert!(!h.typescript);
}

#[test]
fn tags_come_in_alphabetical_order() {
    let h = StackHint {
        rust: true,
        tauri: false,
        nodejs: false,
        typescript: false,
        python: false,
        go: true,
        docker: false,
        github_actions: false,
        android: false,
        ios: false,
    };
    assert_eq!(h.tags(), vec!["go", "rust"]);
}
