use skillctl::error::Error;
use skillctl::skill::{
    default_version, derive_summary, finish_parse, fix_unquoted_colons, is_cjk, no_errors,
    validate, Diagnostic, Frontmatter, Metadata, Requires, Severity,
};

fn metadata() -> Metadata {
    Metadata {
        namespace: None,
        summary: None,
        triggers: vec![],
        languages: vec![],
        tags: vec![],
        author: None,
        homepage: None,
        requires: Requires { binaries: vec![], env: vec![], runtimes: vec![] },
    }
}

fn frontmatter(name: &str, version: &str, description: &str) -> Frontmatter {
    Frontmatter {
        name: name.into(),
        version: version.into(),
        description: description.into(),
        metadata: metadata(),
        license: None,
        compatibility: None,
    }
}

#[test]
fn derives_summary_from_description_when_missing() {
    let mut fm = frontmatter("x", "0.1.0", "短描述");
    fm.metadata.summary = None;
    assert_eq!(derive_summary(&fm), "短描述");
}

#[test]
fn summary_prefers_metadata_and_cuts_long_text() {
    let mut fm = frontmatter("x", "0.1.0", &"a".repeat(200));
    assert_eq!(derive_summary(&fm).chars().count(), 160);
    assert!(derive_summary(&fm).ends_with('…'));
    fm.description = "中".repeat(100);
    assert_eq!(derive_summary(&fm).chars().count(), 80);
    fm.metadata.summary = Some("  Rust 审查 ".into());
    assert_eq!(derive_summary(&fm), "Rust 审查");
    fm.metadata.summary = Some("   ".into());
    assert_eq!(derive_summary(&fm).chars().count(), 80);
}

#[test]
fn cjk_detection() {
    assert!(is_cjk('中'));
    assert!(is_cjk('あ'));
    assert!(!is_cjk('a'));
}

#[test]
fn finishing_a_parse() {
    match finish_parse(None, String::new()) {
        Err(Error::InvalidSkill(m)) => assert_eq!(m, "missing frontmatter"),
        other => panic!("unexpected {other:?}"),
    }
    match finish_parse(Some(frontmatter(" ", "1", "d")), String::new()) {
        Err(Error::InvalidSkill(m)) => assert_eq!(m, "frontmatter `name` is empty"),
        other => panic!("unexpected {other:?}"),
    }
    match finish_parse(Some(frontmatter("n", "1", "")), String::new()) {
        Err(Error::InvalidSkill(m)) => assert_eq!(m, "frontmatter `description` is empty"),
        other => panic!("unexpected {other:?}"),
    }
    let doc = finish_parse(Some(frontmatter("n", " ", "d")), "body".into()).unwrap();
    assert_eq!(doc.frontmatter.version, default_version());
    assert_eq!(doc.frontmatter.version, "0.0.0");
    assert_eq!(doc.body, "body");
}

#[test]
fn lenient_unquoted_colon_fix() {
    let raw = "---\nname: x\nversion: \"0.1.0\"\ndescription: Use this skill when: the user asks about PDFs\n---\n\nbody";
    let fixed = fix_unquoted_colons(raw);
    assert!(fixed.contains("description: \"Use this skill when: the user asks about PDFs\""));
    assert!(fixed.contains("version: \"0.1.0\""));
    assert!(fixed.contains("name: x"));
}

#[test]
fn validation_warnings() {
    let doc = finish_parse(Some(frontmatter(&"n".repeat(65), "1", "d")), "  ".into()).unwrap();
    let diags: Vec<Diagnostic> = validate(&doc);
    assert_eq!(diags.len(), 2);
    assert!(diags.iter().all(|d| d.severity == Severity::Warning));
    assert_eq!(diags[1].message, "SKILL.md body is empty");
    assert!(no_errors(&diags));
    let fine = finish_parse(Some(frontmatter("n", "1", "d")), "body".into()).unwrap();
    assert!(validate(&fine).is_empty());
}

#[test]
fn long_name_counts_characters() {
    let cjk = finish_parse(Some(frontmatter(&"审".repeat(30), "1", "d")), "body".into()).unwrap();
    assert!(validate(&cjk).is_empty());
    let long = finish_parse(Some(frontmatter(&"审".repeat(65), "1", "d")), "body".into()).unwrap();
    let diags = validate(&long);
    assert_eq!(diags.len(), 1);
    assert_eq!(diags[0].message, format!("name exceeds 64 chars: {}", "审".repeat(65)));
}

#[test]
fn languages_default_to_any() {
    assert_eq!(skillctl::skill::default_languages(), vec!["*".to_string()]);
}
