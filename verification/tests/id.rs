use skillctl::error::Error;
use skillctl::id::{is_valid_segment, Namespace, SkillId, SkillName};

#[test]
fn parses_valid_id() {
    let id = SkillId::parse("rust/review").expect("valid");
    assert_eq!(id.namespace.as_str(), "rust");
    assert_eq!(id.name.as_str(), "review");
    assert_eq!(id.to_string(), "rust/review");
}

#[test]
fn rejects_missing_namespace() {
    assert!(SkillId::parse("review").is_err());
}

#[test]
fn rejects_uppercase() {
    assert!(SkillId::parse("Rust/Review").is_err());
}

fn message(e: Error) -> String {
    match e {
        Error::InvalidSkillId(m) => m,
        other => panic!("unexpected {other:?}"),
    }
}

#[test]
fn id_errors_name_the_fault() {
    assert_eq!(message(SkillId::parse("review").unwrap_err()), "missing namespace: review");
    assert_eq!(message(SkillId::parse("Rust/review").unwrap_err()), "invalid namespace: Rust");
    assert_eq!(message(SkillId::parse("rust/Review").unwrap_err()), "invalid name: Review");
    assert_eq!(message(SkillId::parse("rust/").unwrap_err()), "invalid name: ");
    let long = format!("a/{}", "b".repeat(99));
    assert_eq!(message(SkillId::parse(&long).unwrap_err()), format!("id too long: {long}"));
}

#[test]
fn id_splits_at_first_slash() {
    assert_eq!(message(SkillId::parse("a/b/c").unwrap_err()), "invalid name: b/c");
}

#[test]
fn segment_limits() {
    assert!(Namespace::parse(&"a".repeat(39)).is_ok());
    assert!(Namespace::parse(&"a".repeat(40)).is_err());
    assert!(SkillName::parse(&"a".repeat(63)).is_ok());
    assert!(SkillName::parse(&"a".repeat(64)).is_err());
    assert!(is_valid_segment("0-a", 3));
    assert!(!is_valid_segment("-a", 3));
    assert!(!is_valid_segment("", 3));
}

#[test]
fn id_text_round_trips() {
    let id = SkillId::parse("tools/deps").unwrap();
    let again = SkillId::parse(&id.to_string()).unwrap();
    assert_eq!(again.namespace.as_str(), "tools");
    assert_eq!(again.name.as_str(), "deps");
    let copy = id.clone();
    assert_eq!(copy.to_string(), "tools/deps");
}
