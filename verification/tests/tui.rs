use skillctl::error::Error;
use skillctl::id::SkillId;
use skillctl::tui::{is_control, language_suffix, App, Candidate, Flow, Key};
use skillctl::types::Tier;

fn cand(id: &str, summary: &str, tier: Option<Tier>, tags: &[&str]) -> Candidate {
    Candidate {
        id: SkillId::parse(id).unwrap(),
        summary: summary.into(),
        languages: vec![],
        tags: tags.iter().map(|s| s.to_string()).collect(),
        enabled: tier.is_some(),
        tier,
    }
}

fn app() -> App {
    App::open(vec![
        cand("rust/review", "Review Rust code", Some(Tier::Core), &[]),
        cand("tools/deps", "Dependency audit", Some(Tier::Extra), &["Security"]),
        cand("js/lint", "Lint JavaScript", None, &[]),
    ])
    .unwrap()
}

fn ids(v: &[SkillId]) -> Vec<String> {
    v.iter().map(|i| i.to_string()).collect()
}

#[test]
fn picker_starts_from_the_project() {
    let a = app();
    assert_eq!(a.cursor(), Some(0));
    let (core, extra) = a.finish().unwrap();
    assert_eq!(ids(&core), vec!["rust/review"]);
    assert_eq!(ids(&extra), vec!["tools/deps"]);
}

#[test]
fn picker_keys_toggle_marks() {
    let mut a = app();
    assert_eq!(a.handle_key(Key::Down), Flow::Continue);
    assert_eq!(a.handle_key(Key::Down), Flow::Continue);
    assert_eq!(a.cursor(), Some(2));
    a.handle_key(Key::Char('c'));
    a.handle_key(Key::Up);
    a.handle_key(Key::Char(' '));
    a.handle_key(Key::Down);
    a.handle_key(Key::Down);
    assert_eq!(a.cursor(), Some(0));
    a.handle_key(Key::Char(' '));
    assert_eq!(a.handle_key(Key::Enter), Flow::Done);
    let (core, extra) = a.finish().unwrap();
    assert_eq!(ids(&core), vec!["js/lint"]);
    assert!(extra.is_empty());
}

#[test]
fn picker_filters_case_insensitively() {
    let mut a = app();
    for ch in "SECUR".chars() {
        a.handle_key(Key::Char(ch));
    }
    assert_eq!(a.visible, vec![1]);
    assert_eq!(a.cursor(), Some(1));
    // with a filter, `q` and space extend it instead of acting
    a.handle_key(Key::Char('q'));
    assert!(a.visible.is_empty());
    assert_eq!(a.cursor(), None);
    a.handle_key(Key::Backspace);
    assert_eq!(a.visible, vec![1]);
    a.handle_key(Key::Char('/'));
    assert_eq!(a.filter, "");
    assert_eq!(a.visible, vec![1]);
}

#[test]
fn picker_cancels() {
    let mut a = app();
    assert_eq!(a.handle_key(Key::Char('q')), Flow::Done);
    match a.finish() {
        Err(Error::Other(m)) => assert_eq!(m, "cancelled"),
        other => panic!("unexpected {other:?}"),
    }
    let mut b = app();
    assert_eq!(b.handle_key(Key::Esc), Flow::Done);
    assert!(b.cancelled);
}

#[test]
fn picker_wraps_around() {
    let mut a = app();
    a.handle_key(Key::Up);
    assert_eq!(a.cursor(), Some(2));
    a.move_cursor(-7);
    assert_eq!(a.row, Some(granted(2 - 7, 3)));
    assert!(matches!(App::open(vec![]), Err(Error::Other(_))));
    assert!(is_control('\u{7}') && !is_control('a'));
}

fn granted(x: i64, m: i64) -> usize {
    x.rem_euclid(m) as usize
}

#[test]
fn row_marks_title_and_languages() {
    let mut a = app();
    assert_eq!(a.row_mark(0), "[C]");
    assert_eq!(a.row_mark(1), "[x]");
    assert_eq!(a.row_mark(2), "[ ]");
    assert_eq!(a.title(), "skillctl use — filter:  (type to filter)");
    a.handle_key(Key::Char('x'));
    assert_eq!(a.title(), "skillctl use — filter: x");
    assert_eq!(language_suffix(&a.items[0]), "");
    let mut c = cand("rust/review", "Review", None, &[]);
    c.languages = vec!["rust".into(), "toml".into()];
    assert_eq!(language_suffix(&c), " (rust,toml)");
}
