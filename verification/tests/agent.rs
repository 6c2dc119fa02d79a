use skillctl::agent::{
    default_block, find, parse_attrs, remove, render_block, upsert, END_MARKER,
};

#[test]
fn renders_stable_block() {
    let a = render_block(1, &[]);
    let b = render_block(1, &[]);
    assert_eq!(a, b);
    assert!(a.contains("<!-- skillctl:start version=1 -->"));
    assert!(a.contains(END_MARKER));
}

#[test]
fn renders_with_started_from() {
    let s = render_block(1, &["rust-cli".into(), "react-frontend".into()]);
    assert!(s.contains("started_from=rust-cli,react-frontend"));
}

#[test]
fn finds_existing_block() {
    let content = "# Project\n\nIntro.\n\n".to_string() + &render_block(1, &["rust-cli".into()]);
    let block = find(&content).expect("ok").expect("found");
    assert_eq!(block.version, 1);
    assert_eq!(block.started_from, vec!["rust-cli"]);
}

#[test]
fn upsert_idempotent() {
    let block = render_block(1, &[]);
    let after_first = upsert("", &block).unwrap();
    let after_second = upsert(&after_first, &block).unwrap();
    assert_eq!(after_first, after_second);
}

#[test]
fn remove_clears_block() {
    let with_block = upsert("# Top\n\n", &render_block(1, &[])).unwrap();
    let s = remove(&with_block).unwrap();
    assert!(!s.contains("skillctl:start"));
    assert!(s.contains("# Top"));
}

#[test]
fn block_is_appended_after_a_blank_line() {
    let block = render_block(1, &[]);
    let s = upsert("# Top", &block).unwrap();
    assert_eq!(s, format!("# Top\n\n{block}"));
}

#[test]
fn block_is_replaced_in_place() {
    let old = render_block(1, &["a".into()]);
    let new = render_block(1, &["b".into()]);
    let original = format!("# Top\n\n{old}tail\n");
    let s = upsert(&original, &new).unwrap();
    assert_eq!(s, format!("# Top\n\n{new}tail\n"));
}

#[test]
fn found_block_spans_its_bytes() {
    let block = render_block(1, &[]);
    let content = format!("é\n{block}");
    let found = find(&content).unwrap().unwrap();
    assert_eq!(found.byte_range.start, "é\n".len());
    assert_eq!(found.byte_range.end, content.len());
}

#[test]
fn missing_end_marker_is_refused() {
    let err = find("<!-- skillctl:start version=1 -->\nno end").unwrap_err();
    match err {
        skillctl::error::Error::Other(m) => {
            assert_eq!(m, "malformed managed block: missing end marker")
        }
        other => panic!("unexpected {other:?}"),
    }
}

#[test]
fn missing_close_is_refused() {
    let err = upsert("<!-- skillctl:start version=1", "x").unwrap_err();
    match err {
        skillctl::error::Error::Other(m) => assert_eq!(m, "malformed start marker: missing `-->`"),
        other => panic!("unexpected {other:?}"),
    }
}

#[test]
fn bad_version_is_refused() {
    let err = parse_attrs("version=x").unwrap_err();
    match err {
        skillctl::error::Error::Other(m) => {
            assert_eq!(m, "invalid version attr: invalid digit found in string")
        }
        other => panic!("unexpected {other:?}"),
    }
}

#[test]
fn attrs_default_to_version_one() {
    let (v, sf) = parse_attrs("started_from=a,b other").unwrap();
    assert_eq!(v, 1);
    assert_eq!(sf, vec!["a", "b"]);
}

#[test]
fn default_block_is_version_one() {
    assert_eq!(default_block(&[]), render_block(1, &[]));
}

#[test]
fn no_block_found_in_plain_text() {
    assert!(find("# nothing here").unwrap().is_none());
    assert_eq!(remove("# nothing here").unwrap(), "# nothing here");
}

#[test]
fn removing_a_written_block_gives_the_text_back() {
    let block = render_block(1, &["rust-cli".to_owned()]);
    let written = upsert("# Top\nbody", &block).unwrap();
    let back = remove(&written).unwrap();
    assert_eq!(back, "# Top\nbody\n\n");
    assert!(find(&back).unwrap().is_none());
}

#[test]
fn removing_a_rewritten_block_matches_removing_the_old_one() {
    let old = render_block(1, &[]);
    let original = format!("head\n\n{old}tail\n");
    let rewritten = upsert(&original, &render_block(2, &["x".to_owned()])).unwrap();
    assert_eq!(remove(&rewritten).unwrap(), remove(&original).unwrap());
    assert_eq!(remove(&original).unwrap(), "head\n\ntail\n");
}

#[test]
fn writing_keeps_text_outside_the_markers() {
    let old = render_block(1, &[]);
    let original = format!("before\n{old}after\n");
    let s = upsert(&original, "NEW\n").unwrap();
    assert_eq!(s, "before\nNEW\nafter\n");
}

#[test]
fn enable_disable_enable_gives_the_first_bytes_back() {
    for original in ["", "# Project\nnotes\n"] {
        let block = default_block(&[]);
        let s1 = upsert(original, &block).unwrap();
        assert_eq!(upsert(&s1, &block).unwrap(), s1);
        let r1 = remove(&s1).unwrap();
        assert_eq!(remove(&r1).unwrap(), r1);
        assert_eq!(upsert(&r1, &block).unwrap(), s1);
    }
}
