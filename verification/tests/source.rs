use skillctl::error::Error;
use skillctl::source::{
    clone_root, discover_profiles, discover_skills, fetch_plan, local_fetched, parse_source,
    resolve_skill_path, resolved_commit, toml_stem, FetchPlan, Source,
};

#[test]
fn parses_github_simple() {
    let s = parse_source("github:foo/bar").expect("ok");
    assert!(
        matches!(&s, Source::Github { repo, path: None, reference: None } if repo == "foo/bar")
    );
}

#[test]
fn parses_github_with_path_and_ref() {
    let s = parse_source("github:foo/bar/skills/imgctl@v1.0").expect("ok");
    if let Source::Github { repo, path, reference } = s {
        assert_eq!(repo, "foo/bar");
        assert_eq!(path.as_deref(), Some("skills/imgctl"));
        assert_eq!(reference.as_deref(), Some("v1.0"));
    } else {
        unreachable!("wrong variant");
    }
}

#[test]
fn parses_local_path() {
    let s = parse_source("./relative/path").expect("ok");
    assert!(matches!(s, Source::Local { .. }));
}

#[test]
fn parses_url() {
    let s = parse_source("https://example.com/SKILL.md").expect("ok");
    assert!(matches!(s, Source::Url { .. }));
}

#[test]
fn github_edge_cases() {
    for bad in ["github:foo", "github:/bar", "github:foo/", "github:"] {
        match parse_source(bad) {
            Err(Error::Other(m)) => {
                assert_eq!(m, format!("invalid github source: {}", &bad[7..]))
            }
            other => panic!("unexpected {other:?}"),
        }
    }
    match parse_source("github:a/b/@").unwrap() {
        Source::Github { repo, path, reference } => {
            assert_eq!(repo, "a/b");
            assert_eq!(path.as_deref(), Some("@"));
            assert_eq!(reference, None);
        }
        other => panic!("unexpected {other:?}"),
    }
    match parse_source("github:a/b/").unwrap() {
        Source::Github { path, .. } => assert_eq!(path, None),
        other => panic!("unexpected {other:?}"),
    }
    match parse_source("github:a@x/b@main").unwrap() {
        Source::Github { repo, reference, .. } => {
            assert_eq!(repo, "a@x/b");
            assert_eq!(reference.as_deref(), Some("main"));
        }
        other => panic!("unexpected {other:?}"),
    }
}

#[test]
fn fetch_plans() {
    match fetch_plan(&parse_source("rel/dir").unwrap(), "/work", "/tmp/x").unwrap() {
        FetchPlan::Local { root } => assert_eq!(root, "/work/rel/dir"),
        _ => panic!("local expected"),
    }
    match fetch_plan(&parse_source("/abs").unwrap(), "/work", "/tmp/x").unwrap() {
        FetchPlan::Local { root } => assert_eq!(root, "/abs"),
        _ => panic!("local expected"),
    }
    match fetch_plan(&parse_source("github:o/r/p@v2").unwrap(), "/work", "/tmp/x").unwrap() {
        FetchPlan::Clone { repo, url, args, sub_path } => {
            assert_eq!(repo, "o/r");
            assert_eq!(url, "https://github.com/o/r.git");
            assert_eq!(
                args,
                vec!["clone", "--depth", "1", "--branch", "v2", "https://github.com/o/r.git", "/tmp/x"]
            );
            assert_eq!(sub_path.as_deref(), Some("p"));
        }
        _ => panic!("clone expected"),
    }
    match fetch_plan(&parse_source("http://x").unwrap(), "/w", "/t") {
        Err(Error::Source(m)) => {
            assert_eq!(m, "URL source not yet implemented (requires `source-http` feature)")
        }
        _ => panic!("refusal expected"),
    }
}

#[test]
fn fetched_trees() {
    match local_fetched("/nope".into(), false) {
        Err(Error::Source(m)) => assert_eq!(m, "local source not found: /nope"),
        _ => panic!("refusal expected"),
    }
    let f = local_fetched("/yes".into(), true).unwrap();
    assert_eq!(f.source_kind, "local");
    assert_eq!(clone_root("/t", None, false, false).unwrap(), "/t");
    assert_eq!(clone_root("/t", Some("x"), true, true).unwrap(), "/t/x");
    assert_eq!(clone_root("/t", Some("x"), false, true).unwrap(), "/t/skills/x");
    match clone_root("/t", Some("x"), false, false) {
        Err(Error::Source(m)) => {
            assert_eq!(m, "path not found in repo: `x` (also tried `skills/x`)")
        }
        _ => panic!("refusal expected"),
    }
    assert_eq!(resolved_commit(true, " abc\n").as_deref(), Some("abc"));
    assert_eq!(resolved_commit(false, "abc"), None);
    assert_eq!(resolve_skill_path("/r", None, true, false).unwrap(), "/r");
    assert_eq!(resolve_skill_path("/r", Some("p"), false, true).unwrap(), "/r/skills/p");
}

#[test]
fn discovers_skills_by_name() {
    let dirs = vec![("zeta".to_string(), true), ("alpha".to_string(), true), ("mid".to_string(), false)];
    let found = discover_skills("/repo", true, &dirs);
    assert_eq!(found.len(), 3);
    assert_eq!(found[0].rel_path, "");
    assert_eq!(found[0].skill_md, "/repo/SKILL.md");
    assert_eq!(found[1].rel_path, "skills/alpha");
    assert_eq!(found[1].skill_md, "/repo/skills/alpha/SKILL.md");
    assert_eq!(found[2].rel_path, "skills/zeta");
}

#[test]
fn discovers_profiles_and_stems() {
    let names = vec!["b.toml".to_string(), "readme.md".to_string(), "a.toml".to_string(), ".toml".to_string()];
    let found = discover_profiles("/repo/profiles", &names);
    assert_eq!(found.len(), 2);
    assert_eq!(found[0].rel_path, "profiles/a.toml");
    assert_eq!(found[1].skill_md, "/repo/profiles/b.toml");
    assert_eq!(toml_stem("rust-cli.toml").as_deref(), Some("rust-cli"));
    assert_eq!(toml_stem("a.b.toml").as_deref(), Some("a.b"));
    assert_eq!(toml_stem(".toml"), None);
    assert_eq!(toml_stem("x.json"), None);
}
