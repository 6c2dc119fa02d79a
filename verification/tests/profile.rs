use skillctl::commands::profile::{
    keep_local_name, profile_toml_path, profile_update_step, ProfileUpdateStep,
};
use skillctl::source::Source;
use skillctl::id::SkillId;
use skillctl::profile::{merge, tier_of, Profile, ProfileMeta, SkillSpec, SkillsTable};
use skillctl::strmap::StrMap;
use skillctl::types::Tier;

fn profile(name: &str, core: &[(&str, &str)], extra: &[(&str, &str)]) -> Profile {
    let mut c = StrMap::new();
    for (k, v) in core {
        c.insert(k.to_string(), SkillSpec::Version(v.to_string()));
    }
    let mut x = StrMap::new();
    for (k, v) in extra {
        x.insert(k.to_string(), SkillSpec::Version(v.to_string()));
    }
    Profile {
        profile: ProfileMeta {
            name: name.to_string(),
            description: None,
            author: None,
            homepage: None,
        },
        skills: SkillsTable { core: c, extra: x },
    }
}

#[test]
fn merges_two_profiles() {
    let a = profile(
        "rust-cli",
        &[("deps", "*"), ("frontend-design", "*")],
        &[("rust/review", "1.2.0")],
    );
    let b = profile("react", &[("react/best-practices", "*")], &[]);
    let merged = merge(&[a, b]);
    assert_eq!(merged.core.len(), 3);
}

#[test]
fn first_profile_wins() {
    let a = profile("a", &[("deps", "1.0.0")], &[]);
    let b = profile("b", &[("deps", "2.0.0")], &[("x/y", "*")]);
    let merged = merge(&[a, b]);
    assert_eq!(merged.core.len(), 1);
    assert_eq!(merged.core.get("deps").unwrap().version_req(), "1.0.0");
    assert_eq!(merged.extra.len(), 1);
}

#[test]
fn version_requirement_defaults_to_any() {
    let d = SkillSpec::Detailed { version: None, path: None, git: None, rev: None };
    assert_eq!(d.version_req(), "*");
    let e = SkillSpec::Detailed { version: Some("1.2.0".into()), path: None, git: None, rev: None };
    assert_eq!(e.version_req(), "1.2.0");
}

#[test]
fn tier_lookup_prefers_core() {
    let a = profile("a", &[("rust/review", "*")], &[("rust/review", "*"), ("x/y", "*")]);
    let t = merge(&[a]);
    assert_eq!(tier_of(&t, &SkillId::parse("rust/review").unwrap()), Some(Tier::Core));
    assert_eq!(tier_of(&t, &SkillId::parse("x/y").unwrap()), Some(Tier::Extra));
    assert_eq!(tier_of(&t, &SkillId::parse("a/b").unwrap()), None);
}

#[test]
fn string_map_keeps_key_order() {
    let mut m: StrMap<u32> = StrMap::new();
    m.insert("b".into(), 2);
    m.insert("a".into(), 1);
    m.insert("b".into(), 3);
    assert_eq!(m.keys(), vec!["a", "b"]);
    assert_eq!(m.get("b"), Some(&3));
    assert_eq!(m.remove("a"), Some(1));
    assert!(!m.contains_key("a"));
    m.clear();
    assert_eq!(m.len(), 0);
}

#[test]
fn profile_update_decisions() {
    assert!(matches!(profile_update_step(None), Ok(ProfileUpdateStep::Skip)));
    match profile_update_step(Some("github:acme/profiles/rust.toml".into())) {
        Ok(ProfileUpdateStep::Refetch { source: Source::Github { repo, path, .. }, original }) => {
            assert_eq!(repo, "acme/profiles");
            assert_eq!(path.as_deref(), Some("rust.toml"));
            assert_eq!(original, "github:acme/profiles/rust.toml");
        }
        other => panic!("unexpected: {other:?}"),
    }
    assert!(profile_update_step(Some("github:".into())).is_err());
    assert_eq!(profile_toml_path("/tmp/p.toml", true, "").unwrap(), "/tmp/p.toml");
    match profile_toml_path("/tmp/dir", false, " path") {
        Err(skillctl::error::Error::Other(m)) => {
            assert_eq!(m, "profile source must be a .toml file path: /tmp/dir")
        }
        other => panic!("unexpected: {other:?}"),
    }
    let mut p = profile("upstream", &[("deps", "*")], &[]);
    keep_local_name(&mut p, "mine");
    assert_eq!(p.profile.name, "mine");
    assert_eq!(p.skills.core.len(), 1);
}
