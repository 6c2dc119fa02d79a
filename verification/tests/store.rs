use skillctl::digest::{checksum_matches, checksum_text, sha256_hex};
use skillctl::error::Error;
use skillctl::id::SkillId;
use skillctl::profile::SkillSpec;
use skillctl::store::{
    discover_step, DiscoverStep,
    path_join, registry_name_matches, with_trusted,
    without_trusted, AgentConfig, GlobalEntry, GlobalStore, Manifest, ManifestSkills, ProjectMeta,
    ProjectStore, RegistryLock, TrustedList,
};
use skillctl::types::Tier;

fn manifest(core: &[&str], extra: &[&str]) -> Manifest {
    let mut skills = ManifestSkills::new();
    for k in core {
        skills.core.insert(k.to_string(), SkillSpec::Version("*".into()));
    }
    for k in extra {
        skills.extra.insert(k.to_string(), SkillSpec::Version("*".into()));
    }
    Manifest {
        project: ProjectMeta { name: "p".into(), started_from: vec![], linked_to: vec![] },
        skills,
        agent: AgentConfig::default(),
    }
}

pub fn entry(id: &str, version: &str) -> GlobalEntry {
    let (ns, name) = id.split_once('/').unwrap_or(("", id));
    GlobalEntry {
        id: id.into(),
        namespace: ns.into(),
        name: name.into(),
        version: version.into(),
        source: "local".into(),
        local_path: Some("/src".into()),
        repo: None,
        commit: None,
        checksum: "sha256:00".into(),
        summary: format!("about {id}"),
        triggers: vec![],
        languages: vec![],
        tags: vec![],
    }
}

fn registry(ids: &[&str]) -> RegistryLock {
    let mut r = RegistryLock::new();
    for id in ids {
        r.skills.insert(id.to_string(), entry(id, "1.0.0"));
    }
    r
}

#[test]
fn resolves_project_skills() {
    let store = ProjectStore::at("/p".into());
    let m = manifest(&["rust/review"], &["tools/deps", "js/deps"]);
    assert_eq!(store.resolve_skill(&m, "rust/review").unwrap(), ("rust/review".into(), Tier::Core));
    assert_eq!(store.resolve_skill(&m, "review").unwrap(), ("rust/review".into(), Tier::Core));
    match store.resolve_skill(&m, "deps") {
        Err(Error::AmbiguousSkillName { name, matches }) => {
            assert_eq!(name, "deps");
            assert_eq!(matches, vec!["js/deps", "tools/deps"]);
        }
        other => panic!("unexpected {other:?}"),
    }
    match store.resolve_skill(&m, "a/b") {
        Err(Error::SkillNotFound(m)) => assert_eq!(m, "a/b"),
        other => panic!("unexpected {other:?}"),
    }
    match store.resolve_skill(&m, "nothing") {
        Err(Error::SkillNotFound(m)) => assert_eq!(m, "nothing"),
        other => panic!("unexpected {other:?}"),
    }
}

#[test]
fn resolves_short_names_in_registry() {
    let g = GlobalStore { root: "/home/u/.skillctl".into() };
    let reg = registry(&["rust/review", "tools/deps", "js/deps"]);
    assert_eq!(g.resolve_short(&reg, "review").unwrap().to_string(), "rust/review");
    assert_eq!(g.resolve_short(&reg, "x/y").unwrap().to_string(), "x/y");
    match g.resolve_short(&reg, "deps") {
        Err(Error::AmbiguousSkillName { matches, .. }) => {
            assert_eq!(matches, vec!["js/deps", "tools/deps"])
        }
        other => panic!("unexpected {other:?}"),
    }
    assert!(matches!(g.resolve_short(&reg, "zzz"), Err(Error::SkillNotFound(_))));
    assert_eq!(registry_name_matches(&reg, "deps"), vec!["js/deps", "tools/deps"]);
}

#[test]
fn store_paths() {
    let g = GlobalStore { root: "/h/.skillctl".into() };
    let id = SkillId::parse("rust/review").unwrap();
    assert_eq!(g.skill_md(&id, "1.2.0"), "/h/.skillctl/skills/rust/review/1.2.0/SKILL.md");
    assert_eq!(g.profile_path("rust-cli"), "/h/.skillctl/profiles/rust-cli.toml");
    assert_eq!(g.registry_lock_path(), "/h/.skillctl/registry.lock");
    assert_eq!(g.trusted_path(), "/h/.skillctl/trusted.json");
    let p = ProjectStore::at("/w/".into());
    assert_eq!(p.manifest_path(), "/w/skillctl.toml");
    assert_eq!(p.index_path(), "/w/.skillctl/project-index.json");
    assert_eq!(path_join("/a", "/b"), "/b");
    assert_eq!(path_join("", "b"), "b");
}

#[test]
fn iter_skills_lists_core_first() {
    let m = manifest(&["b/b", "a/a"], &["c/c"]);
    let flat = m.iter_skills();
    let ids: Vec<&str> = flat.iter().map(|(k, _, _)| k.as_str()).collect();
    assert_eq!(ids, vec!["a/a", "b/b", "c/c"]);
    assert_eq!(flat[2].2, Tier::Extra);
}

#[test]
fn checksums() {
    assert_eq!(
        sha256_hex(b""),
        "sha256:e3b0c44298fc1c149afbf4c8996fb92427ae41e4649b934ca495991b7852b855"
    );
    assert_eq!(
        sha256_hex(b"abc"),
        "sha256:ba7816bf8f01cfea414140de5dae2223b00361a396177a9cb410ff61f20015ad"
    );
    assert_eq!(checksum_text(&[0x00, 0xab, 0x0f]), "sha256:00ab0f");
    assert!(checksum_matches(b"abc", &sha256_hex(b"abc")));
    assert!(!checksum_matches(b"abd", &sha256_hex(b"abc")));
}

#[test]
fn paths_sort_component_wise() {
    let list = TrustedList { projects: vec!["/a-b".to_string(), "/a".to_string()] };
    let canons = vec!["/a-b".to_string(), "/a".to_string()];
    let added = with_trusted(&list, &canons, "/a/b").unwrap();
    assert_eq!(added.projects, vec!["/a", "/a/b", "/a-b"]);
}

#[test]
fn trust_list_updates() {
    let list = TrustedList { projects: vec!["/z".into(), "/b".into()] };
    let canons = vec!["/z".to_string(), "/b".to_string()];
    let added = with_trusted(&list, &canons, "/m").unwrap();
    assert_eq!(added.projects, vec!["/b", "/m", "/z"]);
    assert!(with_trusted(&list, &canons, "/b").is_none());
    let removed = without_trusted(&list, &canons, "/z").unwrap();
    assert_eq!(removed.projects, vec!["/b"]);
    assert!(without_trusted(&list, &canons, "/q").is_none());
}

#[test]
fn discovery_steps_up_to_the_manifest() {
    assert!(matches!(discover_step("/w/p", true), DiscoverStep::Found(p) if p.root == "/w/p"));
    assert!(matches!(discover_step("/w/p/a", false), DiscoverStep::Up(q) if q == "/w/p"));
    assert!(matches!(discover_step("/", false), DiscoverStep::NotFound));
}
