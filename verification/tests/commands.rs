use skillctl::commands::add::{
    add_mode, catalog_tsv, copy_skips, install_id, locate_skill_md, registry_entry, AddMode,
    DiscoveredView,
};
use skillctl::commands::init::{check_fresh, init_manifest, project_name, resolve_bucket, Args as InitArgs};
use skillctl::commands::inspect::{audit, is_script, listed_resources};
use skillctl::commands::list::{
    apply_filters, global_listing, list_response, listing_tsv, project_first, project_listing,
    requirements_met,
    Args as ListArgs,
};
use skillctl::commands::remove::{check_version, split_version};
use skillctl::commands::use_cmd::{
    apply_add, apply_selection, apply_use, enabled_ids, mode, picker_candidates, resolve_arg_id,
    Args as UseArgs, UseMode,
};
use skillctl::commands::util::{ensure_trusted, trust_gate_enabled};
use skillctl::error::Error;
use skillctl::id::{Namespace, SkillId};
use skillctl::profile::SkillSpec;
use skillctl::skill::{BinaryReq, Frontmatter, Metadata, Requires};
use skillctl::source::{Fetched, Source};
use skillctl::store::{
    AgentConfig, GlobalEntry, GlobalStore, Lock, Manifest, ManifestSkills, ProjectMeta, RegistryLock,
};
use skillctl::strmap::StrMap;
use skillctl::types::Tier;

fn entry(id: &str, version: &str) -> GlobalEntry {
    let (ns, name) = id.split_once('/').unwrap_or(("", id));
    GlobalEntry {
        id: id.into(),
        namespace: ns.into(),
        name: name.into(),
        version: version.into(),
        source: "local".into(),
        local_path: Some("/src".into()),
        repo: None,
        commit: None,
        checksum: "sha256:00".into(),
        summary: format!("about {id}"),
        triggers: vec!["t1".into(), "t2".into()],
        languages: vec!["rust".into()],
        tags: vec!["review".into()],
    }
}

fn registry(ids: &[&str]) -> RegistryLock {
    let mut r = RegistryLock::new();
    for id in ids {
        r.skills.insert(id.to_string(), entry(id, "1.0.0"));
    }
    r
}

fn empty_manifest() -> Manifest {
    Manifest {
        project: ProjectMeta { name: "p".into(), started_from: vec![], linked_to: vec![] },
        skills: ManifestSkills::new(),
        agent: AgentConfig::default(),
    }
}

fn use_args(ids: &[&str], remove: bool, clear: bool, core: bool) -> UseArgs {
    UseArgs { ids: ids.iter().map(|s| s.to_string()).collect(), add: false, remove, clear, core }
}

#[test]
fn use_enables_disables_and_clears() {
    let reg = registry(&["rust/review", "tools/deps"]);
    let mut m = empty_manifest();
    let mut lock = Lock::new();
    apply_use(&use_args(&["review"], false, false, true), &mut m, &mut lock, &reg).unwrap();
    apply_use(&use_args(&["tools/deps"], false, false, false), &mut m, &mut lock, &reg).unwrap();
    assert_eq!(enabled_ids(&m), vec!["rust/review", "tools/deps"]);
    assert!(m.skills.core.contains_key("rust/review"));
    assert!(m.skills.extra.contains_key("tools/deps"));
    let le = lock.skills.get("rust/review").unwrap();
    assert_eq!(le.global_ref.as_deref(), Some("rust/review@1.0.0"));
    assert_eq!(le.source, "global");
    assert_eq!(le.tier, Tier::Core);
    // moving a skill between tiers
    apply_use(&use_args(&["rust/review"], false, false, false), &mut m, &mut lock, &reg).unwrap();
    assert!(!m.skills.core.contains_key("rust/review"));
    assert!(m.skills.extra.contains_key("rust/review"));
    apply_use(&use_args(&["deps"], true, false, false), &mut m, &mut lock, &reg).unwrap();
    assert_eq!(enabled_ids(&m), vec!["rust/review"]);
    assert!(lock.skills.get("tools/deps").is_none());
    apply_use(&use_args(&[], false, true, false), &mut m, &mut lock, &reg).unwrap();
    assert!(enabled_ids(&m).is_empty());
    assert_eq!(lock.skills.len(), 0);
}

#[test]
fn use_refuses_unknown_and_ambiguous() {
    let reg = registry(&["a/deps", "b/deps"]);
    let mut m = empty_manifest();
    let mut lock = Lock::new();
    match apply_use(&use_args(&["deps"], false, false, false), &mut m, &mut lock, &reg) {
        Err(Error::AmbiguousSkillName { name, matches }) => {
            assert_eq!(name, "deps");
            assert_eq!(matches, vec!["a/deps", "b/deps"]);
        }
        other => panic!("unexpected {other:?}"),
    }
    match apply_use(&use_args(&["x/y"], false, false, false), &mut m, &mut lock, &reg) {
        Err(Error::SkillNotFound(msg)) => assert_eq!(msg, "x/y (run `skillctl add` first)"),
        other => panic!("unexpected {other:?}"),
    }
    match resolve_arg_id("nothing", &reg) {
        Err(Error::SkillNotFound(msg)) => assert_eq!(msg, "nothing"),
        other => panic!("unexpected {other:?}"),
    }
    assert!(matches!(apply_add(&mut m, &mut lock, &reg, "q/q", Tier::Core), Err(Error::SkillNotFound(_))));
}

#[test]
fn use_modes() {
    assert_eq!(mode(&use_args(&[], false, false, false)), UseMode::Picker);
    assert_eq!(mode(&use_args(&[], false, true, false)), UseMode::Clear);
    assert_eq!(mode(&use_args(&["a"], true, false, false)), UseMode::Remove);
    assert_eq!(mode(&use_args(&["a"], false, false, true)), UseMode::Add(Tier::Core));
    assert_eq!(mode(&use_args(&["a"], false, false, false)), UseMode::Add(Tier::Extra));
}

#[test]
fn picker_candidates_and_selection() {
    let reg = registry(&["zz/one", "aa/two", "Bad/id"]);
    let mut m = empty_manifest();
    let mut lock = Lock::new();
    apply_add(&mut m, &mut lock, &reg, "zz/one", Tier::Core).unwrap();
    let cs = picker_candidates(&m, &reg).unwrap();
    let ids: Vec<String> = cs.iter().map(|c| c.id.to_string()).collect();
    assert_eq!(ids, vec!["aa/two", "zz/one"]);
    assert_eq!(cs[1].tier, Some(Tier::Core));
    assert!(cs[1].enabled && !cs[0].enabled);
    let core = vec![SkillId::parse("aa/two").unwrap()];
    let extra = vec![SkillId::parse("zz/one").unwrap()];
    apply_selection(&mut m, &mut lock, &reg, &core, &extra).unwrap();
    assert!(m.skills.core.contains_key("aa/two"));
    assert!(m.skills.extra.contains_key("zz/one"));
    assert!(matches!(picker_candidates(&m, &RegistryLock::new()), Err(Error::Other(_))));
}

#[test]
fn init_resolves_profile_buckets() {
    let reg = registry(&["rust/review", "tools/deps"]);
    let mut src = StrMap::new();
    src.insert("deps".to_string(), SkillSpec::Version("*".into()));
    src.insert("rust/review".to_string(), SkillSpec::Version("1.0.0".into()));
    let mut dst = StrMap::new();
    let mut ids = Vec::new();
    let mut lock = Lock::new();
    resolve_bucket(&src, &mut dst, &mut ids, &mut lock, &reg, Tier::Core).unwrap();
    assert_eq!(ids, vec!["tools/deps", "rust/review"]);
    assert!(dst.contains_key("tools/deps"));
    assert_eq!(lock.skills.get("rust/review").unwrap().tier, Tier::Core);

    let mut bad = StrMap::new();
    bad.insert("rust/review".to_string(), SkillSpec::Version("2.0.0".into()));
    match resolve_bucket(&bad, &mut dst, &mut ids, &mut lock, &reg, Tier::Extra) {
        Err(Error::Other(m)) => assert_eq!(
            m,
            "version mismatch for rust/review: requested `2.0.0`, installed `1.0.0`"
        ),
        other => panic!("unexpected {other:?}"),
    }
    let mut missing = StrMap::new();
    missing.insert("ghost".to_string(), SkillSpec::Version("*".into()));
    match resolve_bucket(&missing, &mut dst, &mut ids, &mut lock, &reg, Tier::Extra) {
        Err(Error::SkillNotFound(m)) => {
            assert_eq!(m, "ghost (not in global store; run `skillctl add` first)")
        }
        other => panic!("unexpected {other:?}"),
    }
}

#[test]
fn init_manifest_and_name() {
    let args = InitArgs { profiles: vec!["rust-cli".into()], link: true, force: false, suggest: false };
    let m = init_manifest(project_name("/work/my-app"), &args, ManifestSkills::new());
    assert_eq!(m.project.name, "my-app");
    assert_eq!(m.project.linked_to, vec!["rust-cli"]);
    assert!(m.agent.enabled);
    assert_eq!(project_name("/"), "skillctl-project");
    assert!(check_fresh(true, false, "/w/skillctl.toml").is_err());
    assert!(check_fresh(true, true, "/w/skillctl.toml").is_ok());
}

fn listed_manifest() -> (Manifest, Lock) {
    let reg = registry(&["rust/review", "tools/deps"]);
    let mut m = empty_manifest();
    let mut lock = Lock::new();
    apply_add(&mut m, &mut lock, &reg, "rust/review", Tier::Core).unwrap();
    m.skills.extra.insert("tools/deps".into(), SkillSpec::Version("*".into()));
    (m, lock)
}

#[test]
fn lists_project_and_global_catalogs() {
    let (m, lock) = listed_manifest();
    let listed = project_listing(&m, &lock, &vec![true, true]).unwrap();
    assert_eq!(listed.len(), 2);
    assert_eq!(listed[0].id, "rust/review");
    assert_eq!(listed[0].version, "1.0.0");
    assert_eq!(listed[1].version, "*");
    assert_eq!(listed[1].name, "deps");
    assert_eq!(listed[1].tier, Tier::Extra);
    let reg = registry(&["b/b", "a/a"]);
    let global = global_listing(&reg);
    assert_eq!(global[0].id, "a/a");
    assert_eq!(global[1].tier, Tier::Extra);
    let resp = list_response("global", global);
    assert_eq!(resp.count, 2);
    assert_eq!(resp.protocol, 1);
}

#[test]
fn list_filters_and_tsv() {
    let (m, lock) = listed_manifest();
    let mut listed = project_listing(&m, &lock, &vec![true, true]).unwrap();
    apply_filters(&mut listed, Some("rust"), None);
    assert_eq!(listed.len(), 1);
    apply_filters(&mut listed, None, Some("nope"));
    assert!(listed.is_empty());
    let all = project_listing(&m, &lock, &vec![true, true]).unwrap();
    let lines = listing_tsv(&all);
    assert_eq!(lines[0], "TIER\tID\tSUMMARY\tTRIGGERS");
    assert_eq!(lines[1], "core\trust/review\tabout rust/review\tt1,t2");
    assert_eq!(lines[2], "extra\ttools/deps\t\t");
    let a = ListArgs { global: false, project: false, lang: None, tag: None };
    assert!(project_first(&a, true));
    assert!(!project_first(&a, false));
}

#[test]
fn project_listing_refuses_bad_ids() {
    let mut m = empty_manifest();
    m.skills.core.insert("Bad".into(), SkillSpec::Version("*".into()));
    assert!(matches!(project_listing(&m, &Lock::new(), &vec![false]), Err(Error::InvalidSkillId(_))));
}

fn metadata(namespace: Option<&str>) -> Metadata {
    Metadata {
        namespace: namespace.map(|n| Namespace::parse(n).unwrap()),
        summary: None,
        triggers: vec![],
        languages: vec![],
        tags: vec!["x".into()],
        author: None,
        homepage: None,
        requires: Requires { binaries: vec![], env: vec![], runtimes: vec![] },
    }
}

#[test]
fn add_decisions() {
    assert_eq!(add_mode("/r", true, 0, false).unwrap(), AddMode::Single);
    assert_eq!(add_mode("/r", false, 2, true).unwrap(), AddMode::Bulk);
    assert_eq!(add_mode("/r", false, 2, false).unwrap(), AddMode::Discover);
    match add_mode("/r", false, 0, false) {
        Err(Error::Other(m)) => assert_eq!(m, "no SKILL.md found at /r or in skills/*/"),
        other => panic!("unexpected {other:?}"),
    }
    let fm = Frontmatter {
        name: "review".into(),
        version: "1.2.0".into(),
        description: "Reviews".into(),
        metadata: metadata(Some("rust")),
        license: None,
        compatibility: None,
    };
    assert_eq!(install_id(None, &fm).unwrap().to_string(), "rust/review");
    assert_eq!(install_id(Some("x/y"), &fm).unwrap().to_string(), "x/y");
    let bare = Frontmatter { metadata: metadata(None), ..fm };
    match install_id(None, &bare) {
        Err(Error::Other(m)) => {
            assert_eq!(m, "metadata.namespace missing for `review`; pass --as <namespace/name>")
        }
        other => panic!("unexpected {other:?}"),
    }
    let fetched = Fetched { root: "/src".into(), commit: None, source_kind: "local".into(), repo: None };
    let id = SkillId::parse("rust/review").unwrap();
    let e = registry_entry(&id, &bare, &Source::Local { path: "./src".into() }, &fetched, "sha256:ab");
    assert_eq!(e.id, "rust/review");
    assert_eq!(e.local_path.as_deref(), Some("./src"));
    assert_eq!(e.summary, "Reviews");
    assert!(copy_skips(".git/config") && copy_skips("SKILL.md") && !copy_skips("docs/a.md"));
    assert_eq!(locate_skill_md("/r", false, true).unwrap(), "/r/SKILL.md");
    assert!(locate_skill_md("/r", false, false).is_err());
}

#[test]
fn catalog_lines() {
    let views = vec![DiscoveredView {
        name: "a\tb".into(),
        namespace: None,
        path: "skills/a".into(),
        version: "1".into(),
        description: "d".repeat(90),
    }];
    let lines = catalog_tsv(&views);
    assert_eq!(lines[0], "NAME\tNAMESPACE\tPATH\tDESCRIPTION");
    assert_eq!(lines[1], format!("a b\t\tskills/a\t{}…", "d".repeat(79)));
}

#[test]
fn inspect_audit() {
    let reqs = Requires {
        binaries: vec![BinaryReq { name: "cargo".into(), version: Some(">=1.80".into()) }],
        env: vec!["TOKEN".into()],
        runtimes: vec![],
    };
    let files = vec!["b.SH".to_string(), "SKILL.md".to_string(), "a.md".to_string()];
    let a = audit(&reqs, &files);
    assert_eq!(a.risk_class, "script");
    assert_eq!(a.resources, vec!["a.md", "b.SH"]);
    assert_eq!(a.findings.len(), 3);
    assert_eq!(a.findings[0].detail, "cargo >=1.80");
    assert_eq!(a.findings[1].detail, "requires env var: TOKEN");
    assert_eq!(a.findings[2].kind, "scripts_present");
    let quiet = audit(&Requires { binaries: vec![], env: vec![], runtimes: vec![] }, &vec![]);
    assert_eq!(quiet.risk_class, "instruction-only");
    assert!(is_script("run.py") && !is_script("notes.txt"));
    assert_eq!(listed_resources(&vec!["meta.json".to_string(), "z".to_string()]), vec!["z"]);
}

#[test]
fn remove_arguments() {
    assert_eq!(split_version("rust/review@1.2.0"), ("rust/review".to_string(), Some("1.2.0".to_string())));
    assert_eq!(split_version("review"), ("review".to_string(), None));
    match check_version("rust/review", "1.0.0", Some("2.0.0")) {
        Err(Error::SkillNotFound(m)) => assert_eq!(m, "rust/review@2.0.0"),
        other => panic!("unexpected {other:?}"),
    }
    assert!(check_version("rust/review", "1.0.0", Some("1.0.0")).is_ok());
}

#[test]
fn trust_gate() {
    assert!(trust_gate_enabled(Some("1")) && trust_gate_enabled(Some("true")));
    assert!(!trust_gate_enabled(Some("yes")) && !trust_gate_enabled(None));
    assert!(ensure_trusted(false, false, "/p").is_ok());
    match ensure_trusted(true, false, "/p") {
        Err(Error::UntrustedProject(p)) => assert_eq!(p, "/p"),
        other => panic!("unexpected {other:?}"),
    }
    let _ = GlobalStore { root: "/g".into() };
}

#[test]
fn unavailable_skills_are_left_out_of_the_catalog() {
    let (m, lock) = listed_manifest();
    let listed = project_listing(&m, &lock, &vec![false, true]).unwrap();
    assert_eq!(listed.len(), 1);
    assert_eq!(listed[0].id, "tools/deps");
    let resp = list_response("project", listed);
    assert_eq!(resp.count, 1);
    assert!(project_listing(&m, &lock, &vec![false, false]).unwrap().is_empty());
}

#[test]
fn requirements_met_needs_every_binary_and_variable() {
    let reqs = skillctl::skill::Requires {
        binaries: vec![skillctl::skill::BinaryReq { name: "cargo".into(), version: None }],
        env: vec!["TOKEN".into()],
        runtimes: vec![],
    };
    assert!(requirements_met(&reqs, &vec![Some("/bin/cargo".into())], &vec![true]));
    assert!(!requirements_met(&reqs, &vec![None], &vec![true]));
    assert!(!requirements_met(&reqs, &vec![Some("/bin/cargo".into())], &vec![false]));
}

#[test]
fn project_name_is_the_last_component() {
    assert_eq!(project_name("/a/b"), "b");
    assert_eq!(project_name("/a/b/"), "b");
    assert_eq!(project_name("/a/.."), "skillctl-project");
    assert_eq!(project_name(""), "skillctl-project");
}
