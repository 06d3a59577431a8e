use std::rc::Rc;

use prek_workspace::config::{
    Config, HookPatch, HookRef, ManifestHook, MetaHook, RemoteRepoConfig, RepoConfig, CONFIG_FILE,
};
use prek_workspace::error::Error;
use prek_workspace::hook::{merge_patch, Repo};
use prek_workspace::path::FsPath;
use prek_workspace::project::Project;
use prek_workspace::resolve::ResolvedRemote;
use prek_workspace::workspace::Workspace;

fn path(segs: &[&str]) -> FsPath {
    FsPath::from_segments(segs.iter().map(|s| s.to_string()).collect())
}

fn patch(
    name: Option<&str>,
    entry: Option<&str>,
    language: Option<&str>,
    verbose: Option<bool>,
) -> HookPatch {
    HookPatch {
        name: name.map(|s| s.to_string()),
        entry: entry.map(|s| s.to_string()),
        language: language.map(|s| s.to_string()),
        verbose,
    }
}

fn manifest_hook(id: &str, name: Option<&str>, entry: Option<&str>) -> ManifestHook {
    ManifestHook { id: id.to_string(), info: patch(name, entry, None, None) }
}

fn hook_ref(id: &str, over: HookPatch) -> HookRef {
    HookRef { id: id.to_string(), patch: over }
}

fn remote_entry(url: &str, rev: &str, refs: Vec<HookRef>) -> RepoConfig {
    RepoConfig::Remote(RemoteRepoConfig { url: url.to_string(), rev: rev.to_string(), hooks: refs })
}

fn project_at(rel: &[&str], depth: usize, config: Config) -> Project {
    let mut config_path = path(rel);
    config_path.push(CONFIG_FILE.to_string());
    let mut p = Project::from_config_file(config_path, None, config);
    p.with_relative_path(path(rel));
    p.with_depth(depth);
    p
}

fn resolved(url: &str, rev: &str, manifest: Vec<ManifestHook>) -> ResolvedRemote {
    ResolvedRemote {
        url: url.to_string(),
        rev: rev.to_string(),
        path: format!("store/{rev}"),
        manifest,
    }
}

const URL: &str = "https://example.com/hooks";

#[test]
fn merge_precedence() {
    // Base sets name, entry and verbose; the override sets entry and
    // verbose; the project-wide default sets name, entry and language.
    let base = patch(Some("Base"), Some("base-entry"), None, Some(false));
    let over = patch(None, Some("over-entry"), None, Some(true));
    let deflt = patch(Some("Default"), Some("default-entry"), Some("python"), None);
    let merged = merge_patch(&base, &over, &deflt);
    // Override first, then the default, then the base.
    assert_eq!(merged.entry.as_deref(), Some("over-entry"));
    assert_eq!(merged.verbose, Some(true));
    assert_eq!(merged.name.as_deref(), Some("Default"));
    assert_eq!(merged.language.as_deref(), Some("python"));

    // With nothing overriding, the base value holds.
    let merged = merge_patch(&base, &patch(None, None, None, None), &patch(None, None, None, None));
    assert_eq!(merged.name.as_deref(), Some("Base"));
    assert_eq!(merged.entry.as_deref(), Some("base-entry"));
    assert_eq!(merged.language, None);
    assert_eq!(merged.verbose, Some(false));
}

#[test]
fn remote_repos_are_fetched_once_and_shared() {
    // Three declarations of the same (url, rev) across two projects, plus a
    // distinct revision: two fetches, and one shared instance per identity.
    let p1 = project_at(
        &["a"],
        2,
        Config {
            repos: vec![
                remote_entry(URL, "v1", vec![hook_ref("fmt", patch(None, None, None, None))]),
                remote_entry(URL, "v2", vec![hook_ref("fmt", patch(None, None, None, None))]),
                remote_entry(URL, "v1", vec![hook_ref("lint", patch(None, None, None, None))]),
            ],
            defaults: patch(None, None, None, None),
        },
    );
    let p2 = project_at(
        &["b"],
        2,
        Config {
            repos: vec![remote_entry(URL, "v1", vec![
                hook_ref("fmt", patch(None, None, None, None)),
            ])],
            defaults: patch(None, None, None, None),
        },
    );
    let mut ws = Workspace { root: FsPath::new(), projects: vec![p1, p2] };

    let ids = ws.remote_identities();
    assert_eq!(ids.len(), 2);
    assert_eq!(ids[0].url, URL);
    assert_eq!(ids[0].rev, "v1");
    assert_eq!(ids[1].rev, "v2");

    let manifest = vec![manifest_hook("fmt", Some("Format"), Some("run-fmt")),
        manifest_hook("lint", Some("Lint"), Some("run-lint"))];
    let fetched: Vec<ResolvedRemote> =
        ids.iter().map(|id| resolved(&id.url, &id.rev, manifest.clone())).collect();
    ws.init_repos(fetched);

    let repos1 = &ws.projects()[0].repos;
    let repos2 = &ws.projects()[1].repos;
    // Same identity: the very same instance, across entries and projects.
    assert!(Rc::ptr_eq(&repos1[0], &repos1[2]));
    assert!(Rc::ptr_eq(&repos1[0], &repos2[0]));
    // A different revision is a different fetch.
    assert!(!Rc::ptr_eq(&repos1[0], &repos1[1]));
}

#[test]
fn hook_not_found_aborts_project() {
    let config = Config {
        repos: vec![
            remote_entry(URL, "v1", vec![hook_ref("missing-hook", patch(None, None, None, None))]),
            RepoConfig::Local { hooks: vec![manifest_hook("later", None, None)] },
        ],
        defaults: patch(None, None, None, None),
    };
    let mut p = project_at(&[], 1, config);
    let fetched = vec![resolved(URL, "v1", vec![manifest_hook("fmt", None, None)])];
    match p.init_hooks(fetched) {
        Err(Error::HookNotFound { hook, repo }) => {
            assert_eq!(hook, "missing-hook");
            assert_eq!(repo, URL);
        }
        _ => panic!("expected the hook-not-found error"),
    }
}

#[test]
fn global_indices_follow_project_then_declaration_order() {
    let p1 = project_at(
        &["deep"],
        2,
        Config {
            repos: vec![RepoConfig::Local {
                hooks: vec![
                    manifest_hook("one", None, Some("run-one")),
                    manifest_hook("two", None, Some("run-two")),
                ],
            }],
            defaults: patch(None, None, None, None),
        },
    );
    let p2 = project_at(
        &[],
        1,
        Config {
            repos: vec![RepoConfig::Local { hooks: vec![manifest_hook("three", None, None)] }],
            defaults: patch(None, None, None, None),
        },
    );
    let mut ws = Workspace { root: FsPath::new(), projects: vec![p1, p2] };
    let hooks = ws.init_hooks(Vec::new()).unwrap();
    assert_eq!(hooks.len(), 3);
    for (i, h) in hooks.iter().enumerate() {
        assert_eq!(h.idx, i);
    }
    assert_eq!(hooks[0].id, "one");
    assert_eq!(hooks[1].id, "two");
    assert_eq!(hooks[2].id, "three");
    assert_eq!(hooks[0].scope.segments, vec!["deep".to_string()]);
    assert_eq!(hooks[2].scope.segments, Vec::<String>::new());
}

#[test]
fn remote_hooks_merge_all_three_layers() {
    let config = Config {
        repos: vec![remote_entry(URL, "v1", vec![hook_ref(
            "fmt",
            patch(None, Some("custom-entry"), None, None),
        )])],
        defaults: patch(None, None, Some("rust"), Some(true)),
    };
    let mut p = project_at(&[], 1, config);
    let fetched = vec![resolved(URL, "v1", vec![
        manifest_hook("fmt", Some("Format"), Some("manifest-entry")),
    ])];
    let hooks = p.init_hooks(fetched).unwrap();
    assert_eq!(hooks.len(), 1);
    let h = &hooks[0];
    assert_eq!(h.id, "fmt");
    assert_eq!(h.info.entry.as_deref(), Some("custom-entry"));
    assert_eq!(h.info.name.as_deref(), Some("Format"));
    assert_eq!(h.info.language.as_deref(), Some("rust"));
    assert_eq!(h.info.verbose, Some(true));
    match h.repo.as_ref() {
        Repo::Remote { url, rev, .. } => {
            assert_eq!(url, URL);
            assert_eq!(rev, "v1");
        }
        _ => panic!("expected a remote repository"),
    }
}

#[test]
fn meta_hooks_are_normalized_before_merging() {
    let config = Config {
        repos: vec![RepoConfig::Meta {
            hooks: vec![MetaHook { id: "check-added".to_string(), name: "Check added".to_string() }],
        }],
        defaults: patch(None, Some("builtin"), None, None),
    };
    let mut p = project_at(&[], 1, config);
    let hooks = p.init_hooks(Vec::new()).unwrap();
    assert_eq!(hooks.len(), 1);
    assert_eq!(hooks[0].id, "check-added");
    assert_eq!(hooks[0].info.name.as_deref(), Some("Check added"));
    assert_eq!(hooks[0].info.entry.as_deref(), Some("builtin"));
    match hooks[0].repo.as_ref() {
        Repo::Meta { hooks } => assert_eq!(hooks.len(), 1),
        _ => panic!("expected the built-in repository"),
    }
}

#[test]
fn get_hook_returns_first_match() {
    let repo = Repo::remote(
        URL.to_string(),
        "v1".to_string(),
        "store/v1".to_string(),
        vec![
            manifest_hook("fmt", Some("First"), None),
            manifest_hook("fmt", Some("Second"), None),
        ],
    );
    let found = repo.get_hook(&"fmt".to_string()).unwrap();
    assert_eq!(found.info.name.as_deref(), Some("First"));
    assert!(repo.get_hook(&"absent".to_string()).is_none());
    assert_eq!(repo.name(), URL);
    assert_eq!(Repo::local(Vec::new()).name(), "local");
    assert_eq!(Repo::meta(Vec::new()).name(), "meta");
}

#[test]
fn project_identity_is_the_config_path() {
    let a = project_at(&["x"], 2, Config { repos: vec![], defaults: patch(None, None, None, None) });
    let mut b =
        project_at(&["x"], 2, Config { repos: vec![], defaults: patch(None, None, None, None) });
    b.with_idx(7);
    b.with_depth(9);
    assert!(a == b);
    let c = project_at(&["y"], 2, Config { repos: vec![], defaults: patch(None, None, None, None) });
    assert!(a != c);
}
