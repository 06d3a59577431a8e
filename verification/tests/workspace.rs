use prek_workspace::config::{Config, ConfigLoad, HookPatch, CONFIG_FILE};
use prek_workspace::error::Error;
use prek_workspace::path::FsPath;
use prek_workspace::walk::{FsDir, FsEntry, Selectors};
use prek_workspace::workspace::{ConfigSource, Workspace};

fn path(segs: &[&str]) -> FsPath {
    FsPath::from_segments(segs.iter().map(|s| s.to_string()).collect())
}

fn empty_patch() -> HookPatch {
    HookPatch { name: None, entry: None, language: None, verbose: None }
}

fn empty_config() -> Config {
    Config { repos: Vec::new(), defaults: empty_patch() }
}

fn config_file() -> FsEntry {
    FsEntry::File { name: CONFIG_FILE.to_string(), load: ConfigLoad::Found(empty_config()) }
}

fn dir(name: &str, entries: Vec<FsEntry>) -> FsEntry {
    FsEntry::Dir { name: name.to_string(), dir: FsDir { entries } }
}

/// The workspace tree used by several tests: a configuration file at the
/// root, in `project2`, in `project3`, in `project3/project5` and in
/// `nested/project4`.
fn sample_tree() -> FsDir {
    FsDir {
        entries: vec![
            config_file(),
            dir("project2", vec![config_file()]),
            dir(
                "project3",
                vec![config_file(), dir("project5", vec![config_file()])],
            ),
            dir("nested", vec![dir("project4", vec![config_file()])]),
        ],
    }
}

fn rel_segments(w: &Workspace, i: usize) -> Vec<String> {
    w.projects()[i].relative_path().segments.clone()
}

#[test]
fn basic_discovery() {
    let ws = Workspace::discover(FsPath::new(), None, sample_tree(), None).unwrap();
    assert_eq!(ws.projects().len(), 5);

    // Deepest first; equal depths ordered by relative path ascending.
    assert_eq!(rel_segments(&ws, 0), vec!["nested".to_string(), "project4".to_string()]);
    assert_eq!(rel_segments(&ws, 1), vec!["project3".to_string(), "project5".to_string()]);
    assert_eq!(rel_segments(&ws, 2), vec!["project2".to_string()]);
    assert_eq!(rel_segments(&ws, 3), vec!["project3".to_string()]);
    assert_eq!(rel_segments(&ws, 4), Vec::<String>::new());

    for (i, project) in ws.projects().iter().enumerate() {
        assert_eq!(project.idx(), i);
    }
    assert_eq!(ws.projects()[0].depth(), 3);
    assert_eq!(ws.projects()[2].depth(), 2);
    assert_eq!(ws.projects()[4].depth(), 1);

    // Running from a subdirectory: the workspace root is found upward, and
    // discovery under it sees only that subtree.
    let root =
        Workspace::find_root(None, &path(&["project3", "project5"]), &sample_tree()).unwrap();
    assert_eq!(root.segments, vec!["project3".to_string(), "project5".to_string()]);

    let subtree = FsDir { entries: vec![config_file(), dir("project5", vec![config_file()])] };
    let ws3 = Workspace::discover(path(&["project3"]), None, subtree, None).unwrap();
    assert_eq!(ws3.projects().len(), 2);
    assert_eq!(rel_segments(&ws3, 0), vec!["project5".to_string()]);
    assert_eq!(ws3.projects()[0].display_name(), "project5");
    assert_eq!(ws3.projects()[1].display_name(), ".");
}

#[test]
fn config_not_staged() {
    let ws = Workspace::discover(FsPath::new(), None, sample_tree(), None).unwrap();
    let files = ws.config_files();
    assert_eq!(files.len(), 5);

    // Nothing unstaged: the run may proceed.
    assert!(ws.check_configs_staged(Vec::new()).is_ok());

    // One unstaged file: the single-file message names it and the command.
    let one = vec![path(&["project2", CONFIG_FILE])];
    match ws.check_configs_staged(one) {
        Err(Error::NotStaged { message }) => {
            assert_eq!(
                message,
                "prek configuration file is not staged, run `git add \
                 project2/.pre-commit-config.yaml` to stage it"
            );
        }
        _ => panic!("expected the single-file staging error"),
    }

    // Several unstaged files: one listing, alphabetically sorted.
    match ws.check_configs_staged(files) {
        Err(Error::NotStaged { message }) => {
            assert_eq!(
                message,
                "The following configuration files are not staged, `git add` them first:\n  \
                 .pre-commit-config.yaml\n  nested/project4/.pre-commit-config.yaml\n  \
                 project2/.pre-commit-config.yaml\n  project3/.pre-commit-config.yaml\n  \
                 project3/project5/.pre-commit-config.yaml"
            );
        }
        _ => panic!("expected the multi-file staging error"),
    }
}

#[test]
fn discovery_is_deterministic() {
    let a = Workspace::discover(FsPath::new(), None, sample_tree(), None).unwrap();
    let b = Workspace::discover(FsPath::new(), None, sample_tree(), None).unwrap();
    assert_eq!(a.projects().len(), b.projects().len());
    for i in 0..a.projects().len() {
        assert!(a.projects()[i] == b.projects()[i]);
        assert_eq!(a.projects()[i].idx(), b.projects()[i].idx());
    }
}

#[test]
fn selector_prunes_whole_subtree() {
    // Selecting `project3` prunes `project2` and `nested` entirely, however
    // deeply configuration files are nested under them; the root itself is
    // never pruned.
    let selectors = Selectors { roots: vec![path(&["project3"])] };
    let ws = Workspace::discover(FsPath::new(), None, sample_tree(), Some(&selectors)).unwrap();
    assert_eq!(ws.projects().len(), 3);
    assert_eq!(rel_segments(&ws, 0), vec!["project3".to_string(), "project5".to_string()]);
    assert_eq!(rel_segments(&ws, 1), vec!["project3".to_string()]);
    assert_eq!(rel_segments(&ws, 2), Vec::<String>::new());

    // A selector deep inside a subtree still lets the walk reach it.
    let selectors = Selectors { roots: vec![path(&["nested", "project4", "further"])] };
    let ws = Workspace::discover(FsPath::new(), None, sample_tree(), Some(&selectors)).unwrap();
    assert_eq!(ws.projects().len(), 2);
    assert_eq!(rel_segments(&ws, 0), vec!["nested".to_string(), "project4".to_string()]);
}

#[test]
fn explicit_config_short_circuits() {
    let source = ConfigSource {
        path: path(&["somewhere", "custom.yaml"]),
        load: ConfigLoad::Found(empty_config()),
    };
    let ws = Workspace::discover(path(&["w"]), Some(source), FsDir { entries: vec![] }, None)
        .unwrap();
    assert_eq!(ws.projects().len(), 1);
    assert_eq!(ws.projects()[0].depth(), 0);
    assert_eq!(ws.projects()[0].idx(), 0);
    assert_eq!(
        ws.projects()[0].config_file().segments,
        vec!["somewhere".to_string(), "custom.yaml".to_string()]
    );
    assert_eq!(ws.projects()[0].path().segments, vec!["w".to_string()]);
}

#[test]
fn walk_aborts_on_malformed_config() {
    let tree = FsDir {
        entries: vec![
            config_file(),
            dir(
                "broken",
                vec![FsEntry::File {
                    name: CONFIG_FILE.to_string(),
                    load: ConfigLoad::Malformed,
                }],
            ),
        ],
    };
    match Workspace::discover(FsPath::new(), None, tree, None) {
        Err(Error::Config { path }) => {
            assert_eq!(
                path.segments,
                vec!["broken".to_string(), CONFIG_FILE.to_string()]
            );
        }
        _ => panic!("expected the configuration error"),
    }
}

#[test]
fn vanished_config_is_skipped() {
    let tree = FsDir {
        entries: vec![
            config_file(),
            dir(
                "gone",
                vec![FsEntry::File { name: CONFIG_FILE.to_string(), load: ConfigLoad::Missing }],
            ),
        ],
    };
    let ws = Workspace::discover(FsPath::new(), None, tree, None).unwrap();
    assert_eq!(ws.projects().len(), 1);
}

#[test]
fn empty_walk_is_missing_configuration() {
    let tree = FsDir { entries: vec![dir("src", vec![])] };
    match Workspace::discover(FsPath::new(), None, tree, None) {
        Err(Error::MissingPreCommitConfig) => {}
        _ => panic!("expected the missing-configuration error"),
    }
}

#[test]
fn find_root_searches_upward() {
    // No configuration anywhere on the way up: an error.
    let bare = FsDir { entries: vec![dir("a", vec![dir("b", vec![])])] };
    match Workspace::find_root(None, &path(&["a", "b"]), &bare) {
        Err(Error::MissingPreCommitConfig) => {}
        _ => panic!("expected the missing-configuration error"),
    }

    // The nearest ancestor with a configuration file wins.
    let tree = FsDir {
        entries: vec![config_file(), dir("a", vec![config_file(), dir("b", vec![])])],
    };
    let root = Workspace::find_root(None, &path(&["a", "b"]), &tree).unwrap();
    assert_eq!(root.segments, vec!["a".to_string()]);

    // With an explicit configuration file, the repository root is used.
    let explicit = path(&["x", "y.yaml"]);
    let root = Workspace::find_root(Some(&explicit), &path(&["a", "b"]), &tree).unwrap();
    assert_eq!(root.segments, Vec::<String>::new());
}
