use prek_workspace::config::{Config, ConfigLoad, HookPatch, CONFIG_FILE};
use prek_workspace::error::Error;
use prek_workspace::path::FsPath;
use prek_workspace::project::Project;
use prek_workspace::strings::str_eq;
use prek_workspace::walk::{FsDir, FsEntry, Selectors};
use prek_workspace::workspace::ConfigSource;

fn path(segs: &[&str]) -> FsPath {
    FsPath::from_segments(segs.iter().map(|s| s.to_string()).collect())
}

fn empty_config() -> Config {
    Config {
        repos: Vec::new(),
        defaults: HookPatch { name: None, entry: None, language: None, verbose: None },
    }
}

#[test]
fn string_equality_and_order() {
    assert!(str_eq("abc", "abc"));
    assert!(!str_eq("abc", "abd"));
    assert!(!str_eq("abc", "ab"));
    assert!(str_eq("", ""));
}

#[test]
fn path_order_and_display() {
    let a = path(&["nested", "project4"]);
    let b = path(&["project3", "project5"]);
    assert!(a.lt(&b));
    assert!(!b.lt(&a));
    // A proper prefix comes before its extensions, and equals compare equal.
    let p = path(&["project3"]);
    assert!(p.lt(&b));
    assert!(!b.lt(&p));
    assert!(!p.lt(&path(&["project3"])));
    assert!(p.eq_path(&path(&["project3"])));
    assert!(!p.eq_path(&b));
    assert!(FsPath::new().lt(&p));

    assert_eq!(a.display(), "nested/project4");
    assert_eq!(FsPath::new().display(), ".");
    assert_eq!(path(&["only"]).display(), "only");
}

#[test]
fn path_prefix_and_parts() {
    let p = path(&["a", "b", "c"]);
    assert!(path(&["a", "b"]).is_prefix_of(&p));
    assert!(path(&[]).is_prefix_of(&p));
    assert!(p.is_prefix_of(&p));
    assert!(!path(&["a", "c"]).is_prefix_of(&p));
    assert!(!p.is_prefix_of(&path(&["a", "b"])));
    assert_eq!(p.parent().segments, vec!["a".to_string(), "b".to_string()]);
    assert_eq!(p.prefix(1).segments, vec!["a".to_string()]);
    assert_eq!(path(&["a"]).join(&path(&["b", "c"])).segments, p.segments);
    assert_eq!(p.len(), 3);
}

#[test]
fn selectors_match_along_the_way() {
    let sel = Selectors { roots: vec![path(&["tools", "fmt"])] };
    // On the way to the selected root, below it, and the root itself.
    assert!(sel.matches_path(&path(&["tools"])));
    assert!(sel.matches_path(&path(&["tools", "fmt"])));
    assert!(sel.matches_path(&path(&["tools", "fmt", "deep"])));
    // A sibling branch does not match.
    assert!(!sel.matches_path(&path(&["docs"])));
    assert!(!sel.matches_path(&path(&["tools", "lint"])));
}

#[test]
fn single_project_discovery() {
    let tree = FsDir {
        entries: vec![
            FsEntry::File {
                name: CONFIG_FILE.to_string(),
                load: ConfigLoad::Found(empty_config()),
            },
            FsEntry::Dir {
                name: "a".to_string(),
                dir: FsDir {
                    entries: vec![FsEntry::Dir { name: "b".to_string(), dir: FsDir {
                        entries: vec![],
                    } }],
                },
            },
        ],
    };
    // The search walks upward from `a/b` and finds the root configuration.
    let p = Project::discover(None, &path(&["a", "b"]), tree).unwrap();
    assert_eq!(p.path().segments, Vec::<String>::new());
    assert_eq!(p.config_file().segments, vec![CONFIG_FILE.to_string()]);
    assert_eq!(p.depth(), 0);
    assert_eq!(p.config().repos.len(), 0);

    // An explicitly supplied configuration file short-circuits the search.
    let source = ConfigSource {
        path: path(&["custom", "cfg.yaml"]),
        load: ConfigLoad::Found(empty_config()),
    };
    let tree = FsDir { entries: vec![] };
    let p = Project::discover(Some(source), &path(&["a"]), tree).unwrap();
    assert_eq!(p.config_file().segments, vec!["custom".to_string(), "cfg.yaml".to_string()]);
    assert_eq!(p.path().segments, Vec::<String>::new());

    // Nothing found anywhere: the dedicated error.
    let tree = FsDir { entries: vec![] };
    match Project::discover(None, &path(&["a"]), tree) {
        Err(Error::MissingPreCommitConfig) => {}
        _ => panic!("expected the missing-configuration error"),
    }

    // A found file that does not parse is a configuration error naming it.
    let tree = FsDir {
        entries: vec![FsEntry::File { name: CONFIG_FILE.to_string(), load: ConfigLoad::Malformed }],
    };
    match Project::discover(None, &path(&[]), tree) {
        Err(Error::Config { path }) => {
            assert_eq!(path.segments, vec![CONFIG_FILE.to_string()]);
        }
        _ => panic!("expected the configuration error"),
    }
}

#[test]
fn from_directory_places_the_config_file() {
    let p = Project::from_directory(path(&["sub"]), empty_config());
    assert_eq!(p.path().segments, vec!["sub".to_string()]);
    assert_eq!(p.config_file().segments, vec!["sub".to_string(), CONFIG_FILE.to_string()]);
    assert_eq!(p.relative_path().segments, Vec::<String>::new());
}
