use std::rc::Rc;

use vstd::prelude::*;

use crate::config::{Config, CONFIG_FILE};
use crate::hook::Repo;
use crate::path::FsPath;

verus! {

/// One configuration scope: a directory governed by its own configuration
/// file.
///
/// A project is built during discovery, mutated while it is still uniquely
/// owned — its relative path and depth during the walk, its index after the
/// sort, its resolved repositories during initialization — and read-only
/// afterwards.
pub struct Project {
    /// The project directory, relative to the repository root.
    pub root: FsPath,
    /// The configuration file, relative to the repository root.
    pub config_path: FsPath,
    /// The project directory, relative to the workspace root.
    pub relative_path: FsPath,
    /// The position in the sorted workspace, assigned after discovery.
    pub idx: usize,
    /// The nesting depth of the configuration file under the workspace
    /// root; 0 for an explicitly supplied configuration file.
    pub depth: usize,
    pub config: Config,
    /// One resolved repository per entry of `config.repos`, in the same
    /// order.
    pub repos: Vec<Rc<Repo>>,
}

impl Project {
    /// Initializes a new project from an already loaded configuration file.
    /// If `root` is not given, it is the parent directory of the
    /// configuration file.
    pub fn from_config_file(config_path: FsPath, root: Option<FsPath>, config: Config) -> (r:
        Project)
        requires
            config_path@.len() > 0,
        ensures
            r.config_path == config_path,
            match root {
                Some(p) => r.root == p,
                None => r.root@ == config_path@.drop_last(),
            },
            r.relative_path@ == Seq::<Seq<char>>::empty(),
            r.idx == 0,
            r.depth == 0,
            r.config == config,
            r.repos@ == Seq::<Rc<Repo>>::empty(),
    {
        let root = match root {
            Some(p) => p,
            None => config_path.parent(),
        };
        Project {
            root,
            config_path,
            relative_path: FsPath::new(),
            idx: 0,
            depth: 0,
            config,
            repos: Vec::new(),
        }
    }

    /// Initializes a project from the configuration file of the given
    /// directory.
    pub fn from_directory(path: FsPath, config: Config) -> (r: Project)
        ensures
            r.config_path@ == path@.push(CONFIG_FILE@),
            r.root@ == path@,
            r.relative_path@ == Seq::<Seq<char>>::empty(),
            r.idx == 0,
            r.depth == 0,
            r.config == config,
            r.repos@ == Seq::<Rc<Repo>>::empty(),
    {
        let mut config_path = path;
        config_path.push(CONFIG_FILE.to_owned());
        assert(config_path@.drop_last() =~= path@);
        Project::from_config_file(config_path, None, config)
    }

    pub fn with_relative_path(&mut self, relative_path: FsPath)
        ensures
            *final (self) == (Project { relative_path, ..*old(self) }),
    {
        self.relative_path = relative_path;
    }

    pub fn with_depth(&mut self, depth: usize)
        ensures
            *final (self) == (Project { depth, ..*old(self) }),
    {
        self.depth = depth;
    }

    pub fn with_idx(&mut self, idx: usize)
        ensures
            *final (self) == (Project { idx, ..*old(self) }),
    {
        self.idx = idx;
    }

    pub fn config(&self) -> (r: &Config)
        ensures
            r == &self.config,
    {
        &self.config
    }

    /// The path to the configuration file, relative to the repository root.
    pub fn config_file(&self) -> (r: &FsPath)
        ensures
            r == &self.config_path,
    {
        &self.config_path
    }

    /// The path to the project directory, relative to the repository root.
    pub fn path(&self) -> (r: &FsPath)
        ensures
            r == &self.root,
    {
        &self.root
    }

    /// The path to the project directory relative to the workspace root.
    ///
    /// Hooks are executed in this directory and accept only files from it.
    /// For an explicitly supplied configuration file, this is empty.
    pub fn relative_path(&self) -> (r: &FsPath)
        ensures
            r == &self.relative_path,
    {
        &self.relative_path
    }

    pub fn depth(&self) -> (r: usize)
        ensures
            r == self.depth,
    {
        self.depth
    }

    pub fn idx(&self) -> (r: usize)
        ensures
            r == self.idx,
    {
        self.idx
    }

    /// The project's name in reports: `.` for the workspace root project,
    /// otherwise its relative path.
    pub fn display_name(&self) -> (r: String)
        ensures
            self.depth == 1 ==> r@ == "."@,
            self.depth != 1 ==> r@ == crate::path::path_display(self.relative_path@),
    {
        if self.depth == 1 {
            ".".to_owned()
        } else {
            self.relative_path.display()
        }
    }
}

/// Project identity: two projects are the same iff they point to the same
/// configuration file, whatever their other fields hold.
impl PartialEq for Project {
    fn eq(&self, other: &Self) -> (r: bool) {
        self.config_path.eq_path(&other.config_path)
    }
}

impl vstd::std_specs::cmp::PartialEqSpecImpl for Project {
    open spec fn obeys_eq_spec() -> bool {
        true
    }

    open spec fn eq_spec(&self, other: &Self) -> bool {
        self.config_path@ == other.config_path@
    }
}

} // verus!
