use vstd::prelude::*;

use crate::config::{is_config_file_name, ConfigLoad, CONFIG_FILE};
use crate::error::Error;
use crate::path::FsPath;
use crate::project::Project;
use crate::walk::{FsDir, FsEntry};
use crate::workspace::{ConfigSource, Workspace};

verus! {

/// The entries of the first subdirectory with the given name.
pub open spec fn find_dir_in(entries: Seq<FsEntry>, name: Seq<char>) -> Option<Seq<FsEntry>>
    decreases entries.len(),
{
    if entries.len() == 0 {
        None
    } else if entries[0] is Dir && entries[0]->Dir_name@ == name {
        Some(entries[0]->Dir_dir.entries@)
    } else {
        find_dir_in(entries.drop_first(), name)
    }
}

/// The load outcome of the first configuration file among the entries.
pub open spec fn config_load_in(entries: Seq<FsEntry>) -> Option<ConfigLoad>
    decreases entries.len(),
{
    if entries.len() == 0 {
        None
    } else if entries[0] is File && entries[0]->File_name@ == CONFIG_FILE@ {
        Some(entries[0]->File_load)
    } else {
        config_load_in(entries.drop_first())
    }
}

/// The entries of the directory at `path` below `entries`, if it exists.
pub open spec fn dir_at(entries: Seq<FsEntry>, path: Seq<Seq<char>>) -> Option<Seq<FsEntry>>
    decreases path.len(),
{
    if path.len() == 0 {
        Some(entries)
    } else {
        match find_dir_in(entries, path[0]) {
            None => None,
            Some(d) => dir_at(d, path.drop_first()),
        }
    }
}

/// The load outcome of the configuration file of the directory at `path`,
/// if that directory exists and has one.
pub open spec fn config_at(entries: Seq<FsEntry>, path: Seq<Seq<char>>) -> Option<ConfigLoad> {
    match dir_at(entries, path) {
        None => None,
        Some(d) => config_load_in(d),
    }
}

/// The longest prefix of `dir`, no longer than `n`, whose directory holds a
/// configuration file: the upward search from `dir` towards the repository
/// root.
pub open spec fn search_root(entries: Seq<FsEntry>, dir: Seq<Seq<char>>, n: int) -> Option<int>
    decreases n,
{
    if n < 0 {
        None
    } else if config_at(entries, dir.take(n)) is Some {
        Some(n)
    } else if n == 0 {
        None
    } else {
        search_root(entries, dir, n - 1)
    }
}

proof fn lemma_find_dir_skip(entries: Seq<FsEntry>, name: Seq<char>, i: int)
    requires
        0 <= i <= entries.len(),
        forall|j: int|
            0 <= j < i ==> !(entries[j] is Dir && #[trigger] entries[j]->Dir_name@ == name),
    ensures
        find_dir_in(entries, name) == find_dir_in(entries.skip(i), name),
    decreases i,
{
    if i == 0 {
        assert(entries.skip(0) =~= entries);
    } else {
        lemma_find_dir_skip(entries.drop_first(), name, i - 1);
        assert(entries.drop_first().skip(i - 1) =~= entries.skip(i));
    }
}

proof fn lemma_config_load_skip(entries: Seq<FsEntry>, i: int)
    requires
        0 <= i <= entries.len(),
        forall|j: int|
            0 <= j < i ==> !(entries[j] is File && #[trigger] entries[j]->File_name@
                == CONFIG_FILE@),
    ensures
        config_load_in(entries) == config_load_in(entries.skip(i)),
    decreases i,
{
    if i == 0 {
        assert(entries.skip(0) =~= entries);
    } else {
        lemma_config_load_skip(entries.drop_first(), i - 1);
        assert(entries.drop_first().skip(i - 1) =~= entries.skip(i));
    }
}

/// Finds the subdirectory with the given name among the entries.
fn find_dir<'a>(entries: &'a Vec<FsEntry>, name: &String) -> (r: Option<&'a FsDir>)
    ensures
        match r {
            Some(d) => find_dir_in(entries@, name@) == Some(d.entries@),
            None => find_dir_in(entries@, name@) is None,
        },
{
    let mut i: usize = 0;
    while i < entries.len()
        invariant
            0 <= i <= entries@.len(),
            forall|j: int|
                0 <= j < i ==> !(entries@[j] is Dir && #[trigger] entries@[j]->Dir_name@
                    == name@),
        decreases entries@.len() - i,
    {
        match &entries[i] {
            FsEntry::Dir { name: n, dir } => {
                if crate::strings::str_eq(n.as_str(), name.as_str()) {
                    proof {
                        lemma_find_dir_skip(entries@, name@, i as int);
                        assert(entries@.skip(i as int)[0] == entries@[i as int]);
                    }
                    return Some(dir);
                }
            },
            _ => {},
        }
        i = i + 1;
    }
    proof {
        lemma_find_dir_skip(entries@, name@, entries@.len() as int);
        assert(entries@.skip(entries@.len() as int) =~= Seq::<FsEntry>::empty());
    }
    None
}

/// Whether the entries hold a configuration file.
fn has_config_in(entries: &Vec<FsEntry>) -> (r: bool)
    ensures
        r == (config_load_in(entries@) is Some),
{
    let mut i: usize = 0;
    while i < entries.len()
        invariant
            0 <= i <= entries@.len(),
            forall|j: int|
                0 <= j < i ==> !(entries@[j] is File && #[trigger] entries@[j]->File_name@
                    == CONFIG_FILE@),
        decreases entries@.len() - i,
    {
        match &entries[i] {
            FsEntry::File { name, load: _ } => {
                if is_config_file_name(name) {
                    proof {
                        lemma_config_load_skip(entries@, i as int);
                        assert(entries@.skip(i as int)[0] == entries@[i as int]);
                    }
                    return true;
                }
            },
            _ => {},
        }
        i = i + 1;
    }
    proof {
        lemma_config_load_skip(entries@, entries@.len() as int);
        assert(entries@.skip(entries@.len() as int) =~= Seq::<FsEntry>::empty());
    }
    false
}

/// Descends to the directory at `path[s..]`.
fn dir_entries_at<'a>(entries: &'a Vec<FsEntry>, path: &FsPath, s: usize) -> (r: Option<
    &'a Vec<FsEntry>,
>)
    requires
        s <= path@.len(),
    ensures
        match r {
            Some(d) => dir_at(entries@, path@.skip(s as int)) == Some(d@),
            None => dir_at(entries@, path@.skip(s as int)) is None,
        },
    decreases path@.len() - s,
{
    if s == path.segments.len() {
        assert(path@.skip(s as int) =~= Seq::<Seq<char>>::empty());
        return Some(entries);
    }
    assert(path@.skip(s as int)[0] == path@[s as int]);
    match find_dir(entries, &path.segments[s]) {
        None => None,
        Some(d) => {
            let r = dir_entries_at(&d.entries, path, s + 1);
            assert(path@.skip(s as int).drop_first() =~= path@.skip(s + 1 as int));
            r
        },
    }
}

/// Whether the directory at `path` exists and holds a configuration file.
fn has_config_at(entries: &Vec<FsEntry>, path: &FsPath) -> (r: bool)
    ensures
        r == (config_at(entries@, path@) is Some),
{
    assert(path@.skip(0) =~= path@);
    match dir_entries_at(entries, path, 0) {
        None => false,
        Some(d) => has_config_in(d),
    }
}

/// The upward search: the longest prefix of `dir`, at most `n` segments,
/// whose directory holds a configuration file.
fn search_root_exec(entries: &Vec<FsEntry>, dir: &FsPath, n: usize) -> (r: Option<FsPath>)
    requires
        n <= dir@.len(),
    ensures
        match search_root(entries@, dir@, n as int) {
            Some(m) => r matches Some(p) && p@ == dir@.take(m),
            None => r is None,
        },
    decreases n,
{
    let prefix = dir.prefix(n);
    if has_config_at(entries, &prefix) {
        Some(prefix)
    } else if n == 0 {
        None
    } else {
        search_root_exec(entries, dir, n - 1)
    }
}

/// Takes the load outcome of the configuration file at `path[s..]` out of
/// the tree.
fn take_config_at(entries: Vec<FsEntry>, path: &FsPath, s: usize, m: Ghost<Seq<FsEntry>>) -> (r:
    Option<ConfigLoad>)
    requires
        s <= path@.len(),
        entries@ == m@,
    ensures
        r == config_at(m@, path@.skip(s as int)),
    decreases m@, path@.len() - s,
{
    let mut entries = entries;
    if s == path.segments.len() {
        assert(path@.skip(s as int) =~= Seq::<Seq<char>>::empty());
        while entries.len() > 0
            invariant
                s == path@.len(),
                entries@.len() <= m@.len(),
                entries@ =~= m@.skip(m@.len() - entries@.len()),
                config_load_in(m@) == config_load_in(entries@),
            decreases entries@.len(),
        {
            let ghost cur = entries@;
            let ghost k = m@.len() - cur.len();
            let e = entries.remove(0);
            proof {
                assert(cur =~= m@.skip(k));
                assert(cur[0] == m@[k]);
                assert(e == cur[0]);
                assert(entries@ =~= cur.drop_first());
                assert(m@.skip(k).drop_first() =~= m@.skip(k + 1));
            }
            match e {
                FsEntry::File { name, load } => {
                    if is_config_file_name(&name) {
                        assert(config_load_in(cur) == Some(load));
                        assert(path@.skip(s as int) =~= Seq::<Seq<char>>::empty());
                        return Some(load);
                    }
                },
                _ => {},
            }
            assert(config_load_in(cur) == config_load_in(cur.drop_first()));
        }
        assert(config_load_in(entries@) is None);
        assert(path@.skip(s as int) =~= Seq::<Seq<char>>::empty());
        return None;
    }
    assert(path@.skip(s as int)[0] == path@[s as int]);
    let ghost target = path@[s as int];
    while entries.len() > 0
        invariant
            s < path@.len(),
            path@.len() <= usize::MAX,
            target == path@[s as int],
            entries@.len() <= m@.len(),
            entries@ =~= m@.skip(m@.len() - entries@.len()),
            find_dir_in(m@, target) == find_dir_in(entries@, target),
        decreases entries@.len(),
    {
        let ghost cur = entries@;
        let ghost k = m@.len() - cur.len();
        let e = entries.remove(0);
        proof {
            assert(cur =~= m@.skip(k));
            assert(cur[0] == m@[k]);
            assert(e == cur[0]);
            assert(entries@ =~= cur.drop_first());
            assert(m@.skip(k).drop_first() =~= m@.skip(k + 1));
        }
        match e {
            FsEntry::Dir { name, dir } => {
                if crate::strings::str_eq(name.as_str(), path.segments[s].as_str()) {
                    proof {
                        assert(find_dir_in(cur, target) == Some(dir.entries@));
                        assert(decreases_to!(m@ => m@[k]));
                        assert(decreases_to!(m@[k] => m@[k]->Dir_dir));
                        assert(decreases_to!(m@[k]->Dir_dir => m@[k]->Dir_dir.entries));
                        assert(decreases_to!(m@[k]->Dir_dir.entries => m@[k]->Dir_dir.entries@));
                        assert(dir.entries@ == m@[k]->Dir_dir.entries@);
                        assert(decreases_to!(m@ => dir.entries@));
                    }
                    let r = take_config_at(dir.entries, path, s + 1, Ghost(dir.entries@));
                    proof {
                        assert(path@.skip(s as int).drop_first() =~= path@.skip(s + 1 as int));
                        assert(path@.skip(s as int)[0] == target);
                        assert(config_at(m@, path@.skip(s as int)) == config_at(
                            dir.entries@,
                            path@.skip(s + 1 as int),
                        ));
                    }
                    return r;
                }
            },
            _ => {},
        }
        assert(find_dir_in(cur, target) == find_dir_in(cur.drop_first(), target));
    }
    assert(find_dir_in(entries@, target) is None);
    assert(path@.skip(s as int)[0] == target);
    None
}

impl Workspace {
    /// Finds the workspace root. With an explicitly supplied configuration
    /// file the workspace root is the repository root itself; otherwise it
    /// is the nearest directory, from `dir` upward, that holds a
    /// configuration file. `tree` is the repository's directory tree and
    /// `dir` the starting directory, relative to the repository root.
    pub fn find_root(config_file: Option<&FsPath>, dir: &FsPath, tree: &FsDir) -> (r: Result<
        FsPath,
        Error,
    >)
        ensures
            config_file is Some ==> (r matches Ok(p) && p@ == Seq::<Seq<char>>::empty()),
            config_file is None ==> match search_root(tree.entries@, dir@, dir@.len() as int) {
                Some(m) => r matches Ok(p) && p@ == dir@.take(m),
                None => r matches Err(e) && e is MissingPreCommitConfig,
            },
    {
        if config_file.is_some() {
            return Ok(FsPath::new());
        }
        match search_root_exec(&tree.entries, dir, dir.segments.len()) {
            Some(p) => Ok(p),
            None => Err(Error::MissingPreCommitConfig),
        }
    }
}

impl Project {
    /// Discovers a single project: from the given configuration file, or
    /// by searching from `dir` upward to the repository root for the
    /// nearest directory holding one. `tree` is the repository's directory
    /// tree; all paths are relative to the repository root.
    pub fn discover(config_file: Option<ConfigSource>, dir: &FsPath, tree: FsDir) -> (r: Result<
        Project,
        Error,
    >)
        requires
            match config_file {
                Some(cs) => cs.path@.len() > 0,
                None => true,
            },
        ensures
            match config_file {
                Some(cs) => match cs.load {
                    ConfigLoad::Found(c) => r matches Ok(p) && p.config_path == cs.path && p.root@
                        == Seq::<Seq<char>>::empty() && p.config == c && p.idx == 0 && p.depth == 0
                        && p.relative_path@ == Seq::<Seq<char>>::empty(),
                    _ => r matches Err(e) && e matches Error::Config { path } && path == cs.path,
                },
                None => match search_root(tree.entries@, dir@, dir@.len() as int) {
                    None => r matches Err(e) && e is MissingPreCommitConfig,
                    Some(m) => match config_at(tree.entries@, dir@.take(m)) {
                        Some(ConfigLoad::Found(c)) => r matches Ok(p) && p.root@ == dir@.take(m)
                            && p.config_path@ == dir@.take(m).push(CONFIG_FILE@) && p.config == c
                            && p.idx == 0 && p.depth == 0 && p.relative_path@ == Seq::<
                            Seq<char>,
                        >::empty(),
                        _ => r matches Err(e) && e matches Error::Config { path } && path@
                            == dir@.take(m).push(CONFIG_FILE@),
                    },
                },
            },
    {
        if let Some(cs) = config_file {
            return match cs.load {
                ConfigLoad::Found(c) => Ok(
                    Project::from_config_file(cs.path, Some(FsPath::new()), c),
                ),
                _ => Err(Error::Config { path: cs.path }),
            };
        }
        let found = match search_root_exec(&tree.entries, dir, dir.segments.len()) {
            Some(p) => p,
            None => {
                return Err(Error::MissingPreCommitConfig);
            },
        };
        let ghost m = search_root(tree.entries@, dir@, dir@.len() as int)->Some_0;
        assert(found@ == dir@.take(m));
        assert(found@.skip(0) =~= found@);
        let ghost mg = tree.entries@;
        match take_config_at(tree.entries, &found, 0, Ghost(mg)) {
            Some(ConfigLoad::Found(c)) => Ok(Project::from_directory(found, c)),
            _ => {
                let mut path = found;
                path.push(CONFIG_FILE.to_owned());
                Err(Error::Config { path })
            },
        }
    }
}

} // verus!
