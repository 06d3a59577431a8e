use vstd::prelude::*;

use crate::config::{is_config_file_name, Config, ConfigLoad, CONFIG_FILE};
use crate::error::Error;
use crate::path::{path_prefix_of, FsPath};
use crate::project::Project;

verus! {

/// A user-supplied restriction of discovery to parts of the workspace:
/// a list of selected subtree roots, as paths relative to the workspace
/// root. A directory is walked when it lies on the way to a selected root
/// or below one.
pub struct Selectors {
    pub roots: Vec<FsPath>,
}

impl View for Selectors {
    type V = Seq<Seq<Seq<char>>>;

    open spec fn view(&self) -> Seq<Seq<Seq<char>>> {
        self.roots@.map_values(|p: FsPath| p@)
    }
}

/// Whether the selectors admit the directory at `path`.
pub open spec fn selector_matches(roots: Seq<Seq<Seq<char>>>, path: Seq<Seq<char>>) -> bool {
    exists|i: int|
        0 <= i < roots.len() && (path_prefix_of(path, #[trigger] roots[i]) || path_prefix_of(
            roots[i],
            path,
        ))
}

pub open spec fn opt_sel_view(sel: Option<&Selectors>) -> Option<Seq<Seq<Seq<char>>>> {
    match sel {
        Some(s) => Some(s@),
        None => None,
    }
}

/// Whether the walk enters the directory at `path`: always, when no
/// selectors are configured.
pub open spec fn sel_enters(sel: Option<Seq<Seq<Seq<char>>>>, path: Seq<Seq<char>>) -> bool {
    match sel {
        None => true,
        Some(roots) => selector_matches(roots, path),
    }
}

impl Selectors {
    pub fn matches_path(&self, path: &FsPath) -> (r: bool)
        ensures
            r == selector_matches(self@, path@),
    {
        let mut i: usize = 0;
        while i < self.roots.len()
            invariant
                0 <= i <= self.roots@.len(),
                forall|j: int|
                    0 <= j < i ==> !(path_prefix_of(path@, #[trigger] self@[j]) || path_prefix_of(
                        self@[j],
                        path@,
                    )),
            decreases self.roots@.len() - i,
        {
            if path.is_prefix_of(&self.roots[i]) || self.roots[i].is_prefix_of(path) {
                assert(path_prefix_of(path@, self@[i as int]) || path_prefix_of(
                    self@[i as int],
                    path@,
                ));
                return true;
            }
            i = i + 1;
        }
        false
    }
}

/// A directory of the modeled filesystem.
pub struct FsDir {
    pub entries: Vec<FsEntry>,
}

/// One directory entry: a subdirectory, or a file. Only files bearing the
/// recognized configuration filename are ever read, so only their load
/// outcome matters.
pub enum FsEntry {
    Dir { name: String, dir: FsDir },
    File { name: String, load: ConfigLoad },
}

/// One configuration file the walk found: the directory it governs,
/// relative to the walk root, and its parsed configuration.
pub struct FoundV {
    pub rel: Seq<Seq<char>>,
    pub config: Config,
}

/// The configuration files found under `entries[i..]`, where `entries` is
/// the directory at `rel` (relative to the walk root): depth first, in
/// entry order. A subdirectory the selectors exclude is pruned whole; the
/// walk root itself is never pruned. A file that vanished is skipped; the
/// first file that did not parse aborts the whole walk with its path.
pub open spec fn walk_from(
    entries: Seq<FsEntry>,
    i: int,
    rel: Seq<Seq<char>>,
    sel: Option<Seq<Seq<Seq<char>>>>,
) -> Result<Seq<FoundV>, Seq<Seq<char>>>
    decreases entries, entries.len() - i,
{
    if i < 0 || i >= entries.len() {
        Ok(Seq::<FoundV>::empty())
    } else {
        let head: Result<Seq<FoundV>, Seq<Seq<char>>> = match entries[i] {
            FsEntry::Dir { name, dir } => {
                if sel_enters(sel, rel.push(name@)) {
                    walk_from(dir.entries@, 0, rel.push(name@), sel)
                } else {
                    Ok(Seq::<FoundV>::empty())
                }
            },
            FsEntry::File { name, load } => {
                if name@ == CONFIG_FILE@ {
                    match load {
                        ConfigLoad::Found(c) => Ok(seq![FoundV { rel: rel, config: c }]),
                        ConfigLoad::Missing => Ok(Seq::<FoundV>::empty()),
                        ConfigLoad::Malformed => Err(rel.push(name@)),
                    }
                } else {
                    Ok(Seq::<FoundV>::empty())
                }
            },
        };
        match head {
            Err(p) => Err(p),
            Ok(h) => match walk_from(entries, i + 1, rel, sel) {
                Err(p) => Err(p),
                Ok(rest) => Ok(h + rest),
            },
        }
    }
}

/// Advancing the start index is the same as dropping the first entry.
proof fn lemma_walk_skip_one(
    entries: Seq<FsEntry>,
    i: int,
    rel: Seq<Seq<char>>,
    sel: Option<Seq<Seq<Seq<char>>>>,
)
    requires
        1 <= i <= entries.len(),
    ensures
        walk_from(entries, i, rel, sel) == walk_from(entries.skip(1), i - 1, rel, sel),
    decreases entries.len() - i,
{
    if i == entries.len() {
        assert(entries.skip(1).len() == entries.len() - 1);
    } else {
        assert(entries.skip(1)[i - 1] == entries[i]);
        lemma_walk_skip_one(entries, i + 1, rel, sel);
    }
}

/// How a discovered project realizes one found configuration: its paths,
/// depth and configuration are fixed by the walk root and the found record;
/// its index and repositories are not yet assigned.
pub open spec fn project_realizes(p: Project, f: FoundV, root: Seq<Seq<char>>) -> bool {
    &&& p.root@ == root + f.rel
    &&& p.config_path@ == (root + f.rel).push(CONFIG_FILE@)
    &&& p.relative_path@ == f.rel
    &&& p.depth == f.rel.len() + 1
    &&& p.idx == 0
    &&& p.config == f.config
    &&& p.repos@ == Seq::<std::rc::Rc<crate::hook::Repo>>::empty()
}

/// Walks the entries of the directory at `rel`, building one project per
/// configuration file found, in walk order.
pub fn walk_entries(
    entries: Vec<FsEntry>,
    rel: &FsPath,
    sel: Option<&Selectors>,
    root: &FsPath,
) -> (r: Result<Vec<Project>, Error>)
    ensures
        match walk_from(entries@, 0, rel@, opt_sel_view(sel)) {
            Ok(found) => r matches Ok(v) && v@.len() == found.len() && (forall|i: int|
                0 <= i < found.len() ==> project_realizes(#[trigger] v@[i], found[i], root@)),
            Err(p) => r matches Err(e) && e matches Error::Config { path } && path@ == root@ + p,
        },
    decreases entries@,
{
    let ghost orig = entries@;
    let ghost selv = opt_sel_view(sel);
    let mut entries = entries;
    if entries.len() == 0 {
        return Ok(Vec::new());
    }
    let head_entry = entries.remove(0);
    proof {
        assert(head_entry == orig[0]);
        assert(entries@ =~= orig.skip(1));
    }
    let mut head: Vec<Project> = match head_entry {
        FsEntry::Dir { name, dir } => {
            let mut child_rel = rel.clone();
            child_rel.push(name);
            let enter = match sel {
                None => true,
                Some(s) => s.matches_path(&child_rel),
            };
            assert(enter == sel_enters(selv, rel@.push(orig[0]->Dir_name@)));
            if enter {
                proof {
                    assert(decreases_to!(orig => orig[0]));
                    assert(decreases_to!(orig[0] => orig[0]->Dir_dir));
                    assert(decreases_to!(orig[0]->Dir_dir => orig[0]->Dir_dir.entries));
                    assert(decreases_to!(orig[0]->Dir_dir.entries => orig[0]->Dir_dir.entries@));
                }
                match walk_entries(dir.entries, &child_rel, sel, root) {
                    Ok(v) => v,
                    Err(e) => {
                        return Err(e);
                    },
                }
            } else {
                Vec::new()
            }
        },
        FsEntry::File { name, load } => {
            if is_config_file_name(&name) {
                match load {
                    ConfigLoad::Found(config) => {
                        let mut file_rel = rel.clone();
                        file_rel.push(name);
                        let depth = file_rel.len();
                        let config_path = root.join(&file_rel);
                        let mut project = Project::from_config_file(config_path, None, config);
                        project.with_relative_path(rel.clone());
                        project.with_depth(depth);
                        proof {
                            assert((root@ + rel@.push(orig[0]->File_name@)).drop_last() =~= root@
                                + rel@);
                            assert(project.config_path@ =~= (root@ + rel@).push(CONFIG_FILE@));
                        }
                        let mut v = Vec::new();
                        v.push(project);
                        v
                    },
                    ConfigLoad::Missing => Vec::new(),
                    ConfigLoad::Malformed => {
                        let mut file_rel = rel.clone();
                        file_rel.push(name);
                        let path = root.join(&file_rel);
                        return Err(Error::Config { path });
                    },
                }
            } else {
                Vec::new()
            }
        },
    };
    proof {
        assert(decreases_to!(orig => orig.skip(1)));
    }
    let rest = walk_entries(entries, rel, sel, root);
    proof {
        lemma_walk_skip_one(orig, 1, rel@, selv);
    }
    match rest {
        Err(e) => Err(e),
        Ok(mut v) => {
            let ghost hv = head@;
            let ghost rv = v@;
            head.append(&mut v);
            proof {
                if walk_from(orig, 0, rel@, selv) is Ok {
                    let found = walk_from(orig, 0, rel@, selv)->Ok_0;
                    let h = match orig[0] {
                        FsEntry::Dir { name, dir } => {
                            if sel_enters(selv, rel@.push(name@)) {
                                walk_from(dir.entries@, 0, rel@.push(name@), selv)->Ok_0
                            } else {
                                Seq::<FoundV>::empty()
                            }
                        },
                        FsEntry::File { name, load } => {
                            if name@ == CONFIG_FILE@ && load is Found {
                                seq![FoundV { rel: rel@, config: load->Found_0 }]
                            } else {
                                Seq::<FoundV>::empty()
                            }
                        },
                    };
                    let restfound = walk_from(orig, 1, rel@, selv)->Ok_0;
                    assert(found == h + restfound);
                    assert(head@ == hv + rv);
                    assert forall|i: int| 0 <= i < found.len() implies project_realizes(
                        #[trigger] head@[i],
                        found[i],
                        root@,
                    ) by {
                        if i < hv.len() {
                            assert(head@[i] == hv[i]);
                            assert(found[i] == h[i]);
                        } else {
                            assert(head@[i] == rv[i - hv.len()]);
                            assert(found[i] == restfound[i - hv.len()]);
                        }
                    }
                }
            }
            Ok(head)
        },
    }
}

/// Every project a selector-restricted walk hands out lies in a directory
/// whose whole chain of enclosing directories, from the walk root down,
/// matches the selectors. A directory the selectors exclude therefore
/// contributes no project at all, however deep a configuration file is
/// nested under it; a directory they admit is walked in full.
pub proof fn lemma_selector_pruning(
    entries: Seq<FsEntry>,
    i: int,
    rel: Seq<Seq<char>>,
    roots: Seq<Seq<Seq<char>>>,
    found: Seq<FoundV>,
)
    requires
        walk_from(entries, i, rel, Some(roots)) == Ok::<Seq<FoundV>, Seq<Seq<char>>>(found),
        forall|j: int| 1 <= j <= rel.len() ==> selector_matches(roots, #[trigger] rel.take(j)),
    ensures
        forall|t: int, j: int|
            0 <= t < found.len() && 1 <= j <= found[t].rel.len() ==> selector_matches(
                roots,
                #[trigger] found[t].rel.take(j),
            ),
    decreases entries, entries.len() - i,
{
    if 0 <= i < entries.len() {
        let rest = walk_from(entries, i + 1, rel, Some(roots))->Ok_0;
        lemma_selector_pruning(entries, i + 1, rel, roots, rest);
        match entries[i] {
            FsEntry::Dir { name, dir } => {
                if sel_enters(Some(roots), rel.push(name@)) {
                    let child = rel.push(name@);
                    assert forall|j: int|
                        1 <= j <= child.len() implies selector_matches(
                        roots,
                        #[trigger] child.take(j),
                    ) by {
                        if j <= rel.len() {
                            assert(child.take(j) =~= rel.take(j));
                        } else {
                            assert(child.take(j) =~= child);
                        }
                    }
                    let h = walk_from(dir.entries@, 0, child, Some(roots))->Ok_0;
                    lemma_selector_pruning(dir.entries@, 0, child, roots, h);
                    assert forall|t: int, j: int|
                        0 <= t < found.len() && 1 <= j <= found[t].rel.len() implies selector_matches(
                        roots,
                        #[trigger] found[t].rel.take(j),
                    ) by {
                        if t < h.len() {
                            assert(found[t] == h[t]);
                        } else {
                            assert(found[t] == rest[t - h.len()]);
                        }
                    }
                } else {
                    assert(found =~= rest);
                }
            },
            FsEntry::File { name, load } => {
                if name@ == CONFIG_FILE@ && load is Found {
                    let h = seq![FoundV { rel: rel, config: load->Found_0 }];
                    assert forall|t: int, j: int|
                        0 <= t < found.len() && 1 <= j <= found[t].rel.len() implies selector_matches(
                        roots,
                        #[trigger] found[t].rel.take(j),
                    ) by {
                        if t == 0 {
                            assert(found[0] == h[0]);
                            assert(found[0].rel == rel);
                        } else {
                            assert(found[t] == rest[t - 1]);
                        }
                    }
                } else {
                    assert(found =~= rest);
                }
            },
        }
    }
}

} // verus!
