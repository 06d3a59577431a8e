use vstd::prelude::*;

use vstd::multiset::Multiset;
use vstd::relations::sorted_by;

use crate::assemble::{hook_matches, project_hook_count, project_hook_specs, HookSpec};
use crate::config::ConfigLoad;
use crate::error::Error;
use crate::hook::Hook;
use crate::path::{
    lemma_path_lt_asymmetric, lemma_path_lt_connected, lemma_path_lt_transitive, path_display,
    path_lt, FsPath,
};
use crate::project::Project;
use crate::resolve::{
    distribute_repos, find_resolved, remote_identities, repos_match, RemoteId, RemoteIdV,
    ResolvedRemote,
};
use crate::walk::{opt_sel_view, project_realizes, walk_entries, walk_from, FoundV, FsDir,
    Selectors};

verus! {

/// Workspace resolution order: a deeper project comes first; among equally
/// deep projects the lexicographically smaller relative path comes first.
pub open spec fn project_lt(a: Project, b: Project) -> bool {
    ||| b.depth < a.depth
    ||| (a.depth == b.depth && path_lt(a.relative_path@, b.relative_path@))
}

/// Two projects the order cannot tell apart.
pub open spec fn project_key_eq(a: Project, b: Project) -> bool {
    a.depth == b.depth && a.relative_path@ == b.relative_path@
}

pub open spec fn project_le(a: Project, b: Project) -> bool {
    project_lt(a, b) || project_key_eq(a, b)
}

/// The order as a relation, for `sorted_by`.
pub open spec fn project_order() -> spec_fn(Project, Project) -> bool {
    |a: Project, b: Project| project_le(a, b)
}

pub proof fn lemma_project_order_connected(a: Project, b: Project)
    ensures
        !project_lt(a, b) ==> project_le(b, a),
{
    lemma_path_lt_connected(a.relative_path@, b.relative_path@);
    lemma_path_lt_connected(b.relative_path@, a.relative_path@);
}

pub proof fn lemma_project_lt_transitive(a: Project, b: Project, c: Project)
    requires
        project_lt(a, b),
        project_lt(b, c),
    ensures
        project_lt(a, c),
{
    if a.depth == b.depth && b.depth == c.depth {
        lemma_path_lt_transitive(a.relative_path@, b.relative_path@, c.relative_path@);
    }
}

pub proof fn lemma_project_le_transitive(a: Project, b: Project, c: Project)
    requires
        project_le(a, b),
        project_le(b, c),
    ensures
        project_le(a, c),
{
    if project_lt(a, b) && project_lt(b, c) {
        lemma_project_lt_transitive(a, b, c);
    }
}

/// Compares two projects in resolution order, strictly.
pub fn project_before(a: &Project, b: &Project) -> (r: bool)
    ensures
        r == project_lt(*a, *b),
{
    if b.depth < a.depth {
        true
    } else if a.depth == b.depth {
        a.relative_path.lt(&b.relative_path)
    } else {
        false
    }
}

/// Sorts projects into resolution order: deepest first, ties by relative
/// path ascending. The result holds exactly the given projects.
pub fn sort_projects(projects: Vec<Project>) -> (r: Vec<Project>)
    ensures
        r@.len() == projects@.len(),
        r@.to_multiset() == projects@.to_multiset(),
        sorted_by(r@, project_order()),
{
    broadcast use vstd::seq_lib::group_to_multiset_ensures;

    let ghost orig = projects@;
    let mut input = projects;
    let mut out: Vec<Project> = Vec::new();
    while input.len() > 0
        invariant
            sorted_by(out@, project_order()),
            out@.to_multiset().add(input@.to_multiset()) =~= orig.to_multiset(),
            out@.len() + input@.len() == orig.len(),
        decreases input@.len(),
    {
        let ghost out0 = out@;
        let ghost in0 = input@;
        let x = input.remove(0);
        proof {
            broadcast use vstd::seq_lib::group_to_multiset_ensures;

            assert(in0[0] == x);
            assert(in0.contains(x));
            assert(in0.remove(0) =~= input@);
            assert(in0.remove(0).to_multiset() =~= in0.to_multiset().remove(in0[0]));
            assert(input@.to_multiset() =~= in0.to_multiset().remove(x));
            assert(in0.to_multiset().contains(x));
        }
        let mut j: usize = 0;
        while j < out.len() && !project_before(&x, &out[j])
            invariant
                0 <= j <= out@.len(),
                out@ == out0,
                forall|t: int| 0 <= t < j ==> !project_lt(x, #[trigger] out@[t]),
            decreases out@.len() - j,
        {
            j = j + 1;
        }
        assert(j < out@.len() ==> project_lt(x, out@[j as int]));
        out.insert(j, x);
        proof {
            broadcast use vstd::seq_lib::group_to_multiset_ensures;

            assert(out@ =~= out0.subrange(0, j as int) + seq![x] + out0.subrange(
                j as int,
                out0.len() as int,
            ));
            vstd::seq_lib::lemma_multiset_commutative(
                out0.subrange(0, j as int) + seq![x],
                out0.subrange(j as int, out0.len() as int),
            );
            vstd::seq_lib::lemma_multiset_commutative(out0.subrange(0, j as int), seq![x]);
            assert(seq![x].to_multiset() =~= Multiset::<Project>::empty().insert(x)) by {
                assert(seq![x].drop_first() =~= Seq::<Project>::empty());
            }
            assert(out0.subrange(0, j as int) + out0.subrange(j as int, out0.len() as int)
                =~= out0);
            vstd::seq_lib::lemma_multiset_commutative(
                out0.subrange(0, j as int),
                out0.subrange(j as int, out0.len() as int),
            );
            assert(out@.to_multiset() =~= out0.to_multiset().insert(x));
            assert(out@.to_multiset().add(input@.to_multiset()) =~= orig.to_multiset());
            assert forall|t1: int, t2: int|
                0 <= t1 < t2 < out@.len() implies project_order()(out@[t1], out@[t2]) by {
                let jj = j as int;
                if t2 < jj {
                    assert(out@[t1] == out0[t1] && out@[t2] == out0[t2]);
                    assert(sorted_by(out0, project_order()));
                } else if t1 > jj {
                    assert(out@[t1] == out0[t1 - 1] && out@[t2] == out0[t2 - 1]);
                } else if t1 < jj && t2 == jj {
                    assert(out@[t1] == out0[t1] && out@[t2] == x);
                    lemma_project_order_connected(x, out0[t1]);
                } else if t1 < jj && t2 > jj {
                    assert(out@[t1] == out0[t1] && out@[t2] == out0[t2 - 1]);
                } else if t1 == jj && t2 > jj {
                    assert(out@[t1] == x && out@[t2] == out0[t2 - 1]);
                    assert(project_lt(x, out0[jj]));
                    if jj < t2 - 1 {
                        assert(project_order()(out0[jj], out0[t2 - 1]));
                        lemma_project_le_transitive(x, out0[jj], out0[t2 - 1]);
                    }
                }
            }
        }
    }
    proof {
        assert(input@.to_multiset() =~= Multiset::<Project>::empty());
        assert(out@.to_multiset() =~= orig.to_multiset());
        vstd::seq_lib::lemma_multiset_commutative(out@, Seq::<Project>::empty());
        assert(out@.to_multiset().len() == orig.to_multiset().len());
    }
    out
}

/// Two sorted sequences of the same projects are the same sequence, as long
/// as no two distinct projects share a sort key: for a fixed set of
/// discovered projects the resolution order is unique, however the walk
/// happened to enumerate them.
pub proof fn lemma_sorted_projects_unique(s1: Seq<Project>, s2: Seq<Project>)
    requires
        sorted_by(s1, project_order()),
        sorted_by(s2, project_order()),
        s1.to_multiset() == s2.to_multiset(),
        forall|i: int, j: int|
            0 <= i < j < s1.len() ==> !project_key_eq(#[trigger] s1[i], #[trigger] s1[j]),
    ensures
        s1 =~= s2,
    decreases s1.len(),
{
    broadcast use vstd::seq_lib::group_to_multiset_ensures;

    if s1.len() == 0 {
        assert(s1.to_multiset().len() == 0);
        assert(s2.len() == s2.to_multiset().len());
    } else if s2.len() == 0 {
        assert(s1.len() == s1.to_multiset().len());
        assert(s2.to_multiset().len() == 0);
    } else {
        assert(s1.to_multiset().contains(s1[0]));
        assert(s2.to_multiset().contains(s1[0]));
        assert(s2.contains(s1[0]));
        assert(s1.to_multiset().contains(s2[0]));
        assert(s1.contains(s2[0]));
        let i = choose|i: int| 0 <= i < s1.len() && s1[i] == s2[0];
        let k = choose|k: int| 0 <= k < s2.len() && s2[k] == s1[0];
        if i > 0 {
            assert(project_order()(s1[0], s1[i]));
            assert(project_le(s1[0], s1[i]));
        }
        if k > 0 {
            assert(project_order()(s2[0], s2[k]));
            assert(project_le(s2[0], s2[k]));
        }
        assert(project_le(s1[0], s2[0]) || s1[0] == s2[0]);
        assert(project_le(s2[0], s1[0]) || s1[0] == s2[0]);
        assert(project_key_eq(s1[0], s2[0])) by {
            lemma_path_lt_asymmetric(s1[0].relative_path@, s2[0].relative_path@);
            lemma_path_lt_connected(s1[0].relative_path@, s2[0].relative_path@);
        }
        assert(project_key_eq(s1[0], s1[i]));
        if i != 0 {
            assert(!project_key_eq(s1[0], s1[i]));
            assert(false);
        }
        assert(s1[0] == s2[0]);
        let t1 = s1.drop_first();
        let t2 = s2.drop_first();
        assert(s1.remove(0) =~= t1);
        assert(s2.remove(0) =~= t2);
        assert(s1.remove(0).to_multiset() == s1.to_multiset().remove(s1[0]));
        assert(s2.remove(0).to_multiset() == s2.to_multiset().remove(s2[0]));
        assert(t1.to_multiset() =~= s1.to_multiset().remove(s1[0]));
        assert(t2.to_multiset() =~= s2.to_multiset().remove(s2[0]));
        assert forall|a: int, b: int|
            0 <= a < b < t1.len() implies !project_key_eq(#[trigger] t1[a], #[trigger] t1[b]) by {
            assert(t1[a] == s1[a + 1] && t1[b] == s1[b + 1]);
        }
        assert(sorted_by(t1, project_order())) by {
            assert forall|a: int, b: int|
                0 <= a < b < t1.len() implies project_order()(t1[a], t1[b]) by {
                assert(t1[a] == s1[a + 1] && t1[b] == s1[b + 1]);
                assert(project_order()(s1[a + 1], s1[b + 1]));
            }
        }
        assert(sorted_by(t2, project_order())) by {
            assert forall|a: int, b: int|
                0 <= a < b < t2.len() implies project_order()(t2[a], t2[b]) by {
                assert(t2[a] == s2[a + 1] && t2[b] == s2[b + 1]);
                assert(project_order()(s2[a + 1], s2[b + 1]));
            }
        }
        lemma_sorted_projects_unique(t1, t2);
        assert(s1 =~= seq![s1[0]] + t1);
        assert(s2 =~= seq![s2[0]] + t2);
    }
}

/// Compares two paths, strictly.
fn path_before(a: &FsPath, b: &FsPath) -> (r: bool)
    ensures
        r == path_lt(a@, b@),
{
    a.lt(b)
}

/// Sorts paths lexicographically ascending. The result holds exactly the
/// given paths.
pub fn sort_paths(paths: Vec<FsPath>) -> (r: Vec<FsPath>)
    ensures
        r@.len() == paths@.len(),
        r@.to_multiset() == paths@.to_multiset(),
        sorted_by(r@, |a: FsPath, b: FsPath| path_lt(a@, b@) || a@ == b@),
{
    broadcast use vstd::seq_lib::group_to_multiset_ensures;

    let ghost leq = |a: FsPath, b: FsPath| path_lt(a@, b@) || a@ == b@;
    let ghost orig = paths@;
    let mut input = paths;
    let mut out: Vec<FsPath> = Vec::new();
    while input.len() > 0
        invariant
            leq == (|a: FsPath, b: FsPath| path_lt(a@, b@) || a@ == b@),
            sorted_by(out@, leq),
            out@.to_multiset().add(input@.to_multiset()) =~= orig.to_multiset(),
            out@.len() + input@.len() == orig.len(),
        decreases input@.len(),
    {
        let ghost out0 = out@;
        let ghost in0 = input@;
        let x = input.remove(0);
        proof {
            broadcast use vstd::seq_lib::group_to_multiset_ensures;

            assert(in0[0] == x);
            assert(in0.contains(x));
            assert(in0.remove(0) =~= input@);
            assert(in0.remove(0).to_multiset() =~= in0.to_multiset().remove(in0[0]));
            assert(input@.to_multiset() =~= in0.to_multiset().remove(x));
            assert(in0.to_multiset().contains(x));
        }
        let mut j: usize = 0;
        while j < out.len() && !path_before(&x, &out[j])
            invariant
                0 <= j <= out@.len(),
                out@ == out0,
                forall|t: int| 0 <= t < j ==> !path_lt(x@, #[trigger] out@[t]@),
            decreases out@.len() - j,
        {
            j = j + 1;
        }
        assert(j < out@.len() ==> path_lt(x@, out@[j as int]@));
        out.insert(j, x);
        proof {
            broadcast use vstd::seq_lib::group_to_multiset_ensures;

            assert(out@ =~= out0.subrange(0, j as int) + seq![x] + out0.subrange(
                j as int,
                out0.len() as int,
            ));
            vstd::seq_lib::lemma_multiset_commutative(
                out0.subrange(0, j as int) + seq![x],
                out0.subrange(j as int, out0.len() as int),
            );
            vstd::seq_lib::lemma_multiset_commutative(out0.subrange(0, j as int), seq![x]);
            assert(seq![x].to_multiset() =~= Multiset::<FsPath>::empty().insert(x)) by {
                assert(seq![x].drop_first() =~= Seq::<FsPath>::empty());
            }
            assert(out0.subrange(0, j as int) + out0.subrange(j as int, out0.len() as int)
                =~= out0);
            vstd::seq_lib::lemma_multiset_commutative(
                out0.subrange(0, j as int),
                out0.subrange(j as int, out0.len() as int),
            );
            assert(out@.to_multiset() =~= out0.to_multiset().insert(x));
            assert(out@.to_multiset().add(input@.to_multiset()) =~= orig.to_multiset());
            assert forall|t1: int, t2: int|
                0 <= t1 < t2 < out@.len() implies leq(out@[t1], out@[t2]) by {
                let jj = j as int;
                if t2 < jj {
                    assert(out@[t1] == out0[t1] && out@[t2] == out0[t2]);
                    assert(sorted_by(out0, leq));
                } else if t1 > jj {
                    assert(out@[t1] == out0[t1 - 1] && out@[t2] == out0[t2 - 1]);
                } else if t1 < jj && t2 == jj {
                    assert(out@[t1] == out0[t1] && out@[t2] == x);
                    lemma_path_lt_connected(x@, out0[t1]@);
                } else if t1 < jj && t2 > jj {
                    assert(out@[t1] == out0[t1] && out@[t2] == out0[t2 - 1]);
                } else if t1 == jj && t2 > jj {
                    assert(out@[t1] == x && out@[t2] == out0[t2 - 1]);
                    assert(path_lt(x@, out0[jj]@));
                    if jj < t2 - 1 {
                        assert(leq(out0[jj], out0[t2 - 1]));
                        if path_lt(out0[jj]@, out0[t2 - 1]@) {
                            lemma_path_lt_transitive(x@, out0[jj]@, out0[t2 - 1]@);
                        }
                    }
                }
            }
        }
    }
    proof {
        assert(input@.to_multiset() =~= Multiset::<FsPath>::empty());
        assert(out@.to_multiset() =~= orig.to_multiset());
        assert(out@.to_multiset().len() == orig.to_multiset().len());
    }
    out
}

/// Like `project_realizes`, but ignoring the index assigned after the sort.
pub open spec fn realizes_mod_idx(p: Project, f: FoundV, root: Seq<Seq<char>>) -> bool {
    project_realizes(Project { idx: 0, ..p }, f, root)
}

/// An explicitly supplied configuration file: its path, relative to the
/// repository root, and what loading it produced.
pub struct ConfigSource {
    pub path: FsPath,
    pub load: ConfigLoad,
}

/// One hook of the workspace-wide sequence: which project contributes it
/// and what it must hold.
pub struct WsHook {
    pub project: Project,
    pub hook: HookSpec,
}

/// The workspace-wide hook sequence from project `p` on: the concatenation,
/// in project order, of each project's hooks; the first failing hook lookup
/// aborts the whole assembly.
pub open spec fn ws_hooks_from(projects: Seq<Project>, p: int) -> Result<
    Seq<WsHook>,
    (Seq<char>, Seq<char>),
>
    decreases projects.len() - p,
{
    if p < 0 || p >= projects.len() {
        Ok(Seq::<WsHook>::empty())
    } else {
        match project_hook_specs(projects[p]) {
            Err(e) => Err(e),
            Ok(hs) => match ws_hooks_from(projects, p + 1) {
                Err(e) => Err(e),
                Ok(rest) => Ok(
                    hs.map_values(|h: HookSpec| WsHook { project: projects[p], hook: h }) + rest,
                ),
            },
        }
    }
}

/// How many hooks the projects from `p` on declare.
pub open spec fn ws_hook_count_from(projects: Seq<Project>, p: int) -> int
    decreases projects.len() - p,
{
    if p < 0 || p >= projects.len() {
        0
    } else {
        project_hook_count(projects[p]) + ws_hook_count_from(projects, p + 1)
    }
}

pub proof fn lemma_ws_count_nonneg(projects: Seq<Project>, p: int)
    ensures
        ws_hook_count_from(projects, p) >= 0,
    decreases projects.len() - p,
{
    if 0 <= p < projects.len() {
        crate::assemble::lemma_hook_count_nonneg(projects[p].config.repos@, 0);
        lemma_ws_count_nonneg(projects, p + 1);
    }
}

/// Counting hooks only reads the configurations.
pub proof fn lemma_ws_count_congruent(s1: Seq<Project>, s2: Seq<Project>, p: int)
    requires
        s1.len() == s2.len(),
        forall|i: int| 0 <= i < s1.len() ==> #[trigger] s1[i].config == s2[i].config,
    ensures
        ws_hook_count_from(s1, p) == ws_hook_count_from(s2, p),
    decreases s1.len() - p,
{
    if 0 <= p < s1.len() {
        lemma_ws_count_congruent(s1, s2, p + 1);
    }
}

/// Assembles the hooks of the projects from `p` on, stamping global
/// indices from `idx` on.
fn ws_hooks_rec(projects: &Vec<Project>, p: usize, idx: usize) -> (r: Result<Vec<Hook>, Error>)
    requires
        p <= projects@.len(),
        forall|i: int|
            0 <= i < projects@.len() ==> #[trigger] projects@[i].repos@.len()
                == projects@[i].config.repos@.len(),
        idx + ws_hook_count_from(projects@, p as int) <= usize::MAX,
    ensures
        match ws_hooks_from(projects@, p as int) {
            Ok(specs) => r matches Ok(v) && v@.len() == specs.len() && v@.len()
                == ws_hook_count_from(projects@, p as int) && (forall|i: int|
                0 <= i < specs.len() ==> #[trigger] hook_matches(
                    v@[i],
                    specs[i].hook,
                    specs[i].project,
                    idx + i,
                )),
            Err(e) => r matches Err(err) && err matches Error::HookNotFound { hook, repo: rn }
                && hook@ == e.0 && rn@ == e.1,
        },
    decreases projects@.len() - p,
{
    if p == projects.len() {
        return Ok(Vec::new());
    }
    proof {
        crate::assemble::lemma_hook_count_nonneg(projects@[p as int].config.repos@, 0);
        lemma_ws_count_nonneg(projects@, p + 1 as int);
    }
    match crate::assemble::project_hooks(&projects[p], idx) {
        Err(e) => Err(e),
        Ok(mut first) => {
            let cnt = first.len();
            match ws_hooks_rec(projects, p + 1, idx + cnt) {
                Err(e) => Err(e),
                Ok(mut rest) => {
                    let ghost fv = first@;
                    let ghost rv = rest@;
                    first.append(&mut rest);
                    proof {
                        let pspecs = project_hook_specs(projects@[p as int])->Ok_0;
                        let tagged = pspecs.map_values(
                            |h: HookSpec| WsHook { project: projects@[p as int], hook: h },
                        );
                        let specs = ws_hooks_from(projects@, p as int)->Ok_0;
                        let rspecs = ws_hooks_from(projects@, p + 1 as int)->Ok_0;
                        assert(specs == tagged + rspecs);
                        assert(first@ == fv + rv);
                        assert forall|i: int| 0 <= i < specs.len() implies #[trigger] hook_matches(
                            first@[i],
                            specs[i].hook,
                            specs[i].project,
                            idx + i,
                        ) by {
                            if i < fv.len() {
                                assert(first@[i] == fv[i]);
                                assert(specs[i] == tagged[i]);
                                assert(tagged[i].hook == pspecs[i]);
                                assert(tagged[i].project == projects@[p as int]);
                                assert(hook_matches(
                                    fv[i],
                                    pspecs[i],
                                    projects@[p as int],
                                    idx + i,
                                ));
                            } else {
                                assert(first@[i] == rv[i - cnt]);
                                assert(specs[i] == rspecs[i - cnt]);
                                assert(hook_matches(
                                    rv[i - cnt],
                                    rspecs[i - cnt].hook,
                                    rspecs[i - cnt].project,
                                    idx + cnt + (i - cnt),
                                ));
                            }
                        }
                    }
                    Ok(first)
                },
            }
        },
    }
}

/// The whole resolved tree: the workspace root and its projects, in
/// resolution order.
pub struct Workspace {
    pub root: FsPath,
    pub projects: Vec<Project>,
}

impl Workspace {
    /// Discovers the workspace under the given root.
    ///
    /// With an explicitly supplied configuration file, discovery
    /// short-circuits to that single project and the tree is not walked.
    /// Otherwise every configuration file under the root — pruned by the
    /// selectors — becomes a project; the projects are sorted deepest
    /// first, ties by relative path ascending, and indexed densely in that
    /// order. A walk that finds nothing is an error.
    pub fn discover(
        root: FsPath,
        config: Option<ConfigSource>,
        tree: FsDir,
        selectors: Option<&Selectors>,
    ) -> (r: Result<Workspace, Error>)
        requires
            match config {
                Some(cs) => cs.path@.len() > 0,
                None => true,
            },
        ensures
            match config {
                Some(cs) => match cs.load {
                    ConfigLoad::Found(c) => r matches Ok(w) && w.root@ == root@
                        && w.projects@.len() == 1 && w.projects@[0].config_path == cs.path
                        && w.projects@[0].root@ == root@ && w.projects@[0].config == c
                        && w.projects@[0].idx == 0 && w.projects@[0].depth == 0
                        && w.projects@[0].relative_path@ == Seq::<Seq<char>>::empty(),
                    _ => r matches Err(e) && e matches Error::Config { path } && path == cs.path,
                },
                None => match walk_from(
                    tree.entries@,
                    0,
                    Seq::<Seq<char>>::empty(),
                    opt_sel_view(selectors),
                ) {
                    Err(p) => r matches Err(e) && e matches Error::Config { path } && path@ == root@
                        + p,
                    Ok(found) => {
                        if found.len() == 0 {
                            r matches Err(e) && e is MissingPreCommitConfig
                        } else {
                            r matches Ok(w) && w.root@ == root@ && w.projects@.len() == found.len()
                                && sorted_by(w.projects@, project_order()) && (forall|i: int|
                                0 <= i < w.projects@.len() ==> #[trigger] w.projects@[i].idx
                                    == i) && (forall|i: int|
                                0 <= i < w.projects@.len() ==> exists|t: int|
                                    0 <= t < found.len() && realizes_mod_idx(
                                        #[trigger] w.projects@[i],
                                        found[t],
                                        root@,
                                    )) && (forall|t: int|
                                0 <= t < found.len() ==> exists|i: int|
                                    0 <= i < w.projects@.len() && realizes_mod_idx(
                                        w.projects@[i],
                                        #[trigger] found[t],
                                        root@,
                                    ))
                        }
                    },
                },
            },
    {
        broadcast use vstd::seq_lib::group_to_multiset_ensures;

        if let Some(cs) = config {
            return match cs.load {
                ConfigLoad::Found(c) => {
                    let project = Project::from_config_file(cs.path, Some(root.clone()), c);
                    let mut projects: Vec<Project> = Vec::new();
                    projects.push(project);
                    Ok(Workspace { root, projects })
                },
                _ => Err(Error::Config { path: cs.path }),
            };
        }
        let rel = FsPath::new();
        let walked = match walk_entries(tree.entries, &rel, selectors, &root) {
            Ok(v) => v,
            Err(e) => {
                return Err(e);
            },
        };
        if walked.len() == 0 {
            return Err(Error::MissingPreCommitConfig);
        }
        let ghost walkedv = walked@;
        let sorted = sort_projects(walked);
        let ghost sortedv = sorted@;
        let mut sorted = sorted;
        let mut projects: Vec<Project> = Vec::new();
        while sorted.len() > 0
            invariant
                sorted@ =~= sortedv.skip(projects@.len() as int),
                projects@.len() + sorted@.len() == sortedv.len(),
                forall|i: int|
                    0 <= i < projects@.len() ==> #[trigger] projects@[i] == (Project {
                        idx: i as usize,
                        ..sortedv[i]
                    }),
            decreases sorted@.len(),
        {
            let mut p = sorted.remove(0);
            proof {
                assert(p == sortedv[projects@.len() as int]);
                assert(sorted@ =~= sortedv.skip(projects@.len() + 1 as int));
            }
            p.with_idx(projects.len());
            projects.push(p);
        }
        proof {
            assert(projects@.len() == sortedv.len());
            let ghost found = walk_from(
                tree.entries@,
                0,
                Seq::<Seq<char>>::empty(),
                opt_sel_view(selectors),
            )->Ok_0;
            assert forall|t1: int, t2: int|
                0 <= t1 < t2 < projects@.len() implies project_order()(
                projects@[t1],
                projects@[t2],
            ) by {
                assert(project_order()(sortedv[t1], sortedv[t2]));
            }
            assert forall|i: int| 0 <= i < projects@.len() implies exists|t: int|
                0 <= t < found.len() && realizes_mod_idx(
                    #[trigger] projects@[i],
                    found[t],
                    root@,
                ) by {
                assert(sortedv.to_multiset().contains(sortedv[i]));
                assert(walkedv.to_multiset().contains(sortedv[i]));
                assert(walkedv.contains(sortedv[i]));
                let w = choose|w: int| 0 <= w < walkedv.len() && walkedv[w] == sortedv[i];
                assert(project_realizes(walkedv[w], found[w], root@));
                assert((Project { idx: 0, ..projects@[i] }) == sortedv[i]);
                assert(realizes_mod_idx(projects@[i], found[w], root@));
            }
            assert forall|t: int| 0 <= t < found.len() implies exists|i: int|
                0 <= i < projects@.len() && realizes_mod_idx(
                    projects@[i],
                    #[trigger] found[t],
                    root@,
                ) by {
                assert(walkedv.to_multiset().contains(walkedv[t]));
                assert(sortedv.to_multiset().contains(walkedv[t]));
                assert(sortedv.contains(walkedv[t]));
                let i = choose|i: int| 0 <= i < sortedv.len() && sortedv[i] == walkedv[t];
                assert(project_realizes(walkedv[t], found[t], root@));
                assert((Project { idx: 0, ..projects@[i] }) == sortedv[i]);
                assert(realizes_mod_idx(projects@[i], found[t], root@));
            }
        }
        Ok(Workspace { root, projects })
    }

    pub fn root(&self) -> (r: &FsPath)
        ensures
            r == &self.root,
    {
        &self.root
    }

    pub fn projects(&self) -> (r: &Vec<Project>)
        ensures
            r == &self.projects,
    {
        &self.projects
    }

    /// The deduplicated fetch set of the whole workspace: every declared
    /// remote identity exactly once, in first-occurrence order.
    pub fn remote_identities(&self) -> (r: Vec<RemoteId>)
        ensures
            crate::resolve::ids_view(r@) == crate::resolve::dedup_ids(
                crate::resolve::workspace_remote_ids(self.projects@),
            ),
    {
        remote_identities(&self.projects)
    }

    /// Second resolution pass over all projects: every remote entry
    /// receives the repository fetched for its identity, shared across all
    /// projects that declare it.
    pub fn init_repos(&mut self, resolved: Vec<ResolvedRemote>)
        requires
            forall|id: RemoteIdV|
                crate::resolve::workspace_remote_ids(old(self).projects@).contains(id)
                    ==> find_resolved(resolved@, id) is Some,
        ensures
            final (self).root == old(self).root,
            final (self).projects@.len() == old(self).projects@.len(),
            forall|i: int|
                0 <= i < old(self).projects@.len() ==> #[trigger] final (self).projects@[i]
                    == (Project {
                    repos: final (self).projects@[i].repos,
                    ..old(self).projects@[i]
                }),
            forall|i: int|
                0 <= i < old(self).projects@.len() ==> repos_match(
                    #[trigger] final (self).projects@[i].repos@,
                    old(self).projects@[i].config.repos@,
                    resolved@,
                ),
    {
        let mut projects: Vec<Project> = Vec::new();
        core::mem::swap(&mut projects, &mut self.projects);
        let projects = distribute_repos(projects, resolved);
        self.projects = projects;
    }

    /// Resolves the repositories of all projects and assembles the single
    /// workspace-wide hook sequence: each project's hooks in project order,
    /// every hook stamped with its position in that sequence.
    pub fn init_hooks(&mut self, resolved: Vec<ResolvedRemote>) -> (r: Result<Vec<Hook>, Error>)
        requires
            forall|id: RemoteIdV|
                crate::resolve::workspace_remote_ids(old(self).projects@).contains(id)
                    ==> find_resolved(resolved@, id) is Some,
            ws_hook_count_from(old(self).projects@, 0) <= usize::MAX,
        ensures
            final (self).root == old(self).root,
            match ws_hooks_from(final (self).projects@, 0) {
                Ok(specs) => r matches Ok(v) && v@.len() == specs.len() && (forall|i: int|
                    0 <= i < specs.len() ==> #[trigger] hook_matches(
                        v@[i],
                        specs[i].hook,
                        specs[i].project,
                        i,
                    )),
                Err(e) => r matches Err(err) && err matches Error::HookNotFound { hook, repo: rn }
                    && hook@ == e.0 && rn@ == e.1,
            },
    {
        self.init_repos(resolved);
        proof {
            lemma_ws_count_congruent(self.projects@, old(self).projects@, 0);
        }
        let r = ws_hooks_rec(&self.projects, 0, 0);
        proof {
            if ws_hooks_from(self.projects@, 0) is Ok && r is Ok {
                let specs = ws_hooks_from(self.projects@, 0)->Ok_0;
                let v = r->Ok_0;
                assert forall|i: int| 0 <= i < specs.len() implies #[trigger] hook_matches(
                    v@[i],
                    specs[i].hook,
                    specs[i].project,
                    i,
                ) by {
                    assert(hook_matches(v@[i], specs[i].hook, specs[i].project, 0 + i));
                }
            }
        }
        r
    }

    /// The configuration files of all projects, in project order: the
    /// paths whose staging state gates a run.
    pub fn config_files(&self) -> (r: Vec<FsPath>)
        ensures
            r@.len() == self.projects@.len(),
            forall|i: int|
                0 <= i < self.projects@.len() ==> #[trigger] r@[i]@
                    == self.projects@[i].config_path@,
    {
        let mut r: Vec<FsPath> = Vec::new();
        let mut i: usize = 0;
        while i < self.projects.len()
            invariant
                0 <= i <= self.projects@.len(),
                r@.len() == i,
                forall|j: int|
                    0 <= j < i ==> #[trigger] r@[j]@ == self.projects@[j].config_path@,
            decreases self.projects@.len() - i,
        {
            r.push(self.projects[i].config_file().clone());
            i = i + 1;
        }
        r
    }
}

/// The single-file report: names the file and the exact command that
/// stages it.
pub open spec fn single_staging_message(p: Seq<Seq<char>>) -> Seq<char> {
    "prek configuration file is not staged, run `git add "@ + path_display(p) + "` to stage it"@
}

/// The lines of the multi-file report, one indented path per line.
pub open spec fn multi_staging_lines(paths: Seq<FsPath>, i: int) -> Seq<char>
    decreases paths.len() - i,
{
    if i < 0 || i >= paths.len() {
        Seq::<char>::empty()
    } else {
        "\n  "@ + path_display(paths[i]@) + multi_staging_lines(paths, i + 1)
    }
}

/// The multi-file report: every unstaged file, one per line.
pub open spec fn multi_staging_message(paths: Seq<FsPath>) -> Seq<char> {
    "The following configuration files are not staged, `git add` them first:"@
        + multi_staging_lines(paths, 0)
}

impl Workspace {
    /// The pre-flight staging check: `not_staged` is the subset of this
    /// workspace's configuration files that version control reports as not
    /// staged. An empty subset succeeds. One file fails with the
    /// single-file report naming it; several fail with the multi-file
    /// listing, paths sorted ascending.
    pub fn check_configs_staged(&self, not_staged: Vec<FsPath>) -> (r: Result<(), Error>)
        ensures
            (not_staged@.len() == 0) <==> r is Ok,
            not_staged@.len() == 1 ==> (r matches Err(e) && e matches Error::NotStaged { message }
                && message@ == single_staging_message(not_staged@[0]@)),
            not_staged@.len() > 1 ==> (r matches Err(e) && e matches Error::NotStaged { message }
                && (exists|sorted: Seq<FsPath>|
                sorted.to_multiset() == not_staged@.to_multiset() && sorted_by(
                    sorted,
                    |a: FsPath, b: FsPath| path_lt(a@, b@) || a@ == b@,
                ) && message@ == multi_staging_message(sorted))),
    {
        if not_staged.len() == 0 {
            return Ok(());
        }
        if not_staged.len() == 1 {
            let mut message = "prek configuration file is not staged, run `git add ".to_owned();
            message.append(not_staged[0].display().as_str());
            message.append("` to stage it");
            assert(message@ == single_staging_message(not_staged@[0]@));
            return Err(Error::NotStaged { message });
        }
        let sorted = sort_paths(not_staged);
        let ghost sortedv = sorted@;
        let mut message =
            "The following configuration files are not staged, `git add` them first:".to_owned();
        let mut i: usize = 0;
        while i < sorted.len()
            invariant
                0 <= i <= sorted@.len(),
                sorted@ == sortedv,
                message@ + multi_staging_lines(sortedv, i as int) == multi_staging_message(
                    sortedv,
                ),
            decreases sorted@.len() - i,
        {
            let ghost m0 = message@;
            message.append("\n  ");
            message.append(sorted[i].display().as_str());
            proof {
                assert(message@ =~= m0 + ("\n  "@ + path_display(sortedv[i as int]@)));
                assert(m0 + multi_staging_lines(sortedv, i as int) =~= message@
                    + multi_staging_lines(sortedv, i + 1 as int));
            }
            i = i + 1;
        }
        proof {
            assert(multi_staging_lines(sortedv, sortedv.len() as int) =~= Seq::<char>::empty());
            assert(message@ =~= multi_staging_message(sortedv));
        }
        Err(Error::NotStaged { message })
    }
}

} // verus!
