use std::rc::Rc;

use vstd::prelude::*;

use crate::config::{
    hooks_view, Config, HookPatch, HookRef, HookRefV, ManifestHook, ManifestHookV, PatchV,
    RepoConfig,
};
use crate::error::Error;
use crate::hook::{
    find_hook_in, merged_patch, repo_hooks, repo_name_spec, Hook, HookBuilder, Repo, RepoV,
};
use crate::path::clone_string;
use crate::project::Project;
use crate::resolve::{metas_view, normalize_metas};

verus! {

/// The patch that sets no field.
pub open spec fn empty_patch() -> PatchV {
    PatchV { name: None, entry: None, language: None, verbose: None }
}

/// What one assembled hook must hold: its resolved identity, its merged
/// fields, and the repository it came from.
pub struct HookSpec {
    pub id: Seq<char>,
    pub info: PatchV,
    pub repo: RepoV,
}

pub open spec fn refs_view(s: Seq<HookRef>) -> Seq<HookRefV> {
    s.map_values(|r: HookRef| r@)
}

/// The hooks a remote entry's references from `j` on assemble to, or the
/// first referenced id that the manifest does not advertise.
pub open spec fn remote_hooks_from(
    refs: Seq<HookRefV>,
    manifest: Seq<ManifestHookV>,
    repo: RepoV,
    defaults: PatchV,
    j: int,
) -> Result<Seq<HookSpec>, Seq<char>>
    decreases refs.len() - j,
{
    if j < 0 || j >= refs.len() {
        Ok(Seq::<HookSpec>::empty())
    } else {
        match find_hook_in(manifest, refs[j].id) {
            None => Err(refs[j].id),
            Some(base) => {
                let first = HookSpec {
                    id: base.id,
                    info: merged_patch(base.info, refs[j].patch, defaults),
                    repo: repo,
                };
                match remote_hooks_from(refs, manifest, repo, defaults, j + 1) {
                    Ok(rest) => Ok(seq![first] + rest),
                    Err(e) => Err(e),
                }
            },
        }
    }
}

/// The hooks of an inline (local or meta) entry: each definition merged
/// with the project-wide defaults, with no per-hook override layer.
pub open spec fn inline_hooks_spec(
    hooks: Seq<ManifestHookV>,
    repo: RepoV,
    defaults: PatchV,
) -> Seq<HookSpec> {
    hooks.map_values(
        |h: ManifestHookV|
            HookSpec { id: h.id, info: merged_patch(h.info, empty_patch(), defaults), repo: repo },
    )
}

/// The hooks one repository entry contributes, or the failing hook id and
/// the repository name it was looked up in.
pub open spec fn entry_hooks_spec(entry: RepoConfig, repo: RepoV, defaults: PatchV) -> Result<
    Seq<HookSpec>,
    (Seq<char>, Seq<char>),
> {
    match entry {
        RepoConfig::Remote(rc) => match remote_hooks_from(
            refs_view(rc.hooks@),
            repo_hooks(repo),
            repo,
            defaults,
            0,
        ) {
            Ok(s) => Ok(s),
            Err(id) => Err((id, repo_name_spec(repo))),
        },
        RepoConfig::Local { hooks } => Ok(inline_hooks_spec(hooks_view(hooks@), repo, defaults)),
        RepoConfig::Meta { hooks } => Ok(inline_hooks_spec(metas_view(hooks@), repo, defaults)),
    }
}

/// The hooks a project's entries from `k` on contribute, in declaration
/// order; the first failing lookup aborts the whole assembly.
pub open spec fn project_hooks_from(
    entries: Seq<RepoConfig>,
    repos: Seq<Rc<Repo>>,
    defaults: PatchV,
    k: int,
) -> Result<Seq<HookSpec>, (Seq<char>, Seq<char>)>
    decreases entries.len() - k,
{
    if k < 0 || k >= entries.len() {
        Ok(Seq::<HookSpec>::empty())
    } else {
        match entry_hooks_spec(entries[k], repos[k]@, defaults) {
            Err(e) => Err(e),
            Ok(first) => match project_hooks_from(entries, repos, defaults, k + 1) {
                Ok(rest) => Ok(first + rest),
                Err(e) => Err(e),
            },
        }
    }
}

/// All hooks of one project, in declaration order.
pub open spec fn project_hook_specs(p: Project) -> Result<Seq<HookSpec>, (Seq<char>, Seq<char>)> {
    project_hooks_from(p.config.repos@, p.repos@, p.config.defaults@, 0)
}

/// How many hooks one entry declares.
pub open spec fn entry_hook_count(entry: RepoConfig) -> int {
    match entry {
        RepoConfig::Remote(rc) => rc.hooks@.len() as int,
        RepoConfig::Local { hooks } => hooks@.len() as int,
        RepoConfig::Meta { hooks } => hooks@.len() as int,
    }
}

/// How many hooks the entries from `k` on declare.
pub open spec fn project_hook_count_from(entries: Seq<RepoConfig>, k: int) -> int
    decreases entries.len() - k,
{
    if k < 0 || k >= entries.len() {
        0
    } else {
        entry_hook_count(entries[k]) + project_hook_count_from(entries, k + 1)
    }
}

pub open spec fn project_hook_count(p: Project) -> int {
    project_hook_count_from(p.config.repos@, 0)
}

pub proof fn lemma_hook_count_nonneg(entries: Seq<RepoConfig>, k: int)
    ensures
        project_hook_count_from(entries, k) >= 0,
    decreases entries.len() - k,
{
    if 0 <= k < entries.len() {
        lemma_hook_count_nonneg(entries, k + 1);
    }
}

/// A found hook carries the id it was found under.
pub proof fn lemma_find_hook_found(hooks: Seq<ManifestHookV>, id: Seq<char>)
    ensures
        find_hook_in(hooks, id) matches Some(h) ==> h.id == id,
    decreases hooks.len(),
{
    if hooks.len() > 0 && hooks[0].id != id {
        lemma_find_hook_found(hooks.drop_first(), id);
    }
}

/// How one assembled hook realizes its specification: resolved identity,
/// merged fields and owning repository as specified, stamped with the
/// owning project's index, directory and scope, and with its global index.
pub open spec fn hook_matches(h: Hook, s: HookSpec, p: Project, idx: int) -> bool {
    &&& h.id@ == s.id
    &&& h.info@ == s.info
    &&& h.repo@ == s.repo
    &&& h.project_idx == p.idx
    &&& h.work_dir@ == p.root@
    &&& h.scope@ == p.relative_path@
    &&& h.idx == idx
}

/// Builds one hook from its base definition, optional per-hook override,
/// and the project's defaults.
fn build_one(
    project: &Project,
    repo: &Rc<Repo>,
    base: ManifestHook,
    over: Option<HookPatch>,
    idx: usize,
) -> (r: Hook)
    ensures
        r.id@ == base@.id,
        r.info@ == merged_patch(
            base@.info,
            match over {
                Some(p) => p@,
                None => empty_patch(),
            },
            project.config.defaults@,
        ),
        r.repo@ == repo@,
        r.project_idx == project.idx,
        r.work_dir@ == project.root@,
        r.scope@ == project.relative_path@,
        r.idx == idx,
{
    let mut builder = HookBuilder::new(
        project.idx,
        project.root.clone(),
        project.relative_path.clone(),
        repo.clone(),
        base,
        idx,
    );
    if let Some(p) = over {
        builder.update(p);
    }
    builder.combine(&project.config);
    builder.build()
}

/// Assembles the hooks of a remote entry's references from `j` on,
/// stamping global indices from `idx` on.
fn remote_hooks(project: &Project, repo: &Rc<Repo>, refs: &Vec<HookRef>, j: usize, idx: usize) -> (r:
    Result<Vec<Hook>, Error>)
    requires
        j <= refs@.len(),
        idx + refs@.len() - j <= usize::MAX,
    ensures
        match remote_hooks_from(
            refs_view(refs@),
            repo_hooks(repo@),
            repo@,
            project.config.defaults@,
            j as int,
        ) {
            Ok(specs) => r matches Ok(v) && v@.len() == specs.len() && v@.len() == refs@.len() - j
                && (forall|i: int|
                0 <= i < specs.len() ==> #[trigger] hook_matches(
                    v@[i],
                    specs[i],
                    *project,
                    idx + i,
                )),
            Err(id) => r matches Err(e) && e matches Error::HookNotFound { hook, repo: rn }
                && hook@ == id && rn@ == repo_name_spec(repo@),
        },
    decreases refs@.len() - j,
{
    if j == refs.len() {
        return Ok(Vec::new());
    }
    let rf = &refs[j];
    assert(refs_view(refs@)[j as int] == rf@);
    match repo.get_hook(&rf.id) {
        None => Err(Error::HookNotFound { hook: clone_string(&rf.id), repo: repo.name() }),
        Some(base) => {
            proof {
                lemma_find_hook_found(repo_hooks(repo@), rf.id@);
            }
            let base = base.clone();
            let hook = build_one(project, repo, base, Some(rf.patch.clone()), idx);
            match remote_hooks(project, repo, refs, j + 1, idx + 1) {
                Err(e) => Err(e),
                Ok(mut rest) => {
                    let ghost rv = rest@;
                    rest.insert(0, hook);
                    proof {
                        let specs = remote_hooks_from(
                            refs_view(refs@),
                            repo_hooks(repo@),
                            repo@,
                            project.config.defaults@,
                            j as int,
                        );
                        let rspecs = remote_hooks_from(
                            refs_view(refs@),
                            repo_hooks(repo@),
                            repo@,
                            project.config.defaults@,
                            j + 1 as int,
                        );
                        let found = find_hook_in(repo_hooks(repo@), rf.id@).unwrap();
                        let first_spec = HookSpec {
                            id: found.id,
                            info: merged_patch(found.info, rf.patch@, project.config.defaults@),
                            repo: repo@,
                        };
                        assert(specs matches Ok(s) && s == seq![first_spec] + rspecs->Ok_0);
                        assert(hook_matches(hook, first_spec, *project, idx as int));
                        assert(rest@ == rv.insert(0, hook));
                        assert forall|i: int|
                            0 <= i < specs->Ok_0.len() implies #[trigger] hook_matches(
                            rest@[i],
                            specs->Ok_0[i],
                            *project,
                            idx + i,
                        ) by {
                            if i == 0 {
                                assert(rest@[0] == hook);
                                assert(specs->Ok_0[0] == first_spec);
                            } else {
                                assert(rest@[i] == rv[i - 1]);
                                assert(specs->Ok_0[i] == rspecs->Ok_0[i - 1]);
                                assert(hook_matches(
                                    rv[i - 1],
                                    rspecs->Ok_0[i - 1],
                                    *project,
                                    idx + 1 + (i - 1),
                                ));
                            }
                        }
                    }
                    Ok(rest)
                },
            }
        },
    }
}

/// Assembles the hooks of an inline entry, stamping global indices from
/// `idx` on.
fn inline_hooks(project: &Project, repo: &Rc<Repo>, hooks: Vec<ManifestHook>, idx: usize) -> (r:
    Vec<Hook>)
    requires
        idx + hooks@.len() <= usize::MAX,
    ensures
        r@.len() == hooks@.len(),
        forall|i: int|
            0 <= i < hooks@.len() ==> #[trigger] hook_matches(
                r@[i],
                inline_hooks_spec(hooks_view(hooks@), repo@, project.config.defaults@)[i],
                *project,
                idx + i,
            ),
{
    let ghost hv = hooks_view(hooks@);
    let mut out: Vec<Hook> = Vec::new();
    let mut i: usize = 0;
    let n = hooks.len();
    let mut hooks = hooks;
    while i < n
        invariant
            0 <= i <= n,
            n + idx <= usize::MAX,
            hooks@.len() == n - i,
            out@.len() == i,
            hv.len() == n,
            forall|t: int| 0 <= t < hooks@.len() ==> #[trigger] hooks@[t]@ == hv[t + i],
            forall|t: int|
                0 <= t < i ==> #[trigger] hook_matches(
                    out@[t],
                    (HookSpec {
                        id: hv[t].id,
                        info: merged_patch(hv[t].info, empty_patch(), project.config.defaults@),
                        repo: repo@,
                    }),
                    *project,
                    idx + t,
                ),
        decreases n - i,
    {
        let base = hooks.remove(0);
        assert(base@ == hv[i as int]);
        let hook = build_one(project, repo, base, None, idx + i);
        out.push(hook);
        i = i + 1;
    }
    assert forall|i: int| 0 <= i < hv.len() implies #[trigger] hook_matches(
        out@[i],
        inline_hooks_spec(hv, repo@, project.config.defaults@)[i],
        *project,
        idx + i,
    ) by {
        assert(inline_hooks_spec(hv, repo@, project.config.defaults@)[i] == (HookSpec {
            id: hv[i].id,
            info: merged_patch(hv[i].info, empty_patch(), project.config.defaults@),
            repo: repo@,
        }));
    }
    out
}

/// Assembles the hooks one repository entry contributes.
fn entry_hooks(project: &Project, k: usize, idx: usize) -> (r: Result<Vec<Hook>, Error>)
    requires
        k < project.config.repos@.len(),
        project.repos@.len() == project.config.repos@.len(),
        idx + entry_hook_count(project.config.repos@[k as int]) <= usize::MAX,
    ensures
        match entry_hooks_spec(
            project.config.repos@[k as int],
            project.repos@[k as int]@,
            project.config.defaults@,
        ) {
            Ok(specs) => r matches Ok(v) && v@.len() == specs.len() && v@.len() == entry_hook_count(
                project.config.repos@[k as int],
            ) && (forall|i: int|
                0 <= i < specs.len() ==> #[trigger] hook_matches(
                    v@[i],
                    specs[i],
                    *project,
                    idx + i,
                )),
            Err(e) => r matches Err(err) && err matches Error::HookNotFound { hook, repo: rn }
                && hook@ == e.0 && rn@ == e.1,
        },
{
    let entry = &project.config.repos[k];
    let repo = &project.repos[k];
    match entry {
        RepoConfig::Remote(rc) => remote_hooks(project, repo, &rc.hooks, 0, idx),
        RepoConfig::Local { hooks } => {
            let hooks = crate::config::clone_hooks(hooks);
            Ok(inline_hooks(project, repo, hooks, idx))
        },
        RepoConfig::Meta { hooks } => {
            let hooks = normalize_metas(hooks);
            Ok(inline_hooks(project, repo, hooks, idx))
        },
    }
}

/// Assembles the hooks of the entries from `k` on, stamping global indices
/// from `idx` on.
fn project_hooks_rec(project: &Project, k: usize, idx: usize) -> (r: Result<Vec<Hook>, Error>)
    requires
        k <= project.config.repos@.len(),
        project.repos@.len() == project.config.repos@.len(),
        idx + project_hook_count_from(project.config.repos@, k as int) <= usize::MAX,
    ensures
        match project_hooks_from(
            project.config.repos@,
            project.repos@,
            project.config.defaults@,
            k as int,
        ) {
            Ok(specs) => r matches Ok(v) && v@.len() == specs.len() && v@.len()
                == project_hook_count_from(project.config.repos@, k as int) && (forall|i: int|
                0 <= i < specs.len() ==> #[trigger] hook_matches(
                    v@[i],
                    specs[i],
                    *project,
                    idx + i,
                )),
            Err(e) => r matches Err(err) && err matches Error::HookNotFound { hook, repo: rn }
                && hook@ == e.0 && rn@ == e.1,
        },
    decreases project.config.repos@.len() - k,
{
    if k == project.config.repos.len() {
        return Ok(Vec::new());
    }
    proof {
        lemma_hook_count_nonneg(project.config.repos@, k + 1 as int);
    }
    match entry_hooks(project, k, idx) {
        Err(e) => Err(e),
        Ok(mut first) => {
            let cnt = first.len();
            match project_hooks_rec(project, k + 1, idx + cnt) {
                Err(e) => Err(e),
                Ok(mut rest) => {
                    let ghost fv = first@;
                    let ghost rv = rest@;
                    first.append(&mut rest);
                    proof {
                        let especs = entry_hooks_spec(
                            project.config.repos@[k as int],
                            project.repos@[k as int]@,
                            project.config.defaults@,
                        );
                        let specs = project_hooks_from(
                            project.config.repos@,
                            project.repos@,
                            project.config.defaults@,
                            k as int,
                        );
                        let rspecs = project_hooks_from(
                            project.config.repos@,
                            project.repos@,
                            project.config.defaults@,
                            k + 1 as int,
                        );
                        assert(specs matches Ok(s) && s == especs->Ok_0 + rspecs->Ok_0);
                        assert(first@ == fv + rv);
                        assert forall|i: int|
                            0 <= i < specs->Ok_0.len() implies #[trigger] hook_matches(
                            first@[i],
                            specs->Ok_0[i],
                            *project,
                            idx + i,
                        ) by {
                            if i < fv.len() {
                                assert(first@[i] == fv[i]);
                                assert(specs->Ok_0[i] == especs->Ok_0[i]);
                                assert(hook_matches(fv[i], especs->Ok_0[i], *project, idx + i));
                            } else {
                                assert(first@[i] == rv[i - cnt]);
                                assert(specs->Ok_0[i] == rspecs->Ok_0[i - cnt]);
                                assert(hook_matches(
                                    rv[i - cnt],
                                    rspecs->Ok_0[i - cnt],
                                    *project,
                                    idx + cnt + (i - cnt),
                                ));
                            }
                        }
                    }
                    Ok(first)
                },
            }
        },
    }
}

/// Assembles all hooks of one project, in declaration order, stamping
/// global indices from `start` on. Fails with the first hook reference that
/// its repository's manifest does not advertise, naming the hook id and the
/// repository; no hook is handed out in that case.
pub fn project_hooks(project: &Project, start: usize) -> (r: Result<Vec<Hook>, Error>)
    requires
        project.repos@.len() == project.config.repos@.len(),
        start + project_hook_count(*project) <= usize::MAX,
    ensures
        match project_hook_specs(*project) {
            Ok(specs) => r matches Ok(v) && v@.len() == specs.len() && v@.len()
                == project_hook_count(*project) && (forall|i: int|
                0 <= i < specs.len() ==> #[trigger] hook_matches(
                    v@[i],
                    specs[i],
                    *project,
                    start + i,
                )),
            Err(e) => r matches Err(err) && err matches Error::HookNotFound { hook, repo: rn }
                && hook@ == e.0 && rn@ == e.1,
        },
{
    project_hooks_rec(project, 0, start)
}

impl Project {
    /// Resolves the repositories and assembles all hooks of this single
    /// project, with global indices starting at 0.
    pub fn init_hooks(&mut self, resolved: Vec<crate::resolve::ResolvedRemote>) -> (r: Result<
        Vec<Hook>,
        Error,
    >)
        requires
            forall|id: crate::resolve::RemoteIdV|
                crate::resolve::config_remote_ids(old(self).config.repos@).contains(id)
                    ==> crate::resolve::find_resolved(resolved@, id) is Some,
            project_hook_count(*old(self)) <= usize::MAX,
        ensures
            *final (self) == (Project { repos: final (self).repos, ..*old(self) }),
            crate::resolve::repos_match(final (self).repos@, old(self).config.repos@, resolved@),
            match project_hook_specs(*final (self)) {
                Ok(specs) => r matches Ok(v) && v@.len() == specs.len() && (forall|i: int|
                    0 <= i < specs.len() ==> #[trigger] hook_matches(
                        v@[i],
                        specs[i],
                        *final (self),
                        i,
                    )),
                Err(e) => r matches Err(err) && err matches Error::HookNotFound { hook, repo: rn }
                    && hook@ == e.0 && rn@ == e.1,
            },
    {
        self.init_repos(resolved);
        assert(project_hook_count(*self) == project_hook_count(*old(self)));
        let r = project_hooks(self, 0);
        proof {
            if project_hook_specs(*self) is Ok && r is Ok {
                let specs = project_hook_specs(*self)->Ok_0;
                let v = r->Ok_0;
                assert forall|i: int| 0 <= i < specs.len() implies #[trigger] hook_matches(
                    v@[i],
                    specs[i],
                    *self,
                    i,
                ) by {
                    assert(hook_matches(v@[i], specs[i], *self, 0 + i));
                }
            }
        }
        r
    }
}

} // verus!
