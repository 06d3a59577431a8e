use std::rc::Rc;

use vstd::prelude::*;

use crate::config::{
    clone_hooks, hooks_view, normalized_meta, ManifestHook, ManifestHookV, MetaHook, RepoConfig,
};
use crate::hook::{Repo, RepoV};
use crate::path::clone_string;
use crate::project::Project;
use crate::strings;

verus! {

/// The deduplication identity of a remote repository: the url and revision
/// pair as declared in configuration. The checkout path plays no part.
pub struct RemoteId {
    pub url: String,
    pub rev: String,
}

pub struct RemoteIdV {
    pub url: Seq<char>,
    pub rev: Seq<char>,
}

impl View for RemoteId {
    type V = RemoteIdV;

    open spec fn view(&self) -> RemoteIdV {
        RemoteIdV { url: self.url@, rev: self.rev@ }
    }
}

/// What the caller hands back for one fetched remote repository: the
/// identity it fetched, the local checkout path, and the manifest read from
/// the checkout.
pub struct ResolvedRemote {
    pub url: String,
    pub rev: String,
    pub path: String,
    pub manifest: Vec<ManifestHook>,
}

pub open spec fn resolved_id(rr: ResolvedRemote) -> RemoteIdV {
    RemoteIdV { url: rr.url@, rev: rr.rev@ }
}

/// The repository value a fetched remote becomes.
pub open spec fn resolved_repo_view(rr: ResolvedRemote) -> RepoV {
    RepoV::Remote { url: rr.url@, rev: rr.rev@, path: rr.path@, manifest: hooks_view(rr.manifest@) }
}

pub open spec fn ids_view(s: Seq<RemoteId>) -> Seq<RemoteIdV> {
    s.map_values(|x: RemoteId| x@)
}

pub open spec fn metas_view(s: Seq<MetaHook>) -> Seq<ManifestHookV> {
    s.map_values(|m: MetaHook| normalized_meta(m@))
}

/// The identities a single repository entry declares: one for a remote
/// entry, none otherwise.
pub open spec fn entry_ids(entry: RepoConfig) -> Seq<RemoteIdV> {
    match entry {
        RepoConfig::Remote(rc) => seq![RemoteIdV { url: rc.url@, rev: rc.rev@ }],
        _ => Seq::<RemoteIdV>::empty(),
    }
}

/// The remote identities a configuration declares, in declaration order.
pub open spec fn config_remote_ids(repos: Seq<RepoConfig>) -> Seq<RemoteIdV>
    decreases repos.len(),
{
    if repos.len() == 0 {
        Seq::<RemoteIdV>::empty()
    } else {
        entry_ids(repos[0]) + config_remote_ids(repos.drop_first())
    }
}

/// The remote identities declared across all projects, in project order and
/// declaration order.
pub open spec fn workspace_remote_ids(projects: Seq<Project>) -> Seq<RemoteIdV>
    decreases projects.len(),
{
    if projects.len() == 0 {
        Seq::<RemoteIdV>::empty()
    } else {
        config_remote_ids(projects[0].config.repos@) + workspace_remote_ids(projects.drop_first())
    }
}

/// Keeps the first occurrence of every identity, in occurrence order.
pub open spec fn dedup_ids(ids: Seq<RemoteIdV>) -> Seq<RemoteIdV>
    decreases ids.len(),
{
    if ids.len() == 0 {
        Seq::<RemoteIdV>::empty()
    } else {
        let front = dedup_ids(ids.drop_last());
        if ids.drop_last().contains(ids.last()) {
            front
        } else {
            front.push(ids.last())
        }
    }
}

pub proof fn lemma_config_ids_snoc(repos: Seq<RepoConfig>, x: RepoConfig)
    ensures
        config_remote_ids(repos.push(x)) == config_remote_ids(repos) + entry_ids(x),
    decreases repos.len(),
{
    if repos.len() == 0 {
        assert(repos.push(x)[0] == x);
        assert(repos.push(x).drop_first() =~= Seq::<RepoConfig>::empty());
        assert(config_remote_ids(repos.push(x).drop_first()) =~= Seq::<RemoteIdV>::empty());
        assert(config_remote_ids(repos.push(x)) =~= config_remote_ids(repos) + entry_ids(x));
    } else {
        assert(repos.push(x).drop_first() =~= repos.drop_first().push(x));
        assert(repos.push(x)[0] == repos[0]);
        lemma_config_ids_snoc(repos.drop_first(), x);
        assert(config_remote_ids(repos.push(x).drop_first()) == config_remote_ids(
            repos.drop_first(),
        ) + entry_ids(x));
        assert(config_remote_ids(repos.push(x)) =~= config_remote_ids(repos) + entry_ids(x));
    }
}

pub proof fn lemma_workspace_ids_snoc(projects: Seq<Project>, x: Project)
    ensures
        workspace_remote_ids(projects.push(x)) == workspace_remote_ids(projects)
            + config_remote_ids(x.config.repos@),
    decreases projects.len(),
{
    if projects.len() == 0 {
        assert(projects.push(x)[0] == x);
        assert(projects.push(x).drop_first() =~= Seq::<Project>::empty());
        assert(workspace_remote_ids(projects.push(x).drop_first()) =~= Seq::<RemoteIdV>::empty());
        assert(workspace_remote_ids(projects.push(x)) =~= workspace_remote_ids(projects)
            + config_remote_ids(x.config.repos@));
    } else {
        assert(projects.push(x).drop_first() =~= projects.drop_first().push(x));
        assert(projects.push(x)[0] == projects[0]);
        lemma_workspace_ids_snoc(projects.drop_first(), x);
        assert(workspace_remote_ids(projects.push(x).drop_first()) == workspace_remote_ids(
            projects.drop_first(),
        ) + config_remote_ids(x.config.repos@));
        assert(workspace_remote_ids(projects.push(x)) =~= workspace_remote_ids(projects)
            + config_remote_ids(x.config.repos@));
    }
}

/// Deduplication keeps exactly the declared identities: nothing is lost and
/// nothing is invented.
pub proof fn lemma_dedup_ids_complete(ids: Seq<RemoteIdV>)
    ensures
        forall|x: RemoteIdV| dedup_ids(ids).contains(x) <==> ids.contains(x),
    decreases ids.len(),
{
    if ids.len() > 0 {
        let front = ids.drop_last();
        lemma_dedup_ids_complete(front);
        assert forall|x: RemoteIdV| ids.contains(x) implies dedup_ids(ids).contains(x) by {
            let w = choose|w: int| 0 <= w < ids.len() && ids[w] == x;
            if w < ids.len() - 1 {
                assert(front[w] == x);
                assert(front.contains(x));
                assert(dedup_ids(front).contains(x));
                let v = choose|v: int|
                    0 <= v < dedup_ids(front).len() && dedup_ids(front)[v] == x;
                assert(dedup_ids(ids)[v] == x);
            } else {
                assert(ids.last() == x);
                if front.contains(x) {
                    assert(dedup_ids(front).contains(x));
                    let v = choose|v: int|
                        0 <= v < dedup_ids(front).len() && dedup_ids(front)[v] == x;
                    assert(dedup_ids(ids)[v] == x);
                } else {
                    assert(dedup_ids(ids) == dedup_ids(front).push(x));
                    assert(dedup_ids(ids)[dedup_ids(ids).len() - 1] == x);
                }
            }
        }
        assert forall|x: RemoteIdV| dedup_ids(ids).contains(x) implies ids.contains(x) by {
            let w = choose|w: int| 0 <= w < dedup_ids(ids).len() && dedup_ids(ids)[w] == x;
            if w < dedup_ids(front).len() {
                assert(dedup_ids(front)[w] == x);
                assert(dedup_ids(front).contains(x));
                assert(front.contains(x));
                let v = choose|v: int| 0 <= v < front.len() && front[v] == x;
                assert(ids[v] == x);
            } else {
                assert(dedup_ids(ids)[w] == ids.last());
                assert(ids[ids.len() - 1] == x);
            }
        }
    }
}

/// Deduplication leaves no identity twice.
pub proof fn lemma_dedup_ids_distinct(ids: Seq<RemoteIdV>)
    ensures
        forall|i: int, j: int|
            0 <= i < j < dedup_ids(ids).len() ==> dedup_ids(ids)[i] != dedup_ids(ids)[j],
    decreases ids.len(),
{
    if ids.len() > 0 {
        lemma_dedup_ids_distinct(ids.drop_last());
        lemma_dedup_ids_complete(ids.drop_last());
        let front = dedup_ids(ids.drop_last());
        if !ids.drop_last().contains(ids.last()) {
            assert(!front.contains(ids.last()));
            assert forall|i: int, j: int|
                0 <= i < j < dedup_ids(ids).len() implies dedup_ids(ids)[i] != dedup_ids(
                ids,
            )[j] by {
                if j < front.len() {
                } else {
                    assert(dedup_ids(ids)[j] == ids.last());
                    assert(dedup_ids(ids)[i] == front[i]);
                    assert(front.contains(front[i]));
                }
            }
        }
    }
}

/// The first fetched remote with the given identity.
pub open spec fn find_resolved(resolved: Seq<ResolvedRemote>, id: RemoteIdV) -> Option<
    ResolvedRemote,
>
    decreases resolved.len(),
{
    if resolved.len() == 0 {
        None
    } else if resolved_id(resolved[0]) == id {
        Some(resolved[0])
    } else {
        find_resolved(resolved.drop_first(), id)
    }
}

pub proof fn lemma_find_resolved_skip(resolved: Seq<ResolvedRemote>, id: RemoteIdV, i: int)
    requires
        0 <= i <= resolved.len(),
        forall|j: int| 0 <= j < i ==> resolved_id(resolved[j]) != id,
    ensures
        find_resolved(resolved, id) == find_resolved(resolved.skip(i), id),
    decreases i,
{
    if i == 0 {
        assert(resolved.skip(0) =~= resolved);
    } else {
        lemma_find_resolved_skip(resolved.drop_first(), id, i - 1);
        assert(resolved.drop_first().skip(i - 1) =~= resolved.skip(i));
    }
}

/// Whether `id` matches the identity of the remote entry `rc`.
fn id_matches(id: &RemoteId, url: &String, rev: &String) -> (r: bool)
    ensures
        r == (id@ == (RemoteIdV { url: url@, rev: rev@ })),
{
    let ok = strings::str_eq(id.url.as_str(), url.as_str()) && strings::str_eq(
        id.rev.as_str(),
        rev.as_str(),
    );
    ok
}

/// Whether the list already holds this identity.
fn ids_contain(out: &Vec<RemoteId>, url: &String, rev: &String) -> (r: bool)
    ensures
        r == ids_view(out@).contains(RemoteIdV { url: url@, rev: rev@ }),
{
    let ghost target = RemoteIdV { url: url@, rev: rev@ };
    let mut i: usize = 0;
    while i < out.len()
        invariant
            0 <= i <= out@.len(),
            target == (RemoteIdV { url: url@, rev: rev@ }),
            forall|j: int| 0 <= j < i ==> ids_view(out@)[j] != target,
        decreases out@.len() - i,
    {
        if id_matches(&out[i], url, rev) {
            assert(ids_view(out@)[i as int] == target);
            return true;
        }
        i = i + 1;
    }
    assert(!ids_view(out@).contains(target));
    false
}

/// Appends to `out` the identities of `repos` that are not there yet, in
/// declaration order. `out` must already be the deduplication of `prefix`.
fn collect_ids(out: &mut Vec<RemoteId>, repos: &Vec<RepoConfig>, prefix: Ghost<Seq<RemoteIdV>>)
    requires
        ids_view(old(out)@) == dedup_ids(prefix@),
    ensures
        ids_view(final (out)@) == dedup_ids(prefix@ + config_remote_ids(repos@)),
{
    let mut k: usize = 0;
    while k < repos.len()
        invariant
            0 <= k <= repos@.len(),
            ids_view(out@) == dedup_ids(prefix@ + config_remote_ids(repos@.take(k as int))),
        decreases repos@.len() - k,
    {
        let ghost sofar = prefix@ + config_remote_ids(repos@.take(k as int));
        proof {
            assert(repos@.take(k + 1 as int) =~= repos@.take(k as int).push(repos@[k as int]));
            lemma_config_ids_snoc(repos@.take(k as int), repos@[k as int]);
        }
        match &repos[k] {
            RepoConfig::Remote(rc) => {
                let ghost id = RemoteIdV { url: rc.url@, rev: rc.rev@ };
                proof {
                    assert(entry_ids(repos@[k as int]) =~= seq![id]);
                    assert(prefix@ + config_remote_ids(repos@.take(k + 1 as int)) =~= sofar.push(
                        id,
                    ));
                    assert(sofar.push(id).drop_last() =~= sofar);
                    assert(sofar.push(id).last() == id);
                    lemma_dedup_ids_complete(sofar);
                }
                if !ids_contain(out, &rc.url, &rc.rev) {
                    let url = clone_string(&rc.url);
                    let rev = clone_string(&rc.rev);
                    out.push(RemoteId { url, rev });
                    assert(ids_view(out@) =~= dedup_ids(sofar).push(id));
                }
            },
            _ => {
                proof {
                    assert(entry_ids(repos@[k as int]) =~= Seq::<RemoteIdV>::empty());
                    assert(prefix@ + config_remote_ids(repos@.take(k + 1 as int)) =~= sofar);
                }
            },
        }
        k = k + 1;
    }
    proof {
        assert(repos@.take(repos@.len() as int) =~= repos@);
    }
}

/// The distinct remote identities declared across all projects, each kept
/// once, in first-occurrence order: the fetch set. Fetching exactly this
/// list fetches every declared identity exactly once.
pub fn remote_identities(projects: &Vec<Project>) -> (r: Vec<RemoteId>)
    ensures
        ids_view(r@) == dedup_ids(workspace_remote_ids(projects@)),
{
    let mut out: Vec<RemoteId> = Vec::new();
    let mut p: usize = 0;
    assert(ids_view(out@) =~= dedup_ids(workspace_remote_ids(projects@.take(0))));
    while p < projects.len()
        invariant
            0 <= p <= projects@.len(),
            ids_view(out@) == dedup_ids(workspace_remote_ids(projects@.take(p as int))),
        decreases projects@.len() - p,
    {
        proof {
            assert(projects@.take(p + 1 as int) =~= projects@.take(p as int).push(
                projects@[p as int],
            ));
            lemma_workspace_ids_snoc(projects@.take(p as int), projects@[p as int]);
        }
        collect_ids(
            &mut out,
            &projects[p].config.repos,
            Ghost(workspace_remote_ids(projects@.take(p as int))),
        );
        p = p + 1;
    }
    proof {
        assert(projects@.take(projects@.len() as int) =~= projects@);
    }
    out
}

/// The distinct remote identities of a single project, in declaration
/// order.
pub fn project_remote_identities(project: &Project) -> (r: Vec<RemoteId>)
    ensures
        ids_view(r@) == dedup_ids(config_remote_ids(project.config.repos@)),
{
    let mut out: Vec<RemoteId> = Vec::new();
    assert(ids_view(out@) =~= dedup_ids(Seq::<RemoteIdV>::empty()));
    collect_ids(&mut out, &project.config.repos, Ghost(Seq::<RemoteIdV>::empty()));
    proof {
        assert(Seq::<RemoteIdV>::empty() + config_remote_ids(project.config.repos@)
            =~= config_remote_ids(project.config.repos@));
    }
    out
}

/// A remote entry's identity is among the identities its configuration
/// declares.
pub proof fn lemma_config_ids_has(repos: Seq<RepoConfig>, k: int)
    requires
        0 <= k < repos.len(),
    ensures
        repos[k] matches RepoConfig::Remote(rc) ==> config_remote_ids(repos).contains(
            RemoteIdV { url: rc.url@, rev: rc.rev@ },
        ),
    decreases repos.len(),
{
    if repos[k] is Remote {
        let rc = repos[k]->Remote_0;
        let id = RemoteIdV { url: rc.url@, rev: rc.rev@ };
        if k == 0 {
            assert(config_remote_ids(repos)[0] == id);
        } else {
            lemma_config_ids_has(repos.drop_first(), k - 1);
            assert(repos.drop_first()[k - 1] == repos[k]);
            let w = choose|w: int|
                0 <= w < config_remote_ids(repos.drop_first()).len() && config_remote_ids(
                    repos.drop_first(),
                )[w] == id;
            assert(config_remote_ids(repos)[entry_ids(repos[0]).len() + w] == id);
        }
    }
}

/// Every identity a member project declares is among the workspace's.
pub proof fn lemma_workspace_ids_has(projects: Seq<Project>, i: int, id: RemoteIdV)
    requires
        0 <= i < projects.len(),
        config_remote_ids(projects[i].config.repos@).contains(id),
    ensures
        workspace_remote_ids(projects).contains(id),
    decreases projects.len(),
{
    if i == 0 {
        let w = choose|w: int|
            0 <= w < config_remote_ids(projects[0].config.repos@).len() && config_remote_ids(
                projects[0].config.repos@,
            )[w] == id;
        assert(workspace_remote_ids(projects)[w] == id);
    } else {
        lemma_workspace_ids_has(projects.drop_first(), i - 1, id);
        assert(projects.drop_first()[i - 1] == projects[i]);
        let w = choose|w: int|
            0 <= w < workspace_remote_ids(projects.drop_first()).len() && workspace_remote_ids(
                projects.drop_first(),
            )[w] == id;
        assert(workspace_remote_ids(projects)[config_remote_ids(projects[0].config.repos@).len()
            + w] == id);
    }
}

/// How one resolved repository relates to the configuration entry it
/// resolves: a remote entry resolves to the shared repository fetched for
/// its identity; local and meta entries to fresh repositories built from
/// their inline hooks.
pub open spec fn repo_matches_entry(
    repo: RepoV,
    entry: RepoConfig,
    resolved: Seq<ResolvedRemote>,
) -> bool {
    match entry {
        RepoConfig::Remote(rc) => {
            let found = find_resolved(resolved, RemoteIdV { url: rc.url@, rev: rc.rev@ });
            found is Some && repo == resolved_repo_view(found.unwrap())
        },
        RepoConfig::Local { hooks } => repo == (RepoV::Local { hooks: hooks_view(hooks@) }),
        RepoConfig::Meta { hooks } => repo == (RepoV::Meta { hooks: metas_view(hooks@) }),
    }
}

pub open spec fn repos_match(
    repos: Seq<Rc<Repo>>,
    entries: Seq<RepoConfig>,
    resolved: Seq<ResolvedRemote>,
) -> bool {
    &&& repos.len() == entries.len()
    &&& forall|k: int|
        0 <= k < entries.len() ==> repo_matches_entry(#[trigger] repos[k]@, entries[k], resolved)
}

/// Normalizes built-in hooks into the manifest-hook shape.
pub fn normalize_metas(hooks: &Vec<MetaHook>) -> (r: Vec<ManifestHook>)
    ensures
        hooks_view(r@) == metas_view(hooks@),
{
    let mut r: Vec<ManifestHook> = Vec::new();
    let mut i: usize = 0;
    while i < hooks.len()
        invariant
            0 <= i <= hooks@.len(),
            r@.len() == i,
            forall|j: int| 0 <= j < i ==> #[trigger] r@[j]@ == normalized_meta(hooks@[j]@),
        decreases hooks@.len() - i,
    {
        r.push(hooks[i].manifest_hook());
        i = i + 1;
    }
    assert(hooks_view(r@) =~= metas_view(hooks@));
    r
}

/// Looks the identity up in the table of fetched repositories and hands out
/// the shared handle of the first entry with that identity.
fn lookup_remote(
    ids: &Vec<RemoteId>,
    table: &Vec<Rc<Repo>>,
    url: &String,
    rev: &String,
    resolved: Ghost<Seq<ResolvedRemote>>,
) -> (r: Rc<Repo>)
    requires
        ids@.len() == resolved@.len(),
        table@.len() == resolved@.len(),
        forall|j: int| 0 <= j < resolved@.len() ==> #[trigger] ids@[j]@ == resolved_id(resolved@[j]),
        forall|j: int|
            0 <= j < resolved@.len() ==> #[trigger] table@[j]@ == resolved_repo_view(resolved@[j]),
        find_resolved(resolved@, RemoteIdV { url: url@, rev: rev@ }) is Some,
    ensures
        r@ == resolved_repo_view(
            find_resolved(resolved@, RemoteIdV { url: url@, rev: rev@ }).unwrap(),
        ),
{
    let ghost id = RemoteIdV { url: url@, rev: rev@ };
    let mut j: usize = 0;
    while j < ids.len()
        invariant
            0 <= j <= ids@.len(),
            id == (RemoteIdV { url: url@, rev: rev@ }),
            ids@.len() == resolved@.len(),
            table@.len() == resolved@.len(),
            forall|t: int|
                0 <= t < resolved@.len() ==> #[trigger] ids@[t]@ == resolved_id(resolved@[t]),
            forall|t: int|
                0 <= t < resolved@.len() ==> #[trigger] table@[t]@ == resolved_repo_view(
                    resolved@[t],
                ),
            forall|t: int| 0 <= t < j ==> resolved_id(resolved@[t]) != id,
        decreases ids@.len() - j,
    {
        if id_matches(&ids[j], url, rev) {
            proof {
                lemma_find_resolved_skip(resolved@, id, j as int);
                assert(resolved@.skip(j as int)[0] == resolved@[j as int]);
                assert(find_resolved(resolved@, id) == Some(resolved@[j as int]));
            }
            return table[j].clone();
        }
        j = j + 1;
    }
    proof {
        lemma_find_resolved_skip(resolved@, id, resolved@.len() as int);
        assert(resolved@.skip(resolved@.len() as int) =~= Seq::<ResolvedRemote>::empty());
        assert(false);
    }
    vstd::pervasive::unreached()
}

/// Builds the resolved repository list of one project: one repository per
/// configuration entry, in declaration order.
fn build_repos(
    entries: &Vec<RepoConfig>,
    ids: &Vec<RemoteId>,
    table: &Vec<Rc<Repo>>,
    resolved: Ghost<Seq<ResolvedRemote>>,
) -> (r: Vec<Rc<Repo>>)
    requires
        ids@.len() == resolved@.len(),
        table@.len() == resolved@.len(),
        forall|j: int| 0 <= j < resolved@.len() ==> #[trigger] ids@[j]@ == resolved_id(resolved@[j]),
        forall|j: int|
            0 <= j < resolved@.len() ==> #[trigger] table@[j]@ == resolved_repo_view(resolved@[j]),
        forall|id: RemoteIdV|
            config_remote_ids(entries@).contains(id) ==> find_resolved(resolved@, id) is Some,
    ensures
        repos_match(r@, entries@, resolved@),
{
    let mut r: Vec<Rc<Repo>> = Vec::new();
    let mut k: usize = 0;
    while k < entries.len()
        invariant
            0 <= k <= entries@.len(),
            r@.len() == k,
            ids@.len() == resolved@.len(),
            table@.len() == resolved@.len(),
            forall|j: int|
                0 <= j < resolved@.len() ==> #[trigger] ids@[j]@ == resolved_id(resolved@[j]),
            forall|j: int|
                0 <= j < resolved@.len() ==> #[trigger] table@[j]@ == resolved_repo_view(
                    resolved@[j],
                ),
            forall|id: RemoteIdV|
                config_remote_ids(entries@).contains(id) ==> find_resolved(resolved@, id) is Some,
            forall|j: int|
                0 <= j < k ==> repo_matches_entry(#[trigger] r@[j]@, entries@[j], resolved@),
        decreases entries@.len() - k,
    {
        match &entries[k] {
            RepoConfig::Remote(rc) => {
                proof {
                    lemma_config_ids_has(entries@, k as int);
                }
                let repo = lookup_remote(ids, table, &rc.url, &rc.rev, resolved);
                r.push(repo);
            },
            RepoConfig::Local { hooks } => {
                let repo = Rc::new(Repo::local(clone_hooks(hooks)));
                r.push(repo);
            },
            RepoConfig::Meta { hooks } => {
                let repo = Rc::new(Repo::meta(normalize_metas(hooks)));
                r.push(repo);
            },
        }
        k = k + 1;
    }
    r
}

/// Turns the fetched remotes into shared repository handles, one per
/// fetch, keyed by their identities.
fn make_remote_table(resolved: Vec<ResolvedRemote>) -> (r: (Vec<RemoteId>, Vec<Rc<Repo>>))
    ensures
        r.0@.len() == resolved@.len(),
        r.1@.len() == resolved@.len(),
        forall|j: int| 0 <= j < resolved@.len() ==> #[trigger] r.0@[j]@ == resolved_id(resolved@[j]),
        forall|j: int|
            0 <= j < resolved@.len() ==> #[trigger] r.1@[j]@ == resolved_repo_view(resolved@[j]),
{
    let ghost resolved_orig = resolved@;
    let mut resolved = resolved;
    let mut ids: Vec<RemoteId> = Vec::new();
    let mut table: Vec<Rc<Repo>> = Vec::new();
    while resolved.len() > 0
        invariant
            resolved@ =~= resolved_orig.skip(ids@.len() as int),
            ids@.len() <= resolved_orig.len(),
            table@.len() == ids@.len(),
            forall|j: int|
                0 <= j < ids@.len() ==> #[trigger] ids@[j]@ == resolved_id(resolved_orig[j]),
            forall|j: int|
                0 <= j < ids@.len() ==> #[trigger] table@[j]@ == resolved_repo_view(
                    resolved_orig[j],
                ),
        decreases resolved@.len(),
    {
        let rr = resolved.remove(0);
        proof {
            assert(rr == resolved_orig[ids@.len() as int]);
            assert(resolved@ =~= resolved_orig.skip(ids@.len() + 1 as int));
        }
        let url = clone_string(&rr.url);
        let rev = clone_string(&rr.rev);
        ids.push(RemoteId { url, rev });
        table.push(Rc::new(Repo::remote(rr.url, rr.rev, rr.path, rr.manifest)));
    }
    assert(ids@.len() == resolved_orig.len());
    (ids, table)
}

impl Project {
    /// Resolves this single project's repository list from the fetched
    /// remotes: one repository per configuration entry, remote entries
    /// sharing the repository fetched for their identity. Every other field
    /// is untouched.
    pub fn init_repos(&mut self, resolved: Vec<ResolvedRemote>)
        requires
            forall|id: RemoteIdV|
                config_remote_ids(old(self).config.repos@).contains(id) ==> find_resolved(
                    resolved@,
                    id,
                ) is Some,
        ensures
            *final (self) == (Project { repos: final (self).repos, ..*old(self) }),
            repos_match(final (self).repos@, old(self).config.repos@, resolved@),
    {
        let ghost rv = resolved@;
        let (ids, table) = make_remote_table(resolved);
        let repos = build_repos(&self.config.repos, &ids, &table, Ghost(rv));
        self.repos = repos;
    }
}

/// Second resolution pass: gives every project its resolved repository
/// list. Each remote entry receives the shared repository fetched for its
/// identity — so two entries declaring the same identity, in the same or in
/// different projects, receive the same repository — and each local or meta
/// entry a fresh repository built from its inline hooks. All other project
/// fields are untouched.
pub fn distribute_repos(projects: Vec<Project>, resolved: Vec<ResolvedRemote>) -> (r: Vec<Project>)
    requires
        forall|id: RemoteIdV|
            workspace_remote_ids(projects@).contains(id) ==> find_resolved(resolved@, id) is Some,
    ensures
        r@.len() == projects@.len(),
        forall|i: int|
            0 <= i < projects@.len() ==> #[trigger] r@[i] == (Project {
                repos: r@[i].repos,
                ..projects@[i]
            }),
        forall|i: int|
            0 <= i < projects@.len() ==> repos_match(
                #[trigger] r@[i].repos@,
                projects@[i].config.repos@,
                resolved@,
            ),
{
    let ghost resolved_orig = resolved@;
    let (ids, table) = make_remote_table(resolved);
    let ghost projects_orig = projects@;
    let mut projects = projects;
    let mut out: Vec<Project> = Vec::new();
    while projects.len() > 0
        invariant
            projects@ =~= projects_orig.skip(out@.len() as int),
            out@.len() <= projects_orig.len(),
            ids@.len() == resolved_orig.len(),
            table@.len() == resolved_orig.len(),
            forall|j: int|
                0 <= j < resolved_orig.len() ==> #[trigger] ids@[j]@ == resolved_id(
                    resolved_orig[j],
                ),
            forall|j: int|
                0 <= j < resolved_orig.len() ==> #[trigger] table@[j]@ == resolved_repo_view(
                    resolved_orig[j],
                ),
            forall|id: RemoteIdV|
                workspace_remote_ids(projects_orig).contains(id) ==> find_resolved(
                    resolved_orig,
                    id,
                ) is Some,
            forall|i: int|
                0 <= i < out@.len() ==> #[trigger] out@[i] == (Project {
                    repos: out@[i].repos,
                    ..projects_orig[i]
                }),
            forall|i: int|
                0 <= i < out@.len() ==> repos_match(
                    #[trigger] out@[i].repos@,
                    projects_orig[i].config.repos@,
                    resolved_orig,
                ),
        decreases projects@.len(),
    {
        let mut p = projects.remove(0);
        proof {
            assert(p == projects_orig[out@.len() as int]);
            assert(projects@ =~= projects_orig.skip(out@.len() + 1 as int));
            assert forall|id: RemoteIdV|
                config_remote_ids(p.config.repos@).contains(id) implies find_resolved(
                resolved_orig,
                id,
            ) is Some by {
                lemma_workspace_ids_has(projects_orig, out@.len() as int, id);
            }
        }
        let repos = build_repos(&p.config.repos, &ids, &table, Ghost(resolved_orig));
        p.repos = repos;
        out.push(p);
    }
    assert(out@.len() == projects_orig.len());
    out
}

} // verus!
