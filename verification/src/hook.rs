use std::rc::Rc;

use vstd::prelude::*;

use crate::config::{
    clone_hooks, hooks_view, opt_string_view, Config, HookPatch, ManifestHook, ManifestHookV,
    PatchV,
};
use crate::path::{clone_string, FsPath};

verus! {

/// A resolved dependency source for hooks.
///
/// A `Remote` repository was fetched once and is shared, through reference
/// counting, by every project that declares the same url and revision; its
/// `manifest` is the list of hook definitions the repository advertises.
/// `Local` and `Meta` repositories carry their definitions inline and are
/// instantiated fresh per project.
pub enum Repo {
    Remote { url: String, rev: String, path: String, manifest: Vec<ManifestHook> },
    Local { hooks: Vec<ManifestHook> },
    Meta { hooks: Vec<ManifestHook> },
}

pub enum RepoV {
    Remote { url: Seq<char>, rev: Seq<char>, path: Seq<char>, manifest: Seq<ManifestHookV> },
    Local { hooks: Seq<ManifestHookV> },
    Meta { hooks: Seq<ManifestHookV> },
}

impl View for Repo {
    type V = RepoV;

    open spec fn view(&self) -> RepoV {
        match self {
            Repo::Remote { url, rev, path, manifest } => RepoV::Remote {
                url: url@,
                rev: rev@,
                path: path@,
                manifest: hooks_view(manifest@),
            },
            Repo::Local { hooks } => RepoV::Local { hooks: hooks_view(hooks@) },
            Repo::Meta { hooks } => RepoV::Meta { hooks: hooks_view(hooks@) },
        }
    }
}

/// The name under which a repository appears in error reports.
pub open spec fn repo_name_spec(r: RepoV) -> Seq<char> {
    match r {
        RepoV::Remote { url, .. } => url,
        RepoV::Local { .. } => "local"@,
        RepoV::Meta { .. } => "meta"@,
    }
}

/// The hook definitions a repository offers.
pub open spec fn repo_hooks(r: RepoV) -> Seq<ManifestHookV> {
    match r {
        RepoV::Remote { manifest, .. } => manifest,
        RepoV::Local { hooks } => hooks,
        RepoV::Meta { hooks } => hooks,
    }
}

/// The first hook definition with the given id, if any.
pub open spec fn find_hook_in(hooks: Seq<ManifestHookV>, id: Seq<char>) -> Option<ManifestHookV>
    decreases hooks.len(),
{
    if hooks.len() == 0 {
        None
    } else if hooks[0].id == id {
        Some(hooks[0])
    } else {
        find_hook_in(hooks.drop_first(), id)
    }
}

/// A match is unaffected by dropping a prefix without matches.
pub proof fn lemma_find_hook_skip(hooks: Seq<ManifestHookV>, id: Seq<char>, i: int)
    requires
        0 <= i <= hooks.len(),
        forall|j: int| 0 <= j < i ==> hooks[j].id != id,
    ensures
        find_hook_in(hooks, id) == find_hook_in(hooks.skip(i), id),
    decreases i,
{
    if i == 0 {
        assert(hooks.skip(0) =~= hooks);
    } else {
        lemma_find_hook_skip(hooks.drop_first(), id, i - 1);
        assert(hooks.drop_first().skip(i - 1) =~= hooks.skip(i));
    }
}

impl Repo {
    /// A fetched remote repository with the manifest read from its checkout.
    pub fn remote(url: String, rev: String, path: String, manifest: Vec<ManifestHook>) -> (r: Repo)
        ensures
            r@ == (RepoV::Remote {
                url: url@,
                rev: rev@,
                path: path@,
                manifest: hooks_view(manifest@),
            }),
    {
        Repo::Remote { url, rev, path, manifest }
    }

    /// A repository embedded in the project configuration itself.
    pub fn local(hooks: Vec<ManifestHook>) -> (r: Repo)
        ensures
            r@ == (RepoV::Local { hooks: hooks_view(hooks@) }),
    {
        Repo::Local { hooks }
    }

    /// The built-in repository of tool-provided hooks.
    pub fn meta(hooks: Vec<ManifestHook>) -> (r: Repo)
        ensures
            r@ == (RepoV::Meta { hooks: hooks_view(hooks@) }),
    {
        Repo::Meta { hooks }
    }

    /// The repository's name in error reports.
    pub fn name(&self) -> (r: String)
        ensures
            r@ == repo_name_spec(self@),
    {
        match self {
            Repo::Remote { url, .. } => clone_string(url),
            Repo::Local { .. } => "local".to_owned(),
            Repo::Meta { .. } => "meta".to_owned(),
        }
    }

    /// Looks the hook id up among the hooks this repository offers.
    pub fn get_hook(&self, id: &String) -> (r: Option<&ManifestHook>)
        ensures
            match r {
                Some(h) => find_hook_in(repo_hooks(self@), id@) == Some(h@),
                None => find_hook_in(repo_hooks(self@), id@) is None,
            },
    {
        let hooks: &Vec<ManifestHook> = match self {
            Repo::Remote { manifest, .. } => manifest,
            Repo::Local { hooks } => hooks,
            Repo::Meta { hooks } => hooks,
        };
        let ghost hv = repo_hooks(self@);
        assert(hv == hooks_view(hooks@));
        let mut i: usize = 0;
        while i < hooks.len()
            invariant
                0 <= i <= hooks@.len(),
                hv == hooks_view(hooks@),
                hv == repo_hooks(self@),
                forall|j: int| 0 <= j < i ==> hv[j].id != id@,
            decreases hooks@.len() - i,
        {
            if crate::strings::str_eq(hooks[i].id.as_str(), id.as_str()) {
                proof {
                    lemma_find_hook_skip(hv, id@, i as int);
                    assert(hv[i as int] == hooks@[i as int]@);
                    assert(hv.skip(i as int)[0] == hv[i as int]);
                    assert(hv.skip(i as int).len() > 0);
                    assert(find_hook_in(hv, id@) == Some(hv[i as int]));
                }
                return Some(&hooks[i]);
            }
            i = i + 1;
        }
        proof {
            lemma_find_hook_skip(hv, id@, hooks@.len() as int);
            assert(hv.skip(hooks@.len() as int) =~= Seq::<ManifestHookV>::empty());
        }
        None
    }
}

/// Picks one optional text field across the three layers: the per-hook
/// override if it sets the field, else the project-wide default if it does,
/// else the base definition's value.
pub open spec fn pick_str(
    base: Option<Seq<char>>,
    over: Option<Seq<char>>,
    deflt: Option<Seq<char>>,
) -> Option<Seq<char>> {
    if over is Some {
        over
    } else if deflt is Some {
        deflt
    } else {
        base
    }
}

/// `pick_str`, for flag fields.
pub open spec fn pick_bool(base: Option<bool>, over: Option<bool>, deflt: Option<bool>) -> Option<
    bool,
> {
    if over is Some {
        over
    } else if deflt is Some {
        deflt
    } else {
        base
    }
}

/// The field-by-field merge of the three configuration layers.
pub open spec fn merged_patch(base: PatchV, over: PatchV, deflt: PatchV) -> PatchV {
    PatchV {
        name: pick_str(base.name, over.name, deflt.name),
        entry: pick_str(base.entry, over.entry, deflt.entry),
        language: pick_str(base.language, over.language, deflt.language),
        verbose: pick_bool(base.verbose, over.verbose, deflt.verbose),
    }
}

/// Merge precedence over a single field: a field set by the per-hook
/// override wins; a field the override leaves unset comes from the
/// project-wide default if that sets it; otherwise the base value holds.
pub proof fn lemma_merge_precedence(base: PatchV, over: PatchV, deflt: PatchV)
    ensures
        over.name is Some ==> merged_patch(base, over, deflt).name == over.name,
        over.name is None && deflt.name is Some ==> merged_patch(base, over, deflt).name
            == deflt.name,
        over.name is None && deflt.name is None ==> merged_patch(base, over, deflt).name
            == base.name,
        over.entry is Some ==> merged_patch(base, over, deflt).entry == over.entry,
        over.entry is None && deflt.entry is Some ==> merged_patch(base, over, deflt).entry
            == deflt.entry,
        over.entry is None && deflt.entry is None ==> merged_patch(base, over, deflt).entry
            == base.entry,
        over.language is Some ==> merged_patch(base, over, deflt).language == over.language,
        over.language is None && deflt.language is Some ==> merged_patch(
            base,
            over,
            deflt,
        ).language == deflt.language,
        over.language is None && deflt.language is None ==> merged_patch(
            base,
            over,
            deflt,
        ).language == base.language,
        over.verbose is Some ==> merged_patch(base, over, deflt).verbose == over.verbose,
        over.verbose is None && deflt.verbose is Some ==> merged_patch(base, over, deflt).verbose
            == deflt.verbose,
        over.verbose is None && deflt.verbose is None ==> merged_patch(base, over, deflt).verbose
            == base.verbose,
{
}

fn pick_string_field(base: &Option<String>, over: &Option<String>, deflt: &Option<String>) -> (r:
    Option<String>)
    ensures
        opt_string_view(r) == pick_str(
            opt_string_view(*base),
            opt_string_view(*over),
            opt_string_view(*deflt),
        ),
{
    if let Some(s) = over {
        Some(clone_string(s))
    } else if let Some(s) = deflt {
        Some(clone_string(s))
    } else if let Some(s) = base {
        Some(clone_string(s))
    } else {
        None
    }
}

fn pick_bool_field(base: &Option<bool>, over: &Option<bool>, deflt: &Option<bool>) -> (r: Option<
    bool,
>)
    ensures
        r == pick_bool(*base, *over, *deflt),
{
    if let Some(b) = over {
        Some(*b)
    } else if let Some(b) = deflt {
        Some(*b)
    } else if let Some(b) = base {
        Some(*b)
    } else {
        None
    }
}

/// Merges the three layers of one hook's configuration.
pub fn merge_patch(base: &HookPatch, over: &HookPatch, deflt: &HookPatch) -> (r: HookPatch)
    ensures
        r@ == merged_patch(base@, over@, deflt@),
{
    HookPatch {
        name: pick_string_field(&base.name, &over.name, &deflt.name),
        entry: pick_string_field(&base.entry, &over.entry, &deflt.entry),
        language: pick_string_field(&base.language, &over.language, &deflt.language),
        verbose: pick_bool_field(&base.verbose, &over.verbose, &deflt.verbose),
    }
}

/// One fully assembled, executable hook definition.
///
/// `work_dir` is the owning project's directory and `scope` its path
/// relative to the workspace root: the execution engine runs the hook in
/// `work_dir` and shows it only files under that scope. `idx` is the hook's
/// position in the single global execution order.
pub struct Hook {
    pub project_idx: usize,
    pub work_dir: FsPath,
    pub scope: FsPath,
    pub repo: Rc<Repo>,
    pub id: String,
    pub info: HookPatch,
    pub idx: usize,
}

/// Builds one `Hook` from its three configuration layers, yielding the
/// immutable value only once every layer is in place.
pub struct HookBuilder {
    pub project_idx: usize,
    pub work_dir: FsPath,
    pub scope: FsPath,
    pub repo: Rc<Repo>,
    pub id: String,
    pub base: HookPatch,
    pub over: HookPatch,
    pub deflt: HookPatch,
    pub idx: usize,
}

impl HookBuilder {
    /// Starts from the base definition `hook`, with both override layers
    /// empty.
    pub fn new(
        project_idx: usize,
        work_dir: FsPath,
        scope: FsPath,
        repo: Rc<Repo>,
        hook: ManifestHook,
        idx: usize,
    ) -> (r: HookBuilder)
        ensures
            r.project_idx == project_idx,
            r.work_dir == work_dir,
            r.scope == scope,
            r.repo == repo,
            r.id == hook.id,
            r.base == hook.info,
            r.over@ == (PatchV { name: None, entry: None, language: None, verbose: None }),
            r.deflt@ == (PatchV { name: None, entry: None, language: None, verbose: None }),
            r.idx == idx,
    {
        HookBuilder {
            project_idx,
            work_dir,
            scope,
            repo,
            id: hook.id,
            base: hook.info,
            over: HookPatch::empty(),
            deflt: HookPatch::empty(),
            idx,
        }
    }

    /// Records the per-hook overrides declared at the referencing project.
    pub fn update(&mut self, patch: HookPatch)
        ensures
            *final (self) == (HookBuilder { over: patch, ..*old(self) }),
    {
        self.over = patch;
    }

    /// Records the project-wide default fields.
    pub fn combine(&mut self, config: &Config)
        ensures
            final (self).deflt@ == config.defaults@,
            *final (self) == (HookBuilder { deflt: final (self).deflt, ..*old(self) }),
    {
        self.deflt = config.defaults.clone();
    }

    /// Merges the layers and yields the finished hook.
    pub fn build(self) -> (r: Hook)
        ensures
            r.project_idx == self.project_idx,
            r.work_dir == self.work_dir,
            r.scope == self.scope,
            r.repo == self.repo,
            r.id == self.id,
            r.info@ == merged_patch(self.base@, self.over@, self.deflt@),
            r.idx == self.idx,
    {
        let info = merge_patch(&self.base, &self.over, &self.deflt);
        Hook {
            project_idx: self.project_idx,
            work_dir: self.work_dir,
            scope: self.scope,
            repo: self.repo,
            id: self.id,
            info,
            idx: self.idx,
        }
    }
}

} // verus!
