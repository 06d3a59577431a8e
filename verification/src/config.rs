use vstd::prelude::*;

use crate::path::clone_string;
use crate::strings;

verus! {

/// Name of the configuration file that marks a project directory.
pub const CONFIG_FILE: &'static str = ".pre-commit-config.yaml";

/// Whether `name` is the recognized configuration filename.
pub fn is_config_file_name(name: &String) -> (r: bool)
    ensures
        r == (name@ == CONFIG_FILE@),
{
    strings::str_eq(name.as_str(), CONFIG_FILE)
}

/// The optional fields of a hook definition. Every configuration layer sets
/// any subset of them; merging picks each field from the highest layer that
/// sets it.
pub struct HookPatch {
    pub name: Option<String>,
    pub entry: Option<String>,
    pub language: Option<String>,
    pub verbose: Option<bool>,
}

/// Mathematical image of a `HookPatch`.
pub struct PatchV {
    pub name: Option<Seq<char>>,
    pub entry: Option<Seq<char>>,
    pub language: Option<Seq<char>>,
    pub verbose: Option<bool>,
}

pub open spec fn opt_string_view(o: Option<String>) -> Option<Seq<char>> {
    match o {
        Some(s) => Some(s@),
        None => None,
    }
}

impl View for HookPatch {
    type V = PatchV;

    open spec fn view(&self) -> PatchV {
        PatchV {
            name: opt_string_view(self.name),
            entry: opt_string_view(self.entry),
            language: opt_string_view(self.language),
            verbose: self.verbose,
        }
    }
}

impl HookPatch {
    /// A patch that sets nothing.
    pub fn empty() -> (r: HookPatch)
        ensures
            r@ == (PatchV { name: None, entry: None, language: None, verbose: None }),
    {
        HookPatch { name: None, entry: None, language: None, verbose: None }
    }
}

pub fn clone_opt_string(o: &Option<String>) -> (r: Option<String>)
    ensures
        opt_string_view(r) == opt_string_view(*o),
{
    match o {
        Some(s) => Some(clone_string(s)),
        None => None,
    }
}

impl Clone for HookPatch {
    fn clone(&self) -> (r: Self)
        ensures
            r@ == self@,
    {
        HookPatch {
            name: clone_opt_string(&self.name),
            entry: clone_opt_string(&self.entry),
            language: clone_opt_string(&self.language),
            verbose: if let Some(b) = self.verbose {
                Some(b)
            } else {
                None
            },
        }
    }
}

/// One fully specified hook definition, as a repository manifest advertises
/// it or as a local repository entry embeds it.
pub struct ManifestHook {
    pub id: String,
    pub info: HookPatch,
}

pub struct ManifestHookV {
    pub id: Seq<char>,
    pub info: PatchV,
}

impl View for ManifestHook {
    type V = ManifestHookV;

    open spec fn view(&self) -> ManifestHookV {
        ManifestHookV { id: self.id@, info: self.info@ }
    }
}

impl Clone for ManifestHook {
    fn clone(&self) -> (r: Self)
        ensures
            r@ == self@,
    {
        ManifestHook { id: clone_string(&self.id), info: self.info.clone() }
    }
}

pub open spec fn hooks_view(s: Seq<ManifestHook>) -> Seq<ManifestHookV> {
    s.map_values(|h: ManifestHook| h@)
}

/// Copies a list of hook definitions element by element.
pub fn clone_hooks(v: &Vec<ManifestHook>) -> (r: Vec<ManifestHook>)
    ensures
        hooks_view(r@) == hooks_view(v@),
{
    let mut r: Vec<ManifestHook> = Vec::new();
    let mut i: usize = 0;
    while i < v.len()
        invariant
            0 <= i <= v@.len(),
            r@.len() == i,
            forall|j: int| 0 <= j < i ==> #[trigger] r@[j]@ == v@[j]@,
        decreases v@.len() - i,
    {
        r.push(v[i].clone());
        i = i + 1;
    }
    assert(hooks_view(r@) =~= hooks_view(v@));
    r
}

/// A built-in hook provided by the tool itself. Before merging it is
/// normalized into the same shape as a manifest hook.
pub struct MetaHook {
    pub id: String,
    pub name: String,
}

pub struct MetaHookV {
    pub id: Seq<char>,
    pub name: Seq<char>,
}

impl View for MetaHook {
    type V = MetaHookV;

    open spec fn view(&self) -> MetaHookV {
        MetaHookV { id: self.id@, name: self.name@ }
    }
}

/// The manifest-hook shape of a normalized meta hook.
pub open spec fn normalized_meta(m: MetaHookV) -> ManifestHookV {
    ManifestHookV {
        id: m.id,
        info: PatchV { name: Some(m.name), entry: None, language: None, verbose: None },
    }
}

impl MetaHook {
    /// Normalizes the built-in hook into the manifest-hook shape.
    pub fn manifest_hook(&self) -> (r: ManifestHook)
        ensures
            r@ == normalized_meta(self@),
    {
        ManifestHook {
            id: clone_string(&self.id),
            info: HookPatch {
                name: Some(clone_string(&self.name)),
                entry: None,
                language: None,
                verbose: None,
            },
        }
    }
}

/// A reference to a hook advertised by a remote repository, together with
/// the per-hook overrides declared at the referencing project.
pub struct HookRef {
    pub id: String,
    pub patch: HookPatch,
}

pub struct HookRefV {
    pub id: Seq<char>,
    pub patch: PatchV,
}

impl View for HookRef {
    type V = HookRefV;

    open spec fn view(&self) -> HookRefV {
        HookRefV { id: self.id@, patch: self.patch@ }
    }
}

/// A remote repository entry: where to fetch it and which of its hooks to
/// run. Two entries with the same url and revision name the same fetch.
pub struct RemoteRepoConfig {
    pub url: String,
    pub rev: String,
    pub hooks: Vec<HookRef>,
}

/// A repository entry of a project configuration.
pub enum RepoConfig {
    Remote(RemoteRepoConfig),
    Local { hooks: Vec<ManifestHook> },
    Meta { hooks: Vec<MetaHook> },
}

/// One parsed configuration file: its repository entries and the
/// project-wide default fields applied to every hook of the project.
pub struct Config {
    pub repos: Vec<RepoConfig>,
    pub defaults: HookPatch,
}

/// What loading a configuration file produced. `Missing` stands for a file
/// that disappeared between being listed and being read; `Malformed` for a
/// file that did not parse.
pub enum ConfigLoad {
    Found(Config),
    Missing,
    Malformed,
}

} // verus!
