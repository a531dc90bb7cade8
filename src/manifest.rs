use std::collections::HashMap;

use vstd::prelude::*;
use vstd::string::{StrSliceExecFns, StringExecFns};

verus! {

/// The stack manifest, `wassel.toml`.
pub struct WasselMeta {
    pub stack: StackMeta,
}

/// The `[stack]` table: the directories of the plugin source trees.
pub struct StackMeta {
    pub plugins: Vec<String>,
}

/// The parts of a plugin's `plugin.toml` that building and deploying read.
pub struct PluginMeta {
    pub id: String,
    /// Path of the built component; may hold `${NAME}` references.
    pub component: String,
    pub build: Option<PluginMetaBuild>,
    pub data_folder: String,
}

/// The `[build]` table of a plugin manifest.
pub struct PluginMetaBuild {
    /// Shell command that builds the component; may hold `${NAME}` references.
    pub cmd: String,
    /// (source, destination) pairs copied into the data folder.
    pub data: Vec<(String, String)>,
}

/// A plugin whose component is built and present.
pub struct PluginBuildInfo {
    pub path: String,
    pub id: String,
    pub component: String,
    pub data_folder: String,
    pub data: Vec<(String, String)>,
}

/// Why building a plugin failed.
#[derive(PartialEq, Eq, Debug)]
pub enum BuildError {
    /// A `${NAME}` reference could not be expanded in this text.
    Substitution(String),
    /// The component file is missing after the build step.
    MissingComponent(String),
}

/// Where deploying a plugin puts its files.
pub struct DeployPlan {
    /// `plugins/<id>`.
    pub plugin_dir: String,
    /// (from, to) for the component, copied to `plugin.wasm`.
    pub wasm: (String, String),
    /// (from, to) for the manifest, copied to `plugin.toml`.
    pub manifest: (String, String),
    /// The data folder to create.
    pub data_dir: String,
    /// (from, to) for each data entry.
    pub data: Vec<(String, String)>,
}

/// Data folder used when a manifest names none.
pub fn default_data_folder() -> (r: String)
    ensures
        r@ == "data"@,
{
    "data".to_owned()
}

/// `rel` taken relative to `base`, as a path join does: an absolute `rel`
/// stands alone; otherwise a `/` separates the two unless `base` is empty or
/// already ends with one.
pub open spec fn join_path(base: Seq<char>, rel: Seq<char>) -> Seq<char> {
    if rel.len() > 0 && rel[0] == '/' {
        rel
    } else if base.len() == 0 || base.last() == '/' {
        base + rel
    } else {
        base + seq!['/'] + rel
    }
}

/// Joins two paths as `join_path` states.
pub fn join(base: &str, rel: &str) -> (r: String)
    ensures
        r@ == join_path(base@, rel@),
{
    let nb = base.unicode_len();
    let nr = rel.unicode_len();
    if nr > 0 && rel.get_char(0) == '/' {
        return rel.to_owned();
    }
    let mut r = base.to_owned();
    if nb > 0 && base.get_char(nb - 1) != '/' {
        r.append("/");
        proof {
            reveal_strlit("/");
        }
    }
    r.append(rel);
    r
}

/// What `${NAME}` expansion gives for a text and a variable map, or none
/// where the text is malformed or names a variable that the map lacks.
pub uninterp spec fn expanded(template: Seq<char>, vars: Map<String, String>) -> Option<Seq<char>>;

#[verifier::external_type_specification]
#[verifier::external_body]
pub struct ExSubstError(subst::Error);

/// Relies on `subst::substitute`: it expands `$NAME`, `${NAME}` and
/// `${NAME:default}` from the map, and a text with no `$` and no `\` is
/// returned as it is.
#[verifier::external_body]
fn substitute(template: &str, vars: &HashMap<String, String>) -> (r: Result<String, subst::Error>)
    ensures
        r is Ok <==> expanded(template@, vars@) is Some,
        r is Ok ==> r->Ok_0@ == expanded(template@, vars@)->Some_0,
        (forall|i: int| 0 <= i < template@.len() ==> #[trigger] template@[i] != '$' && template@[i] != '\\')
            ==> r is Ok && r->Ok_0@ == template@,
{
    subst::substitute(template, vars)
}

impl PluginMeta {
    /// The build command with its references expanded, if the plugin has a
    /// build step.
    pub fn build_command(&self, vars: &HashMap<String, String>) -> (r: Result<Option<String>, BuildError>)
        ensures
            self.build is None ==> r == Ok::<Option<String>, BuildError>(None),
            self.build is Some ==> match expanded(self.build->Some_0.cmd@, vars@) {
                Some(c) => r is Ok && r->Ok_0 is Some && r->Ok_0->Some_0@ == c,
                None => r == Err::<Option<String>, BuildError>(BuildError::Substitution(self.build->Some_0.cmd)),
            },
    {
        match &self.build {
            None => Ok(None),
            Some(b) => match substitute(b.cmd.as_str(), vars) {
                Ok(c) => Ok(Some(c)),
                Err(_) => Err(BuildError::Substitution(b.cmd.clone())),
            },
        }
    }

    /// Where the built component lies: the expanded `component` path, taken
    /// relative to the plugin directory.
    pub fn component_path(&self, plugin_dir: &str, vars: &HashMap<String, String>) -> (r: Result<String, BuildError>)
        ensures
            match expanded(self.component@, vars@) {
                Some(c) => r is Ok && r->Ok_0@ == join_path(plugin_dir@, c),
                None => r == Err::<String, BuildError>(BuildError::Substitution(self.component)),
            },
    {
        match substitute(self.component.as_str(), vars) {
            Ok(c) => Ok(join(plugin_dir, c.as_str())),
            Err(_) => Err(BuildError::Substitution(self.component.clone())),
        }
    }
}

/// The outcome of a build whose command succeeded: the plugin's build info
/// when its component exists, else the missing path.
pub fn finish_build(plugin_dir: String, meta: PluginMeta, component: String, component_exists: bool) -> (r: Result<PluginBuildInfo, BuildError>)
    ensures
        !component_exists ==> r == Err::<PluginBuildInfo, BuildError>(BuildError::MissingComponent(component)),
        component_exists ==> r is Ok,
        r is Ok ==> r->Ok_0.path == plugin_dir && r->Ok_0.id == meta.id && r->Ok_0.component == component
            && r->Ok_0.data_folder == meta.data_folder,
        r is Ok ==> match meta.build {
            Some(b) => r->Ok_0.data == b.data,
            None => r->Ok_0.data@.len() == 0,
        },
{
    if !component_exists {
        return Err(BuildError::MissingComponent(component));
    }
    let data = match meta.build {
        Some(b) => b.data,
        None => Vec::new(),
    };
    Ok(PluginBuildInfo { path: plugin_dir, id: meta.id, component, data_folder: meta.data_folder, data })
}

/// Where each file of a built plugin goes under `plugins_folder`.
pub fn deploy_plan(plugins_folder: &str, info: &PluginBuildInfo) -> (r: DeployPlan)
    ensures
        r.plugin_dir@ == join_path(plugins_folder@, info.id@),
        r.wasm.0@ == info.component@,
        r.wasm.1@ == join_path(r.plugin_dir@, "plugin.wasm"@),
        r.manifest.0@ == join_path(info.path@, "plugin.toml"@),
        r.manifest.1@ == join_path(r.plugin_dir@, "plugin.toml"@),
        r.data_dir@ == join_path(r.plugin_dir@, info.data_folder@),
        r.data@.len() == info.data@.len(),
        forall|i: int|
            0 <= i < info.data@.len() ==> (#[trigger] r.data@[i]).0@ == join_path(info.path@, info.data@[i].0@)
                && r.data@[i].1@ == join_path(r.data_dir@, info.data@[i].1@),
{
    let plugin_dir = join(plugins_folder, info.id.as_str());
    let wasm = (info.component.clone(), join(plugin_dir.as_str(), "plugin.wasm"));
    let manifest = (join(info.path.as_str(), "plugin.toml"), join(plugin_dir.as_str(), "plugin.toml"));
    let data_dir = join(plugin_dir.as_str(), info.data_folder.as_str());
    let mut data: Vec<(String, String)> = Vec::new();
    let mut i: usize = 0;
    while i < info.data.len()
        invariant
            i <= info.data@.len(),
            data@.len() == i,
            forall|j: int|
                0 <= j < i ==> (#[trigger] data@[j]).0@ == join_path(info.path@, info.data@[j].0@)
                    && data@[j].1@ == join_path(data_dir@, info.data@[j].1@),
        decreases info.data@.len() - i,
    {
        let from = join(info.path.as_str(), info.data[i].0.as_str());
        let to = join(data_dir.as_str(), info.data[i].1.as_str());
        data.push((from, to));
        i = i + 1;
    }
    DeployPlan { plugin_dir, wasm, manifest, data_dir, data }
}

} // verus!
