use vstd::prelude::*;

verus! {

/// Metadata of a deployed plugin, as read from its `plugin.toml`.
pub struct PluginMeta {
    /// Unique id of the plugin within a stack.
    pub id: String,
    pub name: String,
    pub version: String,
    pub description: Option<String>,
    /// Configuration variables exposed to the guest, as (key, value) pairs.
    pub variables: Vec<(String, String)>,
    /// Data directory, relative to the deployed plugin directory.
    pub data_dir: String,
    /// Mount path of the plugin.
    pub endpoint: String,
}

/// Settings of one plugin instance.
pub struct PluginConfig {
    pub id: String,
    pub name: String,
    pub version: String,
    pub description: Option<String>,
    pub variables: Vec<(String, String)>,
    pub data_dir: String,
}

/// Version used when a manifest names none.
pub fn default_version() -> (r: String)
    ensures
        r@ == "0.0.0"@,
{
    "0.0.0".to_owned()
}

/// Data directory used when a manifest names none.
pub fn default_data_dir() -> (r: String)
    ensures
        r@ == "data"@,
{
    "data".to_owned()
}

/// Mount path used when a manifest names none.
pub fn default_endpoint() -> (r: String)
    ensures
        r@ == "/"@,
{
    "/".to_owned()
}

impl PluginMeta {
    /// Metadata with the given id and every other field at its default.
    pub fn with_id(id: String) -> (r: PluginMeta)
        ensures
            r.id@ == id@,
            r.name@ == Seq::<char>::empty(),
            r.version@ == "0.0.0"@,
            r.description is None,
            r.variables@.len() == 0,
            r.data_dir@ == "data"@,
            r.endpoint@ == "/"@,
    {
        PluginMeta {
            id,
            name: String::new(),
            version: default_version(),
            description: None,
            variables: Vec::new(),
            data_dir: default_data_dir(),
            endpoint: default_endpoint(),
        }
    }
}

} // verus!
