//! What the plugin tells the host about itself.

use vstd::prelude::*;

verus! {

/// The identifier of the plugin.
pub const PLUGIN_ID: &'static str = "dev.mcpg.rate-limit";

/// The release of the plugin.
pub const PLUGIN_VERSION: &'static str = "0.1.0";

/// What a plugin is called on for.
#[derive(Debug, Clone, Copy, PartialEq, Eq, Structural)]
pub enum PluginClass {
    ToolGate,
}

/// What the plugin tells the host about itself.
#[derive(Debug)]
pub struct PluginManifest {
    pub id: String,
    pub version: String,
    pub name: String,
    pub plugin_class: PluginClass,
    pub protocol_version: String,
    pub license: Option<String>,
    pub required_capabilities: Vec<String>,
    pub tags: Vec<String>,
    pub provides: Vec<String>,
    pub provides_schemes: Vec<String>,
    pub module_path_prefix: String,
    pub backend_profile: Option<String>,
}

impl PluginManifest {
    /// Whether this is the manifest of the rate limiter: a plugin that gates tools
    /// and asks for no capability.
    pub open spec fn is_rate_limiter(self) -> bool {
        &&& self.id@ == PLUGIN_ID@
        &&& self.version@ == PLUGIN_VERSION@
        &&& self.name@ == "Rate Limiter"@
        &&& self.plugin_class == PluginClass::ToolGate
        &&& self.protocol_version@ == "1.0"@
        &&& self.license is None
        &&& self.required_capabilities@.len() == 0
        &&& self.tags@.len() == 0
        &&& self.provides@.len() == 0
        &&& self.provides_schemes@.len() == 0
        &&& self.module_path_prefix@ == "mcpg_plugin_reliability_rate_limit"@
        &&& self.backend_profile is None
    }

    /// The manifest of the rate limiter.
    pub fn rate_limiter() -> (manifest: Self)
        ensures
            manifest.is_rate_limiter(),
    {
        PluginManifest {
            id: PLUGIN_ID.to_owned(),
            version: PLUGIN_VERSION.to_owned(),
            name: "Rate Limiter".to_owned(),
            plugin_class: PluginClass::ToolGate,
            protocol_version: "1.0".to_owned(),
            license: None,
            required_capabilities: Vec::new(),
            tags: Vec::new(),
            provides: Vec::new(),
            provides_schemes: Vec::new(),
            module_path_prefix: "mcpg_plugin_reliability_rate_limit".to_owned(),
            backend_profile: None,
        }
    }
}

/// The plugin gates tools, and neither asks for a capability nor provides anything
/// else.
pub proof fn law_manifest_asks_for_nothing(manifest: PluginManifest)
    requires
        manifest.is_rate_limiter(),
    ensures
        manifest.plugin_class == PluginClass::ToolGate,
        manifest.required_capabilities@ =~= Seq::empty(),
        manifest.provides@ =~= Seq::empty(),
        manifest.provides_schemes@ =~= Seq::empty(),
        manifest.tags@ =~= Seq::empty(),
        manifest.id@ == "dev.mcpg.rate-limit"@,
        manifest.version@ == "0.1.0"@,
        manifest.name@ == "Rate Limiter"@,
        manifest.protocol_version@ == "1.0"@,
        manifest.module_path_prefix@ == "mcpg_plugin_reliability_rate_limit"@,
        manifest.license is None,
        manifest.backend_profile is None,
{
}

} // verus!
