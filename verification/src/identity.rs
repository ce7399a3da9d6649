//! The identity surface: fixed metadata and capabilities describing this
//! plugin, and the readiness probe.
use vstd::prelude::*;

verus! {

/// The fixed descriptive metadata of this plugin.
pub struct PluginMetadata {
    pub name: String,
    pub version: String,
    pub display_name: String,
    pub description: String,
    pub project_url: String,
    pub repository_url: String,
    pub license: String,
    pub license_url: String,
    pub maturity: String,
    pub vendor: String,
}

/// One service this plugin offers.
#[derive(Clone, Copy, PartialEq, Eq, Structural, Debug)]
pub enum PluginCapability {
    LifecycleService,
}

/// The identity service.
#[derive(Debug, Default)]
pub struct IdentityImpl {}

impl IdentityImpl {
    /// The fixed plugin metadata.
    pub fn get_plugin_metadata(&self) -> (r: PluginMetadata)
        ensures
            r.name@ == crate::spec_plugin_name(),
            r.version@ == "0.0.1"@,
            r.display_name@ == "Generic SQL Exporter plugin"@,
            r.description@ == "Add the generic SQL exporter sidecar to CNPG instances"@,
            r.project_url@ == "https://github.com/leonardoce/plugin-generic-exporter"@,
            r.repository_url@ == "https://github.com/leonardoce/plugin-generic-exporter"@,
            r.license@ == "Apache 2"@,
            r.license_url@ == "https://github.com/leonardoce/plugin-generic-exporter/blob/main/LICENSE"@,
            r.maturity@ == "alpha"@,
            r.vendor@ == "Leonardo Cecchi"@,
    {
        PluginMetadata {
            name: crate::plugin_name().to_owned(),
            version: "0.0.1".to_owned(),
            display_name: "Generic SQL Exporter plugin".to_owned(),
            description: "Add the generic SQL exporter sidecar to CNPG instances".to_owned(),
            project_url: "https://github.com/leonardoce/plugin-generic-exporter".to_owned(),
            repository_url: "https://github.com/leonardoce/plugin-generic-exporter".to_owned(),
            license: "Apache 2".to_owned(),
            license_url: "https://github.com/leonardoce/plugin-generic-exporter/blob/main/LICENSE"
                .to_owned(),
            maturity: "alpha".to_owned(),
            vendor: "Leonardo Cecchi".to_owned(),
        }
    }

    /// The fixed set of services this plugin offers.
    pub fn get_plugin_capabilities(&self) -> (r: Vec<PluginCapability>)
        ensures
            r@ == seq![PluginCapability::LifecycleService],
    {
        let mut r: Vec<PluginCapability> = Vec::new();
        r.push(PluginCapability::LifecycleService);
        proof {
            assert(r@ =~= seq![PluginCapability::LifecycleService]);
        }
        r
    }

    /// Whether the plugin is ready to answer requests: always.
    pub fn probe(&self) -> (r: bool)
        ensures
            r == true,
    {
        true
    }
}

} // verus!
