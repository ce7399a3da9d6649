use vstd::prelude::*;

pub mod codec;
pub mod digits;
pub mod identity;
pub mod json;
pub mod loader;
pub mod mutator;
pub mod operator;
pub mod operator_lifecycle;
pub mod patch;
pub mod store;
pub mod validation;

verus! {

/// The name under which this plugin registers itself, used to find its
/// entry in a cluster document's plugin list.
pub fn plugin_name() -> (r: &'static str)
    ensures
        r@ == spec_plugin_name(),
{
    "plugin-generic-exporter.leonardoce.io"
}

pub open spec fn spec_plugin_name() -> Seq<char> {
    "plugin-generic-exporter.leonardoce.io"@
}

/// The optional parameter naming the exporter image.
pub fn image_name_parameter() -> (r: &'static str)
    ensures
        r@ == spec_image_name_parameter(),
{
    "imageName"
}

pub open spec fn spec_image_name_parameter() -> Seq<char> {
    "imageName"@
}

/// The image reference used when no `imageName` parameter is given.
pub fn default_image_name() -> (r: &'static str)
    ensures
        r@ == spec_default_image_name(),
{
    "ghcr.io/justwatchcom/sql_exporter:latest"
}

pub open spec fn spec_default_image_name() -> Seq<char> {
    "ghcr.io/justwatchcom/sql_exporter:latest"@
}

/// The required parameter naming the configuration object.
pub fn config_map_parameter() -> (r: &'static str)
    ensures
        r@ == spec_config_map_parameter(),
{
    "configMapName"
}

pub open spec fn spec_config_map_parameter() -> Seq<char> {
    "configMapName"@
}

} // verus!
