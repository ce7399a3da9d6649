//! The operator surface: capability listing, cluster validation, and
//! cluster defaulting, each working from the raw bytes of a document.
use crate::json::assoc_lookup;
use crate::loader::load_result_view;
use crate::loader::spec_from_cluster;
use crate::loader::spec_validation_error;
use crate::loader::with_parameters;
use crate::loader::DataLoader;
use crate::loader::DataLoaderError;
use crate::patch::spec_diff;
use crate::patch::PatchDocument;
use crate::store::apply_defaults;
use crate::store::params_to_json;
use crate::store::spec_apply_defaults;
use crate::validation::spec_required_message;
use crate::validation::validate;
use crate::validation::ValidationError;
use vstd::prelude::*;

verus! {

/// One remote operation this operator answers.
#[derive(Clone, Copy, PartialEq, Eq, Structural, Debug)]
pub enum OperatorCapability {
    ValidateClusterCreate,
    ValidateClusterChange,
    MutateCluster,
}

/// The operator service: every call is a pure, synchronous transform of
/// the request payload.
#[derive(Debug, Default)]
pub struct OperatorImpl {}

impl OperatorImpl {
    /// The fixed set of operations this operator answers.
    pub fn get_capabilities(&self) -> (r: Vec<OperatorCapability>)
        ensures
            r@ == seq![
                OperatorCapability::ValidateClusterCreate,
                OperatorCapability::ValidateClusterChange,
                OperatorCapability::MutateCluster,
            ],
    {
        let mut r: Vec<OperatorCapability> = Vec::new();
        r.push(OperatorCapability::ValidateClusterCreate);
        r.push(OperatorCapability::ValidateClusterChange);
        r.push(OperatorCapability::MutateCluster);
        proof {
            assert(r@ =~= seq![
                OperatorCapability::ValidateClusterCreate,
                OperatorCapability::ValidateClusterChange,
                OperatorCapability::MutateCluster,
            ]);
        }
        r
    }

    /// Validate a cluster definition on creation.
    pub fn validate_cluster_create(&self, definition: &[u8]) -> (r: Result<
        Vec<ValidationError>,
        DataLoaderError,
    >)
        ensures
            (match (r, spec_from_cluster(crate::spec_plugin_name(), definition@)) {
                (Err(e), Err(em)) => e@ == em,
                (Ok(errs), Ok(lm)) => {
                    &&& assoc_lookup(lm.params, crate::spec_config_map_parameter()) is Some
                        ==> errs@.len() == 0
                    &&& assoc_lookup(lm.params, crate::spec_config_map_parameter()) is None
                        ==> errs@.len() == 1 && errs@[0]@ == spec_validation_error(
                        lm,
                        crate::spec_config_map_parameter(),
                        spec_required_message(),
                    )
                },
                _ => false,
            }),
    {
        match DataLoader::from_cluster(crate::plugin_name(), definition) {
            Err(e) => Err(e),
            Ok(loader) => Ok(validate(&loader)),
        }
    }

    /// Validate the new cluster definition on a change.
    pub fn validate_cluster_change(&self, new_cluster: &[u8]) -> (r: Result<
        Vec<ValidationError>,
        DataLoaderError,
    >)
        ensures
            (match (r, spec_from_cluster(crate::spec_plugin_name(), new_cluster@)) {
                (Err(e), Err(em)) => e@ == em,
                (Ok(errs), Ok(lm)) => {
                    &&& assoc_lookup(lm.params, crate::spec_config_map_parameter()) is Some
                        ==> errs@.len() == 0
                    &&& assoc_lookup(lm.params, crate::spec_config_map_parameter()) is None
                        ==> errs@.len() == 1 && errs@[0]@ == spec_validation_error(
                        lm,
                        crate::spec_config_map_parameter(),
                        spec_required_message(),
                    )
                },
                _ => false,
            }),
    {
        match DataLoader::from_cluster(crate::plugin_name(), new_cluster) {
            Err(e) => Err(e),
            Ok(loader) => Ok(validate(&loader)),
        }
    }

    /// Fill in the defaults of a cluster definition: the patch that
    /// rewrites the plugin's parameter section to its defaulted form.
    pub fn mutate_cluster(&self, definition: &[u8]) -> (r: Result<PatchDocument, DataLoaderError>)
        ensures
            (match (r, spec_from_cluster(crate::spec_plugin_name(), definition@)) {
                (Err(e), Err(em)) => e@ == em,
                (Ok(p), Ok(lm)) => p@ == spec_diff(
                    lm.cluster,
                    with_parameters(
                        lm.cluster,
                        lm.index,
                        params_to_json(spec_apply_defaults(lm.params)),
                    ),
                    Seq::<Seq<char>>::empty(),
                ),
                _ => false,
            }),
    {
        match DataLoader::from_cluster(crate::plugin_name(), definition) {
            Err(e) => Err(e),
            Ok(loader) => {
                let snapshot = loader.copy_parameters();
                let new_parameters = apply_defaults(&snapshot);
                Ok(loader.calculate_cluster_patch(&new_parameters))
            },
        }
    }
}

} // verus!
