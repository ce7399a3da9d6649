//! The lifecycle surface: before the host applies a workload it hands the
//! template here, and gets back the patch that injects the exporter
//! sidecar and its configuration volume.
use crate::codec::parse_json;
use crate::codec::spec_parse;
use crate::loader::spec_from_cluster;
use crate::loader::DataLoader;
use crate::loader::DataLoaderError;
use crate::loader::DataLoaderErrorModel;
use crate::mutator::spec_mutate;
use crate::mutator::MutateError;
use crate::mutator::PodMutator;
use crate::patch::PatchDocument;
use crate::patch::PatchOpModel;
use vstd::prelude::*;

verus! {

/// One kind of workload operation the lifecycle hook asks to see.
#[derive(Clone, Copy, PartialEq, Eq, Structural, Debug)]
pub enum OperationType {
    Create,
}

/// One resource kind, with the operations watched on it.
#[derive(Debug)]
pub struct LifecycleCapability {
    pub group: String,
    pub kind: String,
    pub operation_types: Vec<OperationType>,
}

/// Why a lifecycle call failed.
#[derive(Debug)]
pub enum LifecycleError {
    /// The cluster definition could not be loaded.
    Loader(DataLoaderError),
    /// The workload template bytes do not decode to a document.
    PodDecodeError,
    /// The template could not be mutated.
    Mutate(MutateError),
}

#[verifier::ext_equal]
pub enum LifecycleErrorModel {
    Loader(DataLoaderErrorModel),
    PodDecodeError,
    Mutate(MutateError),
}

impl View for LifecycleError {
    type V = LifecycleErrorModel;

    open spec fn view(&self) -> LifecycleErrorModel {
        match self {
            LifecycleError::Loader(e) => LifecycleErrorModel::Loader(e@),
            LifecycleError::PodDecodeError => LifecycleErrorModel::PodDecodeError,
            LifecycleError::Mutate(e) => LifecycleErrorModel::Mutate(*e),
        }
    }
}

/// What a lifecycle call yields: the loaded cluster's parameters drive
/// the mutation of the decoded workload template.
pub open spec fn spec_lifecycle(cluster_bytes: Seq<u8>, object_bytes: Seq<u8>) -> Result<
    Seq<PatchOpModel>,
    LifecycleErrorModel,
> {
    match spec_from_cluster(crate::spec_plugin_name(), cluster_bytes) {
        Err(e) => Err(LifecycleErrorModel::Loader(e)),
        Ok(lm) => match spec_parse(object_bytes) {
            None => Err(LifecycleErrorModel::PodDecodeError),
            Some(pod) => match spec_mutate(pod, lm.params) {
                Err(m) => Err(LifecycleErrorModel::Mutate(m)),
                Ok(ops) => Ok(ops),
            },
        },
    }
}

/// The lifecycle service: every call is a pure, synchronous transform of
/// the request payloads.
#[derive(Debug, Default)]
pub struct OperatorLifecycleImpl {}

impl OperatorLifecycleImpl {
    /// The fixed set of watched resources: workload creation only.
    pub fn get_capabilities(&self) -> (r: Vec<LifecycleCapability>)
        ensures
            r@.len() == 1,
            r@[0].group@ == Seq::<char>::empty(),
            r@[0].kind@ == "Pod"@,
            r@[0].operation_types@ == seq![OperationType::Create],
    {
        let mut ops: Vec<OperationType> = Vec::new();
        ops.push(OperationType::Create);
        proof {
            assert(ops@ =~= seq![OperationType::Create]);
        }
        let cap = LifecycleCapability {
            group: String::new(),
            kind: "Pod".to_owned(),
            operation_types: ops,
        };
        let mut r: Vec<LifecycleCapability> = Vec::new();
        r.push(cap);
        r
    }

    /// Mutate the workload template the host is about to apply: decode
    /// both payloads, then describe the sidecar injection as a patch.
    pub fn lifecycle_hook(&self, cluster_definition: &[u8], object_definition: &[u8]) -> (r:
        Result<PatchDocument, LifecycleError>)
        ensures
            (match (r, spec_lifecycle(cluster_definition@, object_definition@)) {
                (Ok(p), Ok(ops)) => p@ == ops,
                (Err(e), Err(em)) => e@ == em,
                _ => false,
            }),
    {
        let loader = match DataLoader::from_cluster(crate::plugin_name(), cluster_definition) {
            Err(e) => {
                return Err(LifecycleError::Loader(e));
            },
            Ok(l) => l,
        };
        let pod = match parse_json(object_definition) {
            None => {
                return Err(LifecycleError::PodDecodeError);
            },
            Some(p) => p,
        };
        let store = loader.copy_parameters();
        match PodMutator::mutate(&pod, &store) {
            Err(m) => Err(LifecycleError::Mutate(m)),
            Ok(p) => Ok(p),
        }
    }
}

} // verus!
