//! Parameter-validation rules, run against a loaded document's parameter
//! store in declaration order.
use crate::json::assoc_lookup;
use crate::loader::spec_validation_error;
use crate::loader::DataLoader;
use crate::patch::lemma_paths_view;
use crate::patch::paths_view;
use vstd::prelude::*;

verus! {

/// One structured validation finding: the path of the offending field,
/// its current value, and a human-readable message.
#[derive(Debug, Clone, PartialEq, Eq)]
pub struct ValidationError {
    pub path_components: Vec<String>,
    pub value: String,
    pub message: String,
}

#[verifier::ext_equal]
pub struct ValidationErrorModel {
    pub path: Seq<Seq<char>>,
    pub value: Seq<char>,
    pub message: Seq<char>,
}

impl View for ValidationError {
    type V = ValidationErrorModel;

    open spec fn view(&self) -> ValidationErrorModel {
        ValidationErrorModel {
            path: paths_view(self.path_components@),
            value: self.value@,
            message: self.message@,
        }
    }
}

/// The message attached to a missing required parameter.
pub open spec fn spec_required_message() -> Seq<char> {
    "this parameter is required"@
}

/// Run every validation rule. The single current rule: the configuration
/// object's name is required, and its absence yields exactly one error
/// addressed at that parameter.
pub fn validate(loader: &DataLoader) -> (r: Vec<ValidationError>)
    ensures
        assoc_lookup(loader@.params, crate::spec_config_map_parameter()) is Some ==> r@.len()
            == 0,
        assoc_lookup(loader@.params, crate::spec_config_map_parameter()) is None ==> r@.len() == 1
            && r@[0]@ == spec_validation_error(
            loader@,
            crate::spec_config_map_parameter(),
            spec_required_message(),
        ),
{
    let mut res: Vec<ValidationError> = Vec::new();
    if loader.get_parameter(crate::config_map_parameter()).is_none() {
        let e = loader.create_validation_error(
            crate::config_map_parameter(),
            "this parameter is required",
        );
        res.push(e);
    }
    res
}

} // verus!
