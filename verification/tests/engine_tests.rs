use generic_exporter_plugin::identity::{IdentityImpl, PluginCapability};
use generic_exporter_plugin::json::Json;
use generic_exporter_plugin::loader::DataLoader;
use generic_exporter_plugin::mutator::{MutateError, PodMutator};
use generic_exporter_plugin::operator::{OperatorCapability, OperatorImpl};
use generic_exporter_plugin::operator_lifecycle::{OperationType, OperatorLifecycleImpl};
use generic_exporter_plugin::patch::{diff, PatchOp};
use generic_exporter_plugin::plugin_name;
use generic_exporter_plugin::store::ParameterStore;
use generic_exporter_plugin::validation::validate;

fn sample_doc() -> Json {
    Json::Obj(vec![
        (
            "spec".to_string(),
            Json::Obj(vec![
                ("instances".to_string(), Json::Num("3".to_string())),
                (
                    "names".to_string(),
                    Json::Arr(vec![
                        Json::Str("a".to_string()),
                        Json::Str("b".to_string()),
                    ]),
                ),
                ("enabled".to_string(), Json::Bool(true)),
                ("note".to_string(), Json::Null),
            ]),
        ),
        ("kind".to_string(), Json::Str("Cluster".to_string())),
    ])
}

#[test]
fn diff_of_a_document_with_itself_is_empty() {
    let doc = sample_doc();
    assert_eq!(diff(&doc, &doc).len(), 0);
}

#[test]
fn changed_scalar_becomes_one_replace() {
    let a = Json::Obj(vec![("kind".to_string(), Json::Str("Cluster".to_string()))]);
    let b = Json::Obj(vec![("kind".to_string(), Json::Str("Pod".to_string()))]);
    let patch = diff(&a, &b);
    assert_eq!(patch.len(), 1);
    match &patch.ops[0] {
        PatchOp::Replace { path, value } => {
            assert_eq!(path, &vec!["kind".to_string()]);
            assert_eq!(value, &Json::Str("Pod".to_string()));
        }
        _ => panic!("expected a replace operation"),
    }
}

#[test]
fn new_key_becomes_one_add() {
    let a = Json::Obj(vec![("kind".to_string(), Json::Str("Cluster".to_string()))]);
    let b = Json::Obj(vec![
        ("kind".to_string(), Json::Str("Cluster".to_string())),
        ("extra".to_string(), Json::Bool(false)),
    ]);
    let patch = diff(&a, &b);
    assert_eq!(patch.len(), 1);
    match &patch.ops[0] {
        PatchOp::Add { path, value } => {
            assert_eq!(path, &vec!["extra".to_string()]);
            assert_eq!(value, &Json::Bool(false));
        }
        _ => panic!("expected an add operation"),
    }
}

#[test]
fn removed_key_becomes_one_remove() {
    let a = Json::Obj(vec![
        ("kind".to_string(), Json::Str("Cluster".to_string())),
        ("extra".to_string(), Json::Bool(false)),
    ]);
    let b = Json::Obj(vec![("kind".to_string(), Json::Str("Cluster".to_string()))]);
    let patch = diff(&a, &b);
    assert_eq!(patch.len(), 1);
    assert!(matches!(&patch.ops[0], PatchOp::Remove { .. }));
}

#[test]
fn appended_elements_become_adds_at_tail_indices() {
    let a = Json::Arr(vec![Json::Num("1".to_string())]);
    let b = Json::Arr(vec![
        Json::Num("1".to_string()),
        Json::Num("2".to_string()),
        Json::Num("3".to_string()),
    ]);
    let patch = diff(&a, &b);
    assert_eq!(patch.len(), 2);
    match &patch.ops[0] {
        PatchOp::Add { path, value } => {
            assert_eq!(path, &vec!["1".to_string()]);
            assert_eq!(value, &Json::Num("2".to_string()));
        }
        _ => panic!("expected an add operation"),
    }
    match &patch.ops[1] {
        PatchOp::Add { path, .. } => assert_eq!(path, &vec!["2".to_string()]),
        _ => panic!("expected an add operation"),
    }
}

fn pod_template() -> Json {
    Json::Obj(vec![(
        "spec".to_string(),
        Json::Obj(vec![
            ("initContainers".to_string(), Json::Arr(vec![])),
            ("volumes".to_string(), Json::Arr(vec![])),
        ]),
    )])
}

fn store_with_config_map(name: &str) -> ParameterStore {
    let mut store = ParameterStore::new();
    store.insert("configMapName".to_string(), name.to_string());
    store
}

#[test]
fn mutate_appends_container_and_volume_as_two_adds() {
    let template = pod_template();
    let store = store_with_config_map("cfg");
    let patch = PodMutator::mutate(&template, &store).unwrap();
    assert_eq!(patch.len(), 2);
    assert!(matches!(&patch.ops[0], PatchOp::Add { .. }));
    assert!(matches!(&patch.ops[1], PatchOp::Add { .. }));

    let mutated = PodMutator::mutated_template(&template, &store).unwrap();
    match &mutated {
        Json::Obj(tes) => match &tes[0].1 {
            Json::Obj(ses) => match &ses[0].1 {
                Json::Arr(ics) => assert_eq!(ics.len(), 1),
                _ => panic!("initContainers should stay a sequence"),
            },
            _ => panic!("spec should stay a map"),
        },
        _ => panic!("template should stay a map"),
    }
}

#[test]
fn mutate_uses_configured_image() {
    let template = pod_template();
    let mut store = store_with_config_map("cfg");
    store.insert("imageName".to_string(), "example.com/exporter:1".to_string());
    let mutated = PodMutator::mutated_template(&template, &store).unwrap();
    let rendered = format!("{:?}", mutated);
    assert!(rendered.contains("example.com/exporter:1"));
}

#[test]
fn mutate_without_config_map_fails_regardless_of_template() {
    let store = ParameterStore::new();
    let err = PodMutator::mutate(&pod_template(), &store).unwrap_err();
    assert!(matches!(err, MutateError::MissingParameter));

    let err = PodMutator::mutate(&Json::Null, &store).unwrap_err();
    assert!(matches!(err, MutateError::MissingParameter));
}

#[test]
fn mutate_without_template_fields_fails() {
    let store = store_with_config_map("cfg");
    let bare = Json::Obj(vec![("spec".to_string(), Json::Obj(vec![]))]);
    let err = PodMutator::mutate(&bare, &store).unwrap_err();
    assert!(matches!(err, MutateError::MissingField));

    let err = PodMutator::mutate(&Json::Null, &store).unwrap_err();
    assert!(matches!(err, MutateError::MissingField));
}

fn single_entry_cluster(parameters: &str) -> Vec<u8> {
    format!(
        r#"{{"spec":{{"plugins":[{{"name":"plugin-generic-exporter.leonardoce.io","parameters":{}}}]}}}}"#,
        parameters
    )
    .into_bytes()
}

#[test]
fn validate_reports_exactly_one_error_for_missing_config_map() {
    let doc = single_entry_cluster("{}");
    let loader = DataLoader::from_cluster(plugin_name(), &doc).unwrap();
    let errors = validate(&loader);
    assert_eq!(errors.len(), 1);
    assert_eq!(
        errors[0].path_components,
        vec!["spec", "plugins", "0", "parameters", "configMapName"]
    );
    assert_eq!(errors[0].message, "this parameter is required");
    assert_eq!(errors[0].value, "");
}

#[test]
fn validate_passes_when_config_map_is_present() {
    let doc = single_entry_cluster(r#"{"configMapName":"cfg"}"#);
    let loader = DataLoader::from_cluster(plugin_name(), &doc).unwrap();
    assert_eq!(validate(&loader).len(), 0);
}

#[test]
fn defaulting_an_empty_store_yields_one_add() {
    let operator = OperatorImpl::default();
    let patch = operator.mutate_cluster(&single_entry_cluster("{}")).unwrap();
    assert_eq!(patch.len(), 1);
    assert!(matches!(&patch.ops[0], PatchOp::Add { .. }));
}

#[test]
fn defaulting_with_image_present_yields_no_operation() {
    let operator = OperatorImpl::default();
    let doc = single_entry_cluster(r#"{"imageName":"already-set"}"#);
    let patch = operator.mutate_cluster(&doc).unwrap();
    assert_eq!(patch.len(), 0);
}

#[test]
fn operator_capabilities_are_fixed() {
    let operator = OperatorImpl::default();
    assert_eq!(
        operator.get_capabilities(),
        vec![
            OperatorCapability::ValidateClusterCreate,
            OperatorCapability::ValidateClusterChange,
            OperatorCapability::MutateCluster,
        ]
    );
}

#[test]
fn operator_validates_cluster_payloads() {
    let operator = OperatorImpl::default();
    let errors = operator
        .validate_cluster_create(&single_entry_cluster("{}"))
        .unwrap();
    assert_eq!(errors.len(), 1);
    let errors = operator
        .validate_cluster_change(&single_entry_cluster(r#"{"configMapName":"cfg"}"#))
        .unwrap();
    assert_eq!(errors.len(), 0);
}

#[test]
fn lifecycle_hook_injects_sidecar_patch() {
    let lifecycle = OperatorLifecycleImpl::default();
    let cluster = single_entry_cluster(r#"{"configMapName":"cfg"}"#);
    let pod = br#"{"spec":{"initContainers":[],"volumes":[],"containers":[{"name":"postgres"}]}}"#;
    let patch = lifecycle.lifecycle_hook(&cluster, pod).unwrap();
    assert_eq!(patch.len(), 2);
    let caps = lifecycle.get_capabilities();
    assert_eq!(caps.len(), 1);
    assert_eq!(caps[0].group, "");
    assert_eq!(caps[0].kind, "Pod");
    assert_eq!(caps[0].operation_types, vec![OperationType::Create]);
}

#[test]
fn identity_reports_fixed_metadata() {
    let identity = IdentityImpl::default();
    let metadata = identity.get_plugin_metadata();
    assert_eq!(metadata.name, plugin_name());
    assert_eq!(metadata.version, "0.0.1");
    assert_eq!(
        identity.get_plugin_capabilities(),
        vec![PluginCapability::LifecycleService]
    );
    assert!(identity.probe());
}

#[test]
fn surplus_elements_are_removed_highest_index_first() {
    let a = Json::Arr(vec![
        Json::Num("1".to_string()),
        Json::Num("2".to_string()),
        Json::Num("3".to_string()),
    ]);
    let b = Json::Arr(vec![Json::Num("1".to_string())]);
    let patch = diff(&a, &b);
    assert_eq!(patch.len(), 2);
    match &patch.ops[0] {
        PatchOp::Remove { path } => assert_eq!(path, &vec!["2".to_string()]),
        _ => panic!("expected a remove operation"),
    }
    match &patch.ops[1] {
        PatchOp::Remove { path } => assert_eq!(path, &vec!["1".to_string()]),
        _ => panic!("expected a remove operation"),
    }
}

#[test]
fn lifecycle_hook_rejects_undecodable_pod() {
    let lifecycle = OperatorLifecycleImpl::default();
    let cluster = single_entry_cluster(r#"{"configMapName":"cfg"}"#);
    let result = lifecycle.lifecycle_hook(&cluster, b"not a pod");
    assert!(result.is_err());
}

#[test]
fn defaulting_an_absent_parameter_section_yields_one_add() {
    let operator = OperatorImpl::default();
    let doc =
        br#"{"spec":{"plugins":[{"name":"plugin-generic-exporter.leonardoce.io"}]}}"#.to_vec();
    let patch = operator.mutate_cluster(&doc).unwrap();
    assert_eq!(patch.len(), 1);
    assert!(matches!(&patch.ops[0], PatchOp::Add { .. }));
}

#[test]
fn defaulting_a_null_parameter_section_yields_one_replace() {
    let operator = OperatorImpl::default();
    let patch = operator.mutate_cluster(&single_entry_cluster("null")).unwrap();
    assert_eq!(patch.len(), 1);
    assert!(matches!(&patch.ops[0], PatchOp::Replace { .. }));
}
