use generic_exporter_plugin::loader::{DataLoader, DataLoaderError};
use generic_exporter_plugin::plugin_name;

const CLUSTER_JSON: &str = r#"
{
    "apiVersion": "postgresql.cnpg.io/v1",
    "kind": "Cluster",
    "metadata": {
        "annotations": {
            "kubectl.kubernetes.io/last-applied-configuration": "{\"apiVersion\":\"postgresql.cnpg.io/v1\",\"kind\":\"Cluster\",\"metadata\":{\"annotations\":{},\"name\":\"cluster-example\",\"namespace\":\"default\"},\"spec\":{\"instances\":3,\"plugins\":[{\"name\":\"plugin-generic-exporter.leonardoce.io\",\"parameters\":{\"configMapName\":\"sql-exporter-config\"}}],\"storage\":{\"size\":\"1Gi\"}}}\n"
        },
        "creationTimestamp": "2024-02-24T22:21:05Z",
        "generation": 1,
        "name": "cluster-example",
        "namespace": "default",
        "resourceVersion": "32454",
        "uid": "ae2c1788-78ac-48bd-b8b6-5bf7937dc320"
    },
    "spec": {
        "affinity": {
            "podAntiAffinityType": "preferred"
        },
        "bootstrap": {
            "initdb": {
                "database": "app",
                "encoding": "UTF8",
                "localeCType": "C",
                "localeCollate": "C",
                "owner": "app"
            }
        },
        "enableSuperuserAccess": false,
        "failoverDelay": 0,
        "imageName": "ghcr.io/cloudnative-pg/postgresql:16.2",
        "instances": 3,
        "logLevel": "info",
        "maxSyncReplicas": 0,
        "minSyncReplicas": 0,
        "monitoring": {
            "customQueriesConfigMap": [
                {
                    "key": "queries",
                    "name": "cnpg-default-monitoring"
                }
            ],
            "disableDefaultQueries": false,
            "enablePodMonitor": false
        },
        "plugins": [
            {
                "name": "plugin-generic-exporter.leonardoce.io",
                "parameters": {
                    "configMapName": "sql-exporter-config"
                }
            }
        ],
        "postgresGID": 26,
        "postgresUID": 26,
        "postgresql": {
            "parameters": {
                "archive_mode": "on",
                "archive_timeout": "5min",
                "dynamic_shared_memory_type": "posix",
                "log_destination": "csvlog",
                "log_directory": "/controller/log",
                "log_filename": "postgres",
                "log_rotation_age": "0",
                "log_rotation_size": "0",
                "log_truncate_on_rotation": "false",
                "logging_collector": "on",
                "max_parallel_workers": "32",
                "max_replication_slots": "32",
                "max_worker_processes": "32",
                "shared_memory_type": "mmap",
                "shared_preload_libraries": "",
                "ssl_max_protocol_version": "TLSv1.3",
                "ssl_min_protocol_version": "TLSv1.3",
                "wal_keep_size": "512MB",
                "wal_receiver_timeout": "5s",
                "wal_sender_timeout": "5s"
            },
            "syncReplicaElectionConstraint": {
                "enabled": false
            }
        },
        "primaryUpdateMethod": "restart",
        "primaryUpdateStrategy": "unsupervised",
        "replicationSlots": {
            "highAvailability": {
                "enabled": true,
                "slotPrefix": "_cnpg_"
            },
            "synchronizeReplicas": {
                "enabled": true
            },
            "updateInterval": 30
        },
        "resources": {},
        "smartShutdownTimeout": 180,
        "startDelay": 3600,
        "stopDelay": 1800,
        "storage": {
            "resizeInUseVolumes": true,
            "size": "1Gi"
        },
        "switchoverDelay": 3600
    }
}
    "#;

#[test]
fn test_decode() {
    let helper = DataLoader::from_cluster(plugin_name(), CLUSTER_JSON.as_bytes()).unwrap();

    assert_eq!(helper.plugin_index(), 0);
    assert_eq!(
        helper.get_parameter("configMapName").unwrap(),
        "sql-exporter-config"
    );
}

#[test]
fn test_validation_error_unexistent_parameter() {
    let helper = DataLoader::from_cluster(plugin_name(), CLUSTER_JSON.as_bytes()).unwrap();

    let error = helper.create_validation_error("unknown_parameter", "test error message");

    assert_eq!(error.message, "test error message")
}

#[test]
fn test_validation_error_existing_parameter() {
    let helper = DataLoader::from_cluster(plugin_name(), CLUSTER_JSON.as_bytes()).unwrap();

    let error = helper.create_validation_error("configMapName", "this configmap is weird");

    assert_eq!(error.message, "this configmap is weird");
    assert_eq!(error.value, "sql-exporter-config");
}

#[test]
fn test_cluster_patch() {
    let helper = DataLoader::from_cluster(plugin_name(), CLUSTER_JSON.as_bytes()).unwrap();

    let mut new_params = helper.copy_parameters();
    new_params.set_default("imageName", "thisImage");
    new_params.set_default("imagePullPolicy", "Always");

    let patch = helper.calculate_cluster_patch(&new_params);
    assert_eq!(patch.len(), 2);
}

fn cluster_with_plugins(plugins: &str) -> Vec<u8> {
    format!(r#"{{"spec":{{"plugins":{}}}}}"#, plugins).into_bytes()
}

#[test]
fn loads_named_entry_at_its_position() {
    let doc = cluster_with_plugins(
        r#"[{"name":"other.example.io","parameters":{}},
            {"name":"plugin-generic-exporter.leonardoce.io","parameters":{"configMapName":"c"}}]"#,
    );
    let helper = DataLoader::from_cluster(plugin_name(), &doc).unwrap();
    assert_eq!(helper.plugin_index(), 1);
    assert_eq!(helper.get_parameter("configMapName").unwrap(), "c");
}

#[test]
fn first_matching_entry_wins() {
    let doc = cluster_with_plugins(
        r#"[{"name":"plugin-generic-exporter.leonardoce.io","parameters":{"configMapName":"first"}},
            {"name":"plugin-generic-exporter.leonardoce.io","parameters":{"configMapName":"second"}}]"#,
    );
    let helper = DataLoader::from_cluster(plugin_name(), &doc).unwrap();
    assert_eq!(helper.plugin_index(), 0);
    assert_eq!(helper.get_parameter("configMapName").unwrap(), "first");
}

#[test]
fn plugin_not_found_when_no_name_matches() {
    let doc = cluster_with_plugins(r#"[{"name":"other.example.io","parameters":{}}]"#);
    let err = DataLoader::from_cluster(plugin_name(), &doc).unwrap_err();
    assert!(matches!(err, DataLoaderError::PluginNotFound { .. }));
}

#[test]
fn null_parameters_give_empty_store() {
    let doc = cluster_with_plugins(
        r#"[{"name":"plugin-generic-exporter.leonardoce.io","parameters":null}]"#,
    );
    let helper = DataLoader::from_cluster(plugin_name(), &doc).unwrap();
    assert_eq!(helper.copy_parameters().len(), 0);
    assert!(helper.get_parameter("configMapName").is_none());
}

#[test]
fn absent_parameters_give_empty_store() {
    let doc = cluster_with_plugins(r#"[{"name":"plugin-generic-exporter.leonardoce.io"}]"#);
    let helper = DataLoader::from_cluster(plugin_name(), &doc).unwrap();
    assert_eq!(helper.copy_parameters().len(), 0);
}

#[test]
fn non_string_parameter_values_collapse_to_empty_string() {
    let doc = cluster_with_plugins(
        r#"[{"name":"plugin-generic-exporter.leonardoce.io","parameters":{"configMapName":42}}]"#,
    );
    let helper = DataLoader::from_cluster(plugin_name(), &doc).unwrap();
    assert_eq!(helper.get_parameter("configMapName").unwrap(), "");
}

#[test]
fn undecodable_bytes_give_decode_error() {
    let err = DataLoader::from_cluster(plugin_name(), b"this is not a document").unwrap_err();
    assert!(matches!(err, DataLoaderError::DecodeError));
}

#[test]
fn missing_plugin_section_is_reported() {
    let err = DataLoader::from_cluster(plugin_name(), br#"{"spec":{}}"#).unwrap_err();
    assert!(matches!(err, DataLoaderError::UnexpectedPluginSection));
}

#[test]
fn non_object_parameters_are_reported() {
    let doc = cluster_with_plugins(
        r#"[{"name":"plugin-generic-exporter.leonardoce.io","parameters":17}]"#,
    );
    let err = DataLoader::from_cluster(plugin_name(), &doc).unwrap_err();
    assert!(matches!(err, DataLoaderError::UnexpectedPluginParameters));
}

#[test]
fn validation_error_path_uses_entry_position() {
    let mut entries = Vec::new();
    for i in 0..10 {
        entries.push(format!(r#"{{"name":"filler-{}.example.io"}}"#, i));
    }
    entries.push(
        r#"{"name":"plugin-generic-exporter.leonardoce.io","parameters":{}}"#.to_string(),
    );
    let doc = cluster_with_plugins(&format!("[{}]", entries.join(",")));
    let helper = DataLoader::from_cluster(plugin_name(), &doc).unwrap();
    assert_eq!(helper.plugin_index(), 10);
    let error = helper.create_validation_error("configMapName", "missing");
    assert_eq!(
        error.path_components,
        vec!["spec", "plugins", "10", "parameters", "configMapName"]
    );
    assert_eq!(error.value, "");
}
