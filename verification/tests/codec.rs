use tokio_cni::json::Json;
use tokio_cni::plugins::CniDeserializationError;
use tokio_cni::plugins::CniPlugin;
use tokio_cni::plugins::CniPluginList;
use tokio_cni::plugins::CniSerializationError;

const CONFLIST: &str = r#"{
    "cniVersion": "1.0.0",
    "cniVersions": ["0.4.0", "1.0.0"],
    "name": "testnet",
    "disableCheck": true,
    "plugins": [
        {
            "type": "bridge",
            "bridge": "cni0",
            "args": {"labels": {"app": "x"}},
            "capabilities": {"ips": true},
            "ipam": {"type": "host-local"}
        },
        {"type": "portmap"}
    ],
    "extraTopLevelKey": 7
}"#;

#[test]
fn plugin_list_parses_the_whole_schema() {
    let list = CniPluginList::from_string(CONFLIST).unwrap();
    assert_eq!(list.cni_version.as_str(), "1.0.0");
    let versions = list.cni_versions.as_ref().unwrap();
    assert_eq!(versions.len(), 2);
    assert_eq!(versions[0].as_str(), "0.4.0");
    assert_eq!(versions[1].as_str(), "1.0.0");
    assert_eq!(list.name.as_str(), "testnet");
    assert!(list.disable_check);
    assert!(!list.disable_gc);
    assert_eq!(list.plugins.len(), 2);
    assert_eq!(list.plugins[0].plugin_type, "bridge");
    assert!(list.plugins[0].args.is_some());
    assert!(list.plugins[0].capabilities.is_some());
    assert_eq!(list.plugins[1].plugin_type, "portmap");
    assert!(list.plugins[1].args.is_none());
}

#[test]
fn plugin_options_never_hold_routed_keys() {
    let list = CniPluginList::from_string(CONFLIST).unwrap();
    for plugin in &list.plugins {
        for (key, _) in &plugin.plugin_options {
            assert_ne!(key, "type");
            assert_ne!(key, "args");
            assert_ne!(key, "capabilities");
        }
    }
    // The unrouted keys are all there, verbatim.
    let opts = &list.plugins[0].plugin_options;
    assert!(opts.iter().any(|(k, _)| k == "bridge"));
    assert!(opts.iter().any(|(k, _)| k == "ipam"));
}

#[test]
fn plugin_list_round_trips_through_text() {
    let list = CniPluginList::from_string(CONFLIST).unwrap();
    let text = list.to_string().unwrap();
    let again = CniPluginList::from_string(text.as_str()).unwrap();
    assert_eq!(again.cni_version.as_str(), list.cni_version.as_str());
    assert_eq!(again.name.as_str(), list.name.as_str());
    assert_eq!(again.disable_check, list.disable_check);
    assert_eq!(again.disable_gc, list.disable_gc);
    assert_eq!(again.plugins.len(), list.plugins.len());
    for (a, b) in again.plugins.iter().zip(list.plugins.iter()) {
        assert_eq!(a.plugin_type, b.plugin_type);
        assert_eq!(a.plugin_options.len(), b.plugin_options.len());
    }
    // Printing again gives the very same text: a fixed point after one trip.
    assert_eq!(again.to_string().unwrap(), text);
}

#[test]
fn plugin_list_errors_name_the_failing_key() {
    assert!(matches!(
        CniPluginList::from_string("[]"),
        Err(CniDeserializationError::RootIsNotObject)
    ));
    assert!(matches!(
        CniPluginList::from_string("not json at all"),
        Err(CniDeserializationError::SerdeError)
    ));
    assert!(matches!(
        CniPluginList::from_string(r#"{"name":"n","plugins":[{"type":"p"}]}"#),
        Err(CniDeserializationError::MissingKey)
    ));
    assert!(matches!(
        CniPluginList::from_string(r#"{"cniVersion":"nope","name":"n","plugins":[{"type":"p"}]}"#),
        Err(CniDeserializationError::MalformedVersion(_))
    ));
    assert!(matches!(
        CniPluginList::from_string(r#"{"cniVersion":5,"name":"n","plugins":[{"type":"p"}]}"#),
        Err(CniDeserializationError::KeyOfWrongType)
    ));
    assert!(matches!(
        CniPluginList::from_string(
            r#"{"cniVersion":"1.0.0","cniVersions":[],"name":"n","plugins":[{"type":"p"}]}"#
        ),
        Err(CniDeserializationError::EmptyArray)
    ));
    assert!(matches!(
        CniPluginList::from_string(r#"{"cniVersion":"1.0.0","name":"bad name","plugins":[{"type":"p"}]}"#),
        Err(CniDeserializationError::MalformedName(_))
    ));
    assert!(matches!(
        CniPluginList::from_string(r#"{"cniVersion":"1.0.0","name":"n"}"#),
        Err(CniDeserializationError::MissingKey)
    ));
    assert!(matches!(
        CniPluginList::from_string(r#"{"cniVersion":"1.0.0","name":"n","plugins":[]}"#),
        Err(CniDeserializationError::EmptyArray)
    ));
    assert!(matches!(
        CniPluginList::from_string(r#"{"cniVersion":"1.0.0","name":"n","plugins":[{"notype":1}]}"#),
        Err(CniDeserializationError::MissingKey)
    ));
    assert!(matches!(
        CniPluginList::from_string(r#"{"cniVersion":"1.0.0","name":"n","plugins":[{"type":9}]}"#),
        Err(CniDeserializationError::KeyOfWrongType)
    ));
    assert!(matches!(
        CniPluginList::from_string(r#"{"cniVersion":"1.0.0","name":"n","plugins":[{"type":"p","args":3}]}"#),
        Err(CniDeserializationError::KeyOfWrongType)
    ));
}

#[test]
fn plugin_emit_rejects_overlapping_keys() {
    let plugin = CniPlugin {
        plugin_type: "bridge".to_string(),
        args: None,
        capabilities: None,
        plugin_options: vec![("type".to_string(), Json::Str("smuggled".to_string()))],
    };
    assert!(matches!(
        plugin.to_json_value(),
        Err(CniSerializationError::OverlappingKey)
    ));
}

#[test]
fn plugin_numbers_pass_through_verbatim() {
    let plugin = CniPlugin::from_string(r#"{"type":"p","mtu":1500,"ratio":0.5}"#).unwrap();
    let text = plugin.to_string().unwrap();
    let value: serde_json::Value = serde_json::from_str(&text).unwrap();
    assert_eq!(value["mtu"], serde_json::Value::from(1500));
    assert_eq!(value["ratio"], serde_json::Value::from(0.5));
    assert_eq!(value["type"], serde_json::Value::from("p"));
}
