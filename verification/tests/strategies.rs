use tokio_cni::invocation::CniInvocationError;
use tokio_cni::invocation::CniInvocationResult;
use tokio_cni::invocation::DirectoryCniLocator;
use tokio_cni::invocation::MappedCniLocator;
use tokio_cni::invocation::RootfulCniInvoker;
use tokio_cni::invocation::SuCniInvoker;
use tokio_cni::invocation::SudoCniInvoker;
use tokio_cni::invocation::build_env_string;
use tokio_cni::runtime::add_to_invocation_output;

#[test]
fn mapped_locator_answers_from_its_table() {
    let locator = MappedCniLocator {
        lookup_map: vec![
            ("bridge".to_string(), "/opt/cni/bin/bridge".to_string()),
            ("portmap".to_string(), "/opt/cni/bin/portmap".to_string()),
        ],
    };
    assert_eq!(locator.lookup("bridge").unwrap(), "/opt/cni/bin/bridge");
    assert_eq!(locator.lookup("portmap").unwrap(), "/opt/cni/bin/portmap");
    assert!(locator.lookup("ipam").is_none());
}

#[test]
fn directory_locator_picks_the_first_match() {
    let exact = DirectoryCniLocator {
        directory_path: "/opt/cni/bin".to_string(),
        exact_name: true,
    };
    let entries = vec![
        "bridge-old".to_string(),
        "bridge".to_string(),
        "portmap".to_string(),
    ];
    assert_eq!(exact.select_entry(&entries, "bridge"), Some(1));
    assert_eq!(exact.select_entry(&entries, "tuning"), None);

    let loose = DirectoryCniLocator {
        directory_path: "/opt/cni/bin".to_string(),
        exact_name: false,
    };
    assert_eq!(loose.select_entry(&entries, "bridge"), Some(0));
    assert_eq!(loose.select_entry(&entries, "map"), Some(2));
}

#[test]
fn env_string_lists_pairs_in_order() {
    let env = vec![
        ("CNI_COMMAND".to_string(), "ADD".to_string()),
        ("CNI_IFNAME".to_string(), "eth0".to_string()),
    ];
    assert_eq!(build_env_string(&env), "CNI_COMMAND=ADD CNI_IFNAME=eth0 ");
}

#[test]
fn su_shell_line_ends_with_exit() {
    let invoker = SuCniInvoker {
        su_path: "/usr/bin/su".to_string(),
        password: "SECRET-REDACTED".to_string(),
    };
    let env = vec![("CNI_COMMAND".to_string(), "ADD".to_string())];
    assert_eq!(
        invoker.shell_line(&env, "/opt/cni/bin/bridge"),
        "CNI_COMMAND=ADD /opt/cni/bin/bridge ; exit\n"
    );
    assert!(SuCniInvoker::output_indicates_failure("authentication failure"));
    assert!(!SuCniInvoker::output_indicates_failure("all good"));
}

#[test]
fn sudo_argument_and_failure_phrase() {
    let invoker = SudoCniInvoker {
        sudo_path: "/usr/bin/sudo".to_string(),
        password: None,
    };
    let env = vec![("CNI_COMMAND".to_string(), "DEL".to_string())];
    assert_eq!(
        invoker.command_argument(&env, "/opt/cni/bin/bridge"),
        "CNI_COMMAND=DEL /opt/cni/bin/bridge"
    );
    assert!(SudoCniInvoker::output_indicates_failure(
        "Sorry, try again.\n"
    ));
    assert!(!SudoCniInvoker::output_indicates_failure("fail"));
}

#[test]
fn rootful_invoker_keeps_the_longer_stream() {
    assert_eq!(
        RootfulCniInvoker::select_output("{\"a\":1}".to_string(), "warn".to_string()),
        "{\"a\":1}"
    );
    assert_eq!(
        RootfulCniInvoker::select_output("".to_string(), "{\"a\":1}".to_string()),
        "{\"a\":1}"
    );
    // Equal lengths keep stderr, as ties always did.
    assert_eq!(
        RootfulCniInvoker::select_output("ab".to_string(), "cd".to_string()),
        "cd"
    );
}

#[test]
fn blank_output_changes_nothing() {
    let mut result = CniInvocationResult::new();
    add_to_invocation_output("", "p1", &mut result).unwrap();
    add_to_invocation_output("   \n\t", "p1", &mut result).unwrap();
    assert!(result.attachment.is_none());
    assert!(result.version_objects.is_empty());
}

#[test]
fn exact_error_object_aborts_with_its_code() {
    let mut result = CniInvocationResult::new();
    let outcome = add_to_invocation_output(
        r#"{"cniVersion":"1.0.0","code":5,"msg":"x"}"#,
        "p1",
        &mut result,
    );
    match outcome {
        Err(CniInvocationError::PluginProducedError(e)) => {
            assert_eq!(e.code, 5);
            assert_eq!(e.msg, "x");
            assert_eq!(e.cni_version.as_deref(), Some("1.0.0"));
        }
        other => panic!("expected a plugin error, got {:?}", other),
    }
    assert!(result.attachment.is_none());
}

#[test]
fn supported_versions_classify_as_version_object_not_attachment() {
    let mut result = CniInvocationResult::new();
    add_to_invocation_output(
        r#"{"cniVersion":"1.0.0","supportedVersions":["0.4.0","1.0.0"]}"#,
        "p1",
        &mut result,
    )
    .unwrap();
    assert!(result.attachment.is_none());
    assert_eq!(result.version_objects.len(), 1);
    assert_eq!(result.version_objects[0].0, "p1");
    assert_eq!(result.version_objects[0].1.cni_version.as_str(), "1.0.0");
    assert_eq!(result.version_objects[0].1.supported_versions.len(), 2);

    // The same type reported again replaces the earlier record.
    add_to_invocation_output(
        r#"{"cniVersion":"1.0.0","supportedVersions":["1.0.0"]}"#,
        "p1",
        &mut result,
    )
    .unwrap();
    assert_eq!(result.version_objects.len(), 1);
    assert_eq!(result.version_objects[0].1.supported_versions.len(), 1);
}

#[test]
fn attachment_numbers_round_trip_exactly() {
    let text = r#"{"cniVersion":"1.0.0","interfaces":[{"name":"eth0","mtu":1500}],"ips":[],"routes":[{"dst":"0.0.0.0/0","gw":"10.1.0.1","priority":100}]}"#;
    let mut result = CniInvocationResult::new();
    add_to_invocation_output(text, "p1", &mut result).unwrap();
    let attachment = result.attachment.unwrap();
    assert_eq!(attachment.interfaces[0].mtu, Some(1500));
    assert_eq!(attachment.routes[0].priority, Some(100));
    assert_eq!(attachment.routes[0].dst, "0.0.0.0/0");
    assert_eq!(attachment.routes[0].gw.as_deref(), Some("10.1.0.1"));
}

#[test]
fn number_fields_hold_their_exact_bounds() {
    // The largest mtu representable parses; one past it does not read as an
    // attachment any more.
    let ok = r#"{"cniVersion":"1.0.0","interfaces":[{"name":"eth0","mtu":4294967295}],"ips":[],"routes":[]}"#;
    let mut result = CniInvocationResult::new();
    add_to_invocation_output(ok, "p1", &mut result).unwrap();
    assert_eq!(result.attachment.unwrap().interfaces[0].mtu, Some(4294967295));

    let too_big = r#"{"cniVersion":"1.0.0","interfaces":[{"name":"eth0","mtu":4294967296}],"ips":[],"routes":[]}"#;
    let mut result = CniInvocationResult::new();
    assert!(add_to_invocation_output(too_big, "p1", &mut result).is_err());
}
