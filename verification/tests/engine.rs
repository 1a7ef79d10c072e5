use std::cell::RefCell;

use tokio_cni::invocation::CniInvocationArguments;
use tokio_cni::invocation::CniInvocationError;
use tokio_cni::invocation::CniInvocationTarget;
use tokio_cni::invocation::CniInvoker;
use tokio_cni::invocation::CniIoError;
use tokio_cni::invocation::MappedCniLocator;
use tokio_cni::plugins::CniPluginList;
use tokio_cni::runtime::derive_environment;
use tokio_cni::runtime::invoke;
use tokio_cni::schema::CniValidAttachment;
use tokio_cni::types::CniContainerId;
use tokio_cni::types::CniInterfaceName;
use tokio_cni::types::CniOperation;

const LIST: &str = r#"{"name":"n1","cniVersion":"1.0.0","plugins":[{"type":"p1"},{"type":"p2"}]}"#;

const P1_OUT: &str =
    r#"{"cniVersion":"1.0.0","interfaces":[{"name":"eth0","sandbox":"s"}],"ips":[],"routes":[]}"#;
const P2_OUT: &str = r#"{"cniVersion":"1.0.0","interfaces":[{"name":"eth0","sandbox":"s"}],"ips":[{"address":"10.1.0.5/16","gateway":"10.1.0.1","interface":0}],"routes":[]}"#;

/// One recorded executor call: the program, its stdin document, and the
/// environment it was given.
struct Call {
    program: String,
    stdin: String,
    environment: Vec<(String, String)>,
}

/// An invoker that answers from a table keyed by program path and records
/// every call in order.
struct StubInvoker {
    outputs: Vec<(String, String)>,
    log: RefCell<Vec<Call>>,
}

impl StubInvoker {
    fn new(outputs: Vec<(&str, &str)>) -> StubInvoker {
        StubInvoker {
            outputs: outputs
                .into_iter()
                .map(|(p, o)| (p.to_string(), o.to_string()))
                .collect(),
            log: RefCell::new(Vec::new()),
        }
    }

    fn programs(&self) -> Vec<String> {
        self.log.borrow().iter().map(|c| c.program.clone()).collect()
    }
}

impl CniInvoker for StubInvoker {
    fn invoke(
        &self,
        program: &str,
        environment: &Vec<(String, String)>,
        stdin: &str,
    ) -> Result<String, CniIoError> {
        self.log.borrow_mut().push(Call {
            program: program.to_string(),
            stdin: stdin.to_string(),
            environment: environment.clone(),
        });
        for (p, o) in &self.outputs {
            if p == program {
                return Ok(o.clone());
            }
        }
        Err(CniIoError::Other("no stub output".to_string()))
    }
}

fn both_locator() -> MappedCniLocator {
    MappedCniLocator {
        lookup_map: vec![
            ("p1".to_string(), "/bin/p1".to_string()),
            ("p2".to_string(), "/bin/p2".to_string()),
        ],
    }
}

fn env_lookup(environment: &[(String, String)], key: &str) -> Option<String> {
    environment
        .iter()
        .find(|(k, _)| k == key)
        .map(|(_, v)| v.clone())
}

#[test]
fn add_threads_prev_result_through_the_chain() {
    let list = CniPluginList::from_string(LIST).unwrap();
    let target = CniInvocationTarget::PluginList(list);
    let invoker = StubInvoker::new(vec![("/bin/p1", P1_OUT), ("/bin/p2", P2_OUT)]);
    let locator = both_locator();
    let arguments = CniInvocationArguments::new();

    let result = invoke(CniOperation::Add, &arguments, &target, &invoker, &locator).unwrap();

    let attachment = result.attachment.unwrap();
    assert_eq!(attachment.interfaces[0].name, "eth0");
    assert_eq!(attachment.ips.len(), 1);
    assert_eq!(attachment.ips[0].address, "10.1.0.5/16");

    let log = invoker.log.borrow();
    assert_eq!(log.len(), 2);
    assert_eq!(log[0].program, "/bin/p1");
    assert_eq!(log[1].program, "/bin/p2");
    // Every call carried CNI_COMMAND=ADD.
    for call in log.iter() {
        assert_eq!(env_lookup(&call.environment, "CNI_COMMAND").unwrap(), "ADD");
    }
    // The first stdin had no prevResult; the second carried p1's output.
    let stdin1: serde_json::Value = serde_json::from_str(&log[0].stdin).unwrap();
    assert!(stdin1.get("prevResult").is_none());
    assert_eq!(stdin1["type"], serde_json::Value::from("p1"));
    assert_eq!(stdin1["name"], serde_json::Value::from("n1"));
    assert_eq!(stdin1["cniVersion"], serde_json::Value::from("1.0.0"));
    let stdin2: serde_json::Value = serde_json::from_str(&log[1].stdin).unwrap();
    let expected_prev: serde_json::Value = serde_json::from_str(P1_OUT).unwrap();
    assert_eq!(stdin2["prevResult"], expected_prev);
}

#[test]
fn delete_walks_the_chain_in_reverse() {
    let list = CniPluginList::from_string(LIST).unwrap();
    let target = CniInvocationTarget::PluginList(list);
    let invoker = StubInvoker::new(vec![("/bin/p1", ""), ("/bin/p2", "")]);
    let locator = both_locator();
    let arguments = CniInvocationArguments::new();

    invoke(CniOperation::Delete, &arguments, &target, &invoker, &locator).unwrap();
    assert_eq!(invoker.programs(), vec!["/bin/p2".to_string(), "/bin/p1".to_string()]);

    // The same list under ADD runs forward: the DEL order is its reverse.
    let invoker2 = StubInvoker::new(vec![("/bin/p1", P1_OUT), ("/bin/p2", P2_OUT)]);
    let list2 = CniPluginList::from_string(LIST).unwrap();
    let target2 = CniInvocationTarget::PluginList(list2);
    invoke(CniOperation::Add, &arguments, &target2, &invoker2, &locator).unwrap();
    let mut forward = invoker2.programs();
    forward.reverse();
    assert_eq!(invoker.programs(), forward);
}

#[test]
fn plugin_error_aborts_the_walk() {
    let list = CniPluginList::from_string(LIST).unwrap();
    let target = CniInvocationTarget::PluginList(list);
    let invoker = StubInvoker::new(vec![
        ("/bin/p1", r#"{"cniVersion":"1.0.0","code":7,"msg":"boom"}"#),
        ("/bin/p2", P2_OUT),
    ]);
    let locator = both_locator();
    let arguments = CniInvocationArguments::new();

    let outcome = invoke(CniOperation::Add, &arguments, &target, &invoker, &locator);
    match outcome {
        Err(CniInvocationError::PluginProducedError(e)) => {
            assert_eq!(e.code, 7);
            assert_eq!(e.msg, "boom");
        }
        other => panic!("expected a plugin error, got {:?}", other),
    }
    // p2 was never invoked.
    assert_eq!(invoker.programs(), vec!["/bin/p1".to_string()]);
}

#[test]
fn locator_miss_aborts_at_the_missing_plugin() {
    let list = CniPluginList::from_string(LIST).unwrap();
    let target = CniInvocationTarget::PluginList(list);
    let invoker = StubInvoker::new(vec![("/bin/p1", P1_OUT)]);
    let locator = MappedCniLocator {
        lookup_map: vec![("p1".to_string(), "/bin/p1".to_string())],
    };
    let arguments = CniInvocationArguments::new();

    let outcome = invoke(CniOperation::Add, &arguments, &target, &invoker, &locator);
    assert!(matches!(
        outcome,
        Err(CniInvocationError::PluginNotFoundByLocator)
    ));
    assert_eq!(invoker.programs(), vec!["/bin/p1".to_string()]);
}

#[test]
fn empty_stdout_on_delete_is_silent_success() {
    let list = CniPluginList::from_string(LIST).unwrap();
    let target = CniInvocationTarget::PluginList(list);
    let invoker = StubInvoker::new(vec![("/bin/p1", ""), ("/bin/p2", "")]);
    let locator = both_locator();
    let arguments = CniInvocationArguments::new();

    let result = invoke(CniOperation::Delete, &arguments, &target, &invoker, &locator).unwrap();
    assert!(result.attachment.is_none());
    assert!(result.version_objects.is_empty());
    assert_eq!(invoker.log.borrow().len(), 2);
}

#[test]
fn gc_passes_valid_attachments_verbatim() {
    let list =
        CniPluginList::from_string(r#"{"name":"n1","cniVersion":"1.0.0","plugins":[{"type":"p1"}]}"#)
            .unwrap();
    let target = CniInvocationTarget::PluginList(list);
    let invoker = StubInvoker::new(vec![("/bin/p1", "")]);
    let locator = both_locator();
    let mut arguments = CniInvocationArguments::new();
    arguments.valid_attachments(vec![CniValidAttachment {
        container_id: "c1".to_string(),
        interface_name: "eth0".to_string(),
    }]);

    invoke(CniOperation::GarbageCollect, &arguments, &target, &invoker, &locator).unwrap();

    let log = invoker.log.borrow();
    assert_eq!(env_lookup(&log[0].environment, "CNI_COMMAND").unwrap(), "GC");
    let stdin: serde_json::Value = serde_json::from_str(&log[0].stdin).unwrap();
    let expected: serde_json::Value =
        serde_json::from_str(r#"[{"containerID":"c1","ifname":"eth0"}]"#).unwrap();
    assert_eq!(stdin["cni.dev/valid-attachments"], expected);
}

#[test]
fn version_output_is_recorded_per_plugin_type() {
    let list = CniPluginList::from_string(LIST).unwrap();
    let target = CniInvocationTarget::PluginList(list);
    let invoker = StubInvoker::new(vec![
        ("/bin/p1", r#"{"cniVersion":"1.0.0","supportedVersions":["0.4.0","1.0.0"]}"#),
        ("/bin/p2", r#"{"cniVersion":"1.0.0","supportedVersions":["1.0.0"]}"#),
    ]);
    let locator = both_locator();
    let arguments = CniInvocationArguments::new();

    let result = invoke(CniOperation::Version, &arguments, &target, &invoker, &locator).unwrap();
    // The supportedVersions shape classifies as a version object, never as
    // an attachment.
    assert!(result.attachment.is_none());
    assert_eq!(result.version_objects.len(), 2);
    assert_eq!(result.version_objects[0].0, "p1");
    assert_eq!(result.version_objects[0].1.supported_versions.len(), 2);
    assert_eq!(result.version_objects[1].0, "p2");
    assert_eq!(result.version_objects[1].1.supported_versions.len(), 1);
}

#[test]
fn unrecognizable_output_aborts_with_the_raw_text() {
    let list =
        CniPluginList::from_string(r#"{"name":"n1","cniVersion":"1.0.0","plugins":[{"type":"p1"}]}"#)
            .unwrap();
    let target = CniInvocationTarget::PluginList(list);
    let invoker = StubInvoker::new(vec![("/bin/p1", "not json")]);
    let locator = both_locator();
    let arguments = CniInvocationArguments::new();

    let outcome = invoke(CniOperation::Add, &arguments, &target, &invoker, &locator);
    match outcome {
        Err(CniInvocationError::PluginProducedUnrecognizableOutput(raw)) => {
            assert_eq!(raw, "not json");
        }
        other => panic!("expected unrecognizable output, got {:?}", other),
    }
}

#[test]
fn attachment_with_invalid_gateway_is_not_an_attachment() {
    // The gateway is not address text, so the attachment reading fails and
    // the walk aborts on the unrecognizable output.
    let list =
        CniPluginList::from_string(r#"{"name":"n1","cniVersion":"1.0.0","plugins":[{"type":"p1"}]}"#)
            .unwrap();
    let target = CniInvocationTarget::PluginList(list);
    let invoker = StubInvoker::new(vec![(
        "/bin/p1",
        r#"{"cniVersion":"1.0.0","ips":[{"address":"10.1.0.5/16","gateway":"not-an-address","interface":0}]}"#,
    )]);
    let locator = both_locator();
    let arguments = CniInvocationArguments::new();

    let outcome = invoke(CniOperation::Add, &arguments, &target, &invoker, &locator);
    assert!(matches!(
        outcome,
        Err(CniInvocationError::PluginProducedUnrecognizableOutput(_))
    ));
}

#[test]
fn environment_carries_exactly_the_present_arguments() {
    let mut arguments = CniInvocationArguments::new();
    let env = derive_environment(CniOperation::Add, &arguments);
    assert_eq!(env.len(), 1);
    assert_eq!(env[0], ("CNI_COMMAND".to_string(), "ADD".to_string()));

    arguments.container_id(CniContainerId::new("fcnet").unwrap());
    arguments.net_ns("/var/run/netns/testing".to_string());
    arguments.interface_name(CniInterfaceName::new("eth0").unwrap());
    arguments.paths(vec!["/opt/cni/bin".to_string(), "/usr/libexec/cni".to_string()]);
    let env = derive_environment(CniOperation::Check, &arguments);
    assert_eq!(env_lookup(&env, "CNI_COMMAND").unwrap(), "CHECK");
    assert_eq!(env_lookup(&env, "CNI_CONTAINERID").unwrap(), "fcnet");
    assert_eq!(env_lookup(&env, "CNI_NETNS").unwrap(), "/var/run/netns/testing");
    assert_eq!(env_lookup(&env, "CNI_IFNAME").unwrap(), "eth0");
    assert_eq!(
        env_lookup(&env, "CNI_PATH").unwrap(),
        "/opt/cni/bin:/usr/libexec/cni"
    );

    // An empty path list sets no CNI_PATH.
    let mut empty_paths = CniInvocationArguments::new();
    empty_paths.paths(Vec::new());
    let env = derive_environment(CniOperation::Add, &empty_paths);
    assert!(env_lookup(&env, "CNI_PATH").is_none());
}

#[test]
fn seeded_attachment_takes_precedence_as_prev_result() {
    let list =
        CniPluginList::from_string(r#"{"name":"n1","cniVersion":"1.0.0","plugins":[{"type":"p1"}]}"#)
            .unwrap();
    let target = CniInvocationTarget::PluginList(list);
    let invoker = StubInvoker::new(vec![("/bin/p1", "")]);
    let locator = both_locator();

    // Seed the attachment the way CHECK and DEL do, parsing it through the
    // library itself.
    let seed = tokio_cni::json::json_parse(P1_OUT)
        .and_then(|j| tokio_cni::schema::CniAttachment::from_json(&j))
        .unwrap();
    let mut arguments = CniInvocationArguments::new();
    arguments.attachment(seed);

    invoke(CniOperation::Check, &arguments, &target, &invoker, &locator).unwrap();
    let log = invoker.log.borrow();
    let stdin: serde_json::Value = serde_json::from_str(&log[0].stdin).unwrap();
    let expected_prev: serde_json::Value = serde_json::from_str(P1_OUT).unwrap();
    assert_eq!(stdin["prevResult"], expected_prev);
    assert_eq!(env_lookup(&log[0].environment, "CNI_COMMAND").unwrap(), "CHECK");
}

#[test]
fn version_override_replaces_the_list_version_in_stdin() {
    let list =
        CniPluginList::from_string(r#"{"name":"n1","cniVersion":"1.0.0","plugins":[{"type":"p1"}]}"#)
            .unwrap();
    let target = CniInvocationTarget::PluginList(list);
    let invoker = StubInvoker::new(vec![("/bin/p1", "")]);
    let locator = both_locator();
    let mut arguments = CniInvocationArguments::new();
    arguments.cni_version(tokio_cni::types::CniVersion::new(0, 4, 0));

    invoke(CniOperation::Status, &arguments, &target, &invoker, &locator).unwrap();
    let log = invoker.log.borrow();
    let stdin: serde_json::Value = serde_json::from_str(&log[0].stdin).unwrap();
    assert_eq!(stdin["cniVersion"], serde_json::Value::from("0.4.0"));
    assert_eq!(env_lookup(&log[0].environment, "CNI_COMMAND").unwrap(), "STATUS");
}
