use std::str::FromStr;
use cml::cmlrest::{lab_summary, HttpMethod, LabID};
use cml::rest_types::{Lab, NodeDefinition, State};
use cml::rest::{api_v0_url, body_kind, decimal_string, decode_pass64, get_auth_env, is_authentication_failure, is_not_found, BodyKind, Endpoint, NotFoundKind};

#[test]
fn decimal_text() {
    assert_eq!(decimal_string(0), "0");
    assert_eq!(decimal_string(7), "7");
    assert_eq!(decimal_string(1234567890), "1234567890");
    assert_eq!(decimal_string(u64::MAX), "18446744073709551615");
}

#[test]
fn urls_and_paths() {
    assert_eq!(api_v0_url("cml.lab", "/labs"), "https://cml.lab/api/v0/labs");
    assert_eq!(api_v0_url("cml.lab", "labs"), "https://cml.lab/api/v0/labs");
    assert_eq!(Endpoint::Labs { show_all: true }.path(), "/labs?show_all=true");
    assert_eq!(Endpoint::Lab { lab_id: "a1" }.path(), "/labs/a1");
    assert_eq!(Endpoint::LabNodes { lab_id: "a1" }.path(), "/labs/a1/nodes");
    assert_eq!(Endpoint::LabNode { lab_id: "a1", node_id: "n2" }.path(), "/labs/a1/nodes/n2?simplified=true");
    assert_eq!(Endpoint::LabNodeStop { lab_id: "a1", node_id: "n2" }.path(), "/labs/a1/nodes/n2/state/stop");
    assert_eq!(Endpoint::LabNodeKeysConsole { lab_id: "a", node_id: "n", line: Some(12) }.path(), "/labs/a/nodes/n/keys/console?line=12");
    assert_eq!(Endpoint::LabNodeKeysConsole { lab_id: "a", node_id: "n", line: None }.path(), "/labs/a/nodes/n/keys/console");
    assert_eq!(Endpoint::LabTopology { lab_id: "a", include_configurations: true }.path(), "/labs/a/topology?exclude_configurations=false");
    assert_eq!(Endpoint::KeysVnc { show_all: false }.path(), "/keys/vnc?show_all=false");
    assert_eq!(Endpoint::SimplifiedNodeDefinitions.path(), "/simplified_node_definitions");
}

#[test]
fn body_kinds() {
    assert_eq!(body_kind(0, None), Ok(BodyKind::Empty));
    assert_eq!(body_kind(3, Some("text/plain; charset=utf-8")), Ok(BodyKind::PlainText));
    assert_eq!(body_kind(3, Some("application/json; charset=utf-8")), Ok(BodyKind::Json));
    assert_eq!(body_kind(3, None), Err("response without a Content-Type header".to_string()));
    assert_eq!(body_kind(3, Some("text/html")), Err("unknown content-type: `text/html`".to_string()));
}

#[test]
fn not_found_responses() {
    assert!(is_not_found(NotFoundKind::Lab, 404, "Lab not found: abc"));
    assert!(!is_not_found(NotFoundKind::Lab, 404, "Node not found: abc"));
    assert!(is_not_found(NotFoundKind::Node, 404, "Node not found: abc"));
    assert!(!is_not_found(NotFoundKind::Node, 400, "Node not found: abc"));
    assert!(is_not_found(NotFoundKind::ConsoleKey, 500, "Server encountered an unexpected error. Please report this problem to support."));
    assert!(is_not_found(NotFoundKind::ConsoleKey, 400, "Serial port does not exist on node: 3"));
    assert!(!is_not_found(NotFoundKind::ConsoleKey, 403, "Lab not found: x"));
    assert!(is_authentication_failure(403, Some("Authentication failed!")));
    assert!(!is_authentication_failure(401, Some("Authentication failed!")));
    assert!(!is_authentication_failure(403, None));
}

#[test]
fn auth_from_environment() {
    let a = get_auth_env(Some("h".into()), Some("u".into()), Some("plain".into()), Some("c2VjcmV0".into())).unwrap();
    assert_eq!(a.host, "h");
    assert_eq!(a.username, "u");
    assert_eq!(a.password, "secret");
    let b = get_auth_env(Some("h".into()), Some("u".into()), Some("plain".into()), Some("not base64!".into())).unwrap();
    assert_eq!(b.password, "plain");
    let c = get_auth_env(Some("h".into()), Some("u".into()), Some("plain".into()), Some("/w==".into())).unwrap();
    assert_eq!(c.password, "plain");
    assert_eq!(get_auth_env(None, Some("u".into()), None, None).err(), Some("Missing or invalid environment variable `CML_HOST`".to_string()));
    assert_eq!(get_auth_env(Some("h".into()), None, None, None).err(), Some("Missing or invalid environment variable `CML_USER`".to_string()));
    assert_eq!(
        get_auth_env(Some("h".into()), Some("u".into()), None, None).err(),
        Some("Missing or invalid environment variable(s): `CML_PASS64` or `CML_PASS`".to_string())
    );
    assert_eq!(decode_pass64("aGk="), Some("hi".to_string()));
}

#[test]
fn http_methods() {
    assert_eq!(HttpMethod::parse("get"), Ok(HttpMethod::GET));
    assert_eq!(HttpMethod::parse("Put"), Ok(HttpMethod::PUT));
    assert_eq!(HttpMethod::parse("post"), Err("valid values: get, put".to_string()));
    assert_eq!(HttpMethod::parse("GETX"), Err("valid values: get, put".to_string()));
    let m: HttpMethod = "PUT".parse().unwrap();
    assert_eq!(m, HttpMethod::PUT);
}

#[test]
fn lab_argument_is_trimmed() {
    let l = LabID { arg: "  abc \n".to_string() };
    assert_eq!(l.lab_id(), "abc");
}

#[test]
fn lab_summary_lines() {
    let mut lab = Lab {
        id: "l1".to_string(),
        state: State::DefinedOnCluster,
        created: "2021-01-01".to_string(),
        title: "Core".to_string(),
        owner: "admin".to_string(),
        description: "  a lab \n".to_string(),
        node_count: 12,
        link_count: -3,
    };
    assert_eq!(lab_summary(&lab), vec![
        "Lab l1, \"Core\" (Defiend on Cluster)".to_string(),
        "Owner: admin, Created: 2021-01-01".to_string(),
        "12 nodes, -3 links".to_string(),
        "Description:".to_string(),
        "a lab".to_string(),
    ]);
    lab.description = " \t".to_string();
    lab.state = State::Booted;
    lab.link_count = 0;
    assert_eq!(lab_summary(&lab), vec![
        "Lab l1, \"Core\" (Booted)".to_string(),
        "Owner: admin, Created: 2021-01-01".to_string(),
        "12 nodes, 0 links".to_string(),
    ]);
}

#[test]
fn node_definition_id_roundtrip() {
    for d in [NodeDefinition::ASAv, NodeDefinition::IOSv, NodeDefinition::IOSxrv9000, NodeDefinition::Desktop, NodeDefinition::Unknown("vyos".to_string())] {
        assert_eq!(NodeDefinition::from_str(&d.to_cml_id()), Ok(d.clone()));
    }
    assert_eq!(NodeDefinition::from_str("iosv"), Ok(NodeDefinition::IOSv));
    assert_eq!(NodeDefinition::from_str("IOSv"), Ok(NodeDefinition::Unknown("IOSv".to_string())));
}
