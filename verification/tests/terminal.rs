use cml::rest_types::key::Console;
use cml::rest_types::labeled::Data;
use cml::rest_types::node_def_data::{Device, General, Interfaces, Sim, UI};
use cml::rest_types::{LabTopology, NodeDefinition, NodeDescription, SimpleNodeDefData, SimpleNodeDefinition, State};
use cml::terminal::{find_single, ConsoleCtx, ConsoleSearchError, NodeCtx, NodeSearchError};

fn node(id: &str, label: &str, state: State, def: NodeDefinition) -> Data<NodeDescription> {
    Data {
        id: id.to_string(),
        data: NodeDescription {
            x: 0,
            y: 0,
            label: label.to_string(),
            node_definition: def,
            image_definition: None,
            state,
            configuration: None,
            cpus: None,
            cpu_limit: None,
            ram: None,
            data_volume: None,
            boot_disk_size: None,
            tags: Vec::new(),
        },
    }
}

fn topo(title: &str, owner: &str, state: State, nodes: Vec<Data<NodeDescription>>) -> LabTopology {
    LabTopology {
        title: title.to_string(),
        notes: String::new(),
        description: String::new(),
        owner: owner.to_string(),
        state,
        cluster_id: None,
        version: "0.0.4".to_string(),
        nodes,
        links: Vec::new(),
        interfaces: Vec::new(),
    }
}

fn labs() -> Vec<(String, LabTopology)> {
    vec![
        (
            "lab1".to_string(),
            topo(
                "Core",
                "admin",
                State::Started,
                vec![
                    node("n0", "R1", State::Booted, NodeDefinition::IOSv),
                    node("n1", "R2", State::Stopped, NodeDefinition::IOSv),
                ],
            ),
        ),
        ("lab2".to_string(), topo("Edge", "admin", State::Stopped, vec![node("n0", "R1", State::Stopped, NodeDefinition::IOSv)])),
        ("lab3".to_string(), topo("Edge", "admin", State::Stopped, vec![])),
        ("Core".to_string(), topo("Other", "admin", State::Stopped, vec![])),
    ]
}

#[test]
fn node_search_by_label_and_id() {
    // "Core" is the title of one lab and the identifier of another: the identifier wins
    assert_eq!(NodeCtx::search("h", "u", labs(), "Core", "R2").err(), Some(NodeSearchError::NoMatchingNode));
    let n = NodeCtx::search("cml.local", "admin", labs(), "lab1", "R2").unwrap();
    assert_eq!(n.host(), "cml.local");
    assert_eq!(n.user(), "admin");
    assert_eq!(n.lab(), ("lab1", "Core"));
    assert_eq!(n.node(), ("n1", "R2"));
    assert_eq!(n.meta().state, State::Stopped);
}

#[test]
fn node_search_errors() {
    assert_eq!(NodeCtx::search("h", "u", labs(), "nope", "R1").err(), Some(NodeSearchError::NoMatchingLab));
    assert_eq!(NodeCtx::search("h", "u", labs(), "Edge", "R1").err(), Some(NodeSearchError::MultipleMatchingLabs));
    assert_eq!(NodeCtx::search("h", "u", labs(), "lab1", "R9").err(), Some(NodeSearchError::NoMatchingNode));
}

#[test]
fn find_single_prefers_identifier() {
    let nodes = vec![
        node("a", "x", State::Booted, NodeDefinition::IOSv),
        node("x", "y", State::Booted, NodeDefinition::IOSv),
    ];
    let found = find_single(nodes, "x").unwrap();
    assert_eq!(found.id, "x");
    let twins = vec![node("a", "x", State::Booted, NodeDefinition::IOSv), node("b", "x", State::Booted, NodeDefinition::IOSv)];
    assert_eq!(find_single(twins, "x").err(), Some(NodeSearchError::MultipleMatchingNodes));
}

fn key(lab: &str, node: &str, line: u64) -> Console {
    Console { lab_id: lab.to_string(), node_id: node.to_string(), node_label: String::new(), line }
}

fn defs(console: bool) -> Vec<SimpleNodeDefinition> {
    vec![SimpleNodeDefinition {
        id: NodeDefinition::IOSv,
        image_definitions: Vec::new(),
        data: SimpleNodeDefData {
            general: General { description: String::new(), nature: String::new(), read_only: true },
            device: Device { interfaces: Interfaces { has_loopback_zero: true, default_count: 1, physical: Vec::new(), serial_ports: 1 } },
            ui: UI {
                description: String::new(),
                group: String::new(),
                icon: String::new(),
                label: String::new(),
                label_prefix: String::new(),
                visible: true,
                has_configuration: true,
                show_ram: true,
                show_cpus: true,
                show_cpu_limit: true,
                show_data_volume: true,
                show_boot_disk_size: true,
                has_config_extraction: true,
            },
            sim: Sim { ram: None, cpus: None, cpu_limit: None, data_volume: None, boot_disk_size: None, console, simulate: true, vnc: false },
        },
    }]
}

#[test]
fn console_search_lowest_line() {
    let keys = vec![
        ("k-other".to_string(), key("lab1", "n1", 0)),
        ("k1".to_string(), key("lab1", "n0", 1)),
        ("k0".to_string(), key("lab1", "n0", 0)),
        ("k0b".to_string(), key("lab1", "n0", 0)),
    ];
    let n = NodeCtx::search("h", "u", labs(), "lab1", "R1").unwrap();
    let c = ConsoleCtx::search(n, None, &keys, &Vec::new()).unwrap();
    assert_eq!(c.uuid(), "k0");
    assert_eq!(*c.line(), 0);
    assert_eq!(c.node().node(), ("n0", "R1"));
    let n = NodeCtx::search("h", "u", labs(), "lab1", "R1").unwrap();
    let c = ConsoleCtx::search(n, Some(1), &keys, &Vec::new()).unwrap();
    assert_eq!(c.uuid(), "k1");
}

#[test]
fn console_search_errors() {
    let keys = vec![("k0".to_string(), key("lab1", "n0", 0))];
    let inactive = NodeCtx::search("h", "u", labs(), "lab1", "R2").unwrap();
    assert_eq!(ConsoleCtx::search(inactive, None, &keys, &Vec::new()).err(), Some(ConsoleSearchError::NodeNotActive));
    let active = NodeCtx::search("h", "u", labs(), "lab1", "R1").unwrap();
    assert_eq!(ConsoleCtx::search(active, Some(3), &keys, &defs(true)).err(), Some(ConsoleSearchError::NoMatchingLines));
    let active = NodeCtx::search("h", "u", labs(), "lab1", "R1").unwrap();
    assert_eq!(ConsoleCtx::search(active, Some(3), &keys, &defs(false)).err(), Some(ConsoleSearchError::Unsupported));
}

#[test]
fn console_search_error_from_node_error() {
    let e: ConsoleSearchError = NodeSearchError::NoMatchingNode.into();
    assert_eq!(e, ConsoleSearchError::BadDeviceQuery(NodeSearchError::NoMatchingNode));
}
