use cml::listing::entries::{ListingEntry, ListingEntryConsoleNode};
use cml::listing::{active_lab_ids, console_lines, ConsoleLabEntry, ConsoleNodeEntry, ListType, SubCmdList};
use cml::rest_types::key::Console;
use cml::rest_types::labeled::Data;
use cml::rest_types::{LabTopology, NodeDefinition, NodeDescription, State};

fn node(id: &str, label: &str, state: State) -> Data<NodeDescription> {
    Data {
        id: id.to_string(),
        data: NodeDescription {
            x: 0, y: 0, label: label.to_string(), node_definition: NodeDefinition::IOSv, image_definition: None, state,
            configuration: None, cpus: None, cpu_limit: None, ram: None, data_volume: None, boot_disk_size: None, tags: Vec::new(),
        },
    }
}

fn topo(title: &str, state: State, nodes: Vec<Data<NodeDescription>>) -> LabTopology {
    LabTopology {
        title: title.to_string(), notes: String::new(), description: String::new(), owner: "admin".to_string(), state,
        cluster_id: None, version: String::new(), nodes, links: Vec::new(), interfaces: Vec::new(),
    }
}

fn key(uuid: &str, lab: &str, node: &str, line: u64) -> (String, Console) {
    (uuid.to_string(), Console { lab_id: lab.to_string(), node_id: node.to_string(), node_label: String::new(), line })
}

fn sample() -> (Vec<(String, Console)>, Vec<(String, LabTopology)>) {
    let keys = vec![key("u1", "L1", "n0", 1), key("u0", "L1", "n0", 0), key("u2", "L1", "n2", 0)];
    let labs = vec![
        ("L1".to_string(), topo("Core", State::Started, vec![node("n0", "R1", State::Booted), node("n1", "R2", State::Stopped), node("n2", "R3", State::Booted)])),
        ("L2".to_string(), topo("Idle", State::Stopped, vec![node("m0", "S1", State::Stopped)])),
    ];
    (keys, labs)
}

#[test]
fn console_lines_active_only() {
    let (keys, labs) = sample();
    let entries = console_lines(false, &keys, &labs);
    assert_eq!(entries.len(), 2);
    assert_eq!(entries[0].lab_id, "L1");
    assert_eq!(entries[0].lab_title, "Core");
    assert_eq!(entries[0].owner, "admin");
    let nodes = entries[0].nodes.as_ref().unwrap();
    assert_eq!(nodes.len(), 2);
    assert_eq!(nodes[0].node_id, "n0");
    assert_eq!(nodes[0].node_title, "R1");
    assert_eq!(nodes[0].lines, Ok(vec!["u0".to_string(), "u1".to_string()]));
    assert_eq!(nodes[1].node_id, "n2");
    assert_eq!(entries[1].nodes.as_ref().err(), Some(&State::Stopped));
}

#[test]
fn console_lines_all_nodes() {
    let (keys, labs) = sample();
    let entries = console_lines(true, &keys, &labs);
    let nodes = entries[0].nodes.as_ref().unwrap();
    assert_eq!(nodes.len(), 3);
    assert_eq!(nodes[1].node_id, "n1");
    assert_eq!(nodes[1].lines, Err(State::Stopped));
    assert_eq!(nodes[2].lines, Ok(vec!["u2".to_string()]));
}

#[test]
fn console_lines_equal_line_numbers_keep_order() {
    let keys = vec![key("b", "L", "n", 3), key("a", "L", "n", 3), key("c", "L", "n", 1)];
    let labs = vec![("L".to_string(), topo("T", State::Started, vec![node("n", "N", State::Booted)]))];
    let entries = console_lines(false, &keys, &labs);
    assert_eq!(entries[0].nodes.as_ref().unwrap()[0].lines, Ok(vec!["c".to_string(), "b".to_string(), "a".to_string()]));
}

#[test]
fn lab_ids_of_keys() {
    let (keys, _) = sample();
    assert_eq!(active_lab_ids(&keys), vec!["L1".to_string()]);
}

#[test]
fn listing_types() {
    let base = SubCmdList { all: false, json: false, vnc: false, links: false };
    assert_eq!(base.listing_type(), ListType::Console);
    assert_eq!(SubCmdList { vnc: true, ..base }.listing_type(), ListType::VNC);
    assert_eq!(SubCmdList { links: true, ..base }.listing_type(), ListType::Link);
}

fn entry_node(state: State, label: &str, id: &str, lines: Result<Vec<&str>, &str>) -> ListingEntryConsoleNode {
    ListingEntryConsoleNode {
        state,
        label: label.to_string(),
        id: id.to_string(),
        lines: lines.map(|v| v.into_iter().map(|s| s.to_string()).collect()).map_err(|e| e.to_string()),
    }
}

fn entry_lab(state: State, owner: &str, title: &str, id: &str, nodes: Result<Vec<ListingEntryConsoleNode>, &str>) -> ListingEntry {
    ListingEntry { state, title: title.to_string(), id: id.to_string(), owner: owner.to_string(), nodes: nodes.map_err(|e| e.to_string()) }
}

fn sample_labs() -> Vec<ListingEntry> {
    vec![
        entry_lab(State::Stopped, "bob", "Old", "l3", Err("stopped")),
        entry_lab(State::Booted, "bob", "Core", "l2", Ok(vec![
            entry_node(State::Booted, "r2", "n2", Ok(vec!["k2a", "k2b"])),
            entry_node(State::Stopped, "r0", "n0", Err("off")),
            entry_node(State::Booted, "r1", "n1", Ok(vec!["k1"])),
        ])),
        entry_lab(State::Booted, "alice", "Edge", "l1", Ok(vec![entry_node(State::Booted, "sw", "n9", Ok(vec![]))])),
    ]
}

#[test]
fn list_data_first_lines_of_active_labs() {
    let cmd = SubCmdList { all: false, json: false, vnc: false, links: false };
    let lines = cmd.list_data(sample_labs());
    assert_eq!(lines, vec![
        "[bob] /l2/n1/0 :: 'Core'/r1  (k1)".to_string(),
        "[bob] /l2/n2/0 :: 'Core'/r2  (k2a)".to_string(),
    ]);
}

#[test]
fn list_data_all_lines_and_unavailable() {
    let cmd = SubCmdList { all: true, json: false, vnc: false, links: false };
    let lines = cmd.list_data(sample_labs());
    assert_eq!(lines, vec![
        "[bob] /l2/n1/0 :: 'Core'/r1  (k1)".to_string(),
        "[bob] /l2/n2/0 :: 'Core'/r2  (k2a)".to_string(),
        "[bob] /l2/n2/1 :: 'Core'/r2  (k2b)".to_string(),
        "[bob] /l2/n0 :: 'Core'/r0 (no lines available, device state is Stopped)".to_string(),
        "[bob] /l3 :: 'Old' (no devices available, lab state is Stopped)".to_string(),
    ]);
}

#[test]
fn list_data_sorts_by_owner_then_title() {
    let cmd = SubCmdList { all: false, json: false, vnc: false, links: false };
    let labs = vec![
        entry_lab(State::Booted, "bob", "B", "x", Ok(vec![entry_node(State::Booted, "n", "1", Ok(vec!["k3"]))])),
        entry_lab(State::Booted, "bob", "A", "y", Ok(vec![entry_node(State::Booted, "n", "1", Ok(vec!["k2"]))])),
        entry_lab(State::Booted, "Zed", "C", "z", Ok(vec![entry_node(State::Booted, "n", "1", Ok(vec!["k1"]))])),
    ];
    let lines = cmd.list_data(labs);
    assert_eq!(lines, vec![
        "[Zed] /z/1/0 :: 'C'/n  (k1)".to_string(),
        "[bob] /y/1/0 :: 'A'/n  (k2)".to_string(),
        "[bob] /x/1/0 :: 'B'/n  (k3)".to_string(),
    ]);
}

#[test]
fn lab_entry_text() {
    let inactive = ConsoleLabEntry {
        owner: "bob".to_string(),
        lab_id: "l1".to_string(),
        lab_title: "Core \"A\"".to_string(),
        nodes: Err(State::Stopped),
    };
    assert_eq!(inactive.to_text(), "[bob] /l1/- :: \"Core \\\"A\\\"\"\t(not available, lab is Stopped)\n");
    let active = ConsoleLabEntry {
        owner: "bob".to_string(),
        lab_id: "l1".to_string(),
        lab_title: "Core".to_string(),
        nodes: Ok(vec![
            ConsoleNodeEntry { node_id: "n1".to_string(), node_title: "r1".to_string(), lines: Ok(vec!["k0".to_string(), "k1".to_string()]) },
            ConsoleNodeEntry { node_id: "n2".to_string(), node_title: "r2".to_string(), lines: Err(State::DefinedOnCore) },
        ]),
    };
    assert_eq!(
        active.to_text(),
        "[bob] /l1/n1/0 :: \"Core\"/r1\t(k0)\n[bob] /l1/n1/1 :: \"Core\"/r1\t(k1)\n[bob] /l1/n2/- :: \"Core\"/r2\t(not available, device is DefinedOnCore)\n"
    );
}
