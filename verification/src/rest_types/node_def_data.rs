//! The parts of a simplified node definition.

use vstd::prelude::*;

verus! {

#[derive(Debug, Clone)]
pub struct General {
    pub description: String,
    pub nature: String,
    pub read_only: bool,
}

#[derive(Debug, Clone)]
pub struct Device {
    pub interfaces: Interfaces,
}

#[derive(Debug, Clone)]
pub struct Interfaces {
    pub has_loopback_zero: bool,
    pub default_count: usize,
    pub physical: Vec<String>,
    pub serial_ports: usize,
}

#[derive(Debug, Clone)]
pub struct UI {
    pub description: String,
    pub group: String,
    pub icon: String,
    pub label: String,
    pub label_prefix: String,
    pub visible: bool,
    pub has_configuration: bool,
    pub show_ram: bool,
    pub show_cpus: bool,
    pub show_cpu_limit: bool,
    pub show_data_volume: bool,
    pub show_boot_disk_size: bool,
    pub has_config_extraction: bool,
}

#[derive(Debug, Clone)]
pub struct Sim {
    pub ram: Option<usize>,
    pub cpus: Option<usize>,
    pub cpu_limit: Option<usize>,
    pub data_volume: Option<usize>,
    pub boot_disk_size: Option<usize>,
    pub console: bool,
    pub simulate: bool,
    pub vnc: bool,
}

} // verus!
