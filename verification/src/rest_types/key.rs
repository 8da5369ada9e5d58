//! Console and VNC keys of running nodes.

use vstd::prelude::*;

verus! {

#[derive(Debug, Clone)]
pub struct Console {
    pub lab_id: String,
    pub node_id: String,
    pub node_label: String,
    pub line: u64,
}

#[derive(Debug, Clone)]
pub struct VNC {
    pub lab_id: String,
    pub node_id: String,
    pub node_label: String,
}

// for consistency's sake
pub type Link = String;

} // verus!
