//! The nodes, links and interfaces of a lab's YAML export.

use vstd::prelude::*;

verus! {

#[derive(Debug, Clone)]
pub struct Node {
    pub id: String,
    pub label: String,
    pub node_definition: String,
    pub x: isize,
    pub y: isize,
    pub configuration: String,
    pub tags: Vec<String>,
    pub interfaces: Vec<Interface>,
}

#[derive(Debug, Clone)]
pub struct Link {
    /// Link ID
    pub id: String,
    /// Interface on n1 this link is attached to
    pub i1: String,
    /// A device this link is attached to
    pub n1: String,
    /// Interface on n2 this link is attached to
    pub i2: String,
    /// A device this link is attached to
    pub n2: String,
}

#[derive(Debug, Clone)]
pub struct Interface {
    pub id: String,
    pub slot: Option<isize>,
    pub label: String,
    /// If a type is physical, virtual, etc
    pub format: String,
}

} // verus!
