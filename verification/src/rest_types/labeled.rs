//! Values that the REST API labels with identifiers.

use vstd::prelude::*;

verus! {

#[derive(Debug, Clone)]
pub struct Data<T> {
    pub id: String,
    pub data: T,
}

#[derive(Debug, Clone)]
pub struct Link<T> {
    pub id: String,
    pub interface_a: String,
    pub interface_b: String,
    pub data: T,
}

#[derive(Debug, Clone)]
pub struct Interface<T> {
    pub int_id: String,
    pub node_id: String,
    pub data: T,
}

} // verus!
