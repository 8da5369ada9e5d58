//! Command-line utilities for Cisco Modeling Labs: the verified core.
//!
//! The library holds the logic of the tools: the CML REST data model and the
//! decisions taken on its responses, a bash word splitter/quoter used for shell
//! completion, the parser of scripted terminal commands, console prompt
//! detection and the rolling console buffer.

pub mod shell_quote;
pub mod strings;
pub mod rest_types;
pub mod lab_yaml;
pub mod utils;
pub mod api;
pub mod term;
pub mod terminal;
pub mod completion;
pub mod listing;
pub mod rest;
pub mod iter_extensions;
pub mod cmlrest;
pub mod open_term;
pub mod expose;
