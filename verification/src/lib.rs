//! Dynamic values for template rendering: ordered context maps, lazy merge
//! views over several mapping sources, and argument lists for dynamic calls.

pub mod args;
pub mod context;
pub mod context_map;
pub mod env;
pub mod equality;
pub mod laws;
pub mod merge;
pub mod model;
pub mod value;
