//! Reports, for every package of a resolved dependency graph, which declared
//! features are enabled, which are declared but not activated, and which are
//! candidates for removal (activate nothing and are never referenced in
//! source).

pub mod classify;
pub mod laws;
pub mod model;
pub mod order;
pub mod render;
pub mod scanner;
