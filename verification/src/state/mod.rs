//! Scopes, their variables and listeners, and the propagation of changes.

pub mod laws;
pub mod lemmas;
pub mod model;
pub mod propagation;
pub mod scope_graph;
pub mod variables;
