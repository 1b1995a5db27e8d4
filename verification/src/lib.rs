//! The reactive state of a widget tree: nested scopes that hold named
//! variables, listeners that are run again when a variable they need changes,
//! and the helpers that the widget builder works with.

pub mod state;
pub mod text;
pub mod util;
pub mod widgets;
