//! Helpers for lists, maps, paths and text.

pub mod difference;
pub mod environment;
pub mod maps;
pub mod paths;
pub mod strings;

pub use difference::list_difference;
pub use environment::replace_env_var_references;
pub use maps::extend_safe;
pub use paths::{join_path_pretty, try_join_path_pretty};
pub use strings::{is_blank, trim_lines, unindent, StringExt};
