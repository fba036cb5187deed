//! Helpers for routed handlers: typed access to the parameters of a path.
pub mod path_params;

pub use path_params::{FromParams, PathParams};
