//! Filters streams of records through boolean predicates written in Lua.

pub mod config;
mod lua;
pub mod select;
pub mod system;


pub use config::{Config, FilterConfig};
pub use system::{Filter, FilterError, FilterRuntime, FilterSystem};
