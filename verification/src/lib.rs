//! Resolution of generic package names into native install commands.
pub mod cli;
pub mod color;
pub mod db;
pub mod error;
pub mod exec;
pub mod fallback;
pub mod os;
pub mod repology;
pub mod resolver;
pub mod seed;
pub mod text;
