//! Layered, losslessly editable configuration for a version-control repository.

pub mod access;
pub mod bootstrap;
pub mod cache;
pub mod edit;
pub mod error;
pub mod file;
pub mod follow;
pub mod glob;
pub mod keys;
pub mod laws;
pub mod organize;
pub mod parse;
pub mod path;
pub mod scan;
pub mod text;
pub mod trust;
pub mod typed;
pub mod url;
pub mod value;
