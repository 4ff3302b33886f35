//! Generator for a search engine's offline dump format.
//!
//! The library turns a set of index configurations and their JSON document
//! collections into the complete list of files (paths and contents) of a
//! dump tree, ready to be written to disk and packaged.

pub mod config;
pub mod convert;
pub mod dump;
pub mod ids;
pub mod json;
pub mod text;
