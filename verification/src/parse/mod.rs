//! Reading Dawn YAML files: paths into a document, where each node is written,
//! and the diagnostics of a file that cannot be read.
pub mod source_map;
pub mod builder;
pub mod yaml_events;
pub mod dawn_file;
