//! Locating things in the YAML text of a Dawn file, for diagnostics.
pub mod lines;
pub mod locate;
pub mod refs;
pub mod declarations;
pub mod mark_checks;
pub mod effect_params;
pub mod project_key;
pub mod visit;
pub mod fixture_refs;
pub mod summary;
