//! Dawn project model, effect-script front end and text tooling, with
//! machine-checked contracts.

pub mod text;
pub mod counting;
pub mod model;
pub mod effect_script;
pub mod document;
pub mod lower;
pub mod lower_checks;
pub mod diagnostics;
pub mod parse;
pub mod analysis;
pub mod load;
