//! The Dawn data model: exact time and distance units, colors, identifiers and
//! references.
pub mod decimal;
pub mod time;
pub mod units;
pub mod unit_order;
pub mod color;
pub mod refs;
pub mod kinds;
pub mod resolved;
