//! Editing Dawn documents: sequence timelines and their marks, what an editor
//! can show of a document, and rewriting its top-level objects.
pub mod timeline;
pub mod sequence_edit;
pub mod marks;
pub mod inspect;
pub mod blocks;
pub mod lanes;
pub mod identifiers;
pub mod ordering;
pub mod imports;
pub mod params;
pub mod catalog;
