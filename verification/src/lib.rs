//! Location-addressed batch rewriting of source text.
//!
//! Edits are addressed by `(file, line, column)` coordinates taken from one
//! snapshot of the files. The library turns such coordinates into character
//! offsets, splices the text, and states under which ordering the coordinates
//! of edits that are still pending stay valid.

pub mod buffer;
pub mod edit;
pub mod index;
pub mod lines;
pub mod number;
pub mod order;
pub mod parse;
pub mod pattern;
pub mod plan;
pub mod precedence;
pub mod query;
pub mod location;
pub mod rope;
pub mod sorting;
pub mod split;
