//! Incremental, fault-tolerant compilation and position mapping for a live
//! markup preview.
//!
//! A user edits a markup document; a compilable document is synthesized from
//! the user text plus injected presentation directives, handed to an external
//! document compiler, and its typeset output is sliced back into per-block
//! fragments aligned with the user's text. Positions (cursor offsets,
//! diagnostic spans, jump targets) are translated between the user document
//! and the synthesized document, in both byte and UTF-16 code-unit units.
//!
//! The crate is organized along the data flow: [`nodes`] models the user
//! text's top-level syntax nodes, [`synth`] builds the synthesized document
//! and its block partition, [`session`] drives the fault-tolerant compile
//! loop's decisions, [`extract`] slices the compiled output into fragments,
//! [`index_mapper`] and [`utf_map`] translate offsets between the coordinate
//! spaces, [`diag`] carries diagnostics and positions back to the user
//! document, and [`state`] holds the per-document contexts.

pub mod diag;
pub mod extract;
pub mod highlight;
pub mod index_mapper;
pub mod nodes;
pub mod session;
pub mod state;
pub mod synth;
pub mod utf_map;
