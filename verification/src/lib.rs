//! Byte-level comparison of two buffers.
//!
//! Two buffers go in, together with the way they are to be compared; two rows
//! of classified cells come out, one per buffer, ready to be drawn side by
//! side. Every function is stated over mathematical sequences and proved
//! against that statement.

pub mod cell;
pub mod by_index;
pub mod vocabulary;
pub mod matcher;
pub mod learning;
pub mod project;
pub mod engine;
pub mod view;
pub mod hex_app;
