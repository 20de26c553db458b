//! Citation capture and formatting for reading notes.
use vstd::prelude::*;

pub mod text;
pub mod rx;
pub mod citation;
pub mod source;
pub mod store;
pub mod styles;
pub mod json;
pub mod heuristics;
pub mod llm;
pub mod extraction;
pub mod undo;
pub mod copypairs;
pub mod bibliography;
pub mod library;
pub mod references;
pub mod commands;
pub mod monitor;
pub mod records;
pub mod export;

verus! {

} // verus!
