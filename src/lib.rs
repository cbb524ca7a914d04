//! Traversal and streaming of already stored block chains.
//!
//! The block store and the consumers of the blocks are collaborators of the
//! caller: every type here is a state machine that says which store lookup or
//! sink operation comes next, and takes its outcome back as a plain value.
use vstd::prelude::*;

pub mod types;
pub mod walk;
pub mod stream;
pub mod storage;
pub mod send;

verus! {

} // verus!
