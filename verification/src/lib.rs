//! Engine of a trajectory viewer: decoding of whitespace-delimited sample
//! files, bookkeeping of loaded layers, and the display-mode state machine.
//! The windowing shell around it supplies file contents and user actions and
//! draws what the engine hands back.

pub mod float_token;
pub mod ingest;
pub mod parser;
pub mod store;
pub mod text;
pub mod view;

use vstd::prelude::*;

verus! {

} // verus!
