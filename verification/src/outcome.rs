//! Result of handing a generated pattern to an external regex engine.

use vstd::prelude::*;

verus! {

/// What an external regex engine reported for a generated pattern: accepted,
/// or rejected with the engine's message.
#[derive(Debug, PartialEq, Eq, Clone)]
pub enum Outcome {
    Success,
    Error(String),
}

} // verus!
