use vstd::prelude::*;

verus! {

/// The single failure a parse reports: the text is not structurally valid
/// JSON.  Tolerated irregularities (unknown tokens, bad escapes) degrade to
/// string values instead of raising this.
#[derive(Debug, Clone, PartialEq, Eq, Structural)]
pub enum Error {
    InvalidJson,
}

} // verus!
