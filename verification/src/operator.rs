//! What every pattern operator says about itself.

use vstd::prelude::*;

use crate::citation::SourceCitation;

verus! {

/// A generator stage of the pattern language: its name (the id its node
/// has in the pattern-language graph, where it has one), a one-line
/// description, and the source it implements.
pub trait PatternOperator {
    fn name(&self) -> &'static str;

    fn description(&self) -> &'static str;

    fn source(&self) -> SourceCitation;
}

} // verus!
