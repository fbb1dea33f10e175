//! Rendering probe results for failure explanations. The probes
//! themselves (does a path exist, what kind of user runs this) inspect
//! the filesystem and are the caller's business; this module renders
//! what they found.

use vstd::prelude::*;

verus! {

/// An operation that can explain its failure, given to error reports.
/// Implementors assemble a text from probe results they gather.
pub trait Explainable {
    /// The assembled explanation.
    fn explain(&self) -> String;
}

/// The word an explanation uses for a path that is present or absent.
pub fn exists_str(present: bool) -> (r: &'static str)
    ensures
        present ==> r@ == "exists"@,
        !present ==> r@ == "missing"@,
{
    if present {
        "exists"
    } else {
        "missing"
    }
}

} // verus!
