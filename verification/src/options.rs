//! What a caller chooses for a validation, and how a validation can fail.

use vstd::prelude::*;

verus! {

/// The depth limit of [`ValidationOptions::default`].
pub const DEFAULT_MAX_DEPTH: usize = 1000;

/// The choices of one validation.
#[derive(Clone, Copy, Debug, PartialEq, Eq, Structural)]
pub struct ValidationOptions {
    /// Do not report required fields that the document lacks.
    pub ignore_missing: bool,
    /// The greatest number of objects, one inside the other, that the
    /// validation descends into.
    pub max_depth: usize,
}

impl Default for ValidationOptions {
    fn default() -> (options: ValidationOptions)
        ensures
            !options.ignore_missing,
            options.max_depth == DEFAULT_MAX_DEPTH,
    {
        ValidationOptions { ignore_missing: false, max_depth: DEFAULT_MAX_DEPTH }
    }
}

/// Why a validation gave up without a list of findings.
#[derive(Clone, Copy, Debug, PartialEq, Eq, Structural)]
pub enum FatalError {
    /// The validation would have to descend into more nested objects than
    /// the options allow.
    DocumentTooDeep,
}

} // verus!
