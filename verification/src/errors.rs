use vstd::prelude::*;

verus! {

/// Failure kinds of a shuffle pass.
///
/// `OutOfRange` and `AllocationFailure` are structural failures: a pass that
/// hits either must stop before reference adjustment or handoff.
/// `TranslationMiss` is non-fatal to the pass itself; it only means a
/// caller-supplied legacy address could not be carried into the new layout.
/// `CatalogInconsistency` marks a relocation site whose target has no
/// recorded dispatch-table entry, which indicates bad build-time data.
#[derive(Clone, Copy, Debug, PartialEq, Eq, Structural)]
pub enum Error {
    /// An access through a code block lay beyond the end of its span.
    OutOfRange,
    /// The sandbox had less capacity left than a requested block needed.
    AllocationFailure,
    /// A legacy address fell inside no object's previous address range.
    TranslationMiss,
    /// A relocation site named a target with no placed instance.
    CatalogInconsistency,
}

} // verus!
