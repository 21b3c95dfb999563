//! Per-session arguments: which toolsets the agent has enabled.
use vstd::prelude::*;

verus! {

/// The toolsets enabled for a session. Every field is required: there is no
/// default; the caller must specify each toolset explicitly.
#[derive(Debug, Clone, Copy, PartialEq, Eq, Structural)]
pub struct Arguments {
    /// Enables the background-task tools.
    pub tasks: bool,
    /// Enables `multi_call`.
    pub multi: bool,
    /// Enables the loop tools.
    pub loops: bool,
    /// Enables scripted orchestration (gates no tools yet).
    pub python: bool,
    /// Enables ObjectiveAI CLI access (gates no tools yet).
    pub objectiveai: bool,
}

} // verus!
