//! Integration seam for `$LogFile` transaction correlation.
use vstd::prelude::*;
use crate::types::{ModuleDescriptor, RecoverySourceKind};

verus! {

/// Identity of the `$LogFile` module.
pub fn descriptor() -> (d: ModuleDescriptor)
    ensures
        d.name == "fr-logfile",
        d.purpose == "Extensible integration seam for $LogFile transaction correlation.",
        d.source_kind == RecoverySourceKind::Volume,
{
    ModuleDescriptor {
        name: "fr-logfile",
        purpose: "Extensible integration seam for $LogFile transaction correlation.",
        source_kind: RecoverySourceKind::Volume,
    }
}

/// What a correlator learns of one candidate.
#[derive(Debug, Clone, PartialEq, Eq)]
pub struct LogfileCorrelationInput {
    pub record_number: u32,
    pub parent_record_number: Option<u64>,
    pub name: Option<String>,
    pub reconstructed_path: Option<String>,
}

/// What a correlator infers for one record, and why.
#[derive(Debug, Clone, PartialEq, Eq)]
pub struct LogfileCorrelationHint {
    pub record_number: u32,
    pub inferred_parent_record_number: Option<u64>,
    pub inferred_name: Option<String>,
    pub inferred_reconstructed_path: Option<String>,
    pub explanation: String,
}

/// Correlates candidates with `$LogFile` transactions; engines plug their
/// own implementation in.
pub trait LogfileCorrelator: Send + Sync {
    /// Hints for some of the candidates.
    fn correlate(&self, candidates: &[LogfileCorrelationInput]) -> Vec<LogfileCorrelationHint>;
}

/// The correlator that infers nothing.
#[derive(Debug, Default, Clone, Copy, PartialEq, Eq)]
pub struct NoopLogfileCorrelator;

impl LogfileCorrelator for NoopLogfileCorrelator {
    fn correlate(&self, candidates: &[LogfileCorrelationInput]) -> (hints: Vec<LogfileCorrelationHint>)
        ensures
            hints@.len() == 0,
    {
        Vec::new()
    }
}

} // verus!
