//! Shared domain types: source kinds, evidence, confidence tiers, candidates.
use vstd::prelude::*;

verus! {

/// What kind of source a recovery reads from.
#[derive(Debug, Clone, Copy, PartialEq, Eq, Structural)]
pub enum RecoverySourceKind {
    PhysicalDisk,
    Volume,
    ImageFile,
}

/// Where evidence for a recovery candidate came from.
#[derive(Debug, Clone, Copy, PartialEq, Eq, Structural, Hash)]
pub enum EvidenceSource {
    Mft,
    DirectoryIndex,
    Usn,
    Vss,
    Carve,
}

/// Confidence tiers, best first.
#[derive(Debug, Clone, Copy, PartialEq, Eq, Structural, PartialOrd, Ord)]
pub enum ConfidenceTier {
    VeryHigh,
    High,
    Medium,
    Low,
    VeryLow,
}

/// A file that may be recoverable.
#[derive(Debug, Clone)]
pub struct RecoveryCandidate {
    pub id: String,
    pub original_name: Option<String>,
    pub original_path: Option<String>,
    pub recovered_path: Option<String>,
    pub size_bytes: u64,
    pub evidence: Vec<EvidenceSource>,
    pub confidence: ConfidenceTier,
    pub partial: bool,
}

/// Progress of a scan session.
#[derive(Debug, Clone)]
pub struct ScanSessionState {
    pub session_id: String,
    pub checkpoint: String,
    pub canceled: bool,
}

impl ScanSessionState {
    /// A fresh, not canceled session at the given checkpoint.
    pub fn new(session_id: &str, checkpoint: &str) -> (s: Self)
        ensures
            s.session_id@ == session_id@,
            s.checkpoint@ == checkpoint@,
            !s.canceled,
    {
        ScanSessionState {
            session_id: session_id.to_owned(),
            checkpoint: checkpoint.to_owned(),
            canceled: false,
        }
    }
}

/// Identity of an engine module.
#[derive(Debug, Clone)]
pub struct ModuleDescriptor {
    pub name: &'static str,
    pub purpose: &'static str,
    pub source_kind: RecoverySourceKind,
}

} // verus!
