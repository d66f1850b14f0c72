use fr_engine::scoring::{score_candidate, score_candidate_with_reasons};
use fr_engine::types::{ConfidenceTier, EvidenceSource, RecoveryCandidate};

fn candidate_with_evidence(evidence: Vec<EvidenceSource>) -> RecoveryCandidate {
    RecoveryCandidate {
        id: "1".into(),
        original_name: Some("doc.txt".into()),
        original_path: Some("/a/doc.txt".into()),
        recovered_path: None,
        size_bytes: 100,
        evidence,
        confidence: ConfidenceTier::Medium,
        partial: false,
    }
}

#[test]
fn mft_backed_candidate_scores_very_high() {
    let candidate = candidate_with_evidence(vec![EvidenceSource::Mft]);
    let scored = score_candidate_with_reasons(&candidate);

    assert_eq!(scored.tier, ConfidenceTier::VeryHigh);
    assert!(scored.score >= 85);
    assert!(scored.reasons.contains(&"MFT metadata present"));
}

#[test]
fn carve_only_candidate_is_low_or_very_low() {
    let candidate = candidate_with_evidence(vec![EvidenceSource::Carve]);
    let scored = score_candidate_with_reasons(&candidate);

    assert!(matches!(scored.tier, ConfidenceTier::Low | ConfidenceTier::VeryLow));
    assert!(scored.reasons.contains(&"Carve-only candidate confidence cap"));
}

#[test]
fn partial_penalty_reduces_score() {
    let mut candidate = candidate_with_evidence(vec![EvidenceSource::Mft, EvidenceSource::Usn]);
    let full = score_candidate_with_reasons(&candidate);

    candidate.partial = true;
    let partial = score_candidate_with_reasons(&candidate);

    assert!(partial.score < full.score);
    assert!(partial.reasons.contains(&"Partial data recovery"));
}

#[test]
fn compatibility_api_uses_weighted_tier() {
    let candidate = candidate_with_evidence(vec![EvidenceSource::DirectoryIndex, EvidenceSource::Usn]);
    assert_eq!(score_candidate(&candidate), score_candidate_with_reasons(&candidate).tier);
}

#[test]
fn exact_scores_and_reasons() {
    let candidate = candidate_with_evidence(vec![EvidenceSource::Mft]);
    let scored = score_candidate_with_reasons(&candidate);
    assert_eq!(scored.score, 88);
    assert_eq!(scored.reasons, vec!["MFT metadata present", "Original name/path reconstructed"]);

    let mut unnamed = candidate_with_evidence(vec![EvidenceSource::Carve]);
    unnamed.original_path = None;
    let scored = score_candidate_with_reasons(&unnamed);
    assert_eq!(scored.score, 0);
    assert_eq!(scored.tier, ConfidenceTier::VeryLow);

    let all = candidate_with_evidence(vec![
        EvidenceSource::Mft,
        EvidenceSource::DirectoryIndex,
        EvidenceSource::Usn,
        EvidenceSource::Vss,
        EvidenceSource::Carve,
    ]);
    assert_eq!(score_candidate_with_reasons(&all).score, 100);

    let dir_usn = candidate_with_evidence(vec![EvidenceSource::DirectoryIndex, EvidenceSource::Usn]);
    let s = score_candidate_with_reasons(&dir_usn);
    assert_eq!(s.score, 30);
    assert_eq!(s.tier, ConfidenceTier::Low);
}
