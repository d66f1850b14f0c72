//! Evidence-weighted confidence scoring of recovery candidates.
use vstd::prelude::*;
use crate::types::{ConfidenceTier, EvidenceSource, RecoveryCandidate};

verus! {

/// A score in 0..=100, its tier and the reasons that produced it.
#[derive(Debug, Clone)]
pub struct ScoredConfidence {
    pub score: u8,
    pub tier: ConfidenceTier,
    pub reasons: Vec<&'static str>,
}

/// Whether some evidence other than carving backs the candidate.
pub open spec fn has_metadata_evidence(ev: Seq<EvidenceSource>) -> bool {
    ev.contains(EvidenceSource::Mft) || ev.contains(EvidenceSource::DirectoryIndex)
        || ev.contains(EvidenceSource::Usn) || ev.contains(EvidenceSource::Vss)
}

/// Whether carving is the only evidence.
pub open spec fn carve_only(ev: Seq<EvidenceSource>) -> bool {
    !has_metadata_evidence(ev) && ev.contains(EvidenceSource::Carve)
}

/// Weighted sum before capping and clamping.
pub open spec fn raw_score(ev: Seq<EvidenceSource>, has_name_and_path: bool, partial: bool) -> int {
    (if ev.contains(EvidenceSource::Mft) { 80int } else { 0 })
        + (if ev.contains(EvidenceSource::DirectoryIndex) { 10int } else { 0 })
        + (if ev.contains(EvidenceSource::Usn) { 12int } else { 0 })
        + (if ev.contains(EvidenceSource::Vss) { 15int } else { 0 })
        + (if ev.contains(EvidenceSource::Carve) { 8int } else { 0 })
        + (if has_name_and_path { 8int } else { -15 })
        + (if partial { -30int } else { 0 })
}

/// The candidate's score: carve-only candidates are capped at 35, then the
/// result is clamped to 0..=100.
pub open spec fn final_score(ev: Seq<EvidenceSource>, has_name_and_path: bool, partial: bool) -> int {
    let raw = raw_score(ev, has_name_and_path, partial);
    let capped = if carve_only(ev) && raw > 35 { 35 } else { raw };
    if capped < 0 {
        0
    } else if capped > 100 {
        100
    } else {
        capped
    }
}

/// The tier of a score.
pub open spec fn tier_of(score: int) -> ConfidenceTier {
    if score >= 85 {
        ConfidenceTier::VeryHigh
    } else if score >= 70 {
        ConfidenceTier::High
    } else if score >= 50 {
        ConfidenceTier::Medium
    } else if score >= 30 {
        ConfidenceTier::Low
    } else {
        ConfidenceTier::VeryLow
    }
}

/// Position of a tier, best first.
pub open spec fn tier_rank(t: ConfidenceTier) -> int {
    match t {
        ConfidenceTier::VeryHigh => 0,
        ConfidenceTier::High => 1,
        ConfidenceTier::Medium => 2,
        ConfidenceTier::Low => 3,
        ConfidenceTier::VeryLow => 4,
    }
}

/// `seq![reason]` when `b`, empty otherwise.
pub open spec fn reason_if(b: bool, reason: &'static str) -> Seq<&'static str> {
    if b {
        seq![reason]
    } else {
        Seq::empty()
    }
}

/// The reasons, in the order in which the weights are applied.
pub open spec fn score_reasons(ev: Seq<EvidenceSource>, has_name_and_path: bool, partial: bool) -> Seq<&'static str> {
    reason_if(ev.contains(EvidenceSource::Mft), "MFT metadata present")
        + reason_if(ev.contains(EvidenceSource::DirectoryIndex), "Directory index corroboration")
        + reason_if(ev.contains(EvidenceSource::Usn), "USN journal corroboration")
        + reason_if(ev.contains(EvidenceSource::Vss), "VSS snapshot corroboration")
        + reason_if(ev.contains(EvidenceSource::Carve), "Signature-based carving evidence")
        + (if has_name_and_path {
            seq!["Original name/path reconstructed"]
        } else {
            seq!["Original name/path incomplete"]
        }) + reason_if(partial, "Partial data recovery")
        + reason_if(carve_only(ev), "Carve-only candidate confidence cap")
}

/// Whether both the original name and the original path are known.
pub open spec fn has_name_and_path(c: RecoveryCandidate) -> bool {
    c.original_name.is_some() && c.original_path.is_some()
}

/// Whether `ev` holds `e`.
pub fn contains_evidence(ev: &Vec<EvidenceSource>, e: EvidenceSource) -> (b: bool)
    ensures
        b == ev@.contains(e),
{
    let mut k: usize = 0;
    while k < ev.len()
        invariant
            k <= ev@.len(),
            forall|m: int| 0 <= m < k ==> ev@[m] != e,
        decreases ev@.len() - k,
    {
        if ev[k] == e {
            assert(ev@[k as int] == e);
            return true;
        }
        k = k + 1;
    }
    false
}

/// Maps a score to its tier.
pub fn map_score_to_tier(score: u8) -> (t: ConfidenceTier)
    ensures
        t == tier_of(score as int),
{
    if score >= 85 {
        ConfidenceTier::VeryHigh
    } else if score >= 70 {
        ConfidenceTier::High
    } else if score >= 50 {
        ConfidenceTier::Medium
    } else if score >= 30 {
        ConfidenceTier::Low
    } else {
        ConfidenceTier::VeryLow
    }
}

fn weighted_sum(mft: bool, dir: bool, usn: bool, vss: bool, carve: bool, named: bool, partial: bool) -> (s: i32)
    ensures
        s == (if mft { 80int } else { 0 }) + (if dir { 10int } else { 0 }) + (if usn { 12int } else { 0 })
            + (if vss { 15int } else { 0 }) + (if carve { 8int } else { 0 }) + (if named { 8int } else { -15 })
            + (if partial { -30int } else { 0 }),
{
    let a: i32 = if mft { 80 } else { 0 };
    let b: i32 = if dir { 10 } else { 0 };
    let c: i32 = if usn { 12 } else { 0 };
    let d: i32 = if vss { 15 } else { 0 };
    let e: i32 = if carve { 8 } else { 0 };
    let f: i32 = if named { 8 } else { -15 };
    let g: i32 = if partial { -30 } else { 0 };
    a + b + c + d + e + f + g
}

fn push_reason_if(reasons: &mut Vec<&'static str>, b: bool, reason: &'static str)
    ensures
        final(reasons)@ == old(reasons)@ + reason_if(b, reason),
{
    if b {
        reasons.push(reason);
    }
    assert(reasons@ =~= old(reasons)@ + reason_if(b, reason));
}

/// Scores a candidate from its evidence, its name/path knowledge and whether
/// its data is partial.
pub fn score_candidate_with_reasons(candidate: &RecoveryCandidate) -> (r: ScoredConfidence)
    ensures
        r.score as int == final_score(
            candidate.evidence@,
            has_name_and_path(*candidate),
            candidate.partial,
        ),
        r.tier == tier_of(r.score as int),
        r.reasons@ == score_reasons(candidate.evidence@, has_name_and_path(*candidate), candidate.partial),
{
    let ghost ev = candidate.evidence@;
    let mft = contains_evidence(&candidate.evidence, EvidenceSource::Mft);
    let dir = contains_evidence(&candidate.evidence, EvidenceSource::DirectoryIndex);
    let usn = contains_evidence(&candidate.evidence, EvidenceSource::Usn);
    let vss = contains_evidence(&candidate.evidence, EvidenceSource::Vss);
    let carve = contains_evidence(&candidate.evidence, EvidenceSource::Carve);
    let named = candidate.original_name.is_some() && candidate.original_path.is_some();
    let mut score = weighted_sum(mft, dir, usn, vss, carve, named, candidate.partial);
    let mut reasons: Vec<&'static str> = Vec::new();
    push_reason_if(&mut reasons, mft, "MFT metadata present");
    push_reason_if(&mut reasons, dir, "Directory index corroboration");
    push_reason_if(&mut reasons, usn, "USN journal corroboration");
    push_reason_if(&mut reasons, vss, "VSS snapshot corroboration");
    push_reason_if(&mut reasons, carve, "Signature-based carving evidence");
    if named {
        reasons.push("Original name/path reconstructed");
    } else {
        reasons.push("Original name/path incomplete");
    }
    push_reason_if(&mut reasons, candidate.partial, "Partial data recovery");
    let metadata_evidence = mft || dir || usn || vss;
    let capped = !metadata_evidence && carve;
    if capped && score > 35 {
        score = 35;
    }
    push_reason_if(&mut reasons, capped, "Carve-only candidate confidence cap");
    let bounded: u8 = if score < 0 {
        0
    } else if score > 100 {
        100
    } else {
        score as u8
    };
    let tier = map_score_to_tier(bounded);
    assert(reasons@ =~= score_reasons(ev, has_name_and_path(*candidate), candidate.partial));
    ScoredConfidence { score: bounded, tier, reasons }
}

/// The tier only; the same tier as `score_candidate_with_reasons`.
pub fn score_candidate(candidate: &RecoveryCandidate) -> (t: ConfidenceTier)
    ensures
        t == tier_of(
            final_score(candidate.evidence@, has_name_and_path(*candidate), candidate.partial),
        ),
{
    score_candidate_with_reasons(candidate).tier
}

/// Every score lies in 0..=100.
pub proof fn law_score_bounded(ev: Seq<EvidenceSource>, named: bool, partial: bool)
    ensures
        0 <= final_score(ev, named, partial) <= 100,
{
}

/// Marking a candidate partial never raises its score.
pub proof fn law_partial_never_raises_score(ev: Seq<EvidenceSource>, named: bool)
    ensures
        final_score(ev, named, true) <= final_score(ev, named, false),
{
}

/// Marking a candidate partial lowers its score whenever the complete
/// candidate's score is above zero and below the clamp.
pub proof fn law_partial_lowers_score(ev: Seq<EvidenceSource>, named: bool)
    requires
        0 < final_score(ev, named, false) < 100,
    ensures
        final_score(ev, named, true) < final_score(ev, named, false),
{
}

/// A carve-only candidate never ranks above `Low`.
pub proof fn law_carve_only_is_low(ev: Seq<EvidenceSource>, named: bool, partial: bool)
    requires
        carve_only(ev),
    ensures
        final_score(ev, named, partial) <= 35,
        tier_of(final_score(ev, named, partial)) == ConfidenceTier::Low || tier_of(
            final_score(ev, named, partial),
        ) == ConfidenceTier::VeryLow,
{
}

/// A higher score never gives a worse tier.
pub proof fn law_tier_monotone(s1: int, s2: int)
    requires
        s1 <= s2,
    ensures
        tier_rank(tier_of(s2)) <= tier_rank(tier_of(s1)),
{
}

/// MFT evidence with a known name and path, on complete data, is `VeryHigh`.
pub proof fn law_mft_named_complete_is_very_high(ev: Seq<EvidenceSource>)
    requires
        ev.contains(EvidenceSource::Mft),
    ensures
        tier_of(final_score(ev, true, false)) == ConfidenceTier::VeryHigh,
{
}

} // verus!
