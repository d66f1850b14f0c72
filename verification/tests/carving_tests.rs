use fr_engine::carving::{
    build_carving_plan, carve_candidate_id, carve_spans, carved_candidate, collect_carved,
    default_extension, family_for_format, find_all_subsequences, find_last_subsequence_from,
    find_subsequence_from, rebase_window_candidates, signature_pack_formats, CarveSpan, CarveValidation, CarvingFamily,
    CarvingPlan, FileFormat, CARVE_FAMILY_ARCHIVES, CARVE_FAMILY_MEDIA, SIGNATURE_PACK_NAME,
    SIGNATURE_PACK_VERSION,
};
use fr_engine::types::ConfidenceTier;

fn build_test_zip_blob(file_name: &str, payload: &[u8]) -> Vec<u8> {
    let mut bytes = Vec::new();
    let name_bytes = file_name.as_bytes();
    let payload_len = payload.len() as u32;

    bytes.extend_from_slice(b"PK\x03\x04");
    bytes.extend_from_slice(&20u16.to_le_bytes());
    bytes.extend_from_slice(&0u16.to_le_bytes());
    bytes.extend_from_slice(&0u16.to_le_bytes());
    bytes.extend_from_slice(&0u16.to_le_bytes());
    bytes.extend_from_slice(&0u16.to_le_bytes());
    bytes.extend_from_slice(&0u32.to_le_bytes());
    bytes.extend_from_slice(&payload_len.to_le_bytes());
    bytes.extend_from_slice(&payload_len.to_le_bytes());
    bytes.extend_from_slice(&(name_bytes.len() as u16).to_le_bytes());
    bytes.extend_from_slice(&0u16.to_le_bytes());
    bytes.extend_from_slice(name_bytes);
    bytes.extend_from_slice(payload);
    bytes.extend_from_slice(b"PK\x05\x06");
    bytes
}

fn accept(partial: bool) -> CarveValidation {
    CarveValidation { is_valid: true, partial, reasons: Vec::new() }
}

#[test]
fn default_plan_is_selective() {
    let plan = CarvingPlan::default();
    assert!(plan.format_enabled(FileFormat::Jpeg));
    assert!(plan.format_enabled(FileFormat::Pdf));
    assert!(!plan.format_enabled(FileFormat::Zip));
    assert!(!plan.format_enabled(FileFormat::Mp3));
}

#[test]
fn signature_pack_declares_expected_batch_metadata() {
    assert_eq!(SIGNATURE_PACK_NAME, "core-signatures");
    assert_eq!(SIGNATURE_PACK_VERSION, "2026.04-b1");
    assert!(signature_pack_formats().contains(&FileFormat::Webp));
    assert!(signature_pack_formats().contains(&FileFormat::SevenZip));
    assert!(signature_pack_formats().contains(&FileFormat::Mp4));
}

#[test]
fn archives_only_plan_claims_zip_but_not_jpeg() {
    let mut bytes = Vec::new();
    bytes.extend_from_slice(b"\xFF\xD8\xFF\xE0AAAA\xFF\xD9");
    bytes.extend_from_slice(&build_test_zip_blob("word/document.xml", b"[Content_Types].xml"));

    let plan = CarvingPlan::default()
        .without_family(CarvingFamily::Images)
        .without_family(CarvingFamily::Documents)
        .with_family(CarvingFamily::Archives);
    let spans = carve_spans(&plan, &bytes);

    assert!(spans.iter().any(|span| span.format == FileFormat::Zip));
    assert!(!spans.iter().any(|span| span.format == FileFormat::Jpeg));
    let zip = spans.iter().find(|span| span.format == FileFormat::Zip).unwrap();
    assert_eq!(zip.offset, 10);
    assert_eq!(zip.end, bytes.len());
}

#[test]
fn office_targeting_claims_one_docx_span() {
    let bytes = build_test_zip_blob("word/document.xml", b"[Content_Types].xml");
    let plan = CarvingPlan::default().with_format(FileFormat::Docx);
    let spans = carve_spans(&plan, &bytes);
    assert_eq!(spans, vec![CarveSpan { format: FileFormat::Docx, offset: 0, end: bytes.len() }]);
}

#[test]
fn media_family_claims_mp4_box() {
    let mut bytes = Vec::new();
    bytes.extend_from_slice(&(24u32).to_be_bytes());
    bytes.extend_from_slice(b"ftyp");
    bytes.extend_from_slice(b"isom");
    bytes.extend_from_slice(&0u32.to_be_bytes());
    bytes.extend_from_slice(b"isom");
    bytes.extend_from_slice(b"mp41");

    let plan = CarvingPlan::default()
        .without_family(CarvingFamily::Images)
        .without_family(CarvingFamily::Documents)
        .with_family(CarvingFamily::Media);
    let spans = carve_spans(&plan, &bytes);
    assert_eq!(spans, vec![CarveSpan { format: FileFormat::Mp4, offset: 0, end: 24 }]);
}

#[test]
fn jpeg_span_runs_to_its_footer_and_spans_are_ordered() {
    let bytes = b"xx%PDF-1.7 body %%EOF yy\xFF\xD8\xFF\xE0data\xFF\xD9tail";
    let spans = carve_spans(&CarvingPlan::default(), bytes);
    assert_eq!(
        spans,
        vec![
            CarveSpan { format: FileFormat::Pdf, offset: 2, end: 21 },
            CarveSpan { format: FileFormat::Jpeg, offset: 24, end: 34 },
        ]
    );
}

#[test]
fn truncated_pdf_runs_to_the_window_end() {
    let bytes = b"abc%PDF-1.7\ntruncated";
    let spans = carve_spans(&CarvingPlan::default(), bytes);
    assert_eq!(spans, vec![CarveSpan { format: FileFormat::Pdf, offset: 3, end: bytes.len() }]);
}

#[test]
fn scan_window_limits_the_search() {
    let bytes = b"abc%PDF-1.7 %%EOF";
    let plan = CarvingPlan::default().with_max_scan_bytes(5);
    assert!(carve_spans(&plan, bytes).is_empty());
    let zero = CarvingPlan::default().with_max_scan_bytes(0);
    assert_eq!(zero.max_scan_bytes, 1);
}

#[test]
fn png_span_ends_after_iend_chunk() {
    let mut bytes = b"\x89PNG\r\n\x1a\n".to_vec();
    bytes.extend_from_slice(&0u32.to_be_bytes());
    bytes.extend_from_slice(b"IEND");
    bytes.extend_from_slice(&[1, 2, 3, 4]);
    bytes.extend_from_slice(b"garbage");
    let spans = carve_spans(&CarvingPlan::default(), &bytes);
    assert_eq!(spans, vec![CarveSpan { format: FileFormat::Png, offset: 0, end: 20 }]);
}

#[test]
fn rejected_span_gives_no_candidate() {
    let spans = vec![CarveSpan { format: FileFormat::Zip, offset: 6, end: 18 }];
    let rejected = vec![CarveValidation { is_valid: false, partial: false, reasons: Vec::new() }];
    assert!(collect_carved(&spans, &rejected).is_empty());
}

#[test]
fn partial_pdf_candidate_is_low_confidence() {
    let span = CarveSpan { format: FileFormat::Pdf, offset: 3, end: 21 };
    let validation = CarveValidation {
        is_valid: true,
        partial: true,
        reasons: vec!["missing %%EOF".to_string()],
    };
    let candidate = carved_candidate(&span, &validation).unwrap();
    assert!(candidate.partial);
    assert_eq!(candidate.confidence, ConfidenceTier::VeryLow);
    assert_eq!(candidate.id, "carve-Pdf-3");
    assert_eq!(candidate.length, 18);
    assert_eq!(candidate.family, CarvingFamily::Documents);
    assert_eq!(
        candidate.diagnostics,
        vec![
            "missing %%EOF".to_string(),
            "Signature-based carving evidence".to_string(),
            "Original name/path incomplete".to_string(),
            "Partial data recovery".to_string(),
            "Carve-only candidate confidence cap".to_string(),
        ]
    );
}

#[test]
fn complete_carved_candidate_scores_very_low_without_path() {
    let span = CarveSpan { format: FileFormat::Jpeg, offset: 255, end: 300 };
    let candidate = carved_candidate(&span, &accept(false)).unwrap();
    assert_eq!(candidate.id, "carve-Jpeg-ff");
    assert_eq!(candidate.confidence, ConfidenceTier::VeryLow);
    assert!(!candidate.partial);
}

#[test]
fn collect_keeps_span_order() {
    let spans = vec![
        CarveSpan { format: FileFormat::Gif, offset: 1, end: 5 },
        CarveSpan { format: FileFormat::Png, offset: 9, end: 12 },
    ];
    let carved = collect_carved(&spans, &vec![accept(false), accept(true)]);
    assert_eq!(carved.len(), 2);
    assert_eq!(carved[0].format, FileFormat::Gif);
    assert_eq!(carved[1].offset, 9);
    assert!(carved[1].partial);
}

#[test]
fn family_flags_select_families() {
    let plan = build_carving_plan(CARVE_FAMILY_ARCHIVES | CARVE_FAMILY_MEDIA, 0);
    assert!(plan.format_enabled(FileFormat::Zip));
    assert!(plan.format_enabled(FileFormat::Mp3));
    assert!(!plan.format_enabled(FileFormat::Jpeg));
    assert_eq!(plan.max_scan_bytes, 64 * 1024 * 1024);
    let default_plan = build_carving_plan(0, 4096);
    assert!(default_plan.format_enabled(FileFormat::Jpeg));
    assert!(!default_plan.format_enabled(FileFormat::Zip));
    assert_eq!(default_plan.max_scan_bytes, 4096);
}

#[test]
fn subsequence_search_finds_every_position() {
    let hay = b"abcabcab";
    assert_eq!(find_all_subsequences(hay, b"ab"), vec![0, 3, 6]);
    assert!(find_all_subsequences(hay, b"").is_empty());
    assert_eq!(find_subsequence_from(hay, 1, b"ab"), Some(2));
    assert_eq!(find_last_subsequence_from(hay, 1, b"ab"), Some(5));
    assert_eq!(find_subsequence_from(hay, 7, b"ab"), None);
}

#[test]
fn formats_have_families_extensions_and_ids() {
    assert_eq!(family_for_format(FileFormat::Docx), CarvingFamily::Office);
    assert_eq!(family_for_format(FileFormat::Flac), CarvingFamily::Media);
    assert_eq!(default_extension(FileFormat::SevenZip), "7z");
    assert_eq!(carve_candidate_id(FileFormat::Utf8Text, 0), "carve-Utf8Text-0");
    assert_eq!(signature_pack_formats().len(), 20);
}

#[test]
fn window_candidates_are_placed_in_the_source() {
    let spans = vec![CarveSpan { format: FileFormat::Jpeg, offset: 16, end: 40 }];
    let carved = collect_carved(&spans, &vec![accept(false)]);
    let same = rebase_window_candidates(carved.clone(), 0).unwrap();
    assert_eq!(same, carved);
    let moved = rebase_window_candidates(carved.clone(), 0x1000).unwrap();
    assert_eq!(moved.len(), 1);
    assert_eq!(moved[0].offset, 0x1010);
    assert_eq!(moved[0].id, "carve-Jpeg-1010");
    assert_eq!(moved[0].length, carved[0].length);
    assert_eq!(moved[0].diagnostics, carved[0].diagnostics);
}

#[test]
fn carve_pass_candidates_come_out_by_offset_inside_the_window() {
    let bytes = b"xx%PDF-1.7 body %%EOF yy\xFF\xD8\xFF\xE0data\xFF\xD9tail";
    let plan = CarvingPlan::default();
    let spans = carve_spans(&plan, bytes);
    let validations: Vec<CarveValidation> = spans.iter().map(|_| accept(false)).collect();
    let carved = collect_carved(&spans, &validations);
    assert_eq!(carved.len(), 2);
    assert_eq!((carved[0].format, carved[0].offset, carved[0].length), (FileFormat::Pdf, 2, 19));
    assert_eq!((carved[1].format, carved[1].offset, carved[1].length), (FileFormat::Jpeg, 24, 10));
    for pair in carved.windows(2) {
        assert!(pair[0].offset <= pair[1].offset);
    }
    for c in &carved {
        assert!(c.length > 0 && c.offset + c.length <= bytes.len());
    }
}
