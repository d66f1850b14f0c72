//! NTFS quick scan: walks the MFT of an in-memory volume image, builds one
//! candidate per parsed record, rebuilds paths from parent references and
//! enriches candidates with USN journal evidence.
use vstd::prelude::*;
use crate::bytes::{all_zero, le64, read_u64_le};
use crate::mft::{
    lemma_record_attribute_count, mft_error_text, mft_record_of, parse_mft_record, AttributeFormView, AttributeView, MftRecord, MftRecordView,
    AttributeForm, ATTRIBUTE_TYPE_DATA, ATTRIBUTE_TYPE_FILE_NAME,
};
use crate::ntfs::{
    checked_product, ntfs_boot_error, ntfs_boot_of, ntfs_boot_valid, parse_boot_sector,
    BootSectorParseError, NtfsBootSector,
};
use crate::text::{
    ascii_lower, ascii_lowercase, chars_equal, chars_of, push_chars, string_from_chars, trim_whitespace, trim_ws,
    utf16_decode, utf16_string,
};
use crate::types::{EvidenceSource, ScanSessionState};
use crate::usn::{utf16_units, views_of, UsnRecord, UsnRecordView};

verus! {

/// Largest NTFS file record the quick scan accepts.
pub const MAX_NTFS_FILE_RECORD_SIZE: usize = 1048576;
/// Number of all-zero records in a row after which the scan stops.
pub const MAX_CONSECUTIVE_EMPTY_MFT_RECORDS: usize = 16384;

const NTFS_ATTRIBUTE_FLAG_COMPRESSED: u16 = 0x0001;
const NTFS_ATTRIBUTE_FLAG_ENCRYPTED: u16 = 0x4000;
const NTFS_ATTRIBUTE_FLAG_SPARSE: u16 = 0x8000;

/// How many MFT records a quick scan visits.
#[derive(Debug, Clone, Copy)]
pub struct QuickScanConfig {
    pub max_records: usize,
}

impl Default for QuickScanConfig {
    fn default() -> (c: Self)
        ensures
            c.max_records == 4096,
    {
        QuickScanConfig { max_records: 4096 }
    }
}

/// A record that could not be parsed, with the parser's message.
#[derive(Debug, Clone, PartialEq, Eq)]
pub struct QuickScanRecordError {
    pub record_index: usize,
    pub reason: String,
}

/// One parsed MFT record as a recovery candidate.
#[derive(Debug, Clone, PartialEq, Eq)]
pub struct QuickScanCandidate {
    pub record_index: usize,
    pub record_number: u32,
    pub in_use: bool,
    pub deleted: bool,
    pub is_directory: bool,
    pub has_non_resident_data: bool,
    pub has_named_data_streams: bool,
    pub has_compressed_data: bool,
    pub has_sparse_data: bool,
    pub has_encrypted_data: bool,
    pub usn_reason_mask: Option<u32>,
    pub name: Option<String>,
    pub parent_record_number: Option<u64>,
    pub reconstructed_path: Option<String>,
    pub evidence_sources: Vec<EvidenceSource>,
}

/// Totals and candidates of a quick scan.
#[derive(Debug, Clone)]
pub struct QuickScanSummary {
    pub boot_sector: NtfsBootSector,
    pub parsed_records: usize,
    pub parse_failures: usize,
    pub resident_attribute_count: usize,
    pub non_resident_attribute_count: usize,
    pub deleted_records: usize,
    pub directory_records: usize,
    pub named_records: usize,
    pub records_with_non_resident_data: usize,
    pub candidates: Vec<QuickScanCandidate>,
    pub record_errors: Vec<QuickScanRecordError>,
}

/// Why a quick scan could not start.
#[derive(Debug, Clone, PartialEq, Eq)]
pub enum QuickScanError {
    SourceTooSmall,
    BootSector(BootSectorParseError),
    InvalidMftOffset,
    MftOutOfBounds(usize, usize),
    InvalidFileRecordSize(u32),
}

/// A looked-up session does not exist.
#[derive(Debug, Clone, PartialEq, Eq)]
pub enum SessionError {
    NotFound(String),
}

// ---------------------------------------------------------------------------
// Views
// ---------------------------------------------------------------------------

/// The characters of an optional string.
pub open spec fn text_of(o: Option<String>) -> Option<Seq<char>> {
    match o {
        Some(s) => Some(s@),
        None => None,
    }
}

/// A candidate with its strings and evidence as sequences.
pub struct CandidateView {
    pub record_index: usize,
    pub record_number: u32,
    pub in_use: bool,
    pub deleted: bool,
    pub is_directory: bool,
    pub has_non_resident_data: bool,
    pub has_named_data_streams: bool,
    pub has_compressed_data: bool,
    pub has_sparse_data: bool,
    pub has_encrypted_data: bool,
    pub usn_reason_mask: Option<u32>,
    pub name: Option<Seq<char>>,
    pub parent_record_number: Option<u64>,
    pub reconstructed_path: Option<Seq<char>>,
    pub evidence_sources: Seq<EvidenceSource>,
}

impl View for QuickScanCandidate {
    type V = CandidateView;

    open spec fn view(&self) -> CandidateView {
        CandidateView {
            record_index: self.record_index,
            record_number: self.record_number,
            in_use: self.in_use,
            deleted: self.deleted,
            is_directory: self.is_directory,
            has_non_resident_data: self.has_non_resident_data,
            has_named_data_streams: self.has_named_data_streams,
            has_compressed_data: self.has_compressed_data,
            has_sparse_data: self.has_sparse_data,
            has_encrypted_data: self.has_encrypted_data,
            usn_reason_mask: self.usn_reason_mask,
            name: text_of(self.name),
            parent_record_number: self.parent_record_number,
            reconstructed_path: text_of(self.reconstructed_path),
            evidence_sources: self.evidence_sources@,
        }
    }
}

/// The views of candidates.
pub open spec fn candidate_views(v: Seq<QuickScanCandidate>) -> Seq<CandidateView> {
    Seq::new(v.len(), |i: int| v[i]@)
}

// ---------------------------------------------------------------------------
// $FILE_NAME values and candidates
// ---------------------------------------------------------------------------

/// Parent reference (low 48 bits) and name of a `$FILE_NAME` value, when the
/// name fits in the value, decodes as UTF-16 and is not empty.
pub open spec fn file_name_value(v: Seq<u8>) -> Option<(u64, Seq<char>)> {
    if v.len() < 0x42 {
        None
    } else {
        let count = v[0x40] as int;
        if 0x42 + 2 * count > v.len() {
            None
        } else {
            match utf16_decode(utf16_units(v, 0x42, count)) {
                Some(name) => if name.len() == 0 {
                    None
                } else {
                    Some(((le64(v, 0) % 0x1_0000_0000_0000) as u64, name))
                },
                None => None,
            }
        }
    }
}

fn parse_file_name_value(value: &[u8]) -> (r: Option<(u64, String)>)
    ensures
        match (r, file_name_value(value@)) {
            (Some((p, n)), Some((q, m))) => p == q && n@ == m,
            (None, None) => true,
            _ => false,
        },
{
    if value.len() < 0x42 {
        return None;
    }
    let raw = read_u64_le(value, 0);
    let parent_ref = raw & 0x0000_FFFF_FFFF_FFFF;
    assert(raw & 0x0000_FFFF_FFFF_FFFF == raw % 0x1_0000_0000_0000) by (bit_vector);
    let name_len = value[0x40] as usize;
    let name_end = 0x42 + 2 * name_len;
    if name_end > value.len() {
        return None;
    }
    let mut code_units: Vec<u16> = Vec::new();
    let mut k: usize = 0;
    while k < name_len
        invariant
            k <= name_len,
            name_len == value@[0x40],
            0x42 + 2 * name_len <= value@.len(),
            code_units@ =~= utf16_units(value@, 0x42, k as int),
        decreases name_len - k,
    {
        let i = 0x42 + 2 * k;
        code_units.push(value[i] as u16 | ((value[i + 1] as u16) << 8u16));
        proof {
            let lo = value@[i as int];
            let hi = value@[i + 1];
            assert(lo as u16 | ((hi as u16) << 8u16) == lo + 256 * hi) by (bit_vector);
        }
        k = k + 1;
    }
    let name = match utf16_string(code_units.as_slice()) {
        Some(s) => s,
        None => return None,
    };
    if name.as_str().is_empty() {
        return None;
    }
    Some((parent_ref, name))
}

/// The `$FILE_NAME` parent and name that attribute `a` carries, if any.
pub open spec fn attribute_file_name(a: AttributeView) -> Option<(u64, Seq<char>)> {
    if a.attribute_type != ATTRIBUTE_TYPE_FILE_NAME {
        None
    } else {
        match a.form {
            AttributeFormView::Resident { value, .. } => file_name_value(value),
            AttributeFormView::NonResident(_) => None,
        }
    }
}

/// The first file name carried by an attribute of `s`.
pub open spec fn first_file_name(s: Seq<AttributeView>) -> Option<(u64, Seq<char>)>
    decreases s.len(),
{
    if s.len() == 0 {
        None
    } else {
        match first_file_name(s.drop_last()) {
            Some(x) => Some(x),
            None => attribute_file_name(s.last()),
        }
    }
}

/// Some attribute of `s` has a flag of `mask` set.
pub open spec fn any_flag(s: Seq<AttributeView>, mask: u16) -> bool {
    exists|j: int| 0 <= j < s.len() && s[j].flags & mask != 0
}

/// Some `$DATA` attribute of `s` is non-resident.
pub open spec fn has_non_resident_data(s: Seq<AttributeView>) -> bool {
    exists|j: int|
        0 <= j < s.len() && s[j].attribute_type == ATTRIBUTE_TYPE_DATA && s[j].form is NonResident
}

/// Some `$DATA` attribute of `s` is a named stream.
pub open spec fn has_named_stream(s: Seq<AttributeView>) -> bool {
    exists|j: int| 0 <= j < s.len() && s[j].attribute_type == ATTRIBUTE_TYPE_DATA && s[j].name is Some
}

/// The candidate built from record `r`, found at record index `index`.
pub open spec fn candidate_of(index: usize, r: MftRecordView) -> CandidateView {
    let a = r.attributes;
    let in_use = r.header.flags & 1 != 0;
    CandidateView {
        record_index: index,
        record_number: r.header.record_number,
        in_use,
        deleted: !in_use,
        is_directory: r.header.flags & 2 != 0,
        has_non_resident_data: has_non_resident_data(a),
        has_named_data_streams: has_named_stream(a),
        has_compressed_data: any_flag(a, 0x0001),
        has_sparse_data: any_flag(a, 0x8000),
        has_encrypted_data: any_flag(a, 0x4000),
        usn_reason_mask: None,
        name: match first_file_name(a) {
            Some((_, n)) => Some(n),
            None => None,
        },
        parent_record_number: match first_file_name(a) {
            Some((p, _)) => Some(p),
            None => None,
        },
        reconstructed_path: None,
        evidence_sources: seq![EvidenceSource::Mft],
    }
}

fn build_candidate(record_index: usize, record: &MftRecord) -> (c: QuickScanCandidate)
    ensures
        c@ == candidate_of(record_index, record@),
{
    let ghost a = record@.attributes;
    let mut non_resident_data = false;
    let mut named_data_streams = false;
    let mut compressed = false;
    let mut sparse = false;
    let mut encrypted = false;
    let mut name: Option<String> = None;
    let mut parent_record_number: Option<u64> = None;
    let n = record.attributes.len();
    let mut k: usize = 0;
    while k < n
        invariant
            k <= n,
            n == a.len(),
            a == record@.attributes,
            compressed == any_flag(a.take(k as int), 0x0001),
            sparse == any_flag(a.take(k as int), 0x8000),
            encrypted == any_flag(a.take(k as int), 0x4000),
            non_resident_data == has_non_resident_data(a.take(k as int)),
            named_data_streams == has_named_stream(a.take(k as int)),
            match first_file_name(a.take(k as int)) {
                Some((p, m)) => name is Some && name->0@ == m && parent_record_number == Some(p),
                None => name is None && parent_record_number is None,
            },
        decreases n - k,
    {
        let attribute = &record.attributes[k];
        let ghost t = a.take(k as int);
        let ghost t1 = a.take(k + 1);
        assert(t1.drop_last() =~= t);
        assert(t1.last() == a[k as int]);
        assert(a[k as int] == attribute@);
        assert forall|mask: u16| any_flag(t1, mask) == (any_flag(t, mask) || attribute.flags & mask != 0) by {
            if attribute.flags & mask != 0 {
                assert(t1[k as int].flags & mask != 0);
            }
            if any_flag(t, mask) {
                let j = choose|j: int| 0 <= j < t.len() && t[j].flags & mask != 0;
                assert(t1[j] == t[j]);
            }
            if any_flag(t1, mask) {
                let j = choose|j: int| 0 <= j < t1.len() && t1[j].flags & mask != 0;
                if j < k {
                    assert(t[j] == t1[j]);
                }
            }
        }
        if attribute.flags & NTFS_ATTRIBUTE_FLAG_COMPRESSED != 0 {
            compressed = true;
        }
        if attribute.flags & NTFS_ATTRIBUTE_FLAG_SPARSE != 0 {
            sparse = true;
        }
        if attribute.flags & NTFS_ATTRIBUTE_FLAG_ENCRYPTED != 0 {
            encrypted = true;
        }
        let is_non_resident = match &attribute.form {
            AttributeForm::NonResident(_) => true,
            AttributeForm::Resident(_) => false,
        };
        assert(is_non_resident == (attribute@.form is NonResident));
        proof {
            if has_non_resident_data(t1) {
                let j = choose|j: int|
                    0 <= j < t1.len() && t1[j].attribute_type == ATTRIBUTE_TYPE_DATA && t1[j].form is NonResident;
                if j < k {
                    assert(t[j] == t1[j]);
                }
            }
            if has_non_resident_data(t) {
                let j = choose|j: int|
                    0 <= j < t.len() && t[j].attribute_type == ATTRIBUTE_TYPE_DATA && t[j].form is NonResident;
                assert(t1[j] == t[j]);
            }
            if has_named_stream(t1) {
                let j = choose|j: int| 0 <= j < t1.len() && t1[j].attribute_type == ATTRIBUTE_TYPE_DATA && t1[j].name is Some;
                if j < k {
                    assert(t[j] == t1[j]);
                }
            }
            if has_named_stream(t) {
                let j = choose|j: int| 0 <= j < t.len() && t[j].attribute_type == ATTRIBUTE_TYPE_DATA && t[j].name is Some;
                assert(t1[j] == t[j]);
            }
        }
        if attribute.attribute_type == ATTRIBUTE_TYPE_DATA && is_non_resident {
            non_resident_data = true;
        }
        if attribute.attribute_type == ATTRIBUTE_TYPE_DATA && attribute.name.is_some() {
            named_data_streams = true;
        }
        if name.is_none() && attribute.attribute_type == ATTRIBUTE_TYPE_FILE_NAME {
            match &attribute.form {
                AttributeForm::Resident(resident) => {
                    match parse_file_name_value(resident.value.as_slice()) {
                        Some((parent, parsed_name)) => {
                            name = Some(parsed_name);
                            parent_record_number = Some(parent);
                        },
                        None => {},
                    }
                },
                AttributeForm::NonResident(_) => {},
            }
        }
        k = k + 1;
    }
    assert(a.take(n as int) =~= a);
    let evidence_sources = vec![EvidenceSource::Mft];
    assert(evidence_sources@ =~= seq![EvidenceSource::Mft]);
    QuickScanCandidate {
        record_index,
        record_number: record.header.record_number,
        in_use: record.header.in_use(),
        deleted: !record.header.in_use(),
        is_directory: record.header.is_directory(),
        has_non_resident_data: non_resident_data,
        has_named_data_streams: named_data_streams,
        has_compressed_data: compressed,
        has_sparse_data: sparse,
        has_encrypted_data: encrypted,
        usn_reason_mask: None,
        name,
        parent_record_number,
        reconstructed_path: None,
        evidence_sources,
    }
}


// ---------------------------------------------------------------------------
// Scanning the MFT
// ---------------------------------------------------------------------------

/// A record error with its message as characters.
pub struct RecordErrorView {
    pub record_index: usize,
    pub reason: Seq<char>,
}

impl View for QuickScanRecordError {
    type V = RecordErrorView;

    open spec fn view(&self) -> RecordErrorView {
        RecordErrorView { record_index: self.record_index, reason: self.reason@ }
    }
}

/// The views of record errors.
pub open spec fn record_error_views(v: Seq<QuickScanRecordError>) -> Seq<RecordErrorView> {
    Seq::new(v.len(), |i: int| v[i]@)
}

/// Number of resident attributes of `s`.
pub open spec fn resident_count(s: Seq<AttributeView>) -> nat
    decreases s.len(),
{
    if s.len() == 0 {
        0
    } else {
        resident_count(s.drop_last()) + if s.last().form is Resident {
            1nat
        } else {
            0nat
        }
    }
}

/// What the scan has gathered after some records.
pub struct ScanTallyView {
    pub stopped: bool,
    pub empty_run: nat,
    pub parsed: nat,
    pub resident: nat,
    pub non_resident: nat,
    pub deleted: nat,
    pub directories: nat,
    pub named: nat,
    pub with_non_resident_data: nat,
    pub candidates: Seq<CandidateView>,
    pub errors: Seq<RecordErrorView>,
}

/// The `rs` bytes of record slot `i` of an MFT at byte `mft` of `src`.
pub open spec fn record_slot(src: Seq<u8>, mft: int, rs: int, i: int) -> Seq<u8> {
    src.subrange(mft + i * rs, mft + i * rs + rs)
}

/// Every byte of `b` is zero.
pub open spec fn is_zero_record(b: Seq<u8>) -> bool {
    forall|k: int| 0 <= k < b.len() ==> b[k] == 0
}

/// One when `b` holds, else zero.
pub open spec fn count_if(b: bool) -> nat {
    if b {
        1
    } else {
        0
    }
}

/// The tally after visiting record slot `i`: the scan stops at the end of the
/// source and after 16384 all-zero slots in a row; it skips all-zero slots,
/// counts a parsed record and adds its candidate, or notes the parse error.
pub open spec fn scan_step(src: Seq<u8>, mft: int, rs: int, bps: int, t: ScanTallyView, i: int) -> ScanTallyView {
    if t.stopped {
        t
    } else if mft + i * rs + rs > src.len() {
        ScanTallyView { stopped: true, ..t }
    } else {
        let b = record_slot(src, mft, rs, i);
        if is_zero_record(b) {
            ScanTallyView {
                stopped: t.empty_run + 1 >= MAX_CONSECUTIVE_EMPTY_MFT_RECORDS,
                empty_run: t.empty_run + 1,
                ..t
            }
        } else {
            scan_step_parsed(t, i, b, bps)
        }
    }
}

/// The tally after record slots `0..n`.
pub open spec fn scan_tally(src: Seq<u8>, mft: int, rs: int, bps: int, n: nat) -> ScanTallyView
    decreases n,
{
    if n == 0 {
        ScanTallyView {
            stopped: false,
            empty_run: 0,
            parsed: 0,
            resident: 0,
            non_resident: 0,
            deleted: 0,
            directories: 0,
            named: 0,
            with_non_resident_data: 0,
            candidates: Seq::empty(),
            errors: Seq::empty(),
        }
    } else {
        scan_step(src, mft, rs, bps, scan_tally(src, mft, rs, bps, (n - 1) as nat), n - 1)
    }
}

proof fn lemma_scan_stays_stopped(src: Seq<u8>, mft: int, rs: int, bps: int, n: nat, m: nat)
    requires
        n <= m,
        scan_tally(src, mft, rs, bps, n).stopped,
    ensures
        scan_tally(src, mft, rs, bps, m) == scan_tally(src, mft, rs, bps, n),
    decreases m - n,
{
    if n < m {
        lemma_scan_stays_stopped(src, mft, rs, bps, n, (m - 1) as nat);
    }
}

struct ScanTally {
    empty_run: usize,
    parsed: usize,
    resident: usize,
    non_resident: usize,
    deleted: usize,
    directories: usize,
    named: usize,
    with_non_resident_data: usize,
    candidates: Vec<QuickScanCandidate>,
    errors: Vec<QuickScanRecordError>,
}

spec fn tally_view(t: ScanTally) -> ScanTallyView {
    ScanTallyView {
        stopped: false,
        empty_run: t.empty_run as nat,
        parsed: t.parsed as nat,
        resident: t.resident as nat,
        non_resident: t.non_resident as nat,
        deleted: t.deleted as nat,
        directories: t.directories as nat,
        named: t.named as nat,
        with_non_resident_data: t.with_non_resident_data as nat,
        candidates: candidate_views(t.candidates@),
        errors: record_error_views(t.errors@),
    }
}

/// The counters of `t` keep their relations to each other.
pub open spec fn tally_consistent(t: ScanTallyView) -> bool {
    &&& t.deleted <= t.parsed
    &&& t.directories <= t.parsed
    &&& t.named <= t.parsed
    &&& t.with_non_resident_data <= t.parsed
    &&& t.candidates.len() == t.parsed
    &&& t.empty_run <= MAX_CONSECUTIVE_EMPTY_MFT_RECORDS
}

/// The counters of `t` can take one more record of `rs` bytes without
/// passing `usize::MAX`.
pub open spec fn tally_room(t: ScanTallyView, rs: nat) -> bool {
    &&& tally_consistent(t)
    &&& t.parsed + t.errors.len() < usize::MAX
    &&& t.resident + t.non_resident + rs <= usize::MAX
}

/// `b` is `a` after one more record of `rs` bytes.
spec fn tally_grows(a: ScanTallyView, b: ScanTallyView, rs: nat) -> bool {
    &&& tally_consistent(b)
    &&& b.parsed + b.errors.len() == a.parsed + a.errors.len() + 1
    &&& b.resident + b.non_resident <= a.resident + a.non_resident + rs
}

/// The counters of `t` fit the `i` slots visited so far.
spec fn tally_bounded(t: ScanTallyView, i: int, rs: int) -> bool {
    &&& t.parsed + t.errors.len() <= i
    &&& t.deleted <= t.parsed
    &&& t.directories <= t.parsed
    &&& t.named <= t.parsed
    &&& t.with_non_resident_data <= t.parsed
    &&& t.candidates.len() == t.parsed
    &&& t.resident + t.non_resident <= i * rs
    &&& t.empty_run < MAX_CONSECUTIVE_EMPTY_MFT_RECORDS
}

fn count_resident(record: &MftRecord) -> (n: usize)
    ensures
        n == resident_count(record@.attributes),
        n <= record@.attributes.len(),
{
    let ghost a = record@.attributes;
    let mut n: usize = 0;
    let mut k: usize = 0;
    while k < record.attributes.len()
        invariant
            k <= a.len(),
            a == record@.attributes,
            n == resident_count(a.take(k as int)),
            n <= k,
        decreases a.len() - k,
    {
        assert(a.take(k + 1).drop_last() =~= a.take(k as int));
        assert(a[k as int] == record.attributes[k as int]@);
        match &record.attributes[k].form {
            AttributeForm::Resident(_) => n = n + 1,
            AttributeForm::NonResident(_) => {},
        }
        k = k + 1;
    }
    assert(a.take(a.len() as int) =~= a);
    n
}

fn tally_record(t: &mut ScanTally, index: usize, record_bytes: &[u8], bytes_per_sector: usize)
    requires
        !is_zero_record(record_bytes@),
        tally_room(tally_view(*old(t)), record_bytes@.len()),
    ensures
        tally_view(*final(t)) == scan_step_parsed(tally_view(*old(t)), index as int, record_bytes@, bytes_per_sector as int),
        tally_grows(tally_view(*old(t)), tally_view(*final(t)), record_bytes@.len()),
{
    proof {
        lemma_record_attribute_count(record_bytes@, bytes_per_sector as int);
    }
    match parse_mft_record(record_bytes, bytes_per_sector) {
        Ok(record) => {
            let resident = count_resident(&record);
            let all = record.attributes.len();
            t.parsed = t.parsed + 1;
            t.resident = t.resident + resident;
            t.non_resident = t.non_resident + (all - resident);
            let candidate = build_candidate(index, &record);
            if candidate.deleted {
                t.deleted = t.deleted + 1;
            }
            if candidate.is_directory {
                t.directories = t.directories + 1;
            }
            if candidate.name.is_some() {
                t.named = t.named + 1;
            }
            if candidate.has_non_resident_data {
                t.with_non_resident_data = t.with_non_resident_data + 1;
            }
            t.empty_run = 0;
            let ghost before = t.candidates@;
            t.candidates.push(candidate);
            assert(candidate_views(t.candidates@) =~= candidate_views(before).push(t.candidates@.last()@));
        },
        Err(error) => {
            t.empty_run = 0;
            let ghost before = t.errors@;
            t.errors.push(QuickScanRecordError { record_index: index, reason: error.message() });
            assert(record_error_views(t.errors@) =~= record_error_views(before).push(t.errors@.last()@));
        },
    }
}

/// The tally after a non-zero record slot `i` holding bytes `b`.
pub open spec fn scan_step_parsed(t: ScanTallyView, i: int, b: Seq<u8>, bps: int) -> ScanTallyView {
    match mft_record_of(b, bps) {
        Ok(r) => {
            let c = candidate_of(i as usize, r);
            let res = resident_count(r.attributes);
            ScanTallyView {
                stopped: false,
                empty_run: 0,
                parsed: t.parsed + 1,
                resident: t.resident + res,
                non_resident: t.non_resident + (r.attributes.len() - res) as nat,
                deleted: t.deleted + count_if(c.deleted),
                directories: t.directories + count_if(c.is_directory),
                named: t.named + count_if(c.name is Some),
                with_non_resident_data: t.with_non_resident_data + count_if(c.has_non_resident_data),
                candidates: t.candidates.push(c),
                errors: t.errors,
            }
        },
        Err(e) => ScanTallyView {
            empty_run: 0,
            errors: t.errors.push(RecordErrorView { record_index: i as usize, reason: mft_error_text(e) }),
            ..t
        },
    }
}


// ---------------------------------------------------------------------------
// Paths from parent references
// ---------------------------------------------------------------------------

/// Index of the last named candidate among `c[..n]` whose record number is `key`.
pub open spec fn named_index(c: Seq<CandidateView>, n: int, key: u64) -> Option<int>
    decreases n,
{
    if n <= 0 {
        None
    } else if c[n - 1].name is Some && c[n - 1].record_number as u64 == key {
        Some(n - 1)
    } else {
        named_index(c, n - 1, key)
    }
}

/// The names met when following parent references from `parent`: a walk ends
/// at a missing parent, at a reference already followed, at an unknown record
/// or once 32 names are gathered.
pub open spec fn path_segments(
    c: Seq<CandidateView>,
    parent: Option<u64>,
    seen: Set<u64>,
    segs: Seq<Seq<char>>,
) -> Seq<Seq<char>>
    decreases 32 - segs.len(),
{
    if segs.len() >= 32 {
        segs
    } else {
        match parent {
            None => segs,
            Some(p) => if seen.contains(p) {
                segs
            } else {
                match named_index(c, c.len() as int, p) {
                    None => segs,
                    Some(j) => path_segments(c, c[j].parent_record_number, seen.insert(p), segs.push(c[j].name->0)),
                }
            },
        }
    }
}

/// The segments joined with `\`, last segment first.
pub open spec fn joined_reversed(segs: Seq<Seq<char>>) -> Seq<char>
    decreases segs.len(),
{
    if segs.len() == 0 {
        Seq::empty()
    } else if segs.len() == 1 {
        segs[0]
    } else {
        joined_reversed(segs.drop_first()) + seq!['\\'] + segs[0]
    }
}

/// The path rebuilt for named candidate `c[i]`.
pub open spec fn candidate_path(c: Seq<CandidateView>, i: int) -> Seq<char> {
    joined_reversed(path_segments(c, c[i].parent_record_number, Set::empty(), seq![c[i].name->0]))
}

/// The candidates with a path rebuilt for each named one.
pub open spec fn with_paths(c: Seq<CandidateView>) -> Seq<CandidateView> {
    Seq::new(
        c.len(),
        |i: int|
            if c[i].name is Some {
                CandidateView { reconstructed_path: Some(candidate_path(c, i)), ..c[i] }
            } else {
                c[i]
            },
    )
}

proof fn lemma_path_segments_extend(c: Seq<CandidateView>, parent: Option<u64>, seen: Set<u64>, segs: Seq<Seq<char>>)
    ensures
        path_segments(c, parent, seen, segs).len() >= segs.len(),
        path_segments(c, parent, seen, segs).len() <= if segs.len() >= 32 { segs.len() } else { 32 },
        path_segments(c, parent, seen, segs).take(segs.len() as int) == segs,
    decreases 32 - segs.len(),
{
    if segs.len() < 32 {
        if let Some(p) = parent {
            if !seen.contains(p) {
                if let Some(j) = named_index(c, c.len() as int, p) {
                    let next = segs.push(c[j].name->0);
                    lemma_path_segments_extend(c, c[j].parent_record_number, seen.insert(p), next);
                    let r = path_segments(c, c[j].parent_record_number, seen.insert(p), next);
                    assert(r.take(segs.len() as int) =~= r.take(next.len() as int).take(segs.len() as int));
                    assert(next.take(segs.len() as int) =~= segs);
                }
            }
        }
    }
    assert(segs.take(segs.len() as int) =~= segs);
}

proof fn lemma_joined_ends_with_first(segs: Seq<Seq<char>>)
    requires
        segs.len() >= 1,
    ensures
        joined_reversed(segs).len() >= segs[0].len(),
        joined_reversed(segs).subrange(
            joined_reversed(segs).len() - segs[0].len(),
            joined_reversed(segs).len() as int,
        ) == segs[0],
    decreases segs.len(),
{
    let j = joined_reversed(segs);
    if segs.len() == 1 {
        assert(j.subrange(0, j.len() as int) =~= j);
    } else {
        let head = joined_reversed(segs.drop_first()) + seq!['\\'];
        assert(j == head + segs[0]);
        assert(j.subrange(j.len() - segs[0].len(), j.len() as int) =~= segs[0]);
    }
}

/// The path rebuilt for a named candidate ends with the candidate's own name,
/// and joins at most 32 names.
pub proof fn law_rebuilt_path_ends_with_name(c: Seq<CandidateView>, i: int)
    requires
        0 <= i < c.len(),
        c[i].name is Some,
    ensures
        candidate_path(c, i).len() >= (c[i].name->0).len(),
        candidate_path(c, i).subrange(
            candidate_path(c, i).len() - (c[i].name->0).len(),
            candidate_path(c, i).len() as int,
        ) == c[i].name->0,
        1 <= path_segments(c, c[i].parent_record_number, Set::empty(), seq![c[i].name->0]).len() <= 32,
{
    let first: Seq<Seq<char>> = seq![c[i].name->0];
    let segs = path_segments(c, c[i].parent_record_number, Set::empty(), first);
    lemma_path_segments_extend(c, c[i].parent_record_number, Set::empty(), first);
    assert(segs[0] == segs.take(1)[0]);
    lemma_joined_ends_with_first(segs);
}

fn clone_evidence(v: &Vec<EvidenceSource>) -> (r: Vec<EvidenceSource>)
    ensures
        r@ == v@,
{
    let mut r: Vec<EvidenceSource> = Vec::new();
    let mut k: usize = 0;
    while k < v.len()
        invariant
            k <= v@.len(),
            r@ =~= v@.subrange(0, k as int),
        decreases v@.len() - k,
    {
        r.push(v[k]);
        k = k + 1;
    }
    assert(v@.subrange(0, v@.len() as int) =~= v@);
    r
}

fn clone_text(o: &Option<String>) -> (r: Option<String>)
    ensures
        text_of(r) == text_of(*o),
{
    match o {
        Some(s) => Some(s.clone()),
        None => None,
    }
}

fn clone_candidate(c: &QuickScanCandidate) -> (r: QuickScanCandidate)
    ensures
        r@ == c@,
{
    QuickScanCandidate {
        record_index: c.record_index,
        record_number: c.record_number,
        in_use: c.in_use,
        deleted: c.deleted,
        is_directory: c.is_directory,
        has_non_resident_data: c.has_non_resident_data,
        has_named_data_streams: c.has_named_data_streams,
        has_compressed_data: c.has_compressed_data,
        has_sparse_data: c.has_sparse_data,
        has_encrypted_data: c.has_encrypted_data,
        usn_reason_mask: c.usn_reason_mask,
        name: clone_text(&c.name),
        parent_record_number: c.parent_record_number,
        reconstructed_path: clone_text(&c.reconstructed_path),
        evidence_sources: clone_evidence(&c.evidence_sources),
    }
}

pub(crate) fn contains_u64(v: &Vec<u64>, x: u64) -> (b: bool)
    ensures
        b == v@.contains(x),
{
    let mut k: usize = 0;
    while k < v.len()
        invariant
            k <= v@.len(),
            forall|m: int| 0 <= m < k ==> v@[m] != x,
        decreases v@.len() - k,
    {
        if v[k] == x {
            return true;
        }
        k = k + 1;
    }
    false
}

fn find_named(c: &Vec<QuickScanCandidate>, key: u64) -> (r: Option<usize>)
    ensures
        match (r, named_index(candidate_views(c@), c@.len() as int, key)) {
            (Some(j), Some(k)) => j == k,
            (None, None) => true,
            _ => false,
        },
        r matches Some(j) ==> j < c@.len() && c@[j as int].name is Some,
{
    let ghost cv = candidate_views(c@);
    let mut n = c.len();
    while n > 0
        invariant
            n <= c@.len(),
            cv == candidate_views(c@),
            named_index(cv, c@.len() as int, key) == named_index(cv, n as int, key),
            forall|m: int| n <= m < c@.len() ==> !(cv[m].name is Some && cv[m].record_number as u64 == key),
        decreases n,
    {
        let j = n - 1;
        assert(cv[j as int] == c@[j as int]@);
        if c[j].name.is_some() && c[j].record_number as u64 == key {
            return Some(j);
        }
        n = j;
    }
    None
}

proof fn lemma_joined_step(s: Seq<Seq<char>>, k: int)
    requires
        1 <= k < s.len(),
    ensures
        joined_reversed(s.subrange(k - 1, s.len() as int)) == joined_reversed(s.subrange(k, s.len() as int))
            + seq!['\\'] + s[k - 1],
{
    assert(s.subrange(k - 1, s.len() as int).drop_first() =~= s.subrange(k, s.len() as int));
}

fn join_reversed(segs: &Vec<Vec<char>>) -> (r: Vec<char>)
    requires
        segs@.len() >= 1,
    ensures
        r@ == joined_reversed(Seq::new(segs@.len(), |i: int| segs@[i]@)),
{
    let ghost s = Seq::new(segs@.len(), |i: int| segs@[i]@);
    let n = segs.len();
    let mut out = segs[n - 1].clone();
    assert(s.subrange(n - 1, n as int) =~= seq![s[n - 1]]);
    let mut k = n - 1;
    while k > 0
        invariant
            1 <= n == segs@.len(),
            k < n,
            s == Seq::new(segs@.len(), |i: int| segs@[i]@),
            out@ == joined_reversed(s.subrange(k as int, n as int)),
        decreases k,
    {
        proof {
            lemma_joined_step(s, k as int);
        }
        out.push('\\');
        push_chars(&mut out, &segs[k - 1]);
        assert(out@ =~= joined_reversed(s.subrange(k as int, n as int)) + seq!['\\'] + s[k - 1]);
        k = k - 1;
    }
    assert(s.subrange(0, n as int) =~= s);
    out
}

fn rebuilt_path(candidates: &Vec<QuickScanCandidate>, i: usize) -> (r: Vec<char>)
    requires
        i < candidates@.len(),
        candidates@[i as int].name is Some,
    ensures
        r@ == candidate_path(candidate_views(candidates@), i as int),
{
    let ghost cv = candidate_views(candidates@);
    assert(cv[i as int] == candidates@[i as int]@);
    let first = match &candidates[i].name {
        Some(name) => chars_of(name.as_str()),
        None => Vec::new(),
    };
    let mut segments: Vec<Vec<char>> = Vec::new();
    segments.push(first);
    let mut parent = candidates[i].parent_record_number;
    let mut seen: Vec<u64> = Vec::new();
    let ghost mut seen_set: Set<u64> = Set::empty();
    assert(Seq::new(segments@.len(), |m: int| segments@[m]@) =~= seq![cv[i as int].name->0]);
    while segments.len() < 32
        invariant
            cv == candidate_views(candidates@),
            i < candidates@.len(),
            1 <= segments@.len() <= 32,
            forall|x: u64| seen@.contains(x) <==> seen_set.contains(x),
            path_segments(cv, cv[i as int].parent_record_number, Set::empty(), seq![cv[i as int].name->0])
                == path_segments(cv, parent, seen_set, Seq::new(segments@.len(), |m: int| segments@[m]@)),
        ensures
            path_segments(cv, cv[i as int].parent_record_number, Set::empty(), seq![cv[i as int].name->0])
                == Seq::new(segments@.len(), |m: int| segments@[m]@),
            1 <= segments@.len(),
        decreases 32 - segments@.len(),
    {
        let ghost segs = Seq::new(segments@.len(), |m: int| segments@[m]@);
        let p = match parent {
            Some(p) => p,
            None => break,
        };
        if contains_u64(&seen, p) {
            break;
        }
        let j = match find_named(candidates, p) {
            Some(j) => j,
            None => break,
        };
        assert(cv[j as int] == candidates@[j as int]@);
        let name_chars = match &candidates[j].name {
            Some(name) => chars_of(name.as_str()),
            None => Vec::new(),
        };
        assert(name_chars@ == cv[j as int].name->0);
        let ghost old_seen = seen@;
        seen.push(p);
        proof {
            seen_set = seen_set.insert(p);
            assert forall|x: u64| seen@.contains(x) <==> seen_set.contains(x) by {
                if seen@.contains(x) {
                    let m = choose|m: int| 0 <= m < seen@.len() && seen@[m] == x;
                    if m < old_seen.len() {
                        assert(old_seen[m] == x);
                    }
                }
                if old_seen.contains(x) {
                    let m = choose|m: int| 0 <= m < old_seen.len() && old_seen[m] == x;
                    assert(seen@[m] == x);
                }
                if x == p {
                    assert(seen@[old_seen.len() as int] == x);
                }
            }
        }
        let ghost old_segments = segments@;
        segments.push(name_chars);
        assert(segments@ == old_segments.push(name_chars));
        parent = candidates[j].parent_record_number;
        assert(Seq::new(segments@.len(), |m: int| segments@[m]@) =~= segs.push(cv[j as int].name->0));
    }
    join_reversed(&segments)
}

fn reconstruct_paths(candidates: &mut Vec<QuickScanCandidate>)
    ensures
        candidate_views(final(candidates)@) == with_paths(candidate_views(old(candidates)@)),
{
    let ghost cv = candidate_views(candidates@);
    let n = candidates.len();
    let mut paths: Vec<Option<Vec<char>>> = Vec::new();
    let mut i: usize = 0;
    while i < n
        invariant
            n == candidates@.len(),
            cv == candidate_views(candidates@),
            i <= n,
            paths@.len() == i,
            forall|m: int|
                0 <= m < i ==> match #[trigger] paths@[m] {
                    Some(p) => cv[m].name is Some && p@ == candidate_path(cv, m),
                    None => cv[m].name is None,
                },
        decreases n - i,
    {
        assert(cv[i as int] == candidates@[i as int]@);
        if candidates[i].name.is_some() {
            let p = rebuilt_path(candidates, i);
            paths.push(Some(p));
        } else {
            paths.push(None);
        }
        i = i + 1;
    }
    let mut k: usize = 0;
    while k < n
        invariant
            n == candidates@.len() == paths@.len(),
            k <= n,
            cv.len() == n,
            forall|m: int|
                0 <= m < n ==> match #[trigger] paths@[m] {
                    Some(p) => cv[m].name is Some && p@ == candidate_path(cv, m),
                    None => cv[m].name is None,
                },
            forall|m: int| 0 <= m < k ==> candidates@[m]@ == with_paths(cv)[m],
            forall|m: int| k <= m < n ==> candidates@[m]@ == cv[m],
        decreases n - k,
    {
        match &paths[k] {
            Some(p) => {
                let mut c = clone_candidate(&candidates[k]);
                c.reconstructed_path = Some(string_from_chars(p));
                candidates.set(k, c);
            },
            None => {},
        }
        k = k + 1;
    }
    assert(candidate_views(candidates@) =~= with_paths(cv));
}


// ---------------------------------------------------------------------------
// Quick scan
// ---------------------------------------------------------------------------

/// A summary with its candidates and errors as views.
pub struct QuickScanSummaryView {
    pub boot_sector: NtfsBootSector,
    pub parsed_records: usize,
    pub parse_failures: usize,
    pub resident_attribute_count: usize,
    pub non_resident_attribute_count: usize,
    pub deleted_records: usize,
    pub directory_records: usize,
    pub named_records: usize,
    pub records_with_non_resident_data: usize,
    pub candidates: Seq<CandidateView>,
    pub record_errors: Seq<RecordErrorView>,
}

impl View for QuickScanSummary {
    type V = QuickScanSummaryView;

    open spec fn view(&self) -> QuickScanSummaryView {
        QuickScanSummaryView {
            boot_sector: self.boot_sector,
            parsed_records: self.parsed_records,
            parse_failures: self.parse_failures,
            resident_attribute_count: self.resident_attribute_count,
            non_resident_attribute_count: self.non_resident_attribute_count,
            deleted_records: self.deleted_records,
            directory_records: self.directory_records,
            named_records: self.named_records,
            records_with_non_resident_data: self.records_with_non_resident_data,
            candidates: candidate_views(self.candidates@),
            record_errors: record_error_views(self.record_errors@),
        }
    }
}

/// The summary of boot sector `b` and final tally `t`, paths rebuilt.
pub open spec fn summary_of(b: NtfsBootSector, t: ScanTallyView) -> QuickScanSummaryView {
    QuickScanSummaryView {
        boot_sector: b,
        parsed_records: t.parsed as usize,
        parse_failures: t.errors.len() as usize,
        resident_attribute_count: t.resident as usize,
        non_resident_attribute_count: t.non_resident as usize,
        deleted_records: t.deleted as usize,
        directory_records: t.directories as usize,
        named_records: t.named as usize,
        records_with_non_resident_data: t.with_non_resident_data as usize,
        candidates: with_paths(t.candidates),
        record_errors: t.errors,
    }
}

/// The quick scan of image `src` with a valid NTFS boot sector, visiting at
/// most `max_records` MFT slots.
pub open spec fn quick_scan_of(src: Seq<u8>, max_records: nat) -> Result<QuickScanSummaryView, QuickScanError> {
    let b = ntfs_boot_of(src);
    let rs = b.file_record_size_bytes as int;
    match checked_product(b.mft_cluster as int, b.bytes_per_sector * b.sectors_per_cluster) {
        None => Err(QuickScanError::InvalidMftOffset),
        Some(m) => if m > usize::MAX {
            Err(QuickScanError::InvalidMftOffset)
        } else if m >= src.len() {
            Err(QuickScanError::MftOutOfBounds(m as usize, src.len() as usize))
        } else if rs < 256 || rs > MAX_NTFS_FILE_RECORD_SIZE {
            Err(QuickScanError::InvalidFileRecordSize(b.file_record_size_bytes))
        } else {
            Ok(summary_of(b, scan_tally(src, m as int, rs, b.bytes_per_sector as int, max_records)))
        },
    }
}

/// The two tallies agree on everything but the stop state.
spec fn same_totals(a: ScanTallyView, b: ScanTallyView) -> bool {
    &&& a.parsed == b.parsed
    &&& a.resident == b.resident
    &&& a.non_resident == b.non_resident
    &&& a.deleted == b.deleted
    &&& a.directories == b.directories
    &&& a.named == b.named
    &&& a.with_non_resident_data == b.with_non_resident_data
    &&& a.candidates == b.candidates
    &&& a.errors == b.errors
}

/// Scans the MFT of the NTFS volume image `source_bytes`: parses the boot
/// sector, then visits up to `config.max_records` file record slots.
pub fn quick_scan_ntfs_metadata(source_bytes: &[u8], config: QuickScanConfig) -> (r: Result<
    QuickScanSummary,
    QuickScanError,
>)
    ensures
        !ntfs_boot_valid(source_bytes@) ==> (r matches Err(QuickScanError::BootSector(e)) && ntfs_boot_error(
            source_bytes@,
            e,
        )),
        ntfs_boot_valid(source_bytes@) ==> match (r, quick_scan_of(source_bytes@, config.max_records as nat)) {
            (Ok(s), Ok(v)) => s@ == v,
            (Err(e), Err(f)) => e == f,
            _ => false,
        },
{
    let boot_sector = match parse_boot_sector(source_bytes) {
        Ok(b) => b,
        Err(e) => return Err(QuickScanError::BootSector(e)),
    };
    let mft_offset_u64 = match boot_sector.mft_offset_bytes() {
        Some(v) => v,
        None => return Err(QuickScanError::InvalidMftOffset),
    };
    if mft_offset_u64 > usize::MAX as u64 {
        return Err(QuickScanError::InvalidMftOffset);
    }
    let mft_offset = mft_offset_u64 as usize;
    let len = source_bytes.len();
    if mft_offset >= len {
        return Err(QuickScanError::MftOutOfBounds(mft_offset, len));
    }
    let record_size = boot_sector.file_record_size_bytes as usize;
    if record_size < 256 || record_size > MAX_NTFS_FILE_RECORD_SIZE {
        return Err(QuickScanError::InvalidFileRecordSize(boot_sector.file_record_size_bytes));
    }
    let bytes_per_sector = boot_sector.bytes_per_sector as usize;
    let ghost src = source_bytes@;
    let ghost mft = mft_offset as int;
    let ghost rs = record_size as int;
    let ghost bps = bytes_per_sector as int;
    let mut t = ScanTally {
        empty_run: 0,
        parsed: 0,
        resident: 0,
        non_resident: 0,
        deleted: 0,
        directories: 0,
        named: 0,
        with_non_resident_data: 0,
        candidates: Vec::new(),
        errors: Vec::new(),
    };
    assert(candidate_views(t.candidates@) =~= Seq::<CandidateView>::empty());
    assert(record_error_views(t.errors@) =~= Seq::<RecordErrorView>::empty());
    let max_records = config.max_records;
    let mut index: usize = 0;
    while index < max_records
        invariant_except_break
            scan_tally(src, mft, rs, bps, index as nat) == tally_view(t),
            tally_bounded(tally_view(t), index as int, rs),
        invariant
            src == source_bytes@,
            len == src.len(),
            mft == mft_offset,
            rs == record_size,
            bps == bytes_per_sector,
            mft_offset < len,
            256 <= record_size,
            index <= max_records,
        ensures
            same_totals(scan_tally(src, mft, rs, bps, max_records as nat), tally_view(t)),
        decreases max_records - index,
    {
        let ghost before = tally_view(t);
        let ghost next = scan_tally(src, mft, rs, bps, (index + 1) as nat);
        assert(next == scan_step(src, mft, rs, bps, before, index as int));
        let delta = match index.checked_mul(record_size) {
            Some(d) => d,
            None => {
                assert(mft + index * rs + rs > len) by (nonlinear_arith)
                    requires
                        index * rs > usize::MAX,
                        mft >= 0,
                        rs >= 0,
                        len <= usize::MAX,
                ;
                proof {
                    lemma_scan_stays_stopped(src, mft, rs, bps, (index + 1) as nat, max_records as nat);
                }
                break;
            },
        };
        let end = match mft_offset.checked_add(delta) {
            Some(o) => match o.checked_add(record_size) {
                Some(e) => e,
                None => {
                    proof {
                        lemma_scan_stays_stopped(src, mft, rs, bps, (index + 1) as nat, max_records as nat);
                    }
                    break;
                },
            },
            None => {
                proof {
                    lemma_scan_stays_stopped(src, mft, rs, bps, (index + 1) as nat, max_records as nat);
                }
                break;
            },
        };
        if end > len {
            proof {
                lemma_scan_stays_stopped(src, mft, rs, bps, (index + 1) as nat, max_records as nat);
            }
            break;
        }
        let offset = mft_offset + delta;
        let record_bytes = &source_bytes[offset..end];
        assert(record_bytes@ == record_slot(src, mft, rs, index as int));
        if all_zero(source_bytes, offset, end) {
            assert(is_zero_record(record_bytes@));
            t.empty_run = t.empty_run + 1;
            if t.empty_run >= MAX_CONSECUTIVE_EMPTY_MFT_RECORDS {
                proof {
                    lemma_scan_stays_stopped(src, mft, rs, bps, (index + 1) as nat, max_records as nat);
                }
                break;
            }
            assert(index * rs <= (index + 1) * rs) by (nonlinear_arith)
                requires
                    rs >= 0,
            ;
        } else {
            proof {
                if is_zero_record(record_bytes@) {
                    assert forall|k: int| offset <= k < end implies source_bytes@[k] == 0 by {
                        assert(record_bytes@[k - offset] == source_bytes@[k]);
                    }
                }
            }
            assert((index + 1) * rs == index * rs + rs) by (nonlinear_arith);
            assert(index * rs >= 0) by (nonlinear_arith)
                requires
                    rs >= 0,
            ;
            tally_record(&mut t, index, record_bytes, bytes_per_sector);
        }
        index = index + 1;
    }
    let ghost total = tally_view(t);
    let mut candidates = t.candidates;
    reconstruct_paths(&mut candidates);
    let parse_failures = t.errors.len();
    Ok(QuickScanSummary {
        boot_sector,
        parsed_records: t.parsed,
        parse_failures,
        resident_attribute_count: t.resident,
        non_resident_attribute_count: t.non_resident,
        deleted_records: t.deleted,
        directory_records: t.directories,
        named_records: t.named,
        records_with_non_resident_data: t.with_non_resident_data,
        candidates,
        record_errors: t.errors,
    })
}


// ---------------------------------------------------------------------------
// Record-at-a-time quick scan
// ---------------------------------------------------------------------------

/// Where a scan that reads one record at a time starts, for a source whose
/// first sector is `sector` and that parses as NTFS: the boot sector, the
/// MFT's byte offset and how many slots to visit (4096 when `max_records`
/// is 0); `InvalidFileRecordSize` for a record size outside 256 bytes to
/// 1 MiB, `InvalidMftOffset` when the MFT's offset passes 64 bits.
pub open spec fn record_scan_start(sector: Seq<u8>, max_records: nat) -> Result<(NtfsBootSector, u64, nat), QuickScanError> {
    let b = ntfs_boot_of(sector);
    let rs = b.file_record_size_bytes as int;
    if rs < 256 || rs > MAX_NTFS_FILE_RECORD_SIZE {
        Err(QuickScanError::InvalidFileRecordSize(b.file_record_size_bytes))
    } else {
        match checked_product(b.mft_cluster as int, b.bytes_per_sector * b.sectors_per_cluster) {
            None => Err(QuickScanError::InvalidMftOffset),
            Some(m) => Ok((b, m, if max_records == 0 { 4096 } else { max_records })),
        }
    }
}

/// A scan that reads its MFT records one at a time from a source it does
/// not hold: `next_record_offset` names the slot to read, `record_read`
/// takes what the read gave, `finish` gives the summary.
pub struct MftRecordScan {
    boot_sector: NtfsBootSector,
    mft_offset: u64,
    record_size: usize,
    max_records: usize,
    index: usize,
    done: bool,
    tally: ScanTally,
}

/// What a record-at-a-time scan knows.
pub struct MftRecordScanView {
    pub boot_sector: NtfsBootSector,
    pub mft_offset: u64,
    pub record_size: nat,
    pub max_records: nat,
    pub index: nat,
    pub tally: ScanTallyView,
}

impl View for MftRecordScan {
    type V = MftRecordScanView;

    closed spec fn view(&self) -> MftRecordScanView {
        MftRecordScanView {
            boot_sector: self.boot_sector,
            mft_offset: self.mft_offset,
            record_size: self.record_size as nat,
            max_records: self.max_records as nat,
            index: self.index as nat,
            tally: ScanTallyView { stopped: self.done, ..tally_view(self.tally) },
        }
    }
}

/// A scan that has read nothing yet.
pub open spec fn record_scan_initial(b: NtfsBootSector, mft: u64, max_records: nat) -> MftRecordScanView {
    MftRecordScanView {
        boot_sector: b,
        mft_offset: mft,
        record_size: b.file_record_size_bytes as nat,
        max_records,
        index: 0,
        tally: scan_tally(Seq::empty(), 0, 0, 0, 0),
    }
}

/// The tally after slot `i` gave `read` (`None`: the read failed, which
/// ends the scan): an all-zero slot only lengthens the run of empty slots
/// (ending the scan at 16384 in a row), any other is parsed and counted;
/// a tally with no room left for it ends the scan instead.
pub open spec fn record_read_step(t: ScanTallyView, i: int, read: Option<Seq<u8>>, rs: nat, bps: int) -> ScanTallyView {
    if t.stopped {
        t
    } else {
        match read {
            None => ScanTallyView { stopped: true, ..t },
            Some(b) => if is_zero_record(b) {
                ScanTallyView {
                    stopped: t.empty_run + 1 >= MAX_CONSECUTIVE_EMPTY_MFT_RECORDS,
                    empty_run: t.empty_run + 1,
                    ..t
                }
            } else if !tally_room(t, rs) {
                ScanTallyView { stopped: true, ..t }
            } else {
                scan_step_parsed(t, i, b, bps)
            },
        }
    }
}

/// Where the next record lies: `None` once the scan has stopped or visited
/// its slots; `InvalidMftOffset` when the offset passes 64 bits.
pub open spec fn next_record_offset_of(v: MftRecordScanView) -> Result<Option<u64>, QuickScanError> {
    if v.tally.stopped || v.index >= v.max_records {
        Ok(None)
    } else {
        match checked_product(v.index as int, v.record_size as int) {
            None => Err(QuickScanError::InvalidMftOffset),
            Some(d) => if v.mft_offset + d > u64::MAX {
                Err(QuickScanError::InvalidMftOffset)
            } else {
                Ok(Some((v.mft_offset + d) as u64))
            },
        }
    }
}

/// The bytes a read handed over, as a sequence.
pub open spec fn read_view(record: Option<&[u8]>) -> Option<Seq<u8>> {
    match record {
        Some(b) => Some(b@),
        None => None,
    }
}

impl MftRecordScan {
    /// The scan's own invariant.
    pub closed spec fn wf(&self) -> bool {
        &&& 256 <= self.record_size <= MAX_NTFS_FILE_RECORD_SIZE
        &&& self.record_size == self.boot_sector.file_record_size_bytes
        &&& self.index <= self.max_records
        &&& tally_consistent(tally_view(self.tally))
        &&& !self.done ==> self.tally.empty_run < MAX_CONSECUTIVE_EMPTY_MFT_RECORDS
    }

    /// Starts a scan from the source's first sector (see
    /// `record_scan_start`); a sector that is no NTFS boot sector gives its
    /// parse error.
    pub fn begin(sector: &[u8], config: QuickScanConfig) -> (r: Result<MftRecordScan, QuickScanError>)
        ensures
            !ntfs_boot_valid(sector@) ==> (r matches Err(QuickScanError::BootSector(e)) && ntfs_boot_error(sector@, e)),
            ntfs_boot_valid(sector@) ==> match (r, record_scan_start(sector@, config.max_records as nat)) {
                (Ok(s), Ok((b, m, n))) => s.wf() && s@ == record_scan_initial(b, m, n),
                (Err(e), Err(f)) => e == f,
                _ => false,
            },
    {
        let boot_sector = match parse_boot_sector(sector) {
            Ok(b) => b,
            Err(e) => return Err(QuickScanError::BootSector(e)),
        };
        let record_size = boot_sector.file_record_size_bytes as usize;
        if record_size < 256 || record_size > MAX_NTFS_FILE_RECORD_SIZE {
            return Err(QuickScanError::InvalidFileRecordSize(boot_sector.file_record_size_bytes));
        }
        let mft_offset = match boot_sector.mft_offset_bytes() {
            Some(v) => v,
            None => return Err(QuickScanError::InvalidMftOffset),
        };
        let max_records = if config.max_records == 0 {
            4096
        } else {
            config.max_records
        };
        let scan = MftRecordScan {
            boot_sector,
            mft_offset,
            record_size,
            max_records,
            index: 0,
            done: false,
            tally: ScanTally {
                empty_run: 0,
                parsed: 0,
                resident: 0,
                non_resident: 0,
                deleted: 0,
                directories: 0,
                named: 0,
                with_non_resident_data: 0,
                candidates: Vec::new(),
                errors: Vec::new(),
            },
        };
        assert(candidate_views(scan.tally.candidates@) =~= Seq::<CandidateView>::empty());
        assert(record_error_views(scan.tally.errors@) =~= Seq::<RecordErrorView>::empty());
        Ok(scan)
    }

    /// How many bytes each record read takes.
    pub fn record_size(&self) -> (n: usize)
        ensures
            n == self@.record_size,
    {
        self.record_size
    }

    /// The byte offset of the next record to read (see
    /// `next_record_offset_of`).
    pub fn next_record_offset(&self) -> (r: Result<Option<u64>, QuickScanError>)
        requires
            self.wf(),
        ensures
            r == next_record_offset_of(self@),
    {
        if self.done || self.index >= self.max_records {
            return Ok(None);
        }
        let delta = match (self.index as u64).checked_mul(self.record_size as u64) {
            Some(d) => d,
            None => return Err(QuickScanError::InvalidMftOffset),
        };
        match self.mft_offset.checked_add(delta) {
            Some(o) => Ok(Some(o)),
            None => Err(QuickScanError::InvalidMftOffset),
        }
    }

    /// Takes what the read of the next record gave: its bytes, or `None`
    /// when the read failed (see `record_read_step`).
    pub fn record_read(&mut self, record: Option<&[u8]>)
        requires
            old(self).wf(),
            !old(self)@.tally.stopped,
            old(self)@.index < old(self)@.max_records,
            record matches Some(b) ==> b@.len() == old(self)@.record_size,
        ensures
            final(self).wf(),
            final(self)@ == (MftRecordScanView {
                index: old(self)@.index + 1,
                tally: record_read_step(
                    old(self)@.tally,
                    old(self)@.index as int,
                    read_view(record),
                    old(self)@.record_size,
                    old(self)@.boot_sector.bytes_per_sector as int,
                ),
                ..old(self)@
            }),
    {
        let index = self.index;
        self.index = index + 1;
        match record {
            None => {
                self.done = true;
            },
            Some(bytes) => {
                let len = bytes.len();
                if all_zero(bytes, 0, len) {
                    self.tally.empty_run = self.tally.empty_run + 1;
                    if self.tally.empty_run >= MAX_CONSECUTIVE_EMPTY_MFT_RECORDS {
                        self.done = true;
                    }
                } else {
                    let t = &self.tally;
                    let room = t.parsed < usize::MAX - t.errors.len() && t.resident <= usize::MAX - len && t.non_resident
                        <= usize::MAX - len - t.resident;
                    if !room {
                        self.done = true;
                    } else {
                        let bytes_per_sector = self.boot_sector.bytes_per_sector as usize;
                        tally_record(&mut self.tally, index, bytes, bytes_per_sector);
                    }
                }
            },
        }
    }

    /// The summary of what the scan gathered, paths rebuilt.
    pub fn finish(self) -> (r: QuickScanSummary)
        requires
            self.wf(),
        ensures
            r@ == summary_of(self@.boot_sector, self@.tally),
    {
        let t = self.tally;
        let mut candidates = t.candidates;
        reconstruct_paths(&mut candidates);
        let parse_failures = t.errors.len();
        QuickScanSummary {
            boot_sector: self.boot_sector,
            parsed_records: t.parsed,
            parse_failures,
            resident_attribute_count: t.resident,
            non_resident_attribute_count: t.non_resident,
            deleted_records: t.deleted,
            directory_records: t.directories,
            named_records: t.named,
            records_with_non_resident_data: t.with_non_resident_data,
            candidates,
            record_errors: t.errors,
        }
    }
}

/// What reading slot `i` of an MFT at byte `mft` of an in-memory volume
/// `src` gives: the slot's bytes, or `None` past the end of the volume.
pub open spec fn slot_read(src: Seq<u8>, mft: int, rs: nat, i: int) -> Option<Seq<u8>> {
    if mft + i * rs + rs > src.len() {
        None
    } else {
        Some(record_slot(src, mft, rs as int, i))
    }
}

/// The tally of a record-at-a-time scan fed slots `0..n` of `src`.
pub open spec fn fed_tally(src: Seq<u8>, mft: int, rs: nat, bps: int, n: nat) -> ScanTallyView
    decreases n,
{
    if n == 0 {
        scan_tally(src, mft, rs as int, bps, 0)
    } else {
        record_read_step(fed_tally(src, mft, rs, bps, (n - 1) as nat), n - 1, slot_read(src, mft, rs, n - 1), rs, bps)
    }
}

proof fn lemma_resident_count_bound(s: Seq<AttributeView>)
    ensures
        resident_count(s) <= s.len(),
    decreases s.len(),
{
    if s.len() > 0 {
        lemma_resident_count_bound(s.drop_last());
    }
}

/// The counters of the in-memory scan after `n` slots fit those slots.
spec fn counts_fit(t: ScanTallyView, n: int, rs: int) -> bool {
    &&& tally_consistent(t)
    &&& !t.stopped ==> t.empty_run < MAX_CONSECUTIVE_EMPTY_MFT_RECORDS
    &&& t.parsed + t.errors.len() <= n
    &&& t.resident + t.non_resident <= n * rs
}

proof fn lemma_scan_tally_fits(src: Seq<u8>, mft: int, rs: int, bps: int, n: nat)
    requires
        rs >= 0,
        mft >= 0,
    ensures
        counts_fit(scan_tally(src, mft, rs, bps, n), n as int, rs),
    decreases n,
{
    if n > 0 {
        let m = (n - 1) as nat;
        lemma_scan_tally_fits(src, mft, rs, bps, m);
        assert(m * rs + rs == n * rs) by (nonlinear_arith)
            requires
                n == m + 1,
        ;
        assert(m * rs <= n * rs) by (nonlinear_arith)
            requires
                n == m + 1,
                rs >= 0,
        ;
        let t = scan_tally(src, mft, rs, bps, m);
        if !t.stopped && mft + m * rs + rs <= src.len() {
            let b = record_slot(src, mft, rs, m as int);
            if !is_zero_record(b) {
                lemma_record_attribute_count(b, bps);
                assert(b.len() == rs);
                match mft_record_of(b, bps) {
                    Ok(r) => {
                        lemma_resident_count_bound(r.attributes);
                        let res = resident_count(r.attributes);
                        let u = scan_tally(src, mft, rs, bps, n);
                        assert(u.resident + u.non_resident == t.resident + t.non_resident + r.attributes.len());
                    },
                    Err(_) => {},
                }
            }
        }
    }
}

/// Feeding a record-at-a-time scan the slots of an in-memory volume, in
/// order, gives the same tally as scanning the volume in memory.
pub proof fn law_record_reads_match_in_memory_scan(src: Seq<u8>, mft: int, rs: nat, bps: int, n: nat)
    requires
        src.len() <= usize::MAX,
        0 <= mft,
        1 <= rs,
    ensures
        fed_tally(src, mft, rs, bps, n) == scan_tally(src, mft, rs as int, bps, n),
    decreases n,
{
    if n > 0 {
        let m = (n - 1) as nat;
        law_record_reads_match_in_memory_scan(src, mft, rs, bps, m);
        lemma_scan_tally_fits(src, mft, rs as int, bps, m);
        let t = scan_tally(src, mft, rs as int, bps, m);
        if !t.stopped && mft + m * rs + rs <= src.len() {
            assert(m * rs >= m) by (nonlinear_arith)
                requires
                    rs >= 1,
            ;
            assert(m * rs >= 0) by (nonlinear_arith)
                requires
                    rs >= 1,
            ;
        }
    }
}

// ---------------------------------------------------------------------------
// USN evidence
// ---------------------------------------------------------------------------

/// Lookup key of a name or path: trimmed and ASCII lower-cased.
pub open spec fn case_key(s: Seq<char>) -> Seq<char> {
    ascii_lower(trim_ws(s))
}

/// Some record's file name has key `k`.
pub open spec fn name_known(recs: Seq<UsnRecordView>, k: Seq<char>) -> bool {
    exists|j: int| 0 <= j < recs.len() && case_key(recs[j].file_name) == k
}

/// The reasons of the records among `recs[..n]` whose file name has key `k`, or-ed.
pub open spec fn name_reason_upto(recs: Seq<UsnRecordView>, k: Seq<char>, n: int) -> u32
    decreases n,
{
    if n <= 0 {
        0
    } else {
        name_reason_upto(recs, k, n - 1) | if case_key(recs[n - 1].file_name) == k {
            recs[n - 1].reason
        } else {
            0
        }
    }
}

/// The reasons of all records whose file name has key `k`, or-ed.
pub open spec fn name_reason(recs: Seq<UsnRecordView>, k: Seq<char>) -> u32 {
    name_reason_upto(recs, k, recs.len() as int)
}

/// Whether candidate `d` contributes its name's reasons under its path key.
pub open spec fn path_entry(recs: Seq<UsnRecordView>, d: CandidateView) -> bool {
    &&& d.reconstructed_path is Some
    &&& d.name is Some
    &&& name_known(recs, case_key(d.name->0))
}

/// The reasons recorded under path key `k` by the first candidate of `c[..n]`
/// with that path key whose name some record carries.
pub open spec fn path_reason_upto(c: Seq<CandidateView>, recs: Seq<UsnRecordView>, k: Seq<char>, n: int) -> Option<u32>
    decreases n,
{
    if n <= 0 {
        None
    } else {
        match path_reason_upto(c, recs, k, n - 1) {
            Some(r) => Some(r),
            None => {
                let d = c[n - 1];
                if path_entry(recs, d) && case_key(d.reconstructed_path->0) == k {
                    Some(name_reason(recs, case_key(d.name->0)))
                } else {
                    None
                }
            },
        }
    }
}

/// The USN reasons that match candidate `d`, by path and by name.
pub open spec fn matched_reason(c: Seq<CandidateView>, recs: Seq<UsnRecordView>, d: CandidateView) -> u32 {
    let from_path = match d.reconstructed_path {
        Some(p) => match path_reason_upto(c, recs, case_key(p), c.len() as int) {
            Some(r) => r,
            None => 0,
        },
        None => 0,
    };
    let from_name = match d.name {
        Some(n) => name_reason(recs, case_key(n)),
        None => 0,
    };
    from_path | from_name
}

/// Candidate `d` with USN evidence of reasons `m` added.
pub open spec fn with_reason(d: CandidateView, m: u32) -> CandidateView {
    CandidateView {
        evidence_sources: if d.evidence_sources.contains(EvidenceSource::Usn) {
            d.evidence_sources
        } else {
            d.evidence_sources.push(EvidenceSource::Usn)
        },
        usn_reason_mask: Some(
            match d.usn_reason_mask {
                Some(x) => x,
                None => 0,
            } | m,
        ),
        ..d
    }
}

/// The candidates after enrichment with the records `recs`.
pub open spec fn with_usn(c: Seq<CandidateView>, recs: Seq<UsnRecordView>) -> Seq<CandidateView> {
    Seq::new(
        c.len(),
        |i: int|
            if matched_reason(c, recs, c[i]) == 0 {
                c[i]
            } else {
                with_reason(c[i], matched_reason(c, recs, c[i]))
            },
    )
}

/// Number of candidates among `c[..n]` that some record matches.
pub open spec fn matched_count(c: Seq<CandidateView>, recs: Seq<UsnRecordView>, n: int) -> nat
    decreases n,
{
    if n <= 0 {
        0
    } else {
        matched_count(c, recs, n - 1) + count_if(matched_reason(c, recs, c[n - 1]) != 0)
    }
}

proof fn lemma_matched_count_bound(c: Seq<CandidateView>, recs: Seq<UsnRecordView>, n: int)
    requires
        0 <= n,
    ensures
        matched_count(c, recs, n) <= n,
    decreases n,
{
    if n > 0 {
        lemma_matched_count_bound(c, recs, n - 1);
    }
}

fn case_key_of(s: &String) -> (r: Vec<char>)
    ensures
        r@ == case_key(s@),
{
    let chars = chars_of(s.as_str());
    let trimmed = trim_whitespace(&chars);
    ascii_lowercase(&trimmed)
}

fn reasons_for(keys: &Vec<Vec<char>>, usn_records: &[UsnRecord], k: &Vec<char>) -> (r: (bool, u32))
    requires
        keys@.len() == usn_records@.len(),
        forall|j: int| 0 <= j < keys@.len() ==> keys@[j]@ == case_key(#[trigger] usn_records@[j].file_name@),
    ensures
        r.0 == name_known(views_of(usn_records@), k@),
        r.1 == name_reason(views_of(usn_records@), k@),
{
    let ghost recs = views_of(usn_records@);
    let mut known = false;
    let mut reason: u32 = 0;
    let mut j: usize = 0;
    while j < keys.len()
        invariant
            keys@.len() == usn_records@.len() == recs.len(),
            recs == views_of(usn_records@),
            forall|m: int| 0 <= m < keys@.len() ==> keys@[m]@ == case_key(#[trigger] usn_records@[m].file_name@),
            j <= keys@.len(),
            known == exists|m: int| 0 <= m < j && case_key(recs[m].file_name) == k@,
            reason == name_reason_upto(recs, k@, j as int),
        decreases keys@.len() - j,
    {
        assert(recs[j as int] == usn_records@[j as int]@);
        let ghost before = known;
        if chars_equal(&keys[j], k) {
            known = true;
            reason = reason | usn_records[j].reason;
        } else {
            reason = reason | 0;
        }
        proof {
            if known {
                if !before {
                    assert(case_key(recs[j as int].file_name) == k@);
                } else {
                    let m = choose|m: int| 0 <= m < j && case_key(recs[m].file_name) == k@;
                    assert(0 <= m < j + 1 && case_key(recs[m].file_name) == k@);
                }
            }
        }
        j = j + 1;
    }
    (known, reason)
}

fn contains_usn(v: &Vec<EvidenceSource>) -> (b: bool)
    ensures
        b == v@.contains(EvidenceSource::Usn),
{
    let mut k: usize = 0;
    while k < v.len()
        invariant
            k <= v@.len(),
            forall|m: int| 0 <= m < k ==> v@[m] != EvidenceSource::Usn,
        decreases v@.len() - k,
    {
        if v[k] == EvidenceSource::Usn {
            return true;
        }
        k = k + 1;
    }
    false
}

/// Adds USN evidence to the candidates whose name or path a USN record names
/// (compared trimmed and ASCII case-insensitively); returns how many were
/// enriched.
pub fn apply_usn_evidence(candidates: &mut Vec<QuickScanCandidate>, usn_records: &[UsnRecord]) -> (n: usize)
    ensures
        candidate_views(final(candidates)@) == with_usn(candidate_views(old(candidates)@), views_of(usn_records@)),
        n == matched_count(
            candidate_views(old(candidates)@),
            views_of(usn_records@),
            old(candidates)@.len() as int,
        ),
{
    let ghost c = candidate_views(candidates@);
    let ghost recs = views_of(usn_records@);
    let nc = candidates.len();
    let mut keys: Vec<Vec<char>> = Vec::new();
    let mut j: usize = 0;
    while j < usn_records.len()
        invariant
            j <= usn_records@.len(),
            keys@.len() == j,
            forall|m: int| 0 <= m < j ==> keys@[m]@ == case_key(#[trigger] usn_records@[m].file_name@),
        decreases usn_records@.len() - j,
    {
        keys.push(case_key_of(&usn_records[j].file_name));
        j = j + 1;
    }
    // Per candidate: path key, and whether its name is known with its reasons.
    let mut path_keys: Vec<Option<Vec<char>>> = Vec::new();
    let mut name_reasons: Vec<u32> = Vec::new();
    let mut entries: Vec<bool> = Vec::new();
    let mut i: usize = 0;
    while i < nc
        invariant
            nc == candidates@.len() == c.len(),
            c == candidate_views(candidates@),
            recs == views_of(usn_records@),
            keys@.len() == usn_records@.len(),
            forall|m: int| 0 <= m < keys@.len() ==> keys@[m]@ == case_key(#[trigger] usn_records@[m].file_name@),
            i <= nc,
            path_keys@.len() == i,
            name_reasons@.len() == i,
            entries@.len() == i,
            forall|m: int|
                0 <= m < i ==> match #[trigger] path_keys@[m] {
                    Some(p) => c[m].reconstructed_path is Some && p@ == case_key(c[m].reconstructed_path->0),
                    None => c[m].reconstructed_path is None,
                },
            forall|m: int|
                0 <= m < i ==> #[trigger] name_reasons@[m] == match c[m].name {
                    Some(x) => name_reason(recs, case_key(x)),
                    None => 0,
                },
            forall|m: int| 0 <= m < i ==> #[trigger] entries@[m] == path_entry(recs, c[m]),
        decreases nc - i,
    {
        let d = &candidates[i];
        assert(c[i as int] == d@);
        let path_key = match &d.reconstructed_path {
            Some(p) => Some(case_key_of(p)),
            None => None,
        };
        let (known, reason) = match &d.name {
            Some(x) => {
                let k = case_key_of(x);
                reasons_for(&keys, usn_records, &k)
            },
            None => (false, 0),
        };
        path_keys.push(path_key);
        name_reasons.push(reason);
        entries.push(d.reconstructed_path.is_some() && d.name.is_some() && known);
        i = i + 1;
    }
    let mut enriched: usize = 0;
    let mut k: usize = 0;
    while k < nc
        invariant
            nc == candidates@.len() == c.len() == path_keys@.len() == name_reasons@.len() == entries@.len(),
            recs == views_of(usn_records@),
            k <= nc,
            forall|m: int|
                0 <= m < nc ==> match #[trigger] path_keys@[m] {
                    Some(p) => c[m].reconstructed_path is Some && p@ == case_key(c[m].reconstructed_path->0),
                    None => c[m].reconstructed_path is None,
                },
            forall|m: int|
                0 <= m < nc ==> #[trigger] name_reasons@[m] == match c[m].name {
                    Some(x) => name_reason(recs, case_key(x)),
                    None => 0,
                },
            forall|m: int| 0 <= m < nc ==> #[trigger] entries@[m] == path_entry(recs, c[m]),
            forall|m: int| 0 <= m < k ==> candidates@[m]@ == with_usn(c, recs)[m],
            forall|m: int| k <= m < nc ==> candidates@[m]@ == c[m],
            enriched == matched_count(c, recs, k as int),
        decreases nc - k,
    {
        // The reasons under this candidate's path key.
        let mut from_path: u32 = 0;
        match &path_keys[k] {
            Some(key) => {
                let mut q: usize = 0;
                while q < nc
                    invariant_except_break
                        path_reason_upto(c, recs, key@, q as int) is None,
                        from_path == 0,
                    invariant
                        nc == c.len() == path_keys@.len() == name_reasons@.len() == entries@.len(),
                        q <= nc,
                        forall|m: int|
                            0 <= m < nc ==> match #[trigger] path_keys@[m] {
                                Some(p) => c[m].reconstructed_path is Some && p@ == case_key(c[m].reconstructed_path->0),
                                None => c[m].reconstructed_path is None,
                            },
                        forall|m: int|
                            0 <= m < nc ==> #[trigger] name_reasons@[m] == match c[m].name {
                                Some(x) => name_reason(recs, case_key(x)),
                                None => 0,
                            },
                        forall|m: int| 0 <= m < nc ==> #[trigger] entries@[m] == path_entry(recs, c[m]),
                    ensures
                        match path_reason_upto(c, recs, key@, nc as int) {
                            Some(r) => from_path == r,
                            None => from_path == 0,
                        },
                    decreases nc - q,
                {
                    let hit = entries[q] && match &path_keys[q] {
                        Some(other) => chars_equal(other, key),
                        None => false,
                    };
                    if hit {
                        from_path = name_reasons[q];
                        proof {
                            assert(path_reason_upto(c, recs, key@, q + 1) == Some(from_path));
                            lemma_path_reason_stable(c, recs, key@, q + 1, nc as int);
                        }
                        break;
                    }
                    q = q + 1;
                }
            },
            None => {},
        }
        assert(from_path == match c[k as int].reconstructed_path {
            Some(p) => match path_reason_upto(c, recs, case_key(p), c.len() as int) {
                Some(r) => r,
                None => 0,
            },
            None => 0,
        });
        let matched = from_path | name_reasons[k];
        assert(matched == matched_reason(c, recs, c[k as int]));
        if matched != 0 {
            let mut d = clone_candidate(&candidates[k]);
            if !contains_usn(&d.evidence_sources) {
                d.evidence_sources.push(EvidenceSource::Usn);
            }
            let prior = match d.usn_reason_mask {
                Some(x) => x,
                None => 0,
            };
            d.usn_reason_mask = Some(prior | matched);
            candidates.set(k, d);
            proof {
                lemma_matched_count_bound(c, recs, k as int);
            }
            enriched = enriched + 1;
        }
        k = k + 1;
    }
    assert(candidate_views(candidates@) =~= with_usn(c, recs));
    enriched
}

proof fn lemma_path_reason_stable(c: Seq<CandidateView>, recs: Seq<UsnRecordView>, k: Seq<char>, n: int, m: int)
    requires
        n <= m,
        path_reason_upto(c, recs, k, n) is Some,
    ensures
        path_reason_upto(c, recs, k, m) == path_reason_upto(c, recs, k, n),
    decreases m - n,
{
    if n < m {
        lemma_path_reason_stable(c, recs, k, n, m - 1);
    }
}


proof fn lemma_path_reason_after_usn(c: Seq<CandidateView>, recs: Seq<UsnRecordView>, k: Seq<char>, n: int)
    requires
        0 <= n <= c.len(),
    ensures
        path_reason_upto(with_usn(c, recs), recs, k, n) == path_reason_upto(c, recs, k, n),
    decreases n,
{
    if n > 0 {
        lemma_path_reason_after_usn(c, recs, k, n - 1);
        let e = with_usn(c, recs);
        assert(e[n - 1].name == c[n - 1].name && e[n - 1].reconstructed_path == c[n - 1].reconstructed_path);
    }
}

/// `x` occurs at most once in `s`.
pub open spec fn at_most_once(s: Seq<EvidenceSource>, x: EvidenceSource) -> bool {
    forall|a: int, b: int| 0 <= a < b < s.len() ==> !(s[a] == x && s[b] == x)
}

proof fn lemma_matched_count_same(c: Seq<CandidateView>, e: Seq<CandidateView>, recs: Seq<UsnRecordView>, n: int)
    requires
        0 <= n <= c.len(),
        c.len() == e.len(),
        forall|i: int| 0 <= i < c.len() ==> #[trigger] matched_reason(e, recs, e[i]) == matched_reason(c, recs, c[i]),
    ensures
        matched_count(e, recs, n) == matched_count(c, recs, n),
    decreases n,
{
    if n > 0 {
        lemma_matched_count_same(c, e, recs, n - 1);
        assert(matched_reason(e, recs, e[n - 1]) == matched_reason(c, recs, c[n - 1]));
    }
}

proof fn lemma_matched_count_zero(c: Seq<CandidateView>, recs: Seq<UsnRecordView>, n: int)
    requires
        0 <= n <= c.len(),
        forall|i: int| 0 <= i < c.len() ==> #[trigger] matched_reason(c, recs, c[i]) == 0,
    ensures
        matched_count(c, recs, n) == 0,
    decreases n,
{
    if n > 0 {
        lemma_matched_count_zero(c, recs, n - 1);
        assert(matched_reason(c, recs, c[n - 1]) == 0);
    }
}

proof fn lemma_path_reason_without_records(c: Seq<CandidateView>, recs: Seq<UsnRecordView>, k: Seq<char>, n: int)
    requires
        recs.len() == 0,
    ensures
        match path_reason_upto(c, recs, k, n) {
            Some(r) => r == 0,
            None => true,
        },
    decreases n,
{
    if n > 0 {
        lemma_path_reason_without_records(c, recs, k, n - 1);
    }
}

/// Enriching candidates twice with the same USN records gives what enriching
/// them once gives, and the second pass matches as many candidates as the
/// first; only the evidence list and the reason mask of a candidate ever
/// change; without records or candidates nothing matches; a candidate
/// that lists USN evidence at most once still does afterwards.
pub proof fn law_usn_evidence_idempotent(c: Seq<CandidateView>, recs: Seq<UsnRecordView>)
    ensures
        with_usn(with_usn(c, recs), recs) == with_usn(c, recs),
        matched_count(with_usn(c, recs), recs, c.len() as int) == matched_count(c, recs, c.len() as int),
        recs.len() == 0 ==> with_usn(c, recs) == c && matched_count(c, recs, c.len() as int) == 0,
        c.len() == 0 ==> with_usn(c, recs).len() == 0 && matched_count(c, recs, 0) == 0,
        with_usn(c, recs).len() == c.len(),
        forall|i: int|
            0 <= i < c.len() ==> #[trigger] with_usn(c, recs)[i] == (CandidateView {
                evidence_sources: with_usn(c, recs)[i].evidence_sources,
                usn_reason_mask: with_usn(c, recs)[i].usn_reason_mask,
                ..c[i]
            }),
        forall|i: int|
            0 <= i < c.len() && at_most_once(c[i].evidence_sources, EvidenceSource::Usn) ==> at_most_once(
                #[trigger] with_usn(c, recs)[i].evidence_sources,
                EvidenceSource::Usn,
            ),
{
    let e = with_usn(c, recs);
    assert forall|i: int| 0 <= i < c.len() implies #[trigger] with_usn(e, recs)[i] == e[i] && matched_reason(
        e,
        recs,
        e[i],
    ) == matched_reason(c, recs, c[i]) by {
        lemma_path_reason_after_usn(c, recs, case_key(c[i].reconstructed_path->0), c.len() as int);
        let m = matched_reason(c, recs, c[i]);
        assert(matched_reason(e, recs, e[i]) == m);
        if m != 0 {
            let x = match c[i].usn_reason_mask {
                Some(x) => x,
                None => 0u32,
            };
            assert((x | m) | m == x | m) by (bit_vector);
            assert(e[i].evidence_sources.contains(EvidenceSource::Usn)) by {
                if !c[i].evidence_sources.contains(EvidenceSource::Usn) {
                    let s = c[i].evidence_sources.push(EvidenceSource::Usn);
                    assert(s[s.len() - 1] == EvidenceSource::Usn);
                }
            }
        }
    }
    assert(with_usn(e, recs) =~= e);
    assert forall|i: int| 0 <= i < c.len() implies #[trigger] matched_reason(e, recs, e[i]) == matched_reason(
        c,
        recs,
        c[i],
    ) by {
        assert(with_usn(e, recs)[i] == e[i]);
    }
    lemma_matched_count_same(c, e, recs, c.len() as int);
    if recs.len() == 0 {
        assert forall|i: int| 0 <= i < c.len() implies #[trigger] matched_reason(c, recs, c[i]) == 0 by {
            match c[i].reconstructed_path {
                Some(p) => lemma_path_reason_without_records(c, recs, case_key(p), c.len() as int),
                None => {},
            }
            assert(0u32 | 0u32 == 0u32) by (bit_vector);
        }
        lemma_matched_count_zero(c, recs, c.len() as int);
        assert(e =~= c);
    }
    assert forall|i: int|
        0 <= i < c.len() && at_most_once(c[i].evidence_sources, EvidenceSource::Usn) implies at_most_once(
        #[trigger] e[i].evidence_sources,
        EvidenceSource::Usn,
    ) by {
        let s = c[i].evidence_sources;
        if matched_reason(c, recs, c[i]) != 0 && !s.contains(EvidenceSource::Usn) {
            let t = s.push(EvidenceSource::Usn);
            assert forall|a: int, b: int| 0 <= a < b < t.len() implies !(t[a] == EvidenceSource::Usn
                && t[b] == EvidenceSource::Usn) by {
                if b < s.len() {
                    assert(t[a] == s[a] && t[b] == s[b]);
                } else {
                    assert(t[a] == s[a]);
                }
            }
        }
    }
}

// ---------------------------------------------------------------------------
// Session bookkeeping
// ---------------------------------------------------------------------------

/// A UTC instant: whole seconds since the Unix epoch and the nanoseconds
/// within that second.
#[derive(Debug, Clone, Copy, PartialEq, Eq, Structural)]
pub struct UtcInstant {
    pub seconds: i64,
    pub nanos: u32,
}

/// A session's state and when it last changed.
#[derive(Debug, Clone)]
pub struct SessionRecord {
    pub state: ScanSessionState,
    pub updated_at: UtcInstant,
}

/// A session state with its strings as characters.
pub struct SessionStateView {
    pub session_id: Seq<char>,
    pub checkpoint: Seq<char>,
    pub canceled: bool,
}

/// The view of a session state.
pub open spec fn state_view(s: ScanSessionState) -> SessionStateView {
    SessionStateView { session_id: s.session_id@, checkpoint: s.checkpoint@, canceled: s.canceled }
}

/// A session record as a view.
pub struct SessionRecordView {
    pub state: SessionStateView,
    pub updated_at: UtcInstant,
}

impl View for SessionRecord {
    type V = SessionRecordView;

    open spec fn view(&self) -> SessionRecordView {
        SessionRecordView { state: state_view(self.state), updated_at: self.updated_at }
    }
}

/// The sessions `s` hold, by id; a later record of an id wins.
pub open spec fn session_map(s: Seq<SessionRecord>) -> Map<Seq<char>, SessionRecordView>
    decreases s.len(),
{
    if s.len() == 0 {
        Map::empty()
    } else {
        session_map(s.drop_last()).insert(s.last().state.session_id@, s.last()@)
    }
}

/// Keeps the state of each scan session by its id.
pub struct SessionOrchestrator {
    sessions: Vec<SessionRecord>,
}

impl View for SessionOrchestrator {
    type V = Map<Seq<char>, SessionRecordView>;

    closed spec fn view(&self) -> Map<Seq<char>, SessionRecordView> {
        session_map(self.sessions@)
    }
}

impl Default for SessionOrchestrator {
    fn default() -> (o: Self)
        ensures
            o@ == Map::<Seq<char>, SessionRecordView>::empty(),
    {
        SessionOrchestrator { sessions: Vec::new() }
    }
}

/// The sessions after session `id` moved to checkpoint `cp` at `t`.
pub open spec fn with_checkpoint(m: Map<Seq<char>, SessionRecordView>, id: Seq<char>, cp: Seq<char>, t: UtcInstant) -> Map<
    Seq<char>,
    SessionRecordView,
> {
    m.insert(
        id,
        SessionRecordView { state: SessionStateView { checkpoint: cp, ..m[id].state }, updated_at: t },
    )
}

/// The sessions after session `id` was canceled at `t`.
pub open spec fn with_cancel(m: Map<Seq<char>, SessionRecordView>, id: Seq<char>, t: UtcInstant) -> Map<
    Seq<char>,
    SessionRecordView,
> {
    m.insert(id, SessionRecordView { state: SessionStateView { canceled: true, ..m[id].state }, updated_at: t })
}

/// The index of the last record of `s[..n]` with id `id`.
spec fn last_index(s: Seq<SessionRecord>, id: Seq<char>, n: int) -> Option<int>
    decreases n,
{
    if n <= 0 {
        None
    } else if s[n - 1].state.session_id@ == id {
        Some(n - 1)
    } else {
        last_index(s, id, n - 1)
    }
}

proof fn lemma_last_index(s: Seq<SessionRecord>, id: Seq<char>, n: int)
    requires
        0 <= n <= s.len(),
    ensures
        last_index(s, id, n) matches Some(j) ==> 0 <= j < n && s[j].state.session_id@ == id,
        last_index(s, id, n) matches Some(j) ==> session_map(s.take(n)).contains_key(id),
        last_index(s, id, n) matches Some(j) ==> session_map(s.take(n))[id] == s[j]@,
        last_index(s, id, n) matches Some(j) ==> forall|k: int| j < k < n ==> s[k].state.session_id@ != id,
        last_index(s, id, n) is None ==> !session_map(s.take(n)).contains_key(id),
    decreases n,
{
    if n > 0 {
        lemma_last_index(s, id, n - 1);
        assert(s.take(n).drop_last() =~= s.take(n - 1));
    }
}

/// The sessions of `s` by id, when `n` is its length.
proof fn lemma_last_index_full(s: Seq<SessionRecord>, id: Seq<char>)
    ensures
        last_index(s, id, s.len() as int) matches Some(j) ==> 0 <= j < s.len() && s[j].state.session_id@ == id
            && session_map(s).contains_key(id) && session_map(s)[id] == s[j]@ && forall|k: int|
            j < k < s.len() ==> s[k].state.session_id@ != id,
        last_index(s, id, s.len() as int) is None ==> !session_map(s).contains_key(id),
{
    lemma_last_index(s, id, s.len() as int);
    assert(s.take(s.len() as int) =~= s);
}

proof fn lemma_session_map_update(s: Seq<SessionRecord>, j: int, r: SessionRecord, n: int)
    requires
        0 <= j < n <= s.len(),
        r.state.session_id@ == s[j].state.session_id@,
        forall|k: int| j < k < s.len() ==> s[k].state.session_id@ != s[j].state.session_id@,
    ensures
        session_map(s.update(j, r).take(n)) == session_map(s.take(n)).insert(r.state.session_id@, r@),
    decreases n,
{
    let t = s.update(j, r);
    assert(t.take(n).drop_last() =~= t.take(n - 1));
    assert(s.take(n).drop_last() =~= s.take(n - 1));
    if n - 1 > j {
        lemma_session_map_update(s, j, r, n - 1);
        assert(session_map(t.take(n)) =~= session_map(s.take(n)).insert(r.state.session_id@, r@));
    } else {
        assert(t.take(n - 1) =~= s.take(n - 1));
        assert(session_map(t.take(n)) =~= session_map(s.take(n)).insert(r.state.session_id@, r@));
    }
}

fn find_session(sessions: &Vec<SessionRecord>, session_id: &str) -> (r: Option<usize>)
    ensures
        r matches Some(j) ==> last_index(sessions@, session_id@, sessions@.len() as int) == Some(j as int),
        r is None ==> last_index(sessions@, session_id@, sessions@.len() as int) is None,
{
    let key = chars_of(session_id);
    let mut n = sessions.len();
    while n > 0
        invariant
            n <= sessions@.len(),
            last_index(sessions@, session_id@, sessions@.len() as int) == last_index(sessions@, session_id@, n as int),
            key@ == session_id@,
        decreases n,
    {
        let j = n - 1;
        if chars_equal(&chars_of(sessions[j].state.session_id.as_str()), &key) {
            return Some(j);
        }
        n = j;
    }
    None
}

fn clone_state(s: &ScanSessionState) -> (r: ScanSessionState)
    ensures
        state_view(r) == state_view(*s),
{
    ScanSessionState { session_id: s.session_id.clone(), checkpoint: s.checkpoint.clone(), canceled: s.canceled }
}

fn clone_record(r: &SessionRecord) -> (c: SessionRecord)
    ensures
        c@ == r@,
        c.state.session_id@ == r.state.session_id@,
{
    SessionRecord { state: clone_state(&r.state), updated_at: r.updated_at }
}

impl SessionOrchestrator {
    /// Starts (or restarts) session `session_id` at checkpoint
    /// `initialized`, stamped with the caller's clock reading `now`, and
    /// returns its record.
    pub fn start_session(&mut self, session_id: &str, now: UtcInstant) -> (r: SessionRecord)
        ensures
            r.updated_at == now,
            r.state.session_id@ == session_id@,
            r.state.checkpoint@ == "initialized"@,
            !r.state.canceled,
            final(self)@ == old(self)@.insert(session_id@, r@),
    {
        let record = SessionRecord { state: ScanSessionState::new(session_id, "initialized"), updated_at: now };
        let stored = clone_record(&record);
        let ghost s = self.sessions@;
        proof {
            lemma_last_index_full(s, session_id@);
        }
        match find_session(&self.sessions, session_id) {
            Some(j) => {
                self.sessions.set(j, stored);
                proof {
                    lemma_session_map_update(s, j as int, stored, s.len() as int);
                    assert(s.update(j as int, stored).take(s.len() as int) =~= s.update(j as int, stored));
                    assert(s.take(s.len() as int) =~= s);
                }
            },
            None => {
                self.sessions.push(stored);
                assert(self.sessions@.drop_last() =~= s);
            },
        }
        record
    }

    /// Moves session `session_id` to `checkpoint`, stamped with the caller's
    /// clock reading `now`; `NotFound` when there is no such session.
    pub fn checkpoint(&mut self, session_id: &str, checkpoint: &str, now: UtcInstant) -> (r: Result<(), SessionError>)
        ensures
            old(self)@.contains_key(session_id@) ==> r is Ok && final(self)@ == with_checkpoint(
                old(self)@,
                session_id@,
                checkpoint@,
                now,
            ),
            !old(self)@.contains_key(session_id@) ==> (r matches Err(SessionError::NotFound(s)) && s@ == session_id@)
                && final(self)@ == old(self)@,
    {
        let ghost s = self.sessions@;
        proof {
            lemma_last_index_full(s, session_id@);
        }
        match find_session(&self.sessions, session_id) {
            Some(j) => {
                let mut updated = clone_record(&self.sessions[j]);
                updated.state.checkpoint = checkpoint.to_owned();
                updated.updated_at = now;
                let ghost t = updated.updated_at;
                self.sessions.set(j, updated);
                proof {
                    lemma_session_map_update(s, j as int, updated, s.len() as int);
                    assert(s.update(j as int, updated).take(s.len() as int) =~= s.update(j as int, updated));
                    assert(s.take(s.len() as int) =~= s);
                    assert(self@ == with_checkpoint(old(self)@, session_id@, checkpoint@, t));
                }
                Ok(())
            },
            None => Err(SessionError::NotFound(session_id.to_owned())),
        }
    }

    /// Marks session `session_id` canceled, stamped with the caller's clock
    /// reading `now`; `NotFound` when there is no such session.
    pub fn cancel(&mut self, session_id: &str, now: UtcInstant) -> (r: Result<(), SessionError>)
        ensures
            old(self)@.contains_key(session_id@) ==> r is Ok && final(self)@ == with_cancel(
                old(self)@,
                session_id@,
                now,
            ),
            !old(self)@.contains_key(session_id@) ==> (r matches Err(SessionError::NotFound(s)) && s@ == session_id@)
                && final(self)@ == old(self)@,
    {
        let ghost s = self.sessions@;
        proof {
            lemma_last_index_full(s, session_id@);
        }
        match find_session(&self.sessions, session_id) {
            Some(j) => {
                let mut updated = clone_record(&self.sessions[j]);
                updated.state.canceled = true;
                updated.updated_at = now;
                let ghost t = updated.updated_at;
                self.sessions.set(j, updated);
                proof {
                    lemma_session_map_update(s, j as int, updated, s.len() as int);
                    assert(s.update(j as int, updated).take(s.len() as int) =~= s.update(j as int, updated));
                    assert(s.take(s.len() as int) =~= s);
                    assert(self@ == with_cancel(old(self)@, session_id@, t));
                }
                Ok(())
            },
            None => Err(SessionError::NotFound(session_id.to_owned())),
        }
    }

    /// The record of session `session_id`, if there is one.
    pub fn get(&self, session_id: &str) -> (r: Option<&SessionRecord>)
        ensures
            match r {
                Some(rec) => self@.contains_key(session_id@) && rec@ == self@[session_id@],
                None => !self@.contains_key(session_id@),
            },
    {
        let ghost s = self.sessions@;
        proof {
            lemma_last_index_full(s, session_id@);
        }
        match find_session(&self.sessions, session_id) {
            Some(j) => Some(&self.sessions[j]),
            None => None,
        }
    }
}

/// A checkpoint is what the session then reads back, and no other session
/// changes.
pub proof fn law_checkpoint_read_back(
    m: Map<Seq<char>, SessionRecordView>,
    id: Seq<char>,
    cp: Seq<char>,
    t: UtcInstant,
    other: Seq<char>,
)
    requires
        m.contains_key(id),
    ensures
        with_checkpoint(m, id, cp, t).contains_key(id),
        with_checkpoint(m, id, cp, t)[id].state.checkpoint == cp,
        with_checkpoint(m, id, cp, t)[id].state.session_id == m[id].state.session_id,
        with_checkpoint(m, id, cp, t)[id].state.canceled == m[id].state.canceled,
        other != id ==> with_checkpoint(m, id, cp, t).contains_key(other) == m.contains_key(other)
            && with_checkpoint(m, id, cp, t)[other] == m[other],
{
}

/// Canceling keeps the session's checkpoint and leaves it canceled; no
/// other session changes.
pub proof fn law_cancel_keeps_checkpoint(
    m: Map<Seq<char>, SessionRecordView>,
    id: Seq<char>,
    t: UtcInstant,
    other: Seq<char>,
)
    requires
        m.contains_key(id),
    ensures
        with_cancel(m, id, t)[id].state.canceled,
        with_cancel(m, id, t)[id].state.checkpoint == m[id].state.checkpoint,
        other != id ==> with_cancel(m, id, t).contains_key(other) == m.contains_key(other) && with_cancel(m, id, t)[other]
            == m[other],
{
}

} // verus!
