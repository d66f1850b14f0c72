//! Signature carving: the signature pack, carving plans, the scan that finds
//! the byte spans each signature claims, and the candidates built from the
//! spans that a format validator accepts.
use vstd::prelude::*;
use crate::bytes::{be32, bytes_match_at, le32, read_u32_be, read_u32_le};
use crate::records::{normalize_max_scan_bytes, DEFAULT_MAX_SCAN_BYTES};
use crate::scoring::{final_score, score_candidate_with_reasons, score_reasons, tier_of};
use crate::text::{chars_equal, chars_of, hex_min, hex_min_chars, push_chars, push_str, string_from_chars, zero_pad};
use crate::types::{ConfidenceTier, EvidenceSource, ModuleDescriptor, RecoveryCandidate, RecoverySourceKind};

verus! {

/// Identity of the carving module.
pub fn descriptor() -> (d: ModuleDescriptor)
    ensures
        d.name == "fr-carving",
        d.purpose == "Selective signature-based carving with validator-driven false-positive reduction.",
        d.source_kind == RecoverySourceKind::Volume,
{
    ModuleDescriptor {
        name: "fr-carving",
        purpose: "Selective signature-based carving with validator-driven false-positive reduction.",
        source_kind: RecoverySourceKind::Volume,
    }
}

pub const SIGNATURE_PACK_NAME: &'static str = "core-signatures";
pub const SIGNATURE_PACK_VERSION: &'static str = "2026.04-b1";

/// A family of carvable formats.
#[derive(Debug, Clone, Copy, PartialEq, Eq, Structural, Hash)]
pub enum CarvingFamily {
    Images,
    Documents,
    Archives,
    Office,
    Media,
}

pub const CARVE_FAMILY_IMAGES: u32 = 0x0001;
pub const CARVE_FAMILY_DOCUMENTS: u32 = 0x0002;
pub const CARVE_FAMILY_ARCHIVES: u32 = 0x0004;
pub const CARVE_FAMILY_OFFICE: u32 = 0x0008;
pub const CARVE_FAMILY_MEDIA: u32 = 0x0010;

/// The flag of a family.
pub open spec fn family_flag(f: CarvingFamily) -> u32 {
    match f {
        CarvingFamily::Images => CARVE_FAMILY_IMAGES,
        CarvingFamily::Documents => CARVE_FAMILY_DOCUMENTS,
        CarvingFamily::Archives => CARVE_FAMILY_ARCHIVES,
        CarvingFamily::Office => CARVE_FAMILY_OFFICE,
        CarvingFamily::Media => CARVE_FAMILY_MEDIA,
    }
}

/// The family's flag.
pub fn carve_family_flag(family: CarvingFamily) -> (f: u32)
    ensures
        f == family_flag(family),
{
    match family {
        CarvingFamily::Images => CARVE_FAMILY_IMAGES,
        CarvingFamily::Documents => CARVE_FAMILY_DOCUMENTS,
        CarvingFamily::Archives => CARVE_FAMILY_ARCHIVES,
        CarvingFamily::Office => CARVE_FAMILY_OFFICE,
        CarvingFamily::Media => CARVE_FAMILY_MEDIA,
    }
}

/// The family that a default file extension belongs to.
pub open spec fn extension_family(ext: Seq<char>) -> Option<CarvingFamily> {
    if ext == "jpg"@ || ext == "png"@ || ext == "gif"@ || ext == "bmp"@ || ext == "tiff"@ || ext == "webp"@ {
        Some(CarvingFamily::Images)
    } else if ext == "pdf"@ || ext == "txt"@ || ext == "rtf"@ {
        Some(CarvingFamily::Documents)
    } else if ext == "zip"@ || ext == "gz"@ || ext == "7z"@ || ext == "rar"@ {
        Some(CarvingFamily::Archives)
    } else if ext == "docx"@ || ext == "xlsx"@ || ext == "pptx"@ {
        Some(CarvingFamily::Office)
    } else if ext == "mp4"@ || ext == "avi"@ || ext == "mid"@ || ext == "ogg"@ || ext == "flac"@ || ext == "mp3"@
        || ext == "wav"@ {
        Some(CarvingFamily::Media)
    } else {
        None
    }
}

fn is_one_of(ext: &Vec<char>, options: &[&str]) -> (b: bool)
    ensures
        b == exists|k: int| 0 <= k < options@.len() && ext@ == options@[k]@,
{
    let mut k: usize = 0;
    while k < options.len()
        invariant
            k <= options@.len(),
            forall|m: int| 0 <= m < k ==> ext@ != options@[m]@,
        decreases options@.len() - k,
    {
        if chars_equal(ext, &chars_of(options[k])) {
            return true;
        }
        k = k + 1;
    }
    false
}

/// The family flag of a default file extension, 0 for an unknown one.
pub fn carve_family_flag_for_extension(extension: &str) -> (f: u32)
    ensures
        f == match extension_family(extension@) {
            Some(family) => family_flag(family),
            None => 0,
        },
{
    let ext = chars_of(extension);
    let images = ["jpg", "png", "gif", "bmp", "tiff", "webp"];
    let documents = ["pdf", "txt", "rtf"];
    let archives = ["zip", "gz", "7z", "rar"];
    let office = ["docx", "xlsx", "pptx"];
    let media = ["mp4", "avi", "mid", "ogg", "flac", "mp3", "wav"];
    if is_one_of(&ext, &images) {
        assert(images@[0]@ == "jpg"@ && images@[1]@ == "png"@ && images@[2]@ == "gif"@);
        CARVE_FAMILY_IMAGES
    } else if is_one_of(&ext, &documents) {
        CARVE_FAMILY_DOCUMENTS
    } else if is_one_of(&ext, &archives) {
        CARVE_FAMILY_ARCHIVES
    } else if is_one_of(&ext, &office) {
        CARVE_FAMILY_OFFICE
    } else if is_one_of(&ext, &media) {
        CARVE_FAMILY_MEDIA
    } else {
        0
    }
}


// ---------------------------------------------------------------------------
// Formats and plans
// ---------------------------------------------------------------------------

/// A file format that the signature pack can carve.
#[derive(Debug, Clone, Copy, PartialEq, Eq, Structural, Hash)]
pub enum FileFormat {
    Jpeg,
    Png,
    Gif,
    Bmp,
    Tiff,
    Webp,
    Pdf,
    Utf8Text,
    Zip,
    Gzip,
    SevenZip,
    Rar,
    Docx,
    Xlsx,
    Pptx,
    Mp4,
    Ogg,
    Flac,
    Mp3,
    Wav,
}

/// The formats of the signature pack, in the pack's order.
pub open spec fn pack_formats() -> Seq<FileFormat> {
    seq![
        FileFormat::Jpeg,
        FileFormat::Png,
        FileFormat::Gif,
        FileFormat::Bmp,
        FileFormat::Tiff,
        FileFormat::Webp,
        FileFormat::Pdf,
        FileFormat::Utf8Text,
        FileFormat::Zip,
        FileFormat::Gzip,
        FileFormat::SevenZip,
        FileFormat::Rar,
        FileFormat::Docx,
        FileFormat::Xlsx,
        FileFormat::Pptx,
        FileFormat::Mp4,
        FileFormat::Ogg,
        FileFormat::Flac,
        FileFormat::Mp3,
        FileFormat::Wav,
    ]
}

/// The formats of the signature pack.
pub fn signature_pack_formats() -> (r: Vec<FileFormat>)
    ensures
        r@ == pack_formats(),
{
    let r = vec![
        FileFormat::Jpeg,
        FileFormat::Png,
        FileFormat::Gif,
        FileFormat::Bmp,
        FileFormat::Tiff,
        FileFormat::Webp,
        FileFormat::Pdf,
        FileFormat::Utf8Text,
        FileFormat::Zip,
        FileFormat::Gzip,
        FileFormat::SevenZip,
        FileFormat::Rar,
        FileFormat::Docx,
        FileFormat::Xlsx,
        FileFormat::Pptx,
        FileFormat::Mp4,
        FileFormat::Ogg,
        FileFormat::Flac,
        FileFormat::Mp3,
        FileFormat::Wav,
    ];
    assert(r@ =~= pack_formats());
    r
}

/// The family a format belongs to.
pub open spec fn format_family(f: FileFormat) -> CarvingFamily {
    match f {
        FileFormat::Jpeg | FileFormat::Png | FileFormat::Gif | FileFormat::Bmp | FileFormat::Tiff
        | FileFormat::Webp => CarvingFamily::Images,
        FileFormat::Pdf | FileFormat::Utf8Text => CarvingFamily::Documents,
        FileFormat::Zip | FileFormat::Gzip | FileFormat::SevenZip | FileFormat::Rar => CarvingFamily::Archives,
        FileFormat::Docx | FileFormat::Xlsx | FileFormat::Pptx => CarvingFamily::Office,
        FileFormat::Mp3 | FileFormat::Wav | FileFormat::Mp4 | FileFormat::Ogg | FileFormat::Flac => CarvingFamily::Media,
    }
}

/// The family of `format`.
pub fn family_for_format(format: FileFormat) -> (f: CarvingFamily)
    ensures
        f == format_family(format),
{
    match format {
        FileFormat::Jpeg | FileFormat::Png | FileFormat::Gif | FileFormat::Bmp | FileFormat::Tiff
        | FileFormat::Webp => CarvingFamily::Images,
        FileFormat::Pdf | FileFormat::Utf8Text => CarvingFamily::Documents,
        FileFormat::Zip | FileFormat::Gzip | FileFormat::SevenZip | FileFormat::Rar => CarvingFamily::Archives,
        FileFormat::Docx | FileFormat::Xlsx | FileFormat::Pptx => CarvingFamily::Office,
        FileFormat::Mp3 | FileFormat::Wav | FileFormat::Mp4 | FileFormat::Ogg | FileFormat::Flac => CarvingFamily::Media,
    }
}

/// Slot of a family in a plan.
pub open spec fn family_slot(f: CarvingFamily) -> int {
    match f {
        CarvingFamily::Images => 0,
        CarvingFamily::Documents => 1,
        CarvingFamily::Archives => 2,
        CarvingFamily::Office => 3,
        CarvingFamily::Media => 4,
    }
}

fn family_slot_of(f: CarvingFamily) -> (i: usize)
    ensures
        i == family_slot(f),
{
    match f {
        CarvingFamily::Images => 0,
        CarvingFamily::Documents => 1,
        CarvingFamily::Archives => 2,
        CarvingFamily::Office => 3,
        CarvingFamily::Media => 4,
    }
}

/// Slot of a format in a plan: its place in the signature pack.
pub open spec fn format_slot(f: FileFormat) -> int {
    match f {
        FileFormat::Jpeg => 0,
        FileFormat::Png => 1,
        FileFormat::Gif => 2,
        FileFormat::Bmp => 3,
        FileFormat::Tiff => 4,
        FileFormat::Webp => 5,
        FileFormat::Pdf => 6,
        FileFormat::Utf8Text => 7,
        FileFormat::Zip => 8,
        FileFormat::Gzip => 9,
        FileFormat::SevenZip => 10,
        FileFormat::Rar => 11,
        FileFormat::Docx => 12,
        FileFormat::Xlsx => 13,
        FileFormat::Pptx => 14,
        FileFormat::Mp4 => 15,
        FileFormat::Ogg => 16,
        FileFormat::Flac => 17,
        FileFormat::Mp3 => 18,
        FileFormat::Wav => 19,
    }
}

/// The format in slot `i` (0 to 19).
pub open spec fn format_at_slot(i: int) -> FileFormat {
    if i <= 0 {
        FileFormat::Jpeg
    } else if i == 1 {
        FileFormat::Png
    } else if i == 2 {
        FileFormat::Gif
    } else if i == 3 {
        FileFormat::Bmp
    } else if i == 4 {
        FileFormat::Tiff
    } else if i == 5 {
        FileFormat::Webp
    } else if i == 6 {
        FileFormat::Pdf
    } else if i == 7 {
        FileFormat::Utf8Text
    } else if i == 8 {
        FileFormat::Zip
    } else if i == 9 {
        FileFormat::Gzip
    } else if i == 10 {
        FileFormat::SevenZip
    } else if i == 11 {
        FileFormat::Rar
    } else if i == 12 {
        FileFormat::Docx
    } else if i == 13 {
        FileFormat::Xlsx
    } else if i == 14 {
        FileFormat::Pptx
    } else if i == 15 {
        FileFormat::Mp4
    } else if i == 16 {
        FileFormat::Ogg
    } else if i == 17 {
        FileFormat::Flac
    } else if i == 18 {
        FileFormat::Mp3
    } else {
        FileFormat::Wav
    }
}

fn format_slot_of(f: FileFormat) -> (i: usize)
    ensures
        i == format_slot(f),
{
    match f {
        FileFormat::Jpeg => 0,
        FileFormat::Png => 1,
        FileFormat::Gif => 2,
        FileFormat::Bmp => 3,
        FileFormat::Tiff => 4,
        FileFormat::Webp => 5,
        FileFormat::Pdf => 6,
        FileFormat::Utf8Text => 7,
        FileFormat::Zip => 8,
        FileFormat::Gzip => 9,
        FileFormat::SevenZip => 10,
        FileFormat::Rar => 11,
        FileFormat::Docx => 12,
        FileFormat::Xlsx => 13,
        FileFormat::Pptx => 14,
        FileFormat::Mp4 => 15,
        FileFormat::Ogg => 16,
        FileFormat::Flac => 17,
        FileFormat::Mp3 => 18,
        FileFormat::Wav => 19,
    }
}

/// Which families and formats a carving pass looks for, and how many bytes
/// it scans.
#[derive(Debug, Clone)]
pub struct CarvingPlan {
    enabled_families: [bool; 5],
    enabled_formats: [bool; 20],
    pub max_scan_bytes: usize,
}

/// A carving plan as sets.
pub struct CarvingPlanView {
    pub families: Set<CarvingFamily>,
    pub formats: Set<FileFormat>,
    pub max_scan_bytes: usize,
}

impl View for CarvingPlan {
    type V = CarvingPlanView;

    closed spec fn view(&self) -> CarvingPlanView {
        CarvingPlanView {
            families: Set::new(|f: CarvingFamily| self.enabled_families@[family_slot(f)]),
            formats: Set::new(|f: FileFormat| self.enabled_formats@[format_slot(f)]),
            max_scan_bytes: self.max_scan_bytes,
        }
    }
}

/// Whether a plan carves `f`: the listed formats when some are listed,
/// else the formats of the enabled families.
pub open spec fn plan_enables(p: CarvingPlanView, f: FileFormat) -> bool {
    if p.formats != Set::<FileFormat>::empty() {
        p.formats.contains(f)
    } else {
        p.families.contains(format_family(f))
    }
}

/// 64 MiB.
pub const DEFAULT_CARVE_SCAN_BYTES: usize = 67108864;

impl Default for CarvingPlan {
    /// Images and documents, no single formats, 64 MiB.
    fn default() -> (p: Self)
        ensures
            p@.families == set![CarvingFamily::Images, CarvingFamily::Documents],
            p@.formats == Set::<FileFormat>::empty(),
            p@.max_scan_bytes == DEFAULT_CARVE_SCAN_BYTES,
    {
        let p = CarvingPlan {
            enabled_families: [true, true, false, false, false],
            enabled_formats: [false; 20],
            max_scan_bytes: DEFAULT_CARVE_SCAN_BYTES,
        };
        assert(p@.families =~= set![CarvingFamily::Images, CarvingFamily::Documents]);
        assert(p@.formats =~= Set::<FileFormat>::empty());
        p
    }
}

impl CarvingPlan {
    /// The plan with `family` enabled too.
    pub fn with_family(self, family: CarvingFamily) -> (r: Self)
        ensures
            r@.families == self@.families.insert(family),
            r@.formats == self@.formats,
            r@.max_scan_bytes == self@.max_scan_bytes,
    {
        let mut p = self;
        let i = family_slot_of(family);
        p.enabled_families[i] = true;
        assert(p@.families =~= self@.families.insert(family));
        assert(p@.formats =~= self@.formats);
        p
    }

    /// The plan with `family` disabled.
    pub fn without_family(self, family: CarvingFamily) -> (r: Self)
        ensures
            r@.families == self@.families.remove(family),
            r@.formats == self@.formats,
            r@.max_scan_bytes == self@.max_scan_bytes,
    {
        let mut p = self;
        let i = family_slot_of(family);
        p.enabled_families[i] = false;
        assert(p@.families =~= self@.families.remove(family));
        assert(p@.formats =~= self@.formats);
        p
    }

    /// The plan with `format` listed.
    pub fn with_format(self, format: FileFormat) -> (r: Self)
        ensures
            r@.families == self@.families,
            r@.formats == self@.formats.insert(format),
            r@.max_scan_bytes == self@.max_scan_bytes,
    {
        let mut p = self;
        let i = format_slot_of(format);
        p.enabled_formats[i] = true;
        assert(p@.families =~= self@.families);
        assert(p@.formats =~= self@.formats.insert(format));
        p
    }

    /// The plan scanning `max_scan_bytes` bytes, at least one.
    pub fn with_max_scan_bytes(self, max_scan_bytes: usize) -> (r: Self)
        ensures
            r@.families == self@.families,
            r@.formats == self@.formats,
            r@.max_scan_bytes == if max_scan_bytes < 1 { 1 } else { max_scan_bytes },
    {
        let mut p = self;
        p.max_scan_bytes = if max_scan_bytes < 1 { 1 } else { max_scan_bytes };
        assert(p@.families =~= self@.families);
        assert(p@.formats =~= self@.formats);
        p
    }

    /// Whether the plan carves `format`.
    pub fn format_enabled(&self, format: FileFormat) -> (b: bool)
        ensures
            b == plan_enables(self@, format),
    {
        let mut any = false;
        let mut k: usize = 0;
        while k < 20
            invariant
                k <= 20,
                self.enabled_formats@.len() == 20,
                any == exists|m: int| 0 <= m < k && self.enabled_formats@[m],
            decreases 20 - k,
        {
            if self.enabled_formats[k] {
                any = true;
            }
            k = k + 1;
        }
        proof {
            if any {
                let m = choose|m: int| 0 <= m < 20 && self.enabled_formats@[m];
                let f = format_at_slot(m);
                assert(format_slot(f) == m);
                assert(self@.formats.contains(f));
            } else {
                assert(self@.formats =~= Set::<FileFormat>::empty());
            }
        }
        if any {
            self.enabled_formats[format_slot_of(format)]
        } else {
            self.enabled_families[family_slot_of(family_for_format(format))]
        }
    }
}

/// The plan for a family mask: the default families when the mask is 0,
/// else exactly the families whose flags are set; the scan window is
/// normalized as for any scan.
pub open spec fn plan_for_flags(flags: u32) -> Set<CarvingFamily> {
    if flags == 0 {
        set![CarvingFamily::Images, CarvingFamily::Documents]
    } else {
        Set::new(|f: CarvingFamily| flags & family_flag(f) != 0)
    }
}

/// The plan for family mask `family_flags` and scan window `max_scan_bytes`.
pub fn build_carving_plan(family_flags: u32, max_scan_bytes: u64) -> (p: CarvingPlan)
    ensures
        p@.families == plan_for_flags(family_flags),
        p@.formats == Set::<FileFormat>::empty(),
        p@.max_scan_bytes == if normalize_max_scan_bytes_spec(max_scan_bytes) < 1 {
            1
        } else {
            normalize_max_scan_bytes_spec(max_scan_bytes)
        },
{
    let window = normalize_max_scan_bytes(max_scan_bytes) as usize;
    if family_flags == 0 {
        return CarvingPlan::default().with_max_scan_bytes(window);
    }
    let mut plan = CarvingPlan::default().without_family(CarvingFamily::Images).without_family(
        CarvingFamily::Documents,
    );
    assert(plan@.families =~= Set::<CarvingFamily>::empty());
    if family_flags & CARVE_FAMILY_IMAGES != 0 {
        plan = plan.with_family(CarvingFamily::Images);
    }
    if family_flags & CARVE_FAMILY_DOCUMENTS != 0 {
        plan = plan.with_family(CarvingFamily::Documents);
    }
    if family_flags & CARVE_FAMILY_ARCHIVES != 0 {
        plan = plan.with_family(CarvingFamily::Archives);
    }
    if family_flags & CARVE_FAMILY_OFFICE != 0 {
        plan = plan.with_family(CarvingFamily::Office);
    }
    if family_flags & CARVE_FAMILY_MEDIA != 0 {
        plan = plan.with_family(CarvingFamily::Media);
    }
    assert(plan@.families =~= plan_for_flags(family_flags));
    plan.with_max_scan_bytes(window)
}

/// The window `normalize_max_scan_bytes` gives.
pub open spec fn normalize_max_scan_bytes_spec(m: u64) -> usize {
    if m == 0 {
        DEFAULT_MAX_SCAN_BYTES as usize
    } else if m > usize::MAX {
        usize::MAX
    } else {
        m as usize
    }
}

// ---------------------------------------------------------------------------
// Signature search
// ---------------------------------------------------------------------------

/// `n` occurs in `h` at `i`.
pub open spec fn matches_at(h: Seq<u8>, n: Seq<u8>, i: int) -> bool {
    0 <= i && i + n.len() <= h.len() && h.subrange(i, i + n.len()) == n
}

/// The positions below `k` where `n` occurs in `h`, ascending.
pub open spec fn occurrences_below(h: Seq<u8>, n: Seq<u8>, k: int) -> Seq<usize>
    decreases k,
{
    if k <= 0 {
        Seq::empty()
    } else if matches_at(h, n, k - 1) {
        occurrences_below(h, n, k - 1).push((k - 1) as usize)
    } else {
        occurrences_below(h, n, k - 1)
    }
}

/// Every position where a non-empty `n` occurs in `h`, ascending.
pub open spec fn occurrences(h: Seq<u8>, n: Seq<u8>) -> Seq<usize> {
    if n.len() == 0 || h.len() < n.len() {
        Seq::empty()
    } else {
        occurrences_below(h, n, h.len() - n.len() + 1)
    }
}

/// The first position at or after `i` where `n` occurs in `h`.
pub open spec fn first_match_from(h: Seq<u8>, n: Seq<u8>, i: int) -> Option<int>
    decreases h.len() + 1 - i,
{
    if i < 0 || i + n.len() > h.len() {
        None
    } else if matches_at(h, n, i) {
        Some(i)
    } else {
        first_match_from(h, n, i + 1)
    }
}

/// The first position where a non-empty `n` occurs in `h`.
pub open spec fn first_occurrence(h: Seq<u8>, n: Seq<u8>) -> Option<int> {
    if n.len() == 0 {
        None
    } else {
        first_match_from(h, n, 0)
    }
}

/// The last position below `k` where `n` occurs in `h`.
pub open spec fn last_match_below(h: Seq<u8>, n: Seq<u8>, k: int) -> Option<int>
    decreases k,
{
    if k <= 0 {
        None
    } else if matches_at(h, n, k - 1) {
        Some(k - 1)
    } else {
        last_match_below(h, n, k - 1)
    }
}

/// The last position where a non-empty `n` occurs in `h`.
pub open spec fn last_occurrence(h: Seq<u8>, n: Seq<u8>) -> Option<int> {
    if n.len() == 0 {
        None
    } else {
        last_match_below(h, n, h.len() as int)
    }
}

proof fn lemma_matches_skip(h: Seq<u8>, n: Seq<u8>, s: int, i: int)
    requires
        0 <= s <= h.len(),
        0 <= i,
    ensures
        matches_at(h.skip(s), n, i) == matches_at(h, n, s + i),
{
    if 0 <= i && i + n.len() <= h.len() - s {
        assert(h.skip(s).subrange(i, i + n.len()) =~= h.subrange(s + i, s + i + n.len()));
    }
}

fn matches_at_exec(h: &[u8], n: &[u8], i: usize) -> (b: bool)
    ensures
        b == matches_at(h@, n@, i as int),
{
    let hl = h.len();
    if i > hl || n.len() > hl - i {
        return false;
    }
    let mut k: usize = 0;
    while k < n.len()
        invariant
            k <= n@.len(),
            hl == h@.len(),
            i + n@.len() <= hl,
            forall|m: int| 0 <= m < k ==> h@[i + m] == n@[m],
        decreases n@.len() - k,
    {
        if h[i + k] != n[k] {
            assert(h@.subrange(i as int, i + n@.len())[k as int] != n@[k as int]);
            return false;
        }
        k = k + 1;
    }
    assert(h@.subrange(i as int, i + n@.len()) =~= n@);
    true
}

/// Every position where `needle` occurs in `haystack`, ascending; none for
/// an empty needle.
pub fn find_all_subsequences(haystack: &[u8], needle: &[u8]) -> (r: Vec<usize>)
    ensures
        r@ == occurrences(haystack@, needle@),
{
    if needle.len() == 0 || haystack.len() < needle.len() {
        return Vec::new();
    }
    let limit = haystack.len() - needle.len() + 1;
    let mut r: Vec<usize> = Vec::new();
    let mut i: usize = 0;
    while i < limit
        invariant
            limit == haystack@.len() - needle@.len() + 1,
            i <= limit,
            r@ == occurrences_below(haystack@, needle@, i as int),
        decreases limit - i,
    {
        if matches_at_exec(haystack, needle, i) {
            r.push(i);
        }
        i = i + 1;
    }
    r
}

/// The first position where `needle` occurs in `haystack[start..]`,
/// counted from `start`.
pub fn find_subsequence_from(haystack: &[u8], start: usize, needle: &[u8]) -> (r: Option<usize>)
    requires
        start <= haystack@.len(),
    ensures
        match r {
            Some(p) => first_occurrence(haystack@.skip(start as int), needle@) == Some(p as int),
            None => first_occurrence(haystack@.skip(start as int), needle@) is None,
        },
{
    let ghost t = haystack@.skip(start as int);
    if needle.len() == 0 {
        return None;
    }
    let hl = haystack.len();
    let len = hl - start;
    let mut i: usize = 0;
    while i < len && needle.len() <= len - i
        invariant
            t == haystack@.skip(start as int),
            len == t.len(),
            hl == haystack@.len(),
            start + len == hl,
            needle@.len() > 0,
            i <= len,
            first_occurrence(t, needle@) == first_match_from(t, needle@, i as int),
        decreases len - i,
    {
        proof {
            lemma_matches_skip(haystack@, needle@, start as int, i as int);
        }
        if matches_at_exec(haystack, needle, start + i) {
            return Some(i);
        }
        i = i + 1;
    }
    None
}

/// The last position where `needle` occurs in `haystack[start..]`, counted
/// from `start`.
pub fn find_last_subsequence_from(haystack: &[u8], start: usize, needle: &[u8]) -> (r: Option<usize>)
    requires
        start <= haystack@.len(),
    ensures
        match r {
            Some(p) => last_occurrence(haystack@.skip(start as int), needle@) == Some(p as int),
            None => last_occurrence(haystack@.skip(start as int), needle@) is None,
        },
{
    let ghost t = haystack@.skip(start as int);
    if needle.len() == 0 {
        return None;
    }
    let hl = haystack.len();
    let len = hl - start;
    let mut k: usize = len;
    while k > 0
        invariant
            t == haystack@.skip(start as int),
            len == t.len(),
            hl == haystack@.len(),
            start + len == hl,
            needle@.len() > 0,
            k <= len,
            last_occurrence(t, needle@) == last_match_below(t, needle@, k as int),
        decreases k,
    {
        proof {
            lemma_matches_skip(haystack@, needle@, start as int, k - 1);
        }
        if matches_at_exec(haystack, needle, start + k - 1) {
            return Some(k - 1);
        }
        k = k - 1;
    }
    None
}

proof fn lemma_occurrences_below(h: Seq<u8>, n: Seq<u8>, k: int)
    requires
        h.len() <= usize::MAX,
    ensures
        occurrences_below(h, n, k).len() <= if k < 0 { 0 } else { k },
        forall|j: int|
            0 <= j < occurrences_below(h, n, k).len() ==> matches_at(h, n, #[trigger] occurrences_below(h, n, k)[j] as int)
                && occurrences_below(h, n, k)[j] < k,
    decreases k,
{
    if k > 0 {
        lemma_occurrences_below(h, n, k - 1);
    }
}

proof fn lemma_occurrences(h: Seq<u8>, n: Seq<u8>)
    requires
        h.len() <= usize::MAX,
    ensures
        forall|j: int| 0 <= j < occurrences(h, n).len() ==> matches_at(h, n, #[trigger] occurrences(h, n)[j] as int),
{
    if !(n.len() == 0 || h.len() < n.len()) {
        lemma_occurrences_below(h, n, h.len() - n.len() + 1);
    }
}

proof fn lemma_first_match(h: Seq<u8>, n: Seq<u8>, i: int)
    ensures
        first_match_from(h, n, i) matches Some(p) ==> matches_at(h, n, p) && i <= p,
    decreases h.len() + 1 - i,
{
    if !(i < 0 || i + n.len() > h.len()) && !matches_at(h, n, i) {
        lemma_first_match(h, n, i + 1);
    }
}

proof fn lemma_last_match(h: Seq<u8>, n: Seq<u8>, k: int)
    ensures
        last_match_below(h, n, k) matches Some(p) ==> matches_at(h, n, p) && p < k,
    decreases k,
{
    if k > 0 && !matches_at(h, n, k - 1) {
        lemma_last_match(h, n, k - 1);
    }
}

// ---------------------------------------------------------------------------
// Spans
// ---------------------------------------------------------------------------

/// The bytes `offset..end` of the scanned window, claimed for `format`.
#[derive(Debug, Clone, Copy, PartialEq, Eq, Structural)]
pub struct CarveSpan {
    pub format: FileFormat,
    pub offset: usize,
    pub end: usize,
}

/// The spans that `f` gives for each position of `occ`, in order.
pub open spec fn spans_of(occ: Seq<usize>, f: spec_fn(usize) -> Seq<CarveSpan>) -> Seq<CarveSpan>
    decreases occ.len(),
{
    if occ.len() == 0 {
        Seq::empty()
    } else {
        spans_of(occ.drop_last(), f) + f(occ.last())
    }
}

proof fn lemma_spans_of_step(occ: Seq<usize>, f: spec_fn(usize) -> Seq<CarveSpan>, i: int)
    requires
        0 <= i < occ.len(),
    ensures
        spans_of(occ.take(i + 1), f) == spans_of(occ.take(i), f) + f(occ[i]),
{
    assert(occ.take(i + 1).drop_last() =~= occ.take(i));
}

/// The smaller of two integers.
pub open spec fn min_int(a: int, b: int) -> int {
    if a < b {
        a
    } else {
        b
    }
}

/// 1 MiB: how far a signature without a footer reaches.
pub const CARVE_OPEN_SPAN_BYTES: usize = 1048576;

/// Where a span that starts at `off` with a header of `header_len` bytes
/// ends: after the first footer behind the header (the window's end when
/// there is none), or 1 MiB on when the format has no footer.
pub open spec fn footer_end(b: Seq<u8>, off: int, header_len: int, footer: Option<Seq<u8>>) -> int {
    match footer {
        Some(nd) => match first_occurrence(b.skip(off + header_len), nd) {
            Some(p) => off + header_len + p + nd.len(),
            None => b.len() as int,
        },
        None => min_int(b.len() as int, off + CARVE_OPEN_SPAN_BYTES),
    }
}

/// The span of a header (and footer) signature at each position.
pub open spec fn header_footer_fn(b: Seq<u8>, f: FileFormat, header: Seq<u8>, footer: Option<Seq<u8>>) -> spec_fn(
    usize,
) -> Seq<CarveSpan> {
    |o: usize| seq![CarveSpan { format: f, offset: o, end: footer_end(b, o as int, header.len() as int, footer) as usize }]
}

/// The spans of a header (and footer) signature.
pub open spec fn header_footer_spans(b: Seq<u8>, f: FileFormat, header: Seq<u8>, footer: Option<Seq<u8>>) -> Seq<
    CarveSpan,
> {
    spans_of(occurrences(b, header), header_footer_fn(b, f, header, footer))
}

/// The bytes of an optional footer.
pub open spec fn footer_view(footer: Option<&[u8]>) -> Option<Seq<u8>> {
    match footer {
        Some(f) => Some(f@),
        None => None,
    }
}

fn carve_header_footer(bytes: &[u8], format: FileFormat, header: &[u8], footer: Option<&[u8]>) -> (r: Vec<CarveSpan>)
    ensures
        r@ == header_footer_spans(bytes@, format, header@, footer_view(footer)),
{
    let ghost f = header_footer_fn(bytes@, format, header@, footer_view(footer));
    let occ = find_all_subsequences(bytes, header);
    let bl = bytes.len();
    let hl = header.len();
    proof {
        lemma_occurrences(bytes@, header@);
    }
    let mut r: Vec<CarveSpan> = Vec::new();
    let mut i: usize = 0;
    while i < occ.len()
        invariant
            f == header_footer_fn(bytes@, format, header@, footer_view(footer)),
            occ@ == occurrences(bytes@, header@),
            bl == bytes@.len(),
            hl == header@.len(),
            i <= occ@.len(),
            forall|j: int| 0 <= j < occ@.len() ==> matches_at(bytes@, header@, #[trigger] occ@[j] as int),
            r@ == spans_of(occ@.take(i as int), f),
        decreases occ@.len() - i,
    {
        let off = occ[i];
        assert(matches_at(bytes@, header@, occ@[i as int] as int));
        let end = match footer {
            Some(nd) => match find_subsequence_from(bytes, off + hl, nd) {
                Some(p) => {
                    proof {
                        lemma_first_match(bytes@.skip(off + hl), nd@, 0);
                    }
                    off + hl + p + nd.len()
                },
                None => bl,
            },
            None => if bl - off < CARVE_OPEN_SPAN_BYTES {
                bl
            } else {
                off + CARVE_OPEN_SPAN_BYTES
            },
        };
        proof {
            lemma_spans_of_step(occ@, f, i as int);
        }
        r.push(CarveSpan { format, offset: off, end });
        assert(f(off) =~= seq![CarveSpan { format, offset: off, end }]);
        i = i + 1;
    }
    assert(occ@.take(occ@.len() as int) =~= occ@);
    r
}

/// `IEND`.
pub open spec fn sig_iend() -> Seq<u8> {
    seq![0x49u8, 0x45u8, 0x4Eu8, 0x44u8]
}

/// Where a PNG stream whose first chunk starts at `cursor` ends: after the
/// `IEND` chunk, or at the window's end when a chunk runs past it.
pub open spec fn png_end(b: Seq<u8>, cursor: int) -> int
    decreases b.len() - cursor,
{
    if cursor < 0 || cursor + 12 > b.len() {
        b.len() as int
    } else {
        let next = cursor + 12 + be32(b, cursor);
        if next > b.len() {
            b.len() as int
        } else if b.subrange(cursor + 4, cursor + 8) == sig_iend() {
            next
        } else {
            png_end(b, next)
        }
    }
}

fn png_span_end(bytes: &[u8], start: usize) -> (e: usize)
    requires
        start <= bytes@.len(),
    ensures
        e == png_end(bytes@, start as int),
{
    let bl = bytes.len();
    let iend: [u8; 4] = [0x49, 0x45, 0x4E, 0x44];
    assert(iend@ =~= sig_iend());
    let mut cursor = start;
    while bl - cursor >= 12
        invariant
            bl == bytes@.len(),
            cursor <= bl,
            iend@ == sig_iend(),
            png_end(bytes@, start as int) == png_end(bytes@, cursor as int),
        decreases bl - cursor,
    {
        let chunk_len = read_u32_be(bytes, cursor) as usize;
        if chunk_len > bl - cursor - 12 {
            return bl;
        }
        let next = cursor + 12 + chunk_len;
        if bytes_match_at(bytes, cursor + 4, &iend) {
            return next;
        }
        cursor = next;
    }
    bl
}

/// The PNG span at each position of the PNG signature.
pub open spec fn png_fn(b: Seq<u8>) -> spec_fn(usize) -> Seq<CarveSpan> {
    |o: usize| seq![CarveSpan { format: FileFormat::Png, offset: o, end: png_end(b, o + 8) as usize }]
}

/// The BMP span at a `BM` position: as long as the declared file size
/// (cut at the window's end), none when the size field is cut off or the
/// size is under 54 bytes.
pub open spec fn bmp_fn(b: Seq<u8>) -> spec_fn(usize) -> Seq<CarveSpan> {
    |o: usize|
        if o + 6 > b.len() || le32(b, o + 2) < 54 {
            Seq::empty()
        } else {
            seq![CarveSpan { format: FileFormat::Bmp, offset: o, end: min_int(b.len() as int, o + le32(b, o + 2)) as usize }]
        }
}

/// 8 MiB: how far a TIFF span reaches.
pub const CARVE_TIFF_SPAN_BYTES: usize = 8388608;

/// The TIFF span at a TIFF signature position.
pub open spec fn tiff_fn(b: Seq<u8>) -> spec_fn(usize) -> Seq<CarveSpan> {
    |o: usize|
        seq![CarveSpan { format: FileFormat::Tiff, offset: o, end: min_int(b.len() as int, o + CARVE_TIFF_SPAN_BYTES) as usize }]
}

/// `WEBP`.
pub open spec fn sig_webp() -> Seq<u8> {
    seq![0x57u8, 0x45u8, 0x42u8, 0x50u8]
}

/// `WAVE`.
pub open spec fn sig_wave() -> Seq<u8> {
    seq![0x57u8, 0x41u8, 0x56u8, 0x45u8]
}

/// The larger of two integers.
pub open spec fn max_int(a: int, b: int) -> int {
    if a < b {
        b
    } else {
        a
    }
}

/// The span of a RIFF container of kind `kind` at a `RIFF` position: the
/// declared size plus the 8-byte header, at least `floor` bytes, cut at the
/// window's end; none unless the kind follows.
pub open spec fn riff_span(b: Seq<u8>, o: int, kind: Seq<u8>, f: FileFormat, floor: int) -> Seq<CarveSpan> {
    if o + 12 > b.len() || b.subrange(o + 8, o + 12) != kind {
        Seq::empty()
    } else {
        seq![CarveSpan { format: f, offset: o as usize, end: min_int(b.len() as int, o + max_int(le32(b, o + 4) + 8, floor)) as usize }]
    }
}

/// The WebP span at each `RIFF` position (at least 16 bytes).
pub open spec fn webp_fn(b: Seq<u8>) -> spec_fn(usize) -> Seq<CarveSpan> {
    |o: usize| riff_span(b, o as int, sig_webp(), FileFormat::Webp, 16)
}

/// The WAV span at each `RIFF` position.
pub open spec fn wav_fn(b: Seq<u8>) -> spec_fn(usize) -> Seq<CarveSpan> {
    |o: usize| riff_span(b, o as int, sig_wave(), FileFormat::Wav, 0)
}

/// The MP4 span at an `ftyp` position: the box starts 4 bytes earlier
/// with its size; none when that size is under 16.
pub open spec fn mp4_fn(b: Seq<u8>) -> spec_fn(usize) -> Seq<CarveSpan> {
    |o: usize|
        if o < 4 || o + 8 > b.len() || be32(b, o - 4) < 16 {
            Seq::empty()
        } else {
            seq![CarveSpan { format: FileFormat::Mp4, offset: (o - 4) as usize, end: min_int(b.len() as int, o - 4 + be32(b, o - 4)) as usize }]
        }
}

/// The first NUL byte at or after `j`, or the window's end.
pub open spec fn nul_from(b: Seq<u8>, j: int) -> int
    decreases b.len() - j,
{
    if j < 0 || j >= b.len() {
        b.len() as int
    } else if b[j] == 0 {
        j
    } else {
        nul_from(b, j + 1)
    }
}

/// The text span at a UTF-8 byte order mark: up to the first NUL byte.
pub open spec fn utf8_fn(b: Seq<u8>) -> spec_fn(usize) -> Seq<CarveSpan> {
    |o: usize| seq![CarveSpan { format: FileFormat::Utf8Text, offset: o, end: nul_from(b, o + 3) as usize }]
}

/// `PK\x05\x06`, the end-of-central-directory signature.
pub open spec fn sig_zip_end() -> Seq<u8> {
    seq![0x50u8, 0x4Bu8, 0x05u8, 0x06u8]
}

/// Where a ZIP archive at `o` ends: after the last end-of-central-directory
/// signature behind it, or at the window's end.
pub open spec fn zip_end(b: Seq<u8>, o: int) -> int {
    match last_occurrence(b.skip(o), sig_zip_end()) {
        Some(p) => o + p + 4,
        None => b.len() as int,
    }
}

/// `seq![s]` when `c`.
pub open spec fn span_if(c: bool, s: CarveSpan) -> Seq<CarveSpan> {
    if c {
        seq![s]
    } else {
        Seq::empty()
    }
}

/// The ZIP-family spans at a local-file-header position: one per enabled
/// format among ZIP, DOCX, XLSX and PPTX.
pub open spec fn zip_fn(p: CarvingPlanView, b: Seq<u8>) -> spec_fn(usize) -> Seq<CarveSpan> {
    |o: usize|
        span_if(plan_enables(p, FileFormat::Zip), CarveSpan { format: FileFormat::Zip, offset: o, end: zip_end(b, o as int) as usize })
            + span_if(plan_enables(p, FileFormat::Docx), CarveSpan { format: FileFormat::Docx, offset: o, end: zip_end(b, o as int) as usize })
            + span_if(plan_enables(p, FileFormat::Xlsx), CarveSpan { format: FileFormat::Xlsx, offset: o, end: zip_end(b, o as int) as usize })
            + span_if(plan_enables(p, FileFormat::Pptx), CarveSpan { format: FileFormat::Pptx, offset: o, end: zip_end(b, o as int) as usize })
}

/// How a signature position becomes spans.
#[derive(Clone, Copy)]
enum SpanRule {
    Png,
    Bmp,
    Tiff,
    Webp,
    Wav,
    Mp4,
    Utf8,
    Zip,
}

spec fn rule_fn(rule: SpanRule, p: CarvingPlanView, b: Seq<u8>) -> spec_fn(usize) -> Seq<CarveSpan> {
    match rule {
        SpanRule::Png => png_fn(b),
        SpanRule::Bmp => bmp_fn(b),
        SpanRule::Tiff => tiff_fn(b),
        SpanRule::Webp => webp_fn(b),
        SpanRule::Wav => wav_fn(b),
        SpanRule::Mp4 => mp4_fn(b),
        SpanRule::Utf8 => utf8_fn(b),
        SpanRule::Zip => zip_fn(p, b),
    }
}

/// `min(bl, o + size)` without overflow, for `o <= bl`.
fn capped_end(bl: usize, o: usize, size: u64) -> (e: usize)
    requires
        o <= bl,
    ensures
        e == min_int(bl as int, o + size),
{
    if size >= (bl - o) as u64 {
        bl
    } else {
        o + size as usize
    }
}

fn riff_span_exec(bytes: &[u8], o: usize, kind: &[u8], f: FileFormat, floor: u64) -> (r: Vec<CarveSpan>)
    requires
        o <= bytes@.len(),
        floor <= 16,
    ensures
        r@ == riff_span(bytes@, o as int, kind@, f, floor as int),
{
    let bl = bytes.len();
    if bl - o < 12 || kind.len() != 4 || !bytes_match_at(bytes, o + 8, kind) {
        proof {
            if kind@.len() != 4 && bl - o >= 12 {
                assert(bytes@.subrange(o + 8, o + 12).len() != kind@.len());
            }
        }
        return Vec::new();
    }
    let declared = read_u32_le(bytes, o + 4) as u64 + 8;
    let size = if declared < floor {
        floor
    } else {
        declared
    };
    let r = vec![CarveSpan { format: f, offset: o, end: capped_end(bl, o, size) }];
    assert(r@ =~= riff_span(bytes@, o as int, kind@, f, floor as int));
    r
}

/// Bytes that a rule's signature guarantees at its position.
spec fn rule_reach(rule: SpanRule) -> int {
    match rule {
        SpanRule::Png => 8,
        SpanRule::Utf8 => 3,
        _ => 0,
    }
}

fn one(s: CarveSpan) -> (v: Vec<CarveSpan>)
    ensures
        v@ == seq![s],
{
    let v = vec![s];
    assert(v@ =~= seq![s]);
    v
}

fn span_at(bytes: &[u8], rule: SpanRule, plan: &CarvingPlan, o: usize) -> (r: Vec<CarveSpan>)
    requires
        o + rule_reach(rule) <= bytes@.len(),
    ensures
        r@ == rule_fn(rule, plan@, bytes@)(o),
{
    let bl = bytes.len();
    match rule {
        SpanRule::Png => {
            let end = png_span_end(bytes, o + 8);
            let r = one(CarveSpan { format: FileFormat::Png, offset: o, end });
            assert(png_fn(bytes@)(o) == seq![CarveSpan { format: FileFormat::Png, offset: o, end }]);
            r
        },
        SpanRule::Bmp => {
            if bl - o < 6 {
                return Vec::new();
            }
            let declared = read_u32_le(bytes, o + 2);
            if declared < 54 {
                return Vec::new();
            }
            one(CarveSpan { format: FileFormat::Bmp, offset: o, end: capped_end(bl, o, declared as u64) })
        },
        SpanRule::Tiff => one(
            CarveSpan { format: FileFormat::Tiff, offset: o, end: capped_end(bl, o, CARVE_TIFF_SPAN_BYTES as u64) },
        ),
        SpanRule::Webp => {
            let kind: [u8; 4] = [0x57, 0x45, 0x42, 0x50];
            assert(kind@ =~= sig_webp());
            riff_span_exec(bytes, o, &kind, FileFormat::Webp, 16)
        },
        SpanRule::Wav => {
            let kind: [u8; 4] = [0x57, 0x41, 0x56, 0x45];
            assert(kind@ =~= sig_wave());
            riff_span_exec(bytes, o, &kind, FileFormat::Wav, 0)
        },
        SpanRule::Mp4 => {
            if o < 4 || bl - o < 8 {
                return Vec::new();
            }
            let start = o - 4;
            let declared = read_u32_be(bytes, start);
            if declared < 16 {
                return Vec::new();
            }
            one(CarveSpan { format: FileFormat::Mp4, offset: start, end: capped_end(bl, start, declared as u64) })
        },
        SpanRule::Utf8 => {
            let mut end = o + 3;
            while end < bl && bytes[end] != 0
                invariant
                    bl == bytes@.len(),
                    o + 3 <= end <= bl,
                    nul_from(bytes@, o + 3) == nul_from(bytes@, end as int),
                decreases bl - end,
            {
                end = end + 1;
            }
            one(CarveSpan { format: FileFormat::Utf8Text, offset: o, end })
        },
        SpanRule::Zip => {
            let trailer: [u8; 4] = [0x50, 0x4B, 0x05, 0x06];
            assert(trailer@ =~= sig_zip_end());
            let end = match find_last_subsequence_from(bytes, o, &trailer) {
                Some(p) => {
                    proof {
                        lemma_last_match(bytes@.skip(o as int), sig_zip_end(), bytes@.len() - o);
                    }
                    o + p + 4
                },
                None => bl,
            };
            let mut r: Vec<CarveSpan> = Vec::new();
            if plan.format_enabled(FileFormat::Zip) {
                r.push(CarveSpan { format: FileFormat::Zip, offset: o, end });
            }
            if plan.format_enabled(FileFormat::Docx) {
                r.push(CarveSpan { format: FileFormat::Docx, offset: o, end });
            }
            if plan.format_enabled(FileFormat::Xlsx) {
                r.push(CarveSpan { format: FileFormat::Xlsx, offset: o, end });
            }
            if plan.format_enabled(FileFormat::Pptx) {
                r.push(CarveSpan { format: FileFormat::Pptx, offset: o, end });
            }
            assert(r@ =~= rule_fn(rule, plan@, bytes@)(o));
            r
        },
    }
}

fn carve_rule(bytes: &[u8], signature: &[u8], rule: SpanRule, plan: &CarvingPlan) -> (r: Vec<CarveSpan>)
    requires
        signature@.len() >= rule_reach(rule),
    ensures
        r@ == spans_of(occurrences(bytes@, signature@), rule_fn(rule, plan@, bytes@)),
{
    let ghost f = rule_fn(rule, plan@, bytes@);
    let occ = find_all_subsequences(bytes, signature);
    assert(bytes@.len() == bytes.len());
    proof {
        lemma_occurrences(bytes@, signature@);
    }
    let mut r: Vec<CarveSpan> = Vec::new();
    let mut i: usize = 0;
    while i < occ.len()
        invariant
            f == rule_fn(rule, plan@, bytes@),
            signature@.len() >= rule_reach(rule),
            occ@ == occurrences(bytes@, signature@),
            i <= occ@.len(),
            forall|j: int| 0 <= j < occ@.len() ==> matches_at(bytes@, signature@, #[trigger] occ@[j] as int),
            r@ == spans_of(occ@.take(i as int), f),
        decreases occ@.len() - i,
    {
        let o = occ[i];
        assert(matches_at(bytes@, signature@, occ@[i as int] as int));
        let mut found = span_at(bytes, rule, plan, o);
        proof {
            lemma_spans_of_step(occ@, f, i as int);
        }
        r.append(&mut found);
        i = i + 1;
    }
    assert(occ@.take(occ@.len() as int) =~= occ@);
    r
}

/// `\xFF\xD8\xFF`, the JPEG start.
pub open spec fn sig_jpeg() -> Seq<u8> {
    seq![0xFFu8, 0xD8u8, 0xFFu8]
}

/// `\xFF\xD9`, the JPEG end.
pub open spec fn sig_jpeg_end() -> Seq<u8> {
    seq![0xFFu8, 0xD9u8]
}

/// The PNG signature.
pub open spec fn sig_png() -> Seq<u8> {
    seq![0x89u8, 0x50u8, 0x4Eu8, 0x47u8, 0x0Du8, 0x0Au8, 0x1Au8, 0x0Au8]
}

/// `GIF89a`.
pub open spec fn sig_gif89() -> Seq<u8> {
    seq![0x47u8, 0x49u8, 0x46u8, 0x38u8, 0x39u8, 0x61u8]
}

/// `GIF87a`.
pub open spec fn sig_gif87() -> Seq<u8> {
    seq![0x47u8, 0x49u8, 0x46u8, 0x38u8, 0x37u8, 0x61u8]
}

/// `;`, the GIF trailer.
pub open spec fn sig_gif_end() -> Seq<u8> {
    seq![0x3Bu8]
}

/// `BM`.
pub open spec fn sig_bmp() -> Seq<u8> {
    seq![0x42u8, 0x4Du8]
}

/// `II*\0`, little-endian TIFF.
pub open spec fn sig_tiff_le() -> Seq<u8> {
    seq![0x49u8, 0x49u8, 0x2Au8, 0x00u8]
}

/// `MM\0*`, big-endian TIFF.
pub open spec fn sig_tiff_be() -> Seq<u8> {
    seq![0x4Du8, 0x4Du8, 0x00u8, 0x2Au8]
}

/// `RIFF`.
pub open spec fn sig_riff() -> Seq<u8> {
    seq![0x52u8, 0x49u8, 0x46u8, 0x46u8]
}

/// `%PDF-`.
pub open spec fn sig_pdf() -> Seq<u8> {
    seq![0x25u8, 0x50u8, 0x44u8, 0x46u8, 0x2Du8]
}

/// `%%EOF`.
pub open spec fn sig_pdf_end() -> Seq<u8> {
    seq![0x25u8, 0x25u8, 0x45u8, 0x4Fu8, 0x46u8]
}

/// The UTF-8 byte order mark.
pub open spec fn sig_bom() -> Seq<u8> {
    seq![0xEFu8, 0xBBu8, 0xBFu8]
}

/// `PK\x03\x04`, a ZIP local file header.
pub open spec fn sig_zip() -> Seq<u8> {
    seq![0x50u8, 0x4Bu8, 0x03u8, 0x04u8]
}

/// The gzip member header.
pub open spec fn sig_gzip() -> Seq<u8> {
    seq![0x1Fu8, 0x8Bu8, 0x08u8]
}

/// The 7z signature.
pub open spec fn sig_7z() -> Seq<u8> {
    seq![0x37u8, 0x7Au8, 0xBCu8, 0xAFu8, 0x27u8, 0x1Cu8]
}

/// The RAR 4 signature.
pub open spec fn sig_rar4() -> Seq<u8> {
    seq![0x52u8, 0x61u8, 0x72u8, 0x21u8, 0x1Au8, 0x07u8, 0x00u8]
}

/// The RAR 5 signature.
pub open spec fn sig_rar5() -> Seq<u8> {
    seq![0x52u8, 0x61u8, 0x72u8, 0x21u8, 0x1Au8, 0x07u8, 0x01u8, 0x00u8]
}

/// `ftyp`.
pub open spec fn sig_ftyp() -> Seq<u8> {
    seq![0x66u8, 0x74u8, 0x79u8, 0x70u8]
}

/// `OggS`.
pub open spec fn sig_ogg() -> Seq<u8> {
    seq![0x4Fu8, 0x67u8, 0x67u8, 0x53u8]
}

/// `fLaC`.
pub open spec fn sig_flac() -> Seq<u8> {
    seq![0x66u8, 0x4Cu8, 0x61u8, 0x43u8]
}

/// `ID3`.
pub open spec fn sig_mp3() -> Seq<u8> {
    seq![0x49u8, 0x44u8, 0x33u8]
}

/// `s` when `c`.
pub open spec fn when(c: bool, s: Seq<CarveSpan>) -> Seq<CarveSpan> {
    if c {
        s
    } else {
        Seq::empty()
    }
}

/// Whether the plan carves some ZIP-related format.
pub open spec fn zip_related(p: CarvingPlanView) -> bool {
    ||| plan_enables(p, FileFormat::Zip)
    ||| plan_enables(p, FileFormat::Gzip)
    ||| plan_enables(p, FileFormat::SevenZip)
    ||| plan_enables(p, FileFormat::Rar)
    ||| plan_enables(p, FileFormat::Docx)
    ||| plan_enables(p, FileFormat::Xlsx)
    ||| plan_enables(p, FileFormat::Pptx)
}

/// The spans of the image and document signatures, in order of search.
pub open spec fn early_spans(p: CarvingPlanView, b: Seq<u8>) -> Seq<CarveSpan> {
    when(plan_enables(p, FileFormat::Jpeg), header_footer_spans(b, FileFormat::Jpeg, sig_jpeg(), Some(sig_jpeg_end())))
        + when(plan_enables(p, FileFormat::Png), spans_of(occurrences(b, sig_png()), png_fn(b)))
        + when(
        plan_enables(p, FileFormat::Gif),
        header_footer_spans(b, FileFormat::Gif, sig_gif89(), Some(sig_gif_end())) + header_footer_spans(
            b,
            FileFormat::Gif,
            sig_gif87(),
            Some(sig_gif_end()),
        ),
    ) + when(plan_enables(p, FileFormat::Bmp), spans_of(occurrences(b, sig_bmp()), bmp_fn(b))) + when(
        plan_enables(p, FileFormat::Tiff),
        spans_of(occurrences(b, sig_tiff_le()), tiff_fn(b)) + spans_of(occurrences(b, sig_tiff_be()), tiff_fn(b)),
    ) + when(plan_enables(p, FileFormat::Webp), spans_of(occurrences(b, sig_riff()), webp_fn(b))) + when(
        plan_enables(p, FileFormat::Pdf),
        header_footer_spans(b, FileFormat::Pdf, sig_pdf(), Some(sig_pdf_end())),
    ) + when(plan_enables(p, FileFormat::Utf8Text), spans_of(occurrences(b, sig_bom()), utf8_fn(b)))
}

/// The spans of the archive, office and media signatures, in order of
/// search.
pub open spec fn late_spans(p: CarvingPlanView, b: Seq<u8>) -> Seq<CarveSpan> {
    when(zip_related(p), spans_of(occurrences(b, sig_zip()), zip_fn(p, b))) + when(
        plan_enables(p, FileFormat::Gzip),
        header_footer_spans(b, FileFormat::Gzip, sig_gzip(), None),
    ) + when(plan_enables(p, FileFormat::SevenZip), header_footer_spans(b, FileFormat::SevenZip, sig_7z(), None))
        + when(
        plan_enables(p, FileFormat::Rar),
        header_footer_spans(b, FileFormat::Rar, sig_rar4(), None) + header_footer_spans(
            b,
            FileFormat::Rar,
            sig_rar5(),
            None,
        ),
    ) + when(plan_enables(p, FileFormat::Mp4), spans_of(occurrences(b, sig_ftyp()), mp4_fn(b))) + when(
        plan_enables(p, FileFormat::Ogg),
        header_footer_spans(b, FileFormat::Ogg, sig_ogg(), None),
    ) + when(plan_enables(p, FileFormat::Flac), header_footer_spans(b, FileFormat::Flac, sig_flac(), None)) + when(
        plan_enables(p, FileFormat::Wav),
        spans_of(occurrences(b, sig_riff()), wav_fn(b)),
    ) + when(plan_enables(p, FileFormat::Mp3), header_footer_spans(b, FileFormat::Mp3, sig_mp3(), None))
}

/// Every span the plan's signatures claim in window `b`, format by format
/// in the order of search.
pub open spec fn raw_spans(p: CarvingPlanView, b: Seq<u8>) -> Seq<CarveSpan> {
    early_spans(p, b) + late_spans(p, b)
}

fn early_spans_exec(plan: &CarvingPlan, bytes: &[u8]) -> (r: Vec<CarveSpan>)
    ensures
        r@ == early_spans(plan@, bytes@),
{
    let ghost p = plan@;
    let ghost b = bytes@;
    let mut raw: Vec<CarveSpan> = Vec::new();
    if plan.format_enabled(FileFormat::Jpeg) {
        let h: [u8; 3] = [0xFF, 0xD8, 0xFF];
        let f: [u8; 2] = [0xFF, 0xD9];
        assert(h@ =~= sig_jpeg() && f@ =~= sig_jpeg_end());
        raw = carve_header_footer(bytes, FileFormat::Jpeg, &h, Some(&f));
    }
    let ghost acc = raw@;
    assert(acc =~= when(plan_enables(p, FileFormat::Jpeg), header_footer_spans(b, FileFormat::Jpeg, sig_jpeg(), Some(sig_jpeg_end()))));
    if plan.format_enabled(FileFormat::Png) {
        let h: [u8; 8] = [0x89, 0x50, 0x4E, 0x47, 0x0D, 0x0A, 0x1A, 0x0A];
        assert(h@ =~= sig_png());
        let mut v = carve_rule(bytes, &h, SpanRule::Png, plan);
        raw.append(&mut v);
    }
    assert(raw@ =~= acc + when(plan_enables(p, FileFormat::Png), spans_of(occurrences(b, sig_png()), png_fn(b))));
    let ghost acc = raw@;
    if plan.format_enabled(FileFormat::Gif) {
        let h89: [u8; 6] = [0x47, 0x49, 0x46, 0x38, 0x39, 0x61];
        let h87: [u8; 6] = [0x47, 0x49, 0x46, 0x38, 0x37, 0x61];
        let f: [u8; 1] = [0x3B];
        assert(h89@ =~= sig_gif89() && h87@ =~= sig_gif87() && f@ =~= sig_gif_end());
        let mut v = carve_header_footer(bytes, FileFormat::Gif, &h89, Some(&f));
        raw.append(&mut v);
        let mut w = carve_header_footer(bytes, FileFormat::Gif, &h87, Some(&f));
        raw.append(&mut w);
    }
    assert(raw@ =~= acc + when(
        plan_enables(p, FileFormat::Gif),
        header_footer_spans(b, FileFormat::Gif, sig_gif89(), Some(sig_gif_end())) + header_footer_spans(
            b,
            FileFormat::Gif,
            sig_gif87(),
            Some(sig_gif_end()),
        ),
    ));
    let ghost acc = raw@;
    if plan.format_enabled(FileFormat::Bmp) {
        let h: [u8; 2] = [0x42, 0x4D];
        assert(h@ =~= sig_bmp());
        let mut v = carve_rule(bytes, &h, SpanRule::Bmp, plan);
        raw.append(&mut v);
    }
    assert(raw@ =~= acc + when(plan_enables(p, FileFormat::Bmp), spans_of(occurrences(b, sig_bmp()), bmp_fn(b))));
    let ghost acc = raw@;
    if plan.format_enabled(FileFormat::Tiff) {
        let le: [u8; 4] = [0x49, 0x49, 0x2A, 0x00];
        let be: [u8; 4] = [0x4D, 0x4D, 0x00, 0x2A];
        assert(le@ =~= sig_tiff_le() && be@ =~= sig_tiff_be());
        let mut v = carve_rule(bytes, &le, SpanRule::Tiff, plan);
        raw.append(&mut v);
        let mut w = carve_rule(bytes, &be, SpanRule::Tiff, plan);
        raw.append(&mut w);
    }
    assert(raw@ =~= acc + when(
        plan_enables(p, FileFormat::Tiff),
        spans_of(occurrences(b, sig_tiff_le()), tiff_fn(b)) + spans_of(occurrences(b, sig_tiff_be()), tiff_fn(b)),
    ));
    let ghost acc = raw@;
    if plan.format_enabled(FileFormat::Webp) {
        let h: [u8; 4] = [0x52, 0x49, 0x46, 0x46];
        assert(h@ =~= sig_riff());
        let mut v = carve_rule(bytes, &h, SpanRule::Webp, plan);
        raw.append(&mut v);
    }
    assert(raw@ =~= acc + when(plan_enables(p, FileFormat::Webp), spans_of(occurrences(b, sig_riff()), webp_fn(b))));
    let ghost acc = raw@;
    if plan.format_enabled(FileFormat::Pdf) {
        let h: [u8; 5] = [0x25, 0x50, 0x44, 0x46, 0x2D];
        let f: [u8; 5] = [0x25, 0x25, 0x45, 0x4F, 0x46];
        assert(h@ =~= sig_pdf() && f@ =~= sig_pdf_end());
        let mut v = carve_header_footer(bytes, FileFormat::Pdf, &h, Some(&f));
        raw.append(&mut v);
    }
    assert(raw@ =~= acc + when(
        plan_enables(p, FileFormat::Pdf),
        header_footer_spans(b, FileFormat::Pdf, sig_pdf(), Some(sig_pdf_end())),
    ));
    let ghost acc = raw@;
    if plan.format_enabled(FileFormat::Utf8Text) {
        let h: [u8; 3] = [0xEF, 0xBB, 0xBF];
        assert(h@ =~= sig_bom());
        let mut v = carve_rule(bytes, &h, SpanRule::Utf8, plan);
        raw.append(&mut v);
    }
    assert(raw@ =~= acc + when(plan_enables(p, FileFormat::Utf8Text), spans_of(occurrences(b, sig_bom()), utf8_fn(b))));
    raw
}

fn late_spans_exec(plan: &CarvingPlan, bytes: &[u8]) -> (r: Vec<CarveSpan>)
    ensures
        r@ == late_spans(plan@, bytes@),
{
    let ghost p = plan@;
    let ghost b = bytes@;
    let mut raw: Vec<CarveSpan> = Vec::new();
    let zip_any = plan.format_enabled(FileFormat::Zip) || plan.format_enabled(FileFormat::Gzip)
        || plan.format_enabled(FileFormat::SevenZip) || plan.format_enabled(FileFormat::Rar)
        || plan.format_enabled(FileFormat::Docx) || plan.format_enabled(FileFormat::Xlsx)
        || plan.format_enabled(FileFormat::Pptx);
    if zip_any {
        let h: [u8; 4] = [0x50, 0x4B, 0x03, 0x04];
        assert(h@ =~= sig_zip());
        raw = carve_rule(bytes, &h, SpanRule::Zip, plan);
    }
    let ghost acc = raw@;
    assert(acc =~= when(zip_related(p), spans_of(occurrences(b, sig_zip()), zip_fn(p, b))));
    if plan.format_enabled(FileFormat::Gzip) {
        let h: [u8; 3] = [0x1F, 0x8B, 0x08];
        assert(h@ =~= sig_gzip());
        let mut v = carve_header_footer(bytes, FileFormat::Gzip, &h, None);
        raw.append(&mut v);
    }
    assert(raw@ =~= acc + when(plan_enables(p, FileFormat::Gzip), header_footer_spans(b, FileFormat::Gzip, sig_gzip(), None)));
    let ghost acc = raw@;
    if plan.format_enabled(FileFormat::SevenZip) {
        let h: [u8; 6] = [0x37, 0x7A, 0xBC, 0xAF, 0x27, 0x1C];
        assert(h@ =~= sig_7z());
        let mut v = carve_header_footer(bytes, FileFormat::SevenZip, &h, None);
        raw.append(&mut v);
    }
    assert(raw@ =~= acc + when(plan_enables(p, FileFormat::SevenZip), header_footer_spans(b, FileFormat::SevenZip, sig_7z(), None)));
    let ghost acc = raw@;
    if plan.format_enabled(FileFormat::Rar) {
        let h4: [u8; 7] = [0x52, 0x61, 0x72, 0x21, 0x1A, 0x07, 0x00];
        let h5: [u8; 8] = [0x52, 0x61, 0x72, 0x21, 0x1A, 0x07, 0x01, 0x00];
        assert(h4@ =~= sig_rar4() && h5@ =~= sig_rar5());
        let mut v = carve_header_footer(bytes, FileFormat::Rar, &h4, None);
        raw.append(&mut v);
        let mut w = carve_header_footer(bytes, FileFormat::Rar, &h5, None);
        raw.append(&mut w);
    }
    assert(raw@ =~= acc + when(
        plan_enables(p, FileFormat::Rar),
        header_footer_spans(b, FileFormat::Rar, sig_rar4(), None) + header_footer_spans(
            b,
            FileFormat::Rar,
            sig_rar5(),
            None,
        ),
    ));
    let ghost acc = raw@;
    if plan.format_enabled(FileFormat::Mp4) {
        let h: [u8; 4] = [0x66, 0x74, 0x79, 0x70];
        assert(h@ =~= sig_ftyp());
        let mut v = carve_rule(bytes, &h, SpanRule::Mp4, plan);
        raw.append(&mut v);
    }
    assert(raw@ =~= acc + when(plan_enables(p, FileFormat::Mp4), spans_of(occurrences(b, sig_ftyp()), mp4_fn(b))));
    let ghost acc = raw@;
    if plan.format_enabled(FileFormat::Ogg) {
        let h: [u8; 4] = [0x4F, 0x67, 0x67, 0x53];
        assert(h@ =~= sig_ogg());
        let mut v = carve_header_footer(bytes, FileFormat::Ogg, &h, None);
        raw.append(&mut v);
    }
    assert(raw@ =~= acc + when(plan_enables(p, FileFormat::Ogg), header_footer_spans(b, FileFormat::Ogg, sig_ogg(), None)));
    let ghost acc = raw@;
    if plan.format_enabled(FileFormat::Flac) {
        let h: [u8; 4] = [0x66, 0x4C, 0x61, 0x43];
        assert(h@ =~= sig_flac());
        let mut v = carve_header_footer(bytes, FileFormat::Flac, &h, None);
        raw.append(&mut v);
    }
    assert(raw@ =~= acc + when(plan_enables(p, FileFormat::Flac), header_footer_spans(b, FileFormat::Flac, sig_flac(), None)));
    let ghost acc = raw@;
    if plan.format_enabled(FileFormat::Wav) {
        let h: [u8; 4] = [0x52, 0x49, 0x46, 0x46];
        assert(h@ =~= sig_riff());
        let mut v = carve_rule(bytes, &h, SpanRule::Wav, plan);
        raw.append(&mut v);
    }
    assert(raw@ =~= acc + when(plan_enables(p, FileFormat::Wav), spans_of(occurrences(b, sig_riff()), wav_fn(b))));
    let ghost acc = raw@;
    if plan.format_enabled(FileFormat::Mp3) {
        let h: [u8; 3] = [0x49, 0x44, 0x33];
        assert(h@ =~= sig_mp3());
        let mut v = carve_header_footer(bytes, FileFormat::Mp3, &h, None);
        raw.append(&mut v);
    }
    assert(raw@ =~= acc + when(plan_enables(p, FileFormat::Mp3), header_footer_spans(b, FileFormat::Mp3, sig_mp3(), None)));
    raw
}

/// Whether a span of the same format and offset is already in `prev`.
pub open spec fn seen_before(prev: Seq<CarveSpan>, s: CarveSpan) -> bool {
    exists|j: int| 0 <= j < prev.len() && prev[j].offset == s.offset && prev[j].format == s.format
}

/// The spans that reach validation: non-empty ones, each format and
/// offset once, the first claim winning.
pub open spec fn kept_spans(raw: Seq<CarveSpan>) -> Seq<CarveSpan>
    decreases raw.len(),
{
    if raw.len() == 0 {
        Seq::empty()
    } else {
        let prev = kept_spans(raw.drop_last());
        let s = raw.last();
        if s.end <= s.offset || seen_before(prev, s) {
            prev
        } else {
            prev.push(s)
        }
    }
}

fn has_span_key(prev: &Vec<CarveSpan>, s: CarveSpan) -> (b: bool)
    ensures
        b == seen_before(prev@, s),
{
    let mut j: usize = 0;
    while j < prev.len()
        invariant
            j <= prev@.len(),
            forall|m: int| 0 <= m < j ==> !(prev@[m].offset == s.offset && prev@[m].format == s.format),
        decreases prev@.len() - j,
    {
        if prev[j].offset == s.offset && prev[j].format == s.format {
            return true;
        }
        j = j + 1;
    }
    false
}

fn keep_spans(raw: &Vec<CarveSpan>) -> (r: Vec<CarveSpan>)
    ensures
        r@ == kept_spans(raw@),
{
    let mut r: Vec<CarveSpan> = Vec::new();
    let mut i: usize = 0;
    while i < raw.len()
        invariant
            i <= raw@.len(),
            r@ == kept_spans(raw@.take(i as int)),
        decreases raw@.len() - i,
    {
        let s = raw[i];
        assert(raw@.take(i + 1).drop_last() =~= raw@.take(i as int));
        if !(s.end <= s.offset) && !has_span_key(&r, s) {
            r.push(s);
        }
        i = i + 1;
    }
    assert(raw@.take(raw@.len() as int) =~= raw@);
    r
}

/// The first index at or after `j` whose span starts after `off`, or the
/// length.
pub open spec fn insert_pos(s: Seq<CarveSpan>, off: usize, j: int) -> int
    decreases s.len() - j,
{
    if j >= s.len() {
        s.len() as int
    } else if s[j].offset > off {
        j
    } else {
        insert_pos(s, off, j + 1)
    }
}

/// `s` with `x` inserted after every span that starts at or before it.
pub open spec fn insert_by_offset(s: Seq<CarveSpan>, x: CarveSpan) -> Seq<CarveSpan> {
    s.insert(insert_pos(s, x.offset, 0), x)
}

/// The spans ordered by offset, spans of equal offset in their order in
/// `s` (a stable sort).
pub open spec fn sorted_by_offset(s: Seq<CarveSpan>) -> Seq<CarveSpan>
    decreases s.len(),
{
    if s.len() == 0 {
        Seq::empty()
    } else {
        insert_by_offset(sorted_by_offset(s.drop_last()), s.last())
    }
}

proof fn lemma_insert_pos_bounds(s: Seq<CarveSpan>, off: usize, j: int)
    requires
        0 <= j <= s.len(),
    ensures
        j <= insert_pos(s, off, j) <= s.len(),
    decreases s.len() - j,
{
    if j < s.len() && s[j].offset <= off {
        lemma_insert_pos_bounds(s, off, j + 1);
    }
}

fn sort_spans_by_offset(v: &Vec<CarveSpan>) -> (r: Vec<CarveSpan>)
    ensures
        r@ == sorted_by_offset(v@),
{
    let mut r: Vec<CarveSpan> = Vec::new();
    let mut i: usize = 0;
    while i < v.len()
        invariant
            i <= v@.len(),
            r@ == sorted_by_offset(v@.take(i as int)),
        decreases v@.len() - i,
    {
        let x = v[i];
        let mut p: usize = 0;
        while p < r.len() && r[p].offset <= x.offset
            invariant
                p <= r@.len(),
                insert_pos(r@, x.offset, 0) == insert_pos(r@, x.offset, p as int),
            decreases r@.len() - p,
        {
            p = p + 1;
        }
        assert(v@.take(i + 1).drop_last() =~= v@.take(i as int));
        r.insert(p, x);
        i = i + 1;
    }
    assert(v@.take(v@.len() as int) =~= v@);
    r
}

/// The window a plan scans: the first `max_scan_bytes` bytes.
pub open spec fn scan_window(b: Seq<u8>, max_scan_bytes: usize) -> Seq<u8> {
    b.take(min_int(b.len() as int, max_scan_bytes as int))
}

/// The spans a carving pass hands to validation, by offset.
pub open spec fn carve_spans_of(p: CarvingPlanView, b: Seq<u8>) -> Seq<CarveSpan> {
    sorted_by_offset(kept_spans(raw_spans(p, scan_window(b, p.max_scan_bytes))))
}

/// Finds, in the plan's window of `source_bytes`, the spans that the
/// enabled signatures claim: once per format and offset, non-empty,
/// ordered by offset (equal offsets in the order of search).
pub fn carve_spans(plan: &CarvingPlan, source_bytes: &[u8]) -> (r: Vec<CarveSpan>)
    ensures
        r@ == carve_spans_of(plan@, source_bytes@),
        forall|k: int|
            0 <= k < r@.len() ==> #[trigger] r@[k].offset < r@[k].end && r@[k].end <= min_int(
                source_bytes@.len() as int,
                plan@.max_scan_bytes as int,
            ),
{
    let source_len = source_bytes.len();
    proof {
        law_carve_spans_ordered_in_window(plan@, source_bytes@);
        assert(scan_window(source_bytes@, plan@.max_scan_bytes).len() == min_int(
            source_bytes@.len() as int,
            plan@.max_scan_bytes as int,
        ));
    }
    let scan_len = if source_len < plan.max_scan_bytes {
        source_len
    } else {
        plan.max_scan_bytes
    };
    let (bytes, _) = source_bytes.split_at(scan_len);
    assert(bytes@ =~= scan_window(source_bytes@, plan@.max_scan_bytes));
    let mut raw = early_spans_exec(plan, bytes);
    let mut late = late_spans_exec(plan, bytes);
    raw.append(&mut late);
    let kept = keep_spans(&raw);
    sort_spans_by_offset(&kept)
}

// ---------------------------------------------------------------------------
// Candidates
// ---------------------------------------------------------------------------

/// The default file extension of a format.
pub open spec fn extension_of(f: FileFormat) -> Seq<char> {
    match f {
        FileFormat::Jpeg => "jpg"@,
        FileFormat::Png => "png"@,
        FileFormat::Gif => "gif"@,
        FileFormat::Bmp => "bmp"@,
        FileFormat::Tiff => "tiff"@,
        FileFormat::Webp => "webp"@,
        FileFormat::Pdf => "pdf"@,
        FileFormat::Utf8Text => "txt"@,
        FileFormat::Zip => "zip"@,
        FileFormat::Gzip => "gz"@,
        FileFormat::SevenZip => "7z"@,
        FileFormat::Rar => "rar"@,
        FileFormat::Docx => "docx"@,
        FileFormat::Xlsx => "xlsx"@,
        FileFormat::Pptx => "pptx"@,
        FileFormat::Mp4 => "mp4"@,
        FileFormat::Ogg => "ogg"@,
        FileFormat::Flac => "flac"@,
        FileFormat::Mp3 => "mp3"@,
        FileFormat::Wav => "wav"@,
    }
}

/// The default file extension of `format`.
pub fn default_extension(format: FileFormat) -> (e: &'static str)
    ensures
        e@ == extension_of(format),
{
    match format {
        FileFormat::Jpeg => "jpg",
        FileFormat::Png => "png",
        FileFormat::Gif => "gif",
        FileFormat::Bmp => "bmp",
        FileFormat::Tiff => "tiff",
        FileFormat::Webp => "webp",
        FileFormat::Pdf => "pdf",
        FileFormat::Utf8Text => "txt",
        FileFormat::Zip => "zip",
        FileFormat::Gzip => "gz",
        FileFormat::SevenZip => "7z",
        FileFormat::Rar => "rar",
        FileFormat::Docx => "docx",
        FileFormat::Xlsx => "xlsx",
        FileFormat::Pptx => "pptx",
        FileFormat::Mp4 => "mp4",
        FileFormat::Ogg => "ogg",
        FileFormat::Flac => "flac",
        FileFormat::Mp3 => "mp3",
        FileFormat::Wav => "wav",
    }
}

/// The name of a format as `Debug` writes it.
pub open spec fn format_label(f: FileFormat) -> Seq<char> {
    match f {
        FileFormat::Jpeg => "Jpeg"@,
        FileFormat::Png => "Png"@,
        FileFormat::Gif => "Gif"@,
        FileFormat::Bmp => "Bmp"@,
        FileFormat::Tiff => "Tiff"@,
        FileFormat::Webp => "Webp"@,
        FileFormat::Pdf => "Pdf"@,
        FileFormat::Utf8Text => "Utf8Text"@,
        FileFormat::Zip => "Zip"@,
        FileFormat::Gzip => "Gzip"@,
        FileFormat::SevenZip => "SevenZip"@,
        FileFormat::Rar => "Rar"@,
        FileFormat::Docx => "Docx"@,
        FileFormat::Xlsx => "Xlsx"@,
        FileFormat::Pptx => "Pptx"@,
        FileFormat::Mp4 => "Mp4"@,
        FileFormat::Ogg => "Ogg"@,
        FileFormat::Flac => "Flac"@,
        FileFormat::Mp3 => "Mp3"@,
        FileFormat::Wav => "Wav"@,
    }
}

/// The name of `format` as `Debug` writes it.
pub fn format_name(format: FileFormat) -> (n: &'static str)
    ensures
        n@ == format_label(format),
{
    match format {
        FileFormat::Jpeg => "Jpeg",
        FileFormat::Png => "Png",
        FileFormat::Gif => "Gif",
        FileFormat::Bmp => "Bmp",
        FileFormat::Tiff => "Tiff",
        FileFormat::Webp => "Webp",
        FileFormat::Pdf => "Pdf",
        FileFormat::Utf8Text => "Utf8Text",
        FileFormat::Zip => "Zip",
        FileFormat::Gzip => "Gzip",
        FileFormat::SevenZip => "SevenZip",
        FileFormat::Rar => "Rar",
        FileFormat::Docx => "Docx",
        FileFormat::Xlsx => "Xlsx",
        FileFormat::Pptx => "Pptx",
        FileFormat::Mp4 => "Mp4",
        FileFormat::Ogg => "Ogg",
        FileFormat::Flac => "Flac",
        FileFormat::Mp3 => "Mp3",
        FileFormat::Wav => "Wav",
    }
}

/// `carve-<format>-<offset in lower-case hex>`.
pub open spec fn carve_id(f: FileFormat, offset: nat) -> Seq<char> {
    "carve-"@ + format_label(f) + "-"@ + hex_min(offset, false)
}

/// The identifier of a candidate of `format` at `offset`.
pub fn carve_candidate_id(format: FileFormat, offset: usize) -> (id: String)
    ensures
        id@ == carve_id(format, offset as nat),
{
    let mut v: Vec<char> = Vec::new();
    push_str(&mut v, "carve-");
    push_str(&mut v, format_name(format));
    push_str(&mut v, "-");
    push_chars(&mut v, &hex_min_chars(offset as u64, false));
    string_from_chars(&v)
}

/// What a format validator reports on a span's bytes.
#[derive(Debug, Clone)]
pub struct CarveValidation {
    pub is_valid: bool,
    pub partial: bool,
    pub reasons: Vec<String>,
}

/// The characters of each string.
pub open spec fn strings_view(v: Seq<String>) -> Seq<Seq<char>> {
    Seq::new(v.len(), |i: int| v[i]@)
}

/// The characters of each static string.
pub open spec fn static_strs_view(v: Seq<&'static str>) -> Seq<Seq<char>> {
    Seq::new(v.len(), |i: int| v[i]@)
}

/// A carved candidate.
#[derive(Debug, Clone, PartialEq, Eq)]
pub struct CarvedCandidate {
    pub id: String,
    pub format: FileFormat,
    pub family: CarvingFamily,
    pub offset: usize,
    pub length: usize,
    pub partial: bool,
    pub confidence: ConfidenceTier,
    pub diagnostics: Vec<String>,
}

/// A carved candidate with its strings as characters.
pub struct CarvedCandidateView {
    pub id: Seq<char>,
    pub format: FileFormat,
    pub family: CarvingFamily,
    pub offset: usize,
    pub length: usize,
    pub partial: bool,
    pub confidence: ConfidenceTier,
    pub diagnostics: Seq<Seq<char>>,
}

impl View for CarvedCandidate {
    type V = CarvedCandidateView;

    open spec fn view(&self) -> CarvedCandidateView {
        CarvedCandidateView {
            id: self.id@,
            format: self.format,
            family: self.family,
            offset: self.offset,
            length: self.length,
            partial: self.partial,
            confidence: self.confidence,
            diagnostics: strings_view(self.diagnostics@),
        }
    }
}

/// The candidate of span `s` given its validation `v`: none when the
/// validator rejects it; otherwise scored as carve-only evidence without a
/// known path, with the validator's reasons followed by the scoring reasons.
pub open spec fn carved_of(s: CarveSpan, v: CarveValidation) -> Option<CarvedCandidateView> {
    if !v.is_valid {
        None
    } else {
        let ev = seq![EvidenceSource::Carve];
        Some(
            CarvedCandidateView {
                id: carve_id(s.format, s.offset as nat),
                format: s.format,
                family: format_family(s.format),
                offset: s.offset,
                length: (s.end - s.offset) as usize,
                partial: v.partial,
                confidence: tier_of(final_score(ev, false, v.partial)),
                diagnostics: strings_view(v.reasons@) + static_strs_view(score_reasons(ev, false, v.partial)),
            },
        )
    }
}

fn clone_strings(v: &Vec<String>) -> (r: Vec<String>)
    ensures
        strings_view(r@) == strings_view(v@),
{
    let mut r: Vec<String> = Vec::new();
    let mut k: usize = 0;
    while k < v.len()
        invariant
            k <= v@.len(),
            r@.len() == k,
            forall|i: int| 0 <= i < k ==> #[trigger] r@[i]@ == v@[i]@,
        decreases v@.len() - k,
    {
        r.push(v[k].clone());
        k = k + 1;
    }
    assert(strings_view(r@) =~= strings_view(v@));
    r
}

/// Builds the candidate of `span` from its validation (see `carved_of`).
pub fn carved_candidate(span: &CarveSpan, validation: &CarveValidation) -> (r: Option<CarvedCandidate>)
    requires
        span.offset <= span.end,
    ensures
        match (r, carved_of(*span, *validation)) {
            (Some(c), Some(v)) => c@ == v,
            (None, None) => true,
            _ => false,
        },
{
    if !validation.is_valid {
        return None;
    }
    let length = span.end - span.offset;
    let mut name: Vec<char> = Vec::new();
    push_str(&mut name, "carve_");
    push_chars(&mut name, &zero_pad(hex_min_chars(span.offset as u64, true), 8));
    push_str(&mut name, ".");
    push_str(&mut name, default_extension(span.format));
    let recovery = RecoveryCandidate {
        id: carve_candidate_id(span.format, span.offset),
        original_name: Some(string_from_chars(&name)),
        original_path: None,
        recovered_path: None,
        size_bytes: length as u64,
        evidence: vec![EvidenceSource::Carve],
        confidence: ConfidenceTier::VeryLow,
        partial: validation.partial,
    };
    assert(recovery.evidence@ =~= seq![EvidenceSource::Carve]);
    let scored = score_candidate_with_reasons(&recovery);
    let mut diagnostics = clone_strings(&validation.reasons);
    let ghost base = diagnostics@;
    let mut k: usize = 0;
    while k < scored.reasons.len()
        invariant
            k <= scored.reasons@.len(),
            diagnostics@.len() == base.len() + k,
            forall|i: int| 0 <= i < base.len() ==> #[trigger] diagnostics@[i] == base[i],
            forall|i: int| 0 <= i < k ==> #[trigger] diagnostics@[base.len() + i]@ == scored.reasons@[i]@,
        decreases scored.reasons@.len() - k,
    {
        diagnostics.push(scored.reasons[k].to_owned());
        k = k + 1;
    }
    assert forall|i: int| 0 <= i < diagnostics@.len() implies #[trigger] strings_view(diagnostics@)[i] == (
    strings_view(base) + static_strs_view(scored.reasons@))[i] by {
        if i >= base.len() {
            assert(diagnostics@[base.len() + (i - base.len())]@ == scored.reasons@[i - base.len()]@);
        }
    }
    assert(strings_view(diagnostics@) =~= strings_view(base) + static_strs_view(scored.reasons@));
    Some(
        CarvedCandidate {
            id: recovery.id,
            format: span.format,
            family: family_for_format(span.format),
            offset: span.offset,
            length,
            partial: validation.partial,
            confidence: scored.tier,
            diagnostics,
        },
    )
}

/// The candidates of the first `n` spans, each from its validation, in
/// order, rejected spans left out.
pub open spec fn carved_upto(spans: Seq<CarveSpan>, vals: Seq<CarveValidation>, n: int) -> Seq<CarvedCandidateView>
    decreases n,
{
    if n <= 0 {
        Seq::empty()
    } else {
        match carved_of(spans[n - 1], vals[n - 1]) {
            Some(c) => carved_upto(spans, vals, n - 1).push(c),
            None => carved_upto(spans, vals, n - 1),
        }
    }
}

/// The candidates views of `v`.
pub open spec fn carved_views(v: Seq<CarvedCandidate>) -> Seq<CarvedCandidateView> {
    Seq::new(v.len(), |i: int| v[i]@)
}

/// The candidates of spans whose validations (one per span, in order)
/// accept them, in the spans' order.
pub fn collect_carved(spans: &Vec<CarveSpan>, validations: &Vec<CarveValidation>) -> (r: Vec<CarvedCandidate>)
    requires
        spans@.len() == validations@.len(),
        forall|i: int| 0 <= i < spans@.len() ==> spans@[i].offset <= #[trigger] spans@[i].end,
    ensures
        carved_views(r@) == carved_upto(spans@, validations@, spans@.len() as int),
{
    let mut r: Vec<CarvedCandidate> = Vec::new();
    let mut i: usize = 0;
    while i < spans.len()
        invariant
            spans@.len() == validations@.len(),
            forall|j: int| 0 <= j < spans@.len() ==> spans@[j].offset <= #[trigger] spans@[j].end,
            i <= spans@.len(),
            carved_views(r@) == carved_upto(spans@, validations@, i as int),
        decreases spans@.len() - i,
    {
        assert(spans@[i as int].offset <= spans@[i as int].end);
        match carved_candidate(&spans[i], &validations[i]) {
            Some(c) => {
                r.push(c);
                assert(carved_views(r@) =~= carved_upto(spans@, validations@, i + 1));
            },
            None => {},
        }
        i = i + 1;
    }
    r
}

// ---------------------------------------------------------------------------
// Laws of the span search
// ---------------------------------------------------------------------------

/// Every span of `s` ends at or before `n`.
pub open spec fn spans_within(s: Seq<CarveSpan>, n: int) -> bool {
    forall|k: int| 0 <= k < s.len() ==> #[trigger] s[k].end <= n
}

proof fn lemma_within_concat(a: Seq<CarveSpan>, b: Seq<CarveSpan>, n: int)
    requires
        spans_within(a, n),
        spans_within(b, n),
    ensures
        spans_within(a + b, n),
{
    assert forall|k: int| 0 <= k < (a + b).len() implies #[trigger] (a + b)[k].end <= n by {
        if k < a.len() {
            assert((a + b)[k] == a[k]);
        } else {
            assert((a + b)[k] == b[k - a.len()]);
        }
    }
}

proof fn lemma_spans_of_within(occ: Seq<usize>, f: spec_fn(usize) -> Seq<CarveSpan>, n: int)
    requires
        forall|j: int| 0 <= j < occ.len() ==> spans_within(f(#[trigger] occ[j]), n),
    ensures
        spans_within(spans_of(occ, f), n),
    decreases occ.len(),
{
    if occ.len() > 0 {
        lemma_spans_of_within(occ.drop_last(), f, n);
        assert(spans_within(f(occ[occ.len() - 1]), n));
        lemma_within_concat(spans_of(occ.drop_last(), f), f(occ.last()), n);
    }
}

proof fn lemma_png_end(b: Seq<u8>, c: int)
    requires
        0 <= c,
    ensures
        0 <= png_end(b, c) <= b.len(),
    decreases b.len() - c,
{
    if !(c + 12 > b.len()) {
        let next = c + 12 + be32(b, c);
        if !(next > b.len()) && b.subrange(c + 4, c + 8) != sig_iend() {
            lemma_png_end(b, next);
        }
    }
}

proof fn lemma_nul_from(b: Seq<u8>, j: int)
    requires
        0 <= j,
    ensures
        0 <= nul_from(b, j) <= b.len(),
    decreases b.len() - j,
{
    if j < b.len() && b[j] != 0 {
        lemma_nul_from(b, j + 1);
    }
}

proof fn lemma_header_footer_within(b: Seq<u8>, f: FileFormat, h: Seq<u8>, ft: Option<Seq<u8>>)
    requires
        b.len() <= usize::MAX,
    ensures
        spans_within(header_footer_spans(b, f, h, ft), b.len() as int),
{
    let occ = occurrences(b, h);
    lemma_occurrences(b, h);
    assert forall|j: int| 0 <= j < occ.len() implies spans_within(
        #[trigger] header_footer_fn(b, f, h, ft)(occ[j]),
        b.len() as int,
    ) by {
        let o = occ[j] as int;
        assert(matches_at(b, h, o));
        let e = footer_end(b, o, h.len() as int, ft);
        if let Some(nd) = ft {
            lemma_first_match(b.skip(o + h.len()), nd, 0);
        }
        assert(0 <= e <= b.len());
        assert(header_footer_fn(b, f, h, ft)(occ[j])[0].end == e as usize);
    }
    lemma_spans_of_within(occ, header_footer_fn(b, f, h, ft), b.len() as int);
}

proof fn lemma_rule_within(rule: SpanRule, p: CarvingPlanView, b: Seq<u8>, sig: Seq<u8>)
    requires
        b.len() <= usize::MAX,
        sig.len() >= rule_reach(rule),
    ensures
        spans_within(spans_of(occurrences(b, sig), rule_fn(rule, p, b)), b.len() as int),
{
    let occ = occurrences(b, sig);
    let f = rule_fn(rule, p, b);
    lemma_occurrences(b, sig);
    assert forall|j: int| 0 <= j < occ.len() implies spans_within(#[trigger] f(occ[j]), b.len() as int) by {
        let o = occ[j];
        assert(matches_at(b, sig, o as int));
        match rule {
            SpanRule::Png => {
                lemma_png_end(b, o + 8);
            },
            SpanRule::Utf8 => {
                lemma_nul_from(b, o + 3);
            },
            SpanRule::Zip => {
                lemma_last_match(b.skip(o as int), sig_zip_end(), b.len() - o);
                assert(0 <= zip_end(b, o as int) <= b.len());
                let e = zip_end(b, o as int) as usize;
                let g = f(o);
                assert forall|k: int| 0 <= k < g.len() implies #[trigger] g[k].end <= b.len() by {
                    assert(g[k].end == e);
                }
            },
            SpanRule::Webp => {
                assert(le32(b, o + 4) >= 0);
            },
            SpanRule::Wav => {
                assert(le32(b, o + 4) >= 0);
            },
            SpanRule::Mp4 => {
                assert(be32(b, o - 4) >= 0);
            },
            _ => {},
        }
    }
    lemma_spans_of_within(occ, f, b.len() as int);
}

proof fn lemma_early_within(p: CarvingPlanView, b: Seq<u8>)
    requires
        b.len() <= usize::MAX,
    ensures
        spans_within(early_spans(p, b), b.len() as int),
{
    let n = b.len() as int;
    lemma_header_footer_within(b, FileFormat::Jpeg, sig_jpeg(), Some(sig_jpeg_end()));
    lemma_rule_within(SpanRule::Png, p, b, sig_png());
    lemma_header_footer_within(b, FileFormat::Gif, sig_gif89(), Some(sig_gif_end()));
    lemma_header_footer_within(b, FileFormat::Gif, sig_gif87(), Some(sig_gif_end()));
    lemma_within_concat(
        header_footer_spans(b, FileFormat::Gif, sig_gif89(), Some(sig_gif_end())),
        header_footer_spans(b, FileFormat::Gif, sig_gif87(), Some(sig_gif_end())),
        n,
    );
    lemma_rule_within(SpanRule::Bmp, p, b, sig_bmp());
    lemma_rule_within(SpanRule::Tiff, p, b, sig_tiff_le());
    lemma_rule_within(SpanRule::Tiff, p, b, sig_tiff_be());
    lemma_within_concat(
        spans_of(occurrences(b, sig_tiff_le()), tiff_fn(b)),
        spans_of(occurrences(b, sig_tiff_be()), tiff_fn(b)),
        n,
    );
    lemma_rule_within(SpanRule::Webp, p, b, sig_riff());
    lemma_header_footer_within(b, FileFormat::Pdf, sig_pdf(), Some(sig_pdf_end()));
    lemma_rule_within(SpanRule::Utf8, p, b, sig_bom());
    let e1 = when(plan_enables(p, FileFormat::Jpeg), header_footer_spans(b, FileFormat::Jpeg, sig_jpeg(), Some(sig_jpeg_end())));
    let e2 = when(plan_enables(p, FileFormat::Png), spans_of(occurrences(b, sig_png()), png_fn(b)));
    let e3 = when(
        plan_enables(p, FileFormat::Gif),
        header_footer_spans(b, FileFormat::Gif, sig_gif89(), Some(sig_gif_end())) + header_footer_spans(
            b,
            FileFormat::Gif,
            sig_gif87(),
            Some(sig_gif_end()),
        ),
    );
    let e4 = when(plan_enables(p, FileFormat::Bmp), spans_of(occurrences(b, sig_bmp()), bmp_fn(b)));
    let e5 = when(
        plan_enables(p, FileFormat::Tiff),
        spans_of(occurrences(b, sig_tiff_le()), tiff_fn(b)) + spans_of(occurrences(b, sig_tiff_be()), tiff_fn(b)),
    );
    let e6 = when(plan_enables(p, FileFormat::Webp), spans_of(occurrences(b, sig_riff()), webp_fn(b)));
    let e7 = when(plan_enables(p, FileFormat::Pdf), header_footer_spans(b, FileFormat::Pdf, sig_pdf(), Some(sig_pdf_end())));
    let e8 = when(plan_enables(p, FileFormat::Utf8Text), spans_of(occurrences(b, sig_bom()), utf8_fn(b)));
    assert(rule_fn(SpanRule::Png, p, b) == png_fn(b));
    assert(rule_fn(SpanRule::Bmp, p, b) == bmp_fn(b));
    assert(rule_fn(SpanRule::Tiff, p, b) == tiff_fn(b));
    assert(rule_fn(SpanRule::Webp, p, b) == webp_fn(b));
    assert(rule_fn(SpanRule::Utf8, p, b) == utf8_fn(b));
    lemma_within_concat(e1, e2, n);
    lemma_within_concat(e1 + e2, e3, n);
    lemma_within_concat(e1 + e2 + e3, e4, n);
    lemma_within_concat(e1 + e2 + e3 + e4, e5, n);
    lemma_within_concat(e1 + e2 + e3 + e4 + e5, e6, n);
    lemma_within_concat(e1 + e2 + e3 + e4 + e5 + e6, e7, n);
    lemma_within_concat(e1 + e2 + e3 + e4 + e5 + e6 + e7, e8, n);
}

proof fn lemma_late_within(p: CarvingPlanView, b: Seq<u8>)
    requires
        b.len() <= usize::MAX,
    ensures
        spans_within(late_spans(p, b), b.len() as int),
{
    let n = b.len() as int;
    lemma_rule_within(SpanRule::Zip, p, b, sig_zip());
    lemma_header_footer_within(b, FileFormat::Gzip, sig_gzip(), None);
    lemma_header_footer_within(b, FileFormat::SevenZip, sig_7z(), None);
    lemma_header_footer_within(b, FileFormat::Rar, sig_rar4(), None);
    lemma_header_footer_within(b, FileFormat::Rar, sig_rar5(), None);
    lemma_within_concat(
        header_footer_spans(b, FileFormat::Rar, sig_rar4(), None),
        header_footer_spans(b, FileFormat::Rar, sig_rar5(), None),
        n,
    );
    lemma_rule_within(SpanRule::Mp4, p, b, sig_ftyp());
    lemma_header_footer_within(b, FileFormat::Ogg, sig_ogg(), None);
    lemma_header_footer_within(b, FileFormat::Flac, sig_flac(), None);
    lemma_rule_within(SpanRule::Wav, p, b, sig_riff());
    lemma_header_footer_within(b, FileFormat::Mp3, sig_mp3(), None);
    assert(rule_fn(SpanRule::Zip, p, b) == zip_fn(p, b));
    assert(rule_fn(SpanRule::Mp4, p, b) == mp4_fn(b));
    assert(rule_fn(SpanRule::Wav, p, b) == wav_fn(b));
    let l1 = when(zip_related(p), spans_of(occurrences(b, sig_zip()), zip_fn(p, b)));
    let l2 = when(plan_enables(p, FileFormat::Gzip), header_footer_spans(b, FileFormat::Gzip, sig_gzip(), None));
    let l3 = when(plan_enables(p, FileFormat::SevenZip), header_footer_spans(b, FileFormat::SevenZip, sig_7z(), None));
    let l4 = when(
        plan_enables(p, FileFormat::Rar),
        header_footer_spans(b, FileFormat::Rar, sig_rar4(), None) + header_footer_spans(
            b,
            FileFormat::Rar,
            sig_rar5(),
            None,
        ),
    );
    let l5 = when(plan_enables(p, FileFormat::Mp4), spans_of(occurrences(b, sig_ftyp()), mp4_fn(b)));
    let l6 = when(plan_enables(p, FileFormat::Ogg), header_footer_spans(b, FileFormat::Ogg, sig_ogg(), None));
    let l7 = when(plan_enables(p, FileFormat::Flac), header_footer_spans(b, FileFormat::Flac, sig_flac(), None));
    let l8 = when(plan_enables(p, FileFormat::Wav), spans_of(occurrences(b, sig_riff()), wav_fn(b)));
    let l9 = when(plan_enables(p, FileFormat::Mp3), header_footer_spans(b, FileFormat::Mp3, sig_mp3(), None));
    lemma_within_concat(l1, l2, n);
    lemma_within_concat(l1 + l2, l3, n);
    lemma_within_concat(l1 + l2 + l3, l4, n);
    lemma_within_concat(l1 + l2 + l3 + l4, l5, n);
    lemma_within_concat(l1 + l2 + l3 + l4 + l5, l6, n);
    lemma_within_concat(l1 + l2 + l3 + l4 + l5 + l6, l7, n);
    lemma_within_concat(l1 + l2 + l3 + l4 + l5 + l6 + l7, l8, n);
    lemma_within_concat(l1 + l2 + l3 + l4 + l5 + l6 + l7 + l8, l9, n);
}

proof fn lemma_raw_within(p: CarvingPlanView, b: Seq<u8>)
    requires
        b.len() <= usize::MAX,
    ensures
        spans_within(raw_spans(p, b), b.len() as int),
{
    lemma_early_within(p, b);
    lemma_late_within(p, b);
    lemma_within_concat(early_spans(p, b), late_spans(p, b), b.len() as int);
}

/// Every span of `s` is non-empty, and no two share a format and an offset.
pub open spec fn distinct_nonempty(s: Seq<CarveSpan>) -> bool {
    &&& forall|k: int| 0 <= k < s.len() ==> #[trigger] s[k].offset < s[k].end
    &&& forall|i: int, j: int|
        0 <= i < j < s.len() ==> !(#[trigger] s[i].offset == #[trigger] s[j].offset && s[i].format == s[j].format)
}

/// The spans of `s` are ordered by offset.
pub open spec fn ordered_by_offset(s: Seq<CarveSpan>) -> bool {
    forall|i: int, j: int| 0 <= i < j < s.len() ==> #[trigger] s[i].offset <= #[trigger] s[j].offset
}

proof fn lemma_kept(raw: Seq<CarveSpan>, n: int)
    requires
        spans_within(raw, n),
    ensures
        spans_within(kept_spans(raw), n),
        distinct_nonempty(kept_spans(raw)),
    decreases raw.len(),
{
    if raw.len() > 0 {
        let d = raw.drop_last();
        assert(spans_within(d, n)) by {
            assert forall|k: int| 0 <= k < d.len() implies #[trigger] d[k].end <= n by {
                assert(d[k] == raw[k]);
            }
        }
        lemma_kept(d, n);
        let prev = kept_spans(d);
        let x = raw.last();
        assert(x == raw[raw.len() - 1]);
        if !(x.end <= x.offset || seen_before(prev, x)) {
            let t = prev.push(x);
            assert(kept_spans(raw) == t);
            assert forall|i: int, j: int| 0 <= i < j < t.len() implies !(#[trigger] t[i].offset
                == #[trigger] t[j].offset && t[i].format == t[j].format) by {
                if j == t.len() - 1 {
                    assert(t[j] == x);
                    assert(t[i] == prev[i]);
                } else {
                    assert(t[i] == prev[i] && t[j] == prev[j]);
                }
            }
        }
    }
}

proof fn lemma_insert_pos_props(t: Seq<CarveSpan>, off: usize, j: int)
    requires
        ordered_by_offset(t),
        0 <= j <= t.len(),
        forall|k: int| 0 <= k < j ==> #[trigger] t[k].offset <= off,
    ensures
        j <= insert_pos(t, off, j) <= t.len(),
        forall|k: int| 0 <= k < insert_pos(t, off, j) ==> #[trigger] t[k].offset <= off,
        forall|k: int| insert_pos(t, off, j) <= k < t.len() ==> #[trigger] t[k].offset > off,
    decreases t.len() - j,
{
    if j < t.len() {
        if t[j].offset <= off {
            lemma_insert_pos_props(t, off, j + 1);
        } else {
            assert forall|k: int| j <= k < t.len() implies #[trigger] t[k].offset > off by {
                if k > j {
                    assert(t[j].offset <= t[k].offset);
                }
            }
        }
    }
}

proof fn lemma_sorted(s: Seq<CarveSpan>)
    ensures
        sorted_by_offset(s).to_multiset() == s.to_multiset(),
        sorted_by_offset(s).len() == s.len(),
        ordered_by_offset(sorted_by_offset(s)),
        forall|y: CarveSpan| sorted_by_offset(s).contains(y) <==> s.contains(y),
    decreases s.len(),
{
    if s.len() == 0 {
        assert(sorted_by_offset(s) =~= s);
    } else {
        let d = s.drop_last();
        let x = s.last();
        let t = sorted_by_offset(d);
        lemma_sorted(d);
        lemma_insert_pos_props(t, x.offset, 0);
        let p = insert_pos(t, x.offset, 0);
        let r = t.insert(p, x);
        assert(sorted_by_offset(s) == r);
        vstd::seq_lib::to_multiset_insert(t, p, x);
        assert(s =~= d.push(x));
        vstd::seq_lib::to_multiset_build(d, x);
        assert forall|i: int, j: int| 0 <= i < j < r.len() implies #[trigger] r[i].offset <= #[trigger] r[j].offset by {
            if j < p {
                assert(r[i] == t[i] && r[j] == t[j]);
            } else if j == p {
                assert(r[j] == x && r[i] == t[i]);
            } else if i < p {
                assert(r[i] == t[i] && r[j] == t[j - 1]);
            } else if i == p {
                assert(r[i] == x && r[j] == t[j - 1]);
            } else {
                assert(r[i] == t[i - 1] && r[j] == t[j - 1]);
            }
        }
        assert forall|y: CarveSpan| r.contains(y) <==> s.contains(y) by {
            vstd::seq_lib::to_multiset_contains(r, y);
            vstd::seq_lib::to_multiset_contains(s, y);
        }
    }
}

proof fn lemma_sorted_distinct(s: Seq<CarveSpan>)
    requires
        distinct_nonempty(s),
    ensures
        distinct_nonempty(sorted_by_offset(s)),
    decreases s.len(),
{
    if s.len() > 0 {
        let d = s.drop_last();
        let x = s.last();
        assert(distinct_nonempty(d)) by {
            assert forall|i: int, j: int| 0 <= i < j < d.len() implies !(#[trigger] d[i].offset == #[trigger] d[j].offset
                && d[i].format == d[j].format) by {
                assert(d[i] == s[i] && d[j] == s[j]);
            }
            assert forall|k: int| 0 <= k < d.len() implies #[trigger] d[k].offset < d[k].end by {
                assert(d[k] == s[k]);
            }
        }
        lemma_sorted_distinct(d);
        lemma_sorted(d);
        let t = sorted_by_offset(d);
        lemma_insert_pos_bounds(t, x.offset, 0);
        let p = insert_pos(t, x.offset, 0);
        let r = t.insert(p, x);
        assert(sorted_by_offset(s) == r);
        assert(x == s[s.len() - 1]);
        assert forall|k: int| 0 <= k < t.len() implies !(#[trigger] t[k].offset == x.offset && t[k].format == x.format) by {
            assert(t.contains(t[k]));
            assert(d.contains(t[k]));
            let m = choose|m: int| 0 <= m < d.len() && d[m] == t[k];
            assert(s[m] == d[m]);
        }
        assert forall|k: int| 0 <= k < r.len() implies #[trigger] r[k].offset < r[k].end by {
            if k < p {
                assert(r[k] == t[k]);
            } else if k > p {
                assert(r[k] == t[k - 1]);
            }
        }
        assert forall|i: int, j: int| 0 <= i < j < r.len() implies !(#[trigger] r[i].offset == #[trigger] r[j].offset
            && r[i].format == r[j].format) by {
            if j < p {
                assert(r[i] == t[i] && r[j] == t[j]);
            } else if j == p {
                assert(r[j] == x && r[i] == t[i]);
            } else if i < p {
                assert(r[i] == t[i] && r[j] == t[j - 1]);
            } else if i == p {
                assert(r[i] == x && r[j] == t[j - 1]);
            } else {
                assert(r[i] == t[i - 1] && r[j] == t[j - 1]);
            }
        }
    }
}

/// The spans a carving pass hands to validation are ordered by offset,
/// non-empty, inside the scanned window, and claim each format at an
/// offset at most once; they are the kept spans of the search, reordered.
pub proof fn law_carve_spans_ordered_in_window(p: CarvingPlanView, b: Seq<u8>)
    requires
        b.len() <= usize::MAX,
    ensures
        ordered_by_offset(carve_spans_of(p, b)),
        distinct_nonempty(carve_spans_of(p, b)),
        spans_within(carve_spans_of(p, b), scan_window(b, p.max_scan_bytes).len() as int),
        carve_spans_of(p, b).to_multiset() == kept_spans(raw_spans(p, scan_window(b, p.max_scan_bytes))).to_multiset(),
{
    let w = scan_window(b, p.max_scan_bytes);
    let k = kept_spans(raw_spans(p, w));
    lemma_raw_within(p, w);
    lemma_kept(raw_spans(p, w), w.len() as int);
    lemma_sorted(k);
    lemma_sorted_distinct(k);
    let r = sorted_by_offset(k);
    assert forall|i: int| 0 <= i < r.len() implies #[trigger] r[i].end <= w.len() by {
        assert(r.contains(r[i]));
        assert(k.contains(r[i]));
        let m = choose|m: int| 0 <= m < k.len() && k[m] == r[i];
        assert(k[m].end <= w.len());
    }
}

/// The candidates of a carving pass of `b` under plan `p`, the spans'
/// validations being `vals`, one per span.
pub open spec fn carve_pass_candidates(p: CarvingPlanView, b: Seq<u8>, vals: Seq<CarveValidation>) -> Seq<
    CarvedCandidateView,
> {
    carved_upto(carve_spans_of(p, b), vals, vals.len() as int)
}

proof fn lemma_carved_upto_follows(s: Seq<CarveSpan>, vals: Seq<CarveValidation>, n: int, bound: int)
    requires
        0 <= n <= s.len(),
        vals.len() == s.len(),
        ordered_by_offset(s),
        distinct_nonempty(s),
        spans_within(s, bound),
    ensures
        carved_upto(s, vals, n).len() <= n,
        forall|k: int|
            0 <= k < carved_upto(s, vals, n).len() ==> exists|m: int|
                0 <= m < n && #[trigger] carved_upto(s, vals, n)[k].offset == s[m].offset
                    && carved_upto(s, vals, n)[k].format == s[m].format
                    && carved_upto(s, vals, n)[k].offset + carved_upto(s, vals, n)[k].length == s[m].end,
        forall|i: int, j: int|
            0 <= i < j < carved_upto(s, vals, n).len() ==> #[trigger] carved_upto(s, vals, n)[i].offset
                <= #[trigger] carved_upto(s, vals, n)[j].offset,
        forall|i: int, j: int|
            0 <= i < j < carved_upto(s, vals, n).len() ==> !(#[trigger] carved_upto(s, vals, n)[i].offset
                == #[trigger] carved_upto(s, vals, n)[j].offset && carved_upto(s, vals, n)[i].format
                == carved_upto(s, vals, n)[j].format),
    decreases n,
{
    if n > 0 {
        lemma_carved_upto_follows(s, vals, n - 1, bound);
        let prev = carved_upto(s, vals, n - 1);
        let c = carved_upto(s, vals, n);
        let sp = s[n - 1];
        assert(sp.offset < sp.end);
        match carved_of(sp, vals[n - 1]) {
            Some(x) => {
                assert(c == prev.push(x));
                assert(x.offset == sp.offset && x.format == sp.format && x.offset + x.length == sp.end);
                assert forall|k: int| 0 <= k < c.len() implies exists|m: int|
                    0 <= m < n && #[trigger] c[k].offset == s[m].offset && c[k].format == s[m].format
                        && c[k].offset + c[k].length == s[m].end by {
                    if k < prev.len() {
                        assert(c[k] == prev[k]);
                        let m = choose|m: int|
                            0 <= m < n - 1 && #[trigger] prev[k].offset == s[m].offset && prev[k].format == s[m].format
                                && prev[k].offset + prev[k].length == s[m].end;
                        assert(0 <= m < n && c[k].offset == s[m].offset);
                    } else {
                        assert(c[k] == x);
                        assert(0 <= n - 1 < n && c[k].offset == s[n - 1].offset);
                    }
                }
                assert forall|i: int, j: int| 0 <= i < j < c.len() implies #[trigger] c[i].offset
                    <= #[trigger] c[j].offset && !(c[i].offset == c[j].offset && c[i].format == c[j].format) by {
                    assert(c[i] == prev[i]);
                    if j < prev.len() {
                        assert(c[j] == prev[j]);
                    } else {
                        assert(c[j] == x);
                        let m = choose|m: int|
                            0 <= m < n - 1 && #[trigger] prev[i].offset == s[m].offset && prev[i].format == s[m].format
                                && prev[i].offset + prev[i].length == s[m].end;
                        assert(s[m].offset <= s[n - 1].offset);
                        assert(!(s[m].offset == s[n - 1].offset && s[m].format == s[n - 1].format));
                    }
                }
            },
            None => {
                assert(c == prev);
                assert forall|k: int| 0 <= k < c.len() implies exists|m: int|
                    0 <= m < n && #[trigger] c[k].offset == s[m].offset && c[k].format == s[m].format
                        && c[k].offset + c[k].length == s[m].end by {
                    let m = choose|m: int|
                        0 <= m < n - 1 && #[trigger] prev[k].offset == s[m].offset && prev[k].format == s[m].format
                            && prev[k].offset + prev[k].length == s[m].end;
                    assert(0 <= m < n && c[k].offset == s[m].offset);
                }
            },
        }
    }
}

/// The candidates of a carving pass come out in the order of the spans:
/// by offset, each format at an offset at most once, each non-empty and
/// inside the scanned window, and no more of them than spans.
pub proof fn law_carved_candidates_ordered_in_window(p: CarvingPlanView, b: Seq<u8>, vals: Seq<CarveValidation>)
    requires
        b.len() <= usize::MAX,
        vals.len() == carve_spans_of(p, b).len(),
    ensures
        carve_pass_candidates(p, b, vals).len() <= carve_spans_of(p, b).len(),
        forall|i: int, j: int|
            0 <= i < j < carve_pass_candidates(p, b, vals).len() ==> #[trigger] carve_pass_candidates(p, b, vals)[i].offset
                <= #[trigger] carve_pass_candidates(p, b, vals)[j].offset,
        forall|i: int, j: int|
            0 <= i < j < carve_pass_candidates(p, b, vals).len() ==> !(
            #[trigger] carve_pass_candidates(p, b, vals)[i].offset == #[trigger] carve_pass_candidates(p, b, vals)[j].offset
                && carve_pass_candidates(p, b, vals)[i].format == carve_pass_candidates(p, b, vals)[j].format),
        forall|k: int|
            0 <= k < carve_pass_candidates(p, b, vals).len() ==> 0 < #[trigger] carve_pass_candidates(p, b, vals)[k].length
                && carve_pass_candidates(p, b, vals)[k].offset + carve_pass_candidates(p, b, vals)[k].length
                <= scan_window(b, p.max_scan_bytes).len(),
{
    let s = carve_spans_of(p, b);
    let bound = scan_window(b, p.max_scan_bytes).len() as int;
    law_carve_spans_ordered_in_window(p, b);
    lemma_carved_upto_follows(s, vals, s.len() as int, bound);
    let c = carve_pass_candidates(p, b, vals);
    assert forall|k: int| 0 <= k < c.len() implies 0 < #[trigger] c[k].length && c[k].offset + c[k].length <= bound by {
        let m = choose|m: int|
            0 <= m < s.len() && #[trigger] c[k].offset == s[m].offset && c[k].format == s[m].format
                && c[k].offset + c[k].length == s[m].end;
        assert(s[m].offset < s[m].end && s[m].end <= bound);
    }
}

/// No span of `s` claims the BMP format.
pub open spec fn no_bmp(s: Seq<CarveSpan>) -> bool {
    forall|k: int| 0 <= k < s.len() ==> #[trigger] s[k].format != FileFormat::Bmp
}

proof fn lemma_no_bmp_concat(a: Seq<CarveSpan>, b: Seq<CarveSpan>)
    requires
        no_bmp(a),
        no_bmp(b),
    ensures
        no_bmp(a + b),
{
    assert forall|k: int| 0 <= k < (a + b).len() implies #[trigger] (a + b)[k].format != FileFormat::Bmp by {
        if k < a.len() {
            assert((a + b)[k] == a[k]);
        } else {
            assert((a + b)[k] == b[k - a.len()]);
        }
    }
}

proof fn lemma_no_bmp_when(c: bool, s: Seq<CarveSpan>)
    requires
        no_bmp(s),
    ensures
        no_bmp(when(c, s)),
{
}

proof fn lemma_spans_of_no_bmp(occ: Seq<usize>, f: spec_fn(usize) -> Seq<CarveSpan>)
    requires
        forall|o: usize| #[trigger] no_bmp(f(o)),
    ensures
        no_bmp(spans_of(occ, f)),
    decreases occ.len(),
{
    if occ.len() > 0 {
        lemma_spans_of_no_bmp(occ.drop_last(), f);
        assert(no_bmp(f(occ.last())));
        lemma_no_bmp_concat(spans_of(occ.drop_last(), f), f(occ.last()));
    }
}

proof fn lemma_header_footer_no_bmp(b: Seq<u8>, f: FileFormat, h: Seq<u8>, ft: Option<Seq<u8>>)
    requires
        f != FileFormat::Bmp,
    ensures
        no_bmp(header_footer_spans(b, f, h, ft)),
{
    assert forall|o: usize| #[trigger] no_bmp(header_footer_fn(b, f, h, ft)(o)) by {}
    lemma_spans_of_no_bmp(occurrences(b, h), header_footer_fn(b, f, h, ft));
}

proof fn lemma_contains_concat(a: Seq<CarveSpan>, b: Seq<CarveSpan>, x: CarveSpan)
    requires
        (a + b).contains(x),
    ensures
        a.contains(x) || b.contains(x),
{
    let k = choose|k: int| 0 <= k < (a + b).len() && (a + b)[k] == x;
    if k < a.len() {
        assert(a[k] == x);
    } else {
        assert(b[k - a.len()] == x);
    }
}

proof fn lemma_bmp_in_right(a: Seq<CarveSpan>, b: Seq<CarveSpan>, x: CarveSpan)
    requires
        (a + b).contains(x),
        x.format == FileFormat::Bmp,
        no_bmp(a),
    ensures
        b.contains(x),
{
    lemma_contains_concat(a, b, x);
    if a.contains(x) {
        let k = choose|k: int| 0 <= k < a.len() && a[k] == x;
        assert(a[k].format != FileFormat::Bmp);
    }
}

proof fn lemma_bmp_in_left(a: Seq<CarveSpan>, b: Seq<CarveSpan>, x: CarveSpan)
    requires
        (a + b).contains(x),
        x.format == FileFormat::Bmp,
        no_bmp(b),
    ensures
        a.contains(x),
{
    lemma_contains_concat(a, b, x);
    if b.contains(x) {
        let k = choose|k: int| 0 <= k < b.len() && b[k] == x;
        assert(b[k].format != FileFormat::Bmp);
    }
}

proof fn lemma_spans_of_member(occ: Seq<usize>, f: spec_fn(usize) -> Seq<CarveSpan>, x: CarveSpan)
    requires
        spans_of(occ, f).contains(x),
    ensures
        exists|i: int| 0 <= i < occ.len() && #[trigger] f(occ[i]).contains(x),
    decreases occ.len(),
{
    if occ.len() > 0 {
        lemma_contains_concat(spans_of(occ.drop_last(), f), f(occ.last()), x);
        if spans_of(occ.drop_last(), f).contains(x) {
            lemma_spans_of_member(occ.drop_last(), f, x);
            let i = choose|i: int| 0 <= i < occ.drop_last().len() && #[trigger] f(occ.drop_last()[i]).contains(x);
            assert(occ.drop_last()[i] == occ[i]);
        } else {
            assert(f(occ[occ.len() - 1]).contains(x));
        }
    }
}

proof fn lemma_kept_within_raw(raw: Seq<CarveSpan>, x: CarveSpan)
    requires
        kept_spans(raw).contains(x),
    ensures
        raw.contains(x),
    decreases raw.len(),
{
    if raw.len() > 0 {
        let prev = kept_spans(raw.drop_last());
        if prev.contains(x) {
            lemma_kept_within_raw(raw.drop_last(), x);
            let k = choose|k: int| 0 <= k < raw.drop_last().len() && raw.drop_last()[k] == x;
            assert(raw[k] == x);
        } else {
            let k = choose|k: int| 0 <= k < kept_spans(raw).len() && kept_spans(raw)[k] == x;
            assert(kept_spans(raw) == prev.push(raw.last()));
            assert(k == prev.len());
            assert(raw[raw.len() - 1] == x);
        }
    }
}

proof fn lemma_late_no_bmp(p: CarvingPlanView, w: Seq<u8>)
    ensures
        no_bmp(late_spans(p, w)),
{
    assert forall|o: usize| #[trigger] no_bmp(zip_fn(p, w)(o)) by {
        let a = span_if(plan_enables(p, FileFormat::Zip), CarveSpan { format: FileFormat::Zip, offset: o, end: zip_end(w, o as int) as usize });
        let bb = span_if(plan_enables(p, FileFormat::Docx), CarveSpan { format: FileFormat::Docx, offset: o, end: zip_end(w, o as int) as usize });
        let c = span_if(plan_enables(p, FileFormat::Xlsx), CarveSpan { format: FileFormat::Xlsx, offset: o, end: zip_end(w, o as int) as usize });
        let d = span_if(plan_enables(p, FileFormat::Pptx), CarveSpan { format: FileFormat::Pptx, offset: o, end: zip_end(w, o as int) as usize });
        lemma_no_bmp_concat(a, bb);
        lemma_no_bmp_concat(a + bb, c);
        lemma_no_bmp_concat(a + bb + c, d);
    }
    lemma_spans_of_no_bmp(occurrences(w, sig_zip()), zip_fn(p, w));
    lemma_header_footer_no_bmp(w, FileFormat::Gzip, sig_gzip(), None);
    lemma_header_footer_no_bmp(w, FileFormat::SevenZip, sig_7z(), None);
    lemma_header_footer_no_bmp(w, FileFormat::Rar, sig_rar4(), None);
    lemma_header_footer_no_bmp(w, FileFormat::Rar, sig_rar5(), None);
    assert forall|o: usize| #[trigger] no_bmp(mp4_fn(w)(o)) by {}
    lemma_spans_of_no_bmp(occurrences(w, sig_ftyp()), mp4_fn(w));
    lemma_header_footer_no_bmp(w, FileFormat::Ogg, sig_ogg(), None);
    lemma_header_footer_no_bmp(w, FileFormat::Flac, sig_flac(), None);
    assert forall|o: usize| #[trigger] no_bmp(wav_fn(w)(o)) by {}
    lemma_spans_of_no_bmp(occurrences(w, sig_riff()), wav_fn(w));
    lemma_header_footer_no_bmp(w, FileFormat::Mp3, sig_mp3(), None);
    let l1 = when(zip_related(p), spans_of(occurrences(w, sig_zip()), zip_fn(p, w)));
    let l2 = when(plan_enables(p, FileFormat::Gzip), header_footer_spans(w, FileFormat::Gzip, sig_gzip(), None));
    let l3 = when(plan_enables(p, FileFormat::SevenZip), header_footer_spans(w, FileFormat::SevenZip, sig_7z(), None));
    let l4 = when(
        plan_enables(p, FileFormat::Rar),
        header_footer_spans(w, FileFormat::Rar, sig_rar4(), None) + header_footer_spans(w, FileFormat::Rar, sig_rar5(), None),
    );
    let l5 = when(plan_enables(p, FileFormat::Mp4), spans_of(occurrences(w, sig_ftyp()), mp4_fn(w)));
    let l6 = when(plan_enables(p, FileFormat::Ogg), header_footer_spans(w, FileFormat::Ogg, sig_ogg(), None));
    let l7 = when(plan_enables(p, FileFormat::Flac), header_footer_spans(w, FileFormat::Flac, sig_flac(), None));
    let l8 = when(plan_enables(p, FileFormat::Wav), spans_of(occurrences(w, sig_riff()), wav_fn(w)));
    let l9 = when(plan_enables(p, FileFormat::Mp3), header_footer_spans(w, FileFormat::Mp3, sig_mp3(), None));
    lemma_no_bmp_concat(header_footer_spans(w, FileFormat::Rar, sig_rar4(), None), header_footer_spans(w, FileFormat::Rar, sig_rar5(), None));
    lemma_no_bmp_concat(l1, l2);
    lemma_no_bmp_concat(l1 + l2, l3);
    lemma_no_bmp_concat(l1 + l2 + l3, l4);
    lemma_no_bmp_concat(l1 + l2 + l3 + l4, l5);
    lemma_no_bmp_concat(l1 + l2 + l3 + l4 + l5, l6);
    lemma_no_bmp_concat(l1 + l2 + l3 + l4 + l5 + l6, l7);
    lemma_no_bmp_concat(l1 + l2 + l3 + l4 + l5 + l6 + l7, l8);
    lemma_no_bmp_concat(l1 + l2 + l3 + l4 + l5 + l6 + l7 + l8, l9);
}

proof fn lemma_raw_bmp_from_bmp_rule(p: CarvingPlanView, w: Seq<u8>, x: CarveSpan)
    requires
        raw_spans(p, w).contains(x),
        x.format == FileFormat::Bmp,
    ensures
        spans_of(occurrences(w, sig_bmp()), bmp_fn(w)).contains(x),
{
    lemma_late_no_bmp(p, w);
    lemma_header_footer_no_bmp(w, FileFormat::Jpeg, sig_jpeg(), Some(sig_jpeg_end()));
    assert forall|o: usize| #[trigger] no_bmp(png_fn(w)(o)) by {}
    lemma_spans_of_no_bmp(occurrences(w, sig_png()), png_fn(w));
    lemma_header_footer_no_bmp(w, FileFormat::Gif, sig_gif89(), Some(sig_gif_end()));
    lemma_header_footer_no_bmp(w, FileFormat::Gif, sig_gif87(), Some(sig_gif_end()));
    assert forall|o: usize| #[trigger] no_bmp(tiff_fn(w)(o)) by {}
    lemma_spans_of_no_bmp(occurrences(w, sig_tiff_le()), tiff_fn(w));
    lemma_spans_of_no_bmp(occurrences(w, sig_tiff_be()), tiff_fn(w));
    assert forall|o: usize| #[trigger] no_bmp(webp_fn(w)(o)) by {}
    lemma_spans_of_no_bmp(occurrences(w, sig_riff()), webp_fn(w));
    lemma_header_footer_no_bmp(w, FileFormat::Pdf, sig_pdf(), Some(sig_pdf_end()));
    assert forall|o: usize| #[trigger] no_bmp(utf8_fn(w)(o)) by {}
    lemma_spans_of_no_bmp(occurrences(w, sig_bom()), utf8_fn(w));
    let j = when(plan_enables(p, FileFormat::Jpeg), header_footer_spans(w, FileFormat::Jpeg, sig_jpeg(), Some(sig_jpeg_end())));
    let pn = when(plan_enables(p, FileFormat::Png), spans_of(occurrences(w, sig_png()), png_fn(w)));
    let g = when(
        plan_enables(p, FileFormat::Gif),
        header_footer_spans(w, FileFormat::Gif, sig_gif89(), Some(sig_gif_end())) + header_footer_spans(
            w,
            FileFormat::Gif,
            sig_gif87(),
            Some(sig_gif_end()),
        ),
    );
    let bm = when(plan_enables(p, FileFormat::Bmp), spans_of(occurrences(w, sig_bmp()), bmp_fn(w)));
    let t = when(
        plan_enables(p, FileFormat::Tiff),
        spans_of(occurrences(w, sig_tiff_le()), tiff_fn(w)) + spans_of(occurrences(w, sig_tiff_be()), tiff_fn(w)),
    );
    let we = when(plan_enables(p, FileFormat::Webp), spans_of(occurrences(w, sig_riff()), webp_fn(w)));
    let pd = when(plan_enables(p, FileFormat::Pdf), header_footer_spans(w, FileFormat::Pdf, sig_pdf(), Some(sig_pdf_end())));
    let u = when(plan_enables(p, FileFormat::Utf8Text), spans_of(occurrences(w, sig_bom()), utf8_fn(w)));
    lemma_no_bmp_concat(
        header_footer_spans(w, FileFormat::Gif, sig_gif89(), Some(sig_gif_end())),
        header_footer_spans(w, FileFormat::Gif, sig_gif87(), Some(sig_gif_end())),
    );
    lemma_no_bmp_concat(spans_of(occurrences(w, sig_tiff_le()), tiff_fn(w)), spans_of(occurrences(w, sig_tiff_be()), tiff_fn(w)));
    lemma_no_bmp_concat(j, pn);
    lemma_no_bmp_concat(j + pn, g);
    assert(raw_spans(p, w) == j + pn + g + bm + t + we + pd + u + late_spans(p, w));
    lemma_bmp_in_left(j + pn + g + bm + t + we + pd + u, late_spans(p, w), x);
    lemma_bmp_in_left(j + pn + g + bm + t + we + pd, u, x);
    lemma_bmp_in_left(j + pn + g + bm + t + we, pd, x);
    lemma_bmp_in_left(j + pn + g + bm + t, we, x);
    lemma_bmp_in_left(j + pn + g + bm, t, x);
    lemma_bmp_in_right(j + pn + g, bm, x);
    if !plan_enables(p, FileFormat::Bmp) {
        assert(bm.len() == 0);
    }
}

/// The BMP span of a carving pass: every span claimed as BMP starts at a
/// `BM` signature in the scanned window whose little-endian 32-bit size
/// field (2 bytes on) declares at least 54 bytes, and ends at the declared
/// size, cut at the window's end.
pub proof fn law_bmp_span_ends_at_declared_size(p: CarvingPlanView, b: Seq<u8>, x: CarveSpan)
    requires
        b.len() <= usize::MAX,
        carve_spans_of(p, b).contains(x),
        x.format == FileFormat::Bmp,
    ensures
        ({
            let w = scan_window(b, p.max_scan_bytes);
            let o = x.offset as int;
            &&& o + 6 <= w.len()
            &&& w[o] == 0x42u8 && w[o + 1] == 0x4Du8
            &&& w[o + 2] + 256 * w[o + 3] + 65536 * w[o + 4] + 16777216 * w[o + 5] >= 54
            &&& x.end == min_int(w.len() as int, o + w[o + 2] + 256 * w[o + 3] + 65536 * w[o + 4] + 16777216 * w[o + 5])
        }),
{
    let w = scan_window(b, p.max_scan_bytes);
    let raw = raw_spans(p, w);
    law_carve_spans_ordered_in_window(p, b);
    assert(kept_spans(raw).contains(x)) by {
        broadcast use vstd::seq_lib::group_to_multiset_ensures;

        assert(carve_spans_of(p, b).to_multiset().count(x) > 0);
    }
    lemma_kept_within_raw(raw, x);
    lemma_raw_bmp_from_bmp_rule(p, w, x);
    let occ = occurrences(w, sig_bmp());
    lemma_spans_of_member(occ, bmp_fn(w), x);
    let i = choose|i: int| 0 <= i < occ.len() && #[trigger] bmp_fn(w)(occ[i]).contains(x);
    lemma_occurrences(w, sig_bmp());
    assert(matches_at(w, sig_bmp(), occ[i] as int));
    let o = occ[i] as int;
    assert(w.subrange(o, o + 2) == sig_bmp());
    assert(w[o] == w.subrange(o, o + 2)[0] && w[o + 1] == w.subrange(o, o + 2)[1]);
    assert(bmp_fn(w)(occ[i]).len() == 1);
    assert(x == bmp_fn(w)(occ[i])[0]);
}

proof fn lemma_contains_left(a: Seq<CarveSpan>, b: Seq<CarveSpan>, x: CarveSpan)
    requires
        a.contains(x),
    ensures
        (a + b).contains(x),
{
    let k = choose|k: int| 0 <= k < a.len() && a[k] == x;
    assert((a + b)[k] == x);
}

proof fn lemma_contains_right(a: Seq<CarveSpan>, b: Seq<CarveSpan>, x: CarveSpan)
    requires
        b.contains(x),
    ensures
        (a + b).contains(x),
{
    let k = choose|k: int| 0 <= k < b.len() && b[k] == x;
    assert((a + b)[a.len() + k] == x);
}

proof fn lemma_spans_of_contains(occ: Seq<usize>, f: spec_fn(usize) -> Seq<CarveSpan>, i: int, x: CarveSpan)
    requires
        0 <= i < occ.len(),
        f(occ[i]).contains(x),
    ensures
        spans_of(occ, f).contains(x),
    decreases occ.len(),
{
    if i == occ.len() - 1 {
        lemma_contains_right(spans_of(occ.drop_last(), f), f(occ.last()), x);
    } else {
        assert(occ.drop_last()[i] == occ[i]);
        lemma_spans_of_contains(occ.drop_last(), f, i, x);
        lemma_contains_left(spans_of(occ.drop_last(), f), f(occ.last()), x);
    }
}

proof fn lemma_occurrences_below_has(h: Seq<u8>, n: Seq<u8>, k: int, o: int)
    requires
        0 <= o < k,
        o <= usize::MAX,
        matches_at(h, n, o),
    ensures
        exists|i: int| 0 <= i < occurrences_below(h, n, k).len() && occurrences_below(h, n, k)[i] == o,
    decreases k,
{
    if o == k - 1 {
        let s = occurrences_below(h, n, k);
        assert(s == occurrences_below(h, n, k - 1).push(o as usize));
        assert(0 <= s.len() - 1 < s.len() && s[s.len() - 1] == o);
    } else {
        lemma_occurrences_below_has(h, n, k - 1, o);
        let prev = occurrences_below(h, n, k - 1);
        let i = choose|i: int| 0 <= i < prev.len() && prev[i] == o;
        if matches_at(h, n, k - 1) {
            assert(occurrences_below(h, n, k) == prev.push((k - 1) as usize));
        } else {
            assert(occurrences_below(h, n, k) == prev);
        }
        assert(0 <= i < occurrences_below(h, n, k).len() && occurrences_below(h, n, k)[i] == o);
    }
}

proof fn lemma_kept_covers(raw: Seq<CarveSpan>, x: CarveSpan)
    requires
        raw.contains(x),
        x.offset < x.end,
    ensures
        exists|j: int|
            0 <= j < kept_spans(raw).len() && #[trigger] kept_spans(raw)[j].offset == x.offset && kept_spans(raw)[j].format
                == x.format,
    decreases raw.len(),
{
    let prev = kept_spans(raw.drop_last());
    let k = choose|k: int| 0 <= k < raw.len() && raw[k] == x;
    if k < raw.len() - 1 {
        assert(raw.drop_last()[k] == x);
        lemma_kept_covers(raw.drop_last(), x);
        let j = choose|j: int| 0 <= j < prev.len() && #[trigger] prev[j].offset == x.offset && prev[j].format == x.format;
        assert(kept_spans(raw)[j] == prev[j]);
    } else if seen_before(prev, x) {
        let j = choose|j: int| 0 <= j < prev.len() && prev[j].offset == x.offset && prev[j].format == x.format;
        assert(kept_spans(raw)[j] == prev[j]);
    } else {
        assert(kept_spans(raw)[prev.len() as int] == x);
    }
}

/// A `BM` signature in the scanned window of a plan that carves BMP, whose
/// 32-bit little-endian size field declares at least 54 bytes, gives a BMP
/// span at that position ending at the declared size, cut at the window's
/// end.
pub proof fn law_bmp_signature_gives_span(p: CarvingPlanView, b: Seq<u8>, o: int)
    requires
        b.len() <= usize::MAX,
        plan_enables(p, FileFormat::Bmp),
        0 <= o,
        o + 6 <= scan_window(b, p.max_scan_bytes).len(),
        scan_window(b, p.max_scan_bytes)[o] == 0x42u8,
        scan_window(b, p.max_scan_bytes)[o + 1] == 0x4Du8,
        ({
            let w = scan_window(b, p.max_scan_bytes);
            w[o + 2] + 256 * w[o + 3] + 65536 * w[o + 4] + 16777216 * w[o + 5] >= 54
        }),
    ensures
        exists|y: CarveSpan|
            #[trigger] carve_spans_of(p, b).contains(y) && y.format == FileFormat::Bmp && y.offset == o && y.end
                == min_int(
                scan_window(b, p.max_scan_bytes).len() as int,
                o + scan_window(b, p.max_scan_bytes)[o + 2] + 256 * scan_window(b, p.max_scan_bytes)[o + 3] + 65536
                    * scan_window(b, p.max_scan_bytes)[o + 4] + 16777216 * scan_window(b, p.max_scan_bytes)[o + 5],
            ),
{
    let w = scan_window(b, p.max_scan_bytes);
    let raw = raw_spans(p, w);
    let occ = occurrences(w, sig_bmp());
    assert(w.subrange(o, o + 2) =~= sig_bmp());
    assert(matches_at(w, sig_bmp(), o));
    lemma_occurrences_below_has(w, sig_bmp(), w.len() - 2 + 1, o);
    let i = choose|i: int| 0 <= i < occ.len() && occ[i] == o;
    let x = bmp_fn(w)(occ[i])[0];
    assert(bmp_fn(w)(occ[i]).contains(x));
    lemma_spans_of_contains(occ, bmp_fn(w), i, x);
    let j = when(plan_enables(p, FileFormat::Jpeg), header_footer_spans(w, FileFormat::Jpeg, sig_jpeg(), Some(sig_jpeg_end())));
    let pn = when(plan_enables(p, FileFormat::Png), spans_of(occurrences(w, sig_png()), png_fn(w)));
    let g = when(
        plan_enables(p, FileFormat::Gif),
        header_footer_spans(w, FileFormat::Gif, sig_gif89(), Some(sig_gif_end())) + header_footer_spans(
            w,
            FileFormat::Gif,
            sig_gif87(),
            Some(sig_gif_end()),
        ),
    );
    let bm = when(plan_enables(p, FileFormat::Bmp), spans_of(occ, bmp_fn(w)));
    let t = when(
        plan_enables(p, FileFormat::Tiff),
        spans_of(occurrences(w, sig_tiff_le()), tiff_fn(w)) + spans_of(occurrences(w, sig_tiff_be()), tiff_fn(w)),
    );
    let we = when(plan_enables(p, FileFormat::Webp), spans_of(occurrences(w, sig_riff()), webp_fn(w)));
    let pd = when(plan_enables(p, FileFormat::Pdf), header_footer_spans(w, FileFormat::Pdf, sig_pdf(), Some(sig_pdf_end())));
    let u = when(plan_enables(p, FileFormat::Utf8Text), spans_of(occurrences(w, sig_bom()), utf8_fn(w)));
    assert(raw == j + pn + g + bm + t + we + pd + u + late_spans(p, w));
    lemma_contains_right(j + pn + g, bm, x);
    lemma_contains_left(j + pn + g + bm, t, x);
    lemma_contains_left(j + pn + g + bm + t, we, x);
    lemma_contains_left(j + pn + g + bm + t + we, pd, x);
    lemma_contains_left(j + pn + g + bm + t + we + pd, u, x);
    lemma_contains_left(j + pn + g + bm + t + we + pd + u, late_spans(p, w), x);
    lemma_kept_covers(raw, x);
    let kept = kept_spans(raw);
    let jj = choose|jj: int| 0 <= jj < kept.len() && #[trigger] kept[jj].offset == x.offset && kept[jj].format == x.format;
    let y = kept[jj];
    law_carve_spans_ordered_in_window(p, b);
    assert(carve_spans_of(p, b).contains(y)) by {
        broadcast use vstd::seq_lib::group_to_multiset_ensures;

        assert(kept.contains(y));
        assert(carve_spans_of(p, b).to_multiset().count(y) > 0);
    }
    law_bmp_span_ends_at_declared_size(p, b, y);
}

/// A candidate found in a window that starts `base` bytes into the
/// source: its offset moved by `base` (held at `usize::MAX`) and its id
/// rebuilt for the moved offset.
pub open spec fn rebased(c: CarvedCandidateView, base: nat) -> CarvedCandidateView {
    let off: nat = if c.offset + base > usize::MAX {
        usize::MAX as nat
    } else {
        (c.offset + base) as nat
    };
    CarvedCandidateView { id: carve_id(c.format, off), offset: off as usize, ..c }
}

/// Places the candidates of a window that starts `window_offset_bytes`
/// into the source in the source: unchanged for a window at 0,
/// `Err(-4)` for an offset past `usize::MAX`, else each one rebased.
pub fn rebase_window_candidates(candidates: Vec<CarvedCandidate>, window_offset_bytes: u64) -> (r: Result<
    Vec<CarvedCandidate>,
    i32,
>)
    ensures
        window_offset_bytes == 0 ==> (r matches Ok(v) && carved_views(v@) == carved_views(candidates@)),
        window_offset_bytes > usize::MAX ==> r == Err::<Vec<CarvedCandidate>, i32>(-4i32),
        0 < window_offset_bytes <= usize::MAX ==> (r matches Ok(v) && v@.len() == candidates@.len() && (forall|i: int|
            0 <= i < v@.len() ==> #[trigger] v@[i]@ == rebased(candidates@[i]@, window_offset_bytes as nat))),
{
    if window_offset_bytes == 0 {
        return Ok(candidates);
    }
    if window_offset_bytes > usize::MAX as u64 {
        return Err(-4);
    }
    let base = window_offset_bytes as usize;
    let ghost original = candidates@;
    let mut rest = candidates;
    let mut out: Vec<CarvedCandidate> = Vec::new();
    while rest.len() > 0
        invariant
            base == window_offset_bytes,
            out@.len() + rest@.len() == original.len(),
            rest@ == original.subrange(out@.len() as int, original.len() as int),
            forall|i: int| 0 <= i < out@.len() ==> #[trigger] out@[i]@ == rebased(original[i]@, base as nat),
        decreases rest@.len(),
    {
        let ghost k = out@.len();
        let c = rest.remove(0);
        assert(c == original[k as int]);
        let offset = c.offset.saturating_add(base);
        let id = carve_candidate_id(c.format, offset);
        out.push(
            CarvedCandidate {
                id,
                format: c.format,
                family: c.family,
                offset,
                length: c.length,
                partial: c.partial,
                confidence: c.confidence,
                diagnostics: c.diagnostics,
            },
        );
        assert(rest@ =~= original.subrange(out@.len() as int, original.len() as int));
    }
    Ok(out)
}

} // verus!
