//! ReFS boot sector parsing and deleted-file discovery from embedded USN records.
use vstd::prelude::*;
use crate::bytes::{is_pow2, is_power_of_two, le16, le32, le64, read_u16_le, read_u32_le, read_u64_le};
use crate::text::{
    ascii_lower, ascii_lowercase, chars_equal, chars_of, relative_path, relative_path_of,
    string_from_chars, trim_whitespace, trim_ws,
};
use crate::types::{ModuleDescriptor, RecoverySourceKind};
use crate::usn::{parse_usn_records, usn_records_from, USN_REASON_FILE_DELETE, USN_REASON_RENAME_OLD_NAME};

verus! {

/// `"ReFS"`, compared without regard to ASCII case.
pub const REFS_OEM_PREFIX: [u8; 4] = [0x52, 0x65, 0x46, 0x53];

/// Identity of the ReFS module.
pub fn descriptor() -> (d: ModuleDescriptor)
    ensures
        d.name == "fr-refs",
        d.purpose == "ReFS boot metadata parser boundary for metadata-first recovery orchestration.",
        d.source_kind == RecoverySourceKind::Volume,
{
    ModuleDescriptor {
        name: "fr-refs",
        purpose: "ReFS boot metadata parser boundary for metadata-first recovery orchestration.",
        source_kind: RecoverySourceKind::Volume,
    }
}

/// Parsed ReFS boot sector.
#[derive(Debug, Clone, PartialEq, Eq)]
pub struct RefsBootSector {
    pub oem_id: [u8; 8],
    pub bytes_per_sector: u16,
    pub sectors_per_cluster: u8,
    pub total_sectors: u64,
    pub volume_serial: u64,
}

impl RefsBootSector {
    /// Bytes per cluster.
    pub fn cluster_size_bytes(&self) -> (v: u32)
        ensures
            v == self.bytes_per_sector * self.sectors_per_cluster,
    {
        assert(self.bytes_per_sector * self.sectors_per_cluster <= 65535 * 255) by (nonlinear_arith)
            requires
                self.bytes_per_sector <= 65535,
                self.sectors_per_cluster <= 255,
        ;
        self.bytes_per_sector as u32 * self.sectors_per_cluster as u32
    }

    /// Volume size in bytes, `None` when it does not fit in 64 bits.
    pub fn volume_size_bytes(&self) -> (r: Option<u64>)
        ensures
            r == (if self.total_sectors * self.bytes_per_sector <= u64::MAX {
                Some((self.total_sectors * self.bytes_per_sector) as u64)
            } else {
                None
            }),
    {
        self.total_sectors.checked_mul(self.bytes_per_sector as u64)
    }
}

/// Why a ReFS boot sector was refused.
#[derive(Debug, Clone, PartialEq, Eq)]
pub enum BootSectorParseError {
    BufferTooSmall { expected: usize, actual: usize },
    InvalidOemId([u8; 8]),
    InvalidBytesPerSector(u16),
    InvalidSectorsPerCluster(u8),
}

/// A deleted file named by a USN record.
#[derive(Debug, Clone)]
pub struct RefsDeletedCandidate {
    pub object_id: u64,
    pub size_bytes: u64,
    pub name: String,
    pub path: String,
}

/// A candidate with its texts as characters.
pub struct RefsCandidateView {
    pub object_id: u64,
    pub size_bytes: u64,
    pub name: Seq<char>,
    pub path: Seq<char>,
}

impl View for RefsDeletedCandidate {
    type V = RefsCandidateView;

    open spec fn view(&self) -> RefsCandidateView {
        RefsCandidateView {
            object_id: self.object_id,
            size_bytes: self.size_bytes,
            name: self.name@,
            path: self.path@,
        }
    }
}

/// Why a scan failed.
#[derive(Debug, Clone, PartialEq, Eq)]
pub enum ScanError {
    Boot(BootSectorParseError),
}

/// ASCII lower-casing of a byte.
pub open spec fn lower_byte(b: u8) -> u8 {
    if 0x41 <= b <= 0x5A {
        (b + 32) as u8
    } else {
        b
    }
}

/// The four bytes at offset 3 spell "ReFS" in any ASCII case.
pub open spec fn refs_oem_ok(b: Seq<u8>) -> bool {
    &&& lower_byte(b[3]) == 0x72
    &&& lower_byte(b[4]) == 0x65
    &&& lower_byte(b[5]) == 0x66
    &&& lower_byte(b[6]) == 0x73
}

/// The sector in `b` passes every check of `parse_boot_sector`.
pub open spec fn refs_boot_valid(b: Seq<u8>) -> bool {
    &&& b.len() >= 512
    &&& refs_oem_ok(b)
    &&& le16(b, 0x0B) >= 512
    &&& is_pow2(le16(b, 0x0B) as nat)
    &&& is_pow2(b[0x0D] as nat)
}

/// `e` is the error of the first check that the sector in `b` fails.
pub open spec fn refs_boot_error(b: Seq<u8>, e: BootSectorParseError) -> bool {
    if b.len() < 512 {
        e == BootSectorParseError::BufferTooSmall { expected: 512, actual: b.len() as usize }
    } else if !refs_oem_ok(b) {
        e matches BootSectorParseError::InvalidOemId(o) && o@ == b.subrange(3, 11)
    } else if le16(b, 0x0B) < 512 || !is_pow2(le16(b, 0x0B) as nat) {
        e == BootSectorParseError::InvalidBytesPerSector(le16(b, 0x0B) as u16)
    } else {
        e == BootSectorParseError::InvalidSectorsPerCluster(b[0x0D])
    }
}

fn lower_u8(b: u8) -> (r: u8)
    ensures
        r == lower_byte(b),
{
    if 0x41 <= b && b <= 0x5A {
        b + 32
    } else {
        b
    }
}

/// Parses a ReFS boot sector.
pub fn parse_boot_sector(bytes: &[u8]) -> (r: Result<RefsBootSector, BootSectorParseError>)
    ensures
        r is Ok <==> refs_boot_valid(bytes@),
        r matches Ok(bs) ==> {
            &&& bs.oem_id@ == bytes@.subrange(3, 11)
            &&& bs.bytes_per_sector == le16(bytes@, 0x0B)
            &&& bs.sectors_per_cluster == bytes@[0x0D]
            &&& bs.total_sectors == le64(bytes@, 0x28)
            &&& bs.volume_serial == le64(bytes@, 0x48)
        },
        r matches Err(e) ==> refs_boot_error(bytes@, e),
{
    if bytes.len() < 512 {
        return Err(BootSectorParseError::BufferTooSmall { expected: 512, actual: bytes.len() });
    }
    let oem_id: [u8; 8] = [
        bytes[3],
        bytes[4],
        bytes[5],
        bytes[6],
        bytes[7],
        bytes[8],
        bytes[9],
        bytes[10],
    ];
    assert(oem_id@ =~= bytes@.subrange(3, 11));
    if !(lower_u8(oem_id[0]) == 0x72 && lower_u8(oem_id[1]) == 0x65 && lower_u8(oem_id[2]) == 0x66
        && lower_u8(oem_id[3]) == 0x73) {
        return Err(BootSectorParseError::InvalidOemId(oem_id));
    }
    let bytes_per_sector = read_u16_le(bytes, 0x0B);
    if bytes_per_sector < 512 || !is_power_of_two(bytes_per_sector as u64) {
        return Err(BootSectorParseError::InvalidBytesPerSector(bytes_per_sector));
    }
    let sectors_per_cluster = bytes[0x0D];
    if !is_power_of_two(sectors_per_cluster as u64) {
        return Err(BootSectorParseError::InvalidSectorsPerCluster(sectors_per_cluster));
    }
    Ok(RefsBootSector {
        oem_id,
        bytes_per_sector,
        sectors_per_cluster,
        total_sectors: read_u64_le(bytes, 0x28),
        volume_serial: read_u64_le(bytes, 0x48),
    })
}

/// The deleted file named by the single USN record `r`, if any: the record
/// must parse alone, carry a delete or rename-old-name reason, have a name that
/// is not blank and a non-zero object id (low 48 bits of its file reference).
pub open spec fn refs_candidate_of(r: Seq<u8>) -> Option<RefsCandidateView> {
    match usn_records_from(r, 0) {
        Ok(s) => if s.len() != 1 {
            None
        } else {
            let rec = s[0];
            let name = trim_ws(rec.file_name);
            let object_id = rec.file_reference_number & 0x0000_FFFF_FFFF_FFFF;
            if rec.reason & 0x200 == 0 && rec.reason & 0x1000 == 0 {
                None
            } else if name.len() == 0 || object_id == 0 {
                None
            } else {
                Some(
                    RefsCandidateView {
                        object_id,
                        size_bytes: 0,
                        name,
                        path: relative_path(name),
                    },
                )
            }
        },
        Err(_) => None,
    }
}

/// Some earlier candidate has the same id, name and path up to ASCII case.
pub open spec fn refs_seen(acc: Seq<RefsCandidateView>, c: RefsCandidateView) -> bool {
    exists|i: int|
        0 <= i < acc.len() && acc[i].object_id == c.object_id && ascii_lower(acc[i].name)
            == ascii_lower(c.name) && ascii_lower(acc[i].path) == ascii_lower(c.path)
}

/// The scan from `off` on: a plausible record length (60..=4096, a multiple of
/// eight, inside the image) makes the scan decode that record and skip it;
/// otherwise it advances by eight bytes.
pub open spec fn refs_scan(img: Seq<u8>, max: int, off: int, acc: Seq<RefsCandidateView>) -> Seq<
    RefsCandidateView,
>
    decreases img.len() - off,
{
    if off < 0 || off + 8 > img.len() || acc.len() >= max {
        acc
    } else {
        let len = le32(img, off);
        if 60 <= len <= 4096 && len % 8 == 0 && off + len <= img.len() {
            let acc2 = match refs_candidate_of(img.subrange(off, off + len)) {
                Some(c) => if refs_seen(acc, c) {
                    acc
                } else {
                    acc.push(c)
                },
                None => acc,
            };
            refs_scan(img, max, off + len, acc2)
        } else {
            refs_scan(img, max, off + 8, acc)
        }
    }
}

/// The views of candidates.
pub open spec fn candidate_views(v: Seq<RefsDeletedCandidate>) -> Seq<RefsCandidateView> {
    Seq::new(v.len(), |i: int| v[i]@)
}

/// The deleted-file candidates of `image`.
pub open spec fn refs_candidates(image: Seq<u8>, max_entries: int) -> Seq<RefsCandidateView> {
    if max_entries == 0 || image.len() < 8 {
        Seq::empty()
    } else {
        refs_scan(image, max_entries, 0, Seq::empty())
    }
}

fn try_extract_deleted_candidate_from_record(record_bytes: &[u8]) -> (r: Option<RefsDeletedCandidate>)
    ensures
        match (r, refs_candidate_of(record_bytes@)) {
            (Some(c), Some(v)) => c@ == v,
            (None, None) => true,
            _ => false,
        },
{
    let parsed = match parse_usn_records(record_bytes) {
        Ok(p) => p,
        Err(_) => return None,
    };
    if parsed.len() != 1 {
        return None;
    }
    let record = &parsed[0];
    assert(record@ == crate::usn::views_of(parsed@)[0]);
    if record.reason & USN_REASON_FILE_DELETE == 0 && record.reason & USN_REASON_RENAME_OLD_NAME == 0 {
        return None;
    }
    let raw = chars_of(record.file_name.as_str());
    let name = trim_whitespace(&raw);
    let object_id = record.file_reference_number & 0x0000_FFFF_FFFF_FFFF;
    if name.len() == 0 || object_id == 0 {
        return None;
    }
    let path = relative_path_of(&name);
    Some(RefsDeletedCandidate {
        object_id,
        size_bytes: 0,
        name: string_from_chars(&name),
        path: string_from_chars(&path),
    })
}

/// Whether `keys` holds `(id, name, path)`.
fn contains_key3(keys: &Vec<(u64, Vec<char>, Vec<char>)>, id: u64, name: &Vec<char>, path: &Vec<char>) -> (b: bool)
    ensures
        b == exists|i: int|
            0 <= i < keys@.len() && keys@[i].0 == id && keys@[i].1@ == name@ && keys@[i].2@ == path@,
{
    let mut k: usize = 0;
    while k < keys.len()
        invariant
            k <= keys@.len(),
            forall|i: int|
                0 <= i < k ==> !(keys@[i].0 == id && keys@[i].1@ == name@ && keys@[i].2@ == path@),
        decreases keys@.len() - k,
    {
        if keys[k].0 == id && chars_equal(&keys[k].1, name) && chars_equal(&keys[k].2, path) {
            return true;
        }
        k = k + 1;
    }
    false
}

/// Scans `image` for USN records that name deleted files (the boot sector is
/// not consulted).
pub fn scan_deleted_candidates_with_boot(
    image: &[u8],
    _boot: &RefsBootSector,
    max_entries: usize,
) -> (out: Vec<RefsDeletedCandidate>)
    ensures
        candidate_views(out@) == refs_candidates(image@, max_entries as int),
{
    if max_entries == 0 || image.len() < 8 {
        assert(candidate_views(Seq::<RefsDeletedCandidate>::empty()) =~= Seq::<RefsCandidateView>::empty());
        return Vec::new();
    }
    let n = image.len();
    let mut out: Vec<RefsDeletedCandidate> = Vec::new();
    let mut keys: Vec<(u64, Vec<char>, Vec<char>)> = Vec::new();
    let mut offset: usize = 0;
    assert(candidate_views(out@) =~= Seq::<RefsCandidateView>::empty());
    while offset <= n && 8 <= n - offset && out.len() < max_entries
        invariant
            n == image@.len(),
            keys@.len() == out@.len(),
            forall|i: int|
                #![trigger keys@[i]]
                0 <= i < keys@.len() ==> keys@[i].0 == out@[i].object_id && keys@[i].1@ == ascii_lower(
                    out@[i].name@,
                ) && keys@[i].2@ == ascii_lower(out@[i].path@),
            refs_scan(image@, max_entries as int, 0, Seq::empty()) == refs_scan(
                image@,
                max_entries as int,
                offset as int,
                candidate_views(out@),
            ),
        decreases n + 8 - offset,
    {
        let record_length = read_u32_le(image, offset) as usize;
        if record_length >= 60 && record_length <= 4096 && record_length % 8 == 0 && record_length
            <= n - offset {
            let end = offset + record_length;
            let ghost acc = candidate_views(out@);
            if let Some(candidate) = try_extract_deleted_candidate_from_record(&image[offset..end]) {
                let name_chars = chars_of(candidate.name.as_str());
                let path_chars = chars_of(candidate.path.as_str());
                let key_name = ascii_lowercase(&name_chars);
                let key_path = ascii_lowercase(&path_chars);
                let seen = contains_key3(&keys, candidate.object_id, &key_name, &key_path);
                proof {
                    if seen {
                        let i = choose|i: int|
                            0 <= i < keys@.len() && keys@[i].0 == candidate.object_id && keys@[i].1@
                                == key_name@ && keys@[i].2@ == key_path@;
                        assert(acc[i].object_id == candidate@.object_id);
                    } else {
                        assert forall|i: int| 0 <= i < acc.len() implies !(acc[i].object_id
                            == candidate@.object_id && ascii_lower(acc[i].name) == ascii_lower(
                            candidate@.name,
                        ) && ascii_lower(acc[i].path) == ascii_lower(candidate@.path)) by {
                            assert(keys@[i].0 == out@[i].object_id);
                        }
                    }
                }
                if !seen {
                    let ghost cv = candidate@;
                    let cid = candidate.object_id;
                    let ghost old_keys = keys@;
                    out.push(candidate);
                    keys.push((cid, key_name, key_path));
                    assert forall|i: int| 0 <= i < keys@.len() implies keys@[i].0 == out@[i].object_id
                        && keys@[i].1@ == ascii_lower(out@[i].name@) && keys@[i].2@ == ascii_lower(
                        out@[i].path@,
                    ) by {
                        if i < keys@.len() - 1 {
                            assert(keys@[i] == old_keys[i]);
                        }
                    }
                    assert(candidate_views(out@) =~= acc.push(cv));
                }
            }
            offset = end;
        } else {
            offset = offset + 8;
        }
    }
    out
}

/// Parses the boot sector, then scans for deleted-file USN records.
pub fn scan_deleted_candidates(image: &[u8], max_entries: usize) -> (r: Result<
    (RefsBootSector, Vec<RefsDeletedCandidate>),
    ScanError,
>)
    ensures
        r is Ok <==> refs_boot_valid(image@),
        r matches Ok((_, v)) ==> candidate_views(v@) == refs_candidates(image@, max_entries as int),
        r matches Err(ScanError::Boot(e)) ==> refs_boot_error(image@, e),
{
    let boot = match parse_boot_sector(image) {
        Ok(b) => b,
        Err(e) => return Err(ScanError::Boot(e)),
    };
    let entries = scan_deleted_candidates_with_boot(image, &boot, max_entries);
    Ok((boot, entries))
}

} // verus!
