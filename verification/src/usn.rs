//! USN change-journal record parsing and reason decoding.
use vstd::prelude::*;
use crate::bytes::{all_zero, le16, le32, le64, read_i64_le, read_u16_le, read_u32_le, read_u64_le};
use crate::text::{utf16_decode, utf16_string};
use crate::types::{ModuleDescriptor, RecoverySourceKind};

verus! {

pub const USN_REASON_DATA_OVERWRITE: u32 = 0x0000_0001;
pub const USN_REASON_DATA_EXTEND: u32 = 0x0000_0002;
pub const USN_REASON_DATA_TRUNCATION: u32 = 0x0000_0004;
pub const USN_REASON_NAMED_DATA_OVERWRITE: u32 = 0x0000_0010;
pub const USN_REASON_NAMED_DATA_EXTEND: u32 = 0x0000_0020;
pub const USN_REASON_NAMED_DATA_TRUNCATION: u32 = 0x0000_0040;
pub const USN_REASON_FILE_CREATE: u32 = 0x0000_0100;
pub const USN_REASON_FILE_DELETE: u32 = 0x0000_0200;
pub const USN_REASON_EA_CHANGE: u32 = 0x0000_0400;
pub const USN_REASON_SECURITY_CHANGE: u32 = 0x0000_0800;
pub const USN_REASON_RENAME_OLD_NAME: u32 = 0x0000_1000;
pub const USN_REASON_RENAME_NEW_NAME: u32 = 0x0000_2000;
pub const USN_REASON_INDEXABLE_CHANGE: u32 = 0x0000_4000;
pub const USN_REASON_BASIC_INFO_CHANGE: u32 = 0x0000_8000;
pub const USN_REASON_HARD_LINK_CHANGE: u32 = 0x0001_0000;
pub const USN_REASON_COMPRESSION_CHANGE: u32 = 0x0002_0000;
pub const USN_REASON_ENCRYPTION_CHANGE: u32 = 0x0004_0000;
pub const USN_REASON_OBJECT_ID_CHANGE: u32 = 0x0008_0000;
pub const USN_REASON_REPARSE_POINT_CHANGE: u32 = 0x0010_0000;
pub const USN_REASON_STREAM_CHANGE: u32 = 0x0020_0000;
pub const USN_REASON_TRANSACTED_CHANGE: u32 = 0x0040_0000;
pub const USN_REASON_INTEGRITY_CHANGE: u32 = 0x0080_0000;
pub const USN_REASON_CLOSE: u32 = 0x8000_0000;

/// Smallest version 2 record.
pub const USN_RECORD_MIN_V2: usize = 60;
/// Smallest version 3 record.
pub const USN_RECORD_MIN_V3: usize = 76;

/// One USN journal record.
#[derive(Debug, Clone)]
pub struct UsnRecord {
    pub major_version: u16,
    pub minor_version: u16,
    pub file_reference_number: u64,
    pub parent_file_reference_number: u64,
    pub usn: i64,
    pub timestamp_100ns: i64,
    pub reason: u32,
    pub source_info: u32,
    pub security_id: u32,
    pub file_attributes: u32,
    pub file_name: String,
}

/// A USN record with its file name as characters.
pub struct UsnRecordView {
    pub major_version: u16,
    pub minor_version: u16,
    pub file_reference_number: u64,
    pub parent_file_reference_number: u64,
    pub usn: i64,
    pub timestamp_100ns: i64,
    pub reason: u32,
    pub source_info: u32,
    pub security_id: u32,
    pub file_attributes: u32,
    pub file_name: Seq<char>,
}

impl View for UsnRecord {
    type V = UsnRecordView;

    open spec fn view(&self) -> UsnRecordView {
        UsnRecordView {
            major_version: self.major_version,
            minor_version: self.minor_version,
            file_reference_number: self.file_reference_number,
            parent_file_reference_number: self.parent_file_reference_number,
            usn: self.usn,
            timestamp_100ns: self.timestamp_100ns,
            reason: self.reason,
            source_info: self.source_info,
            security_id: self.security_id,
            file_attributes: self.file_attributes,
            file_name: self.file_name@,
        }
    }
}

/// Why a USN buffer was refused; `offset` is where the record starts.
#[derive(Debug, Clone, PartialEq, Eq, Structural)]
pub enum UsnParseError {
    TruncatedRecordHeader { offset: usize },
    InvalidRecordLength { offset: usize, length: u32 },
    UnsupportedVersion { offset: usize, major: u16, minor: u16 },
    TruncatedRecordBody { offset: usize, length: u32, remaining: usize },
    InvalidFileNameRange {
        offset: usize,
        file_name_offset: u16,
        file_name_length: u16,
        record_length: u32,
    },
    InvalidFileNameEncoding { offset: usize },
}

/// Identity of the USN module.
pub fn descriptor() -> (d: ModuleDescriptor)
    ensures
        d.name == "fr-usn",
        d.purpose == "USN journal record parser and reason decoding for evidence enrichment.",
        d.source_kind == RecoverySourceKind::Volume,
{
    ModuleDescriptor {
        name: "fr-usn",
        purpose: "USN journal record parser and reason decoding for evidence enrichment.",
        source_kind: RecoverySourceKind::Volume,
    }
}

/// `count` little-endian UTF-16 code units starting at byte `start`.
pub open spec fn utf16_units(b: Seq<u8>, start: int, count: int) -> Seq<u16> {
    Seq::new(count as nat, |i: int| le16(b, start + 2 * i) as u16)
}

/// The file name of a record `r` whose name field is at `name_offset` and
/// `name_length` bytes long.
pub open spec fn usn_file_name(
    r: Seq<u8>,
    offset: usize,
    name_offset: u16,
    name_length: u16,
) -> Result<Seq<char>, UsnParseError> {
    if name_length % 2 != 0 || name_offset + name_length > r.len() || name_offset >= r.len() {
        Err(
            UsnParseError::InvalidFileNameRange {
                offset,
                file_name_offset: name_offset,
                file_name_length: name_length,
                record_length: r.len() as u32,
            },
        )
    } else {
        match utf16_decode(utf16_units(r, name_offset as int, (name_length / 2) as int)) {
            Some(name) => Ok(name),
            None => Err(UsnParseError::InvalidFileNameEncoding { offset }),
        }
    }
}

/// Byte positions of the fields of a version 2 (`v3 == false`) or version 3 record.
pub open spec fn field_pos(v3: bool, v2_pos: int, v3_pos: int) -> int {
    if v3 {
        v3_pos
    } else {
        v2_pos
    }
}

/// The record `r` decoded as version 2 or 3.
#[verifier::opaque]
pub open spec fn usn_record_of(r: Seq<u8>, offset: usize, major: u16, minor: u16) -> Result<
    UsnRecordView,
    UsnParseError,
> {
    let v3 = major == 3;
    let min = if v3 { 76int } else { 60int };
    if r.len() < min {
        Err(UsnParseError::InvalidRecordLength { offset, length: r.len() as u32 })
    } else {
        match usn_file_name(
            r,
            offset,
            le16(r, field_pos(v3, 58, 74)) as u16,
            le16(r, field_pos(v3, 56, 72)) as u16,
        ) {
            Err(e) => Err(e),
            Ok(name) => Ok(
                UsnRecordView {
                    major_version: major,
                    minor_version: minor,
                    file_reference_number: le64(r, 8) as u64,
                    parent_file_reference_number: le64(r, field_pos(v3, 16, 24)) as u64,
                    usn: le64(r, field_pos(v3, 24, 40)) as i64,
                    timestamp_100ns: le64(r, field_pos(v3, 32, 48)) as i64,
                    reason: le32(r, field_pos(v3, 40, 56)) as u32,
                    source_info: le32(r, field_pos(v3, 44, 60)) as u32,
                    security_id: le32(r, field_pos(v3, 48, 64)) as u32,
                    file_attributes: le32(r, field_pos(v3, 52, 68)) as u32,
                    file_name: name,
                },
            ),
        }
    }
}

/// Every byte of `b` from `off` on is zero.
pub open spec fn zero_from(b: Seq<u8>, off: int) -> bool {
    forall|k: int| off <= k < b.len() ==> b[k] == 0
}

/// The records of `b` from `off` on: parsing stops at the end, at an all-zero
/// tail or at a zero length field, and fails at the first malformed record.
pub open spec fn usn_records_from(b: Seq<u8>, off: int) -> Result<Seq<UsnRecordView>, UsnParseError>
    decreases b.len() - off,
{
    if off < 0 || off >= b.len() || zero_from(b, off) {
        Ok(Seq::empty())
    } else if b.len() - off < 8 {
        Err(UsnParseError::TruncatedRecordHeader { offset: off as usize })
    } else {
        let len = le32(b, off);
        let major = le16(b, off + 4) as u16;
        let minor = le16(b, off + 6) as u16;
        if len == 0 {
            Ok(Seq::empty())
        } else if len < 60 {
            Err(UsnParseError::InvalidRecordLength { offset: off as usize, length: len as u32 })
        } else if len > b.len() - off {
            Err(
                UsnParseError::TruncatedRecordBody {
                    offset: off as usize,
                    length: len as u32,
                    remaining: (b.len() - off) as usize,
                },
            )
        } else if major != 2 && major != 3 {
            Err(UsnParseError::UnsupportedVersion { offset: off as usize, major, minor })
        } else {
            match usn_record_of(b.subrange(off, off + len), off as usize, major, minor) {
                Err(e) => Err(e),
                Ok(r) => match usn_records_from(b, off + len) {
                    Err(e) => Err(e),
                    Ok(rest) => Ok(seq![r] + rest),
                },
            }
        }
    }
}

/// The views of a sequence of records.
pub open spec fn views_of(v: Seq<UsnRecord>) -> Seq<UsnRecordView> {
    Seq::new(v.len(), |i: int| v[i]@)
}

fn parse_utf16_file_name(
    record: &[u8],
    offset: usize,
    file_name_offset: u16,
    file_name_length: u16,
) -> (r: Result<String, UsnParseError>)
    ensures
        match (r, usn_file_name(record@, offset, file_name_offset, file_name_length)) {
            (Ok(s), Ok(n)) => s@ == n,
            (Err(e), Err(f)) => e == f,
            _ => false,
        },
{
    let name_offset = file_name_offset as usize;
    let name_length = file_name_length as usize;
    let record_length = record.len() as u32;
    if name_length % 2 != 0 || name_offset + name_length > record.len() || name_offset
        >= record.len() {
        return Err(
            UsnParseError::InvalidFileNameRange {
                offset,
                file_name_offset,
                file_name_length,
                record_length,
            },
        );
    }
    let mut units: Vec<u16> = Vec::new();
    let count = name_length / 2;
    let rl = record.len();
    let mut i: usize = 0;
    while i < count
        invariant
            rl == record@.len(),
            i <= count,
            count == name_length / 2,
            name_offset + name_length <= record@.len(),
            units@ =~= utf16_units(record@, name_offset as int, i as int),
        decreases count - i,
    {
        units.push(read_u16_le(record, name_offset + 2 * i));
        i = i + 1;
    }
    match utf16_string(units.as_slice()) {
        Some(s) => Ok(s),
        None => Err(UsnParseError::InvalidFileNameEncoding { offset }),
    }
}

fn parse_record(record: &[u8], offset: usize, major: u16, minor: u16) -> (r: Result<
    UsnRecord,
    UsnParseError,
>)
    requires
        major == 2 || major == 3,
    ensures
        match (r, usn_record_of(record@, offset, major, minor)) {
            (Ok(a), Ok(b)) => a@ == b,
            (Err(e), Err(f)) => e == f,
            _ => false,
        },
{
    reveal(usn_record_of);
    let v3 = major == 3;
    let min = if v3 { USN_RECORD_MIN_V3 } else { USN_RECORD_MIN_V2 };
    if record.len() < min {
        return Err(UsnParseError::InvalidRecordLength { offset, length: record.len() as u32 });
    }
    let name_length = read_u16_le(record, if v3 { 72 } else { 56 });
    let name_offset = read_u16_le(record, if v3 { 74 } else { 58 });
    let file_name = match parse_utf16_file_name(record, offset, name_offset, name_length) {
        Ok(s) => s,
        Err(e) => return Err(e),
    };
    Ok(UsnRecord {
        major_version: major,
        minor_version: minor,
        file_reference_number: read_u64_le(record, 8),
        parent_file_reference_number: read_u64_le(record, if v3 { 24 } else { 16 }),
        usn: read_i64_le(record, if v3 { 40 } else { 24 }),
        timestamp_100ns: read_i64_le(record, if v3 { 48 } else { 32 }),
        reason: read_u32_le(record, if v3 { 56 } else { 40 }),
        source_info: read_u32_le(record, if v3 { 60 } else { 44 }),
        security_id: read_u32_le(record, if v3 { 64 } else { 48 }),
        file_attributes: read_u32_le(record, if v3 { 68 } else { 52 }),
        file_name,
    })
}

/// Parses consecutive USN records (version 2 or 3) from `bytes`.
pub fn parse_usn_records(bytes: &[u8]) -> (r: Result<Vec<UsnRecord>, UsnParseError>)
    ensures
        match (r, usn_records_from(bytes@, 0)) {
            (Ok(v), Ok(s)) => views_of(v@) == s,
            (Err(e), Err(f)) => e == f,
            _ => false,
        },
{
    let mut records: Vec<UsnRecord> = Vec::new();
    let mut offset: usize = 0;
    let n = bytes.len();
    while offset < n
        invariant
            n == bytes@.len(),
            offset <= n,
            match usn_records_from(bytes@, 0) {
                Ok(s) => match usn_records_from(bytes@, offset as int) {
                    Ok(t) => s == views_of(records@) + t,
                    Err(f) => false,
                },
                Err(e) => usn_records_from(bytes@, offset as int) == Err::<Seq<UsnRecordView>, UsnParseError>(e),
            },
        ensures
            usn_records_from(bytes@, offset as int) == Ok::<Seq<UsnRecordView>, UsnParseError>(Seq::empty()),
        decreases n - offset,
    {
        if all_zero(bytes, offset, n) {
            break;
        }
        if n - offset < 8 {
            return Err(UsnParseError::TruncatedRecordHeader { offset });
        }
        let record_length = read_u32_le(bytes, offset);
        if record_length == 0 {
            break;
        }
        let record_length_usize = record_length as usize;
        if record_length_usize < USN_RECORD_MIN_V2 {
            return Err(UsnParseError::InvalidRecordLength { offset, length: record_length });
        }
        if record_length_usize > n - offset {
            return Err(
                UsnParseError::TruncatedRecordBody {
                    offset,
                    length: record_length,
                    remaining: n - offset,
                },
            );
        }
        let major = read_u16_le(bytes, offset + 4);
        let minor = read_u16_le(bytes, offset + 6);
        if major != 2 && major != 3 {
            return Err(UsnParseError::UnsupportedVersion { offset, major, minor });
        }
        let record_slice = &bytes[offset..offset + record_length_usize];
        let record = match parse_record(record_slice, offset, major, minor) {
            Ok(r) => r,
            Err(e) => return Err(e),
        };
        let ghost before = records@;
        records.push(record);
        proof {
            assert(views_of(records@) =~= views_of(before) + seq![record@]);
        }
        offset = offset + record_length_usize;
    }
    proof {
        assert(views_of(records@) + Seq::<UsnRecordView>::empty() =~= views_of(records@));
    }
    Ok(records)
}

/// The reason bits and their labels, in label order.
pub open spec fn reason_table() -> Seq<(u32, &'static str)> {
    seq![
        (USN_REASON_DATA_OVERWRITE, "data-overwrite"),
        (USN_REASON_DATA_EXTEND, "data-extend"),
        (USN_REASON_DATA_TRUNCATION, "data-truncation"),
        (USN_REASON_NAMED_DATA_OVERWRITE, "named-data-overwrite"),
        (USN_REASON_NAMED_DATA_EXTEND, "named-data-extend"),
        (USN_REASON_NAMED_DATA_TRUNCATION, "named-data-truncation"),
        (USN_REASON_FILE_CREATE, "file-create"),
        (USN_REASON_FILE_DELETE, "file-delete"),
        (USN_REASON_EA_CHANGE, "ea-change"),
        (USN_REASON_SECURITY_CHANGE, "security-change"),
        (USN_REASON_RENAME_OLD_NAME, "rename-old-name"),
        (USN_REASON_RENAME_NEW_NAME, "rename-new-name"),
        (USN_REASON_INDEXABLE_CHANGE, "indexable-change"),
        (USN_REASON_BASIC_INFO_CHANGE, "basic-info-change"),
        (USN_REASON_HARD_LINK_CHANGE, "hard-link-change"),
        (USN_REASON_COMPRESSION_CHANGE, "compression-change"),
        (USN_REASON_ENCRYPTION_CHANGE, "encryption-change"),
        (USN_REASON_OBJECT_ID_CHANGE, "object-id-change"),
        (USN_REASON_REPARSE_POINT_CHANGE, "reparse-point-change"),
        (USN_REASON_STREAM_CHANGE, "stream-change"),
        (USN_REASON_TRANSACTED_CHANGE, "transacted-change"),
        (USN_REASON_INTEGRITY_CHANGE, "integrity-change"),
        (USN_REASON_CLOSE, "close"),
    ]
}

/// Labels of the first `n` table entries whose bit is set in `reason`.
pub open spec fn labels_upto(reason: u32, n: int) -> Seq<&'static str>
    decreases n,
{
    if n <= 0 {
        Seq::empty()
    } else {
        let entry = reason_table()[n - 1];
        labels_upto(reason, n - 1) + if reason & entry.0 != 0 {
            seq![entry.1]
        } else {
            Seq::empty()
        }
    }
}

/// The labels of the reason bits set in `reason`, in table order.
pub open spec fn reason_labels(reason: u32) -> Seq<&'static str> {
    labels_upto(reason, 23)
}

/// Decodes a reason mask into labels.
pub fn decode_reason_labels(reason: u32) -> (labels: Vec<&'static str>)
    ensures
        labels@ == reason_labels(reason),
{
    let table: [(u32, &'static str); 23] = [
        (USN_REASON_DATA_OVERWRITE, "data-overwrite"),
        (USN_REASON_DATA_EXTEND, "data-extend"),
        (USN_REASON_DATA_TRUNCATION, "data-truncation"),
        (USN_REASON_NAMED_DATA_OVERWRITE, "named-data-overwrite"),
        (USN_REASON_NAMED_DATA_EXTEND, "named-data-extend"),
        (USN_REASON_NAMED_DATA_TRUNCATION, "named-data-truncation"),
        (USN_REASON_FILE_CREATE, "file-create"),
        (USN_REASON_FILE_DELETE, "file-delete"),
        (USN_REASON_EA_CHANGE, "ea-change"),
        (USN_REASON_SECURITY_CHANGE, "security-change"),
        (USN_REASON_RENAME_OLD_NAME, "rename-old-name"),
        (USN_REASON_RENAME_NEW_NAME, "rename-new-name"),
        (USN_REASON_INDEXABLE_CHANGE, "indexable-change"),
        (USN_REASON_BASIC_INFO_CHANGE, "basic-info-change"),
        (USN_REASON_HARD_LINK_CHANGE, "hard-link-change"),
        (USN_REASON_COMPRESSION_CHANGE, "compression-change"),
        (USN_REASON_ENCRYPTION_CHANGE, "encryption-change"),
        (USN_REASON_OBJECT_ID_CHANGE, "object-id-change"),
        (USN_REASON_REPARSE_POINT_CHANGE, "reparse-point-change"),
        (USN_REASON_STREAM_CHANGE, "stream-change"),
        (USN_REASON_TRANSACTED_CHANGE, "transacted-change"),
        (USN_REASON_INTEGRITY_CHANGE, "integrity-change"),
        (USN_REASON_CLOSE, "close"),
    ];
    assert(table@ =~= reason_table());
    let mut labels: Vec<&'static str> = Vec::new();
    let mut i: usize = 0;
    while i < 23
        invariant
            i <= 23,
            table@ == reason_table(),
            labels@ == labels_upto(reason, i as int),
        decreases 23 - i,
    {
        let (mask, name) = table[i];
        if reason & mask != 0 {
            labels.push(name);
        }
        assert(labels@ =~= labels_upto(reason, i + 1));
        i = i + 1;
    }
    labels
}

/// The label of a table entry whose bit is set in `reason`.
pub open spec fn label_if_set(reason: u32) -> spec_fn((u32, &'static str)) -> Option<&'static str> {
    |e: (u32, &'static str)| if reason & e.0 != 0 { Some(e.1) } else { None }
}

/// Whether the bit of a table entry is set in `reason`.
pub open spec fn bit_set_in(reason: u32) -> spec_fn((u32, &'static str)) -> bool {
    |e: (u32, &'static str)| reason & e.0 != 0
}

proof fn lemma_labels_upto(reason: u32, n: int)
    requires
        0 <= n <= reason_table().len(),
    ensures
        labels_upto(reason, n) == reason_table().take(n).filter_map(label_if_set(reason)),
        labels_upto(reason, n).len() == reason_table().take(n).filter(bit_set_in(reason)).len(),
        forall|l: &'static str|
            labels_upto(reason, n).contains(l) <==> exists|k: int|
                0 <= k < n && reason & #[trigger] reason_table()[k].0 != 0 && reason_table()[k].1 == l,
    decreases n,
{
    let t = reason_table().take(n);
    reveal(Seq::filter);
    if n > 0 {
        lemma_labels_upto(reason, n - 1);
        assert(t.drop_last() =~= reason_table().take(n - 1));
        let prev = labels_upto(reason, n - 1);
        let entry = reason_table()[n - 1];
        assert(t.last() == entry);
        if reason & entry.0 != 0 {
            assert(labels_upto(reason, n) == prev + seq![entry.1]);
        } else {
            assert(labels_upto(reason, n) =~= prev);
        }
        assert forall|l: &'static str| labels_upto(reason, n).contains(l) <==> exists|k: int|
            0 <= k < n && reason & #[trigger] reason_table()[k].0 != 0 && reason_table()[k].1 == l by {
            if labels_upto(reason, n).contains(l) {
                let i = choose|i: int| 0 <= i < labels_upto(reason, n).len() && labels_upto(reason, n)[i] == l;
                if i < prev.len() {
                    assert(prev[i] == l);
                    assert(prev.contains(l));
                } else {
                    assert(reason & reason_table()[n - 1].0 != 0);
                }
            }
            if exists|k: int| 0 <= k < n && reason & #[trigger] reason_table()[k].0 != 0 && reason_table()[k].1 == l {
                let k = choose|k: int| 0 <= k < n && reason & #[trigger] reason_table()[k].0 != 0 && reason_table()[k].1 == l;
                if k < n - 1 {
                    assert(0 <= k < n - 1 && reason & reason_table()[k].0 != 0 && reason_table()[k].1 == l);
                    assert(prev.contains(l));
                    let i = choose|i: int| 0 <= i < prev.len() && prev[i] == l;
                    assert(labels_upto(reason, n)[i] == l);
                } else {
                    assert(labels_upto(reason, n)[prev.len() as int] == l);
                }
            }
        }
    } else {
        assert(t =~= Seq::<(u32, &'static str)>::empty());
    }
}

/// Each reason bit of the table is above the one before it.
proof fn lemma_table_bits_increase()
    ensures
        forall|i: int| 0 <= i < reason_table().len() - 1 ==> #[trigger] reason_table()[i].0 < reason_table()[i + 1].0,
{
    let t = reason_table();
    assert(t[0].0 == USN_REASON_DATA_OVERWRITE);
    assert(t[1].0 == USN_REASON_DATA_EXTEND);
    assert(t[2].0 == USN_REASON_DATA_TRUNCATION);
    assert(t[3].0 == USN_REASON_NAMED_DATA_OVERWRITE);
    assert(t[4].0 == USN_REASON_NAMED_DATA_EXTEND);
    assert(t[5].0 == USN_REASON_NAMED_DATA_TRUNCATION);
    assert(t[6].0 == USN_REASON_FILE_CREATE);
    assert(t[7].0 == USN_REASON_FILE_DELETE);
    assert(t[8].0 == USN_REASON_EA_CHANGE);
    assert(t[9].0 == USN_REASON_SECURITY_CHANGE);
    assert(t[10].0 == USN_REASON_RENAME_OLD_NAME);
    assert(t[11].0 == USN_REASON_RENAME_NEW_NAME);
    assert(t[12].0 == USN_REASON_INDEXABLE_CHANGE);
    assert(t[13].0 == USN_REASON_BASIC_INFO_CHANGE);
    assert(t[14].0 == USN_REASON_HARD_LINK_CHANGE);
    assert(t[15].0 == USN_REASON_COMPRESSION_CHANGE);
    assert(t[16].0 == USN_REASON_ENCRYPTION_CHANGE);
    assert(t[17].0 == USN_REASON_OBJECT_ID_CHANGE);
    assert(t[18].0 == USN_REASON_REPARSE_POINT_CHANGE);
    assert(t[19].0 == USN_REASON_STREAM_CHANGE);
    assert(t[20].0 == USN_REASON_TRANSACTED_CHANGE);
    assert(t[21].0 == USN_REASON_INTEGRITY_CHANGE);
    assert(t[22].0 == USN_REASON_CLOSE);
    assert forall|i: int| 0 <= i < t.len() - 1 implies #[trigger] t[i].0 < t[i + 1].0 by {
        if i == 0 {
        } else if i == 1 {
        } else if i == 2 {
        } else if i == 3 {
        } else if i == 4 {
        } else if i == 5 {
        } else if i == 6 {
        } else if i == 7 {
        } else if i == 8 {
        } else if i == 9 {
        } else if i == 10 {
        } else if i == 11 {
        } else if i == 12 {
        } else if i == 13 {
        } else if i == 14 {
        } else if i == 15 {
        } else if i == 16 {
        } else if i == 17 {
        } else if i == 18 {
        } else if i == 19 {
        } else if i == 20 {
        } else if i == 21 {
        }
    }
}

proof fn lemma_table_bits_ordered(i: int, j: int)
    requires
        0 <= i < j < reason_table().len(),
    ensures
        reason_table()[i].0 < reason_table()[j].0,
    decreases j - i,
{
    lemma_table_bits_increase();
    if j > i + 1 {
        lemma_table_bits_ordered(i, j - 1);
        assert(reason_table()[j - 1].0 < reason_table()[j].0);
    } else {
        assert(reason_table()[i].0 < reason_table()[i + 1].0);
    }
}

/// The reason bits that have a label.
pub const USN_REASON_LABELLED_BITS: u32 = 0x80FF_FF77;

/// How many of the lowest `n` bits of `x` are set.
pub open spec fn low_bits_set(x: u32, n: nat) -> nat
    decreases n,
{
    if n == 0 {
        0
    } else {
        low_bits_set(x, (n - 1) as nat) + if (x >> ((n - 1) as u32)) & 1u32 == 1u32 {
            1nat
        } else {
            0nat
        }
    }
}

proof fn lemma_labelled_bits(r: u32)
    by (bit_vector)
    ensures
        (((r & 0x80FF_FF77u32) >> 0u32) & 1u32 == 1u32) == (r & 0x1u32 != 0u32),
        (((r & 0x80FF_FF77u32) >> 1u32) & 1u32 == 1u32) == (r & 0x2u32 != 0u32),
        (((r & 0x80FF_FF77u32) >> 2u32) & 1u32 == 1u32) == (r & 0x4u32 != 0u32),
        ((r & 0x80FF_FF77u32) >> 3u32) & 1u32 != 1u32,
        (((r & 0x80FF_FF77u32) >> 4u32) & 1u32 == 1u32) == (r & 0x10u32 != 0u32),
        (((r & 0x80FF_FF77u32) >> 5u32) & 1u32 == 1u32) == (r & 0x20u32 != 0u32),
        (((r & 0x80FF_FF77u32) >> 6u32) & 1u32 == 1u32) == (r & 0x40u32 != 0u32),
        ((r & 0x80FF_FF77u32) >> 7u32) & 1u32 != 1u32,
        (((r & 0x80FF_FF77u32) >> 8u32) & 1u32 == 1u32) == (r & 0x100u32 != 0u32),
        (((r & 0x80FF_FF77u32) >> 9u32) & 1u32 == 1u32) == (r & 0x200u32 != 0u32),
        (((r & 0x80FF_FF77u32) >> 10u32) & 1u32 == 1u32) == (r & 0x400u32 != 0u32),
        (((r & 0x80FF_FF77u32) >> 11u32) & 1u32 == 1u32) == (r & 0x800u32 != 0u32),
        (((r & 0x80FF_FF77u32) >> 12u32) & 1u32 == 1u32) == (r & 0x1000u32 != 0u32),
        (((r & 0x80FF_FF77u32) >> 13u32) & 1u32 == 1u32) == (r & 0x2000u32 != 0u32),
        (((r & 0x80FF_FF77u32) >> 14u32) & 1u32 == 1u32) == (r & 0x4000u32 != 0u32),
        (((r & 0x80FF_FF77u32) >> 15u32) & 1u32 == 1u32) == (r & 0x8000u32 != 0u32),
        (((r & 0x80FF_FF77u32) >> 16u32) & 1u32 == 1u32) == (r & 0x10000u32 != 0u32),
        (((r & 0x80FF_FF77u32) >> 17u32) & 1u32 == 1u32) == (r & 0x20000u32 != 0u32),
        (((r & 0x80FF_FF77u32) >> 18u32) & 1u32 == 1u32) == (r & 0x40000u32 != 0u32),
        (((r & 0x80FF_FF77u32) >> 19u32) & 1u32 == 1u32) == (r & 0x80000u32 != 0u32),
        (((r & 0x80FF_FF77u32) >> 20u32) & 1u32 == 1u32) == (r & 0x100000u32 != 0u32),
        (((r & 0x80FF_FF77u32) >> 21u32) & 1u32 == 1u32) == (r & 0x200000u32 != 0u32),
        (((r & 0x80FF_FF77u32) >> 22u32) & 1u32 == 1u32) == (r & 0x400000u32 != 0u32),
        (((r & 0x80FF_FF77u32) >> 23u32) & 1u32 == 1u32) == (r & 0x800000u32 != 0u32),
        ((r & 0x80FF_FF77u32) >> 24u32) & 1u32 != 1u32,
        ((r & 0x80FF_FF77u32) >> 25u32) & 1u32 != 1u32,
        ((r & 0x80FF_FF77u32) >> 26u32) & 1u32 != 1u32,
        ((r & 0x80FF_FF77u32) >> 27u32) & 1u32 != 1u32,
        ((r & 0x80FF_FF77u32) >> 28u32) & 1u32 != 1u32,
        ((r & 0x80FF_FF77u32) >> 29u32) & 1u32 != 1u32,
        ((r & 0x80FF_FF77u32) >> 30u32) & 1u32 != 1u32,
        (((r & 0x80FF_FF77u32) >> 31u32) & 1u32 == 1u32) == (r & 0x80000000u32 != 0u32),
{
}

proof fn lemma_label_count(reason: u32)
    ensures
        reason_labels(reason).len() == low_bits_set(reason & USN_REASON_LABELLED_BITS, 32),
{
    let t = reason_table();
    assert(t[0].0 == USN_REASON_DATA_OVERWRITE);
    assert(t[1].0 == USN_REASON_DATA_EXTEND);
    assert(t[2].0 == USN_REASON_DATA_TRUNCATION);
    assert(t[3].0 == USN_REASON_NAMED_DATA_OVERWRITE);
    assert(t[4].0 == USN_REASON_NAMED_DATA_EXTEND);
    assert(t[5].0 == USN_REASON_NAMED_DATA_TRUNCATION);
    assert(t[6].0 == USN_REASON_FILE_CREATE);
    assert(t[7].0 == USN_REASON_FILE_DELETE);
    assert(t[8].0 == USN_REASON_EA_CHANGE);
    assert(t[9].0 == USN_REASON_SECURITY_CHANGE);
    assert(t[10].0 == USN_REASON_RENAME_OLD_NAME);
    assert(t[11].0 == USN_REASON_RENAME_NEW_NAME);
    assert(t[12].0 == USN_REASON_INDEXABLE_CHANGE);
    assert(t[13].0 == USN_REASON_BASIC_INFO_CHANGE);
    assert(t[14].0 == USN_REASON_HARD_LINK_CHANGE);
    assert(t[15].0 == USN_REASON_COMPRESSION_CHANGE);
    assert(t[16].0 == USN_REASON_ENCRYPTION_CHANGE);
    assert(t[17].0 == USN_REASON_OBJECT_ID_CHANGE);
    assert(t[18].0 == USN_REASON_REPARSE_POINT_CHANGE);
    assert(t[19].0 == USN_REASON_STREAM_CHANGE);
    assert(t[20].0 == USN_REASON_TRANSACTED_CHANGE);
    assert(t[21].0 == USN_REASON_INTEGRITY_CHANGE);
    assert(t[22].0 == USN_REASON_CLOSE);
    lemma_labelled_bits(reason);
    let x = reason & USN_REASON_LABELLED_BITS;
    assert(low_bits_set(x, 0) == labels_upto(reason, 0).len());
    assert(low_bits_set(x, 1) == labels_upto(reason, 1).len());
    assert(low_bits_set(x, 2) == labels_upto(reason, 2).len());
    assert(low_bits_set(x, 3) == labels_upto(reason, 3).len());
    assert(low_bits_set(x, 4) == labels_upto(reason, 3).len());
    assert(low_bits_set(x, 5) == labels_upto(reason, 4).len());
    assert(low_bits_set(x, 6) == labels_upto(reason, 5).len());
    assert(low_bits_set(x, 7) == labels_upto(reason, 6).len());
    assert(low_bits_set(x, 8) == labels_upto(reason, 6).len());
    assert(low_bits_set(x, 9) == labels_upto(reason, 7).len());
    assert(low_bits_set(x, 10) == labels_upto(reason, 8).len());
    assert(low_bits_set(x, 11) == labels_upto(reason, 9).len());
    assert(low_bits_set(x, 12) == labels_upto(reason, 10).len());
    assert(low_bits_set(x, 13) == labels_upto(reason, 11).len());
    assert(low_bits_set(x, 14) == labels_upto(reason, 12).len());
    assert(low_bits_set(x, 15) == labels_upto(reason, 13).len());
    assert(low_bits_set(x, 16) == labels_upto(reason, 14).len());
    assert(low_bits_set(x, 17) == labels_upto(reason, 15).len());
    assert(low_bits_set(x, 18) == labels_upto(reason, 16).len());
    assert(low_bits_set(x, 19) == labels_upto(reason, 17).len());
    assert(low_bits_set(x, 20) == labels_upto(reason, 18).len());
    assert(low_bits_set(x, 21) == labels_upto(reason, 19).len());
    assert(low_bits_set(x, 22) == labels_upto(reason, 20).len());
    assert(low_bits_set(x, 23) == labels_upto(reason, 21).len());
    assert(low_bits_set(x, 24) == labels_upto(reason, 22).len());
    assert(low_bits_set(x, 25) == labels_upto(reason, 22).len());
    assert(low_bits_set(x, 26) == labels_upto(reason, 22).len());
    assert(low_bits_set(x, 27) == labels_upto(reason, 22).len());
    assert(low_bits_set(x, 28) == labels_upto(reason, 22).len());
    assert(low_bits_set(x, 29) == labels_upto(reason, 22).len());
    assert(low_bits_set(x, 30) == labels_upto(reason, 22).len());
    assert(low_bits_set(x, 31) == labels_upto(reason, 22).len());
    assert(low_bits_set(x, 32) == labels_upto(reason, 23).len());
}

/// The labels of a reason mask are those of the table entries whose bit is
/// set, one per set bit, in table order, which is increasing bit order; a
/// mask with no bit set has no label; there are as many labels as bits set
/// among the labelled ones.
pub proof fn law_reason_labels_follow_bits(reason: u32)
    ensures
        reason_labels(reason) == reason_table().filter_map(label_if_set(reason)),
        reason_labels(reason).len() == reason_table().filter(bit_set_in(reason)).len(),
        forall|i: int, j: int|
            0 <= i < j < reason_table().len() ==> #[trigger] reason_table()[i].0 < #[trigger] reason_table()[j].0,
        reason_labels(0) == Seq::<&'static str>::empty(),
        reason_labels(reason).len() == low_bits_set(reason & USN_REASON_LABELLED_BITS, 32),
{
    lemma_label_count(reason);
    lemma_labels_upto(reason, 23);
    assert(reason_table().take(23) =~= reason_table());
    assert forall|i: int, j: int| 0 <= i < j < reason_table().len() implies #[trigger] reason_table()[i].0
        < #[trigger] reason_table()[j].0 by {
        lemma_table_bits_ordered(i, j);
    }
    lemma_labels_upto(0, 23);
    if reason_labels(0).len() > 0 {
        let l = reason_labels(0)[0];
        assert(reason_labels(0).contains(l));
        let k = choose|k: int| 0 <= k < 23 && 0u32 & #[trigger] reason_table()[k].0 != 0 && reason_table()[k].1 == l;
        let b = reason_table()[k].0;
        assert(0u32 & b == 0) by (bit_vector);
    }
}

/// The labels of the union of two masks are the labels of either.
pub proof fn law_reason_labels_of_union(a: u32, b: u32)
    ensures
        forall|l: &'static str|
            reason_labels(a | b).contains(l) <==> (reason_labels(a).contains(l) || reason_labels(b).contains(l)),
{
    lemma_labels_upto(a, 23);
    lemma_labels_upto(b, 23);
    lemma_labels_upto(a | b, 23);
    assert forall|c: u32| ((a | b) & c != 0) <==> (a & c != 0 || b & c != 0) by {
        assert(((a | b) & c != 0) <==> (a & c != 0 || b & c != 0)) by (bit_vector);
    }
}

/// Whether `b` from `off` on is a run of well-formed records whose lengths
/// add up to exactly the rest of `b`, with nothing after the last one.
pub open spec fn records_fill_exactly(b: Seq<u8>, off: int) -> bool
    decreases b.len() - off,
{
    if off < 0 || off > b.len() {
        false
    } else if off == b.len() {
        true
    } else {
        let len = le32(b, off);
        let major = le16(b, off + 4) as u16;
        let minor = le16(b, off + 6) as u16;
        if b.len() - off >= 8 && 60 <= len <= b.len() - off && (major == 2 || major == 3)
            && usn_record_of(b.subrange(off, off + len), off as usize, major, minor) is Ok {
            records_fill_exactly(b, off + len)
        } else {
            false
        }
    }
}

/// `n` zero bytes.
pub open spec fn zero_bytes(n: nat) -> Seq<u8> {
    Seq::new(n, |i: int| 0u8)
}

proof fn lemma_record_of_offset_free(r: Seq<u8>, o1: usize, o2: usize, major: u16, minor: u16)
    requires
        usn_record_of(r, o1, major, minor) is Ok,
    ensures
        usn_record_of(r, o2, major, minor) == usn_record_of(r, o1, major, minor),
{
    reveal(usn_record_of);
}

proof fn lemma_length_field_not_zero(b: Seq<u8>, off: int)
    requires
        0 <= off,
        off + 4 <= b.len(),
        le32(b, off) != 0,
    ensures
        !zero_from(b, off),
{
    if zero_from(b, off) {
        assert(b[off] == 0 && b[off + 1] == 0 && b[off + 2] == 0 && b[off + 3] == 0);
    }
}

proof fn lemma_records_shift(a: Seq<u8>, b: Seq<u8>, k: int)
    requires
        0 <= k,
        usn_records_from(b, k) is Ok,
    ensures
        usn_records_from(a + b, a.len() + k) == usn_records_from(b, k),
    decreases b.len() - k,
{
    let c = a + b;
    let o = a.len() + k;
    if k >= b.len() {
        return;
    }
    assert(zero_from(c, o) == zero_from(b, k)) by {
        if zero_from(b, k) {
            assert forall|j: int| o <= j < c.len() implies c[j] == 0 by {
                assert(c[j] == b[j - a.len()]);
            }
        }
        if zero_from(c, o) {
            assert forall|j: int| k <= j < b.len() implies b[j] == 0 by {
                assert(c[j + a.len()] == b[j]);
            }
        }
    }
    if zero_from(b, k) || b.len() - k < 8 {
        return;
    }
    assert(c[o] == b[k] && c[o + 1] == b[k + 1] && c[o + 2] == b[k + 2] && c[o + 3] == b[k + 3]);
    assert(c[o + 4] == b[k + 4] && c[o + 5] == b[k + 5] && c[o + 6] == b[k + 6] && c[o + 7] == b[k + 7]);
    let len = le32(b, k);
    let major = le16(b, k + 4) as u16;
    let minor = le16(b, k + 6) as u16;
    if len == 0 || len < 60 || len > b.len() - k || (major != 2 && major != 3) {
        return;
    }
    assert(c.subrange(o, o + len) =~= b.subrange(k, k + len));
    lemma_record_of_offset_free(b.subrange(k, k + len), k as usize, o as usize, major, minor);
    lemma_records_shift(a, b, k + len);
}

proof fn lemma_records_prefix(a: Seq<u8>, b: Seq<u8>, off: int)
    requires
        records_fill_exactly(a, off),
        usn_records_from(a + b, a.len() as int) is Ok,
    ensures
        usn_records_from(a, off) is Ok,
        usn_records_from(a + b, off) == Ok::<Seq<UsnRecordView>, UsnParseError>(
            usn_records_from(a, off)->Ok_0 + usn_records_from(a + b, a.len() as int)->Ok_0,
        ),
    decreases a.len() - off,
{
    let c = a + b;
    let t = usn_records_from(c, a.len() as int)->Ok_0;
    if off == a.len() {
        assert(Seq::<UsnRecordView>::empty() + t =~= t);
        return;
    }
    let len = le32(a, off);
    let major = le16(a, off + 4) as u16;
    let minor = le16(a, off + 6) as u16;
    assert(c[off] == a[off] && c[off + 1] == a[off + 1] && c[off + 2] == a[off + 2] && c[off + 3] == a[off + 3]);
    assert(c[off + 4] == a[off + 4] && c[off + 5] == a[off + 5] && c[off + 6] == a[off + 6] && c[off + 7] == a[off + 7]);
    lemma_length_field_not_zero(a, off);
    lemma_length_field_not_zero(c, off);
    assert(c.subrange(off, off + len) =~= a.subrange(off, off + len));
    lemma_records_prefix(a, b, off + len);
    let r = usn_record_of(a.subrange(off, off + len), off as usize, major, minor)->Ok_0;
    let rest = usn_records_from(a, off + len)->Ok_0;
    assert(seq![r] + rest + t =~= seq![r] + (rest + t));
}

/// Parsing a run of whole records followed by a buffer that parses gives the
/// records of the run, then those of the buffer.
pub proof fn law_usn_records_concatenate(a: Seq<u8>, b: Seq<u8>)
    requires
        records_fill_exactly(a, 0),
        usn_records_from(b, 0) is Ok,
    ensures
        usn_records_from(a, 0) is Ok,
        usn_records_from(a + b, 0) == Ok::<Seq<UsnRecordView>, UsnParseError>(
            usn_records_from(a, 0)->Ok_0 + usn_records_from(b, 0)->Ok_0,
        ),
{
    lemma_records_shift(a, b, 0);
    lemma_records_prefix(a, b, 0);
}

/// A buffer of zero bytes, of any length, holds no record, and zero padding
/// after a run of whole records changes nothing.
pub proof fn law_usn_zero_padding(a: Seq<u8>, n: nat)
    requires
        records_fill_exactly(a, 0),
    ensures
        usn_records_from(zero_bytes(n), 0) == Ok::<Seq<UsnRecordView>, UsnParseError>(Seq::empty()),
        usn_records_from(a + zero_bytes(n), 0) == usn_records_from(a, 0),
{
    let z = zero_bytes(n);
    assert(zero_from(z, 0));
    law_usn_records_concatenate(a, z);
    assert(usn_records_from(a, 0)->Ok_0 + Seq::<UsnRecordView>::empty() =~= usn_records_from(a, 0)->Ok_0);
}

/// The fields of a decoded record sit where the USN_RECORD_V2 and
/// USN_RECORD_V3 layouts put them. Version 2: file reference at byte 8,
/// parent at 16, USN at 24, timestamp at 32, reason at 40, source info at
/// 44, security id at 48, attributes at 52. Version 3 (128-bit references,
/// whose low 64 bits are kept): file reference at 8, parent at 24, USN at
/// 40, timestamp at 48, reason at 56, source info at 60, security id at 64,
/// attributes at 68. All little-endian; the versions are the ones given.
pub proof fn law_usn_record_fields_at_layout_positions(r: Seq<u8>, offset: usize, major: u16, minor: u16)
    requires
        usn_record_of(r, offset, major, minor) is Ok,
    ensures
        ({
            let v = usn_record_of(r, offset, major, minor)->Ok_0;
            &&& v.major_version == major && v.minor_version == minor
            &&& v.file_reference_number == le64(r, 8) as u64
            &&& major == 3 ==> {
                &&& r.len() >= 76
                &&& v.parent_file_reference_number == le64(r, 24) as u64
                &&& v.usn == le64(r, 40) as i64
                &&& v.timestamp_100ns == le64(r, 48) as i64
                &&& v.reason == le32(r, 56) as u32
                &&& v.source_info == le32(r, 60) as u32
                &&& v.security_id == le32(r, 64) as u32
                &&& v.file_attributes == le32(r, 68) as u32
            }
            &&& major != 3 ==> {
                &&& r.len() >= 60
                &&& v.parent_file_reference_number == le64(r, 16) as u64
                &&& v.usn == le64(r, 24) as i64
                &&& v.timestamp_100ns == le64(r, 32) as i64
                &&& v.reason == le32(r, 40) as u32
                &&& v.source_info == le32(r, 44) as u32
                &&& v.security_id == le32(r, 48) as u32
                &&& v.file_attributes == le32(r, 52) as u32
            }
        }),
{
    reveal(usn_record_of);
}

/// The first record parsed from a buffer is the one at its start: its
/// version is the 16-bit field at byte 4, and, for version 2, its USN is
/// the little-endian 64-bit value at byte 24 and its timestamp the one at
/// byte 32 (for version 3, at 40 and 48), its reason the 32-bit value at
/// byte 40 (56).
pub proof fn law_first_usn_record_read_from_buffer(b: Seq<u8>)
    requires
        usn_records_from(b, 0) matches Ok(s) && s.len() > 0,
    ensures
        ({
            let v = usn_records_from(b, 0)->Ok_0[0];
            &&& v.major_version == le16(b, 4) as u16
            &&& v.minor_version == le16(b, 6) as u16
            &&& v.file_reference_number == le64(b, 8) as u64
            &&& v.major_version == 2 ==> {
                &&& v.parent_file_reference_number == le64(b, 16) as u64
                &&& v.usn == le64(b, 24) as i64
                &&& v.timestamp_100ns == le64(b, 32) as i64
                &&& v.reason == le32(b, 40) as u32
            }
            &&& v.major_version == 3 ==> {
                &&& v.parent_file_reference_number == le64(b, 24) as u64
                &&& v.usn == le64(b, 40) as i64
                &&& v.timestamp_100ns == le64(b, 48) as i64
                &&& v.reason == le32(b, 56) as u32
            }
        }),
{
    let len = le32(b, 0);
    let major = le16(b, 4) as u16;
    let minor = le16(b, 6) as u16;
    let r = b.subrange(0, len);
    law_usn_record_fields_at_layout_positions(r, 0, major, minor);
    assert forall|k: int| 0 <= k < len implies r[k] == b[k] by {}
    assert(r[8] == b[8] && r[9] == b[9] && r[10] == b[10] && r[11] == b[11]);
    assert(r[12] == b[12] && r[13] == b[13] && r[14] == b[14] && r[15] == b[15]);
    assert(r[16] == b[16] && r[17] == b[17] && r[18] == b[18] && r[19] == b[19]);
    assert(r[20] == b[20] && r[21] == b[21] && r[22] == b[22] && r[23] == b[23]);
    assert(r[24] == b[24] && r[25] == b[25] && r[26] == b[26] && r[27] == b[27]);
    assert(r[28] == b[28] && r[29] == b[29] && r[30] == b[30] && r[31] == b[31]);
    assert(r[32] == b[32] && r[33] == b[33] && r[34] == b[34] && r[35] == b[35]);
    assert(r[36] == b[36] && r[37] == b[37] && r[38] == b[38] && r[39] == b[39]);
    assert(r[40] == b[40] && r[41] == b[41] && r[42] == b[42] && r[43] == b[43]);
    if major == 3 {
        assert(r[44] == b[44] && r[45] == b[45] && r[46] == b[46] && r[47] == b[47]);
        assert(r[48] == b[48] && r[49] == b[49] && r[50] == b[50] && r[51] == b[51]);
        assert(r[52] == b[52] && r[53] == b[53] && r[54] == b[54] && r[55] == b[55]);
        assert(r[56] == b[56] && r[57] == b[57] && r[58] == b[58] && r[59] == b[59]);
    }
}

} // verus!
