//! NTFS MFT file record parsing: update-sequence fixups, attribute headers,
//! resident values, non-resident mapping pairs and data runs.
use vstd::prelude::*;
use crate::bytes::{le16, le32, le64, read_u16_le, read_u32_le, read_u64_le};
use crate::text::{
    decimal, decimal_chars, hex_chars, hex_fixed, push_chars, push_str, string_from_chars, utf16_decode,
    utf16_string,
};
use crate::usn::utf16_units;

verus! {

pub const ATTRIBUTE_TYPE_STANDARD_INFORMATION: u32 = 0x10;
pub const ATTRIBUTE_TYPE_ATTRIBUTE_LIST: u32 = 0x20;
pub const ATTRIBUTE_TYPE_FILE_NAME: u32 = 0x30;
pub const ATTRIBUTE_TYPE_DATA: u32 = 0x80;
pub const ATTRIBUTE_TYPE_END: u32 = 0xFFFF_FFFF;

/// A parsed MFT record.
#[derive(Debug, Clone)]
pub struct MftRecord {
    pub header: MftRecordHeader,
    pub attributes: Vec<AttributeRecord>,
}

/// Fixed header of an MFT record.
#[derive(Debug, Clone, Copy, PartialEq, Eq, Structural)]
pub struct MftRecordHeader {
    pub usa_offset: u16,
    pub usa_count: u16,
    pub sequence_number: u16,
    pub hard_link_count: u16,
    pub first_attribute_offset: u16,
    pub flags: u16,
    pub bytes_in_use: u32,
    pub bytes_allocated: u32,
    pub base_record_reference: u64,
    pub next_attribute_id: u16,
    pub record_number: u32,
}

impl MftRecordHeader {
    /// The record is allocated.
    pub fn in_use(&self) -> (b: bool)
        ensures
            b == (self.flags & 1 != 0),
    {
        self.flags & 0x0001 != 0
    }

    /// The record describes a directory.
    pub fn is_directory(&self) -> (b: bool)
        ensures
            b == (self.flags & 2 != 0),
    {
        self.flags & 0x0002 != 0
    }
}

/// One attribute of a record.
#[derive(Debug, Clone)]
pub struct AttributeRecord {
    pub attribute_type: u32,
    pub name: Option<String>,
    pub flags: u16,
    pub attribute_id: u16,
    pub form: AttributeForm,
}

/// Where an attribute's value lives.
#[derive(Debug, Clone)]
pub enum AttributeForm {
    Resident(ResidentAttribute),
    NonResident(NonResidentAttribute),
}

/// A value stored inside the record.
#[derive(Debug, Clone)]
pub struct ResidentAttribute {
    pub value: Vec<u8>,
    pub resident_flags: u8,
}

/// A value stored in clusters described by data runs.
#[derive(Debug, Clone)]
pub struct NonResidentAttribute {
    pub lowest_vcn: u64,
    pub highest_vcn: u64,
    pub compression_unit_size: u16,
    pub allocated_size: u64,
    pub data_size: u64,
    pub initialized_size: u64,
    pub compressed_size: Option<u64>,
    pub mapping_pairs: Vec<u8>,
    pub data_runs: Vec<DataRun>,
}

/// A run of clusters; `lcn` is `None` for a sparse run.
#[derive(Debug, Clone, Copy, PartialEq, Eq, Structural)]
pub struct DataRun {
    pub cluster_count: u64,
    pub lcn: Option<i64>,
}

/// Why an MFT record was refused.
#[derive(Debug, Clone, PartialEq, Eq)]
pub enum MftParseError {
    BufferTooSmall { expected: usize, actual: usize },
    InvalidSectorSize(usize),
    InvalidSignature([u8; 4]),
    InvalidUpdateSequenceArray { offset: u16, count: u16 },
    FixupMismatch { sector_index: usize, expected: u16, actual: u16 },
    InvalidBytesInUse(u32),
    InvalidFirstAttributeOffset(u16),
    InvalidAttributeLength { offset: usize, length: u32 },
    AttributeOutOfBounds { offset: usize, length: usize, limit: usize },
    InvalidNonResidentFlag(u8),
    InvalidNameBounds,
    InvalidUtf16Name,
    InvalidResidentValueBounds,
    InvalidMappingPairsOffset(u16),
    InvalidDataRunHeader(u8),
    InvalidDataRunLength,
    DataRunOutOfBounds,
    DataRunLcnOverflow,
}

// ---------------------------------------------------------------------------
// Views
// ---------------------------------------------------------------------------

/// Error view: the signature as a sequence.
pub enum MftErrorView {
    BufferTooSmall { expected: usize, actual: usize },
    InvalidSectorSize(usize),
    InvalidSignature(Seq<u8>),
    InvalidUpdateSequenceArray { offset: u16, count: u16 },
    FixupMismatch { sector_index: usize, expected: u16, actual: u16 },
    InvalidBytesInUse(u32),
    InvalidFirstAttributeOffset(u16),
    InvalidAttributeLength { offset: usize, length: u32 },
    AttributeOutOfBounds { offset: usize, length: usize, limit: usize },
    InvalidNonResidentFlag(u8),
    InvalidNameBounds,
    InvalidUtf16Name,
    InvalidResidentValueBounds,
    InvalidMappingPairsOffset(u16),
    InvalidDataRunHeader(u8),
    InvalidDataRunLength,
    DataRunOutOfBounds,
    DataRunLcnOverflow,
}

impl View for MftParseError {
    type V = MftErrorView;

    open spec fn view(&self) -> MftErrorView {
        match *self {
            MftParseError::BufferTooSmall { expected, actual } => MftErrorView::BufferTooSmall { expected, actual },
            MftParseError::InvalidSectorSize(v) => MftErrorView::InvalidSectorSize(v),
            MftParseError::InvalidSignature(s) => MftErrorView::InvalidSignature(s@),
            MftParseError::InvalidUpdateSequenceArray { offset, count } => MftErrorView::InvalidUpdateSequenceArray { offset, count },
            MftParseError::FixupMismatch { sector_index, expected, actual } => MftErrorView::FixupMismatch { sector_index, expected, actual },
            MftParseError::InvalidBytesInUse(v) => MftErrorView::InvalidBytesInUse(v),
            MftParseError::InvalidFirstAttributeOffset(v) => MftErrorView::InvalidFirstAttributeOffset(v),
            MftParseError::InvalidAttributeLength { offset, length } => MftErrorView::InvalidAttributeLength { offset, length },
            MftParseError::AttributeOutOfBounds { offset, length, limit } => MftErrorView::AttributeOutOfBounds { offset, length, limit },
            MftParseError::InvalidNonResidentFlag(v) => MftErrorView::InvalidNonResidentFlag(v),
            MftParseError::InvalidNameBounds => MftErrorView::InvalidNameBounds,
            MftParseError::InvalidUtf16Name => MftErrorView::InvalidUtf16Name,
            MftParseError::InvalidResidentValueBounds => MftErrorView::InvalidResidentValueBounds,
            MftParseError::InvalidMappingPairsOffset(v) => MftErrorView::InvalidMappingPairsOffset(v),
            MftParseError::InvalidDataRunHeader(v) => MftErrorView::InvalidDataRunHeader(v),
            MftParseError::InvalidDataRunLength => MftErrorView::InvalidDataRunLength,
            MftParseError::DataRunOutOfBounds => MftErrorView::DataRunOutOfBounds,
            MftParseError::DataRunLcnOverflow => MftErrorView::DataRunLcnOverflow,
        }
    }
}

/// The message of an error, as the engine reports it for a record.
pub open spec fn mft_error_text(e: MftErrorView) -> Seq<char> {
    match e {
        MftErrorView::BufferTooSmall { expected, actual } => "MFT record buffer too small: expected at least "@
            + decimal(expected as nat) + " bytes, got "@ + decimal(actual as nat),
        MftErrorView::InvalidSectorSize(v) => "invalid sector size for fixup: "@ + decimal(v as nat),
        MftErrorView::InvalidSignature(b) => "invalid MFT record signature: ["@ + decimal(b[0] as nat) + ", "@
            + decimal(b[1] as nat) + ", "@ + decimal(b[2] as nat) + ", "@ + decimal(b[3] as nat) + "]"@,
        MftErrorView::InvalidUpdateSequenceArray { offset, count } => "invalid update sequence array bounds: offset="@
            + decimal(offset as nat) + " count="@ + decimal(count as nat),
        MftErrorView::FixupMismatch { sector_index, expected, actual } => "MFT fixup mismatch at sector "@
            + decimal(sector_index as nat) + ": expected 0x"@ + hex_fixed(expected as nat, 4) + ", got 0x"@
            + hex_fixed(actual as nat, 4),
        MftErrorView::InvalidBytesInUse(v) => "invalid bytes-in-use value: "@ + decimal(v as nat),
        MftErrorView::InvalidFirstAttributeOffset(v) => "invalid first attribute offset: "@ + decimal(v as nat),
        MftErrorView::InvalidAttributeLength { offset, length } => "invalid attribute length at offset "@
            + decimal(offset as nat) + ": "@ + decimal(length as nat),
        MftErrorView::AttributeOutOfBounds { offset, limit, .. } => "attribute at offset "@ + decimal(offset as nat)
            + " exceeds record bytes-in-use limit "@ + decimal(limit as nat),
        MftErrorView::InvalidNonResidentFlag(v) => "invalid non-resident flag value: "@ + decimal(v as nat),
        MftErrorView::InvalidNameBounds => "attribute name out of bounds"@,
        MftErrorView::InvalidUtf16Name => "invalid UTF-16 attribute name"@,
        MftErrorView::InvalidResidentValueBounds => "resident attribute value out of bounds"@,
        MftErrorView::InvalidMappingPairsOffset(v) => "invalid mapping-pairs offset: "@ + decimal(v as nat),
        MftErrorView::InvalidDataRunHeader(v) => "invalid data run header byte: 0x"@ + hex_fixed(v as nat, 2),
        MftErrorView::InvalidDataRunLength => "data run length may not be zero"@,
        MftErrorView::DataRunOutOfBounds => "data run exceeds available mapping-pairs buffer"@,
        MftErrorView::DataRunLcnOverflow => "data run LCN overflow"@,
    }
}

impl MftParseError {
    /// The error's message.
    pub fn message(&self) -> (m: String)
        ensures
            m@ == mft_error_text(self@),
    {
        let mut v: Vec<char> = Vec::new();
        match self {
            MftParseError::BufferTooSmall { expected, actual } => {
                push_str(&mut v, "MFT record buffer too small: expected at least ");
                push_chars(&mut v, &decimal_chars(*expected as u64));
                push_str(&mut v, " bytes, got ");
                push_chars(&mut v, &decimal_chars(*actual as u64));
            },
            MftParseError::InvalidSectorSize(n) => {
                push_str(&mut v, "invalid sector size for fixup: ");
                push_chars(&mut v, &decimal_chars(*n as u64));
            },
            MftParseError::InvalidSignature(b) => {
                push_str(&mut v, "invalid MFT record signature: [");
                push_chars(&mut v, &decimal_chars(b[0] as u64));
                push_str(&mut v, ", ");
                push_chars(&mut v, &decimal_chars(b[1] as u64));
                push_str(&mut v, ", ");
                push_chars(&mut v, &decimal_chars(b[2] as u64));
                push_str(&mut v, ", ");
                push_chars(&mut v, &decimal_chars(b[3] as u64));
                push_str(&mut v, "]");
            },
            MftParseError::InvalidUpdateSequenceArray { offset, count } => {
                push_str(&mut v, "invalid update sequence array bounds: offset=");
                push_chars(&mut v, &decimal_chars(*offset as u64));
                push_str(&mut v, " count=");
                push_chars(&mut v, &decimal_chars(*count as u64));
            },
            MftParseError::FixupMismatch { sector_index, expected, actual } => {
                push_str(&mut v, "MFT fixup mismatch at sector ");
                push_chars(&mut v, &decimal_chars(*sector_index as u64));
                push_str(&mut v, ": expected 0x");
                push_chars(&mut v, &hex_chars(*expected as u64, 4));
                push_str(&mut v, ", got 0x");
                push_chars(&mut v, &hex_chars(*actual as u64, 4));
            },
            MftParseError::InvalidBytesInUse(n) => {
                push_str(&mut v, "invalid bytes-in-use value: ");
                push_chars(&mut v, &decimal_chars(*n as u64));
            },
            MftParseError::InvalidFirstAttributeOffset(n) => {
                push_str(&mut v, "invalid first attribute offset: ");
                push_chars(&mut v, &decimal_chars(*n as u64));
            },
            MftParseError::InvalidAttributeLength { offset, length } => {
                push_str(&mut v, "invalid attribute length at offset ");
                push_chars(&mut v, &decimal_chars(*offset as u64));
                push_str(&mut v, ": ");
                push_chars(&mut v, &decimal_chars(*length as u64));
            },
            MftParseError::AttributeOutOfBounds { offset, limit, .. } => {
                push_str(&mut v, "attribute at offset ");
                push_chars(&mut v, &decimal_chars(*offset as u64));
                push_str(&mut v, " exceeds record bytes-in-use limit ");
                push_chars(&mut v, &decimal_chars(*limit as u64));
            },
            MftParseError::InvalidNonResidentFlag(n) => {
                push_str(&mut v, "invalid non-resident flag value: ");
                push_chars(&mut v, &decimal_chars(*n as u64));
            },
            MftParseError::InvalidNameBounds => push_str(&mut v, "attribute name out of bounds"),
            MftParseError::InvalidUtf16Name => push_str(&mut v, "invalid UTF-16 attribute name"),
            MftParseError::InvalidResidentValueBounds => push_str(&mut v, "resident attribute value out of bounds"),
            MftParseError::InvalidMappingPairsOffset(n) => {
                push_str(&mut v, "invalid mapping-pairs offset: ");
                push_chars(&mut v, &decimal_chars(*n as u64));
            },
            MftParseError::InvalidDataRunHeader(n) => {
                push_str(&mut v, "invalid data run header byte: 0x");
                push_chars(&mut v, &hex_chars(*n as u64, 2));
            },
            MftParseError::InvalidDataRunLength => push_str(&mut v, "data run length may not be zero"),
            MftParseError::DataRunOutOfBounds => push_str(&mut v, "data run exceeds available mapping-pairs buffer"),
            MftParseError::DataRunLcnOverflow => push_str(&mut v, "data run LCN overflow"),
        }
        string_from_chars(&v)
    }
}

/// Non-resident attribute view.
pub struct NonResidentView {
    pub lowest_vcn: u64,
    pub highest_vcn: u64,
    pub compression_unit_size: u16,
    pub allocated_size: u64,
    pub data_size: u64,
    pub initialized_size: u64,
    pub compressed_size: Option<u64>,
    pub mapping_pairs: Seq<u8>,
    pub data_runs: Seq<DataRun>,
}

impl View for NonResidentAttribute {
    type V = NonResidentView;

    open spec fn view(&self) -> NonResidentView {
        NonResidentView {
            lowest_vcn: self.lowest_vcn,
            highest_vcn: self.highest_vcn,
            compression_unit_size: self.compression_unit_size,
            allocated_size: self.allocated_size,
            data_size: self.data_size,
            initialized_size: self.initialized_size,
            compressed_size: self.compressed_size,
            mapping_pairs: self.mapping_pairs@,
            data_runs: self.data_runs@,
        }
    }
}

/// Attribute form view.
pub enum AttributeFormView {
    Resident { value: Seq<u8>, resident_flags: u8 },
    NonResident(NonResidentView),
}

impl View for AttributeForm {
    type V = AttributeFormView;

    open spec fn view(&self) -> AttributeFormView {
        match self {
            AttributeForm::Resident(r) => AttributeFormView::Resident { value: r.value@, resident_flags: r.resident_flags },
            AttributeForm::NonResident(n) => AttributeFormView::NonResident(n@),
        }
    }
}

/// Attribute view.
pub struct AttributeView {
    pub attribute_type: u32,
    pub name: Option<Seq<char>>,
    pub flags: u16,
    pub attribute_id: u16,
    pub form: AttributeFormView,
}

impl View for AttributeRecord {
    type V = AttributeView;

    open spec fn view(&self) -> AttributeView {
        AttributeView {
            attribute_type: self.attribute_type,
            name: match self.name {
                Some(s) => Some(s@),
                None => None,
            },
            flags: self.flags,
            attribute_id: self.attribute_id,
            form: self.form@,
        }
    }
}

/// The views of attributes.
pub open spec fn attribute_views(v: Seq<AttributeRecord>) -> Seq<AttributeView> {
    Seq::new(v.len(), |i: int| v[i]@)
}

/// Record view.
pub struct MftRecordView {
    pub header: MftRecordHeader,
    pub attributes: Seq<AttributeView>,
}

impl View for MftRecord {
    type V = MftRecordView;

    open spec fn view(&self) -> MftRecordView {
        MftRecordView { header: self.header, attributes: attribute_views(self.attributes@) }
    }
}

/// Whether an exec result agrees with a spec result.
pub open spec fn result_matches<A: View>(r: Result<A, MftParseError>, s: Result<A::V, MftErrorView>) -> bool {
    match (r, s) {
        (Ok(a), Ok(b)) => a@ == b,
        (Err(e), Err(f)) => e@ == f,
        _ => false,
    }
}

// ---------------------------------------------------------------------------
// Little-endian variable-width integers
// ---------------------------------------------------------------------------

/// Unsigned little-endian value of `s`.
pub open spec fn uvalue(s: Seq<u8>) -> int
    decreases s.len(),
{
    if s.len() == 0 {
        0
    } else {
        s[0] + 256 * uvalue(s.drop_first())
    }
}

/// `256^n`.
pub open spec fn pow256(n: nat) -> int
    decreases n,
{
    if n == 0 {
        1
    } else {
        256 * pow256((n - 1) as nat)
    }
}

/// Sign-extended little-endian value of `s`.
pub open spec fn svalue(s: Seq<u8>) -> int {
    if s.len() > 0 && s.last() & 0x80 != 0 {
        uvalue(s) - pow256(s.len())
    } else {
        uvalue(s)
    }
}

proof fn lemma_uvalue_bound(s: Seq<u8>)
    ensures
        0 <= uvalue(s) < pow256(s.len()),
    decreases s.len(),
{
    if s.len() > 0 {
        lemma_uvalue_bound(s.drop_first());
    }
}

proof fn lemma_uvalue_push(s: Seq<u8>, b: u8)
    ensures
        uvalue(s.push(b)) == uvalue(s) + b * pow256(s.len()),
    decreases s.len(),
{
    if s.len() == 0 {
        assert(s.push(b).drop_first() =~= Seq::<u8>::empty());
        assert(uvalue(s.push(b)) == s.push(b)[0] + 256 * uvalue(s.push(b).drop_first()));
        assert(pow256(0) == 1);
    } else {
        assert(s.push(b).drop_first() =~= s.drop_first().push(b));
        assert(s.push(b)[0] == s[0]);
        lemma_uvalue_push(s.drop_first(), b);
        assert(256 * (b * pow256((s.len() - 1) as nat)) == b * pow256(s.len())) by (nonlinear_arith)
            requires
                pow256(s.len()) == 256 * pow256((s.len() - 1) as nat),
        ;
    }
}

proof fn lemma_uvalue_top(s: Seq<u8>)
    requires
        s.len() > 0,
    ensures
        (s.last() & 0x80 != 0) == (uvalue(s) >= pow256(s.len()) / 2),
{
    let t = s.drop_last();
    assert(t.push(s.last()) =~= s);
    lemma_uvalue_push(t, s.last());
    lemma_uvalue_bound(t);
    let p = pow256(t.len());
    assert(pow256(s.len()) == 256 * p);
    let l = s.last();
    assert((l & 0x80 != 0) == (l >= 128)) by (bit_vector);
    assert((l >= 128) == (uvalue(t) + l * p >= 128 * p)) by (nonlinear_arith)
        requires
            0 <= uvalue(t) < p,
            p > 0,
    ;
    assert((256 * p) / 2 == 128 * p);
}

proof fn lemma_pow256_values(n: nat)
    requires
        n <= 8,
    ensures
        pow256(n) <= 0x1_0000_0000_0000_0000,
        pow256(n) >= 1,
    decreases n,
{
    if n > 0 {
        lemma_pow256_values((n - 1) as nat);
        if n == 8 {
            reveal_with_fuel(pow256, 9);
        } else {
            let m = (n - 1) as nat;
            lemma_pow256_le(m);
        }
    }
}

proof fn lemma_pow256_le(m: nat)
    requires
        m < 8,
    ensures
        pow256(m) <= 0x1_0000_0000_0000_00,
    decreases m,
{
    reveal_with_fuel(pow256, 9);
}

fn unsigned_le(bytes: &[u8]) -> (v: u64)
    requires
        bytes@.len() <= 8,
    ensures
        v == uvalue(bytes@),
{
    let mut v: u64 = 0;
    let mut k: usize = bytes.len();
    while k > 0
        invariant
            k <= bytes@.len() <= 8,
            v == uvalue(bytes@.subrange(k as int, bytes@.len() as int)),
        decreases k,
    {
        let ghost tail = bytes@.subrange(k as int, bytes@.len() as int);
        let ghost next = bytes@.subrange(k - 1, bytes@.len() as int);
        assert(next.drop_first() =~= tail);
        proof {
            lemma_uvalue_bound(tail);
            lemma_pow256_le(tail.len());
        }
        v = bytes[k - 1] as u64 + v * 256;
        k = k - 1;
    }
    assert(bytes@.subrange(0, bytes@.len() as int) =~= bytes@);
    v
}

fn pow256_exec(n: usize) -> (p: u128)
    requires
        n <= 8,
    ensures
        p == pow256(n as nat),
{
    let mut p: u128 = 1;
    let mut i: usize = 0;
    while i < n
        invariant
            i <= n <= 8,
            p == pow256(i as nat),
        decreases n - i,
    {
        proof {
            lemma_pow256_le(i as nat);
        }
        p = p * 256;
        i = i + 1;
    }
    p
}

fn signed_le(bytes: &[u8]) -> (v: i64)
    requires
        bytes@.len() <= 8,
    ensures
        v == svalue(bytes@),
{
    let u = unsigned_le(bytes);
    let n = bytes.len();
    if n > 0 && bytes[n - 1] & 0x80 != 0 {
        let p = pow256_exec(n);
        proof {
            lemma_uvalue_top(bytes@);
            lemma_uvalue_bound(bytes@);
            lemma_pow256_values(n as nat);
        }
        let w: i128 = u as i128 - p as i128;
        assert(w >= -0x8000_0000_0000_0000) by (nonlinear_arith)
            requires
                w == u - p,
                u >= p / 2,
                p <= 0x1_0000_0000_0000_0000,
        ;
        w as i64
    } else {
        proof {
            if n > 0 {
                lemma_uvalue_top(bytes@);
            }
            lemma_uvalue_bound(bytes@);
            lemma_pow256_values(n as nat);
            if n == 8 {
                reveal_with_fuel(pow256, 9);
            } else if n > 0 {
                lemma_pow256_le(n as nat);
            }
        }
        u as i64
    }
}

// ---------------------------------------------------------------------------
// Data runs
// ---------------------------------------------------------------------------

/// The data runs of mapping pairs `m` from `c` on, with the running LCN `lcn`.
pub open spec fn data_runs_from(m: Seq<u8>, c: int, lcn: int) -> Result<Seq<DataRun>, MftErrorView>
    decreases m.len() - c,
{
    if c < 0 || c >= m.len() || m[c] == 0 {
        Ok(Seq::empty())
    } else {
        let header = m[c];
        let ls = (header & 0x0F) as int;
        let os = (header >> 4) as int;
        let p = c + 1;
        if ls == 0 || ls > 8 || os > 8 {
            Err(MftErrorView::InvalidDataRunHeader(header))
        } else if p + ls + os > m.len() {
            Err(MftErrorView::DataRunOutOfBounds)
        } else {
            let run_length = uvalue(m.subrange(p, p + ls));
            if run_length == 0 {
                Err(MftErrorView::InvalidDataRunLength)
            } else if os == 0 {
                match data_runs_from(m, p + ls, lcn) {
                    Ok(rest) => Ok(seq![DataRun { cluster_count: run_length as u64, lcn: None }] + rest),
                    Err(e) => Err(e),
                }
            } else {
                let next = lcn + svalue(m.subrange(p + ls, p + ls + os));
                if next < i64::MIN || next > i64::MAX {
                    Err(MftErrorView::DataRunLcnOverflow)
                } else {
                    match data_runs_from(m, p + ls + os, next) {
                        Ok(rest) => Ok(seq![DataRun { cluster_count: run_length as u64, lcn: Some(next as i64) }] + rest),
                        Err(e) => Err(e),
                    }
                }
            }
        }
    }
}

/// Decodes mapping pairs into data runs.
pub fn parse_data_runs(mapping_pairs: &[u8]) -> (r: Result<Vec<DataRun>, MftParseError>)
    ensures
        match (r, data_runs_from(mapping_pairs@, 0, 0)) {
            (Ok(v), Ok(s)) => v@ == s,
            (Err(e), Err(f)) => e@ == f,
            _ => false,
        },
{
    let m = mapping_pairs;
    let n = m.len();
    let mut cursor: usize = 0;
    let mut current_lcn: i64 = 0;
    let mut runs: Vec<DataRun> = Vec::new();
    while cursor < n
        invariant
            m@ == mapping_pairs@,
            n == m@.len(),
            cursor <= n,
            match data_runs_from(m@, 0, 0) {
                Ok(s) => match data_runs_from(m@, cursor as int, current_lcn as int) {
                    Ok(t) => s == runs@ + t,
                    Err(_) => false,
                },
                Err(e) => data_runs_from(m@, cursor as int, current_lcn as int) == Err::<Seq<DataRun>, MftErrorView>(e),
            },
        ensures
            data_runs_from(m@, cursor as int, current_lcn as int) == Ok::<Seq<DataRun>, MftErrorView>(Seq::empty()),
        decreases n - cursor,
    {
        let header = m[cursor];
        if header == 0 {
            break;
        }
        let length_size = (header & 0x0F) as usize;
        let offset_size = (header >> 4) as usize;
        if length_size == 0 || length_size > 8 || offset_size > 8 {
            assert(data_runs_from(m@, cursor as int, current_lcn as int) == Err::<Seq<DataRun>, MftErrorView>(MftErrorView::InvalidDataRunHeader(header)));
            return Err(MftParseError::InvalidDataRunHeader(header));
        }
        let p = cursor + 1;
        if length_size + offset_size > n - p {
            assert(data_runs_from(m@, cursor as int, current_lcn as int) == Err::<Seq<DataRun>, MftErrorView>(MftErrorView::DataRunOutOfBounds));
            return Err(MftParseError::DataRunOutOfBounds);
        }
        let run_length = unsigned_le(&m[p..p + length_size]);
        if run_length == 0 {
            return Err(MftParseError::InvalidDataRunLength);
        }
        let q = p + length_size;
        let ghost before = runs@;
        if offset_size == 0 {
            runs.push(DataRun { cluster_count: run_length, lcn: None });
            cursor = q;
        } else {
            let delta = signed_le(&m[q..q + offset_size]);
            current_lcn = match current_lcn.checked_add(delta) {
                Some(v) => v,
                None => return Err(MftParseError::DataRunLcnOverflow),
            };
            runs.push(DataRun { cluster_count: run_length, lcn: Some(current_lcn) });
            cursor = q + offset_size;
        }
        proof {
            assert(runs@ == before.push(runs@.last()));
            assert forall|t: Seq<DataRun>| #![auto] before + (seq![runs@.last()] + t) == runs@ + t by {
                assert(before + (seq![runs@.last()] + t) =~= runs@ + t);
            }
        }
    }
    proof {
        assert(runs@ + Seq::<DataRun>::empty() =~= runs@);
    }
    Ok(runs)
}

// ---------------------------------------------------------------------------
// Attributes
// ---------------------------------------------------------------------------

/// The name of an attribute `a` (UTF-16, `name_length` units at `name_offset`).
pub open spec fn attribute_name_of(a: Seq<u8>, name_offset: int, name_length: int) -> Result<Option<Seq<char>>, MftErrorView> {
    if name_length == 0 {
        Ok(None)
    } else if name_offset + 2 * name_length > a.len() {
        Err(MftErrorView::InvalidNameBounds)
    } else {
        match utf16_decode(utf16_units(a, name_offset, name_length)) {
            Some(n) => Ok(Some(n)),
            None => Err(MftErrorView::InvalidUtf16Name),
        }
    }
}

/// The resident value of attribute `a`.
pub open spec fn resident_of(a: Seq<u8>) -> Result<AttributeFormView, MftErrorView> {
    let vl = le32(a, 0x10);
    let vo = le16(a, 0x14);
    if a.len() < 24 {
        Err(MftErrorView::InvalidAttributeLength { offset: 0, length: a.len() as u32 })
    } else if vo + vl > a.len() {
        Err(MftErrorView::InvalidResidentValueBounds)
    } else {
        Ok(AttributeFormView::Resident { value: a.subrange(vo, vo + vl), resident_flags: a[0x16] })
    }
}

/// The non-resident description of attribute `a`.
pub open spec fn non_resident_of(a: Seq<u8>) -> Result<AttributeFormView, MftErrorView> {
    let mpo = le16(a, 0x20);
    if a.len() < 64 {
        Err(MftErrorView::InvalidAttributeLength { offset: 0, length: a.len() as u32 })
    } else if mpo > a.len() {
        Err(MftErrorView::InvalidMappingPairsOffset(mpo as u16))
    } else {
        let mapping = a.subrange(mpo, a.len() as int);
        match data_runs_from(mapping, 0, 0) {
            Err(e) => Err(e),
            Ok(runs) => Ok(
                AttributeFormView::NonResident(
                    NonResidentView {
                        lowest_vcn: le64(a, 0x10) as u64,
                        highest_vcn: le64(a, 0x18) as u64,
                        compression_unit_size: le16(a, 0x22) as u16,
                        allocated_size: le64(a, 0x28) as u64,
                        data_size: le64(a, 0x30) as u64,
                        initialized_size: le64(a, 0x38) as u64,
                        compressed_size: if a.len() >= 72 {
                            Some(le64(a, 0x40) as u64)
                        } else {
                            None
                        },
                        mapping_pairs: mapping,
                        data_runs: runs,
                    },
                ),
            ),
        }
    }
}

fn parse_attribute_name(attribute_bytes: &[u8], name_offset: usize, name_length: usize) -> (r: Result<Option<String>, MftParseError>)
    requires
        name_length <= 255,
    ensures
        match (r, attribute_name_of(attribute_bytes@, name_offset as int, name_length as int)) {
            (Ok(Some(s)), Ok(Some(n))) => s@ == n,
            (Ok(None), Ok(None)) => true,
            (Err(e), Err(f)) => e@ == f,
            _ => false,
        },
{
    if name_length == 0 {
        return Ok(None);
    }
    let nbl = name_length * 2;
    if name_offset > attribute_bytes.len() || nbl > attribute_bytes.len() - name_offset {
        return Err(MftParseError::InvalidNameBounds);
    }
    let alen = attribute_bytes.len();
    let mut units: Vec<u16> = Vec::new();
    let mut i: usize = 0;
    while i < name_length
        invariant
            alen == attribute_bytes@.len(),
            i <= name_length <= 255,
            name_offset + 2 * name_length <= attribute_bytes@.len(),
            units@ =~= utf16_units(attribute_bytes@, name_offset as int, i as int),
        decreases name_length - i,
    {
        units.push(read_u16_le(attribute_bytes, name_offset + 2 * i));
        i = i + 1;
    }
    match utf16_string(units.as_slice()) {
        Some(s) => Ok(Some(s)),
        None => Err(MftParseError::InvalidUtf16Name),
    }
}

fn copy_bytes(b: &[u8], start: usize, end: usize) -> (r: Vec<u8>)
    requires
        start <= end <= b@.len(),
    ensures
        r@ == b@.subrange(start as int, end as int),
{
    let mut r: Vec<u8> = Vec::new();
    let mut k = start;
    while k < end
        invariant
            start <= k <= end <= b@.len(),
            r@ =~= b@.subrange(start as int, k as int),
        decreases end - k,
    {
        r.push(b[k]);
        k = k + 1;
    }
    r
}

fn parse_resident_attribute(attribute_bytes: &[u8]) -> (r: Result<AttributeForm, MftParseError>)
    ensures
        result_matches(r, resident_of(attribute_bytes@)),
{
    let len = attribute_bytes.len();
    if len < 24 {
        return Err(MftParseError::InvalidAttributeLength { offset: 0, length: len as u32 });
    }
    let value_length = read_u32_le(attribute_bytes, 0x10) as usize;
    let value_offset = read_u16_le(attribute_bytes, 0x14) as usize;
    let resident_flags = attribute_bytes[0x16];
    if value_offset > len || value_length > len - value_offset {
        return Err(MftParseError::InvalidResidentValueBounds);
    }
    let value = copy_bytes(attribute_bytes, value_offset, value_offset + value_length);
    Ok(AttributeForm::Resident(ResidentAttribute { value, resident_flags }))
}

fn parse_non_resident_attribute(attribute_bytes: &[u8]) -> (r: Result<AttributeForm, MftParseError>)
    ensures
        result_matches(r, non_resident_of(attribute_bytes@)),
{
    let len = attribute_bytes.len();
    if len < 64 {
        return Err(MftParseError::InvalidAttributeLength { offset: 0, length: len as u32 });
    }
    let lowest_vcn = read_u64_le(attribute_bytes, 0x10);
    let highest_vcn = read_u64_le(attribute_bytes, 0x18);
    let mapping_pairs_offset = read_u16_le(attribute_bytes, 0x20) as usize;
    let compression_unit_size = read_u16_le(attribute_bytes, 0x22);
    let allocated_size = read_u64_le(attribute_bytes, 0x28);
    let data_size = read_u64_le(attribute_bytes, 0x30);
    let initialized_size = read_u64_le(attribute_bytes, 0x38);
    let compressed_size = if len >= 72 {
        Some(read_u64_le(attribute_bytes, 0x40))
    } else {
        None
    };
    if mapping_pairs_offset > len {
        return Err(MftParseError::InvalidMappingPairsOffset(mapping_pairs_offset as u16));
    }
    let mapping_pairs = copy_bytes(attribute_bytes, mapping_pairs_offset, len);
    let data_runs = parse_data_runs(mapping_pairs.as_slice())?;
    Ok(AttributeForm::NonResident(NonResidentAttribute {
        lowest_vcn,
        highest_vcn,
        compression_unit_size,
        allocated_size,
        data_size,
        initialized_size,
        compressed_size,
        mapping_pairs,
        data_runs,
    }))
}

/// The attribute at `cursor` of fixed-up record `f`, whose attribute area ends at `limit`.
#[verifier::opaque]
pub open spec fn attribute_at(f: Seq<u8>, cursor: int, limit: int) -> Result<AttributeView, MftErrorView> {
    let len = le32(f, cursor + 4);
    let end = cursor + len;
    if cursor + 16 > limit {
        Err(MftErrorView::AttributeOutOfBounds { offset: cursor as usize, length: 16, limit: limit as usize })
    } else if len < 16 {
        Err(MftErrorView::InvalidAttributeLength { offset: cursor as usize, length: len as u32 })
    } else if end > limit {
        Err(MftErrorView::AttributeOutOfBounds { offset: cursor as usize, length: len as usize, limit: limit as usize })
    } else {
        let a = f.subrange(cursor, end);
        let flag = f[cursor + 8];
        match attribute_name_of(a, le16(f, cursor + 10), f[cursor + 9] as int) {
            Err(e) => Err(e),
            Ok(name) => {
                let form = if flag == 0 {
                    resident_of(a)
                } else if flag == 1 {
                    non_resident_of(a)
                } else {
                    Err(MftErrorView::InvalidNonResidentFlag(flag))
                };
                match form {
                    Err(e) => Err(e),
                    Ok(form) => Ok(
                        AttributeView {
                            attribute_type: le32(f, cursor) as u32,
                            name,
                            flags: le16(f, cursor + 12) as u16,
                            attribute_id: le16(f, cursor + 14) as u16,
                            form,
                        },
                    ),
                }
            },
        }
    }
}

/// The attributes of fixed-up record `f` from `cursor` on, up to the end
/// marker or the `limit` (bytes in use).
pub open spec fn attributes_from(f: Seq<u8>, cursor: int, limit: int) -> Result<Seq<AttributeView>, MftErrorView>
    decreases limit - cursor,
{
    if cursor < 0 || cursor + 4 > limit || limit > f.len() {
        Ok(Seq::empty())
    } else if le32(f, cursor) == 0xFFFF_FFFF {
        Ok(Seq::empty())
    } else {
        match attribute_at(f, cursor, limit) {
            Err(e) => Err(e),
            Ok(a) => {
                let end = cursor + le32(f, cursor + 4);
                if end <= cursor || end > limit {
                    Ok(Seq::empty())
                } else {
                    match attributes_from(f, end, limit) {
                        Err(e) => Err(e),
                        Ok(rest) => Ok(seq![a] + rest),
                    }
                }
            },
        }
    }
}

fn parse_attribute_at(f: &[u8], cursor: usize, limit: usize) -> (r: Result<AttributeRecord, MftParseError>)
    requires
        limit <= f@.len(),
        cursor + 4 <= limit,
    ensures
        result_matches(r, attribute_at(f@, cursor as int, limit as int)),
        r is Ok ==> 16 <= le32(f@, cursor + 4) <= limit - cursor,
{
    reveal(attribute_at);
    if limit - cursor < 16 {
        return Err(MftParseError::AttributeOutOfBounds { offset: cursor, length: 16, limit });
    }
    let attribute_type = read_u32_le(f, cursor);
    let attribute_length_u32 = read_u32_le(f, cursor + 4);
    let attribute_length = attribute_length_u32 as usize;
    if attribute_length < 16 {
        return Err(MftParseError::InvalidAttributeLength { offset: cursor, length: attribute_length_u32 });
    }
    if attribute_length > limit - cursor {
        return Err(MftParseError::AttributeOutOfBounds { offset: cursor, length: attribute_length, limit });
    }
    let attribute_end = cursor + attribute_length;
    let non_resident_flag = f[cursor + 8];
    let name_length = f[cursor + 9] as usize;
    let name_offset = read_u16_le(f, cursor + 10) as usize;
    let flags = read_u16_le(f, cursor + 12);
    let attribute_id = read_u16_le(f, cursor + 14);
    let attribute_bytes = &f[cursor..attribute_end];
    let name = parse_attribute_name(attribute_bytes, name_offset, name_length)?;
    let form = if non_resident_flag == 0 {
        parse_resident_attribute(attribute_bytes)?
    } else if non_resident_flag == 1 {
        parse_non_resident_attribute(attribute_bytes)?
    } else {
        return Err(MftParseError::InvalidNonResidentFlag(non_resident_flag));
    };
    Ok(AttributeRecord { attribute_type, name, flags, attribute_id, form })
}

// ---------------------------------------------------------------------------
// Records
// ---------------------------------------------------------------------------

/// Applies the update-sequence fixups for sectors `sector..uc` to `fixed`.
pub open spec fn fixup_from(
    r: Seq<u8>,
    fixed: Seq<u8>,
    bps: int,
    uo: int,
    uc: int,
    seqn: int,
    sector: int,
) -> Result<Seq<u8>, MftErrorView>
    decreases uc - sector,
{
    if sector < 1 || sector >= uc {
        Ok(fixed)
    } else {
        let end = sector * bps;
        if end < 2 || end > fixed.len() {
            Err(MftErrorView::InvalidUpdateSequenceArray { offset: uo as u16, count: uc as u16 })
        } else {
            let fo = end - 2;
            let current = le16(fixed, fo);
            if current != seqn {
                Err(MftErrorView::FixupMismatch {
                    sector_index: (sector - 1) as usize,
                    expected: seqn as u16,
                    actual: current as u16,
                })
            } else {
                fixup_from(
                    r,
                    fixed.update(fo, r[uo + 2 * sector]).update(fo + 1, r[uo + 2 * sector + 1]),
                    bps,
                    uo,
                    uc,
                    seqn,
                    sector + 1,
                )
            }
        }
    }
}

/// The record `r` with each sector's last two bytes restored from the update
/// sequence array, after checking them against the sequence number.
pub open spec fn fixed_record(r: Seq<u8>, bps: int) -> Result<Seq<u8>, MftErrorView> {
    let uo = le16(r, 4);
    let uc = le16(r, 6);
    if uc == 0 {
        Err(MftErrorView::InvalidUpdateSequenceArray { offset: uo as u16, count: 0 })
    } else if uo + 2 * uc > r.len() {
        Err(MftErrorView::InvalidUpdateSequenceArray { offset: uo as u16, count: uc as u16 })
    } else {
        fixup_from(r, r, bps, uo, uc, le16(r, uo), 1)
    }
}

proof fn lemma_fixup_len(r: Seq<u8>, fixed: Seq<u8>, bps: int, uo: int, uc: int, seqn: int, sector: int)
    ensures
        fixup_from(r, fixed, bps, uo, uc, seqn, sector) matches Ok(f) ==> f.len() == fixed.len(),
    decreases uc - sector,
{
    if sector >= 1 && sector < uc {
        let end = sector * bps;
        if end >= 2 && end <= fixed.len() {
            let fo = end - 2;
            lemma_fixup_len(
                r,
                fixed.update(fo, r[uo + 2 * sector]).update(fo + 1, r[uo + 2 * sector + 1]),
                bps,
                uo,
                uc,
                seqn,
                sector + 1,
            );
        }
    }
}

fn apply_update_sequence_fixup(record_bytes: &[u8], bytes_per_sector: usize) -> (r: Result<Vec<u8>, MftParseError>)
    requires
        record_bytes@.len() >= 48,
        bytes_per_sector >= 2,
    ensures
        match (r, fixed_record(record_bytes@, bytes_per_sector as int)) {
            (Ok(v), Ok(f)) => v@ == f,
            (Err(e), Err(f)) => e@ == f,
            _ => false,
        },
{
    let len = record_bytes.len();
    let usa_offset = read_u16_le(record_bytes, 0x04) as usize;
    let usa_count = read_u16_le(record_bytes, 0x06) as usize;
    if usa_count == 0 {
        return Err(MftParseError::InvalidUpdateSequenceArray { offset: usa_offset as u16, count: 0 });
    }
    if usa_offset + 2 * usa_count > len {
        return Err(MftParseError::InvalidUpdateSequenceArray { offset: usa_offset as u16, count: usa_count as u16 });
    }
    let sequence_number = read_u16_le(record_bytes, usa_offset);
    let mut fixed = copy_bytes(record_bytes, 0, len);
    assert(fixed@ =~= record_bytes@);
    let mut sector: usize = 1;
    while sector < usa_count
        invariant
            len == record_bytes@.len(),
            fixed@.len() == len,
            1 <= sector <= usa_count,
            usa_offset + 2 * usa_count <= len,
            bytes_per_sector >= 2,
            fixed_record(record_bytes@, bytes_per_sector as int) == fixup_from(
                record_bytes@,
                fixed@,
                bytes_per_sector as int,
                usa_offset as int,
                usa_count as int,
                sequence_number as int,
                sector as int,
            ),
        decreases usa_count - sector,
    {
        let end_of_sector = match sector.checked_mul(bytes_per_sector) {
            Some(v) => v,
            None => {
                return Err(MftParseError::InvalidUpdateSequenceArray { offset: usa_offset as u16, count: usa_count as u16 });
            },
        };
        if end_of_sector < 2 || end_of_sector > len {
            return Err(MftParseError::InvalidUpdateSequenceArray { offset: usa_offset as u16, count: usa_count as u16 });
        }
        let fixup_offset = end_of_sector - 2;
        let current_value = read_u16_le(fixed.as_slice(), fixup_offset);
        assert(end_of_sector == sector * bytes_per_sector);
        if current_value != sequence_number {
            return Err(MftParseError::FixupMismatch {
                sector_index: sector - 1,
                expected: sequence_number,
                actual: current_value,
            });
        }
        let lo = record_bytes[usa_offset + 2 * sector];
        let hi = record_bytes[usa_offset + 2 * sector + 1];
        let ghost next = fixed@.update(fixup_offset as int, lo).update(fixup_offset + 1, hi);
        assert(fixup_from(record_bytes@, fixed@, bytes_per_sector as int, usa_offset as int, usa_count as int, sequence_number as int, sector as int)
            == fixup_from(record_bytes@, next, bytes_per_sector as int, usa_offset as int, usa_count as int, sequence_number as int, sector + 1));
        fixed.set(fixup_offset, lo);
        fixed.set(fixup_offset + 1, hi);
        assert(fixed@ == next);
        sector = sector + 1;
    }
    Ok(fixed)
}

/// The header fields of fixed-up record `f`.
pub open spec fn header_of(f: Seq<u8>) -> MftRecordHeader {
    MftRecordHeader {
        usa_offset: le16(f, 0x04) as u16,
        usa_count: le16(f, 0x06) as u16,
        sequence_number: le16(f, 0x10) as u16,
        hard_link_count: le16(f, 0x12) as u16,
        first_attribute_offset: le16(f, 0x14) as u16,
        flags: le16(f, 0x16) as u16,
        bytes_in_use: le32(f, 0x18) as u32,
        bytes_allocated: le32(f, 0x1C) as u32,
        base_record_reference: le64(f, 0x20) as u64,
        next_attribute_id: le16(f, 0x28) as u16,
        record_number: le32(f, 0x2C) as u32,
    }
}

/// `"FILE"`.
pub open spec fn file_signature() -> Seq<u8> {
    seq![0x46u8, 0x49, 0x4C, 0x45]
}

/// The record parsed from `b` with sectors of `bps` bytes.
pub open spec fn mft_record_of(b: Seq<u8>, bps: int) -> Result<MftRecordView, MftErrorView> {
    if b.len() < 48 {
        Err(MftErrorView::BufferTooSmall { expected: 48, actual: b.len() as usize })
    } else if bps < 2 {
        Err(MftErrorView::InvalidSectorSize(bps as usize))
    } else {
        match fixed_record(b, bps) {
            Err(e) => Err(e),
            Ok(f) => {
                let biu = le32(f, 0x18);
                let fa = le16(f, 0x14);
                if f.subrange(0, 4) != file_signature() {
                    Err(MftErrorView::InvalidSignature(f.subrange(0, 4)))
                } else if biu == 0 || biu > f.len() {
                    Err(MftErrorView::InvalidBytesInUse(biu as u32))
                } else if fa >= biu {
                    Err(MftErrorView::InvalidFirstAttributeOffset(fa as u16))
                } else {
                    match attributes_from(f, fa, biu) {
                        Err(e) => Err(e),
                        Ok(attributes) => Ok(MftRecordView { header: header_of(f), attributes }),
                    }
                }
            },
        }
    }
}

proof fn lemma_attributes_from_len(f: Seq<u8>, cursor: int, limit: int)
    ensures
        attributes_from(f, cursor, limit) matches Ok(s) ==> (s.len() > 0 ==> s.len() <= limit - cursor),
    decreases limit - cursor,
{
    if !(cursor < 0 || cursor + 4 > limit || limit > f.len()) && le32(f, cursor) != 0xFFFF_FFFF {
        let end = cursor + le32(f, cursor + 4);
        if !(end <= cursor || end > limit) {
            lemma_attributes_from_len(f, end, limit);
        }
    }
}

/// A parsed record has no more attributes than it has bytes.
pub proof fn lemma_record_attribute_count(b: Seq<u8>, bps: int)
    ensures
        mft_record_of(b, bps) matches Ok(r) ==> r.attributes.len() <= b.len(),
{
    if b.len() >= 48 && bps >= 2 {
        lemma_fixup_len(b, b, bps, le16(b, 4), le16(b, 6), le16(b, le16(b, 4)), 1);
        if let Ok(f) = fixed_record(b, bps) {
            lemma_attributes_from_len(f, le16(f, 0x14), le32(f, 0x18));
        }
    }
}

fn parse_attributes(f: &[u8], first_attribute_offset: usize, bytes_in_use: usize) -> (r: Result<Vec<AttributeRecord>, MftParseError>)
    requires
        bytes_in_use <= f@.len(),
        first_attribute_offset < bytes_in_use,
    ensures
        match (r, attributes_from(f@, first_attribute_offset as int, bytes_in_use as int)) {
            (Ok(v), Ok(s)) => attribute_views(v@) == s,
            (Err(e), Err(g)) => e@ == g,
            _ => false,
        },
{
    let limit = bytes_in_use;
    let mut cursor = first_attribute_offset;
    let mut attributes: Vec<AttributeRecord> = Vec::new();
    while cursor <= limit && limit - cursor >= 4
        invariant
            limit == bytes_in_use,
            limit <= f@.len(),
            cursor <= limit,
            match attributes_from(f@, first_attribute_offset as int, limit as int) {
                Ok(s) => match attributes_from(f@, cursor as int, limit as int) {
                    Ok(t) => s == attribute_views(attributes@) + t,
                    Err(_) => false,
                },
                Err(e) => attributes_from(f@, cursor as int, limit as int) == Err::<Seq<AttributeView>, MftErrorView>(e),
            },
        ensures
            attributes_from(f@, cursor as int, limit as int) == Ok::<Seq<AttributeView>, MftErrorView>(Seq::empty()),
        decreases limit - cursor,
    {
        let attribute_type = read_u32_le(f, cursor);
        if attribute_type == ATTRIBUTE_TYPE_END {
            break;
        }
        let attribute = match parse_attribute_at(f, cursor, limit) {
            Ok(a) => a,
            Err(e) => {
                assert(attributes_from(f@, cursor as int, limit as int) == Err::<Seq<AttributeView>, MftErrorView>(e@));
                return Err(e);
            },
        };
        let attribute_end = cursor + read_u32_le(f, cursor + 4) as usize;
        let ghost before = attributes@;
        attributes.push(attribute);
        proof {
            let last = attributes@.last()@;
            assert(attribute_views(attributes@) =~= attribute_views(before).push(last));
            assert forall|t: Seq<AttributeView>| #![auto] attribute_views(before) + (seq![last] + t) == attribute_views(attributes@) + t by {
                assert(attribute_views(before) + (seq![last] + t) =~= attribute_views(attributes@) + t);
            }
        }
        cursor = attribute_end;
    }
    proof {
        assert(attribute_views(attributes@) + Seq::<AttributeView>::empty() =~= attribute_views(attributes@));
    }
    Ok(attributes)
}

/// Parses an MFT file record of `record_bytes` whose sectors are
/// `bytes_per_sector` bytes long.
pub fn parse_mft_record(record_bytes: &[u8], bytes_per_sector: usize) -> (r: Result<MftRecord, MftParseError>)
    ensures
        result_matches(r, mft_record_of(record_bytes@, bytes_per_sector as int)),
{
    if record_bytes.len() < 48 {
        return Err(MftParseError::BufferTooSmall { expected: 48, actual: record_bytes.len() });
    }
    if bytes_per_sector < 2 {
        return Err(MftParseError::InvalidSectorSize(bytes_per_sector));
    }
    let fixed = apply_update_sequence_fixup(record_bytes, bytes_per_sector)?;
    proof {
        let uo = le16(record_bytes@, 4);
        let uc = le16(record_bytes@, 6);
        lemma_fixup_len(record_bytes@, record_bytes@, bytes_per_sector as int, uo, uc, le16(record_bytes@, uo), 1);
    }
    let f = fixed.as_slice();
    let signature: [u8; 4] = [f[0], f[1], f[2], f[3]];
    assert(signature@ =~= f@.subrange(0, 4));
    if !(signature[0] == 0x46 && signature[1] == 0x49 && signature[2] == 0x4C && signature[3] == 0x45) {
        return Err(MftParseError::InvalidSignature(signature));
    }
    assert(f@.subrange(0, 4) =~= file_signature());
    let bytes_in_use = read_u32_le(f, 0x18);
    if bytes_in_use == 0 || bytes_in_use as usize > f.len() {
        return Err(MftParseError::InvalidBytesInUse(bytes_in_use));
    }
    let first_attribute_offset = read_u16_le(f, 0x14);
    if first_attribute_offset as u32 >= bytes_in_use {
        return Err(MftParseError::InvalidFirstAttributeOffset(first_attribute_offset));
    }
    let header = MftRecordHeader {
        usa_offset: read_u16_le(f, 0x04),
        usa_count: read_u16_le(f, 0x06),
        sequence_number: read_u16_le(f, 0x10),
        hard_link_count: read_u16_le(f, 0x12),
        first_attribute_offset,
        flags: read_u16_le(f, 0x16),
        bytes_in_use,
        bytes_allocated: read_u32_le(f, 0x1C),
        base_record_reference: read_u64_le(f, 0x20),
        next_attribute_id: read_u16_le(f, 0x28),
        record_number: read_u32_le(f, 0x2C),
    };
    let attributes = parse_attributes(f, first_attribute_offset as usize, bytes_in_use as usize)?;
    Ok(MftRecord { header, attributes })
}

} // verus!
