//! Recovering a file whose metadata record points at its payload (ReFS,
//! APFS, HFS+, XFS and UFS candidates): finding the record's payload
//! descriptor in the scanned volume prefix, and copying the payload range.
use vstd::prelude::*;
use crate::apfs::APFS_TOMBSTONE_MARKER;
use crate::bytes::{bytes_match_at, le32, le64, read_u32_le, read_u64_le};
use crate::hfs::HFS_TOMBSTONE_MARKER;
use crate::recovery::{lemma_written_concat, lemma_written_push, write_len, written, DataWrite};
use crate::ufs::UFS_TOMBSTONE_MARKER;

verus! {

/// The candidate's layout is not one this recovery understands.
pub const RECOVERY_STATUS_UNSUPPORTED_LAYOUT: i32 = 170;
/// The candidate is encrypted or locked.
pub const RECOVERY_STATUS_ENCRYPTED_LOCKED: i32 = 171;
/// The payload range cannot be read at all.
pub const RECOVERY_STATUS_UNREADABLE_RANGE: i32 = 172;
/// Flag bit of an encrypted or locked candidate.
pub const METADATA_ENCRYPTED_FLAG: u8 = 0x02;
/// Marker of a ReFS payload descriptor ("REFSPAY\0").
pub const REFS_PAYLOAD_MARKER: [u8; 8] = [0x52, 0x45, 0x46, 0x53, 0x50, 0x41, 0x59, 0x00];
/// Marker of an XFS deletion tombstone ("XFSDEL\0\0").
pub const XFS_TOMBSTONE_MARKER: [u8; 8] = [0x58, 0x46, 0x53, 0x44, 0x45, 0x4C, 0x00, 0x00];
/// Size of a ReFS payload descriptor.
pub const REFS_PAYLOAD_DESCRIPTOR_SIZE: usize = 40;
/// Size of the payload descriptor that follows a tombstone record.
pub const PAYLOAD_DESCRIPTOR_SIZE: usize = 16;
/// Bytes copied per read.
pub const PAYLOAD_COPY_CHUNK: u64 = 1048576;

/// The filesystem whose candidate is recovered.
#[derive(Debug, Clone, Copy, PartialEq, Eq, Structural)]
pub enum MetadataRecoveryKind {
    Refs,
    Apfs,
    Hfs,
    Xfs,
    Ufs,
}

/// Where a candidate's payload lies on the volume.
#[derive(Debug, Clone, Copy, PartialEq, Eq, Structural)]
pub struct MetadataPayloadDescriptor {
    pub offset_bytes: u64,
    pub length_bytes: u64,
}

/// The marker that opens a record of `kind`.
pub open spec fn kind_marker(kind: MetadataRecoveryKind) -> Seq<u8> {
    match kind {
        MetadataRecoveryKind::Refs => REFS_PAYLOAD_MARKER@,
        MetadataRecoveryKind::Apfs => APFS_TOMBSTONE_MARKER@,
        MetadataRecoveryKind::Hfs => HFS_TOMBSTONE_MARKER@,
        MetadataRecoveryKind::Xfs => XFS_TOMBSTONE_MARKER@,
        MetadataRecoveryKind::Ufs => UFS_TOMBSTONE_MARKER@,
    }
}

/// Whether records of `kind` carry a 64-bit id (else a 32-bit one).
pub open spec fn kind_wide(kind: MetadataRecoveryKind) -> bool {
    !(kind is Hfs || kind is Ufs)
}

/// Size of a record of `kind`.
pub open spec fn kind_record_size(kind: MetadataRecoveryKind) -> nat {
    match kind {
        MetadataRecoveryKind::Refs => 40,
        MetadataRecoveryKind::Apfs | MetadataRecoveryKind::Xfs => 316,
        MetadataRecoveryKind::Hfs | MetadataRecoveryKind::Ufs => 312,
    }
}

/// Offset of the flags byte in a record of `kind`.
pub open spec fn kind_flags_offset(kind: MetadataRecoveryKind) -> int {
    match kind {
        MetadataRecoveryKind::Refs => 32,
        MetadataRecoveryKind::Apfs | MetadataRecoveryKind::Xfs => 24,
        MetadataRecoveryKind::Hfs | MetadataRecoveryKind::Ufs => 20,
    }
}

/// The id of the record of `kind` at `off`.
pub open spec fn record_id(img: Seq<u8>, off: int, kind: MetadataRecoveryKind) -> u64 {
    if kind_wide(kind) {
        le64(img, off + 8) as u64
    } else {
        le32(img, off + 8) as u64
    }
}

/// The id that records of `kind` are matched against: the candidate id,
/// cut to its low 32 bits where the records hold 32-bit ids.
pub open spec fn lookup_key(kind: MetadataRecoveryKind, id: u64) -> u64 {
    if kind_wide(kind) {
        id
    } else {
        (id % 0x1_0000_0000) as u64
    }
}

/// A payload of `pl` bytes at `po`: `Err(170)` when it is empty or its end
/// passes 64 bits.
pub open spec fn payload_bounds(po: int, pl: int) -> Result<MetadataPayloadDescriptor, i32> {
    if pl == 0 || po + pl > u64::MAX {
        Err(RECOVERY_STATUS_UNSUPPORTED_LAYOUT)
    } else {
        Ok(MetadataPayloadDescriptor { offset_bytes: po as u64, length_bytes: pl as u64 })
    }
}

/// The payload named by the matching record of `kind` at `off`: `Err(171)`
/// when the record is flagged encrypted; a ReFS descriptor holds offset and
/// length itself, a tombstone is followed by a 16-byte descriptor
/// (`Err(170)` when that passes the prefix).
pub open spec fn descriptor_at(img: Seq<u8>, off: int, kind: MetadataRecoveryKind) -> Result<MetadataPayloadDescriptor, i32> {
    if img[off + kind_flags_offset(kind)] & METADATA_ENCRYPTED_FLAG != 0 {
        Err(RECOVERY_STATUS_ENCRYPTED_LOCKED)
    } else if kind is Refs {
        payload_bounds(le64(img, off + 16), le64(img, off + 24))
    } else {
        let d = off + kind_record_size(kind);
        if d + 16 > img.len() {
            Err(RECOVERY_STATUS_UNSUPPORTED_LAYOUT)
        } else {
            payload_bounds(le64(img, d), le64(img, d + 8))
        }
    }
}

/// Looks for the record of `kind` with id `key` from `off` on: a record is
/// a marker with a whole record behind it; a record of another id is
/// skipped whole, any other byte one at a time; `Err(170)` when none is
/// left.
pub open spec fn descriptor_scan(img: Seq<u8>, kind: MetadataRecoveryKind, key: u64, off: nat) -> Result<
    MetadataPayloadDescriptor,
    i32,
>
    decreases img.len() - off,
{
    let r = kind_record_size(kind);
    if off + r > img.len() {
        Err(RECOVERY_STATUS_UNSUPPORTED_LAYOUT)
    } else if img.subrange(off as int, off + 8int) == kind_marker(kind) {
        if record_id(img, off as int, kind) == key {
            descriptor_at(img, off as int, kind)
        } else {
            descriptor_scan(img, kind, key, off + r)
        }
    } else {
        descriptor_scan(img, kind, key, off + 1)
    }
}

/// The payload of candidate `id` of `kind` in the scanned prefix `img`:
/// `Err(170)` for id 0 (or an id whose low 32 bits are 0 where records hold
/// 32-bit ids), `Err(31)` for an empty prefix, else the scan's answer.
pub open spec fn payload_descriptor_of(kind: MetadataRecoveryKind, img: Seq<u8>, id: u64) -> Result<
    MetadataPayloadDescriptor,
    i32,
> {
    if id == 0 {
        Err(RECOVERY_STATUS_UNSUPPORTED_LAYOUT)
    } else if img.len() == 0 {
        Err(31)
    } else if lookup_key(kind, id) == 0 {
        Err(RECOVERY_STATUS_UNSUPPORTED_LAYOUT)
    } else {
        descriptor_scan(img, kind, lookup_key(kind, id), 0)
    }
}

fn kind_marker_bytes(kind: MetadataRecoveryKind) -> (m: [u8; 8])
    ensures
        m@ == kind_marker(kind),
{
    match kind {
        MetadataRecoveryKind::Refs => REFS_PAYLOAD_MARKER,
        MetadataRecoveryKind::Apfs => APFS_TOMBSTONE_MARKER,
        MetadataRecoveryKind::Hfs => HFS_TOMBSTONE_MARKER,
        MetadataRecoveryKind::Xfs => XFS_TOMBSTONE_MARKER,
        MetadataRecoveryKind::Ufs => UFS_TOMBSTONE_MARKER,
    }
}

fn kind_record_size_bytes(kind: MetadataRecoveryKind) -> (n: usize)
    ensures
        n == kind_record_size(kind),
{
    match kind {
        MetadataRecoveryKind::Refs => REFS_PAYLOAD_DESCRIPTOR_SIZE,
        MetadataRecoveryKind::Apfs | MetadataRecoveryKind::Xfs => 316,
        MetadataRecoveryKind::Hfs | MetadataRecoveryKind::Ufs => 312,
    }
}

fn kind_flags_offset_bytes(kind: MetadataRecoveryKind) -> (n: usize)
    ensures
        n == kind_flags_offset(kind),
{
    match kind {
        MetadataRecoveryKind::Refs => 32,
        MetadataRecoveryKind::Apfs | MetadataRecoveryKind::Xfs => 24,
        MetadataRecoveryKind::Hfs | MetadataRecoveryKind::Ufs => 20,
    }
}

/// Checks a payload's offset and length (see `payload_bounds`).
fn checked_payload(payload_offset: u64, payload_length: u64) -> (r: Result<MetadataPayloadDescriptor, i32>)
    ensures
        r == payload_bounds(payload_offset as int, payload_length as int),
{
    if payload_length == 0 || payload_offset.checked_add(payload_length).is_none() {
        return Err(RECOVERY_STATUS_UNSUPPORTED_LAYOUT);
    }
    Ok(MetadataPayloadDescriptor { offset_bytes: payload_offset, length_bytes: payload_length })
}

/// The 16-byte payload descriptor that follows the tombstone record at
/// `record_offset`; `Err(170)` when it passes the end of `image` or names
/// no usable payload.
pub fn parse_payload_descriptor_after_record(image: &[u8], record_offset: usize, record_size: usize) -> (r: Result<
    MetadataPayloadDescriptor,
    i32,
>)
    ensures
        r == (if record_offset + record_size + 16 > image@.len() {
            Err(RECOVERY_STATUS_UNSUPPORTED_LAYOUT)
        } else {
            payload_bounds(
                le64(image@, record_offset + record_size),
                le64(image@, record_offset + record_size + 8),
            )
        }),
{
    let _len = image.len();
    let descriptor_offset = match record_offset.checked_add(record_size) {
        Some(v) => v,
        None => return Err(RECOVERY_STATUS_UNSUPPORTED_LAYOUT),
    };
    let descriptor_end = match descriptor_offset.checked_add(PAYLOAD_DESCRIPTOR_SIZE) {
        Some(v) => v,
        None => return Err(RECOVERY_STATUS_UNSUPPORTED_LAYOUT),
    };
    if descriptor_end > image.len() {
        return Err(RECOVERY_STATUS_UNSUPPORTED_LAYOUT);
    }
    let payload_offset = read_u64_le(image, descriptor_offset);
    let payload_length = read_u64_le(image, descriptor_offset + 8);
    checked_payload(payload_offset, payload_length)
}

/// The payload named by the matching record at `offset` (see
/// `descriptor_at`).
fn payload_descriptor_at(image: &[u8], offset: usize, kind: MetadataRecoveryKind) -> (r: Result<
    MetadataPayloadDescriptor,
    i32,
>)
    requires
        offset + kind_record_size(kind) <= image@.len(),
    ensures
        r == descriptor_at(image@, offset as int, kind),
{
    let _len = image.len();
    let flags_offset = kind_flags_offset_bytes(kind);
    assert(flags_offset < kind_record_size(kind));
    let flags = image[offset + flags_offset];
    if flags & METADATA_ENCRYPTED_FLAG != 0 {
        return Err(RECOVERY_STATUS_ENCRYPTED_LOCKED);
    }
    match kind {
        MetadataRecoveryKind::Refs => {
            let payload_offset = read_u64_le(image, offset + 16);
            let payload_length = read_u64_le(image, offset + 24);
            checked_payload(payload_offset, payload_length)
        },
        _ => parse_payload_descriptor_after_record(image, offset, kind_record_size_bytes(kind)),
    }
}

/// Looks for the record of `kind` with id `key` (see `descriptor_scan`).
fn scan_payload_descriptor(image: &[u8], kind: MetadataRecoveryKind, key: u64) -> (r: Result<
    MetadataPayloadDescriptor,
    i32,
>)
    ensures
        r == descriptor_scan(image@, kind, key, 0),
{
    let marker = kind_marker_bytes(kind);
    let record_size = kind_record_size_bytes(kind);
    let wide = match kind {
        MetadataRecoveryKind::Hfs | MetadataRecoveryKind::Ufs => false,
        _ => true,
    };
    let len = image.len();
    let mut offset: usize = 0;
    while len >= record_size && offset <= len - record_size
        invariant
            len == image@.len(),
            record_size == kind_record_size(kind),
            marker@ == kind_marker(kind),
            wide == kind_wide(kind),
            descriptor_scan(image@, kind, key, 0) == descriptor_scan(image@, kind, key, offset as nat),
        decreases len - offset,
    {
        if bytes_match_at(image, offset, &marker) {
            let id: u64 = if wide {
                read_u64_le(image, offset + 8)
            } else {
                read_u32_le(image, offset + 8) as u64
            };
            if id == key {
                return payload_descriptor_at(image, offset, kind);
            }
            offset = offset + record_size;
        } else {
            offset = offset + 1;
        }
    }
    Err(RECOVERY_STATUS_UNSUPPORTED_LAYOUT)
}

/// Finds the payload of candidate `candidate_id` of `kind` in the scanned
/// volume prefix `image` (see `payload_descriptor_of`).
pub fn find_payload_descriptor(kind: MetadataRecoveryKind, image: &[u8], candidate_id: u64) -> (r: Result<
    MetadataPayloadDescriptor,
    i32,
>)
    ensures
        r == payload_descriptor_of(kind, image@, candidate_id),
{
    if candidate_id == 0 {
        return Err(RECOVERY_STATUS_UNSUPPORTED_LAYOUT);
    }
    if image.len() == 0 {
        return Err(31);
    }
    let key: u64 = match kind {
        MetadataRecoveryKind::Hfs | MetadataRecoveryKind::Ufs => {
            let k = candidate_id as u32;
            assert(k == candidate_id % 0x1_0000_0000) by (bit_vector)
                requires
                    k == candidate_id as u32,
            ;
            k as u64
        },
        _ => candidate_id,
    };
    if key == 0 {
        return Err(RECOVERY_STATUS_UNSUPPORTED_LAYOUT);
    }
    scan_payload_descriptor(image, kind, key)
}

/// The smaller of two naturals.
pub open spec fn lesser(a: nat, b: nat) -> nat {
    if a < b {
        a
    } else {
        b
    }
}

/// Copying `len` payload bytes at `off` of a volume of `vlen` bytes, with
/// `copied` already done, one chunk of at most a MiB at a time: a chunk
/// whose start passes 64 bits gives `Err(170)`; a chunk past the volume
/// gives `Err(172)` when nothing was copied yet, else ends the copy as
/// partial. Gives the writes and whether they are partial.
pub open spec fn range_copy(vlen: nat, off: nat, len: nat, copied: nat) -> Result<(Seq<DataWrite>, bool), i32>
    decreases len - copied,
{
    if copied >= len {
        Ok((Seq::empty(), false))
    } else {
        let chunk = lesser((len - copied) as nat, PAYLOAD_COPY_CHUNK as nat);
        if off + copied > u64::MAX {
            Err(RECOVERY_STATUS_UNSUPPORTED_LAYOUT)
        } else if off + copied + chunk > vlen {
            if copied == 0 {
                Err(RECOVERY_STATUS_UNREADABLE_RANGE)
            } else {
                Ok((Seq::empty(), true))
            }
        } else {
            match range_copy(vlen, off, len, copied + chunk) {
                Err(e) => Err(e),
                Ok((w, p)) => Ok((seq![DataWrite::Image((off + copied) as u64, chunk as usize)] + w, p)),
            }
        }
    }
}

/// The writes that copy a payload range (see `range_copy`); `Err(170)` for
/// an empty range.
pub open spec fn payload_copy(vlen: nat, off: nat, len: nat) -> Result<(Seq<DataWrite>, bool), i32> {
    if len == 0 {
        Err(RECOVERY_STATUS_UNSUPPORTED_LAYOUT)
    } else {
        range_copy(vlen, off, len, 0)
    }
}

/// What a copy gives once `tail` has been written ahead of it.
pub open spec fn copy_after(tail: Seq<DataWrite>, r: Result<(Seq<DataWrite>, bool), i32>) -> Result<
    (Seq<DataWrite>, bool),
    i32,
> {
    match r {
        Err(e) => Err(e),
        Ok((w, p)) => Ok((tail + w, p)),
    }
}

/// The writes that copy `length_bytes` bytes at `offset_bytes` of a volume
/// of `volume_len` bytes (see `payload_copy`).
pub fn copy_range_writes(volume_len: u64, offset_bytes: u64, length_bytes: u64) -> (r: Result<
    (Vec<DataWrite>, bool),
    i32,
>)
    ensures
        match (r, payload_copy(volume_len as nat, offset_bytes as nat, length_bytes as nat)) {
            (Ok((ws, p)), Ok((sws, sp))) => ws@ == sws && p == sp,
            (Err(c), Err(sc)) => c == sc,
            _ => false,
        },
{
    if length_bytes == 0 {
        return Err(RECOVERY_STATUS_UNSUPPORTED_LAYOUT);
    }
    let ghost whole = range_copy(volume_len as nat, offset_bytes as nat, length_bytes as nat, 0);
    let mut out: Vec<DataWrite> = Vec::new();
    let mut copied: u64 = 0;
    assert(Seq::<DataWrite>::empty() + Seq::<DataWrite>::empty() =~= Seq::<DataWrite>::empty());
    while copied < length_bytes
        invariant
            copied <= length_bytes,
            whole == range_copy(volume_len as nat, offset_bytes as nat, length_bytes as nat, 0),
            whole == copy_after(out@, range_copy(volume_len as nat, offset_bytes as nat, length_bytes as nat, copied as nat)),
        decreases length_bytes - copied,
    {
        let left = length_bytes - copied;
        let chunk: u64 = if left < PAYLOAD_COPY_CHUNK {
            left
        } else {
            PAYLOAD_COPY_CHUNK
        };
        let current = match offset_bytes.checked_add(copied) {
            Some(v) => v,
            None => return Err(RECOVERY_STATUS_UNSUPPORTED_LAYOUT),
        };
        if current > volume_len || chunk > volume_len - current {
            if copied == 0 {
                return Err(RECOVERY_STATUS_UNREADABLE_RANGE);
            }
            assert(out@ + Seq::<DataWrite>::empty() =~= out@);
            return Ok((out, true));
        }
        let w = DataWrite::Image(current, chunk as usize);
        proof {
            match range_copy(volume_len as nat, offset_bytes as nat, length_bytes as nat, (copied + chunk) as nat) {
                Ok((lw, lp)) => {
                    assert(out@ + (seq![w] + lw) =~= out@.push(w) + lw);
                },
                Err(_) => {},
            }
        }
        out.push(w);
        copied = copied + chunk;
    }
    assert(out@ + Seq::<DataWrite>::empty() =~= out@);
    Ok((out, false))
}

proof fn lemma_range_copy_written(vlen: nat, off: nat, len: nat, copied: nat)
    requires
        copied <= len,
    ensures
        range_copy(vlen, off, len, copied) matches Ok((w, p)) ==> copied + written(w) <= len && (!p ==> copied
            + written(w) == len),
    decreases len - copied,
{
    assert(written(Seq::<DataWrite>::empty()) == 0);
    if copied < len {
        let chunk = lesser((len - copied) as nat, PAYLOAD_COPY_CHUNK as nat);
        if off + copied <= u64::MAX && off + copied + chunk <= vlen {
            lemma_range_copy_written(vlen, off, len, copied + chunk);
            match range_copy(vlen, off, len, copied + chunk) {
                Err(_) => {},
                Ok((w, _)) => {
                    let x = DataWrite::Image((off + copied) as u64, chunk as usize);
                    assert(chunk as usize == chunk);
                    assert(seq![x] =~= Seq::<DataWrite>::empty().push(x));
                    lemma_written_push(Seq::<DataWrite>::empty(), x);
                    lemma_written_concat(seq![x], w);
                },
            }
        }
    }
}

/// A payload copy never yields more bytes than the descriptor's length,
/// and a copy that is not partial yields exactly that length.
pub proof fn law_payload_copy_fits_length(vlen: nat, off: nat, len: nat)
    ensures
        payload_copy(vlen, off, len) matches Ok((ws, partial)) ==> written(ws) <= len && (!partial ==> written(ws)
            == len),
{
    if len > 0 {
        lemma_range_copy_written(vlen, off, len, 0);
    }
}

/// A payload that lies wholly inside the volume is copied whole.
pub proof fn law_payload_inside_volume_is_copied_whole(vlen: nat, off: nat, len: nat)
    requires
        0 < len,
        off + len <= vlen,
        off + len <= u64::MAX,
    ensures
        payload_copy(vlen, off, len) matches Ok((ws, partial)) && !partial && written(ws) == len,
{
    lemma_range_copy_whole(vlen, off, len, 0);
    lemma_range_copy_written(vlen, off, len, 0);
}

proof fn lemma_range_copy_whole(vlen: nat, off: nat, len: nat, copied: nat)
    requires
        copied <= len,
        off + len <= vlen,
        off + len <= u64::MAX,
    ensures
        range_copy(vlen, off, len, copied) matches Ok((_, partial)) && !partial,
    decreases len - copied,
{
    if copied < len {
        let chunk = lesser((len - copied) as nat, PAYLOAD_COPY_CHUNK as nat);
        lemma_range_copy_whole(vlen, off, len, copied + chunk);
    }
}

} // verus!
