//! Recovering the data of an NTFS file from a volume image: finding its MFT
//! record, choosing its data streams, and saying what to write for each.
use vstd::prelude::*;
use crate::bytes::all_zero;
use crate::mft::{
    attribute_views, mft_record_of, parse_mft_record, AttributeForm, AttributeFormView, AttributeRecord, AttributeView,
    DataRun, MftRecord, MftRecordView, NonResidentAttribute, NonResidentView, ATTRIBUTE_TYPE_DATA,
};
use crate::ntfs::{checked_product, ntfs_boot_of, ntfs_boot_valid, parse_boot_sector, NtfsBootSector};
use crate::recovery::{lemma_written_concat, lemma_written_push, write_len, written, DataWrite};

verus! {

/// How many MFT slots a lookup visits at most.
pub const MAX_MFT_RECORDS_SEARCHED: usize = 262144;
/// After this many empty slots in a row a lookup gives up.
pub const MAX_CONSECUTIVE_EMPTY_MFT_RECORDS: usize = 16384;

/// Whether `n` bytes at `off` lie inside an image of `len` bytes.
pub open spec fn inside(len: nat, off: int, n: int) -> bool {
    0 <= off && off + n <= len
}

/// Every byte of `b` is zero.
pub open spec fn zeroed(b: Seq<u8>) -> bool {
    forall|k: int| 0 <= k < b.len() ==> b[k] == 0
}

/// The record that slot `b` holds when it parses and has number `target`.
#[verifier::opaque]
pub open spec fn record_with_number(b: Seq<u8>, bps: int, target: u32) -> Option<MftRecordView> {
    match mft_record_of(b, bps) {
        Ok(r) => if r.header.record_number == target {
            Some(r)
        } else {
            None
        },
        Err(_) => None,
    }
}

fn parse_record_with_number(slot: &[u8], bps: usize, target: u32) -> (r: Option<MftRecord>)
    ensures
        match (r, record_with_number(slot@, bps as int, target)) {
            (Some(rec), Some(v)) => rec@ == v,
            (None, None) => true,
            _ => false,
        },
{
    proof {
        reveal(record_with_number);
    }
    match parse_mft_record(slot, bps) {
        Ok(record) => {
            if record.header.record_number == target {
                Some(record)
            } else {
                None
            }
        },
        Err(_) => None,
    }
}

/// Looking for record `target` among the MFT slots of `rs` bytes from image
/// offset `off` on, with `left` visits left and `empties` empty slots just
/// seen: the search ends, unsuccessfully, at a slot past the image, after
/// the last visit, or at the 16384th empty slot in a row; `Err(33)` when the
/// next offset overflows.
pub open spec fn search_record(
    img: Seq<u8>,
    rs: nat,
    bps: int,
    off: nat,
    left: nat,
    empties: nat,
    target: u32,
) -> Result<Option<MftRecordView>, i32>
    decreases left,
{
    if left == 0 || !inside(img.len(), off as int, rs as int) {
        Ok(None)
    } else {
        let b = img.subrange(off as int, off as int + rs);
        if zeroed(b) {
            if empties + 1 >= MAX_CONSECUTIVE_EMPTY_MFT_RECORDS {
                Ok(None)
            } else if off + rs > u64::MAX {
                Err(33)
            } else {
                search_record(img, rs, bps, off + rs, (left - 1) as nat, empties + 1, target)
            }
        } else {
            match record_with_number(b, bps, target) {
                Some(r) => Ok(Some(r)),
                None => if off + rs > u64::MAX {
                    Err(33)
                } else {
                    search_record(img, rs, bps, off + rs, (left - 1) as nat, 0, target)
                },
            }
        }
    }
}

/// Finding MFT record `target` of the NTFS volume image `img`: `Err(31)`
/// for an image shorter than a sector, `Err(30)` when its first sector is
/// no NTFS boot sector, `Err(32)` for a record size outside 256 bytes to 1
/// MiB, `Err(33)` for an MFT offset that overflows, `Err(41)` when the
/// record is not found.
pub open spec fn record_lookup(img: Seq<u8>, target: u32) -> Result<(NtfsBootSector, MftRecordView), i32> {
    if img.len() < 512 {
        Err(31)
    } else if !ntfs_boot_valid(img.take(512)) {
        Err(30)
    } else {
        let boot = ntfs_boot_of(img.take(512));
        let rs = boot.file_record_size_bytes as nat;
        if rs < 256 || rs > 1048576 {
            Err(32)
        } else {
            match checked_product(boot.mft_cluster as int, boot.bytes_per_sector * boot.sectors_per_cluster) {
                None => Err(33),
                Some(mft) => match search_record(
                    img,
                    rs,
                    boot.bytes_per_sector as int,
                    mft as nat,
                    MAX_MFT_RECORDS_SEARCHED as nat,
                    0,
                    target,
                ) {
                    Err(e) => Err(e),
                    Ok(None) => Err(41),
                    Ok(Some(r)) => Ok((boot, r)),
                },
            }
        }
    }
}

/// Finds MFT record `record_number` of the NTFS volume image `image` (see
/// `record_lookup`).
pub fn locate_mft_record(image: &[u8], record_number: u32) -> (r: Result<(NtfsBootSector, MftRecord), i32>)
    ensures
        match (r, record_lookup(image@, record_number)) {
            (Ok((b, rec)), Ok((sb, srec))) => b == sb && rec@ == srec,
            (Err(c), Err(sc)) => c == sc,
            _ => false,
        },
{
    let il = image.len();
    if il < 512 {
        return Err(31);
    }
    let (sector, _) = image.split_at(512);
    let boot = match parse_boot_sector(sector) {
        Ok(b) => b,
        Err(_) => return Err(30),
    };
    let record_size = boot.file_record_size_bytes as usize;
    if record_size < 256 || record_size > 1024 * 1024 {
        return Err(32);
    }
    let mut offset = match boot.mft_offset_bytes() {
        Some(o) => o,
        None => return Err(33),
    };
    let bps = boot.bytes_per_sector as usize;
    let ghost whole = search_record(image@, record_size as nat, bps as int, offset as nat, MAX_MFT_RECORDS_SEARCHED as nat, 0, record_number);
    assert(sector@ =~= image@.take(512));
    let mut left: usize = MAX_MFT_RECORDS_SEARCHED;
    let mut empties: usize = 0;
    let mut done = false;
    while left > 0 && !done
        invariant
            record_lookup(image@, record_number) == match whole {
                Err(e) => Err(e),
                Ok(None) => Err(41),
                Ok(Some(r)) => Ok((boot, r)),
            },
            il == image@.len(),
            256 <= record_size <= 1048576,
            empties < MAX_CONSECUTIVE_EMPTY_MFT_RECORDS,
            done ==> whole == Ok::<Option<MftRecordView>, i32>(None),
            !done ==> whole == search_record(image@, record_size as nat, bps as int, offset as nat, left as nat, empties as nat, record_number),
        decreases left, if done { 0int } else { 1int },
    {
        if offset > il as u64 || record_size as u64 > il as u64 - offset {
            done = true;
        } else {
            let (_, tail) = image.split_at(offset as usize);
            let (slot, _) = tail.split_at(record_size);
            assert(slot@ =~= image@.subrange(offset as int, offset + record_size));
            if all_zero(slot, 0, record_size) {
                if empties + 1 >= MAX_CONSECUTIVE_EMPTY_MFT_RECORDS {
                    done = true;
                } else {
                    empties = empties + 1;
                    offset = match offset.checked_add(record_size as u64) {
                        Some(o) => o,
                        None => return Err(33),
                    };
                    left = left - 1;
                }
            } else {
                match parse_record_with_number(slot, bps, record_number) {
                    Some(record) => {
                        return Ok((boot, record));
                    },
                    None => {},
                }
                empties = 0;
                offset = match offset.checked_add(record_size as u64) {
                    Some(o) => o,
                    None => return Err(33),
                };
                left = left - 1;
            }
        }
    }
    Err(41)
}

// ---------------------------------------------------------------------------
// Data streams
// ---------------------------------------------------------------------------

pub const NTFS_ATTRIBUTE_FLAG_COMPRESSED: u16 = 0x0001;
pub const NTFS_ATTRIBUTE_FLAG_ENCRYPTED: u16 = 0x4000;
pub const NTFS_ATTRIBUTE_FLAG_SPARSE: u16 = 0x8000;

pub const RECOVERY_DIAG_HAS_NAMED_DATA_STREAM: u32 = 0x0001;
pub const RECOVERY_DIAG_SKIPPED_NAMED_DATA_STREAMS: u32 = 0x0002;
pub const RECOVERY_DIAG_COMPRESSED_ATTRIBUTE: u32 = 0x0004;
pub const RECOVERY_DIAG_SPARSE_ATTRIBUTE: u32 = 0x0008;
pub const RECOVERY_DIAG_ENCRYPTED_ATTRIBUTE: u32 = 0x0010;
pub const RECOVERY_DIAG_UNSUPPORTED_COMPRESSED: u32 = 0x0020;
pub const RECOVERY_DIAG_UNSUPPORTED_ENCRYPTED: u32 = 0x0040;
pub const RECOVERY_DIAG_SPARSE_ZERO_FILLED: u32 = 0x0080;
pub const RECOVERY_DIAG_NO_DEFAULT_DATA_STREAM: u32 = 0x0100;
pub const RECOVERY_DIAG_EXPORTED_NAMED_DATA_STREAMS: u32 = 0x0200;

/// `f` when `b`, else 0.
pub open spec fn flag_when(b: bool, f: u32) -> u32 {
    if b {
        f
    } else {
        0
    }
}

/// The diagnostics an attribute's flags raise.
pub open spec fn attribute_diagnostics(flags: u16) -> u32 {
    flag_when(flags & NTFS_ATTRIBUTE_FLAG_COMPRESSED != 0, RECOVERY_DIAG_COMPRESSED_ATTRIBUTE) | flag_when(
        flags & NTFS_ATTRIBUTE_FLAG_SPARSE != 0,
        RECOVERY_DIAG_SPARSE_ATTRIBUTE,
    ) | flag_when(flags & NTFS_ATTRIBUTE_FLAG_ENCRYPTED != 0, RECOVERY_DIAG_ENCRYPTED_ATTRIBUTE)
}

fn attribute_diagnostic_bits(flags: u16) -> (d: u32)
    ensures
        d == attribute_diagnostics(flags),
{
    let c: u32 = if flags & NTFS_ATTRIBUTE_FLAG_COMPRESSED != 0 {
        RECOVERY_DIAG_COMPRESSED_ATTRIBUTE
    } else {
        0
    };
    let sp: u32 = if flags & NTFS_ATTRIBUTE_FLAG_SPARSE != 0 {
        RECOVERY_DIAG_SPARSE_ATTRIBUTE
    } else {
        0
    };
    let en: u32 = if flags & NTFS_ATTRIBUTE_FLAG_ENCRYPTED != 0 {
        RECOVERY_DIAG_ENCRYPTED_ATTRIBUTE
    } else {
        0
    };
    c | sp | en
}

/// The data streams among the first `n` attributes: the index of the first
/// unnamed `$DATA` attribute, the indices of the named ones in order, and
/// the diagnostics of all their flags.
pub open spec fn data_streams_upto(a: Seq<AttributeView>, n: int) -> (Option<int>, Seq<int>, u32)
    decreases n,
{
    if n <= 0 {
        (None, Seq::empty(), 0)
    } else {
        let prev = data_streams_upto(a, n - 1);
        let x = a[n - 1];
        if x.attribute_type != ATTRIBUTE_TYPE_DATA {
            prev
        } else {
            let diag = prev.2 | attribute_diagnostics(x.flags);
            if x.name is Some {
                (prev.0, prev.1.push(n - 1), diag)
            } else if prev.0 is None {
                (Some(n - 1), prev.1, diag)
            } else {
                (prev.0, prev.1, diag)
            }
        }
    }
}

/// The data streams of a record; a named stream also raises its own
/// diagnostic.
pub open spec fn data_streams(a: Seq<AttributeView>) -> (Option<int>, Seq<int>, u32) {
    let s = data_streams_upto(a, a.len() as int);
    (s.0, s.1, s.2 | flag_when(s.1.len() > 0, RECOVERY_DIAG_HAS_NAMED_DATA_STREAM))
}

/// The record's data streams: the unnamed one, the named ones (as indices
/// into its attributes), and the diagnostics their flags raise.
pub fn select_data_streams(record: &MftRecord) -> (r: (Option<usize>, Vec<usize>, u32))
    ensures
        ({
            let s = data_streams(attribute_views(record.attributes@));
            &&& match (r.0, s.0) {
                (Some(i), Some(j)) => i == j,
                (None, None) => true,
                _ => false,
            }
            &&& r.1@.len() == s.1.len()
            &&& forall|k: int| 0 <= k < r.1@.len() ==> r.1@[k] as int == #[trigger] s.1[k]
            &&& r.2 == s.2
        }),
{
    let ghost a = attribute_views(record.attributes@);
    let mut unnamed: Option<usize> = None;
    let mut named: Vec<usize> = Vec::new();
    let mut diag: u32 = 0;
    let mut i: usize = 0;
    while i < record.attributes.len()
        invariant
            a == attribute_views(record.attributes@),
            i <= record.attributes@.len(),
            ({
                let s = data_streams_upto(a, i as int);
                &&& match (unnamed, s.0) {
                    (Some(x), Some(y)) => x == y,
                    (None, None) => true,
                    _ => false,
                }
                &&& named@.len() == s.1.len()
                &&& forall|k: int| 0 <= k < named@.len() ==> named@[k] as int == #[trigger] s.1[k]
                &&& diag == s.2
            }),
        decreases record.attributes@.len() - i,
    {
        let attribute = &record.attributes[i];
        assert(a[i as int].attribute_type == attribute.attribute_type && a[i as int].flags == attribute.flags);
        assert(a[i as int].name is Some <==> attribute.name is Some);
        if attribute.attribute_type == ATTRIBUTE_TYPE_DATA {
            diag = diag | attribute_diagnostic_bits(attribute.flags);
            if attribute.name.is_some() {
                named.push(i);
            } else if unnamed.is_none() {
                unnamed = Some(i);
            }
        }
        i = i + 1;
    }
    if named.len() > 0 {
        diag = diag | RECOVERY_DIAG_HAS_NAMED_DATA_STREAM;
    } else {
        assert(diag | 0u32 == diag) by (bit_vector);
    }
    (unnamed, named, diag)
}

// ---------------------------------------------------------------------------
// Non-resident data
// ---------------------------------------------------------------------------

/// Zeros are written 64 KiB at a time.
pub const ZERO_CHUNK_BYTES: u64 = 65536;
/// Data is copied 1 MiB at a time.
pub const COPY_CHUNK_BYTES: u64 = 1048576;

/// The smaller of two naturals.
pub open spec fn min_of(a: nat, b: nat) -> nat {
    if a < b {
        a
    } else {
        b
    }
}

/// `n` zero bytes, 64 KiB at a time.
pub open spec fn zero_chunks(n: nat) -> Seq<DataWrite>
    decreases n,
{
    if n == 0 {
        Seq::empty()
    } else {
        let c = min_of(n, ZERO_CHUNK_BYTES as nat);
        seq![DataWrite::Zeros(c as usize)] + zero_chunks((n - c) as nat)
    }
}

/// Copies of bytes `copied..total` of the `total` bytes at image offset
/// `src`, 1 MiB at a time, up to the first chunk that lies past the image
/// (which fails the copy); `Err(33)` when an offset overflows.
pub open spec fn copy_chunks(img_len: nat, src: nat, copied: nat, total: nat) -> Result<(Seq<DataWrite>, bool), i32>
    decreases total - copied,
{
    if copied >= total {
        Ok((Seq::empty(), false))
    } else {
        let c = min_of((total - copied) as nat, COPY_CHUNK_BYTES as nat);
        let off = src + copied;
        if off > u64::MAX {
            Err(33)
        } else if !inside(img_len, off as int, c as int) {
            Ok((Seq::empty(), true))
        } else {
            match copy_chunks(img_len, src, copied + c, total) {
                Ok((w, f)) => Ok((seq![DataWrite::Image(off as u64, c as usize)] + w, f)),
                Err(e) => Err(e),
            }
        }
    }
}

/// The writes of data runs `k..` with `rem` bytes owed, clusters of `cs`
/// bytes: a sparse run gives zeros, a run at a negative cluster stops as
/// partial, a run that cannot be copied whole stops as partial; gives the
/// writes, whether they stopped as partial, whether a sparse run was
/// zero-filled, and what is still owed. `Err(33)` when a size or offset
/// overflows.
pub open spec fn run_writes(img_len: nat, cs: nat, runs: Seq<DataRun>, k: nat, rem: nat) -> Result<
    (Seq<DataWrite>, bool, bool, nat),
    i32,
>
    decreases runs.len() - k,
{
    if k >= runs.len() || rem == 0 {
        Ok((Seq::empty(), false, false, rem))
    } else {
        let run = runs[k as int];
        let run_bytes = run.cluster_count * cs;
        if run_bytes > u64::MAX {
            Err(33)
        } else {
            let tp = min_of(run_bytes as nat, rem);
            if tp == 0 {
                run_writes(img_len, cs, runs, k + 1, rem)
            } else {
                match run.lcn {
                    None => match run_writes(img_len, cs, runs, k + 1, (rem - tp) as nat) {
                        Ok((w, p, _sp, r)) => Ok((zero_chunks(tp) + w, p, true, r)),
                        Err(e) => Err(e),
                    },
                    Some(l) => if l < 0 {
                        Ok((Seq::empty(), true, false, rem))
                    } else if l * cs > u64::MAX {
                        Err(33)
                    } else {
                        match copy_chunks(img_len, (l * cs) as nat, 0, tp) {
                            Err(e) => Err(e),
                            Ok((cw, failed)) => if failed {
                                Ok((cw, true, false, rem))
                            } else {
                                match run_writes(img_len, cs, runs, k + 1, (rem - tp) as nat) {
                                    Ok((w, p, sp, r)) => Ok((cw + w, p, sp, r)),
                                    Err(e) => Err(e),
                                }
                            },
                        }
                    },
                }
            }
        }
    }
}

/// The writes appended to `out` since it held `start`.
pub open spec fn added(out: Seq<DataWrite>, start: Seq<DataWrite>) -> Seq<DataWrite> {
    out.subrange(start.len() as int, out.len() as int)
}

fn push_zero_chunks(n: u64, out: &mut Vec<DataWrite>)
    ensures
        final(out)@ == old(out)@ + zero_chunks(n as nat),
{
    let ghost start = out@;
    let mut left = n;
    assert(added(out@, start) =~= Seq::<DataWrite>::empty());
    while left > 0
        invariant
            start == old(out)@,
            out@.len() >= start.len(),
            out@.subrange(0, start.len() as int) == start,
            zero_chunks(n as nat) == added(out@, start) + zero_chunks(left as nat),
        decreases left,
    {
        let c: u64 = if left < ZERO_CHUNK_BYTES {
            left
        } else {
            ZERO_CHUNK_BYTES
        };
        let ghost a = added(out@, start);
        out.push(DataWrite::Zeros(c as usize));
        assert(added(out@, start) =~= a.push(DataWrite::Zeros(c as usize)));
        assert(out@.subrange(0, start.len() as int) =~= start);
        assert(a + (seq![DataWrite::Zeros(c as usize)] + zero_chunks((left - c) as nat)) =~= added(out@, start)
            + zero_chunks((left - c) as nat));
        left = left - c;
    }
    assert(zero_chunks(n as nat) =~= added(out@, start));
    assert(out@ =~= start + added(out@, start));
}

fn push_copy_chunks(image_len: usize, src: u64, total: u64, out: &mut Vec<DataWrite>) -> (r: Result<bool, i32>)
    ensures
        match copy_chunks(image_len as nat, src as nat, 0, total as nat) {
            Ok((w, f)) => r == Ok::<bool, i32>(f) && final(out)@ == old(out)@ + w,
            Err(e) => r == Err::<bool, i32>(e),
        },
{
    let ghost start = out@;
    let ghost whole = copy_chunks(image_len as nat, src as nat, 0, total as nat);
    let mut copied: u64 = 0;
    assert(added(out@, start) =~= Seq::<DataWrite>::empty());
    while copied < total
        invariant
            start == old(out)@,
            copied <= total,
            out@.len() >= start.len(),
            out@.subrange(0, start.len() as int) == start,
            whole == copy_chunks(image_len as nat, src as nat, 0, total as nat),
            whole == match copy_chunks(image_len as nat, src as nat, copied as nat, total as nat) {
                Ok((w, f)) => Ok((added(out@, start) + w, f)),
                Err(e) => Err::<(Seq<DataWrite>, bool), i32>(e),
            },
        decreases total - copied,
    {
        let c: u64 = if total - copied < COPY_CHUNK_BYTES {
            total - copied
        } else {
            COPY_CHUNK_BYTES
        };
        let off = match src.checked_add(copied) {
            Some(o) => o,
            None => return Err(33),
        };
        if off > image_len as u64 || c > image_len as u64 - off {
            assert(out@ =~= start + added(out@, start));
            assert(added(out@, start) + Seq::<DataWrite>::empty() =~= added(out@, start));
            return Ok(true);
        }
        let ghost a = added(out@, start);
        out.push(DataWrite::Image(off, c as usize));
        assert(added(out@, start) =~= a.push(DataWrite::Image(off, c as usize)));
        assert(out@.subrange(0, start.len() as int) =~= start);
        proof {
            match copy_chunks(image_len as nat, src as nat, (copied + c) as nat, total as nat) {
                Ok((w, f)) => {
                    assert(a + (seq![DataWrite::Image(off, c as usize)] + w) =~= added(out@, start) + w);
                },
                Err(_) => {},
            }
        }
        copied = copied + c;
    }
    assert(added(out@, start) + Seq::<DataWrite>::empty() =~= added(out@, start));
    assert(out@ =~= start + added(out@, start));
    Ok(false)
}

/// The writes of a non-resident attribute's data (see `run_writes`),
/// whether they are partial (stopped, or data still owed), and whether a
/// sparse run was zero-filled; `Err(32)` for a zero cluster size.
pub open spec fn non_resident_recovery(img_len: nat, cs: nat, runs: Seq<DataRun>, size: nat) -> Result<
    (Seq<DataWrite>, bool, bool),
    i32,
> {
    if cs == 0 {
        Err(32)
    } else {
        match run_writes(img_len, cs, runs, 0, size) {
            Ok((w, p, sp, r)) => Ok((w, p || r > 0, sp)),
            Err(e) => Err(e),
        }
    }
}

/// The writes that recover a non-resident attribute's data (see
/// `non_resident_recovery`).
pub fn non_resident_writes(image_len: usize, cluster_size: u32, attribute: &NonResidentAttribute) -> (r: Result<
    (Vec<DataWrite>, bool, bool),
    i32,
>)
    ensures
        match (r, non_resident_recovery(image_len as nat, cluster_size as nat, attribute.data_runs@, attribute.data_size as nat)) {
            (Ok((w, p, sp)), Ok((sw, spp, ssp))) => w@ == sw && p == spp && sp == ssp,
            (Err(c), Err(sc)) => c == sc,
            _ => false,
        },
{
    if cluster_size == 0 {
        return Err(32);
    }
    let cs = cluster_size as u64;
    let runs = &attribute.data_runs;
    let ghost whole = run_writes(image_len as nat, cs as nat, runs@, 0, attribute.data_size as nat);
    let mut out: Vec<DataWrite> = Vec::new();
    let mut remaining = attribute.data_size;
    let mut k: usize = 0;
    let mut sparse = false;
    let mut stopped = false;
    while k < runs.len() && remaining > 0 && !stopped
        invariant
            cs == cluster_size as u64,
            cs > 0,
            k <= runs@.len(),
            runs@ == attribute.data_runs@,
            whole == run_writes(image_len as nat, cs as nat, runs@, 0, attribute.data_size as nat),
            stopped ==> whole == Ok::<(Seq<DataWrite>, bool, bool, nat), i32>((out@, true, sparse, remaining as nat)),
            !stopped ==> whole == match run_writes(image_len as nat, cs as nat, runs@, k as nat, remaining as nat) {
                Ok((w, p, sp, r)) => Ok((out@ + w, p, sparse || sp, r)),
                Err(e) => Err::<(Seq<DataWrite>, bool, bool, nat), i32>(e),
            },
        decreases runs@.len() - k, if stopped { 0int } else { 1int },
    {
        let run = runs[k];
        let run_bytes = match run.cluster_count.checked_mul(cs) {
            Some(v) => v,
            None => return Err(33),
        };
        let to_process = if run_bytes < remaining {
            run_bytes
        } else {
            remaining
        };
        if to_process == 0 {
            k = k + 1;
        } else {
            match run.lcn {
                None => {
                    let ghost o = out@;
                    push_zero_chunks(to_process, &mut out);
                    proof {
                        match run_writes(image_len as nat, cs as nat, runs@, (k + 1) as nat, (remaining - to_process) as nat) {
                            Ok((w, p, sp, r)) => {
                                assert(o + (zero_chunks(to_process as nat) + w) =~= out@ + w);
                            },
                            Err(_) => {},
                        }
                    }
                    sparse = true;
                    remaining = remaining - to_process;
                    k = k + 1;
                },
                Some(lcn) => {
                    if lcn < 0 {
                        stopped = true;
                        assert(out@ + Seq::<DataWrite>::empty() =~= out@);
                    } else {
                        let source = match (lcn as u64).checked_mul(cs) {
                            Some(v) => v,
                            None => return Err(33),
                        };
                        let ghost o = out@;
                        let ghost cc = copy_chunks(image_len as nat, source as nat, 0, to_process as nat);
                        let failed = match push_copy_chunks(image_len, source, to_process, &mut out) {
                            Ok(f) => f,
                            Err(e) => return Err(e),
                        };
                        if failed {
                            stopped = true;
                        } else {
                            proof {
                                match run_writes(image_len as nat, cs as nat, runs@, (k + 1) as nat, (remaining - to_process) as nat) {
                                    Ok((w, p, sp, r)) => {
                                        assert(o + (cc->Ok_0.0 + w) =~= out@ + w);
                                    },
                                    Err(_) => {},
                                }
                            }
                            remaining = remaining - to_process;
                            k = k + 1;
                        }
                    }
                },
            }
        }
    }
    proof {
        if !stopped {
            assert(out@ + Seq::<DataWrite>::empty() =~= out@);
        }
    }
    Ok((out, stopped || remaining > 0, sparse))
}

// ---------------------------------------------------------------------------
// Streams
// ---------------------------------------------------------------------------

/// How to recover one data stream.
#[derive(Debug, Clone)]
pub enum StreamPlan {
    /// Write the attribute's resident value.
    Resident,
    /// Perform these writes.
    Writes(Vec<DataWrite>),
    /// Decompress the non-resident data, one LZNT1 compression unit at a time.
    Compressed,
}

/// A stream plan with its writes as a sequence.
pub enum StreamPlanView {
    Resident,
    Writes(Seq<DataWrite>),
    Compressed,
}

impl View for StreamPlan {
    type V = StreamPlanView;

    open spec fn view(&self) -> StreamPlanView {
        match self {
            StreamPlan::Resident => StreamPlanView::Resident,
            StreamPlan::Writes(w) => StreamPlanView::Writes(w@),
            StreamPlan::Compressed => StreamPlanView::Compressed,
        }
    }
}

/// The plan for a data attribute, whether it is partial, and the
/// diagnostics it raises (also when it fails): an encrypted stream is
/// recovered as stored and marked partial; a compressed resident stream
/// fails with 45; a compressed non-resident one that is not encrypted is
/// decompressed; a non-resident one is recovered by its runs.
pub open spec fn stream_recovery(img_len: nat, cs: nat, a: AttributeView) -> (Result<(StreamPlanView, bool), i32>, u32) {
    let compressed = a.flags & NTFS_ATTRIBUTE_FLAG_COMPRESSED != 0;
    let encrypted = a.flags & NTFS_ATTRIBUTE_FLAG_ENCRYPTED != 0;
    let d0 = flag_when(encrypted, RECOVERY_DIAG_UNSUPPORTED_ENCRYPTED);
    match a.form {
        AttributeFormView::Resident { .. } => if compressed {
            (Err(45), d0 | RECOVERY_DIAG_UNSUPPORTED_COMPRESSED)
        } else {
            (Ok((StreamPlanView::Resident, encrypted)), d0)
        },
        AttributeFormView::NonResident(n) => if compressed && !encrypted {
            (Ok((StreamPlanView::Compressed, false)), d0)
        } else {
            match non_resident_recovery(img_len, cs, n.data_runs, n.data_size as nat) {
                Err(e) => (Err(e), d0),
                Ok((w, p, sp)) => (
                    Ok((StreamPlanView::Writes(w), p || encrypted)),
                    d0 | flag_when(sp, RECOVERY_DIAG_SPARSE_ZERO_FILLED),
                ),
            }
        },
    }
}

/// The plan for recovering data attribute `attribute` of the volume image
/// of `image_len` bytes (see `stream_recovery`).
pub fn plan_stream_recovery(image_len: usize, boot: &NtfsBootSector, attribute: &AttributeRecord) -> (r: (
    Result<(StreamPlan, bool), i32>,
    u32,
))
    ensures
        ({
            let s = stream_recovery(image_len as nat, (boot.bytes_per_sector * boot.sectors_per_cluster) as nat, attribute@);
            &&& r.1 == s.1
            &&& match (r.0, s.0) {
                (Ok((p, part)), Ok((sp, spart))) => p@ == sp && part == spart,
                (Err(c), Err(sc)) => c == sc,
                _ => false,
            }
        }),
{
    let compressed = attribute.flags & NTFS_ATTRIBUTE_FLAG_COMPRESSED != 0;
    let encrypted = attribute.flags & NTFS_ATTRIBUTE_FLAG_ENCRYPTED != 0;
    let d0: u32 = if encrypted {
        RECOVERY_DIAG_UNSUPPORTED_ENCRYPTED
    } else {
        0
    };
    match &attribute.form {
        AttributeForm::Resident(_) => {
            if compressed {
                (Err(45), d0 | RECOVERY_DIAG_UNSUPPORTED_COMPRESSED)
            } else {
                (Ok((StreamPlan::Resident, encrypted)), d0)
            }
        },
        AttributeForm::NonResident(non_resident) => {
            if compressed && !encrypted {
                (Ok((StreamPlan::Compressed, false)), d0)
            } else {
                match non_resident_writes(image_len, boot.cluster_size_bytes(), non_resident) {
                    Err(e) => (Err(e), d0),
                    Ok((writes, partial, sparse)) => {
                        let d = if sparse {
                            d0 | RECOVERY_DIAG_SPARSE_ZERO_FILLED
                        } else {
                            proof {
                                assert(d0 | 0u32 == d0) by (bit_vector);
                            }
                            d0
                        };
                        (Ok((StreamPlan::Writes(writes), partial || encrypted)), d)
                    },
                }
            }
        },
    }
}

/// What a record's data streams allow before any is exported: with a
/// default stream, a start that is not partial; with named streams only, a
/// partial start with the no-default-stream diagnostic; with no data stream
/// at all, `Err(42)` with the diagnostics so far.
pub fn start_stream_export(has_default_stream: bool, named_streams: usize, diagnostics: u32) -> (r: Result<
    (bool, u32),
    (i32, u32),
>)
    ensures
        has_default_stream ==> r == Ok::<(bool, u32), (i32, u32)>((false, diagnostics)),
        !has_default_stream && named_streams > 0 ==> r == Ok::<(bool, u32), (i32, u32)>(
            (true, diagnostics | RECOVERY_DIAG_NO_DEFAULT_DATA_STREAM),
        ),
        !has_default_stream && named_streams == 0 ==> r == Err::<(bool, u32), (i32, u32)>((42i32, diagnostics)),
{
    if has_default_stream {
        Ok((false, diagnostics))
    } else if named_streams > 0 {
        Ok((true, diagnostics | RECOVERY_DIAG_NO_DEFAULT_DATA_STREAM))
    } else {
        Err((42, diagnostics))
    }
}

/// The status and final diagnostics of an NTFS recovery from how many
/// streams were exported (named ones among them) and how many named streams
/// were skipped: 47 with the skipped-streams diagnostic when nothing was
/// exported, else 0 with the exported- and skipped-streams diagnostics as
/// they apply.
pub fn finish_ntfs_recovery(
    exported_data_streams: usize,
    exported_named_streams: usize,
    skipped_named_streams: usize,
    diagnostics: u32,
) -> (r: (i32, u32))
    ensures
        exported_data_streams == 0 ==> r == (47i32, diagnostics | RECOVERY_DIAG_SKIPPED_NAMED_DATA_STREAMS),
        exported_data_streams > 0 ==> r == (0i32, diagnostics | flag_when(
            exported_named_streams > 0,
            RECOVERY_DIAG_EXPORTED_NAMED_DATA_STREAMS,
        ) | flag_when(skipped_named_streams > 0, RECOVERY_DIAG_SKIPPED_NAMED_DATA_STREAMS)),
{
    if exported_data_streams == 0 {
        return (47, diagnostics | RECOVERY_DIAG_SKIPPED_NAMED_DATA_STREAMS);
    }
    let exported: u32 = if exported_named_streams > 0 {
        RECOVERY_DIAG_EXPORTED_NAMED_DATA_STREAMS
    } else {
        0
    };
    let skipped: u32 = if skipped_named_streams > 0 {
        RECOVERY_DIAG_SKIPPED_NAMED_DATA_STREAMS
    } else {
        0
    };
    (0, diagnostics | exported | skipped)
}

// ---------------------------------------------------------------------------
// Compressed streams
// ---------------------------------------------------------------------------

/// The largest compression unit exponent that recovery accepts.
pub const NTFS_MAX_REASONABLE_COMPRESSION_UNIT_EXPONENT: u16 = 8;

/// `2^e`.
pub open spec fn pow2_nat(e: nat) -> nat
    decreases e,
{
    if e == 0 {
        1
    } else {
        2 * pow2_nat((e - 1) as nat)
    }
}

/// Clusters per compression unit, `None` for an exponent above 8.
pub fn compression_unit_cluster_count(compression_unit_size: u16) -> (r: Option<u64>)
    ensures
        compression_unit_size > NTFS_MAX_REASONABLE_COMPRESSION_UNIT_EXPONENT ==> r is None,
        compression_unit_size <= NTFS_MAX_REASONABLE_COMPRESSION_UNIT_EXPONENT ==> r == Some(
            pow2_nat(compression_unit_size as nat) as u64,
        ),
        r matches Some(v) ==> 1 <= v <= 256 && v == pow2_nat(compression_unit_size as nat),
{
    if compression_unit_size > NTFS_MAX_REASONABLE_COMPRESSION_UNIT_EXPONENT {
        return None;
    }
    let mut v: u64 = 1;
    let mut k: u16 = 0;
    while k < compression_unit_size
        invariant
            k <= compression_unit_size <= 8,
            v == pow2_nat(k as nat),
            1 <= v <= 256,
        decreases compression_unit_size - k,
    {
        assert(pow2_nat((k + 1) as nat) == 2 * pow2_nat(k as nat));
        assert(pow2_nat(k as nat) <= 128) by {
            lemma_pow2_bound(k as nat);
        }
        v = v * 2;
        k = k + 1;
    }
    Some(v)
}

proof fn lemma_pow2_bound(k: nat)
    requires
        k < 8,
    ensures
        pow2_nat(k) <= 128,
{
    reveal_with_fuel(pow2_nat, 8);
}

/// Where an LZNT1 stream's chunks end: after the last whole chunk before a
/// zero header, a header without the chunk signature, or a chunk that runs
/// past the bytes.
pub open spec fn lznt1_end(b: Seq<u8>, cursor: int) -> int
    decreases b.len() - cursor,
{
    if cursor < 0 || cursor + 2 > b.len() {
        cursor
    } else {
        let header = b[cursor] + 256 * b[cursor + 1];
        let next = cursor + 2 + (header % 4096) + 1;
        if header == 0 || (header / 4096) % 8 != 3 || next > b.len() {
            cursor
        } else {
            lznt1_end(b, next)
        }
    }
}

/// The LZNT1 chunks at the start of `bytes`, without the padding after
/// them.
pub fn trim_lznt1_stream_padding(bytes: &[u8]) -> (r: &[u8])
    ensures
        r@ == bytes@.take(lznt1_end(bytes@, 0)),
{
    let bl = bytes.len();
    let mut cursor: usize = 0;
    let mut done = false;
    while !done && bl - cursor >= 2
        invariant
            bl == bytes@.len(),
            cursor <= bl,
            lznt1_end(bytes@, 0) == if done { cursor as int } else { lznt1_end(bytes@, cursor as int) },
        decreases bl - cursor, if done { 0int } else { 1int },
    {
        let header: u16 = bytes[cursor] as u16 + 256 * bytes[cursor + 1] as u16;
        let signature_ok = (header & 0x7000) == 0x3000;
        assert((header & 0x7000) == 0x3000 <==> (header / 4096) % 8 == 3) by (bit_vector);
        let chunk_len = (header & 0x0FFF) as usize + 1;
        assert(header & 0x0FFF == header % 4096) by (bit_vector);
        if header == 0 || !signature_ok || chunk_len > bl - cursor - 2 {
            done = true;
        } else {
            cursor = cursor + 2 + chunk_len;
        }
    }
    let (head, _) = bytes.split_at(cursor);
    head
}

/// A piece of a compression unit: clusters at `lcn` (`None`: sparse).
#[derive(Debug, Clone, Copy, PartialEq, Eq, Structural)]
pub struct UnitSlice {
    pub lcn: Option<i64>,
    pub cluster_count: u64,
}

/// Bytes of the volume image.
#[derive(Debug, Clone, Copy, PartialEq, Eq, Structural)]
pub struct Extent {
    pub offset: u64,
    pub length: u64,
}

/// Gathering `need` clusters from run `ri`, cluster `ro` of it, on: the
/// slices, where the next unit starts, and how many clusters were found;
/// `Err(33)` when a cluster number overflows.
pub open spec fn gather(runs: Seq<DataRun>, ri: nat, ro: nat, need: nat) -> Result<(Seq<UnitSlice>, nat, nat, nat), i32>
    decreases runs.len() - ri, need,
{
    if need == 0 || ri >= runs.len() {
        Ok((Seq::empty(), ri, ro, 0))
    } else {
        let run = runs[ri as int];
        if ro >= run.cluster_count {
            gather(runs, ri + 1, 0, need)
        } else {
            let take = min_of((run.cluster_count - ro) as nat, need);
            let lcn = match run.lcn {
                Some(l) => if ro > i64::MAX || l + ro > i64::MAX {
                    None
                } else {
                    Some(Some((l + ro) as i64))
                },
                None => Some(None),
            };
            match lcn {
                None => Err(33),
                Some(at) => {
                    let next = if ro + take >= run.cluster_count {
                        (ri + 1, 0nat)
                    } else {
                        (ri, ro + take)
                    };
                    match gather(runs, next.0, next.1, (need - take) as nat) {
                        Err(e) => Err(e),
                        Ok((s, ri2, ro2, got)) => Ok(
                            (seq![UnitSlice { lcn: at, cluster_count: take as u64 }] + s, ri2, ro2, got + take),
                        ),
                    }
                },
            }
        }
    }
}

/// Clusters of the slices that are not sparse.
pub open spec fn physical_clusters(s: Seq<UnitSlice>) -> nat
    decreases s.len(),
{
    if s.len() == 0 {
        0
    } else {
        (if s[0].lcn is Some {
            s[0].cluster_count as nat
        } else {
            0
        }) + physical_clusters(s.drop_first())
    }
}

/// Clusters of all the slices.
pub open spec fn total_clusters(s: Seq<UnitSlice>) -> nat
    decreases s.len(),
{
    if s.len() == 0 {
        0
    } else {
        s[0].cluster_count as nat + total_clusters(s.drop_first())
    }
}

proof fn lemma_physical_le_total(s: Seq<UnitSlice>)
    ensures
        physical_clusters(s) <= total_clusters(s),
    decreases s.len(),
{
    if s.len() > 0 {
        lemma_physical_le_total(s.drop_first());
    }
}

proof fn lemma_gather_bounds(runs: Seq<DataRun>, ri: nat, ro: nat, need: nat)
    ensures
        gather(runs, ri, ro, need) matches Ok((s, _a, _b, got)) ==> got <= need && total_clusters(s) == got && s.len()
            <= got && forall|k: int| 0 <= k < s.len() ==> 1 <= #[trigger] s[k].cluster_count <= need,
    decreases runs.len() - ri, need,
{
    if !(need == 0 || ri >= runs.len()) {
        let run = runs[ri as int];
        if ro >= run.cluster_count {
            lemma_gather_bounds(runs, ri + 1, 0, need);
        } else {
            let take = min_of((run.cluster_count - ro) as nat, need);
            let next = if ro + take >= run.cluster_count {
                (ri + 1, 0nat)
            } else {
                (ri, ro + take)
            };
            lemma_gather_bounds(runs, next.0, next.1, (need - take) as nat);
            match gather(runs, ri, ro, need) {
                Ok((s, _a, _b, got)) => {
                    let x = s[0];
                    assert(s.drop_first() == gather(runs, next.0, next.1, (need - take) as nat)->Ok_0.0);
                },
                Err(_) => {},
            }
        }
    }
}

/// The image extents of the slices that are not sparse: `Ok(None)` when a
/// slice lies at a negative cluster or past the image, `Err(33)` when an
/// offset or length overflows.
pub open spec fn unit_extents(s: Seq<UnitSlice>, cs: nat, img_len: nat) -> Result<Option<Seq<Extent>>, i32>
    decreases s.len(),
{
    if s.len() == 0 {
        Ok(Some(Seq::empty()))
    } else {
        let x = s[0];
        match x.lcn {
            None => unit_extents(s.drop_first(), cs, img_len),
            Some(l) => if l < 0 {
                Ok(None)
            } else if l * cs > u64::MAX || x.cluster_count * cs > u64::MAX {
                Err(33)
            } else if !inside(img_len, l * cs, x.cluster_count * cs) {
                Ok(None)
            } else {
                match unit_extents(s.drop_first(), cs, img_len) {
                    Ok(Some(rest)) => Ok(Some(seq![Extent { offset: (l * cs) as u64, length: (x.cluster_count * cs) as u64 }] + rest)),
                    other => other,
                }
            },
        }
    }
}

/// The first `n` bytes of the extents.
pub open spec fn extents_prefix(e: Seq<Extent>, n: nat) -> Seq<Extent>
    decreases e.len(),
{
    if e.len() == 0 || n == 0 {
        Seq::empty()
    } else if e[0].length >= n {
        seq![Extent { offset: e[0].offset, length: n as u64 }]
    } else {
        seq![e[0]] + extents_prefix(e.drop_first(), (n - e[0].length) as nat)
    }
}

/// One compression unit of a stream.
#[derive(Debug, Clone)]
pub enum CompressionUnit {
    /// A sparse unit: this many zero bytes.
    Zeros(u64),
    /// An uncompressed unit: these bytes of the image.
    Copy(Vec<Extent>),
    /// A compressed unit: the LZNT1 data in these bytes of the image,
    /// decompressing to at most `unit_bytes`, of which `target` are owed.
    Decompress { extents: Vec<Extent>, target: u64, unit_bytes: u64 },
}

/// A compression unit with its extents as a sequence.
pub enum CompressionUnitView {
    Zeros(u64),
    Copy(Seq<Extent>),
    Decompress { extents: Seq<Extent>, target: u64, unit_bytes: u64 },
}

impl View for CompressionUnit {
    type V = CompressionUnitView;

    open spec fn view(&self) -> CompressionUnitView {
        match self {
            CompressionUnit::Zeros(n) => CompressionUnitView::Zeros(*n),
            CompressionUnit::Copy(e) => CompressionUnitView::Copy(e@),
            CompressionUnit::Decompress { extents, target, unit_bytes } => CompressionUnitView::Decompress {
                extents: extents@,
                target: *target,
                unit_bytes: *unit_bytes,
            },
        }
    }
}

/// How a compressed stream's plan ends.
#[derive(Debug, Clone, Copy, PartialEq, Eq, Structural)]
pub enum UnitPlanEnd {
    /// Every byte is owed by the units.
    Complete,
    /// The runs end before the data does (partial).
    RunsExhausted,
    /// A unit's clusters cannot be read (partial).
    Unreadable,
    /// A size or offset overflows.
    Error(i32),
}

/// The units of a compressed stream from run `ri`, cluster `ro`, with `rem`
/// bytes owed, assuming each unit yields what it owes: sparse units give
/// zeros, units stored whole are copied, others are decompressed.
pub open spec fn plan_units(
    img_len: nat,
    cs: nat,
    unit_clusters: nat,
    unit_bytes: nat,
    runs: Seq<DataRun>,
    ri: nat,
    ro: nat,
    rem: nat,
) -> (Seq<CompressionUnitView>, UnitPlanEnd)
    decreases rem,
{
    if rem == 0 || unit_bytes == 0 {
        (Seq::empty(), UnitPlanEnd::Complete)
    } else {
        match gather(runs, ri, ro, unit_clusters) {
            Err(e) => (Seq::empty(), UnitPlanEnd::Error(e)),
            Ok((slices, ri2, ro2, got)) => if got == 0 {
                (Seq::empty(), UnitPlanEnd::RunsExhausted)
            } else {
                let target = min_of(rem, unit_bytes);
                let phys = physical_clusters(slices);
                if phys == 0 {
                    let rest = plan_units(img_len, cs, unit_clusters, unit_bytes, runs, ri2, ro2, (rem - target) as nat);
                    (seq![CompressionUnitView::Zeros(target as u64)] + rest.0, rest.1)
                } else if phys * cs > usize::MAX {
                    (Seq::empty(), UnitPlanEnd::Error(33))
                } else {
                    match unit_extents(slices, cs, img_len) {
                        Err(e) => (Seq::empty(), UnitPlanEnd::Error(e)),
                        Ok(None) => (Seq::empty(), UnitPlanEnd::Unreadable),
                        Ok(Some(ex)) => {
                            let unit = if got == phys && phys == unit_clusters {
                                CompressionUnitView::Copy(extents_prefix(ex, target))
                            } else {
                                CompressionUnitView::Decompress {
                                    extents: ex,
                                    target: target as u64,
                                    unit_bytes: unit_bytes as u64,
                                }
                            };
                            let rest = plan_units(img_len, cs, unit_clusters, unit_bytes, runs, ri2, ro2, (rem - target) as nat);
                            (seq![unit] + rest.0, rest.1)
                        },
                    }
                }
            },
        }
    }
}

/// `r` with `prefix` in front of its slices and `extra` clusters added.
pub open spec fn gathered_after(prefix: Seq<UnitSlice>, extra: nat, r: Result<(Seq<UnitSlice>, nat, nat, nat), i32>) -> Result<
    (Seq<UnitSlice>, nat, nat, nat),
    i32,
> {
    match r {
        Ok((s, a, b, g)) => Ok((prefix + s, a, b, g + extra)),
        Err(e) => Err(e),
    }
}

fn gather_slices(runs: &Vec<DataRun>, ri0: usize, ro0: u64, need0: u64) -> (r: Result<(Vec<UnitSlice>, usize, u64, u64), i32>)
    ensures
        match (r, gather(runs@, ri0 as nat, ro0 as nat, need0 as nat)) {
            (Ok((s, a, b, g)), Ok((ss, sa, sb, sg))) => s@ == ss && a == sa && b == sb && g == sg,
            (Err(x), Err(y)) => x == y,
            _ => false,
        },
{
    let ghost whole = gather(runs@, ri0 as nat, ro0 as nat, need0 as nat);
    let mut slices: Vec<UnitSlice> = Vec::new();
    let mut ri = ri0;
    let mut ro = ro0;
    let mut need = need0;
    let mut got: u64 = 0;
    assert(Seq::<UnitSlice>::empty() + Seq::<UnitSlice>::empty() =~= Seq::<UnitSlice>::empty());
    proof {
        match gather(runs@, ri0 as nat, ro0 as nat, need0 as nat) {
            Ok((s, a, b, g)) => {
                assert(slices@ + s =~= s);
            },
            Err(_) => {},
        }
    }
    while need > 0 && ri < runs.len()
        invariant
            got + need == need0,
            whole == gather(runs@, ri0 as nat, ro0 as nat, need0 as nat),
            whole == gathered_after(slices@, got as nat, gather(runs@, ri as nat, ro as nat, need as nat)),
        decreases runs@.len() - ri, need,
    {
        let run = runs[ri];
        if ro >= run.cluster_count {
            ri = ri + 1;
            ro = 0;
        } else {
            let avail = run.cluster_count - ro;
            let take = if avail < need {
                avail
            } else {
                need
            };
            let at = match run.lcn {
                Some(l) => {
                    if ro > i64::MAX as u64 {
                        return Err(33);
                    }
                    match l.checked_add(ro as i64) {
                        Some(v) => Some(v),
                        None => return Err(33),
                    }
                },
                None => None,
            };
            let slice = UnitSlice { lcn: at, cluster_count: take };
            let ghost before = slices@;
            slices.push(slice);
            proof {
                let next = if ro + take >= run.cluster_count {
                    ((ri + 1) as nat, 0nat)
                } else {
                    (ri as nat, (ro + take) as nat)
                };
                match gather(runs@, next.0, next.1, (need - take) as nat) {
                    Ok((s2, a, b, g)) => {
                        assert(before + (seq![slice] + s2) =~= slices@ + s2);
                    },
                    Err(_) => {},
                }
            }
            got = got + take;
            need = need - take;
            if ro + take >= run.cluster_count {
                ri = ri + 1;
                ro = 0;
            } else {
                ro = ro + take;
            }
        }
    }
    proof {
        assert(slices@ + Seq::<UnitSlice>::empty() =~= slices@);
    }
    Ok((slices, ri, ro, got))
}

fn physical_cluster_count(s: &Vec<UnitSlice>) -> (n: u64)
    requires
        total_clusters(s@) <= 256,
    ensures
        n == physical_clusters(s@),
{
    let mut n: u64 = 0;
    let ghost mut t: nat = 0;
    let mut k: usize = 0;
    assert(s@.subrange(0, s@.len() as int) =~= s@);
    while k < s.len()
        invariant
            k <= s@.len(),
            total_clusters(s@) <= 256,
            physical_clusters(s@) == n + physical_clusters(s@.subrange(k as int, s@.len() as int)),
            total_clusters(s@) == t + total_clusters(s@.subrange(k as int, s@.len() as int)),
            n <= t,
        decreases s@.len() - k,
    {
        assert(s@.subrange(k as int, s@.len() as int).drop_first() =~= s@.subrange(k + 1, s@.len() as int));
        assert(s@.subrange(k as int, s@.len() as int)[0] == s@[k as int]);
        proof {
            t = t + s@[k as int].cluster_count as nat;
        }
        if s[k].lcn.is_some() {
            n = n + s[k].cluster_count;
        }
        k = k + 1;
    }
    n
}

/// `r` with `prefix` in front of its extents.
pub open spec fn extents_after(prefix: Seq<Extent>, r: Result<Option<Seq<Extent>>, i32>) -> Result<Option<Seq<Extent>>, i32> {
    match r {
        Ok(Some(rest)) => Ok(Some(prefix + rest)),
        other => other,
    }
}

fn slice_extents(s: &Vec<UnitSlice>, cs: u64, image_len: usize) -> (r: Result<Option<Vec<Extent>>, i32>)
    ensures
        match (r, unit_extents(s@, cs as nat, image_len as nat)) {
            (Ok(Some(e)), Ok(Some(se))) => e@ == se,
            (Ok(None), Ok(None)) => true,
            (Err(x), Err(y)) => x == y,
            _ => false,
        },
{
    let ghost whole = unit_extents(s@, cs as nat, image_len as nat);
    let mut out: Vec<Extent> = Vec::new();
    let mut k: usize = 0;
    assert(s@.subrange(0, s@.len() as int) =~= s@);
    proof {
        match whole {
            Ok(Some(rest)) => {
                assert(out@ + rest =~= rest);
            },
            _ => {},
        }
    }
    while k < s.len()
        invariant
            k <= s@.len(),
            whole == unit_extents(s@, cs as nat, image_len as nat),
            whole == extents_after(out@, unit_extents(s@.subrange(k as int, s@.len() as int), cs as nat, image_len as nat)),
        decreases s@.len() - k,
    {
        let ghost tail = s@.subrange(k as int, s@.len() as int);
        assert(tail.drop_first() =~= s@.subrange(k + 1, s@.len() as int));
        assert(tail[0] == s@[k as int]);
        let x = s[k];
        match x.lcn {
            None => {},
            Some(l) => {
                if l < 0 {
                    return Ok(None);
                }
                let offset = match (l as u64).checked_mul(cs) {
                    Some(o) => o,
                    None => return Err(33),
                };
                let length = match x.cluster_count.checked_mul(cs) {
                    Some(n) => n,
                    None => return Err(33),
                };
                if offset > image_len as u64 || length > image_len as u64 - offset {
                    return Ok(None);
                }
                let e = Extent { offset, length };
                let ghost before = out@;
                out.push(e);
                proof {
                    match unit_extents(s@.subrange(k + 1, s@.len() as int), cs as nat, image_len as nat) {
                        Ok(Some(rest)) => {
                            assert(before + (seq![e] + rest) =~= out@ + rest);
                        },
                        _ => {},
                    }
                }
            },
        }
        k = k + 1;
    }
    assert(out@ + Seq::<Extent>::empty() =~= out@);
    Ok(Some(out))
}

fn prefix_of_extents(e: &Vec<Extent>, n: u64) -> (r: Vec<Extent>)
    ensures
        r@ == extents_prefix(e@, n as nat),
{
    let mut out: Vec<Extent> = Vec::new();
    let mut k: usize = 0;
    let mut left = n;
    assert(e@.subrange(0, e@.len() as int) =~= e@);
    assert(out@ + extents_prefix(e@, n as nat) =~= extents_prefix(e@, n as nat));
    while k < e.len() && left > 0
        invariant
            k <= e@.len(),
            extents_prefix(e@, n as nat) == out@ + extents_prefix(e@.subrange(k as int, e@.len() as int), left as nat),
        decreases e@.len() - k,
    {
        let ghost tail = e@.subrange(k as int, e@.len() as int);
        assert(tail.drop_first() =~= e@.subrange(k + 1, e@.len() as int));
        assert(tail[0] == e@[k as int]);
        let x = e[k];
        if x.length >= left {
            let ghost before = out@;
            out.push(Extent { offset: x.offset, length: left });
            assert(before + seq![Extent { offset: x.offset, length: left }] =~= out@);
            assert(out@ + extents_prefix(e@.subrange(k + 1, e@.len() as int), 0) =~= out@);
            left = 0;
        } else {
            let ghost before = out@;
            out.push(x);
            assert(before + (seq![x] + extents_prefix(e@.subrange(k + 1, e@.len() as int), (left - x.length) as nat))
                =~= out@ + extents_prefix(e@.subrange(k + 1, e@.len() as int), (left - x.length) as nat));
            left = left - x.length;
        }
        k = k + 1;
    }
    assert(out@ + Seq::<Extent>::empty() =~= out@);
    out
}

/// The views of units.
pub open spec fn unit_views(v: Seq<CompressionUnit>) -> Seq<CompressionUnitView> {
    Seq::new(v.len(), |i: int| v[i]@)
}

/// `r` with `prefix` in front of its units.
pub open spec fn units_after(prefix: Seq<CompressionUnitView>, r: (Seq<CompressionUnitView>, UnitPlanEnd)) -> (
    Seq<CompressionUnitView>,
    UnitPlanEnd,
) {
    (prefix + r.0, r.1)
}

/// The plan of a compressed stream's units and how it ends.
#[derive(Debug, Clone)]
pub struct CompressedPlan {
    pub units: Vec<CompressionUnit>,
    pub end: UnitPlanEnd,
}

/// The plan for a compressed non-resident stream: `Err(32)` for a zero
/// cluster size, `Err(45)` (unsupported compression) for a unit exponent
/// above 8, `Err(33)` when a unit's size overflows; else its units (see
/// `plan_units`).
pub open spec fn compressed_stream_plan(img_len: nat, cs: nat, nr: NonResidentView) -> Result<
    (Seq<CompressionUnitView>, UnitPlanEnd),
    i32,
> {
    if cs == 0 {
        Err(32)
    } else if nr.compression_unit_size > NTFS_MAX_REASONABLE_COMPRESSION_UNIT_EXPONENT {
        Err(45)
    } else {
        let unit_clusters = pow2_nat(nr.compression_unit_size as nat);
        let unit_bytes = unit_clusters * cs;
        if unit_bytes > u64::MAX {
            Err(33)
        } else {
            Ok(plan_units(img_len, cs, unit_clusters, unit_bytes, nr.data_runs, 0, 0, nr.data_size as nat))
        }
    }
}

/// Plans the recovery of a compressed non-resident stream (see
/// `compressed_stream_plan`); the diagnostics flag unsupported compression.
pub fn plan_compressed_stream(image_len: usize, cluster_size: u32, attribute: &NonResidentAttribute) -> (r: (
    Result<CompressedPlan, i32>,
    u32,
))
    ensures
        match (r.0, compressed_stream_plan(image_len as nat, cluster_size as nat, attribute@)) {
            (Ok(p), Ok((units, end))) => unit_views(p.units@) == units && p.end == end,
            (Err(x), Err(y)) => x == y,
            _ => false,
        },
        r.1 == if r.0 == Err::<CompressedPlan, i32>(45) { RECOVERY_DIAG_UNSUPPORTED_COMPRESSED } else { 0 },
{
    if cluster_size == 0 {
        return (Err(32), 0);
    }
    let cs = cluster_size as u64;
    let unit_clusters = match compression_unit_cluster_count(attribute.compression_unit_size) {
        Some(u) => u,
        None => return (Err(45), RECOVERY_DIAG_UNSUPPORTED_COMPRESSED),
    };
    let unit_bytes = match unit_clusters.checked_mul(cs) {
        Some(b) => b,
        None => return (Err(33), 0),
    };
    assert(unit_bytes >= 1) by (nonlinear_arith)
        requires
            unit_bytes == unit_clusters * cs,
            unit_clusters >= 1,
            cs >= 1,
    ;
    let runs = &attribute.data_runs;
    let ghost whole = plan_units(image_len as nat, cs as nat, unit_clusters as nat, unit_bytes as nat, runs@, 0, 0, attribute.data_size as nat);
    let mut units: Vec<CompressionUnit> = Vec::new();
    let mut ri: usize = 0;
    let mut ro: u64 = 0;
    let mut rem = attribute.data_size;
    assert(unit_views(units@) + whole.0 =~= whole.0);
    while rem > 0
        invariant
            compressed_stream_plan(image_len as nat, cluster_size as nat, attribute@) == Ok::<(Seq<CompressionUnitView>, UnitPlanEnd), i32>(whole),
            1 <= unit_clusters <= 256,
            unit_bytes == unit_clusters * cs,
            unit_bytes >= 1,
            cs >= 1,
            runs@ == attribute.data_runs@,
            whole == plan_units(image_len as nat, cs as nat, unit_clusters as nat, unit_bytes as nat, runs@, 0, 0, attribute.data_size as nat),
            whole == units_after(unit_views(units@), plan_units(image_len as nat, cs as nat, unit_clusters as nat, unit_bytes as nat, runs@, ri as nat, ro as nat, rem as nat)),
        decreases rem,
    {
        proof {
            lemma_gather_bounds(runs@, ri as nat, ro as nat, unit_clusters as nat);
        }
        let (slices, ri2, ro2, got) = match gather_slices(runs, ri, ro, unit_clusters) {
            Ok(g) => g,
            Err(e) => {
                assert(whole.0 =~= unit_views(units@));
                return (Ok(CompressedPlan { units, end: UnitPlanEnd::Error(e) }), 0);
            },
        };
        if got == 0 {
            assert(whole.0 =~= unit_views(units@));
            return (Ok(CompressedPlan { units, end: UnitPlanEnd::RunsExhausted }), 0);
        }
        let target = if rem < unit_bytes {
            rem
        } else {
            unit_bytes
        };
        let physical = physical_cluster_count(&slices);
        let ghost before = unit_views(units@);
        if physical == 0 {
            units.push(CompressionUnit::Zeros(target));
        } else {
            if physical > usize::MAX as u64 / cs {
                assert(physical * cs > usize::MAX) by (nonlinear_arith)
                    requires
                        physical > usize::MAX as u64 / cs,
                        cs >= 1,
                ;
                assert(whole.0 =~= unit_views(units@));
                return (Ok(CompressedPlan { units, end: UnitPlanEnd::Error(33) }), 0);
            }
            assert(physical * cs <= usize::MAX) by (nonlinear_arith)
                requires
                    physical <= usize::MAX as u64 / cs,
                    cs >= 1,
            ;
            let extents = match slice_extents(&slices, cs, image_len) {
                Err(e) => {
                    assert(whole.0 =~= unit_views(units@));
                    return (Ok(CompressedPlan { units, end: UnitPlanEnd::Error(e) }), 0);
                },
                Ok(None) => {
                    assert(whole.0 =~= unit_views(units@));
                    return (Ok(CompressedPlan { units, end: UnitPlanEnd::Unreadable }), 0);
                },
                Ok(Some(e)) => e,
            };
            if got == physical && physical == unit_clusters {
                units.push(CompressionUnit::Copy(prefix_of_extents(&extents, target)));
            } else {
                units.push(CompressionUnit::Decompress { extents, target, unit_bytes });
            }
        }
        proof {
            let rest = plan_units(image_len as nat, cs as nat, unit_clusters as nat, unit_bytes as nat, runs@, ri2 as nat, ro2 as nat, (rem - target) as nat);
            assert(unit_views(units@) =~= before.push(units@.last()@));
            assert(before + (seq![units@.last()@] + rest.0) =~= unit_views(units@) + rest.0);
        }
        ri = ri2;
        ro = ro2;
        rem = rem - target;
    }
    assert(whole.0 =~= unit_views(units@));
    (Ok(CompressedPlan { units, end: UnitPlanEnd::Complete }), 0)
}

/// What a decompressed unit yields toward the `target` bytes it owes: the
/// bytes written (its length, cut to the target) and whether it falls short
/// (then the stream is partial and stops).
pub fn decompressed_unit_outcome(decompressed_len: usize, target: u64) -> (r: (u64, bool))
    ensures
        r.0 == if (decompressed_len as int) < target { decompressed_len as int } else { target as int },
        r.1 == ((decompressed_len as int) < target),
{
    if (decompressed_len as u64) < target {
        (decompressed_len as u64, true)
    } else {
        (target, false)
    }
}

// ---------------------------------------------------------------------------
// Exporting a compressed stream, unit by unit
// ---------------------------------------------------------------------------

/// Where the export of a compressed stream stands: bytes written, bytes
/// still owed, whether it is partial, whether it has stopped, and the
/// diagnostics raised so far.
#[derive(Debug, Clone, Copy, PartialEq, Eq, Structural)]
pub struct CompressedExport {
    pub written: u64,
    pub remaining: u64,
    pub partial: bool,
    pub stopped: bool,
    pub diagnostics: u32,
}

/// What to write for one compression unit.
#[derive(Debug, Clone, Copy, PartialEq, Eq, Structural)]
pub enum UnitAction {
    /// This many zero bytes.
    WriteZeros(u64),
    /// The bytes of the unit's extents.
    CopyExtents,
    /// The first this many bytes of the decompressed unit.
    WriteDecompressed(u64),
    /// Nothing; the export stops.
    Stop,
}

/// Total length of the extents.
pub open spec fn extents_total(e: Seq<Extent>) -> nat
    decreases e.len(),
{
    if e.len() == 0 {
        0
    } else {
        e[0].length as nat + extents_total(e.drop_first())
    }
}

/// `a + b`, held at `u64::MAX`.
pub open spec fn sat_add(a: u64, b: nat) -> u64 {
    if a + b > u64::MAX {
        u64::MAX
    } else {
        (a + b) as u64
    }
}

/// `a - b`, held at 0.
pub open spec fn sat_sub(a: u64, b: nat) -> u64 {
    if b >= a {
        0
    } else {
        (a - b) as u64
    }
}

/// The export of a stream of `data_size` bytes before its first unit.
pub open spec fn export_begin(data_size: u64) -> CompressedExport {
    CompressedExport { written: 0, remaining: data_size, partial: false, stopped: false, diagnostics: 0 }
}

/// One unit of the export, given, for a compressed unit, the length it
/// decompressed to (`None` when it could not be decompressed): sparse units
/// are written as zeros (diagnosed), stored units copied; a compressed unit
/// that cannot be decompressed stops the export, partial and diagnosed; one
/// that decompresses short of what it owes is written and stops it the
/// same way; otherwise what it owes is written.
pub open spec fn unit_step(s: CompressedExport, u: CompressionUnitView, decompressed_len: Option<usize>) -> (
    CompressedExport,
    UnitAction,
) {
    match u {
        CompressionUnitView::Zeros(n) => (
            CompressedExport {
                written: sat_add(s.written, n as nat),
                remaining: sat_sub(s.remaining, n as nat),
                diagnostics: s.diagnostics | RECOVERY_DIAG_SPARSE_ZERO_FILLED,
                ..s
            },
            UnitAction::WriteZeros(n),
        ),
        CompressionUnitView::Copy(e) => (
            CompressedExport {
                written: sat_add(s.written, extents_total(e)),
                remaining: sat_sub(s.remaining, extents_total(e)),
                ..s
            },
            UnitAction::CopyExtents,
        ),
        CompressionUnitView::Decompress { target, .. } => match decompressed_len {
            None => (
                CompressedExport {
                    partial: true,
                    stopped: true,
                    diagnostics: s.diagnostics | RECOVERY_DIAG_UNSUPPORTED_COMPRESSED,
                    ..s
                },
                UnitAction::Stop,
            ),
            Some(l) => if (l as int) < target {
                (
                    CompressedExport {
                        written: sat_add(s.written, l as nat),
                        remaining: sat_sub(s.remaining, l as nat),
                        partial: true,
                        stopped: true,
                        diagnostics: s.diagnostics | RECOVERY_DIAG_UNSUPPORTED_COMPRESSED,
                    },
                    UnitAction::WriteDecompressed(l as u64),
                )
            } else {
                (
                    CompressedExport {
                        written: sat_add(s.written, target as nat),
                        remaining: sat_sub(s.remaining, target as nat),
                        ..s
                    },
                    UnitAction::WriteDecompressed(target),
                )
            },
        },
    }
}

/// How the export ends once its units are done or it has stopped: the
/// plan's error when it ran to an error; else the bytes written, partial
/// when a unit made it so, when bytes are still owed, or when the plan ran
/// out of runs or met unreadable clusters.
pub open spec fn export_end(end: UnitPlanEnd, s: CompressedExport) -> Result<(u64, bool), i32> {
    if !s.stopped && end is Error {
        Err(end->Error_0)
    } else {
        Ok(
            (
                s.written,
                s.partial || s.remaining > 0 || (!s.stopped && (end == UnitPlanEnd::RunsExhausted || end
                    == UnitPlanEnd::Unreadable)),
            ),
        )
    }
}

/// Starts the export of a compressed stream of `data_size` bytes.
pub fn begin_compressed_export(data_size: u64) -> (s: CompressedExport)
    ensures
        s == export_begin(data_size),
{
    CompressedExport { written: 0, remaining: data_size, partial: false, stopped: false, diagnostics: 0 }
}

proof fn lemma_extents_total_step(e: Seq<Extent>, i: int)
    requires
        0 <= i < e.len(),
    ensures
        extents_total(e.subrange(i, e.len() as int)) == e[i].length + extents_total(e.subrange(i + 1, e.len() as int)),
{
    assert(e.subrange(i, e.len() as int).drop_first() =~= e.subrange(i + 1, e.len() as int));
}

/// Total length of the extents, held at `u64::MAX`.
fn extents_length(e: &Vec<Extent>) -> (n: u64)
    ensures
        n == if extents_total(e@) > u64::MAX { u64::MAX as nat } else { extents_total(e@) },
{
    let mut i: usize = e.len();
    let mut acc: u64 = 0;
    assert(e@.subrange(e@.len() as int, e@.len() as int) =~= Seq::<Extent>::empty());
    while i > 0
        invariant
            i <= e@.len(),
            acc == if extents_total(e@.subrange(i as int, e@.len() as int)) > u64::MAX {
                u64::MAX as nat
            } else {
                extents_total(e@.subrange(i as int, e@.len() as int))
            },
        decreases i,
    {
        proof {
            lemma_extents_total_step(e@, i - 1);
        }
        acc = acc.saturating_add(e[i - 1].length);
        i = i - 1;
    }
    assert(e@.subrange(0, e@.len() as int) =~= e@);
    acc
}

fn saturating_sub_u64(a: u64, b: u64) -> (r: u64)
    ensures
        r == sat_sub(a, b as nat),
{
    if b >= a {
        0
    } else {
        a - b
    }
}

/// One unit of a compressed stream's export (see `unit_step`).
pub fn compressed_unit_step(state: CompressedExport, unit: &CompressionUnit, decompressed_len: Option<usize>) -> (r: (
    CompressedExport,
    UnitAction,
))
    ensures
        r == unit_step(state, unit@, decompressed_len),
{
    match unit {
        CompressionUnit::Zeros(n) => (
            CompressedExport {
                written: state.written.saturating_add(*n),
                remaining: saturating_sub_u64(state.remaining, *n),
                diagnostics: state.diagnostics | RECOVERY_DIAG_SPARSE_ZERO_FILLED,
                ..state
            },
            UnitAction::WriteZeros(*n),
        ),
        CompressionUnit::Copy(extents) => {
            let n = extents_length(extents);
            (
                CompressedExport {
                    written: state.written.saturating_add(n),
                    remaining: saturating_sub_u64(state.remaining, n),
                    ..state
                },
                UnitAction::CopyExtents,
            )
        },
        CompressionUnit::Decompress { target, .. } => match decompressed_len {
            None => (
                CompressedExport {
                    partial: true,
                    stopped: true,
                    diagnostics: state.diagnostics | RECOVERY_DIAG_UNSUPPORTED_COMPRESSED,
                    ..state
                },
                UnitAction::Stop,
            ),
            Some(l) => {
                let (take, short) = decompressed_unit_outcome(l, *target);
                if short {
                    (
                        CompressedExport {
                            written: state.written.saturating_add(take),
                            remaining: saturating_sub_u64(state.remaining, take),
                            partial: true,
                            stopped: true,
                            diagnostics: state.diagnostics | RECOVERY_DIAG_UNSUPPORTED_COMPRESSED,
                        },
                        UnitAction::WriteDecompressed(take),
                    )
                } else {
                    (
                        CompressedExport {
                            written: state.written.saturating_add(take),
                            remaining: saturating_sub_u64(state.remaining, take),
                            ..state
                        },
                        UnitAction::WriteDecompressed(take),
                    )
                }
            },
        },
    }
}

/// How a compressed stream's export ends (see `export_end`).
pub fn compressed_stream_end(end: UnitPlanEnd, state: CompressedExport) -> (r: Result<(u64, bool), i32>)
    ensures
        r == export_end(end, state),
{
    if !state.stopped {
        if let UnitPlanEnd::Error(status) = end {
            return Err(status);
        }
    }
    let ran_short = !state.stopped && (end == UnitPlanEnd::RunsExhausted || end == UnitPlanEnd::Unreadable);
    Ok((state.written, state.partial || state.remaining > 0 || ran_short))
}

/// Bytes a unit owes.
pub open spec fn unit_size(u: CompressionUnitView) -> nat {
    match u {
        CompressionUnitView::Zeros(n) => n as nat,
        CompressionUnitView::Copy(e) => extents_total(e),
        CompressionUnitView::Decompress { target, .. } => target as nat,
    }
}

/// Bytes the units owe together.
pub open spec fn units_size(us: Seq<CompressionUnitView>) -> nat
    decreases us.len(),
{
    if us.len() == 0 {
        0
    } else {
        unit_size(us[0]) + units_size(us.drop_first())
    }
}

/// The export after the units `us`, the `k`-th compressed one decompressing
/// to `outs[k]`, stopping where a unit stops it.
pub open spec fn run_units(s: CompressedExport, us: Seq<CompressionUnitView>, outs: Seq<Option<usize>>) -> CompressedExport
    decreases us.len(),
{
    if us.len() == 0 || s.stopped {
        s
    } else {
        run_units(unit_step(s, us[0], outs[0]).0, us.drop_first(), outs.drop_first())
    }
}

proof fn lemma_extents_prefix_total(e: Seq<Extent>, n: nat)
    ensures
        extents_total(extents_prefix(e, n)) <= n,
    decreases e.len(),
{
    if e.len() == 0 || n == 0 {
    } else if e[0].length >= n {
        let p = extents_prefix(e, n);
        assert(p.drop_first() =~= Seq::<Extent>::empty());
        assert(p[0].length == n);
        assert(extents_total(p.drop_first()) == 0);
        assert(extents_total(p) == p[0].length + extents_total(p.drop_first()));
    } else {
        lemma_extents_prefix_total(e.drop_first(), (n - e[0].length) as nat);
        let p = extents_prefix(e, n);
        assert(p.drop_first() =~= extents_prefix(e.drop_first(), (n - e[0].length) as nat));
        assert(p[0] == e[0]);
        assert(extents_total(p) == p[0].length + extents_total(p.drop_first()));
    }
}

proof fn lemma_units_size_cons(u: CompressionUnitView, rest: Seq<CompressionUnitView>)
    ensures
        units_size(seq![u] + rest) == unit_size(u) + units_size(rest),
{
    assert((seq![u] + rest).drop_first() =~= rest);
}

proof fn lemma_plan_units_size(
    img_len: nat,
    cs: nat,
    unit_clusters: nat,
    unit_bytes: nat,
    runs: Seq<DataRun>,
    ri: nat,
    ro: nat,
    rem: nat,
)
    requires
        rem <= u64::MAX,
    ensures
        units_size(plan_units(img_len, cs, unit_clusters, unit_bytes, runs, ri, ro, rem).0) <= rem,
    decreases rem,
{
    if rem == 0 || unit_bytes == 0 {
    } else {
        match gather(runs, ri, ro, unit_clusters) {
            Err(e) => {},
            Ok((slices, ri2, ro2, got)) => if got != 0 {
                let target = min_of(rem, unit_bytes);
                let phys = physical_clusters(slices);
                let rest = plan_units(img_len, cs, unit_clusters, unit_bytes, runs, ri2, ro2, (rem - target) as nat);
                if phys == 0 {
                    lemma_plan_units_size(img_len, cs, unit_clusters, unit_bytes, runs, ri2, ro2, (rem - target) as nat);
                    lemma_units_size_cons(CompressionUnitView::Zeros(target as u64), rest.0);
                } else if phys * cs > usize::MAX {
                } else {
                    match unit_extents(slices, cs, img_len) {
                        Ok(Some(ex)) => {
                            lemma_plan_units_size(img_len, cs, unit_clusters, unit_bytes, runs, ri2, ro2, (rem - target) as nat);
                            let unit = if got == phys && phys == unit_clusters {
                                CompressionUnitView::Copy(extents_prefix(ex, target))
                            } else {
                                CompressionUnitView::Decompress {
                                    extents: ex,
                                    target: target as u64,
                                    unit_bytes: unit_bytes as u64,
                                }
                            };
                            lemma_extents_prefix_total(ex, target);
                            lemma_units_size_cons(unit, rest.0);
                        },
                        _ => {},
                    }
                }
            },
        }
    }
}

proof fn lemma_run_units_balance(s: CompressedExport, us: Seq<CompressionUnitView>, outs: Seq<Option<usize>>, d: nat)
    requires
        s.written + s.remaining == d,
        d <= u64::MAX,
        units_size(us) <= s.remaining,
    ensures
        run_units(s, us, outs).written + run_units(s, us, outs).remaining == d,
    decreases us.len(),
{
    if us.len() > 0 && !s.stopped {
        let n = unit_step(s, us[0], outs[0]).0;
        assert(unit_size(us[0]) + units_size(us.drop_first()) <= s.remaining);
        match us[0] {
            CompressionUnitView::Decompress { target, .. } => match outs[0] {
                Some(l) => {
                    if (l as int) < target {
                        assert(n.written == s.written + l && n.remaining == s.remaining - l);
                    }
                },
                None => {},
            },
            _ => {},
        }
        assert(n.written + n.remaining == d && units_size(us.drop_first()) <= n.remaining);
        lemma_run_units_balance(n, us.drop_first(), outs.drop_first(), d);
    }
}

/// Whatever each compressed unit decompresses to, exporting a compressed
/// stream's plan writes at most the stream's data size, and an export that
/// writes fewer bytes than that is partial (or fails with the plan's error).
pub proof fn law_compressed_export_within_data_size(
    img_len: nat,
    cs: nat,
    nr: NonResidentView,
    outs: Seq<Option<usize>>,
)
    requires
        compressed_stream_plan(img_len, cs, nr) is Ok,
    ensures
        ({
            let plan = compressed_stream_plan(img_len, cs, nr)->Ok_0;
            let s = run_units(export_begin(nr.data_size), plan.0, outs);
            &&& s.written <= nr.data_size
            &&& export_end(plan.1, s) matches Ok((w, p)) ==> w == s.written && (w < nr.data_size ==> p)
        }),
{
    let plan = compressed_stream_plan(img_len, cs, nr)->Ok_0;
    let unit_clusters = pow2_nat(nr.compression_unit_size as nat);
    let unit_bytes = unit_clusters * cs;
    lemma_plan_units_size(img_len, cs, unit_clusters, unit_bytes, nr.data_runs, 0, 0, nr.data_size as nat);
    lemma_run_units_balance(export_begin(nr.data_size), plan.0, outs, nr.data_size as nat);
}

/// What has come of a record's data streams so far: bytes written, whether
/// the recovery is partial, streams exported (named ones among them) and
/// named streams skipped.
#[derive(Debug, Clone, Copy, PartialEq, Eq, Structural)]
pub struct StreamTally {
    pub total_written: u64,
    pub partial: bool,
    pub exported: usize,
    pub exported_named: usize,
    pub skipped_named: usize,
}

/// `n + 1`, held at `usize::MAX`.
pub open spec fn sat_inc(n: usize) -> usize {
    if n == usize::MAX {
        n
    } else {
        (n + 1) as usize
    }
}

/// The tally after one more stream: `outcome` is the bytes a stream wrote
/// and whether it is partial, or `None` for a named stream that could not
/// be exported (skipped, which makes the recovery partial).
pub open spec fn tally_after(t: StreamTally, named: bool, outcome: Option<(u64, bool)>) -> StreamTally {
    match outcome {
        Some((w, p)) => StreamTally {
            total_written: sat_add(t.total_written, w as nat),
            partial: t.partial || p,
            exported: sat_inc(t.exported),
            exported_named: if named { sat_inc(t.exported_named) } else { t.exported_named },
            skipped_named: t.skipped_named,
        },
        None => StreamTally {
            partial: true,
            skipped_named: if named { sat_inc(t.skipped_named) } else { t.skipped_named },
            ..t
        },
    }
}

/// The tally before any stream, partial as `start_stream_export` says.
pub fn begin_stream_tally(partial: bool) -> (t: StreamTally)
    ensures
        t == (StreamTally { total_written: 0, partial, exported: 0, exported_named: 0, skipped_named: 0 }),
{
    StreamTally { total_written: 0, partial, exported: 0, exported_named: 0, skipped_named: 0 }
}

/// Counts one more stream in the tally (see `tally_after`).
pub fn tally_stream(t: StreamTally, named: bool, outcome: Option<(u64, bool)>) -> (r: StreamTally)
    ensures
        r == tally_after(t, named, outcome),
{
    match outcome {
        Some((w, p)) => StreamTally {
            total_written: t.total_written.saturating_add(w),
            partial: t.partial || p,
            exported: t.exported.saturating_add(1),
            exported_named: if named {
                t.exported_named.saturating_add(1)
            } else {
                t.exported_named
            },
            skipped_named: t.skipped_named,
        },
        None => StreamTally {
            partial: true,
            skipped_named: if named {
                t.skipped_named.saturating_add(1)
            } else {
                t.skipped_named
            },
            ..t
        },
    }
}

proof fn lemma_written_cons(x: DataWrite, w: Seq<DataWrite>)
    ensures
        written(seq![x] + w) == write_len(x) + written(w),
{
    lemma_written_concat(seq![x], w);
    lemma_written_push(Seq::<DataWrite>::empty(), x);
    assert(Seq::<DataWrite>::empty().push(x) =~= seq![x]);
}

proof fn lemma_zero_chunks_written(n: nat)
    ensures
        written(zero_chunks(n)) == n,
    decreases n,
{
    if n > 0 {
        let c = min_of(n, ZERO_CHUNK_BYTES as nat);
        lemma_zero_chunks_written((n - c) as nat);
        lemma_written_cons(DataWrite::Zeros(c as usize), zero_chunks((n - c) as nat));
    }
}

proof fn lemma_copy_chunks_written(img_len: nat, src: nat, copied: nat, total: nat)
    requires
        copied <= total,
    ensures
        copy_chunks(img_len, src, copied, total) matches Ok((w, f)) ==> written(w) <= total - copied && (!f
            ==> written(w) == total - copied),
    decreases total - copied,
{
    if copied < total {
        let c = min_of((total - copied) as nat, COPY_CHUNK_BYTES as nat);
        let off = src + copied;
        if off <= u64::MAX && inside(img_len, off as int, c as int) {
            lemma_copy_chunks_written(img_len, src, copied + c, total);
            match copy_chunks(img_len, src, copied + c, total) {
                Ok((w, f)) => {
                    lemma_written_cons(DataWrite::Image(off as u64, c as usize), w);
                },
                Err(_) => {},
            }
        }
    }
}

proof fn lemma_run_writes_written(img_len: nat, cs: nat, runs: Seq<DataRun>, k: nat, rem: nat)
    ensures
        run_writes(img_len, cs, runs, k, rem) matches Ok((w, p, _sp, r)) ==> written(w) <= rem && r <= rem && (!p
            ==> written(w) + r == rem),
    decreases runs.len() - k,
{
    if !(k >= runs.len() || rem == 0) {
        let run = runs[k as int];
        let run_bytes = run.cluster_count * cs;
        if run_bytes <= u64::MAX {
            let tp = min_of(run_bytes as nat, rem);
            if tp == 0 {
                lemma_run_writes_written(img_len, cs, runs, k + 1, rem);
            } else {
                lemma_run_writes_written(img_len, cs, runs, k + 1, (rem - tp) as nat);
                match run.lcn {
                    None => {
                        lemma_zero_chunks_written(tp);
                        match run_writes(img_len, cs, runs, k + 1, (rem - tp) as nat) {
                            Ok((w, p, sp, r)) => lemma_written_concat(zero_chunks(tp), w),
                            Err(_) => {},
                        }
                    },
                    Some(l) => if l >= 0 && l * cs <= u64::MAX {
                        let at = (l * cs) as nat;
                        lemma_copy_chunks_written(img_len, at, 0, tp);
                        match copy_chunks(img_len, at, 0, tp) {
                            Ok((cw, failed)) => if !failed {
                                match run_writes(img_len, cs, runs, k + 1, (rem - tp) as nat) {
                                    Ok((w, p, sp, r)) => lemma_written_concat(cw, w),
                                    Err(_) => {},
                                }
                            },
                            Err(_) => {},
                        }
                    },
                }
            }
        }
    }
}

/// The writes that recover a non-resident attribute never produce more
/// bytes than its data size (cluster slack past the data is never written),
/// and produce exactly the data size unless the recovery is partial.
pub proof fn law_non_resident_writes_within_data_size(img_len: nat, cs: nat, runs: Seq<DataRun>, size: nat)
    requires
        non_resident_recovery(img_len, cs, runs, size) is Ok,
    ensures
        ({
            let (w, partial, _sparse) = non_resident_recovery(img_len, cs, runs, size)->Ok_0;
            &&& written(w) <= size
            &&& !partial ==> written(w) == size
        }),
{
    lemma_run_writes_written(img_len, cs, runs, 0, size);
}

/// A non-resident data stream recovered by its runs writes at most its data
/// size, and exactly its data size unless the plan says it is partial.
pub proof fn law_stream_writes_within_data_size(img_len: nat, cs: nat, a: AttributeView)
    requires
        a.form is NonResident,
        stream_recovery(img_len, cs, a).0 matches Ok((StreamPlanView::Writes(_), _)),
    ensures
        ({
            let n = a.form->NonResident_0;
            let (plan, partial) = stream_recovery(img_len, cs, a).0->Ok_0;
            let w = plan->Writes_0;
            &&& written(w) <= n.data_size
            &&& !partial ==> written(w) == n.data_size
        }),
{
    let n = a.form->NonResident_0;
    law_non_resident_writes_within_data_size(img_len, cs, n.data_runs, n.data_size as nat);
}

} // verus!
