//! Virtual RAID volumes: checking the member sources, finding the array's
//! layout in their prefixes, sizing the logical volume, and saying which
//! member bytes make up each piece of it.
use vstd::prelude::*;
use crate::raid::{
    detected_layout, map_logical_offset, overridden, raid_mapping, resolve_layout_with_override, RaidError, RaidLayout,
    RaidLayoutView, RaidLevel, RaidManualOverride, RaidManualOverrideView,
};
use crate::records::{
    map_raid_error_to_status, raid_error_status, RAID_LAYOUT_MAX_MEMBERS, RAID_STATUS_INVALID_LAYOUT,
    RAID_STATUS_UNSUPPORTED_LAYOUT,
};

verus! {

/// No member's prefix holds a layout.
pub const RAID_STATUS_NO_LAYOUT: i32 = 140;
/// Smallest piece copied at once when assembling a volume.
pub const RAID_ASSEMBLY_MIN_CHUNK: u64 = 4096;
/// Largest piece copied at once when assembling a volume.
pub const RAID_ASSEMBLY_MAX_CHUNK: u64 = 1048576;

/// Whether no value occurs twice in `ids`.
pub open spec fn distinct_ids(ids: Seq<u64>) -> bool {
    forall|i: int, j: int| 0 <= i < j < ids.len() ==> ids[i] != ids[j]
}

/// Checks the member sources of a virtual array: from 2 to 32 of them, no
/// source twice; `Err(142)` otherwise.
pub fn validate_virtual_raid_members(member_session_ids: &[u64]) -> (r: Result<(), i32>)
    ensures
        r == (if 2 <= member_session_ids@.len() <= RAID_LAYOUT_MAX_MEMBERS && distinct_ids(member_session_ids@) {
            Ok::<(), i32>(())
        } else {
            Err(RAID_STATUS_INVALID_LAYOUT)
        }),
{
    let n = member_session_ids.len();
    if n < 2 || n > RAID_LAYOUT_MAX_MEMBERS {
        return Err(RAID_STATUS_INVALID_LAYOUT);
    }
    let mut j: usize = 1;
    while j < n
        invariant
            n == member_session_ids@.len(),
            1 <= j <= n,
            forall|a: int, b: int| 0 <= a < b < j ==> member_session_ids@[a] != member_session_ids@[b],
        decreases n - j,
    {
        let mut i: usize = 0;
        while i < j
            invariant
                n == member_session_ids@.len(),
                i <= j < n,
                forall|a: int| 0 <= a < i ==> member_session_ids@[a] != member_session_ids@[j as int],
            decreases j - i,
        {
            if member_session_ids[i] == member_session_ids[j] {
                return Err(RAID_STATUS_INVALID_LAYOUT);
            }
            i = i + 1;
        }
        j = j + 1;
    }
    Ok(())
}

/// The override as a view.
pub open spec fn override_view(o: Option<&RaidManualOverride>) -> Option<RaidManualOverrideView> {
    match o {
        Some(v) => Some(v@),
        None => None,
    }
}

/// The layout that prefix `b` holds, with the override applied.
pub open spec fn resolved_layout(b: Seq<u8>, o: Option<RaidManualOverrideView>) -> Result<Option<RaidLayoutView>, RaidError> {
    match detected_layout(b) {
        Ok(Some(base)) => match o {
            Some(ov) => match overridden(base, ov) {
                Ok(v) => Ok(Some(v)),
                Err(e) => Err(e),
            },
            None => Ok(Some(base)),
        },
        other => other,
    }
}

/// What one member's prefix says of the array: nothing for a prefix
/// shorter than 4 KiB or without a layout; else its layout with the
/// override applied, or the status of why that failed.
pub fn virtual_raid_layout_from_prefix(image: &[u8], override_cfg: Option<&RaidManualOverride>) -> (r: Result<
    Option<RaidLayout>,
    i32,
>)
    ensures
        image@.len() < 4096 ==> r matches Ok(None),
        image@.len() >= 4096 ==> match (r, resolved_layout(image@, override_view(override_cfg))) {
            (Ok(Some(l)), Ok(Some(v))) => l@ == v,
            (Ok(None), Ok(None)) => true,
            (Err(c), Err(e)) => c == raid_error_status(e, override_cfg is Some),
            _ => false,
        },
{
    if image.len() < 4096 {
        return Ok(None);
    }
    match resolve_layout_with_override(image, override_cfg) {
        Ok(found) => Ok(found),
        Err(err) => Err(map_raid_error_to_status(&err, override_cfg.is_some())),
    }
}

/// The layout that a source's prefix holds: 31 for a prefix shorter than
/// 4 KiB, 140 when it holds none, else its layout with the override
/// applied, or the status of why that failed.
pub fn probe_raid_layout(image: &[u8], override_cfg: Option<&RaidManualOverride>) -> (r: Result<RaidLayout, i32>)
    ensures
        image@.len() < 4096 ==> r matches Err(31i32),
        image@.len() >= 4096 ==> match (r, resolved_layout(image@, override_view(override_cfg))) {
            (Ok(l), Ok(Some(v))) => l@ == v,
            (Err(c), Ok(None)) => c == RAID_STATUS_NO_LAYOUT,
            (Err(c), Err(e)) => c == raid_error_status(e, override_cfg is Some),
            _ => false,
        },
{
    if image.len() < 4096 {
        return Err(31);
    }
    match resolve_layout_with_override(image, override_cfg) {
        Ok(Some(layout)) => Ok(layout),
        Ok(None) => Err(RAID_STATUS_NO_LAYOUT),
        Err(err) => Err(map_raid_error_to_status(&err, override_cfg.is_some())),
    }
}

/// The layout found among the members' prefixes: `Err(140)` when none
/// held one, `Err(141)` when it names another number of members.
pub fn finish_virtual_raid_layout(detected: Option<RaidLayout>, member_count: usize) -> (r: Result<RaidLayout, i32>)
    ensures
        match detected {
            None => r == Err::<RaidLayout, i32>(RAID_STATUS_NO_LAYOUT),
            Some(l) => if l.member_count != member_count {
                r == Err::<RaidLayout, i32>(RAID_STATUS_UNSUPPORTED_LAYOUT)
            } else {
                r matches Ok(x) && x@ == l@
            },
        },
{
    match detected {
        None => Err(RAID_STATUS_NO_LAYOUT),
        Some(layout) => {
            if layout.member_count as usize != member_count {
                Err(RAID_STATUS_UNSUPPORTED_LAYOUT)
            } else {
                Ok(layout)
            }
        },
    }
}

/// The smaller of two naturals.
pub open spec fn smaller(a: nat, b: nat) -> nat {
    if a < b {
        a
    } else {
        b
    }
}

/// The smallest usable size (size past the data offset `d`) of the first
/// `k` members, starting from `u64::MAX`; the first member smaller than
/// `d` gives `BufferTooSmall`.
pub open spec fn usable_upto(sizes: Seq<u64>, d: u64, k: nat) -> Result<nat, RaidError>
    decreases k,
{
    if k == 0 {
        Ok(u64::MAX as nat)
    } else {
        match usable_upto(sizes, d, (k - 1) as nat) {
            Err(e) => Err(e),
            Ok(m) => if sizes[k - 1] < d {
                Err(RaidError::BufferTooSmall { expected: d as usize, actual: sizes[k - 1] as usize })
            } else {
                Ok(smaller(m, (sizes[k - 1] - d) as nat))
            },
        }
    }
}

proof fn lemma_usable_error_stays(sizes: Seq<u64>, d: u64, k: nat, m: nat)
    requires
        k <= m,
        usable_upto(sizes, d, k) is Err,
    ensures
        usable_upto(sizes, d, m) == usable_upto(sizes, d, k),
    decreases m - k,
{
    if k < m {
        lemma_usable_error_stays(sizes, d, k, (m - 1) as nat);
    }
}

/// `a * k` when it fits in 64 bits, else the overflow error named `what`.
pub open spec fn checked_size(a: int, k: int, what: &'static str) -> Result<u64, RaidError> {
    if a * k <= u64::MAX {
        Ok((a * k) as u64)
    } else {
        Err(RaidError::ArithmeticOverflow(what))
    }
}

/// The size of the logical volume of an array with members of `sizes`
/// bytes: each member's usable bytes are the smallest usable size cut down
/// to whole stripes; RAID 0 uses all members, RAID 1 the smallest usable
/// size as it is, RAID 4/5 all members but one, RAID 10 half of them (an
/// even count from four); other levels are not supported.
pub open spec fn logical_size_of(v: RaidLayoutView, sizes: Seq<u64>) -> Result<u64, RaidError> {
    let n = v.member_count as int;
    let s = v.stripe_size_bytes as int;
    if sizes.len() != n {
        Err(RaidError::InvalidMemberCount(v.member_count))
    } else if s == 0 {
        Err(RaidError::InvalidStripeSize(v.stripe_size_bytes))
    } else {
        match usable_upto(sizes, v.data_offset_bytes, sizes.len()) {
            Err(e) => Err(e),
            Ok(m) => {
                let a = m - (m as int) % s;
                match v.level {
                    RaidLevel::Raid0 => checked_size(a, n, "virtual raid0 logical size"),
                    RaidLevel::Raid1 => Ok(m as u64),
                    RaidLevel::Raid4 | RaidLevel::Raid5 => if n <= 1 {
                        Err(RaidError::UnsupportedLayout)
                    } else {
                        checked_size(a, n - 1, "virtual raid parity logical size")
                    },
                    RaidLevel::Raid10 => if n < 4 || n % 2 != 0 {
                        Err(RaidError::UnsupportedLayout)
                    } else {
                        checked_size(a, n / 2, "virtual raid10 logical size")
                    },
                    _ => Err(RaidError::UnsupportedLayout),
                }
            },
        }
    }
}

/// Sizes the logical volume of an array whose members hold `member_sizes`
/// bytes (see `logical_size_of`).
pub fn compute_virtual_raid_logical_size(layout: &RaidLayout, member_sizes: &[u64]) -> (r: Result<u64, RaidError>)
    ensures
        r == logical_size_of(layout@, member_sizes@),
{
    if member_sizes.len() != layout.member_count as usize {
        return Err(RaidError::InvalidMemberCount(layout.member_count));
    }
    let stripe = layout.stripe_size_bytes as u64;
    if stripe == 0 {
        return Err(RaidError::InvalidStripeSize(layout.stripe_size_bytes));
    }
    let d = layout.data_offset_bytes;
    let mut min_usable: u64 = u64::MAX;
    let mut k: usize = 0;
    while k < member_sizes.len()
        invariant
            k <= member_sizes@.len(),
            member_sizes@.len() == layout.member_count,
            stripe == layout.stripe_size_bytes,
            stripe != 0,
            d == layout.data_offset_bytes,
            usable_upto(member_sizes@, d, k as nat) == Ok::<nat, RaidError>(min_usable as nat),
        decreases member_sizes@.len() - k,
    {
        let size = member_sizes[k];
        if size < d {
            proof {
                lemma_usable_error_stays(member_sizes@, d, (k + 1) as nat, member_sizes@.len());
            }
            return Err(RaidError::BufferTooSmall { expected: d as usize, actual: size as usize });
        }
        let usable = size - d;
        if usable < min_usable {
            min_usable = usable;
        }
        k = k + 1;
    }
    assert(min_usable % stripe <= min_usable) by (nonlinear_arith)
        requires
            stripe > 0,
    ;
    let aligned = min_usable - min_usable % stripe;
    let n = layout.member_count as u64;
    match layout.level {
        RaidLevel::Raid0 => match aligned.checked_mul(n) {
            Some(t) => Ok(t),
            None => Err(RaidError::ArithmeticOverflow("virtual raid0 logical size")),
        },
        RaidLevel::Raid1 => Ok(min_usable),
        RaidLevel::Raid4 | RaidLevel::Raid5 => {
            if n <= 1 {
                return Err(RaidError::UnsupportedLayout);
            }
            match aligned.checked_mul(n - 1) {
                Some(t) => Ok(t),
                None => Err(RaidError::ArithmeticOverflow("virtual raid parity logical size")),
            }
        },
        RaidLevel::Raid10 => {
            if n < 4 || n % 2 != 0 {
                return Err(RaidError::UnsupportedLayout);
            }
            match aligned.checked_mul(n / 2) {
                Some(t) => Ok(t),
                None => Err(RaidError::ArithmeticOverflow("virtual raid10 logical size")),
            }
        },
        _ => Err(RaidError::UnsupportedLayout),
    }
}

/// The size of the volume to assemble: the logical size, with its error's
/// status, and `Err(141)` for an empty volume.
pub open spec fn assembly_size_of(v: RaidLayoutView, sizes: Seq<u64>) -> Result<u64, i32> {
    match logical_size_of(v, sizes) {
        Err(e) => Err(raid_error_status(e, false)),
        Ok(0) => Err(RAID_STATUS_UNSUPPORTED_LAYOUT),
        Ok(t) => Ok(t),
    }
}

/// Sizes the volume to assemble (see `assembly_size_of`).
pub fn virtual_raid_assembly_size(layout: &RaidLayout, member_sizes: &[u64]) -> (r: Result<u64, i32>)
    ensures
        r == assembly_size_of(layout@, member_sizes@),
{
    match compute_virtual_raid_logical_size(layout, member_sizes) {
        Err(e) => Err(map_raid_error_to_status(&e, false)),
        Ok(0) => Err(RAID_STATUS_UNSUPPORTED_LAYOUT),
        Ok(t) => Ok(t),
    }
}

/// Bytes copied at once: the stripe size, kept between 4 KiB and 1 MiB.
pub open spec fn assembly_chunk(stripe: u32) -> nat {
    if stripe < RAID_ASSEMBLY_MIN_CHUNK {
        RAID_ASSEMBLY_MIN_CHUNK as nat
    } else if stripe > RAID_ASSEMBLY_MAX_CHUNK {
        RAID_ASSEMBLY_MAX_CHUNK as nat
    } else {
        stripe as nat
    }
}

/// One piece of an assembled volume: `len` bytes at `member_offset_bytes`
/// of the member at `member_position`.
#[derive(Debug, Clone, Copy, PartialEq, Eq, Structural)]
pub struct RaidCopy {
    pub member_position: usize,
    pub member_offset_bytes: u64,
    pub len: usize,
}

/// The piece of a volume of `size` bytes that starts at logical offset
/// `off`: none at or past the end; else as many bytes as are left, at most
/// a chunk, from where the layout maps `off` (its error's status when it
/// cannot; `Err(141)` for a member past the `count` given).
pub open spec fn copy_at(v: RaidLayoutView, count: nat, size: nat, off: nat) -> Result<Option<RaidCopy>, i32> {
    if off >= size {
        Ok(None)
    } else {
        match raid_mapping(v, off as int) {
            Err(e) => Err(raid_error_status(e, false)),
            Ok(m) => if m.member_index >= count {
                Err(RAID_STATUS_UNSUPPORTED_LAYOUT)
            } else {
                Ok(
                    Some(
                        RaidCopy {
                            member_position: m.member_index as usize,
                            member_offset_bytes: m.member_offset_bytes,
                            len: smaller((size - off) as nat, assembly_chunk(v.stripe_size_bytes)) as usize,
                        },
                    ),
                )
            },
        }
    }
}

/// The piece of the volume that starts at `logical_offset` (see
/// `copy_at`); the caller copies it and goes on at `logical_offset + len`.
pub fn virtual_raid_copy_at(layout: &RaidLayout, member_count: usize, logical_size: u64, logical_offset: u64) -> (r: Result<
    Option<RaidCopy>,
    i32,
>)
    ensures
        r == copy_at(layout@, member_count as nat, logical_size as nat, logical_offset as nat),
        r matches Ok(Some(c)) ==> 0 < c.len && logical_offset + c.len <= logical_size,
{
    if logical_offset >= logical_size {
        return Ok(None);
    }
    let mapping = match map_logical_offset(layout, logical_offset) {
        Ok(m) => m,
        Err(e) => return Err(map_raid_error_to_status(&e, false)),
    };
    let position = mapping.member_index as usize;
    if position >= member_count {
        return Err(RAID_STATUS_UNSUPPORTED_LAYOUT);
    }
    let stripe = layout.stripe_size_bytes as u64;
    let chunk = if stripe < RAID_ASSEMBLY_MIN_CHUNK {
        RAID_ASSEMBLY_MIN_CHUNK
    } else if stripe > RAID_ASSEMBLY_MAX_CHUNK {
        RAID_ASSEMBLY_MAX_CHUNK
    } else {
        stripe
    };
    let left = logical_size - logical_offset;
    let len = if left < chunk {
        left
    } else {
        chunk
    };
    Ok(Some(RaidCopy { member_position: position, member_offset_bytes: mapping.member_offset_bytes, len: len as usize }))
}

/// The pieces that assemble a volume of `size` bytes from logical offset
/// `off` on, each starting where the one before ended.
pub open spec fn assembly_plan(v: RaidLayoutView, count: nat, size: nat, off: nat) -> Result<Seq<RaidCopy>, i32>
    decreases size - off,
{
    match copy_at(v, count, size, off) {
        Err(e) => Err(e),
        Ok(None) => Ok(Seq::empty()),
        Ok(Some(c)) => if c.len > 0 && off + c.len <= size {
            match assembly_plan(v, count, size, off + c.len as nat) {
                Err(e) => Err(e),
                Ok(rest) => Ok(seq![c] + rest),
            }
        } else {
            Ok(Seq::empty())
        },
    }
}

/// How many bytes the pieces copy together.
pub open spec fn copied_bytes(p: Seq<RaidCopy>) -> nat
    decreases p.len(),
{
    if p.len() == 0 {
        0
    } else {
        p[0].len as nat + copied_bytes(p.drop_first())
    }
}

/// An assembly that goes through copies exactly the bytes of the volume
/// from where it started: no gap, no overlap, nothing past the end.
pub proof fn law_assembly_covers_volume(v: RaidLayoutView, count: nat, size: nat, off: nat)
    requires
        off <= size,
    ensures
        assembly_plan(v, count, size, off) matches Ok(p) ==> copied_bytes(p) == size - off,
    decreases size - off,
{
    match copy_at(v, count, size, off) {
        Err(_) => {},
        Ok(None) => {},
        Ok(Some(c)) => {
            let n = smaller((size - off) as nat, assembly_chunk(v.stripe_size_bytes));
            assert(n <= RAID_ASSEMBLY_MAX_CHUNK);
            assert(c.len == n);
            law_assembly_covers_volume(v, count, size, off + c.len as nat);
            match assembly_plan(v, count, size, off + c.len as nat) {
                Err(_) => {},
                Ok(rest) => {
                    assert((seq![c] + rest).drop_first() =~= rest);
                },
            }
        },
    }
}

} // verus!
