//! RAID metadata detection, manual overrides, logical-to-member offset
//! mapping and degraded-array assessment.
use vstd::prelude::*;
use vstd::arithmetic::div_mod::{lemma_div_denominator, lemma_div_multiples_vanish_fancy, lemma_mod_breakdown, lemma_mod_mod};
use vstd::arithmetic::power2::{lemma2_to64, lemma2_to64_rest, lemma_pow2_strictly_increases, lemma_pow2_unfold, pow2};
use crate::bytes::{bytes_match_at, is_pow2, is_power_of_two, le32, le64, read_i32_le, read_u32_le, read_u64_le};

verus! {

pub const MD_SUPERBLOCK_V1_OFFSET: usize = 4096;
pub const MD_SUPERBLOCK_V1_SIZE: usize = 4096;
pub const MD_MAGIC: u32 = 0xA92B4EFC;
pub const SPACES_HEADER_OFFSET: usize = 0x200;
/// `"SPACES_RAID"`.
pub const SPACES_SIGNATURE: [u8; 11] = [0x53, 0x50, 0x41, 0x43, 0x45, 0x53, 0x5F, 0x52, 0x41, 0x49, 0x44];
/// `"Intel Raid ISM Cfg Sig."`.
pub const IMSM_SIGNATURE: [u8; 23] = [
    0x49, 0x6E, 0x74, 0x65, 0x6C, 0x20, 0x52, 0x61, 0x69, 0x64, 0x20, 0x49, 0x53, 0x4D, 0x20, 0x43,
    0x66, 0x67, 0x20, 0x53, 0x69, 0x67, 0x2E,
];
/// `"DDF_HDR"`.
pub const DDF_SIGNATURE: [u8; 7] = [0x44, 0x44, 0x46, 0x5F, 0x48, 0x44, 0x52];

/// Which on-disk metadata described the array.
#[derive(Debug, Clone, Copy, PartialEq, Eq, Structural)]
pub enum RaidMetadataFamily {
    LinuxMd,
    WindowsStorageSpaces,
    IntelImsm,
    Ddf,
}

/// RAID level.
#[derive(Debug, Clone, Copy, PartialEq, Eq, Structural)]
pub enum RaidLevel {
    Raid0,
    Raid1,
    Raid4,
    Raid5,
    Raid6,
    Raid10,
    Unknown,
}

/// Placement of parity across stripe sets.
#[derive(Debug, Clone, Copy, PartialEq, Eq, Structural)]
pub enum ParityRotation {
    LeftSymmetric,
    RightSymmetric,
    Unknown,
}

/// Geometry of a RAID array.
#[derive(Debug, Clone)]
pub struct RaidLayout {
    pub metadata_family: RaidMetadataFamily,
    pub level: RaidLevel,
    pub member_count: u32,
    pub stripe_size_bytes: u32,
    pub data_offset_bytes: u64,
    pub parity_rotation: ParityRotation,
    pub disk_order: Vec<u32>,
    pub confidence_score: u8,
}

/// A layout with its disk order as a sequence.
pub struct RaidLayoutView {
    pub metadata_family: RaidMetadataFamily,
    pub level: RaidLevel,
    pub member_count: u32,
    pub stripe_size_bytes: u32,
    pub data_offset_bytes: u64,
    pub parity_rotation: ParityRotation,
    pub disk_order: Seq<u32>,
    pub confidence_score: u8,
}

impl View for RaidLayout {
    type V = RaidLayoutView;

    open spec fn view(&self) -> RaidLayoutView {
        RaidLayoutView {
            metadata_family: self.metadata_family,
            level: self.level,
            member_count: self.member_count,
            stripe_size_bytes: self.stripe_size_bytes,
            data_offset_bytes: self.data_offset_bytes,
            parity_rotation: self.parity_rotation,
            disk_order: self.disk_order@,
            confidence_score: self.confidence_score,
        }
    }
}

/// Fields a user may force; `None` keeps the detected value.
#[derive(Debug, Clone)]
pub struct RaidManualOverride {
    pub level: Option<RaidLevel>,
    pub stripe_size_bytes: Option<u32>,
    pub data_offset_bytes: Option<u64>,
    pub parity_rotation: Option<ParityRotation>,
    pub disk_order: Option<Vec<u32>>,
}

impl Default for RaidManualOverride {
    fn default() -> (r: Self)
        ensures
            r.level is None,
            r.stripe_size_bytes is None,
            r.data_offset_bytes is None,
            r.parity_rotation is None,
            r.disk_order is None,
    {
        RaidManualOverride {
            level: None,
            stripe_size_bytes: None,
            data_offset_bytes: None,
            parity_rotation: None,
            disk_order: None,
        }
    }
}

/// Where a logical byte lives: its member, the byte offset on that member,
/// and the parity (or mirror) member of its stripe when there is one.
#[derive(Debug, Clone, Copy, PartialEq, Eq, Structural)]
pub struct RaidLogicalMapping {
    pub member_index: u32,
    pub member_offset_bytes: u64,
    pub parity_member_index: Option<u32>,
}

/// Sampled recoverability of an array with missing members.
#[derive(Debug, Clone)]
pub struct RaidDegradedAssessment {
    pub missing_member_count: u32,
    pub sample_count: u32,
    pub recoverable_sample_count: u32,
    pub recoverability_percent: u8,
    pub confidence_penalty: u8,
    pub recommendation: String,
}

/// Why detection, an override or a mapping was refused.
#[derive(Debug, Clone, PartialEq, Eq)]
pub enum RaidError {
    BufferTooSmall { expected: usize, actual: usize },
    InvalidMemberCount(u32),
    InvalidStripeSize(u32),
    InvalidDiskOrder,
    ArithmeticOverflow(&'static str),
    UnsupportedLayout,
}

// ---------------------------------------------------------------------------
// Validation helpers
// ---------------------------------------------------------------------------

/// A stripe size is a power of two from 4 KiB to 4 MiB.
pub open spec fn valid_stripe(v: u32) -> bool {
    4096 <= v <= 4194304 && is_pow2(v as nat)
}

/// `order` is a permutation of `0..n`.
pub open spec fn is_disk_order(order: Seq<u32>, n: u32) -> bool {
    &&& order.len() == n
    &&& forall|i: int| 0 <= i < order.len() ==> order[i] < n
    &&& forall|i: int, j: int| 0 <= i < j < order.len() ==> order[i] != order[j]
}

/// Whether `value` is a valid stripe size.
pub fn is_valid_stripe_size(value: u32) -> (b: bool)
    ensures
        b == valid_stripe(value),
{
    value >= 4096 && value <= 4 * 1024 * 1024 && is_power_of_two(value as u64)
}

/// `raw` when it is a valid stripe size, else 64 KiB.
pub open spec fn normalized_stripe(raw: u32) -> u32 {
    if valid_stripe(raw) {
        raw
    } else {
        65536
    }
}

/// Replaces an invalid stripe size by 64 KiB.
pub fn normalize_stripe_size(raw: u32) -> (r: u32)
    ensures
        r == normalized_stripe(raw),
{
    if is_valid_stripe_size(raw) {
        raw
    } else {
        65536
    }
}

/// Checks that `order` is a permutation of `0..member_count`.
pub fn validate_disk_order(order: &[u32], member_count: u32) -> (r: Result<(), RaidError>)
    ensures
        r is Ok <==> is_disk_order(order@, member_count),
        r matches Err(e) ==> e == RaidError::InvalidDiskOrder,
{
    if order.len() != member_count as usize {
        return Err(RaidError::InvalidDiskOrder);
    }
    let mut seen: Vec<bool> = Vec::new();
    let mut k: usize = 0;
    while k < order.len()
        invariant
            k <= order@.len(),
            seen@.len() == k,
            forall|m: int| 0 <= m < k ==> !seen@[m],
        decreases order@.len() - k,
    {
        seen.push(false);
        k = k + 1;
    }
    let mut i: usize = 0;
    while i < order.len()
        invariant
            order@.len() == member_count,
            seen@.len() == member_count,
            i <= order@.len(),
            forall|a: int| 0 <= a < i ==> order@[a] < member_count,
            forall|a: int, b: int| 0 <= a < b < i ==> order@[a] != order@[b],
            forall|v: int| 0 <= v < member_count ==> (seen@[v] <==> exists|a: int| 0 <= a < i && order@[a] == v),
        decreases order@.len() - i,
    {
        let value = order[i];
        if value >= member_count {
            return Err(RaidError::InvalidDiskOrder);
        }
        if seen[value as usize] {
            return Err(RaidError::InvalidDiskOrder);
        }
        let ghost old_seen = seen@;
        seen.set(value as usize, true);
        assert forall|v: int| 0 <= v < member_count implies (seen@[v] <==> exists|a: int|
            0 <= a < i + 1 && order@[a] == v) by {
            if v == value {
                assert(order@[i as int] == v);
            } else {
                assert(seen@[v] == old_seen[v]);
                if exists|a: int| 0 <= a < i + 1 && order@[a] == v {
                    let a = choose|a: int| 0 <= a < i + 1 && order@[a] == v;
                    assert(a < i);
                }
            }
        }
        i = i + 1;
    }
    Ok(())
}

// ---------------------------------------------------------------------------
// Logical offset mapping
// ---------------------------------------------------------------------------

/// Member offset `base + index * stripe + within`, or the overflow error named `what`.
pub open spec fn offset_or_overflow(
    base: int,
    index: int,
    stripe: int,
    within: int,
    what: &'static str,
) -> Result<u64, RaidError> {
    if base + index * stripe + within <= u64::MAX {
        Ok((base + index * stripe + within) as u64)
    } else {
        Err(RaidError::ArithmeticOverflow(what))
    }
}

/// The mapping of logical offset `l` on a layout that passed validation.
pub open spec fn level_mapping(v: RaidLayoutView, l: int) -> Result<RaidLogicalMapping, RaidError> {
    let s = v.stripe_size_bytes as int;
    let n = v.member_count as int;
    let d = v.data_offset_bytes as int;
    let order = v.disk_order;
    match v.level {
        RaidLevel::Raid0 => {
            let sn = l / s;
            match offset_or_overflow(d, sn / n, s, l % s, "raid0 member offset") {
                Ok(off) => Ok(
                    RaidLogicalMapping {
                        member_index: order[sn % n],
                        member_offset_bytes: off,
                        parity_member_index: None,
                    },
                ),
                Err(e) => Err(e),
            }
        },
        RaidLevel::Raid1 => {
            if d + l <= u64::MAX {
                Ok(
                    RaidLogicalMapping {
                        member_index: order[0],
                        member_offset_bytes: (d + l) as u64,
                        parity_member_index: None,
                    },
                )
            } else {
                Err(RaidError::ArithmeticOverflow("raid1 member offset"))
            }
        },
        RaidLevel::Raid4 => {
            let full = s * (n - 1);
            let set = l / full;
            let in_set = l % full;
            match offset_or_overflow(d, set, s, in_set % s, "raid4 member offset") {
                Ok(off) => Ok(
                    RaidLogicalMapping {
                        member_index: order[in_set / s],
                        member_offset_bytes: off,
                        parity_member_index: Some(order[n - 1]),
                    },
                ),
                Err(e) => Err(e),
            }
        },
        RaidLevel::Raid5 => {
            if n < 3 {
                Err(RaidError::UnsupportedLayout)
            } else {
                let full = s * (n - 1);
                let set = l / full;
                let in_set = l % full;
                let pp = match v.parity_rotation {
                    ParityRotation::RightSymmetric => set % n,
                    _ => (n - 1 - set % n) % n,
                };
                match offset_or_overflow(d, set, s, in_set % s, "raid5 member offset") {
                    Ok(off) => Ok(
                        RaidLogicalMapping {
                            member_index: order[(pp + 1 + in_set / s) % n],
                            member_offset_bytes: off,
                            parity_member_index: Some(order[pp]),
                        },
                    ),
                    Err(e) => Err(e),
                }
            }
        },
        RaidLevel::Raid10 => {
            if n < 4 || n % 2 != 0 {
                Err(RaidError::UnsupportedLayout)
            } else {
                let pairs = n / 2;
                let sn = l / s;
                let pair_pos = sn % pairs;
                match offset_or_overflow(d, sn / pairs, s, l % s, "raid10 member offset") {
                    Ok(off) => Ok(
                        RaidLogicalMapping {
                            member_index: order[2 * pair_pos],
                            member_offset_bytes: off,
                            parity_member_index: Some(order[2 * pair_pos + 1]),
                        },
                    ),
                    Err(e) => Err(e),
                }
            }
        },
        _ => Err(RaidError::UnsupportedLayout),
    }
}

/// The mapping of logical offset `l`, after the layout's own checks.
pub open spec fn raid_mapping(v: RaidLayoutView, l: int) -> Result<RaidLogicalMapping, RaidError> {
    if v.member_count < 2 {
        Err(RaidError::InvalidMemberCount(v.member_count))
    } else if !valid_stripe(v.stripe_size_bytes) {
        Err(RaidError::InvalidStripeSize(v.stripe_size_bytes))
    } else if !is_disk_order(v.disk_order, v.member_count) {
        Err(RaidError::InvalidDiskOrder)
    } else {
        level_mapping(v, l)
    }
}

proof fn lemma_div_mod(x: int, d: int)
    requires
        x >= 0,
        d > 0,
    ensures
        x == (x / d) * d + x % d,
        0 <= x % d < d,
        0 <= x / d,
        (x / d) * d <= x,
        x / d <= x,
{
    assert(x == (x / d) * d + x % d && 0 <= x % d < d && 0 <= x / d) by (nonlinear_arith)
        requires
            x >= 0,
            d > 0,
    ;
    assert(x / d <= x) by (nonlinear_arith)
        requires
            x >= 0,
            d > 0,
            x == (x / d) * d + x % d,
            0 <= x / d,
            0 <= x % d,
    ;
}

proof fn lemma_quotient_product_le(q: int, n: int, s: int, x: int)
    requires
        q >= 0,
        n > 0,
        s > 0,
        q * s <= x,
    ensures
        (q / n) * s <= x,
{
    lemma_div_mod(q, n);
    assert((q / n) * s <= q * s) by (nonlinear_arith)
        requires
            q / n <= q,
            s > 0,
            q / n >= 0,
    ;
}

/// Adds `index * stripe + within` to `base`, reporting overflow as `what`.
fn checked_member_offset(base: u64, index: u64, stripe: u64, within: u64, what: &'static str) -> (r: Result<u64, RaidError>)
    requires
        index * stripe <= u64::MAX,
    ensures
        r == offset_or_overflow(base as int, index as int, stripe as int, within as int, what),
{
    let delta = index * stripe;
    match base.checked_add(delta) {
        Some(v) => match v.checked_add(within) {
            Some(w) => Ok(w),
            None => Err(RaidError::ArithmeticOverflow(what)),
        },
        None => Err(RaidError::ArithmeticOverflow(what)),
    }
}

fn map_raid0(layout: &RaidLayout, logical_offset_bytes: u64) -> (r: Result<RaidLogicalMapping, RaidError>)
    requires
        layout.member_count >= 2,
        valid_stripe(layout.stripe_size_bytes),
        is_disk_order(layout.disk_order@, layout.member_count),
        layout.level == RaidLevel::Raid0,
    ensures
        r == level_mapping(layout@, logical_offset_bytes as int),
{
    let stripe = layout.stripe_size_bytes as u64;
    let n = layout.member_count as u64;
    let stripe_number = logical_offset_bytes / stripe;
    let stripe_offset = logical_offset_bytes % stripe;
    let member_position = stripe_number % n;
    let member_stripe_index = stripe_number / n;
    proof {
        lemma_div_mod(logical_offset_bytes as int, stripe as int);
        lemma_quotient_product_le(stripe_number as int, n as int, stripe as int, logical_offset_bytes as int);
        lemma_div_mod(stripe_number as int, n as int);
    }
    let off = checked_member_offset(layout.data_offset_bytes, member_stripe_index, stripe, stripe_offset, "raid0 member offset")?;
    Ok(RaidLogicalMapping {
        member_index: layout.disk_order[member_position as usize],
        member_offset_bytes: off,
        parity_member_index: None,
    })
}

fn map_raid1(layout: &RaidLayout, logical_offset_bytes: u64) -> (r: Result<RaidLogicalMapping, RaidError>)
    requires
        layout.member_count >= 2,
        is_disk_order(layout.disk_order@, layout.member_count),
        layout.level == RaidLevel::Raid1,
    ensures
        r == level_mapping(layout@, logical_offset_bytes as int),
{
    match layout.data_offset_bytes.checked_add(logical_offset_bytes) {
        Some(off) => Ok(RaidLogicalMapping {
            member_index: layout.disk_order[0],
            member_offset_bytes: off,
            parity_member_index: None,
        }),
        None => Err(RaidError::ArithmeticOverflow("raid1 member offset")),
    }
}

fn map_raid4(layout: &RaidLayout, logical_offset_bytes: u64) -> (r: Result<RaidLogicalMapping, RaidError>)
    requires
        layout.member_count >= 2,
        valid_stripe(layout.stripe_size_bytes),
        is_disk_order(layout.disk_order@, layout.member_count),
        layout.level == RaidLevel::Raid4,
    ensures
        r == level_mapping(layout@, logical_offset_bytes as int),
{
    let stripe = layout.stripe_size_bytes as u64;
    let data_disks = (layout.member_count - 1) as u64;
    assert(stripe * data_disks <= 4194304 * 4294967295) by (nonlinear_arith)
        requires
            stripe <= 4194304,
            data_disks <= 4294967295,
    ;
    let full_data_stripe = stripe * data_disks;
    assert(full_data_stripe > 0) by (nonlinear_arith)
        requires
            stripe > 0,
            data_disks > 0,
            full_data_stripe == stripe * data_disks,
    ;
    let stripe_set = logical_offset_bytes / full_data_stripe;
    let in_set = logical_offset_bytes % full_data_stripe;
    let data_position = in_set / stripe;
    let stripe_offset = in_set % stripe;
    proof {
        lemma_div_mod(logical_offset_bytes as int, full_data_stripe as int);
        lemma_div_mod(in_set as int, stripe as int);
        assert(data_position < data_disks) by (nonlinear_arith)
            requires
                in_set < stripe * data_disks,
                data_position * stripe <= in_set,
                stripe > 0,
        ;
        assert(stripe_set * stripe <= logical_offset_bytes) by (nonlinear_arith)
            requires
                stripe_set * full_data_stripe <= logical_offset_bytes,
                full_data_stripe == stripe * data_disks,
                data_disks >= 1,
                stripe_set >= 0,
                stripe > 0,
        ;
    }
    let off = checked_member_offset(layout.data_offset_bytes, stripe_set, stripe, stripe_offset, "raid4 member offset")?;
    Ok(RaidLogicalMapping {
        member_index: layout.disk_order[data_position as usize],
        member_offset_bytes: off,
        parity_member_index: Some(layout.disk_order[(layout.member_count - 1) as usize]),
    })
}

fn map_raid5(layout: &RaidLayout, logical_offset_bytes: u64) -> (r: Result<RaidLogicalMapping, RaidError>)
    requires
        layout.member_count >= 2,
        valid_stripe(layout.stripe_size_bytes),
        is_disk_order(layout.disk_order@, layout.member_count),
        layout.level == RaidLevel::Raid5,
    ensures
        r == level_mapping(layout@, logical_offset_bytes as int),
{
    if layout.member_count < 3 {
        return Err(RaidError::UnsupportedLayout);
    }
    let stripe = layout.stripe_size_bytes as u64;
    let n = layout.member_count as u64;
    let data_disks = n - 1;
    assert(stripe * data_disks <= 4194304 * 4294967295) by (nonlinear_arith)
        requires
            stripe <= 4194304,
            data_disks <= 4294967295,
    ;
    let full_data_stripe = stripe * data_disks;
    assert(full_data_stripe > 0) by (nonlinear_arith)
        requires
            stripe > 0,
            data_disks > 0,
            full_data_stripe == stripe * data_disks,
    ;
    let stripe_set = logical_offset_bytes / full_data_stripe;
    let in_set = logical_offset_bytes % full_data_stripe;
    let data_position = in_set / stripe;
    let stripe_offset = in_set % stripe;
    proof {
        lemma_div_mod(logical_offset_bytes as int, full_data_stripe as int);
        lemma_div_mod(in_set as int, stripe as int);
        assert(data_position < data_disks) by (nonlinear_arith)
            requires
                in_set < stripe * data_disks,
                data_position * stripe <= in_set,
                stripe > 0,
        ;
        assert(stripe_set * stripe <= logical_offset_bytes) by (nonlinear_arith)
            requires
                stripe_set * full_data_stripe <= logical_offset_bytes,
                full_data_stripe == stripe * data_disks,
                data_disks >= 1,
                stripe_set >= 0,
                stripe > 0,
        ;
    }
    let parity_position: u64 = match layout.parity_rotation {
        ParityRotation::RightSymmetric => stripe_set % n,
        _ => (n - 1 - stripe_set % n) % n,
    };
    let data_member_position = (parity_position + 1 + data_position) % n;
    let off = checked_member_offset(layout.data_offset_bytes, stripe_set, stripe, stripe_offset, "raid5 member offset")?;
    Ok(RaidLogicalMapping {
        member_index: layout.disk_order[data_member_position as usize],
        member_offset_bytes: off,
        parity_member_index: Some(layout.disk_order[parity_position as usize]),
    })
}

fn map_raid10(layout: &RaidLayout, logical_offset_bytes: u64) -> (r: Result<RaidLogicalMapping, RaidError>)
    requires
        layout.member_count >= 2,
        valid_stripe(layout.stripe_size_bytes),
        is_disk_order(layout.disk_order@, layout.member_count),
        layout.level == RaidLevel::Raid10,
    ensures
        r == level_mapping(layout@, logical_offset_bytes as int),
{
    if layout.member_count < 4 || layout.member_count % 2 != 0 {
        return Err(RaidError::UnsupportedLayout);
    }
    let stripe = layout.stripe_size_bytes as u64;
    let pairs = (layout.member_count / 2) as u64;
    let stripe_number = logical_offset_bytes / stripe;
    let stripe_offset = logical_offset_bytes % stripe;
    let pair_position = stripe_number % pairs;
    let pair_stripe_index = stripe_number / pairs;
    proof {
        lemma_div_mod(logical_offset_bytes as int, stripe as int);
        lemma_div_mod(stripe_number as int, pairs as int);
        lemma_quotient_product_le(stripe_number as int, pairs as int, stripe as int, logical_offset_bytes as int);
    }
    let primary_position = pair_position * 2;
    let off = checked_member_offset(layout.data_offset_bytes, pair_stripe_index, stripe, stripe_offset, "raid10 member offset")?;
    Ok(RaidLogicalMapping {
        member_index: layout.disk_order[primary_position as usize],
        member_offset_bytes: off,
        parity_member_index: Some(layout.disk_order[(primary_position + 1) as usize]),
    })
}

/// Maps a logical byte offset of the array to its member and member offset.
pub fn map_logical_offset(layout: &RaidLayout, logical_offset_bytes: u64) -> (r: Result<
    RaidLogicalMapping,
    RaidError,
>)
    ensures
        r == raid_mapping(layout@, logical_offset_bytes as int),
{
    if layout.member_count < 2 {
        return Err(RaidError::InvalidMemberCount(layout.member_count));
    }
    if !is_valid_stripe_size(layout.stripe_size_bytes) {
        return Err(RaidError::InvalidStripeSize(layout.stripe_size_bytes));
    }
    validate_disk_order(&layout.disk_order, layout.member_count)?;
    match layout.level {
        RaidLevel::Raid0 => map_raid0(layout, logical_offset_bytes),
        RaidLevel::Raid1 => map_raid1(layout, logical_offset_bytes),
        RaidLevel::Raid4 => map_raid4(layout, logical_offset_bytes),
        RaidLevel::Raid5 => map_raid5(layout, logical_offset_bytes),
        RaidLevel::Raid10 => map_raid10(layout, logical_offset_bytes),
        _ => Err(RaidError::UnsupportedLayout),
    }
}


// ---------------------------------------------------------------------------
// Manual override
// ---------------------------------------------------------------------------

/// An override with its disk order as a sequence.
pub struct RaidManualOverrideView {
    pub level: Option<RaidLevel>,
    pub stripe_size_bytes: Option<u32>,
    pub data_offset_bytes: Option<u64>,
    pub parity_rotation: Option<ParityRotation>,
    pub disk_order: Option<Seq<u32>>,
}

impl View for RaidManualOverride {
    type V = RaidManualOverrideView;

    open spec fn view(&self) -> RaidManualOverrideView {
        RaidManualOverrideView {
            level: self.level,
            stripe_size_bytes: self.stripe_size_bytes,
            data_offset_bytes: self.data_offset_bytes,
            parity_rotation: self.parity_rotation,
            disk_order: match self.disk_order {
                Some(v) => Some(v@),
                None => None,
            },
        }
    }
}

/// `base` with the override's fields applied; forcing the level to `Unknown`
/// costs five confidence points (when more than five are left).
pub open spec fn overridden(base: RaidLayoutView, o: RaidManualOverrideView) -> Result<RaidLayoutView, RaidError> {
    let level = match o.level {
        Some(l) => l,
        None => base.level,
    };
    let score = match o.level {
        Some(l) => if l == RaidLevel::Unknown && base.confidence_score > 5 {
            (base.confidence_score - 5) as u8
        } else {
            base.confidence_score
        },
        None => base.confidence_score,
    };
    if o.stripe_size_bytes is Some && !valid_stripe(o.stripe_size_bytes->0) {
        Err(RaidError::InvalidStripeSize(o.stripe_size_bytes->0))
    } else if o.disk_order is Some && !is_disk_order(o.disk_order->0, base.member_count) {
        Err(RaidError::InvalidDiskOrder)
    } else {
        Ok(
            RaidLayoutView {
                metadata_family: base.metadata_family,
                level,
                member_count: base.member_count,
                stripe_size_bytes: match o.stripe_size_bytes {
                    Some(v) => v,
                    None => base.stripe_size_bytes,
                },
                data_offset_bytes: match o.data_offset_bytes {
                    Some(v) => v,
                    None => base.data_offset_bytes,
                },
                parity_rotation: match o.parity_rotation {
                    Some(v) => v,
                    None => base.parity_rotation,
                },
                disk_order: match o.disk_order {
                    Some(v) => v,
                    None => base.disk_order,
                },
                confidence_score: score,
            },
        )
    }
}

/// A copy of a list of member indices.
pub fn copy_order(v: &Vec<u32>) -> (r: Vec<u32>)
    ensures
        r@ == v@,
{
    let mut r: Vec<u32> = Vec::new();
    let mut k: usize = 0;
    while k < v.len()
        invariant
            k <= v@.len(),
            r@ =~= v@.subrange(0, k as int),
        decreases v@.len() - k,
    {
        r.push(v[k]);
        k = k + 1;
    }
    assert(v@.subrange(0, v@.len() as int) =~= v@);
    r
}

/// A copy of a layout.
pub fn copy_layout(base: &RaidLayout) -> (r: RaidLayout)
    ensures
        r@ == base@,
{
    RaidLayout {
        metadata_family: base.metadata_family,
        level: base.level,
        member_count: base.member_count,
        stripe_size_bytes: base.stripe_size_bytes,
        data_offset_bytes: base.data_offset_bytes,
        parity_rotation: base.parity_rotation,
        disk_order: copy_order(&base.disk_order),
        confidence_score: base.confidence_score,
    }
}

/// Applies a manual override to a detected layout.
pub fn apply_manual_override(base: &RaidLayout, override_cfg: &RaidManualOverride) -> (r: Result<
    RaidLayout,
    RaidError,
>)
    ensures
        match (r, overridden(base@, override_cfg@)) {
            (Ok(l), Ok(v)) => l@ == v,
            (Err(e), Err(f)) => e == f,
            _ => false,
        },
{
    let mut layout = copy_layout(base);
    if let Some(level) = override_cfg.level {
        layout.level = level;
        if level == RaidLevel::Unknown && layout.confidence_score > 5 {
            layout.confidence_score = layout.confidence_score - 5;
        }
    }
    if let Some(stripe_size) = override_cfg.stripe_size_bytes {
        if !is_valid_stripe_size(stripe_size) {
            return Err(RaidError::InvalidStripeSize(stripe_size));
        }
        layout.stripe_size_bytes = stripe_size;
    }
    if let Some(data_offset) = override_cfg.data_offset_bytes {
        layout.data_offset_bytes = data_offset;
    }
    if let Some(parity_rotation) = override_cfg.parity_rotation {
        layout.parity_rotation = parity_rotation;
    }
    if let Some(order) = &override_cfg.disk_order {
        validate_disk_order(order, layout.member_count)?;
        layout.disk_order = copy_order(order);
    }
    Ok(layout)
}

// ---------------------------------------------------------------------------
// Detection
// ---------------------------------------------------------------------------

/// Linux md level numbers.
pub open spec fn md_level(v: i32) -> RaidLevel {
    if v == 0 {
        RaidLevel::Raid0
    } else if v == 1 {
        RaidLevel::Raid1
    } else if v == 4 {
        RaidLevel::Raid4
    } else if v == 5 {
        RaidLevel::Raid5
    } else if v == 6 {
        RaidLevel::Raid6
    } else if v == 10 {
        RaidLevel::Raid10
    } else {
        RaidLevel::Unknown
    }
}

/// Storage Spaces and DDF level numbers (the same numbering as md).
pub open spec fn plain_level(v: u32) -> RaidLevel {
    md_level(if v <= 10 { v as i32 } else { -1i32 })
}

/// Intel IMSM level numbers.
pub open spec fn imsm_level(v: u32) -> RaidLevel {
    if v == 0 {
        RaidLevel::Raid0
    } else if v == 1 {
        RaidLevel::Raid1
    } else if v == 2 {
        RaidLevel::Raid5
    } else if v == 3 {
        RaidLevel::Raid10
    } else {
        RaidLevel::Unknown
    }
}

/// Maps an md level number.
pub fn map_md_level(value: i32) -> (r: RaidLevel)
    ensures
        r == md_level(value),
{
    match value {
        0 => RaidLevel::Raid0,
        1 => RaidLevel::Raid1,
        4 => RaidLevel::Raid4,
        5 => RaidLevel::Raid5,
        6 => RaidLevel::Raid6,
        10 => RaidLevel::Raid10,
        _ => RaidLevel::Unknown,
    }
}

/// Maps a Storage Spaces level number.
pub fn map_spaces_level(value: u32) -> (r: RaidLevel)
    ensures
        r == plain_level(value),
{
    match value {
        0 => RaidLevel::Raid0,
        1 => RaidLevel::Raid1,
        4 => RaidLevel::Raid4,
        5 => RaidLevel::Raid5,
        6 => RaidLevel::Raid6,
        10 => RaidLevel::Raid10,
        _ => RaidLevel::Unknown,
    }
}

/// Maps a DDF level number.
pub fn map_ddf_level(value: u32) -> (r: RaidLevel)
    ensures
        r == plain_level(value),
{
    map_spaces_level(value)
}

/// Maps an IMSM level number.
pub fn map_imsm_level(value: u32) -> (r: RaidLevel)
    ensures
        r == imsm_level(value),
{
    match value {
        0 => RaidLevel::Raid0,
        1 => RaidLevel::Raid1,
        2 => RaidLevel::Raid5,
        3 => RaidLevel::Raid10,
        _ => RaidLevel::Unknown,
    }
}

/// md parity layouts: 0 left-symmetric, 1 right-symmetric.
pub open spec fn md_parity(v: u32) -> ParityRotation {
    if v == 0 {
        ParityRotation::LeftSymmetric
    } else if v == 1 {
        ParityRotation::RightSymmetric
    } else {
        ParityRotation::Unknown
    }
}

/// Maps an md parity layout.
pub fn map_md_parity_rotation(layout: u32) -> (r: ParityRotation)
    ensures
        r == md_parity(layout),
{
    match layout {
        0 => ParityRotation::LeftSymmetric,
        1 => ParityRotation::RightSymmetric,
        _ => ParityRotation::Unknown,
    }
}

/// Parity rotation codes where `left` and `right` name the codes of the two rotations.
pub open spec fn coded_parity(v: u32, left: u32, right: u32) -> ParityRotation {
    if v == left {
        ParityRotation::LeftSymmetric
    } else if v == right {
        ParityRotation::RightSymmetric
    } else {
        ParityRotation::Unknown
    }
}

/// Confidence of a detected layout: 40, plus 20 for two or more members, 15
/// for a known level, 15 for a stated chunk size, 10 for a known parity
/// rotation, at most 99.
pub open spec fn metadata_confidence(member_count: u32, has_chunk: bool, known_level: bool, known_parity: bool) -> u8 {
    let s = 40 + (if member_count >= 2 { 20int } else { 0 }) + (if known_level { 15int } else { 0 })
        + (if has_chunk { 15int } else { 0 }) + (if known_parity { 10int } else { 0 });
    if s > 99 {
        99
    } else {
        s as u8
    }
}

/// Computes the confidence of a detected layout.
pub fn score_metadata_confidence(member_count: u32, has_chunk: bool, known_level: bool, known_parity: bool) -> (r: u8)
    ensures
        r == metadata_confidence(member_count, has_chunk, known_level, known_parity),
{
    let mut score: u8 = 40;
    if member_count >= 2 {
        score = score + 20;
    }
    if known_level {
        score = score + 15;
    }
    if has_chunk {
        score = score + 15;
    }
    if known_parity {
        score = score + 10;
    }
    if score > 99 {
        99
    } else {
        score
    }
}

/// `0, 1, ..., n - 1`.
pub open spec fn identity_order(n: u32) -> Seq<u32> {
    Seq::new(n as nat, |i: int| i as u32)
}

/// Builds `0, 1, ..., n - 1`.
pub fn identity_disk_order(n: u32) -> (r: Vec<u32>)
    ensures
        r@ == identity_order(n),
{
    let mut r: Vec<u32> = Vec::new();
    let mut i: u32 = 0;
    while i < n
        invariant
            i <= n,
            r@ =~= identity_order(i),
        decreases n - i,
    {
        r.push(i);
        i = i + 1;
    }
    r
}

/// First position at or after `i` where `sig` occurs in `b`.
pub open spec fn first_match_from(b: Seq<u8>, sig: Seq<u8>, i: int) -> Option<int>
    decreases b.len() - i,
{
    if i < 0 || i >= b.len() || i + sig.len() > b.len() {
        None
    } else if b.subrange(i, i + sig.len()) == sig {
        Some(i)
    } else {
        first_match_from(b, sig, i + 1)
    }
}

/// First position where `signature` occurs in `bytes`; none for an empty
/// signature.
pub fn find_signature_offset(bytes: &[u8], signature: &[u8]) -> (r: Option<usize>)
    ensures
        signature@.len() == 0 ==> r is None,
        signature@.len() > 0 ==> match r {
            Some(p) => first_match_from(bytes@, signature@, 0) == Some(p as int) && p + signature@.len() <= bytes@.len(),
            None => first_match_from(bytes@, signature@, 0) is None,
        },
{
    if signature.len() == 0 || bytes.len() < signature.len() {
        return None;
    }
    let n = bytes.len();
    let m = signature.len();
    let mut i: usize = 0;
    while i <= n - m
        invariant
            n == bytes@.len(),
            m == signature@.len(),
            0 < m <= n,
            i <= n - m + 1,
            first_match_from(bytes@, signature@, 0) == first_match_from(bytes@, signature@, i as int),
        decreases n - m + 1 - i,
    {
        if bytes_match_at(bytes, i, signature) {
            return Some(i);
        }
        i = i + 1;
    }
    None
}

/// `a * 1024`, saturating at `u32::MAX`.
pub open spec fn kib_to_bytes_saturating(a: u32) -> u32 {
    if a * 1024 > u32::MAX {
        u32::MAX
    } else {
        (a * 1024) as u32
    }
}

/// The md v1 layout of `b`, if its superblock is present.
pub open spec fn md_layout_of(b: Seq<u8>) -> Result<Option<RaidLayoutView>, RaidError> {
    let base = 4096int;
    if b.len() < 8192 || le32(b, base) != 0xA92B4EFC || le32(b, base + 4) == 0 {
        Ok(None)
    } else {
        let disks = le32(b, base + 0x5C) as u32;
        let chunk = le32(b, base + 0x50) as u32;
        let level = md_level(le32(b, base + 0x48) as i32);
        let parity = md_parity(le32(b, base + 0x4C) as u32);
        if disks < 2 {
            Err(RaidError::InvalidMemberCount(disks))
        } else if le64(b, base + 0x80) * 512 > u64::MAX {
            Err(RaidError::ArithmeticOverflow("md data offset bytes"))
        } else {
            Ok(
                Some(
                    RaidLayoutView {
                        metadata_family: RaidMetadataFamily::LinuxMd,
                        level,
                        member_count: disks,
                        stripe_size_bytes: normalized_stripe(chunk),
                        data_offset_bytes: (le64(b, base + 0x80) * 512) as u64,
                        parity_rotation: parity,
                        disk_order: identity_order(disks),
                        confidence_score: metadata_confidence(
                            disks,
                            chunk != 0,
                            level != RaidLevel::Unknown,
                            parity != ParityRotation::Unknown,
                        ),
                    },
                ),
            )
        }
    }
}

/// The Storage Spaces layout of `b`, if its header is present.
pub open spec fn spaces_layout_of(b: Seq<u8>) -> Result<Option<RaidLayoutView>, RaidError> {
    let h = 0x200int;
    if b.len() < 0x420 || b.subrange(h, h + 11) != SPACES_SIGNATURE@ {
        Ok(None)
    } else {
        let members = le32(b, h + 0x18) as u32;
        let kib = le32(b, h + 0x14) as u32;
        let level = plain_level(le32(b, h + 0x10) as u32);
        let parity = coded_parity(le32(b, h + 0x20) as u32, 2, 1);
        if members < 2 {
            Err(RaidError::InvalidMemberCount(members))
        } else {
            Ok(
                Some(
                    RaidLayoutView {
                        metadata_family: RaidMetadataFamily::WindowsStorageSpaces,
                        level,
                        member_count: members,
                        stripe_size_bytes: normalized_stripe(kib_to_bytes_saturating(kib)),
                        data_offset_bytes: (le32(b, h + 0x1C) * 1024) as u64,
                        parity_rotation: parity,
                        disk_order: identity_order(members),
                        confidence_score: metadata_confidence(
                            members,
                            kib != 0,
                            level != RaidLevel::Unknown,
                            parity != ParityRotation::Unknown,
                        ),
                    },
                ),
            )
        }
    }
}

/// The IMSM layout of `b`, if its signature is present.
pub open spec fn imsm_layout_of(b: Seq<u8>) -> Result<Option<RaidLayoutView>, RaidError> {
    match first_match_from(b, IMSM_SIGNATURE@, 0) {
        None => Ok(None),
        Some(base) => if b.len() < base + 0x58 {
            Ok(None)
        } else {
            let members = le32(b, base + 0x44) as u32;
            let kib = le32(b, base + 0x48) as u32;
            let level = imsm_level(le32(b, base + 0x40) as u32);
            if members < 2 {
                Err(RaidError::InvalidMemberCount(members))
            } else if le64(b, base + 0x50) * 512 > u64::MAX {
                Err(RaidError::ArithmeticOverflow("imsm data offset bytes"))
            } else {
                Ok(
                    Some(
                        RaidLayoutView {
                            metadata_family: RaidMetadataFamily::IntelImsm,
                            level,
                            member_count: members,
                            stripe_size_bytes: normalized_stripe(kib_to_bytes_saturating(kib)),
                            data_offset_bytes: (le64(b, base + 0x50) * 512) as u64,
                            parity_rotation: ParityRotation::LeftSymmetric,
                            disk_order: identity_order(members),
                            confidence_score: metadata_confidence(
                                members,
                                kib != 0,
                                level != RaidLevel::Unknown,
                                true,
                            ),
                        },
                    ),
                )
            }
        },
    }
}

/// The DDF layout of `b`, if its signature is present.
pub open spec fn ddf_layout_of(b: Seq<u8>) -> Result<Option<RaidLayoutView>, RaidError> {
    match first_match_from(b, DDF_SIGNATURE@, 0) {
        None => Ok(None),
        Some(base) => if b.len() < base + 0x60 {
            Ok(None)
        } else {
            let members = le32(b, base + 0x28) as u32;
            let kib = le32(b, base + 0x2C) as u32;
            let level = plain_level(le32(b, base + 0x24) as u32);
            let parity = coded_parity(le32(b, base + 0x38) as u32, 1, 2);
            if members < 2 {
                Err(RaidError::InvalidMemberCount(members))
            } else if le64(b, base + 0x30) * 512 > u64::MAX {
                Err(RaidError::ArithmeticOverflow("ddf data offset bytes"))
            } else {
                Ok(
                    Some(
                        RaidLayoutView {
                            metadata_family: RaidMetadataFamily::Ddf,
                            level,
                            member_count: members,
                            stripe_size_bytes: normalized_stripe(kib_to_bytes_saturating(kib)),
                            data_offset_bytes: (le64(b, base + 0x30) * 512) as u64,
                            parity_rotation: parity,
                            disk_order: identity_order(members),
                            confidence_score: metadata_confidence(
                                members,
                                kib != 0,
                                level != RaidLevel::Unknown,
                                parity != ParityRotation::Unknown,
                            ),
                        },
                    ),
                )
            }
        },
    }
}

/// The first metadata family found, in the order md, Storage Spaces, IMSM, DDF.
pub open spec fn detected_layout(b: Seq<u8>) -> Result<Option<RaidLayoutView>, RaidError> {
    match md_layout_of(b) {
        Ok(None) => match spaces_layout_of(b) {
            Ok(None) => match imsm_layout_of(b) {
                Ok(None) => ddf_layout_of(b),
                other => other,
            },
            other => other,
        },
        other => other,
    }
}

/// Whether an exec result agrees with a spec result.
pub open spec fn layout_result_matches(
    r: Result<Option<RaidLayout>, RaidError>,
    s: Result<Option<RaidLayoutView>, RaidError>,
) -> bool {
    match (r, s) {
        (Ok(Some(l)), Ok(Some(v))) => l@ == v,
        (Ok(None), Ok(None)) => true,
        (Err(e), Err(f)) => e == f,
        _ => false,
    }
}

fn multiply_by_512(v: u64, what: &'static str) -> (r: Result<u64, RaidError>)
    ensures
        r == (if v * 512 > u64::MAX {
            Err(RaidError::ArithmeticOverflow(what))
        } else {
            Ok::<u64, RaidError>((v * 512) as u64)
        }),
{
    match v.checked_mul(512) {
        Some(x) => Ok(x),
        None => Err(RaidError::ArithmeticOverflow(what)),
    }
}

fn kib_saturating(a: u32) -> (r: u32)
    ensures
        r == kib_to_bytes_saturating(a),
{
    match a.checked_mul(1024) {
        Some(x) => x,
        None => u32::MAX,
    }
}

fn detect_mdraid_layout(image: &[u8]) -> (r: Result<Option<RaidLayout>, RaidError>)
    ensures
        layout_result_matches(r, md_layout_of(image@)),
{
    if image.len() < MD_SUPERBLOCK_V1_OFFSET + MD_SUPERBLOCK_V1_SIZE {
        return Ok(None);
    }
    let base = MD_SUPERBLOCK_V1_OFFSET;
    if read_u32_le(image, base) != MD_MAGIC {
        return Ok(None);
    }
    if read_u32_le(image, base + 4) == 0 {
        return Ok(None);
    }
    let raw_level = read_i32_le(image, base + 0x48);
    let raw_layout = read_u32_le(image, base + 0x4C);
    let raw_chunk_size = read_u32_le(image, base + 0x50);
    let raid_disks = read_u32_le(image, base + 0x5C);
    if raid_disks < 2 {
        return Err(RaidError::InvalidMemberCount(raid_disks));
    }
    let data_offset_bytes = multiply_by_512(read_u64_le(image, base + 0x80), "md data offset bytes")?;
    let stripe_size_bytes = normalize_stripe_size(raw_chunk_size);
    let level = map_md_level(raw_level);
    let parity_rotation = map_md_parity_rotation(raw_layout);
    let confidence = score_metadata_confidence(
        raid_disks,
        raw_chunk_size != 0,
        level != RaidLevel::Unknown,
        parity_rotation != ParityRotation::Unknown,
    );
    Ok(Some(RaidLayout {
        metadata_family: RaidMetadataFamily::LinuxMd,
        level,
        member_count: raid_disks,
        stripe_size_bytes,
        data_offset_bytes,
        parity_rotation,
        disk_order: identity_disk_order(raid_disks),
        confidence_score: confidence,
    }))
}

fn detect_storage_spaces_layout(image: &[u8]) -> (r: Result<Option<RaidLayout>, RaidError>)
    ensures
        layout_result_matches(r, spaces_layout_of(image@)),
{
    if image.len() < SPACES_HEADER_OFFSET + 0x220 {
        return Ok(None);
    }
    if !bytes_match_at(image, SPACES_HEADER_OFFSET, &SPACES_SIGNATURE) {
        return Ok(None);
    }
    let h = SPACES_HEADER_OFFSET;
    let raw_level = read_u32_le(image, h + 0x10);
    let raw_stripe_kib = read_u32_le(image, h + 0x14);
    let member_count = read_u32_le(image, h + 0x18);
    let raw_offset_kib = read_u32_le(image, h + 0x1C);
    let raw_parity = read_u32_le(image, h + 0x20);
    if member_count < 2 {
        return Err(RaidError::InvalidMemberCount(member_count));
    }
    let stripe_size_bytes = normalize_stripe_size(kib_saturating(raw_stripe_kib));
    let data_offset_bytes = (raw_offset_kib as u64) * 1024;
    let level = map_spaces_level(raw_level);
    let parity_rotation = match raw_parity {
        1 => ParityRotation::RightSymmetric,
        2 => ParityRotation::LeftSymmetric,
        _ => ParityRotation::Unknown,
    };
    let confidence = score_metadata_confidence(
        member_count,
        raw_stripe_kib != 0,
        level != RaidLevel::Unknown,
        parity_rotation != ParityRotation::Unknown,
    );
    Ok(Some(RaidLayout {
        metadata_family: RaidMetadataFamily::WindowsStorageSpaces,
        level,
        member_count,
        stripe_size_bytes,
        data_offset_bytes,
        parity_rotation,
        disk_order: identity_disk_order(member_count),
        confidence_score: confidence,
    }))
}

fn detect_imsm_layout(image: &[u8]) -> (r: Result<Option<RaidLayout>, RaidError>)
    ensures
        layout_result_matches(r, imsm_layout_of(image@)),
{
    let base = match find_signature_offset(image, &IMSM_SIGNATURE) {
        Some(b) => b,
        None => return Ok(None),
    };
    if image.len() - base < 0x58 {
        return Ok(None);
    }
    let raw_level = read_u32_le(image, base + 0x40);
    let member_count = read_u32_le(image, base + 0x44);
    if member_count < 2 {
        return Err(RaidError::InvalidMemberCount(member_count));
    }
    let raw_stripe_kib = read_u32_le(image, base + 0x48);
    let data_offset_bytes = multiply_by_512(read_u64_le(image, base + 0x50), "imsm data offset bytes")?;
    let stripe_size_bytes = normalize_stripe_size(kib_saturating(raw_stripe_kib));
    let level = map_imsm_level(raw_level);
    let confidence = score_metadata_confidence(member_count, raw_stripe_kib != 0, level != RaidLevel::Unknown, true);
    Ok(Some(RaidLayout {
        metadata_family: RaidMetadataFamily::IntelImsm,
        level,
        member_count,
        stripe_size_bytes,
        data_offset_bytes,
        parity_rotation: ParityRotation::LeftSymmetric,
        disk_order: identity_disk_order(member_count),
        confidence_score: confidence,
    }))
}

fn detect_ddf_layout(image: &[u8]) -> (r: Result<Option<RaidLayout>, RaidError>)
    ensures
        layout_result_matches(r, ddf_layout_of(image@)),
{
    let base = match find_signature_offset(image, &DDF_SIGNATURE) {
        Some(b) => b,
        None => return Ok(None),
    };
    if image.len() - base < 0x60 {
        return Ok(None);
    }
    let raw_level = read_u32_le(image, base + 0x24);
    let member_count = read_u32_le(image, base + 0x28);
    if member_count < 2 {
        return Err(RaidError::InvalidMemberCount(member_count));
    }
    let raw_stripe_kib = read_u32_le(image, base + 0x2C);
    let data_offset_bytes = multiply_by_512(read_u64_le(image, base + 0x30), "ddf data offset bytes")?;
    let raw_parity = read_u32_le(image, base + 0x38);
    let stripe_size_bytes = normalize_stripe_size(kib_saturating(raw_stripe_kib));
    let level = map_ddf_level(raw_level);
    let parity_rotation = match raw_parity {
        1 => ParityRotation::LeftSymmetric,
        2 => ParityRotation::RightSymmetric,
        _ => ParityRotation::Unknown,
    };
    let confidence = score_metadata_confidence(
        member_count,
        raw_stripe_kib != 0,
        level != RaidLevel::Unknown,
        parity_rotation != ParityRotation::Unknown,
    );
    Ok(Some(RaidLayout {
        metadata_family: RaidMetadataFamily::Ddf,
        level,
        member_count,
        stripe_size_bytes,
        data_offset_bytes,
        parity_rotation,
        disk_order: identity_disk_order(member_count),
        confidence_score: confidence,
    }))
}

/// Detects RAID metadata in `image`.
pub fn detect_layout(image: &[u8]) -> (r: Result<Option<RaidLayout>, RaidError>)
    ensures
        layout_result_matches(r, detected_layout(image@)),
{
    let md = detect_mdraid_layout(image)?;
    if md.is_some() {
        return Ok(md);
    }
    let spaces = detect_storage_spaces_layout(image)?;
    if spaces.is_some() {
        return Ok(spaces);
    }
    let imsm = detect_imsm_layout(image)?;
    if imsm.is_some() {
        return Ok(imsm);
    }
    detect_ddf_layout(image)
}

/// Detects a layout and applies an optional override to it.
pub fn resolve_layout_with_override(image: &[u8], override_cfg: Option<&RaidManualOverride>) -> (r: Result<
    Option<RaidLayout>,
    RaidError,
>)
    ensures
        layout_result_matches(
            r,
            match detected_layout(image@) {
                Ok(Some(base)) => match override_cfg {
                    Some(o) => match overridden(base, o@) {
                        Ok(v) => Ok(Some(v)),
                        Err(e) => Err(e),
                    },
                    None => Ok(Some(base)),
                },
                other => other,
            },
        ),
{
    let base = match detect_layout(image)? {
        Some(b) => b,
        None => return Ok(None),
    };
    match override_cfg {
        Some(value) => {
            let l = apply_manual_override(&base, value)?;
            Ok(Some(l))
        },
        None => Ok(Some(base)),
    }
}


// ---------------------------------------------------------------------------
// Degraded assessment
// ---------------------------------------------------------------------------

/// The values below `k` that are members (`< n`) listed in `missing`, ascending.
pub open spec fn missing_upto(missing: Seq<u32>, n: u32, k: int) -> Seq<u32>
    decreases k,
{
    if k <= 0 {
        Seq::empty()
    } else {
        missing_upto(missing, n, k - 1) + if k - 1 < n && missing.contains((k - 1) as u32) {
            seq![(k - 1) as u32]
        } else {
            Seq::empty()
        }
    }
}

proof fn lemma_missing_upto_len(missing: Seq<u32>, n: u32, k: int)
    requires
        k >= 0,
    ensures
        missing_upto(missing, n, k).len() <= k,
    decreases k,
{
    if k > 0 {
        lemma_missing_upto_len(missing, n, k - 1);
    }
}

/// The listed missing members that exist, ascending and without repeats.
pub open spec fn normalized_missing(missing: Seq<u32>, n: u32) -> Seq<u32> {
    missing_upto(missing, n, n as int)
}

/// Keeps the listed members below `member_count`, sorted and without repeats.
pub fn normalize_missing_members(missing_members: &[u32], member_count: u32) -> (r: Vec<u32>)
    ensures
        r@ == normalized_missing(missing_members@, member_count),
{
    let mut seen: Vec<bool> = Vec::new();
    let mut k: u32 = 0;
    while k < member_count
        invariant
            k <= member_count,
            seen@.len() == k,
            forall|m: int| 0 <= m < k ==> !seen@[m],
        decreases member_count - k,
    {
        seen.push(false);
        k = k + 1;
    }
    let mut i: usize = 0;
    while i < missing_members.len()
        invariant
            seen@.len() == member_count,
            i <= missing_members@.len(),
            forall|v: int| 0 <= v < member_count ==> (seen@[v] <==> exists|a: int| 0 <= a < i && missing_members@[a] == v),
        decreases missing_members@.len() - i,
    {
        let value = missing_members[i];
        let ghost old_seen = seen@;
        if value < member_count {
            seen.set(value as usize, true);
        }
        assert forall|v: int| 0 <= v < member_count implies (seen@[v] <==> exists|a: int|
            0 <= a < i + 1 && missing_members@[a] == v) by {
            if v == value {
                assert(missing_members@[i as int] == v);
            } else {
                assert(seen@[v] == old_seen[v]);
                if exists|a: int| 0 <= a < i + 1 && missing_members@[a] == v {
                    let a = choose|a: int| 0 <= a < i + 1 && missing_members@[a] == v;
                    assert(a < i);
                }
            }
        }
        i = i + 1;
    }
    let mut out: Vec<u32> = Vec::new();
    let mut v: u32 = 0;
    while v < member_count
        invariant
            v <= member_count,
            seen@.len() == member_count,
            forall|w: int| 0 <= w < member_count ==> (seen@[w] <==> missing_members@.contains(w as u32)),
            out@ == missing_upto(missing_members@, member_count, v as int),
        decreases member_count - v,
    {
        proof {
            if seen@[v as int] {
                let a = choose|a: int| 0 <= a < missing_members@.len() && missing_members@[a] == v;
                assert(missing_members@[a] == v);
            }
            if missing_members@.contains(v) {
                let a = choose|a: int| 0 <= a < missing_members@.len() && missing_members@[a] == v;
                assert(exists|a2: int| 0 <= a2 < missing_members@.len() && missing_members@[a2] == v as int);
            }
        }
        if seen[v as usize] {
            out.push(v);
        }
        proof {
            assert(out@ =~= missing_upto(missing_members@, member_count, v + 1));
        }
        v = v + 1;
    }
    out
}

/// Whether a sampled mapping can still be read with the given members missing.
pub open spec fn mapping_recoverable(level: RaidLevel, m: RaidLogicalMapping, missing: Seq<u32>) -> bool {
    let data_missing = missing.contains(m.member_index);
    let parity_missing = m.parity_member_index is Some && missing.contains(m.parity_member_index->0);
    match level {
        RaidLevel::Raid0 => !data_missing,
        RaidLevel::Raid1 => !data_missing || !parity_missing,
        RaidLevel::Raid4 | RaidLevel::Raid5 => if data_missing {
            missing.len() <= 1
        } else {
            true
        },
        RaidLevel::Raid6 => missing.len() <= 2,
        RaidLevel::Raid10 => !data_missing || !parity_missing,
        RaidLevel::Unknown => false,
    }
}

fn contains_member(members: &[u32], value: u32) -> (b: bool)
    ensures
        b == members@.contains(value),
{
    let mut k: usize = 0;
    while k < members.len()
        invariant
            k <= members@.len(),
            forall|m: int| 0 <= m < k ==> members@[m] != value,
        decreases members@.len() - k,
    {
        if members[k] == value {
            assert(members@[k as int] == value);
            return true;
        }
        k = k + 1;
    }
    false
}

/// Decides whether a mapping is recoverable.
pub fn is_mapping_recoverable(level: RaidLevel, mapping: &RaidLogicalMapping, missing_members: &[u32]) -> (b: bool)
    ensures
        b == mapping_recoverable(level, *mapping, missing_members@),
{
    let data_missing = contains_member(missing_members, mapping.member_index);
    let parity_missing = match mapping.parity_member_index {
        Some(p) => contains_member(missing_members, p),
        None => false,
    };
    match level {
        RaidLevel::Raid0 => !data_missing,
        RaidLevel::Raid1 => !data_missing || !parity_missing,
        RaidLevel::Raid4 | RaidLevel::Raid5 => if data_missing {
            missing_members.len() <= 1
        } else {
            true
        },
        RaidLevel::Raid6 => missing_members.len() <= 2,
        RaidLevel::Raid10 => !data_missing || !parity_missing,
        RaidLevel::Unknown => false,
    }
}

/// Number of samples `i < k` (at logical offset `i * stripe`) that map and are recoverable.
pub open spec fn recoverable_upto(v: RaidLayoutView, missing: Seq<u32>, k: int) -> int
    decreases k,
{
    if k <= 0 {
        0
    } else {
        recoverable_upto(v, missing, k - 1) + match raid_mapping(v, (k - 1) * v.stripe_size_bytes) {
            Ok(m) => if mapping_recoverable(v.level, m, missing) {
                1int
            } else {
                0
            },
            Err(_) => 0,
        }
    }
}

proof fn lemma_recoverable_upto_bound(v: RaidLayoutView, missing: Seq<u32>, k: int)
    requires
        k >= 0,
    ensures
        0 <= recoverable_upto(v, missing, k) <= k,
    decreases k,
{
    if k > 0 {
        lemma_recoverable_upto_bound(v, missing, k - 1);
    }
}

/// Number of samples: the request clamped to 8..=1024.
pub open spec fn sample_total(sample_count: u32) -> u32 {
    if sample_count < 8 {
        8
    } else if sample_count > 1024 {
        1024
    } else {
        sample_count
    }
}

/// `n / d` rounded to the nearest integer, a tie going to the even one.
pub open spec fn round_half_even(n: nat, d: nat) -> nat {
    let q = n / d;
    let rem = n % d;
    if 2 * rem > d || (2 * rem == d && q % 2 == 1) {
        q + 1
    } else {
        q
    }
}

/// The least `e` from `from` up to 64 with `r * 2^e >= s * 2^52`: for
/// `0 < r <= s`, the exponent at which `r / s` has a 53-bit significand.
pub open spec fn quotient_exponent(r: nat, s: nat, from: nat) -> nat
    decreases 64 - from,
{
    if from >= 64 || r * pow2(from) >= s * pow2(52) {
        from
    } else {
        quotient_exponent(r, s, from + 1)
    }
}

/// `r / s` (`0 < r <= s`) rounded to the nearest double: a 53-bit
/// significand `m` and an exponent `e`, the value being `m / 2^e`.
pub open spec fn double_quotient(r: nat, s: nat) -> (nat, nat) {
    let e = quotient_exponent(r, s, 52);
    let m = round_half_even(r * pow2(e), s);
    if m == pow2(53) {
        (pow2(52), (e - 1) as nat)
    } else {
        (m, e)
    }
}

/// `100 * m` for a 53-bit significand `m`, rounded to 53 significant bits.
pub open spec fn times_100_rounded(m: nat) -> nat {
    let unit = if 100 * m < pow2(59) {
        pow2(6)
    } else {
        pow2(7)
    };
    round_half_even(100 * m, unit) * unit
}

/// The percentage of `r` out of `s` (`0 <= r <= s`) as computed in double
/// precision and then rounded to the nearest integer, halves away from
/// zero: `r / s` is rounded to the nearest double, and so is its product
/// with 100. A ratio whose exact percentage lies half-way between two
/// integers can therefore come out one lower (23 of 40 gives 57).
pub open spec fn rounded_percent(r: int, s: int) -> int {
    if r <= 0 {
        0
    } else {
        let q = double_quotient(r as nat, s as nat);
        ((2 * times_100_rounded(q.0) + pow2(q.1)) / pow2(q.1 + 1)) as int
    }
}

fn round_half_even_exec(n: u128, d: u128) -> (q: u128)
    requires
        0 < d,
        n < 0x1_0000_0000_0000_0000_0000_0000,
    ensures
        q == round_half_even(n as nat, d as nat),
        q * d <= n + d,
{
    let q = n / d;
    let rem = n % d;
    assert(q * d + rem == n && rem < d) by (nonlinear_arith)
        requires
            q == n / d,
            rem == n % d,
            0 < d,
    ;
    assert(q <= n) by (nonlinear_arith)
        requires
            q * d + rem == n,
            0 < d,
            0 <= rem,
    ;
    if 2 * rem > d || (2 * rem == d && q % 2 == 1) {
        assert((q + 1) * d <= n + d) by (nonlinear_arith)
            requires
                q * d + rem == n,
                0 <= rem,
        ;
        q + 1
    } else {
        q
    }
}

/// `rounded_percent(r, s)`, computed in integers.
fn double_precision_percent(r: u32, s: u32) -> (p: u8)
    requires
        8 <= s <= 1024,
        r <= s,
    ensures
        p == rounded_percent(r as int, s as int),
        p <= 100,
{
    if r == 0 {
        return 0;
    }
    proof {
        lemma2_to64();
        lemma2_to64_rest();
    }
    let rr = r as u128;
    let ss = s as u128;
    let target: u128 = ss * 0x10_0000_0000_0000;
    let mut e: u32 = 52;
    let mut scale: u128 = 0x10_0000_0000_0000;
    assert(rr * scale <= 0x100_0000_0000_0000_0000) by (nonlinear_arith)
        requires
            rr <= 1024,
            scale == 0x10_0000_0000_0000,
    ;
    while e < 62 && rr * scale < target
        invariant
            52 <= e <= 62,
            scale == pow2(e as nat),
            scale <= 0x4000_0000_0000_0000,
            rr * scale <= 0x100_0000_0000_0000_0000,
            rr == r,
            ss == s,
            1 <= r <= s <= 1024,
            target == ss * pow2(52),
            pow2(52) == 0x10_0000_0000_0000,
            pow2(62) == 0x4000_0000_0000_0000,
            quotient_exponent(r as nat, s as nat, 52) == quotient_exponent(r as nat, s as nat, e as nat),
        decreases 62 - e,
    {
        proof {
            lemma_pow2_unfold((e + 1) as nat);
            if e + 1 < 62 {
                lemma_pow2_strictly_increases((e + 1) as nat, 62);
            }
        }
        scale = scale * 2;
        e = e + 1;
        assert(rr * scale <= 0x100_0000_0000_0000_0000) by (nonlinear_arith)
            requires
                rr <= 1024,
                scale <= 0x4000_0000_0000_0000,
        ;
    }
    proof {
        if e == 62 {
            assert(r * pow2(62) >= s * pow2(52)) by (nonlinear_arith)
                requires
                    1 <= r,
                    s <= 1024,
                    pow2(52) == 0x10_0000_0000_0000,
                    pow2(62) == 0x4000_0000_0000_0000,
            ;
        }
        if e > 52 {
            lemma_pow2_strictly_increases(52, e as nat);
        }
        assert(quotient_exponent(r as nat, s as nat, e as nat) == e);
    }
    assert(scale <= 0x4000_0000_0000_0000) by {
        if e < 62 {
            lemma_pow2_strictly_increases(e as nat, 62);
        }
    }
    let n1 = rr * scale;
    assert(n1 <= ss * scale) by (nonlinear_arith)
        requires
            n1 == rr * scale,
            rr <= ss,
    ;
    let m0 = round_half_even_exec(n1, ss);
    assert(m0 <= scale + 1) by (nonlinear_arith)
        requires
            m0 * ss <= n1 + ss,
            n1 <= ss * scale,
            ss >= 1,
    ;
    let mut m = m0;
    let mut ex = e;
    let mut unit_scale = scale;
    if m0 == 0x20_0000_0000_0000 {
        proof {
            lemma_pow2_unfold(e as nat);
            if e > 53 {
                lemma_pow2_strictly_increases(52, (e - 1) as nat);
            }
        }
        m = 0x10_0000_0000_0000;
        ex = e - 1;
        unit_scale = scale / 2;
    }
    assert(unit_scale == pow2(ex as nat) && unit_scale >= 0x10_0000_0000_0000 && m <= unit_scale + 1);
    assert((m as nat, ex as nat) == double_quotient(r as nat, s as nat));
    let p100 = 100 * m;
    let unit: u128 = if p100 < 0x800_0000_0000_0000 {
        64
    } else {
        128
    };
    let p2 = round_half_even_exec(p100, unit) * unit;
    assert(p2 == times_100_rounded(m as nat));
    proof {
        lemma_pow2_unfold((ex + 1) as nat);
    }
    let two_s = 2 * unit_scale;
    let pct = (2 * p2 + unit_scale) / two_s;
    assert(pct <= 100) by (nonlinear_arith)
        requires
            pct == (2 * p2 + unit_scale) / (two_s as int),
            two_s == 2 * unit_scale,
            p2 <= p100 + 128,
            p100 == 100 * m,
            m <= unit_scale + 1,
            unit_scale >= 0x10_0000_0000_0000,
    ;
    pct as u8
}

/// The level's name as `Debug` prints it.
pub open spec fn level_name(level: RaidLevel) -> &'static str {
    match level {
        RaidLevel::Raid0 => "Raid0",
        RaidLevel::Raid1 => "Raid1",
        RaidLevel::Raid4 => "Raid4",
        RaidLevel::Raid5 => "Raid5",
        RaidLevel::Raid6 => "Raid6",
        RaidLevel::Raid10 => "Raid10",
        RaidLevel::Unknown => "Unknown",
    }
}

/// The advice given for a degraded array.
pub open spec fn recommendation_text(level: RaidLevel, missing_count: u32, percent: u8) -> Seq<char> {
    if missing_count == 0 {
        "No missing members detected; run full recovery path."@
    } else if percent >= 95 {
        level_name(level)@
            + " degraded profile appears recoverable; continue with cautious export and parity verification."@
    } else if percent >= 60 {
        level_name(level)@
            + " degraded profile has mixed recoverability; export critical ranges first and validate hashes."@
    } else {
        level_name(level)@
            + " degraded profile has low recoverability; prefer clone-first triage and manual layout overrides."@
    }
}

fn level_label(level: RaidLevel) -> (s: &'static str)
    ensures
        s == level_name(level),
{
    match level {
        RaidLevel::Raid0 => "Raid0",
        RaidLevel::Raid1 => "Raid1",
        RaidLevel::Raid4 => "Raid4",
        RaidLevel::Raid5 => "Raid5",
        RaidLevel::Raid6 => "Raid6",
        RaidLevel::Raid10 => "Raid10",
        RaidLevel::Unknown => "Unknown",
    }
}

/// Builds the advice for a degraded array.
pub fn build_degraded_recommendation(level: RaidLevel, missing_member_count: u32, recoverability_percent: u8) -> (s: String)
    ensures
        s@ == recommendation_text(level, missing_member_count, recoverability_percent),
{
    if missing_member_count == 0 {
        return "No missing members detected; run full recovery path.".to_owned();
    }
    let name = level_label(level).to_owned();
    if recoverability_percent >= 95 {
        name.concat(" degraded profile appears recoverable; continue with cautious export and parity verification.")
    } else if recoverability_percent >= 60 {
        name.concat(" degraded profile has mixed recoverability; export critical ranges first and validate hashes.")
    } else {
        name.concat(" degraded profile has low recoverability; prefer clone-first triage and manual layout overrides.")
    }
}

/// Samples the array at stripe-size steps and reports how much of it can be
/// read with the listed members missing.
pub fn assess_degraded_layout(layout: &RaidLayout, missing_members: &[u32], sample_count: u32) -> (r: Result<
    RaidDegradedAssessment,
    RaidError,
>)
    ensures
        layout.member_count < 2 ==> r == Err::<RaidDegradedAssessment, RaidError>(
            RaidError::InvalidMemberCount(layout.member_count),
        ),
        layout.member_count >= 2 && !valid_stripe(layout.stripe_size_bytes) ==> r == Err::<
            RaidDegradedAssessment,
            RaidError,
        >(RaidError::InvalidStripeSize(layout.stripe_size_bytes)),
        layout.member_count >= 2 && valid_stripe(layout.stripe_size_bytes) && !is_disk_order(
            layout.disk_order@,
            layout.member_count,
        ) ==> r == Err::<RaidDegradedAssessment, RaidError>(RaidError::InvalidDiskOrder),
        r is Ok <==> (layout.member_count >= 2 && valid_stripe(layout.stripe_size_bytes) && is_disk_order(
            layout.disk_order@,
            layout.member_count,
        )),
        r matches Ok(a) ==> {
            let missing = normalized_missing(missing_members@, layout.member_count);
            let samples = sample_total(sample_count);
            let rec = recoverable_upto(layout@, missing, samples as int);
            &&& a.missing_member_count == missing.len()
            &&& a.sample_count == samples
            &&& a.recoverable_sample_count == rec
            &&& a.recoverability_percent == rounded_percent(rec, samples as int)
            &&& a.confidence_penalty == (if 100 - a.recoverability_percent > 60 {
                60
            } else {
                100 - a.recoverability_percent
            })
            &&& a.recommendation@ == recommendation_text(
                layout.level,
                a.missing_member_count,
                a.recoverability_percent,
            )
        },
{
    if layout.member_count < 2 {
        return Err(RaidError::InvalidMemberCount(layout.member_count));
    }
    if !is_valid_stripe_size(layout.stripe_size_bytes) {
        return Err(RaidError::InvalidStripeSize(layout.stripe_size_bytes));
    }
    validate_disk_order(&layout.disk_order, layout.member_count)?;
    let normalized = normalize_missing_members(missing_members, layout.member_count);
    let samples: u32 = if sample_count < 8 {
        8
    } else if sample_count > 1024 {
        1024
    } else {
        sample_count
    };
    let step = layout.stripe_size_bytes as u64;
    let mut recoverable: u32 = 0;
    let mut index: u32 = 0;
    while index < samples
        invariant
            index <= samples <= 1024,
            step == layout.stripe_size_bytes,
            step <= 4194304,
            recoverable == recoverable_upto(layout@, normalized@, index as int),
            normalized@ == normalized_missing(missing_members@, layout.member_count),
        decreases samples - index,
    {
        proof {
            lemma_recoverable_upto_bound(layout@, normalized@, index as int);
        }
        assert((index as u64) * step <= 1024 * 4194304) by (nonlinear_arith)
            requires
                index <= 1024,
                step <= 4194304,
        ;
        let logical_offset = (index as u64) * step;
        match map_logical_offset(layout, logical_offset) {
            Ok(mapping) => {
                if is_mapping_recoverable(layout.level, &mapping, normalized.as_slice()) {
                    recoverable = recoverable + 1;
                }
            },
            Err(_) => {},
        }
        index = index + 1;
    }
    proof {
        lemma_recoverable_upto_bound(layout@, normalized@, samples as int);
    }
    let recoverability_percent = double_precision_percent(recoverable, samples);
    let shortfall: u8 = 100 - recoverability_percent;
    let confidence_penalty: u8 = if shortfall > 60 { 60 } else { shortfall };
    proof {
        lemma_missing_upto_len(missing_members@, layout.member_count, layout.member_count as int);
    }
    let missing_count = normalized.len() as u32;
    let recommendation = build_degraded_recommendation(layout.level, missing_count, recoverability_percent);
    Ok(RaidDegradedAssessment {
        missing_member_count: missing_count,
        sample_count: samples,
        recoverable_sample_count: recoverable,
        recoverability_percent,
        confidence_penalty,
        recommendation,
    })
}

// ---------------------------------------------------------------------------
// Laws
// ---------------------------------------------------------------------------

/// A successful mapping always names members of the disk order, and the
/// member offset never falls before the data offset.
pub proof fn law_mapping_stays_in_layout(v: RaidLayoutView, l: int)
    requires
        0 <= l,
        raid_mapping(v, l) is Ok,
    ensures
        v.disk_order.contains(raid_mapping(v, l)->Ok_0.member_index),
        raid_mapping(v, l)->Ok_0.parity_member_index matches Some(p) ==> v.disk_order.contains(p),
        raid_mapping(v, l)->Ok_0.member_offset_bytes >= v.data_offset_bytes,
{
    let s = v.stripe_size_bytes as int;
    let n = v.member_count as int;
    lemma_div_mod(l, s);
    match v.level {
        RaidLevel::Raid0 => {
            lemma_div_mod(l / s, n);
            let p = (l / s) % n;
            assert(v.disk_order[p] == raid_mapping(v, l)->Ok_0.member_index);
            lemma_div_mod(l / s, n);
            assert(((l / s) / n) * s >= 0) by (nonlinear_arith)
                requires
                    (l / s) / n >= 0,
                    s > 0,
            ;
        },
        RaidLevel::Raid1 => {
            assert(v.disk_order[0] == raid_mapping(v, l)->Ok_0.member_index);
        },
        RaidLevel::Raid4 => {
            let full = s * (n - 1);
            assert(full > 0) by (nonlinear_arith)
                requires
                    s > 0,
                    n >= 2,
                    full == s * (n - 1),
            ;
            lemma_div_mod(l, full);
            let in_set = l % full;
            lemma_div_mod(in_set, s);
            assert(in_set / s < n - 1) by (nonlinear_arith)
                requires
                    in_set < s * (n - 1),
                    (in_set / s) * s <= in_set,
                    s > 0,
            ;
            assert(v.disk_order[in_set / s] == raid_mapping(v, l)->Ok_0.member_index);
            assert(v.disk_order[n - 1] == raid_mapping(v, l)->Ok_0.parity_member_index->0);
            assert((l / full) * s >= 0) by (nonlinear_arith)
                requires
                    l / full >= 0,
                    s > 0,
            ;
        },
        RaidLevel::Raid5 => {
            let full = s * (n - 1);
            assert(full > 0) by (nonlinear_arith)
                requires
                    s > 0,
                    n >= 3,
                    full == s * (n - 1),
            ;
            lemma_div_mod(l, full);
            let set = l / full;
            let in_set = l % full;
            lemma_div_mod(in_set, s);
            lemma_div_mod(set, n);
            let pp = match v.parity_rotation {
                ParityRotation::RightSymmetric => set % n,
                _ => (n - 1 - set % n) % n,
            };
            lemma_div_mod(n - 1 - set % n, n);
            lemma_div_mod(pp + 1 + in_set / s, n);
            assert(v.disk_order[(pp + 1 + in_set / s) % n] == raid_mapping(v, l)->Ok_0.member_index);
            assert(v.disk_order[pp] == raid_mapping(v, l)->Ok_0.parity_member_index->0);
            assert(set * s >= 0) by (nonlinear_arith)
                requires
                    set >= 0,
                    s > 0,
            ;
        },
        RaidLevel::Raid10 => {
            let pairs = n / 2;
            lemma_div_mod(l / s, pairs);
            let pp = (l / s) % pairs;
            assert(2 * pp + 1 < n);
            assert(v.disk_order[2 * pp] == raid_mapping(v, l)->Ok_0.member_index);
            assert(v.disk_order[2 * pp + 1] == raid_mapping(v, l)->Ok_0.parity_member_index->0);
            assert(((l / s) / pairs) * s >= 0) by (nonlinear_arith)
                requires
                    (l / s) / pairs >= 0,
                    s > 0,
            ;
        },
        _ => {},
    }
}

/// On RAID 4 and RAID 5 the data of a byte never sits on the parity member
/// of its stripe.
pub proof fn law_parity_differs_from_data(v: RaidLayoutView, l: int)
    requires
        0 <= l,
        v.level == RaidLevel::Raid4 || v.level == RaidLevel::Raid5,
        raid_mapping(v, l) is Ok,
    ensures
        raid_mapping(v, l)->Ok_0.parity_member_index != Some(raid_mapping(v, l)->Ok_0.member_index),
{
    let s = v.stripe_size_bytes as int;
    let n = v.member_count as int;
    let full = s * (n - 1);
    assert(full > 0) by (nonlinear_arith)
        requires
            s > 0,
            n >= 2,
            full == s * (n - 1),
    ;
    lemma_div_mod(l, full);
    let set = l / full;
    let in_set = l % full;
    lemma_div_mod(in_set, s);
    assert(in_set / s < n - 1) by (nonlinear_arith)
        requires
            in_set < s * (n - 1),
            (in_set / s) * s <= in_set,
            s > 0,
    ;
    if v.level == RaidLevel::Raid4 {
        assert(v.disk_order[in_set / s] != v.disk_order[n - 1]);
    } else {
        lemma_div_mod(set, n);
        let pp = match v.parity_rotation {
            ParityRotation::RightSymmetric => set % n,
            _ => (n - 1 - set % n) % n,
        };
        lemma_div_mod(n - 1 - set % n, n);
        let dp = in_set / s;
        let q = (pp + 1 + dp) % n;
        lemma_div_mod(pp + 1 + dp, n);
        assert(q != pp) by (nonlinear_arith)
            requires
                0 <= pp < n,
                0 <= dp < n - 1,
                q == (pp + 1 + dp) % n,
                pp + 1 + dp == ((pp + 1 + dp) / n) * n + q,
                0 <= q < n,
        ;
        assert(v.disk_order[q] != v.disk_order[pp]);
    }
}

/// An override that sets nothing gives the detected layout back.
pub proof fn law_empty_override_is_identity(base: RaidLayoutView)
    ensures
        overridden(
            base,
            RaidManualOverrideView {
                level: None,
                stripe_size_bytes: None,
                data_offset_bytes: None,
                parity_rotation: None,
                disk_order: None,
            },
        ) == Ok::<RaidLayoutView, RaidError>(base),
{
}

/// A successful override leaves a disk order that is a permutation whenever it
/// replaced the order.
pub proof fn law_override_keeps_valid_order(base: RaidLayoutView, o: RaidManualOverrideView)
    requires
        overridden(base, o) is Ok,
        o.disk_order is Some,
    ensures
        is_disk_order(overridden(base, o)->Ok_0.disk_order, base.member_count),
{
}

/// The detected layouts always carry the identity disk order, at least two
/// members, a valid stripe size and a confidence below 100.
pub proof fn law_detected_layout_well_formed(b: Seq<u8>)
    requires
        detected_layout(b) matches Ok(Some(_)),
    ensures
        ({
            let v = detected_layout(b)->Ok_0->0;
            &&& v.member_count >= 2
            &&& v.disk_order == identity_order(v.member_count)
            &&& is_disk_order(v.disk_order, v.member_count)
            &&& valid_stripe(v.stripe_size_bytes)
            &&& v.confidence_score <= 99
        }),
{
    let v = detected_layout(b)->Ok_0->0;
    assert(is_pow2(65536)) by {
        reveal_with_fuel(is_pow2, 17);
    }
}

/// Whether the level stripes data across members in chunks of the stripe size.
pub open spec fn striped_level(level: RaidLevel) -> bool {
    level == RaidLevel::Raid0 || level == RaidLevel::Raid4 || level == RaidLevel::Raid5 || level == RaidLevel::Raid10
}

/// Data chunks in one stripe row of a striped level with `n` members.
pub open spec fn row_data_chunks(level: RaidLevel, n: int) -> int {
    match level {
        RaidLevel::Raid0 => n,
        RaidLevel::Raid10 => n / 2,
        _ => n - 1,
    }
}

proof fn lemma_chunk_coordinates(l: int, s: int, k: int)
    requires
        0 <= l,
        0 < s,
        0 < k,
    ensures
        s * k > 0,
        (l / s) / k == l / (s * k),
        (l % (s * k)) % s == l % s,
        (l % (s * k)) / s == (l / s) % k,
        l == (l / s) * s + l % s,
        0 <= l % s < s,
{
    lemma_div_denominator(l, s, k);
    lemma_mod_mod(l, s, k);
    lemma_mod_breakdown(l, s, k);
    lemma_div_mod(l, s);
    lemma_div_mod(l / s, k);
    lemma_div_multiples_vanish_fancy((l / s) % k, l % s, s);
}

/// On a striped level (RAID 0, 4, 5, 10), byte `l` of the array lies in
/// stripe row `l / (stripe size * data chunks per row)`, `l % stripe size`
/// bytes into its chunk, and is found on its member at the data offset,
/// plus the row times the stripe size, plus that position in the chunk: so
/// the member offset always lies inside the member's chunk of that row.
pub proof fn law_striped_member_offset_inside_chunk(v: RaidLayoutView, l: int)
    requires
        0 <= l,
        striped_level(v.level),
        raid_mapping(v, l) is Ok,
    ensures
        ({
            let s = v.stripe_size_bytes as int;
            let row = l / (s * row_data_chunks(v.level, v.member_count as int));
            let off = raid_mapping(v, l)->Ok_0.member_offset_bytes as int;
            &&& off == v.data_offset_bytes + row * s + l % s
            &&& v.data_offset_bytes + row * s <= off < v.data_offset_bytes + row * s + s
        }),
{
    let s = v.stripe_size_bytes as int;
    let n = v.member_count as int;
    let k = row_data_chunks(v.level, n);
    assert(k > 0);
    lemma_chunk_coordinates(l, s, k);
    if v.level == RaidLevel::Raid4 || v.level == RaidLevel::Raid5 {
        assert(s * (n - 1) == s * k);
    }
}

/// Two bytes of the array in the same chunk (the same `l / stripe size`)
/// of a striped level lie on the same member, with the same parity member,
/// and as far apart on it as in the array.
pub proof fn law_same_chunk_same_member(v: RaidLayoutView, l1: int, l2: int)
    requires
        0 <= l1,
        0 <= l2,
        striped_level(v.level),
        l1 / (v.stripe_size_bytes as int) == l2 / (v.stripe_size_bytes as int),
        raid_mapping(v, l1) is Ok,
        raid_mapping(v, l2) is Ok,
    ensures
        raid_mapping(v, l1)->Ok_0.member_index == raid_mapping(v, l2)->Ok_0.member_index,
        raid_mapping(v, l1)->Ok_0.parity_member_index == raid_mapping(v, l2)->Ok_0.parity_member_index,
        raid_mapping(v, l2)->Ok_0.member_offset_bytes - raid_mapping(v, l1)->Ok_0.member_offset_bytes == l2 - l1,
{
    let s = v.stripe_size_bytes as int;
    let n = v.member_count as int;
    let k = row_data_chunks(v.level, n);
    assert(k > 0);
    lemma_chunk_coordinates(l1, s, k);
    lemma_chunk_coordinates(l2, s, k);
    law_striped_member_offset_inside_chunk(v, l1);
    law_striped_member_offset_inside_chunk(v, l2);
    if v.level == RaidLevel::Raid4 || v.level == RaidLevel::Raid5 {
        assert(s * (n - 1) == s * k);
    }
}

proof fn lemma_distinct_residues(a: int, b: int, n: int)
    requires
        0 < n,
        0 <= a < b,
        b - a < n,
    ensures
        a % n != b % n,
{
    lemma_div_mod(a, n);
    lemma_div_mod(b, n);
    if a % n == b % n {
        assert(b - a == (b / n - a / n) * n) by (nonlinear_arith)
            requires
                a == (a / n) * n + a % n,
                b == (b / n) * n + b % n,
                a % n == b % n,
        ;
        assert(false) by (nonlinear_arith)
            requires
                b - a == (b / n - a / n) * n,
                0 < b - a < n,
                0 < n,
        ;
    }
}

/// Two bytes of the array in the same stripe row but in different chunks
/// of a striped level lie on different members: a row spreads its data
/// chunks over distinct disks.
pub proof fn law_row_chunks_on_distinct_members(v: RaidLayoutView, l1: int, l2: int)
    requires
        0 <= l1,
        0 <= l2,
        striped_level(v.level),
        l1 / ((v.stripe_size_bytes as int) * row_data_chunks(v.level, v.member_count as int)) == l2 / (
        (v.stripe_size_bytes as int) * row_data_chunks(v.level, v.member_count as int)),
        l1 / (v.stripe_size_bytes as int) != l2 / (v.stripe_size_bytes as int),
        raid_mapping(v, l1) is Ok,
        raid_mapping(v, l2) is Ok,
    ensures
        raid_mapping(v, l1)->Ok_0.member_index != raid_mapping(v, l2)->Ok_0.member_index,
{
    let s = v.stripe_size_bytes as int;
    let n = v.member_count as int;
    let k = row_data_chunks(v.level, n);
    assert(k > 0);
    lemma_chunk_coordinates(l1, s, k);
    lemma_chunk_coordinates(l2, s, k);
    let c1 = (l1 / s) % k;
    let c2 = (l2 / s) % k;
    lemma_div_mod(l1 / s, k);
    lemma_div_mod(l2 / s, k);
    assert(c1 != c2);
    assert(0 <= c1 < k && 0 <= c2 < k);
    let order = v.disk_order;
    if v.level == RaidLevel::Raid4 || v.level == RaidLevel::Raid5 {
        assert(s * (n - 1) == s * k);
    }
    if v.level == RaidLevel::Raid5 {
        let set = l1 / (s * (n - 1));
        let pp = match v.parity_rotation {
            ParityRotation::RightSymmetric => set % n,
            _ => (n - 1 - set % n) % n,
        };
        lemma_div_mod(set, n);
        lemma_div_mod(n - 1 - set % n, n);
        if c1 < c2 {
            lemma_distinct_residues(pp + 1 + c1, pp + 1 + c2, n);
        } else {
            lemma_distinct_residues(pp + 1 + c2, pp + 1 + c1, n);
        }
        lemma_div_mod(pp + 1 + c1, n);
        lemma_div_mod(pp + 1 + c2, n);
        let i1 = (pp + 1 + c1) % n;
        let i2 = (pp + 1 + c2) % n;
        if i1 < i2 {
            assert(order[i1] != order[i2]);
        } else {
            assert(order[i2] != order[i1]);
        }
    } else if v.level == RaidLevel::Raid10 {
        if c1 < c2 {
            assert(order[2 * c1] != order[2 * c2]);
        } else {
            assert(order[2 * c2] != order[2 * c1]);
        }
    } else {
        if c1 < c2 {
            assert(order[c1] != order[c2]);
        } else {
            assert(order[c2] != order[c1]);
        }
    }
}

} // verus!
