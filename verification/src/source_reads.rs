//! What to read from a recovery source: how much of its start a scan
//! takes, which window a carve takes, how a read is widened to the
//! source's alignment, and whether a destination is the source itself.
use vstd::prelude::*;
use crate::records::{normalize_max_scan_bytes, DEFAULT_MAX_SCAN_BYTES};
use crate::text::{ascii_lower, ascii_lower_of, chars_of};

verus! {

/// Bytes a prefix scan takes when the source's size is unknown.
pub const DEFAULT_PREFIX_SCAN_BYTES: u64 = 67108864;
/// Most bytes a prefix scan takes.
pub const MAX_PREFIX_SCAN_BYTES: u64 = 268435456;
/// Bytes a carve window takes at most when the source's size is unknown.
pub const UNKNOWN_SIZE_CARVE_WINDOW_BYTES: u64 = 8388608;

/// How many bytes of its start a metadata scan reads from a source of
/// `source_len` bytes (64 MiB when unknown), at most 256 MiB.
pub open spec fn prefix_len_of(source_len: Option<u64>) -> nat {
    let n = match source_len {
        Some(l) => l as nat,
        None => DEFAULT_PREFIX_SCAN_BYTES as nat,
    };
    if n < MAX_PREFIX_SCAN_BYTES {
        n
    } else {
        MAX_PREFIX_SCAN_BYTES as nat
    }
}

/// The length of a metadata scan's prefix (see `prefix_len_of`).
pub fn prefix_scan_len(source_len: Option<u64>) -> (n: usize)
    ensures
        n == prefix_len_of(source_len),
{
    let len = match source_len {
        Some(l) => l,
        None => DEFAULT_PREFIX_SCAN_BYTES,
    };
    if len < MAX_PREFIX_SCAN_BYTES {
        len as usize
    } else {
        MAX_PREFIX_SCAN_BYTES as usize
    }
}

/// How many bytes a carve of the window at `off` of `len` bytes (the
/// default when 0) reads: nothing from the source's end on, else what is
/// left up to the window; with no known size, at most 8 MiB of the window.
pub open spec fn carve_window_len_of(source_len: Option<u64>, off: u64, len: u64) -> nat {
    let window = if len == 0 {
        DEFAULT_MAX_SCAN_BYTES as nat
    } else if len > usize::MAX {
        usize::MAX as nat
    } else {
        len as nat
    };
    match source_len {
        Some(l) => if l <= off {
            0
        } else if l - off < window {
            (l - off) as nat
        } else {
            window
        },
        None => if window < UNKNOWN_SIZE_CARVE_WINDOW_BYTES {
            window
        } else {
            UNKNOWN_SIZE_CARVE_WINDOW_BYTES as nat
        },
    }
}

/// The length a carve window reads (see `carve_window_len_of`).
pub fn carve_window_len(source_len: Option<u64>, window_offset_bytes: u64, window_length_bytes: u64) -> (n: usize)
    ensures
        n == carve_window_len_of(source_len, window_offset_bytes, window_length_bytes),
{
    let window = normalize_max_scan_bytes(window_length_bytes);
    match source_len {
        Some(l) => {
            if l <= window_offset_bytes {
                0
            } else {
                let available = l - window_offset_bytes;
                if available < window {
                    available as usize
                } else {
                    window as usize
                }
            }
        },
        None => {
            if window < UNKNOWN_SIZE_CARVE_WINDOW_BYTES {
                window as usize
            } else {
                UNKNOWN_SIZE_CARVE_WINDOW_BYTES as usize
            }
        },
    }
}

/// `value` rounded up to a multiple of `alignment`, `None` past `usize::MAX`.
pub open spec fn rounded_up(value: nat, alignment: nat) -> Option<nat> {
    let r = value % alignment;
    if r == 0 {
        Some(value)
    } else if value + (alignment - r) > usize::MAX {
        None
    } else {
        Some((value + (alignment - r)) as nat)
    }
}

/// Rounds `value` up to a multiple of `alignment` (see `rounded_up`).
pub fn round_up(value: usize, alignment: usize) -> (r: Option<usize>)
    requires
        alignment > 0,
    ensures
        match (r, rounded_up(value as nat, alignment as nat)) {
            (Some(x), Some(y)) => x == y,
            (None, None) => true,
            _ => false,
        },
{
    let remainder = value % alignment;
    if remainder == 0 {
        return Some(value);
    }
    value.checked_add(alignment - remainder)
}

/// A read widened to the source's alignment.
#[derive(Debug, Clone, Copy, PartialEq, Eq, Structural)]
pub struct AlignedRead {
    /// Where the widened read starts: the offset rounded down.
    pub aligned_offset: u64,
    /// How many bytes of the widened read come before the wanted ones.
    pub prefix_len: usize,
    /// How many bytes the widened read takes.
    pub aligned_len: usize,
}

/// The widened read of `len` bytes at `off` on a source that reads in
/// blocks of `a` bytes: from `off` rounded down, over the wanted bytes,
/// rounded up to whole blocks; `None` when that length passes `usize::MAX`.
pub open spec fn aligned_read_of(off: u64, len: nat, a: nat) -> Option<AlignedRead> {
    let start = (off as nat / a) * a;
    let prefix = off - start;
    if prefix + len > usize::MAX {
        None
    } else {
        match rounded_up((prefix + len) as nat, a) {
            None => None,
            Some(total) => Some(
                AlignedRead { aligned_offset: start as u64, prefix_len: prefix as usize, aligned_len: total as usize },
            ),
        }
    }
}

/// Widens a read of `len` bytes at `offset` to blocks of `alignment` bytes
/// (see `aligned_read_of`).
pub fn aligned_read(offset: u64, len: usize, alignment: usize) -> (r: Option<AlignedRead>)
    requires
        alignment > 1,
    ensures
        r == aligned_read_of(offset, len as nat, alignment as nat),
        r matches Some(w) ==> w.aligned_offset <= offset && w.prefix_len + len <= w.aligned_len && w.aligned_offset
            + w.prefix_len == offset,
{
    let a = alignment as u64;
    assert((offset / a) * a <= offset) by (nonlinear_arith)
        requires
            a > 0,
    ;
    let aligned_offset = (offset / a) * a;
    assert(offset - (offset / a) * a < a) by (nonlinear_arith)
        requires
            a > 0,
    ;
    let prefix_len = (offset - aligned_offset) as usize;
    let required = match prefix_len.checked_add(len) {
        Some(v) => v,
        None => return None,
    };
    match round_up(required, alignment) {
        Some(total) => {
            assert(total >= required) by (nonlinear_arith)
                requires
                    rounded_up(required as nat, alignment as nat) == Some(total as nat),
                    alignment > 0,
            ;
            Some(AlignedRead { aligned_offset, prefix_len, aligned_len: total })
        },
        None => None,
    }
}

/// Whether a destination volume is the source volume: their ids equal
/// under ASCII case folding gives 1, else 0.
pub fn destination_separation_status(source_volume_id: &str, destination_volume_id: &str) -> (r: i32)
    ensures
        r == (if ascii_lower(source_volume_id@) == ascii_lower(destination_volume_id@) {
            1i32
        } else {
            0i32
        }),
{
    let a = chars_of(source_volume_id);
    let b = chars_of(destination_volume_id);
    if a.len() != b.len() {
        assert(ascii_lower(a@).len() != ascii_lower(b@).len());
        return 0;
    }
    let mut i: usize = 0;
    while i < a.len()
        invariant
            a@ == source_volume_id@,
            b@ == destination_volume_id@,
            a@.len() == b@.len(),
            i <= a@.len(),
            forall|k: int| 0 <= k < i ==> ascii_lower(a@)[k] == ascii_lower(b@)[k],
        decreases a@.len() - i,
    {
        if ascii_lower_of(a[i]) != ascii_lower_of(b[i]) {
            assert(ascii_lower(a@)[i as int] != ascii_lower(b@)[i as int]);
            return 0;
        }
        i = i + 1;
    }
    assert(ascii_lower(a@) =~= ascii_lower(b@));
    1
}

} // verus!
