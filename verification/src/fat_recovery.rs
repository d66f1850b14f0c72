//! Recovering the data of a FAT32/exFAT file from a volume image: following
//! its cluster chain, falling back to free contiguous clusters where the
//! chain was cleared, and saying what to write.
use vstd::prelude::*;
use crate::bytes::{le32, read_u32_le};
use crate::fat::{cluster_offset_of, fat_boot_of, parse_boot_sector, FatBootSector};
use crate::ntfs::checked_product;
use crate::recovery::{lemma_written_concat, lemma_written_push, write_len, written, DataWrite};
use std::collections::HashSet;

verus! {

broadcast use vstd::std_specs::hash::group_hash_axioms;

/// FAT entries at or above this value end a chain.
pub const FAT_EOC_MIN: u32 = 0x0FFF_FFF8;

/// Whether `n` bytes at `off` lie inside an image of `len` bytes.
pub open spec fn within(len: nat, off: int, n: int) -> bool {
    0 <= off && off + n <= len
}

/// The smaller of two naturals.
pub open spec fn least(a: nat, b: nat) -> nat {
    if a < b {
        a
    } else {
        b
    }
}

/// The FAT entry of cluster `c` (its low 28 bits), 0 when the entry lies
/// past the image; `Err(72)` when its offset overflows.
pub open spec fn fat_entry(img: Seq<u8>, boot: FatBootSector, c: u32) -> Result<u32, i32> {
    match checked_product(boot.fat_offset_sectors as int, boot.bytes_per_sector as int) {
        None => Err(72),
        Some(fo) => if fo + 4 * c > u64::MAX {
            Err(72)
        } else if !within(img.len(), fo + 4 * c, 4) {
            Ok(0)
        } else {
            Ok(((le32(img, fo + 4 * c) as u32) & 0x0FFF_FFFFu32) as u32)
        },
    }
}

/// Reads the FAT entry of `cluster` (see `fat_entry`).
pub fn read_fat_next_cluster(image: &[u8], boot: &FatBootSector, cluster: u32) -> (r: Result<u32, i32>)
    ensures
        r == fat_entry(image@, *boot, cluster),
{
    let fat_offset = match boot.fat_offset_bytes() {
        Some(o) => o,
        None => return Err(72),
    };
    let entry_offset = match fat_offset.checked_add(cluster as u64 * 4) {
        Some(o) => o,
        None => return Err(72),
    };
    let il = image.len() as u64;
    if entry_offset > il || 4 > il - entry_offset {
        return Ok(0);
    }
    Ok(read_u32_le(image, entry_offset as usize) & 0x0FFF_FFFF)
}

/// Free clusters after cluster `c`, one at a time while data is owed: each
/// must be unseen, addressable, free in the FAT (entry 0) and inside the
/// image. Gives the writes, what is still owed, and whether any was used;
/// `Err(72)` when a FAT entry's offset overflows.
pub open spec fn contiguous_fallback(
    img: Seq<u8>,
    boot: FatBootSector,
    cs: nat,
    c: u32,
    rem: nat,
    seen: Set<u32>,
) -> Result<(Seq<DataWrite>, nat, bool), i32>
    decreases rem,
{
    if rem == 0 || c == u32::MAX || cs == 0 {
        Ok((Seq::empty(), rem, false))
    } else {
        let next = (c + 1) as u32;
        if next < 2 || seen.contains(next) {
            Ok((Seq::empty(), rem, false))
        } else {
            match cluster_offset_of(boot, next) {
                None => Ok((Seq::empty(), rem, false)),
                Some(off) => match fat_entry(img, boot, next) {
                    Err(e) => Err(e),
                    Ok(v) => {
                        let n = least(rem, cs);
                        if v != 0 || !within(img.len(), off as int, n as int) {
                            Ok((Seq::empty(), rem, false))
                        } else {
                            match contiguous_fallback(img, boot, cs, next, (rem - n) as nat, seen.insert(next)) {
                                Err(e) => Err(e),
                                Ok((w, r, _)) => Ok((seq![DataWrite::Image(off, n as usize)] + w, r, true)),
                            }
                        }
                    },
                },
            }
        }
    }
}

/// The chain from cluster `c` with `rem` bytes owed and the clusters `seen`:
/// a cluster below 2, seen before, unaddressable or past the image stops
/// it as partial; after each cluster the FAT names the next; a cleared or
/// ending entry while data is owed switches to the contiguous fallback
/// (partial). Gives the writes, whether they are partial, what is still
/// owed, and whether the fallback was used.
pub open spec fn chain_walk(img: Seq<u8>, boot: FatBootSector, cs: nat, c: u32, rem: nat, seen: Set<u32>) -> Result<
    (Seq<DataWrite>, bool, nat, bool),
    i32,
>
    decreases rem,
{
    if rem == 0 || cs == 0 {
        Ok((Seq::empty(), false, rem, false))
    } else if c < 2 || seen.contains(c) {
        Ok((Seq::empty(), true, rem, false))
    } else {
        match cluster_offset_of(boot, c) {
            None => Ok((Seq::empty(), true, rem, false)),
            Some(off) => {
                let n = least(rem, cs);
                if !within(img.len(), off as int, n as int) {
                    Ok((Seq::empty(), true, rem, false))
                } else {
                    let w = DataWrite::Image(off, n as usize);
                    let rem2 = (rem - n) as nat;
                    if rem2 == 0 {
                        Ok((seq![w], false, 0, false))
                    } else {
                        match fat_entry(img, boot, c) {
                            Err(e) => Err(e),
                            Ok(next) => if 2 <= next < FAT_EOC_MIN {
                                match chain_walk(img, boot, cs, next, rem2, seen.insert(c)) {
                                    Err(e) => Err(e),
                                    Ok((ws, p, r, u)) => Ok((seq![w] + ws, p, r, u)),
                                }
                            } else if next == 0 || next >= FAT_EOC_MIN {
                                match contiguous_fallback(img, boot, cs, c, rem2, seen.insert(c)) {
                                    Err(e) => Err(e),
                                    Ok((fw, r, u)) => Ok((seq![w] + fw, true, r, u)),
                                }
                            } else {
                                Ok((seq![w], true, rem2, false))
                            },
                        }
                    }
                }
            },
        }
    }
}

/// The writes that recover a file of `size` bytes starting at cluster
/// `start`, and whether they are partial (a stop, the fallback, or data
/// still owed); `Err(72)` for a zero cluster size or an overflowing FAT
/// offset.
pub open spec fn fat_file_recovery(img: Seq<u8>, boot: FatBootSector, start: u32, size: nat) -> Result<
    (Seq<DataWrite>, bool),
    i32,
> {
    let cs = (boot.bytes_per_sector * boot.sectors_per_cluster) as nat;
    if size == 0 {
        Ok((Seq::empty(), false))
    } else if cs == 0 {
        Err(72)
    } else {
        match chain_walk(img, boot, cs, start, size, Set::empty()) {
            Err(e) => Err(e),
            Ok((w, p, r, u)) => Ok((w, p || u || r > 0)),
        }
    }
}

/// What a fallback run gives once `tail` has been written ahead of it.
pub open spec fn fallback_after(tail: Seq<DataWrite>, r: Result<(Seq<DataWrite>, nat, bool), i32>) -> Result<
    (Seq<DataWrite>, nat, bool),
    i32,
> {
    match r {
        Err(e) => Err(e),
        Ok((w, rem, used)) => Ok((tail + w, rem, tail.len() > 0 || used)),
    }
}

/// Appends to `out` the writes of the contiguous fallback after cluster
/// `current_cluster` (see `contiguous_fallback`), marking the clusters it
/// takes as seen; gives what is still owed and whether any was used.
fn recover_fat_contiguous_fallback(
    image: &[u8],
    boot: &FatBootSector,
    cluster_size: u32,
    current_cluster: u32,
    remaining: u64,
    seen: &mut HashSet<u32>,
    out: &mut Vec<DataWrite>,
) -> (r: Result<(u64, bool), i32>)
    requires
        cluster_size > 0,
        cluster_size == boot.bytes_per_sector * boot.sectors_per_cluster,
    ensures
        match contiguous_fallback(image@, *boot, cluster_size as nat, current_cluster, remaining as nat, old(seen)@) {
            Err(e) => r == Err::<(u64, bool), i32>(e),
            Ok((w, rem, used)) => r == Ok::<(u64, bool), i32>((rem as u64, used)) && final(out)@ == old(out)@ + w,
        },
{
    let ghost img = image@;
    let ghost cs = cluster_size as nat;
    let ghost whole = contiguous_fallback(img, *boot, cs, current_cluster, remaining as nat, seen@);
    let ghost base = out@;
    let ghost mut tail: Seq<DataWrite> = Seq::empty();
    let il = image.len() as u64;
    let mut cur = current_cluster;
    let mut rem = remaining;
    let mut used = false;
    assert(base + tail =~= base);
    loop
        invariant_except_break
            cs == cluster_size as nat,
            cluster_size > 0,
            cluster_size == boot.bytes_per_sector * boot.sectors_per_cluster,
            img == image@,
            il == img.len(),
            out@ == base + tail,
            base == old(out)@,
            whole == contiguous_fallback(img, *boot, cs, current_cluster, remaining as nat, old(seen)@),
            used == (tail.len() > 0),
            whole == fallback_after(tail, contiguous_fallback(img, *boot, cs, cur, rem as nat, seen@)),
        ensures
            out@ == base + tail,
            whole == Ok::<(Seq<DataWrite>, nat, bool), i32>((tail, rem as nat, used)),
        decreases rem,
    {
        if rem == 0 || cur == u32::MAX {
            assert(tail + Seq::<DataWrite>::empty() =~= tail);
            break;
        }
        let next = cur + 1;
        let ghost s0 = seen@;
        if next < 2 || !seen.insert(next) {
            assert(tail + Seq::<DataWrite>::empty() =~= tail);
            break;
        }
        let off = match boot.cluster_offset_bytes(next) {
            Some(o) => o,
            None => {
                assert(tail + Seq::<DataWrite>::empty() =~= tail);
                break;
            },
        };
        let v = match read_fat_next_cluster(image, boot, next) {
            Ok(v) => v,
            Err(e) => {
                assert(contiguous_fallback(img, *boot, cs, cur, rem as nat, s0) == Err::<
                    (Seq<DataWrite>, nat, bool),
                    i32,
                >(e));
                return Err(e);
            },
        };
        let n: u64 = if rem < cluster_size as u64 {
            rem
        } else {
            cluster_size as u64
        };
        if v != 0 || off > il || n > il - off {
            assert(tail + Seq::<DataWrite>::empty() =~= tail);
            break;
        }
        let w = DataWrite::Image(off, n as usize);
        out.push(w);
        proof {
            let later = contiguous_fallback(img, *boot, cs, next, (rem - n) as nat, seen@);
            match later {
                Ok((lw, lr, lu)) => {
                    assert(tail + (seq![w] + lw) =~= tail.push(w) + lw);
                },
                Err(_) => {},
            }
            tail = tail.push(w);
        }
        rem = rem - n;
        cur = next;
        used = true;
    }
    Ok((rem, used))
}

/// What a chain walk gives once `tail` has been written ahead of it.
pub open spec fn walk_after(tail: Seq<DataWrite>, r: Result<(Seq<DataWrite>, bool, nat, bool), i32>) -> Result<
    (Seq<DataWrite>, bool, nat, bool),
    i32,
> {
    match r {
        Err(e) => Err(e),
        Ok((w, p, rem, used)) => Ok((tail + w, p, rem, used)),
    }
}

/// The writes that recover a file of `size_bytes` bytes whose chain starts
/// at `start_cluster`, and whether they are partial (see
/// `fat_file_recovery`).
pub fn recover_fat_candidate_data(image: &[u8], boot: &FatBootSector, start_cluster: u32, size_bytes: u64) -> (r: Result<
    (Vec<DataWrite>, bool),
    i32,
>)
    ensures
        match (r, fat_file_recovery(image@, *boot, start_cluster, size_bytes as nat)) {
            (Ok((ws, p)), Ok((sws, sp))) => ws@ == sws && p == sp,
            (Err(c), Err(sc)) => c == sc,
            _ => false,
        },
{
    let cluster_size = boot.cluster_size_bytes();
    if size_bytes == 0 {
        return Ok((Vec::new(), false));
    }
    if cluster_size == 0 {
        return Err(72);
    }
    let ghost img = image@;
    let ghost cs = cluster_size as nat;
    let ghost whole = chain_walk(img, *boot, cs, start_cluster, size_bytes as nat, Set::empty());
    let il = image.len() as u64;
    let mut out: Vec<DataWrite> = Vec::new();
    let mut seen: HashSet<u32> = HashSet::new();
    let mut cur = start_cluster;
    let mut rem = size_bytes;
    assert(Seq::<DataWrite>::empty() + Seq::<DataWrite>::empty() =~= Seq::<DataWrite>::empty());
    loop
        invariant
            cs == cluster_size as nat,
            cluster_size > 0,
            cluster_size == boot.bytes_per_sector * boot.sectors_per_cluster,
            img == image@,
            il == img.len(),
            rem > 0,
            whole == chain_walk(img, *boot, cs, start_cluster, size_bytes as nat, Set::empty()),
            whole == walk_after(out@, chain_walk(img, *boot, cs, cur, rem as nat, seen@)),
        decreases rem,
    {
        assert(out@ + Seq::<DataWrite>::empty() =~= out@);
        if cur < 2 || !seen.insert(cur) {
            return Ok((out, true));
        }
        let off = match boot.cluster_offset_bytes(cur) {
            Some(o) => o,
            None => return Ok((out, true)),
        };
        let n: u64 = if rem < cluster_size as u64 {
            rem
        } else {
            cluster_size as u64
        };
        if off > il || n > il - off {
            return Ok((out, true));
        }
        let w = DataWrite::Image(off, n as usize);
        let ghost before = out@;
        out.push(w);
        rem = rem - n;
        if rem == 0 {
            assert(before + seq![w] =~= out@);
            return Ok((out, false));
        }
        let next = match read_fat_next_cluster(image, boot, cur) {
            Ok(v) => v,
            Err(e) => return Err(e),
        };
        if 2 <= next && next < FAT_EOC_MIN {
            proof {
                match chain_walk(img, *boot, cs, next, rem as nat, seen@) {
                    Ok((lw, lp, lr, lu)) => {
                        assert(before + (seq![w] + lw) =~= out@ + lw);
                    },
                    Err(_) => {},
                }
            }
            cur = next;
        } else if next == 0 || next >= FAT_EOC_MIN {
            let ghost fb = contiguous_fallback(img, *boot, cs, cur, rem as nat, seen@);
            let ghost mid = out@;
            match recover_fat_contiguous_fallback(image, boot, cluster_size, cur, rem, &mut seen, &mut out) {
                Ok(_) => {
                    proof {
                        match fb {
                            Ok((fw, fr, fu)) => {
                                assert(before + (seq![w] + fw) =~= mid + fw);
                            },
                            Err(_) => {},
                        }
                    }
                    return Ok((out, true));
                },
                Err(e) => return Err(e),
            }
        } else {
            assert(before + seq![w] =~= out@);
            return Ok((out, true));
        }
    }
}

/// What recovering a file from cluster `start` first reads of the image:
/// `Err(75)` for a cluster below 2, `Err(31)` when the image is shorter
/// than a sector, `Err(70)` when its first sector is no FAT32/exFAT boot
/// sector, else that boot sector.
pub open spec fn fat_plan_of(img: Seq<u8>, start: u32) -> Result<FatBootSector, i32> {
    if start < 2 {
        Err(75)
    } else if img.len() < 512 {
        Err(31)
    } else {
        match fat_boot_of(img.take(512)) {
            Ok(b) => Ok(b),
            Err(_) => Err(70),
        }
    }
}

/// Checks the start cluster and reads the boot sector of the volume image
/// (see `fat_plan_of`).
pub fn prepare_fat_file_recovery(image: &[u8], start_cluster: u32) -> (r: Result<FatBootSector, i32>)
    ensures
        r == fat_plan_of(image@, start_cluster),
{
    if start_cluster < 2 {
        return Err(75);
    }
    if image.len() < 512 {
        return Err(31);
    }
    let (sector, _) = image.split_at(512);
    assert(sector@ =~= image@.take(512));
    match parse_boot_sector(sector) {
        Ok(b) => Ok(b),
        Err(_) => Err(70),
    }
}

proof fn lemma_single_write(w: DataWrite)
    ensures
        written(seq![w]) == write_len(w),
{
    assert(seq![w] =~= Seq::<DataWrite>::empty().push(w));
    lemma_written_push(Seq::<DataWrite>::empty(), w);
}

/// The fallback writes exactly what it takes off what is owed, and is
/// used exactly when it writes something.
proof fn lemma_fallback_written(img: Seq<u8>, boot: FatBootSector, cs: nat, c: u32, rem: nat, seen: Set<u32>)
    requires
        cs <= u32::MAX,
    ensures
        contiguous_fallback(img, boot, cs, c, rem, seen) matches Ok((w, r, u)) ==> written(w) + r == rem && u == (w.len()
            > 0),
    decreases rem,
{
    if rem == 0 || c == u32::MAX || cs == 0 {
    } else {
        let next = (c + 1) as u32;
        if next < 2 || seen.contains(next) {
        } else {
            match cluster_offset_of(boot, next) {
                None => {},
                Some(off) => match fat_entry(img, boot, next) {
                    Err(_) => {},
                    Ok(v) => {
                        let n = least(rem, cs);
                        if v != 0 || !within(img.len(), off as int, n as int) {
                        } else {
                            lemma_fallback_written(img, boot, cs, next, (rem - n) as nat, seen.insert(next));
                            match contiguous_fallback(img, boot, cs, next, (rem - n) as nat, seen.insert(next)) {
                                Err(_) => {},
                                Ok((w, r, _)) => {
                                    let x = DataWrite::Image(off, n as usize);
                                    assert(n as usize == n);
                                    lemma_single_write(x);
                                    lemma_written_concat(seq![x], w);
                                },
                            }
                        }
                    },
                },
            }
        }
    }
    assert(written(Seq::<DataWrite>::empty()) == 0);
}

/// A chain walk writes exactly what it takes off what is owed.
proof fn lemma_chain_written(img: Seq<u8>, boot: FatBootSector, cs: nat, c: u32, rem: nat, seen: Set<u32>)
    requires
        0 < cs <= u32::MAX,
    ensures
        chain_walk(img, boot, cs, c, rem, seen) matches Ok((w, p, r, u)) ==> written(w) + r == rem && (!p ==> r == 0 && !u),
    decreases rem,
{
    assert(written(Seq::<DataWrite>::empty()) == 0);
    if rem == 0 || cs == 0 {
    } else if c < 2 || seen.contains(c) {
    } else {
        match cluster_offset_of(boot, c) {
            None => {},
            Some(off) => {
                let n = least(rem, cs);
                if within(img.len(), off as int, n as int) {
                    let x = DataWrite::Image(off, n as usize);
                    assert(n as usize == n);
                    lemma_single_write(x);
                    let rem2 = (rem - n) as nat;
                    if rem2 != 0 {
                        match fat_entry(img, boot, c) {
                            Err(_) => {},
                            Ok(next) => if 2 <= next < FAT_EOC_MIN {
                                lemma_chain_written(img, boot, cs, next, rem2, seen.insert(c));
                                match chain_walk(img, boot, cs, next, rem2, seen.insert(c)) {
                                    Err(_) => {},
                                    Ok((ws, _, _, _)) => lemma_written_concat(seq![x], ws),
                                }
                            } else if next == 0 || next >= FAT_EOC_MIN {
                                lemma_fallback_written(img, boot, cs, c, rem2, seen.insert(c));
                                match contiguous_fallback(img, boot, cs, c, rem2, seen.insert(c)) {
                                    Err(_) => {},
                                    Ok((fw, _, _)) => lemma_written_concat(seq![x], fw),
                                }
                            },
                        }
                    }
                }
            },
        }
    }
}

/// Recovery never yields more bytes than the file's size, and a recovery
/// that is not partial yields exactly the file's size.
pub proof fn law_fat_recovery_fits_file_size(img: Seq<u8>, boot: FatBootSector, start: u32, size: nat)
    ensures
        fat_file_recovery(img, boot, start, size) matches Ok((ws, partial)) ==> written(ws) <= size && (!partial
            ==> written(ws) == size),
{
    assert(written(Seq::<DataWrite>::empty()) == 0);
    let cs = (boot.bytes_per_sector * boot.sectors_per_cluster) as nat;
    assert(boot.bytes_per_sector * boot.sectors_per_cluster <= 65535 * 255) by (nonlinear_arith)
        requires
            boot.bytes_per_sector <= 65535,
            boot.sectors_per_cluster <= 255,
    ;
    if size > 0 && cs > 0 {
        lemma_chain_written(img, boot, cs, start, size, Set::empty());
    }
}

} // verus!
