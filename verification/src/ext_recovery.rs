//! Recovering the data of an ext2/3/4 file from a volume image: following
//! its direct, indirect and extent-tree block maps, and saying what to
//! write, piece by piece, and whether the recovered data is complete.
use vstd::prelude::*;
use crate::bytes::{le16, le32, read_u16_le, read_u32_le};
use crate::ext::{ext_superblock_of, parse_superblock, ExtSuperblock};
use crate::recovery::{lemma_written_concat, lemma_written_push, write_len, written, DataWrite};

verus! {

/// The smaller of two naturals.
pub open spec fn min_nat(a: nat, b: nat) -> nat {
    if a < b {
        a
    } else {
        b
    }
}

/// Whether `n` bytes at `off` lie inside an image of `len` bytes.
pub open spec fn in_image(len: nat, off: int, n: int) -> bool {
    0 <= off && off + n <= len
}

/// The data blocks named by the pointers at `table[base + 4 i..]`, entries
/// `i..entries`, with `remaining` bytes owed: each block gives up to `bs`
/// bytes; a zero pointer or a block past the image stops the walk and
/// reports a problem.
pub open spec fn leaf_walk(
    img_len: nat,
    bs: nat,
    table: Seq<u8>,
    base: int,
    entries: nat,
    i: nat,
    remaining: nat,
) -> (Seq<DataWrite>, bool)
    decreases entries - i,
{
    if i >= entries || remaining == 0 {
        (Seq::empty(), false)
    } else {
        let ptr = le32(table, base + 4 * i);
        let n = min_nat(remaining, bs);
        if ptr == 0 || !in_image(img_len, ptr * bs, n as int) {
            (Seq::empty(), true)
        } else {
            let rest = leaf_walk(img_len, bs, table, base, entries, (i + 1) as nat, (remaining - n) as nat);
            (seq![DataWrite::Image((ptr * bs) as u64, n as usize)] + rest.0, rest.1)
        }
    }
}

proof fn lemma_leaf_walk_written(
    img_len: nat,
    bs: nat,
    table: Seq<u8>,
    base: int,
    entries: nat,
    i: nat,
    remaining: nat,
)
    requires
        bs <= u32::MAX,
    ensures
        written(leaf_walk(img_len, bs, table, base, entries, i, remaining).0) <= remaining,
    decreases entries - i,
{
    if !(i >= entries || remaining == 0) {
        let ptr = le32(table, base + 4 * i);
        let n = min_nat(remaining, bs);
        if !(ptr == 0 || !in_image(img_len, ptr * bs, n as int)) {
            let rest = leaf_walk(img_len, bs, table, base, entries, (i + 1) as nat, (remaining - n) as nat);
            lemma_leaf_walk_written(img_len, bs, table, base, entries, (i + 1) as nat, (remaining - n) as nat);
            lemma_written_concat(seq![DataWrite::Image((ptr * bs) as u64, n as usize)], rest.0);
            let w = DataWrite::Image((ptr * bs) as u64, n as usize);
            assert(seq![w] =~= Seq::<DataWrite>::empty().push(w));
            lemma_written_push(Seq::<DataWrite>::empty(), w);
        }
    }
}

/// Walks a table of block pointers, appending the writes to `out`; returns
/// whether a problem stopped it and how many bytes it wrote.
fn walk_leaf(
    image_len: usize,
    bs: u32,
    table: &[u8],
    base: usize,
    entries: usize,
    remaining: u64,
    out: &mut Vec<DataWrite>,
) -> (r: (bool, u64))
    requires
        bs >= 1024,
        base + 4 * entries <= table@.len(),
    ensures
        final(out)@ == old(out)@ + leaf_walk(image_len as nat, bs as nat, table@, base as int, entries as nat, 0, remaining as nat).0,
        r.0 == leaf_walk(image_len as nat, bs as nat, table@, base as int, entries as nat, 0, remaining as nat).1,
        r.1 == written(leaf_walk(image_len as nat, bs as nat, table@, base as int, entries as nat, 0, remaining as nat).0),
{
    let ghost start = out@;
    let ghost whole = leaf_walk(image_len as nat, bs as nat, table@, base as int, entries as nat, 0, remaining as nat);
    let tl = table.len();
    let mut left = remaining;
    let mut i: usize = 0;
    proof {
        lemma_leaf_walk_written(image_len as nat, bs as nat, table@, base as int, entries as nat, 0, remaining as nat);
    }
    while i < entries && left > 0
        invariant
            start == old(out)@,
            bs >= 1024,
            tl == table@.len(),
            base + 4 * entries <= tl,
            i <= entries,
            left <= remaining,
            whole == leaf_walk(image_len as nat, bs as nat, table@, base as int, entries as nat, 0, remaining as nat),
            ({
                let rest = leaf_walk(image_len as nat, bs as nat, table@, base as int, entries as nat, i as nat, left as nat);
                &&& whole.0 == (out@.subrange(start.len() as int, out@.len() as int)) + rest.0
                &&& whole.1 == rest.1
            }),
            out@.subrange(0, start.len() as int) == start,
            out@.len() >= start.len(),
            written(out@.subrange(start.len() as int, out@.len() as int)) == remaining - left,
        decreases entries - i,
    {
        let ptr = read_u32_le(table, base + 4 * i);
        let n: u64 = if left < bs as u64 {
            left
        } else {
            bs as u64
        };
        assert(ptr as u64 * bs as u64 <= u64::MAX) by (nonlinear_arith)
            requires
                ptr <= u32::MAX,
                bs <= u32::MAX,
        ;
        let off: u64 = ptr as u64 * bs as u64;
        if ptr == 0 || off > image_len as u64 || n > image_len as u64 - off {
            assert(leaf_walk(image_len as nat, bs as nat, table@, base as int, entries as nat, i as nat, left as nat).0
                =~= Seq::<DataWrite>::empty());
            assert(out@ =~= start + out@.subrange(start.len() as int, out@.len() as int));
            assert(whole.0 =~= out@.subrange(start.len() as int, out@.len() as int));
            return (true, remaining - left);
        }
        let ghost before = out@;
        out.push(DataWrite::Image(off, n as usize));
        proof {
            let w = DataWrite::Image(off, n as usize);
            assert(out@.subrange(start.len() as int, out@.len() as int) =~= before.subrange(
                start.len() as int,
                before.len() as int,
            ).push(w));
            lemma_written_push(before.subrange(start.len() as int, before.len() as int), w);
            assert(out@.subrange(0, start.len() as int) =~= before.subrange(0, start.len() as int));
        }
        left = left - n;
        i = i + 1;
    }
    proof {
        assert(leaf_walk(image_len as nat, bs as nat, table@, base as int, entries as nat, i as nat, left as nat).0
            =~= Seq::<DataWrite>::empty());
        assert(out@ =~= start + out@.subrange(start.len() as int, out@.len() as int));
        assert(whole.0 =~= out@.subrange(start.len() as int, out@.len() as int));
    }
    (false, remaining - left)
}

/// The data under an indirect table of `depth` levels (1: a table of data
/// block pointers), entries `i..` of `table`, with `remaining` bytes owed.
/// A zero pointer, a table or block past the image stops the whole walk
/// and reports a problem; a lower-level walk that ends without one goes on
/// with the next entry.
pub open spec fn tree_walk(img: Seq<u8>, bs: nat, table: Seq<u8>, depth: nat, i: nat, remaining: nat) -> (
    Seq<DataWrite>,
    bool,
)
    decreases depth, bs / 4 - i,
{
    if depth <= 1 {
        leaf_walk(img.len(), bs, table, 0, bs / 4, i, remaining)
    } else if i >= bs / 4 || remaining == 0 {
        (Seq::empty(), false)
    } else {
        let ptr = le32(table, 4 * i as int);
        if ptr == 0 || !in_image(img.len(), ptr * bs, bs as int) {
            (Seq::empty(), true)
        } else {
            let child = img.subrange(ptr * bs, ptr * bs + bs);
            let c = tree_walk(img, bs, child, (depth - 1) as nat, 0, remaining);
            if c.1 {
                c
            } else {
                let rest = tree_walk(img, bs, table, depth, (i + 1) as nat, (remaining - written(c.0)) as nat);
                (c.0 + rest.0, rest.1)
            }
        }
    }
}

proof fn lemma_tree_walk_written(img: Seq<u8>, bs: nat, table: Seq<u8>, depth: nat, i: nat, remaining: nat)
    requires
        bs <= u32::MAX,
    ensures
        written(tree_walk(img, bs, table, depth, i, remaining).0) <= remaining,
    decreases depth, bs / 4 - i,
{
    if depth <= 1 {
        lemma_leaf_walk_written(img.len(), bs, table, 0, bs / 4, i, remaining);
    } else if !(i >= bs / 4 || remaining == 0) {
        let ptr = le32(table, 4 * i as int);
        if !(ptr == 0 || !in_image(img.len(), ptr * bs, bs as int)) {
            let child = img.subrange(ptr * bs, ptr * bs + bs);
            let c = tree_walk(img, bs, child, (depth - 1) as nat, 0, remaining);
            lemma_tree_walk_written(img, bs, child, (depth - 1) as nat, 0, remaining);
            if !c.1 {
                let rest_remaining = (remaining - written(c.0)) as nat;
                lemma_tree_walk_written(img, bs, table, depth, (i + 1) as nat, rest_remaining);
                lemma_written_concat(c.0, tree_walk(img, bs, table, depth, (i + 1) as nat, rest_remaining).0);
            }
        }
    }
}

/// Walks an indirect table of `depth` levels, appending the writes to
/// `out`; returns whether a problem stopped it and how many bytes it wrote.
fn walk_tree(image: &[u8], bs: u32, table: &[u8], depth: u32, remaining: u64, out: &mut Vec<DataWrite>) -> (r: (
    bool,
    u64,
))
    requires
        bs >= 1024,
        table@.len() == bs,
    ensures
        final(out)@ == old(out)@ + tree_walk(image@, bs as nat, table@, depth as nat, 0, remaining as nat).0,
        r.0 == tree_walk(image@, bs as nat, table@, depth as nat, 0, remaining as nat).1,
        r.1 == written(tree_walk(image@, bs as nat, table@, depth as nat, 0, remaining as nat).0),
    decreases depth,
{
    let entries = (bs / 4) as usize;
    if depth <= 1 {
        return walk_leaf(image.len(), bs, table, 0, entries, remaining, out);
    }
    let ghost start = out@;
    let ghost whole = tree_walk(image@, bs as nat, table@, depth as nat, 0, remaining as nat);
    let il = image.len();
    let mut left = remaining;
    let mut i: usize = 0;
    proof {
        lemma_tree_walk_written(image@, bs as nat, table@, depth as nat, 0, remaining as nat);
    }
    while i < entries && left > 0
        invariant
            start == old(out)@,
            bs >= 1024,
            depth >= 2,
            table@.len() == bs,
            entries == bs / 4,
            il == image@.len(),
            i <= entries,
            left <= remaining,
            whole == tree_walk(image@, bs as nat, table@, depth as nat, 0, remaining as nat),
            ({
                let rest = tree_walk(image@, bs as nat, table@, depth as nat, i as nat, left as nat);
                &&& whole.0 == (out@.subrange(start.len() as int, out@.len() as int)) + rest.0
                &&& whole.1 == rest.1
            }),
            out@.subrange(0, start.len() as int) == start,
            out@.len() >= start.len(),
            written(out@.subrange(start.len() as int, out@.len() as int)) == remaining - left,
        decreases entries - i,
    {
        let ptr = read_u32_le(table, 4 * i);
        assert(ptr as u64 * bs as u64 <= u64::MAX) by (nonlinear_arith)
            requires
                ptr <= u32::MAX,
                bs <= u32::MAX,
        ;
        let off: u64 = ptr as u64 * bs as u64;
        if ptr == 0 || off > il as u64 || bs as u64 > il as u64 - off {
            assert(tree_walk(image@, bs as nat, table@, depth as nat, i as nat, left as nat).0 =~= Seq::<DataWrite>::empty());
            assert(out@ =~= start + out@.subrange(start.len() as int, out@.len() as int));
            assert(whole.0 =~= out@.subrange(start.len() as int, out@.len() as int));
            return (true, remaining - left);
        }
        let (_, tail) = image.split_at(off as usize);
        let (child, _) = tail.split_at(bs as usize);
        assert(child@ =~= image@.subrange(ptr * bs, ptr * bs + bs));
        let ghost before = out@;
        let ghost c = tree_walk(image@, bs as nat, child@, (depth - 1) as nat, 0, left as nat);
        let (problem, got) = walk_tree(image, bs, child, depth - 1, left, out);
        proof {
            lemma_tree_walk_written(image@, bs as nat, child@, (depth - 1) as nat, 0, left as nat);
            let sub_before = before.subrange(start.len() as int, before.len() as int);
            assert(out@.subrange(start.len() as int, out@.len() as int) =~= sub_before + c.0);
            lemma_written_concat(sub_before, c.0);
            assert(out@.subrange(0, start.len() as int) =~= before.subrange(0, start.len() as int));
        }
        if problem {
            assert(out@ =~= start + out@.subrange(start.len() as int, out@.len() as int));
            assert(whole.0 =~= out@.subrange(start.len() as int, out@.len() as int));
            return (true, remaining - left + got);
        }
        left = left - got;
        i = i + 1;
    }
    proof {
        assert(tree_walk(image@, bs as nat, table@, depth as nat, i as nat, left as nat).0 =~= Seq::<DataWrite>::empty());
        assert(out@ =~= start + out@.subrange(start.len() as int, out@.len() as int));
        assert(whole.0 =~= out@.subrange(start.len() as int, out@.len() as int));
    }
    (false, remaining - left)
}

/// The writes of the indirect stage of `depth` levels whose table is block
/// `p`: none and partial when the pointer is zero or the table lies past the
/// image; a double or triple stage that leaves data owed is partial too.
pub open spec fn indirect_stage(img: Seq<u8>, bs: nat, p: int, depth: nat, remaining: nat) -> (Seq<DataWrite>, bool) {
    if p == 0 || !in_image(img.len(), p * bs, bs as int) {
        (Seq::empty(), true)
    } else {
        let w = tree_walk(img, bs, img.subrange(p * bs, p * bs + bs), depth, 0, remaining);
        (w.0, w.1 || (depth >= 2 && written(w.0) < remaining))
    }
}

/// A stage that runs only while data is owed.
pub open spec fn stage_if_owed(img: Seq<u8>, bs: nat, p: int, depth: nat, remaining: nat) -> (Seq<DataWrite>, bool) {
    if remaining > 0 {
        indirect_stage(img, bs, p, depth, remaining)
    } else {
        (Seq::empty(), false)
    }
}

/// Offset of the block pointers in an inode.
pub const EXT_INODE_BLOCK_POINTERS_OFFSET: usize = 40;
/// Offset of the inode flags.
pub const EXT_INODE_FLAGS_OFFSET: usize = 32;
/// The inode flag of an extent-mapped file.
pub const EXT_INODE_FLAG_EXTENTS: u32 = 0x0008_0000;

/// The data of a file mapped by block pointers: the 12 direct blocks, then
/// the single, double and triple indirect stages while data is owed; it is
/// partial when a stage is, or when data is still owed at the end.
pub open spec fn block_map_recovery(img: Seq<u8>, bs: nat, inode: Seq<u8>, size: nat) -> (Seq<DataWrite>, bool) {
    let d = leaf_walk(img.len(), bs, inode, 40, 12, 0, size);
    let r1 = (size - written(d.0)) as nat;
    let s1 = stage_if_owed(img, bs, le32(inode, 88), 1, r1);
    let r2 = (r1 - written(s1.0)) as nat;
    let s2 = stage_if_owed(img, bs, le32(inode, 92), 2, r2);
    let r3 = (r2 - written(s2.0)) as nat;
    let s3 = stage_if_owed(img, bs, le32(inode, 96), 3, r3);
    let r4 = (r3 - written(s3.0)) as nat;
    (d.0 + s1.0 + s2.0 + s3.0, d.1 || s1.1 || s2.1 || s3.1 || r4 > 0)
}

proof fn lemma_stage_written(img: Seq<u8>, bs: nat, p: int, depth: nat, remaining: nat)
    requires
        bs <= u32::MAX,
    ensures
        written(stage_if_owed(img, bs, p, depth, remaining).0) <= remaining,
{
    if remaining > 0 && !(p == 0 || !in_image(img.len(), p * bs, bs as int)) {
        lemma_tree_walk_written(img, bs, img.subrange(p * bs, p * bs + bs), depth, 0, remaining);
    }
}

fn run_stage(image: &[u8], bs: u32, p: u32, depth: u32, remaining: u64, out: &mut Vec<DataWrite>) -> (r: (bool, u64))
    requires
        bs >= 1024,
    ensures
        final(out)@ == old(out)@ + stage_if_owed(image@, bs as nat, p as int, depth as nat, remaining as nat).0,
        r.0 == stage_if_owed(image@, bs as nat, p as int, depth as nat, remaining as nat).1,
        r.1 == written(stage_if_owed(image@, bs as nat, p as int, depth as nat, remaining as nat).0),
{
    if remaining == 0 {
        assert(old(out)@ + Seq::<DataWrite>::empty() =~= old(out)@);
        return (false, 0);
    }
    let il = image.len();
    assert(p as u64 * bs as u64 <= u64::MAX) by (nonlinear_arith)
        requires
            p <= u32::MAX,
            bs <= u32::MAX,
    ;
    let off: u64 = p as u64 * bs as u64;
    if p == 0 || off > il as u64 || bs as u64 > il as u64 - off {
        assert(old(out)@ + Seq::<DataWrite>::empty() =~= old(out)@);
        return (true, 0);
    }
    let (_, tail) = image.split_at(off as usize);
    let (table, _) = tail.split_at(bs as usize);
    assert(table@ =~= image@.subrange(p * bs, p * bs + bs));
    let (problem, got) = walk_tree(image, bs, table, depth, remaining, out);
    (problem || (depth >= 2 && got < remaining), got)
}

/// The writes of a file mapped by block pointers (see
/// `block_map_recovery`); `inode` holds at least the 15 pointers.
fn recover_block_map(image: &[u8], bs: u32, inode: &[u8], file_size: u64) -> (r: (Vec<DataWrite>, bool))
    requires
        bs >= 1024,
        inode@.len() >= 100,
    ensures
        r.0@ == block_map_recovery(image@, bs as nat, inode@, file_size as nat).0,
        r.1 == block_map_recovery(image@, bs as nat, inode@, file_size as nat).1,
{
    let ghost img = image@;
    let ghost b = bs as nat;
    let mut out: Vec<DataWrite> = Vec::new();
    let (p0, w0) = walk_leaf(image.len(), bs, inode, 40, 12, file_size, &mut out);
    proof {
        lemma_leaf_walk_written(img.len(), b, inode@, 40, 12, 0, file_size as nat);
    }
    let r1 = file_size - w0;
    let ghost o1 = out@;
    let (p1, w1) = run_stage(image, bs, read_u32_le(inode, 88), 1, r1, &mut out);
    proof {
        lemma_stage_written(img, b, le32(inode@, 88), 1, r1 as nat);
    }
    let r2 = r1 - w1;
    let (p2, w2) = run_stage(image, bs, read_u32_le(inode, 92), 2, r2, &mut out);
    proof {
        lemma_stage_written(img, b, le32(inode@, 92), 2, r2 as nat);
    }
    let r3 = r2 - w2;
    let (p3, w3) = run_stage(image, bs, read_u32_le(inode, 96), 3, r3, &mut out);
    proof {
        lemma_stage_written(img, b, le32(inode@, 96), 3, r3 as nat);
    }
    let r4 = r3 - w3;
    let ghost spec_r = block_map_recovery(img, b, inode@, file_size as nat);
    assert(out@ =~= spec_r.0);
    (out, p0 || p1 || p2 || p3 || r4 > 0)
}

// ---------------------------------------------------------------------------
// Extent trees
// ---------------------------------------------------------------------------

/// A run of blocks from an extent leaf.
#[derive(Debug, Clone, Copy, PartialEq, Eq, Structural)]
pub struct ExtentRun {
    pub logical_block: u64,
    pub physical_block: u64,
    pub block_count: u64,
    pub is_uninitialized: bool,
}

pub const EXTENT_HEADER_MAGIC: u16 = 0xF30A;
pub const EXTENT_HEADER_SIZE: usize = 12;
pub const EXTENT_RECORD_SIZE: usize = 12;

/// The entry count and depth of an extent node: its header has the magic,
/// no more entries than room, and a depth of at most 5.
pub open spec fn extent_header(node: Seq<u8>) -> Option<(u16, u16)> {
    if node.len() < 12 || le16(node, 0) != 0xF30A || le16(node, 2) > le16(node, 4) || le16(node, 6) > 5 {
        None
    } else {
        Some((le16(node, 2) as u16, le16(node, 6) as u16))
    }
}

/// Parses an extent node header.
pub fn parse_ext_extent_header(node_bytes: &[u8]) -> (r: Option<(u16, u16)>)
    ensures
        r == extent_header(node_bytes@),
{
    if node_bytes.len() < EXTENT_HEADER_SIZE {
        return None;
    }
    if read_u16_le(node_bytes, 0) != EXTENT_HEADER_MAGIC {
        return None;
    }
    let entry_count = read_u16_le(node_bytes, 2);
    let max_entries = read_u16_le(node_bytes, 4);
    if entry_count > max_entries {
        return None;
    }
    let depth = read_u16_le(node_bytes, 6);
    if depth > 5 {
        return None;
    }
    Some((entry_count, depth))
}

/// The number of entries a node's header claims (0 when it is too short).
pub open spec fn claimed_entries(node: Seq<u8>) -> int {
    if node.len() < 12 {
        0
    } else {
        le16(node, 2)
    }
}

/// Bound on how deep the tree below a node may go.
pub open spec fn depth_budget(expected: Option<u16>) -> int {
    match expected {
        Some(e) => e as int,
        None => 6,
    }
}

/// The run of a leaf entry at `eo`; its length field's top bit marks the
/// run uninitialized.
pub open spec fn leaf_run(node: Seq<u8>, eo: int) -> ExtentRun {
    let raw = le16(node, eo + 4);
    ExtentRun {
        logical_block: le32(node, eo) as u64,
        physical_block: (le16(node, eo + 6) * 0x1_0000_0000 + le32(node, eo + 8)) as u64,
        block_count: (raw % 0x8000) as u64,
        is_uninitialized: raw >= 0x8000,
    }
}

/// The block an index entry at `eo` points to.
pub open spec fn index_child(node: Seq<u8>, eo: int) -> int {
    le16(node, eo + 8) * 0x1_0000_0000 + le32(node, eo + 4)
}

/// `r` with `p` or-ed into its partial flag.
pub open spec fn with_partial(r: Option<(Seq<ExtentRun>, bool)>, p: bool) -> Option<(Seq<ExtentRun>, bool)> {
    match r {
        Some((runs, q)) => Some((runs, q || p)),
        None => None,
    }
}

/// The runs of the entries `i..` of an extent node and whether some entry
/// could not be followed; `None` when a header is bad, a depth is not the
/// one expected, or an entry runs past its node. Empty leaf runs are
/// skipped; a leaf run at block 0 that is not uninitialized, a zero child
/// pointer, or a child past the image marks the result partial.
pub open spec fn node_runs(img: Seq<u8>, bs: nat, node: Seq<u8>, expected: Option<u16>, i: nat) -> Option<
    (Seq<ExtentRun>, bool),
>
    decreases depth_budget(expected), claimed_entries(node) - i,
{
    match extent_header(node) {
        None => None,
        Some((count, depth)) => {
            if expected is Some && expected->0 != depth {
                None
            } else if i >= count {
                Some((Seq::empty(), false))
            } else if 12 + 12 * i + 12 > node.len() {
                None
            } else {
                let eo = 12 + 12 * (i as int);
                let rest = node_runs(img, bs, node, expected, (i + 1) as nat);
                if depth == 0 {
                    let run = leaf_run(node, eo);
                    if run.block_count == 0 {
                        rest
                    } else if run.physical_block == 0 && !run.is_uninitialized {
                        with_partial(rest, true)
                    } else {
                        match rest {
                            Some((runs, q)) => Some((seq![run] + runs, q)),
                            None => None,
                        }
                    }
                } else {
                    let child = index_child(node, eo);
                    if child == 0 || child * bs > u64::MAX || !in_image(img.len(), child * bs, bs as int) {
                        with_partial(rest, true)
                    } else {
                        match node_runs(img, bs, img.subrange(child * bs, child * bs + bs), Some((depth - 1) as u16), 0) {
                            None => None,
                            Some((cr, cp)) => match rest {
                                Some((rr, rp)) => Some((cr + rr, cp || rp)),
                                None => None,
                            },
                        }
                    }
                }
            }
        },
    }
}

/// The runs `base` with the runs of `r` after them, and the partial flags
/// or-ed.
pub open spec fn joined_runs(base: Seq<ExtentRun>, p: bool, r: Option<(Seq<ExtentRun>, bool)>) -> Option<
    (Seq<ExtentRun>, bool),
> {
    match r {
        Some((rr, rp)) => Some((base + rr, p || rp)),
        None => None,
    }
}

proof fn lemma_split48(hi: u16, lo: u32)
    ensures
        ((hi as u64) << 32u64) | (lo as u64) == hi * 0x1_0000_0000 + lo,
{
    let h = hi as u64;
    let l = lo as u64;
    assert((h << 32u64) | l == h * 0x1_0000_0000u64 + l) by (bit_vector)
        requires
            h < 0x10000u64,
            l < 0x1_0000_0000u64,
    ;
}

/// Collects the runs of an extent node and the nodes below it, appending
/// them to `runs` and setting `partial` when some entry could not be
/// followed (see `node_runs`); `Err(91)` on a malformed node.
pub fn collect_ext_extent_runs(
    image: &[u8],
    bs: u32,
    node: &[u8],
    expected_depth: Option<u16>,
    runs: &mut Vec<ExtentRun>,
    partial: &mut bool,
) -> (r: Result<(), i32>)
    requires
        bs >= 1024,
    ensures
        match node_runs(image@, bs as nat, node@, expected_depth, 0) {
            Some((rs, p)) => r is Ok && final(runs)@ == old(runs)@ + rs && *final(partial) == (*old(partial) || p),
            None => r == Err::<(), i32>(91),
        },
    decreases depth_budget(expected_depth),
{
    let ghost img = image@;
    let ghost b = bs as nat;
    let ghost start_runs = runs@;
    let ghost start_p = *partial;
    let (count, depth) = match parse_ext_extent_header(node) {
        Some(h) => h,
        None => return Err(91),
    };
    match expected_depth {
        Some(e) => {
            if depth != e {
                return Err(91);
            }
        },
        None => {},
    }
    let nl = node.len();
    let il = image.len();
    let mut i: usize = 0;
    assert(runs@ =~= start_runs + Seq::<ExtentRun>::empty());
    while i < count as usize
        invariant
            extent_header(node@) == Some((count, depth)),
            expected_depth is Some ==> expected_depth->0 == depth,
            nl == node@.len(),
            il == image@.len(),
            img == image@,
            b == bs as nat,
            bs >= 1024,
            i <= count,
            start_runs == old(runs)@,
            start_p == *old(partial),
            joined_runs(start_runs, start_p, node_runs(img, b, node@, expected_depth, 0)) == joined_runs(
                runs@,
                *partial,
                node_runs(img, b, node@, expected_depth, i as nat),
            ),
        decreases count - i,
    {
        let ghost here = node_runs(img, b, node@, expected_depth, i as nat);
        let ghost rest = node_runs(img, b, node@, expected_depth, (i + 1) as nat);
        let ghost runs_before = runs@;
        let ghost p_before = *partial;
        let eo = 12 + 12 * i;
        if eo + 12 > nl {
            return Err(91);
        }
        if depth == 0 {
            let logical = read_u32_le(node, eo) as u64;
            let raw = read_u16_le(node, eo + 4);
            let block_count = (raw & 0x7FFF) as u64;
            let uninitialized = (raw & 0x8000) != 0;
            assert(raw & 0x7FFF == raw % 0x8000 && ((raw & 0x8000) != 0) == (raw >= 0x8000)) by (bit_vector);
            let hi = read_u16_le(node, eo + 6);
            let lo = read_u32_le(node, eo + 8);
            proof {
                lemma_split48(hi, lo);
            }
            let physical = ((hi as u64) << 32) | lo as u64;
            let run = ExtentRun { logical_block: logical, physical_block: physical, block_count, is_uninitialized: uninitialized };
            assert(run == leaf_run(node@, eo as int));
            if block_count == 0 {
            } else if physical == 0 && !uninitialized {
                *partial = true;
            } else {
                runs.push(run);
                proof {
                    match rest {
                        Some((rr, rp)) => {
                            assert(runs_before + (seq![run] + rr) =~= runs@ + rr);
                        },
                        None => {},
                    }
                }
            }
        } else {
            let lo = read_u32_le(node, eo + 4);
            let hi = read_u16_le(node, eo + 8);
            proof {
                lemma_split48(hi, lo);
            }
            let child = ((hi as u64) << 32) | lo as u64;
            assert(child == index_child(node@, eo as int));
            if child == 0 {
                *partial = true;
            } else {
                match child.checked_mul(bs as u64) {
                    None => {
                        *partial = true;
                    },
                    Some(off) => {
                        if off > il as u64 || bs as u64 > il as u64 - off {
                            *partial = true;
                        } else {
                            let (_, tail) = image.split_at(off as usize);
                            let (child_node, _) = tail.split_at(bs as usize);
                            assert(child_node@ =~= img.subrange(child * b, child * b + b));
                            let ghost sub = node_runs(img, b, child_node@, Some((depth - 1) as u16), 0);
                            let status = collect_ext_extent_runs(image, bs, child_node, Some(depth - 1), runs, partial);
                            match status {
                                Err(e) => {
                                    return Err(e);
                                },
                                Ok(()) => {},
                            }
                            proof {
                                match (sub, rest) {
                                    (Some((cr, cp)), Some((rr, rp))) => {
                                        assert(runs_before + (cr + rr) =~= runs@ + rr);
                                    },
                                    _ => {},
                                }
                            }
                        }
                    },
                }
            }
        }
        i = i + 1;
    }
    assert(runs@ + Seq::<ExtentRun>::empty() =~= runs@);
    Ok(())
}

/// The first index at or after `j` whose run starts after block `lb`, or
/// the length.
pub open spec fn run_insert_pos(s: Seq<ExtentRun>, lb: u64, j: int) -> int
    decreases s.len() - j,
{
    if j >= s.len() {
        s.len() as int
    } else if s[j].logical_block > lb {
        j
    } else {
        run_insert_pos(s, lb, j + 1)
    }
}

/// The runs ordered by logical block, runs of equal start in their order
/// in `s` (a stable sort).
pub open spec fn sorted_runs(s: Seq<ExtentRun>) -> Seq<ExtentRun>
    decreases s.len(),
{
    if s.len() == 0 {
        Seq::empty()
    } else {
        let t = sorted_runs(s.drop_last());
        t.insert(run_insert_pos(t, s.last().logical_block, 0), s.last())
    }
}

proof fn lemma_run_insert_pos_bounds(s: Seq<ExtentRun>, lb: u64, j: int)
    requires
        0 <= j <= s.len(),
    ensures
        j <= run_insert_pos(s, lb, j) <= s.len(),
    decreases s.len() - j,
{
    if j < s.len() && s[j].logical_block <= lb {
        lemma_run_insert_pos_bounds(s, lb, j + 1);
    }
}

fn sort_runs_by_logical_block(v: &Vec<ExtentRun>) -> (r: Vec<ExtentRun>)
    ensures
        r@ == sorted_runs(v@),
{
    let mut r: Vec<ExtentRun> = Vec::new();
    let mut i: usize = 0;
    while i < v.len()
        invariant
            i <= v@.len(),
            r@ == sorted_runs(v@.take(i as int)),
        decreases v@.len() - i,
    {
        let x = v[i];
        let mut p: usize = 0;
        while p < r.len() && r[p].logical_block <= x.logical_block
            invariant
                p <= r@.len(),
                run_insert_pos(r@, x.logical_block, 0) == run_insert_pos(r@, x.logical_block, p as int),
            decreases r@.len() - p,
        {
            p = p + 1;
        }
        assert(v@.take(i + 1).drop_last() =~= v@.take(i as int));
        r.insert(p, x);
        i = i + 1;
    }
    assert(v@.take(v@.len() as int) =~= v@);
    r
}

/// Block `e` plus one, saturating.
pub open spec fn next_block(e: nat) -> nat {
    if e >= u64::MAX {
        e
    } else {
        e + 1
    }
}

/// Zero blocks for the hole between logical block `e` and `target`, while
/// data is owed; gives the writes, the next block and what is still owed.
pub open spec fn gap_fill(bs: nat, e: nat, target: nat, rem: nat) -> (Seq<DataWrite>, nat, nat)
    decreases target - e,
{
    if e >= target || rem == 0 {
        (Seq::empty(), e, rem)
    } else {
        let n = min_nat(rem, bs);
        let g = gap_fill(bs, e + 1, target, (rem - n) as nat);
        (seq![DataWrite::Zeros(n as usize)] + g.0, g.1, g.2)
    }
}

/// The blocks `idx..` of a run, while data is owed: zeros for an
/// uninitialized run, else the run's blocks of the image; a block number
/// or offset that overflows, or a block past the image, stops everything.
/// Gives the writes, the next logical block, what is still owed, and
/// whether it stopped.
pub open spec fn run_blocks(img_len: nat, bs: nat, run: ExtentRun, idx: nat, e: nat, rem: nat) -> (
    Seq<DataWrite>,
    nat,
    nat,
    bool,
)
    decreases run.block_count - idx,
{
    if idx >= run.block_count || rem == 0 {
        (Seq::empty(), e, rem, false)
    } else {
        let n = min_nat(rem, bs);
        if run.is_uninitialized {
            let r = run_blocks(img_len, bs, run, idx + 1, next_block(e), (rem - n) as nat);
            (seq![DataWrite::Zeros(n as usize)] + r.0, r.1, r.2, r.3)
        } else {
            let phys = run.physical_block + idx;
            if phys > u64::MAX || phys * bs > u64::MAX || !in_image(img_len, phys * bs, n as int) {
                (Seq::empty(), e, rem, true)
            } else {
                let r = run_blocks(img_len, bs, run, idx + 1, next_block(e), (rem - n) as nat);
                (seq![DataWrite::Image((phys * bs) as u64, n as usize)] + r.0, r.1, r.2, r.3)
            }
        }
    }
}

/// The runs `k..` (ordered by logical block) from logical block `e` on,
/// while data is owed: holes before a run become zeros; a run that starts
/// before `e` (an overlap) stops everything as partial. Gives the writes,
/// whether they are partial, and whether they stopped early.
pub open spec fn emit_runs(img_len: nat, bs: nat, runs: Seq<ExtentRun>, k: nat, e: nat, rem: nat) -> (
    Seq<DataWrite>,
    bool,
    bool,
)
    decreases runs.len() - k,
{
    if k >= runs.len() || rem == 0 {
        (Seq::empty(), false, false)
    } else {
        let run = runs[k as int];
        if run.logical_block < e {
            (Seq::empty(), true, true)
        } else {
            let g = gap_fill(bs, e, run.logical_block as nat, rem);
            if g.2 == 0 {
                (g.0, false, false)
            } else {
                let b = run_blocks(img_len, bs, run, 0, g.1, g.2);
                if b.3 {
                    (g.0 + b.0, true, true)
                } else {
                    let r = emit_runs(img_len, bs, runs, k + 1, b.1, b.2);
                    (g.0 + b.0 + r.0, r.1, r.2)
                }
            }
        }
    }
}

/// Zeros for the `rem` bytes still owed, a block at a time.
pub open spec fn tail_zeros(bs: nat, rem: nat) -> Seq<DataWrite>
    decreases rem,
{
    if rem == 0 || bs == 0 {
        Seq::empty()
    } else {
        let n = min_nat(rem, bs);
        seq![DataWrite::Zeros(n as usize)] + tail_zeros(bs, (rem - n) as nat)
    }
}

/// The data of an extent-mapped file whose tree root is `root`: `None`
/// when the tree is malformed; no data and partial when it has no runs;
/// else its runs in logical order with holes as zeros and, unless the runs
/// stopped early, zeros up to the file size. Partial when some entry could
/// not be followed, the runs stopped, or data is still owed.
pub open spec fn extent_recovery(img: Seq<u8>, bs: nat, root: Seq<u8>, size: nat) -> Option<(Seq<DataWrite>, bool)> {
    if size == 0 {
        Some((Seq::empty(), false))
    } else {
        match node_runs(img, bs, root, None, 0) {
            None => None,
            Some((runs, p0)) => if runs.len() == 0 {
                Some((Seq::empty(), true))
            } else {
                let e = emit_runs(img.len(), bs, sorted_runs(runs), 0, 0, size);
                let rem = (size - written(e.0)) as nat;
                let t = if e.2 {
                    Seq::empty()
                } else {
                    tail_zeros(bs, rem)
                };
                Some((e.0 + t, p0 || e.1 || rem - written(t) > 0))
            },
        }
    }
}

/// The writes appended to `out` since it held `start` items.
pub open spec fn appended(out: Seq<DataWrite>, start: Seq<DataWrite>) -> Seq<DataWrite> {
    out.subrange(start.len() as int, out.len() as int)
}

fn push_write(out: &mut Vec<DataWrite>, w: DataWrite, Ghost(start): Ghost<Seq<DataWrite>>)
    requires
        old(out)@.len() >= start.len(),
        old(out)@.subrange(0, start.len() as int) == start,
    ensures
        final(out)@ == old(out)@.push(w),
        final(out)@.len() >= start.len(),
        final(out)@.subrange(0, start.len() as int) == start,
        appended(final(out)@, start) == appended(old(out)@, start).push(w),
        written(appended(final(out)@, start)) == written(appended(old(out)@, start)) + write_len(w),
{
    let ghost before = out@;
    out.push(w);
    assert(appended(out@, start) =~= appended(before, start).push(w));
    assert(out@.subrange(0, start.len() as int) =~= before.subrange(0, start.len() as int));
    proof {
        lemma_written_push(appended(before, start), w);
    }
}

/// Appends the zeros of a hole (see `gap_fill`); returns the next block and
/// what is still owed.
fn fill_gap(bs: u32, e: u64, target: u64, rem: u64, out: &mut Vec<DataWrite>) -> (r: (u64, u64))
    requires
        bs >= 1024,
    ensures
        final(out)@ == old(out)@ + gap_fill(bs as nat, e as nat, target as nat, rem as nat).0,
        r.0 == gap_fill(bs as nat, e as nat, target as nat, rem as nat).1,
        r.1 == gap_fill(bs as nat, e as nat, target as nat, rem as nat).2,
        written(gap_fill(bs as nat, e as nat, target as nat, rem as nat).0) == rem - r.1,
{
    let ghost start = out@;
    let ghost whole = gap_fill(bs as nat, e as nat, target as nat, rem as nat);
    let mut expected = e;
    let mut left = rem;
    assert(appended(out@, start) =~= Seq::<DataWrite>::empty());
    assert(out@.subrange(0, start.len() as int) =~= start);
    while expected < target && left > 0
        invariant
            start == old(out)@,
            bs >= 1024,
            left <= rem,
            out@.len() >= start.len(),
            out@.subrange(0, start.len() as int) == start,
            written(appended(out@, start)) == rem - left,
            whole == gap_fill(bs as nat, e as nat, target as nat, rem as nat),
            whole.0 == appended(out@, start) + gap_fill(bs as nat, expected as nat, target as nat, left as nat).0,
            whole.1 == gap_fill(bs as nat, expected as nat, target as nat, left as nat).1,
            whole.2 == gap_fill(bs as nat, expected as nat, target as nat, left as nat).2,
        decreases target - expected,
    {
        let n: u64 = if left < bs as u64 {
            left
        } else {
            bs as u64
        };
        let ghost a = appended(out@, start);
        push_write(out, DataWrite::Zeros(n as usize), Ghost(start));
        assert(a + (seq![DataWrite::Zeros(n as usize)] + gap_fill(bs as nat, (expected + 1) as nat, target as nat, (left - n) as nat).0)
            =~= appended(out@, start) + gap_fill(bs as nat, (expected + 1) as nat, target as nat, (left - n) as nat).0);
        expected = expected + 1;
        left = left - n;
    }
    assert(whole.0 =~= appended(out@, start));
    assert(out@ =~= start + appended(out@, start));
    (expected, left)
}

/// Appends the blocks of a run (see `run_blocks`); returns the next block,
/// what is still owed, and whether it stopped.
fn emit_run_blocks(image_len: usize, bs: u32, run: ExtentRun, e: u64, rem: u64, out: &mut Vec<DataWrite>) -> (r: (
    u64,
    u64,
    bool,
))
    requires
        bs >= 1024,
    ensures
        final(out)@ == old(out)@ + run_blocks(image_len as nat, bs as nat, run, 0, e as nat, rem as nat).0,
        r.0 == run_blocks(image_len as nat, bs as nat, run, 0, e as nat, rem as nat).1,
        r.1 == run_blocks(image_len as nat, bs as nat, run, 0, e as nat, rem as nat).2,
        r.2 == run_blocks(image_len as nat, bs as nat, run, 0, e as nat, rem as nat).3,
        written(run_blocks(image_len as nat, bs as nat, run, 0, e as nat, rem as nat).0) == rem - r.1,
{
    let ghost start = out@;
    let ghost whole = run_blocks(image_len as nat, bs as nat, run, 0, e as nat, rem as nat);
    let mut expected = e;
    let mut left = rem;
    let mut idx: u64 = 0;
    let mut stop = false;
    assert(appended(out@, start) =~= Seq::<DataWrite>::empty());
    assert(out@.subrange(0, start.len() as int) =~= start);
    while idx < run.block_count && left > 0 && !stop
        invariant
            start == old(out)@,
            bs >= 1024,
            left <= rem,
            idx <= run.block_count,
            out@.len() >= start.len(),
            out@.subrange(0, start.len() as int) == start,
            written(appended(out@, start)) == rem - left,
            whole == run_blocks(image_len as nat, bs as nat, run, 0, e as nat, rem as nat),
            stop ==> whole.0 == appended(out@, start) && whole.1 == expected && whole.2 == left && whole.3,
            !stop ==> ({
                let rb = run_blocks(image_len as nat, bs as nat, run, idx as nat, expected as nat, left as nat);
                &&& whole.0 == appended(out@, start) + rb.0
                &&& whole.1 == rb.1
                &&& whole.2 == rb.2
                &&& whole.3 == rb.3
            }),
        decreases run.block_count - idx, if stop { 0int } else { 1int },
    {
        let n: u64 = if left < bs as u64 {
            left
        } else {
            bs as u64
        };
        let next_e = expected.saturating_add(1);
        let ghost a = appended(out@, start);
        if run.is_uninitialized {
            push_write(out, DataWrite::Zeros(n as usize), Ghost(start));
            assert(a + (seq![DataWrite::Zeros(n as usize)] + run_blocks(image_len as nat, bs as nat, run, (idx + 1) as nat, next_e as nat, (left - n) as nat).0)
                =~= appended(out@, start) + run_blocks(image_len as nat, bs as nat, run, (idx + 1) as nat, next_e as nat, (left - n) as nat).0);
            expected = next_e;
            left = left - n;
            idx = idx + 1;
        } else {
            match run.physical_block.checked_add(idx) {
                None => {
                    stop = true;
                    assert(whole.0 =~= a);
                },
                Some(phys) => match phys.checked_mul(bs as u64) {
                    None => {
                        stop = true;
                        assert(whole.0 =~= a);
                    },
                    Some(off) => {
                        if off > image_len as u64 || n > image_len as u64 - off {
                            stop = true;
                            assert(whole.0 =~= a);
                        } else {
                            push_write(out, DataWrite::Image(off, n as usize), Ghost(start));
                            assert(a + (seq![DataWrite::Image(off, n as usize)] + run_blocks(image_len as nat, bs as nat, run, (idx + 1) as nat, next_e as nat, (left - n) as nat).0)
                                =~= appended(out@, start) + run_blocks(image_len as nat, bs as nat, run, (idx + 1) as nat, next_e as nat, (left - n) as nat).0);
                            expected = next_e;
                            left = left - n;
                            idx = idx + 1;
                        }
                    },
                },
            }
        }
    }
    if !stop {
        assert(whole.0 =~= appended(out@, start));
    }
    assert(out@ =~= start + appended(out@, start));
    (expected, left, stop)
}

/// Appends the writes of the runs (see `emit_runs`); returns whether they
/// are partial, whether they stopped early, and what is still owed.
fn emit_extent_runs(image_len: usize, bs: u32, runs: &Vec<ExtentRun>, size: u64, out: &mut Vec<DataWrite>) -> (r: (
    bool,
    bool,
    u64,
))
    requires
        bs >= 1024,
    ensures
        final(out)@ == old(out)@ + emit_runs(image_len as nat, bs as nat, runs@, 0, 0, size as nat).0,
        r.0 == emit_runs(image_len as nat, bs as nat, runs@, 0, 0, size as nat).1,
        r.1 == emit_runs(image_len as nat, bs as nat, runs@, 0, 0, size as nat).2,
        written(emit_runs(image_len as nat, bs as nat, runs@, 0, 0, size as nat).0) == size - r.2,
{
    let ghost start = out@;
    let ghost whole = emit_runs(image_len as nat, bs as nat, runs@, 0, 0, size as nat);
    let mut expected: u64 = 0;
    let mut left = size;
    let mut k: usize = 0;
    let mut partial = false;
    let mut stopped = false;
    let mut done = false;
    assert(appended(out@, start) =~= Seq::<DataWrite>::empty());
    assert(out@.subrange(0, start.len() as int) =~= start);
    while k < runs.len() && left > 0 && !done
        invariant
            start == old(out)@,
            bs >= 1024,
            left <= size,
            k <= runs@.len(),
            out@.len() >= start.len(),
            out@.subrange(0, start.len() as int) == start,
            written(appended(out@, start)) == size - left,
            whole == emit_runs(image_len as nat, bs as nat, runs@, 0, 0, size as nat),
            done ==> whole.0 == appended(out@, start) && whole.1 == partial && whole.2 == stopped,
            !done ==> !partial && !stopped,
            !done ==> ({
                let er = emit_runs(image_len as nat, bs as nat, runs@, k as nat, expected as nat, left as nat);
                &&& whole.0 == appended(out@, start) + er.0
                &&& whole.1 == er.1
                &&& whole.2 == er.2
            }),
        decreases runs@.len() - k, if done { 0int } else { 1int },
    {
        let run = runs[k];
        let ghost a = appended(out@, start);
        if run.logical_block < expected {
            partial = true;
            stopped = true;
            done = true;
            assert(whole.0 =~= a);
        } else {
            let ghost g = gap_fill(bs as nat, expected as nat, run.logical_block as nat, left as nat);
            let (e1, l1) = fill_gap(bs, expected, run.logical_block, left, out);
            proof {
                assert(appended(out@, start) =~= a + g.0);
                lemma_written_concat(a, g.0);
            }
            if l1 == 0 {
                done = true;
                assert(whole.0 =~= appended(out@, start));
                expected = e1;
                left = l1;
            } else {
                let ghost a1 = appended(out@, start);
                let ghost b = run_blocks(image_len as nat, bs as nat, run, 0, e1 as nat, l1 as nat);
                let (e2, l2, stop) = emit_run_blocks(image_len, bs, run, e1, l1, out);
                proof {
                    assert(appended(out@, start) =~= a1 + b.0);
                    lemma_written_concat(a1, b.0);
                    assert(out@.subrange(0, start.len() as int) =~= start);
                }
                expected = e2;
                left = l2;
                if stop {
                    partial = true;
                    stopped = true;
                    done = true;
                    assert(whole.0 =~= appended(out@, start));
                } else {
                    let ghost r = emit_runs(image_len as nat, bs as nat, runs@, (k + 1) as nat, e2 as nat, l2 as nat);
                    assert(a + (g.0 + b.0 + r.0) =~= appended(out@, start) + r.0);
                    k = k + 1;
                }
            }
        }
    }
    if !done {
        assert(whole.0 =~= appended(out@, start));
    }
    assert(out@ =~= start + appended(out@, start));
    (partial, stopped, left)
}

/// Appends zeros for the `rem` bytes still owed (see `tail_zeros`).
fn fill_tail(bs: u32, rem: u64, out: &mut Vec<DataWrite>)
    requires
        bs >= 1024,
    ensures
        final(out)@ == old(out)@ + tail_zeros(bs as nat, rem as nat),
        written(tail_zeros(bs as nat, rem as nat)) == rem,
{
    let ghost start = out@;
    let ghost whole = tail_zeros(bs as nat, rem as nat);
    let mut left = rem;
    assert(appended(out@, start) =~= Seq::<DataWrite>::empty());
    assert(out@.subrange(0, start.len() as int) =~= start);
    while left > 0
        invariant
            start == old(out)@,
            bs >= 1024,
            left <= rem,
            out@.len() >= start.len(),
            out@.subrange(0, start.len() as int) == start,
            written(appended(out@, start)) == rem - left,
            whole == tail_zeros(bs as nat, rem as nat),
            whole == appended(out@, start) + tail_zeros(bs as nat, left as nat),
        decreases left,
    {
        let n: u64 = if left < bs as u64 {
            left
        } else {
            bs as u64
        };
        let ghost a = appended(out@, start);
        push_write(out, DataWrite::Zeros(n as usize), Ghost(start));
        assert(a + (seq![DataWrite::Zeros(n as usize)] + tail_zeros(bs as nat, (left - n) as nat)) =~= appended(out@, start)
            + tail_zeros(bs as nat, (left - n) as nat));
        left = left - n;
    }
    assert(whole =~= appended(out@, start));
    assert(out@ =~= start + appended(out@, start));
}

/// The writes of an extent-mapped file (see `extent_recovery`); `Err(91)`
/// when its tree is malformed.
pub fn recover_ext_extent_tree_data(image: &[u8], bs: u32, root_node: &[u8], file_size: u64) -> (r: Result<
    (Vec<DataWrite>, bool),
    i32,
>)
    requires
        bs >= 1024,
    ensures
        match (r, extent_recovery(image@, bs as nat, root_node@, file_size as nat)) {
            (Ok((ws, p)), Some((sws, sp))) => ws@ == sws && p == sp,
            (Err(code), None) => code == 91,
            _ => false,
        },
{
    if file_size == 0 {
        return Ok((Vec::new(), false));
    }
    let mut runs: Vec<ExtentRun> = Vec::new();
    let mut partial = false;
    match collect_ext_extent_runs(image, bs, root_node, None, &mut runs, &mut partial) {
        Err(e) => return Err(e),
        Ok(()) => {},
    }
    assert(runs@ =~= Seq::<ExtentRun>::empty() + runs@);
    if runs.len() == 0 {
        return Ok((Vec::new(), true));
    }
    let sorted = sort_runs_by_logical_block(&runs);
    let mut out: Vec<DataWrite> = Vec::new();
    let (p1, stopped, left) = emit_extent_runs(image.len(), bs, &sorted, file_size, &mut out);
    let ghost e = emit_runs(image@.len(), bs as nat, sorted@, 0, 0, file_size as nat);
    assert(out@ =~= e.0);
    let mut rest = left;
    if !stopped {
        fill_tail(bs, left, &mut out);
        rest = 0;
    }
    proof {
        if stopped {
            assert(out@ =~= e.0 + Seq::<DataWrite>::empty());
        }
    }
    Ok((out, partial || p1 || rest > 0))
}

/// The data of an ext file from its inode: nothing for an empty file;
/// `Err(91)` for a block size under 1024 or an inode too short for its
/// block map; then by the extent tree or by the block pointers.
pub open spec fn ext_data_recovery(img: Seq<u8>, bs: nat, inode: Seq<u8>, size: nat) -> Option<(Seq<DataWrite>, bool)> {
    if size == 0 {
        Some((Seq::empty(), false))
    } else if bs < 1024 || inode.len() < 100 {
        None
    } else if (le32(inode, 32) as u32) & EXT_INODE_FLAG_EXTENTS != 0 {
        extent_recovery(img, bs, inode.subrange(40, 100), size)
    } else {
        Some(block_map_recovery(img, bs, inode, size))
    }
}

/// The writes that recover the data of the file with inode bytes `inode`
/// and size `file_size` from the volume image `image` (see
/// `ext_data_recovery`), and whether the data is partial.
pub fn recover_ext_candidate_data(image: &[u8], superblock: &ExtSuperblock, inode: &[u8], file_size: u64) -> (r: Result<
    (Vec<DataWrite>, bool),
    i32,
>)
    ensures
        match (r, ext_data_recovery(image@, superblock.block_size_bytes as nat, inode@, file_size as nat)) {
            (Ok((ws, p)), Some((sws, sp))) => ws@ == sws && p == sp,
            (Err(code), None) => code == 91,
            _ => false,
        },
{
    if file_size == 0 {
        return Ok((Vec::new(), false));
    }
    let bs = superblock.block_size_bytes;
    if bs < 1024 || inode.len() < EXT_INODE_BLOCK_POINTERS_OFFSET + 15 * 4 {
        return Err(91);
    }
    let flags = read_u32_le(inode, EXT_INODE_FLAGS_OFFSET);
    if flags & EXT_INODE_FLAG_EXTENTS != 0 {
        let (_, tail) = inode.split_at(EXT_INODE_BLOCK_POINTERS_OFFSET);
        let (root, _) = tail.split_at(15 * 4);
        assert(root@ =~= inode@.subrange(40, 100));
        return recover_ext_extent_tree_data(image, bs, root, file_size);
    }
    Ok(recover_block_map(image, bs, inode, file_size))
}

// ---------------------------------------------------------------------------
// Locating and reading an inode
// ---------------------------------------------------------------------------

/// `a + b` capped at the largest `u64`.
pub open spec fn sat_add(a: nat, b: nat) -> nat {
    if a + b > u64::MAX {
        u64::MAX as nat
    } else {
        a + b
    }
}

/// The number of block groups: the larger of the groups the block count
/// and the inode count need.
pub open spec fn group_count(sb: ExtSuperblock) -> nat {
    let by_blocks = if sb.blocks_per_group == 0 {
        0
    } else {
        sat_add(sb.blocks_count as nat, (sb.blocks_per_group - 1) as nat) / (sb.blocks_per_group as nat)
    };
    let by_inodes = if sb.inodes_per_group == 0 {
        0
    } else {
        sat_add(sb.inodes_count as nat, (sb.inodes_per_group - 1) as nat) / (sb.inodes_per_group as nat)
    };
    if by_blocks < by_inodes {
        by_inodes
    } else {
        by_blocks
    }
}

/// The number of block groups of a volume.
pub fn ext_group_count(superblock: &ExtSuperblock) -> (n: u64)
    ensures
        n == group_count(*superblock),
{
    let by_blocks = if superblock.blocks_per_group == 0 {
        0
    } else {
        superblock.blocks_count.saturating_add(superblock.blocks_per_group as u64 - 1) / superblock.blocks_per_group as u64
    };
    let by_inodes = if superblock.inodes_per_group == 0 {
        0
    } else {
        (superblock.inodes_count as u64).saturating_add(superblock.inodes_per_group as u64 - 1)
            / superblock.inodes_per_group as u64
    };
    if by_blocks < by_inodes {
        by_inodes
    } else {
        by_blocks
    }
}

/// Where the group descriptor table starts: after the superblock's block.
pub open spec fn first_descriptor_offset(sb: ExtSuperblock) -> nat {
    if sb.block_size_bytes == 1024 {
        2048
    } else {
        sb.block_size_bytes as nat
    }
}

/// The offset of the first group descriptor.
pub fn ext_first_group_descriptor_offset(superblock: &ExtSuperblock) -> (o: u64)
    ensures
        o == first_descriptor_offset(*superblock),
{
    if superblock.block_size_bytes == 1024 {
        2048
    } else {
        superblock.block_size_bytes as u64
    }
}

/// The image offset of inode `n` (counted from 1): through its group's
/// descriptor, which must lie inside the image and name an inode table;
/// `None` for inode 0, an empty geometry, a group past the last, or an
/// offset that overflows.
pub open spec fn inode_offset(img: Seq<u8>, sb: ExtSuperblock, n: nat) -> Option<nat> {
    let ipg = sb.inodes_per_group as nat;
    if n == 0 || ipg == 0 || group_count(sb) == 0 {
        None
    } else {
        let group = ((n - 1) as nat) / ipg;
        let in_group = ((n - 1) as nat) % ipg;
        let desc = first_descriptor_offset(sb) + if group * 32 > u64::MAX { u64::MAX as nat } else { group * 32 };
        if group >= group_count(sb) || desc > u64::MAX || !in_image(img.len(), desc as int, 32) {
            None
        } else {
            let table_block = le32(img, desc as int + 8);
            let table = table_block * sb.block_size_bytes;
            let delta = in_group * sb.inode_size_bytes;
            if table_block == 0 || table > u64::MAX || delta > u64::MAX || table + delta > u64::MAX {
                None
            } else {
                Some((table + delta) as nat)
            }
        }
    }
}

/// The image offset of inode `inode_number` (see `inode_offset`).
pub fn locate_ext_inode_offset(image: &[u8], superblock: &ExtSuperblock, inode_number: u64) -> (r: Option<u64>)
    ensures
        match r {
            Some(o) => inode_offset(image@, *superblock, inode_number as nat) == Some(o as nat),
            None => inode_offset(image@, *superblock, inode_number as nat) is None,
        },
{
    if inode_number == 0 {
        return None;
    }
    let inodes_per_group = superblock.inodes_per_group as u64;
    if inodes_per_group == 0 {
        return None;
    }
    let group_count = ext_group_count(superblock);
    if group_count == 0 {
        return None;
    }
    let inode_index = inode_number - 1;
    let group_index = inode_index / inodes_per_group;
    let index_in_group = inode_index % inodes_per_group;
    if group_index >= group_count {
        return None;
    }
    let descriptor_delta: u64 = if group_index > u64::MAX / 32 {
        u64::MAX
    } else {
        group_index * 32
    };
    let descriptor_offset = match ext_first_group_descriptor_offset(superblock).checked_add(descriptor_delta) {
        Some(o) => o,
        None => return None,
    };
    let il = image.len() as u64;
    if descriptor_offset > il || 32 > il - descriptor_offset {
        return None;
    }
    let inode_table_block = read_u32_le(image, descriptor_offset as usize + 8);
    if inode_table_block == 0 {
        return None;
    }
    let block_size = superblock.block_size_bytes as u64;
    let inode_size = superblock.inode_size_bytes as u64;
    let inode_table_offset = match (inode_table_block as u64).checked_mul(block_size) {
        Some(o) => o,
        None => return None,
    };
    let inode_delta = match index_in_group.checked_mul(inode_size) {
        Some(d) => d,
        None => return None,
    };
    match inode_table_offset.checked_add(inode_delta) {
        Some(o) => Some(o),
        None => None,
    }
}

/// An inode ready for recovery: where it lies, its bytes, the file size it
/// records, and whether it is a symbolic link whose target is stored in
/// the inode itself.
#[derive(Debug, Clone)]
pub struct ExtFilePlan {
    pub superblock: ExtSuperblock,
    pub inode_offset: u64,
    pub inode: Vec<u8>,
    pub file_size: u64,
    pub inline_symlink: bool,
}

/// The file type bits of an inode mode: regular file, symbolic link or
/// directory.
pub open spec fn recoverable_mode(mode: int) -> bool {
    let t = (mode as u16) & 0xF000u16;
    t == 0x8000u16 || t == 0xA000u16 || t == 0x4000u16
}

/// The size an inode records: the high half only when the inode is large
/// enough to hold it.
pub open spec fn recorded_size(inode: Seq<u8>) -> nat {
    let hi = if inode.len() >= 0x6C + 4 {
        le32(inode, 0x6C)
    } else {
        0
    };
    (hi * 0x1_0000_0000 + le32(inode, 4)) as nat
}

/// The plan for recovering inode `n` of the volume image `img`: `Err(31)`
/// when the image is shorter than 4096 bytes, `Err(90)` when its first
/// 4096 bytes hold no ext superblock, `Err(91)` when the inode cannot be
/// located or read, is smaller than 128 bytes, or is not a regular file,
/// symbolic link or directory.
pub open spec fn file_plan_of(img: Seq<u8>, n: nat) -> Result<(ExtSuperblock, nat, Seq<u8>, nat, bool), i32> {
    if img.len() < 4096 {
        Err(31)
    } else {
        match ext_superblock_of(img.take(4096)) {
            Err(_) => Err(90),
            Ok(sb) => match inode_offset(img, sb, n) {
                None => Err(91),
                Some(off) => {
                    let isz = sb.inode_size_bytes as nat;
                    if isz < 128 || !in_image(img.len(), off as int, isz as int) {
                        Err(91)
                    } else {
                        let inode = img.subrange(off as int, off as int + isz);
                        let mode = le16(inode, 0);
                        if !recoverable_mode(mode) {
                            Err(91)
                        } else {
                            let size = recorded_size(inode);
                            let symlink = ((mode as u16) & 0xF000u16) == 0xA000u16;
                            Ok((sb, off, inode, size, symlink && size <= 60))
                        }
                    }
                }
            },
        }
    }
}

/// Reads the superblock and inode `inode_number` of the volume image
/// (see `file_plan_of`).
pub fn prepare_ext_file_recovery(image: &[u8], inode_number: u64) -> (r: Result<ExtFilePlan, i32>)
    ensures
        match (r, file_plan_of(image@, inode_number as nat)) {
            (Ok(p), Ok((sb, off, inode, size, inline))) => p.superblock == sb && p.inode_offset == off && p.inode@
                == inode && p.file_size == size && p.inline_symlink == inline,
            (Err(c), Err(sc)) => c == sc,
            _ => false,
        },
{
    let il = image.len();
    if il < 4096 {
        return Err(31);
    }
    let (header, _) = image.split_at(4096);
    let superblock = match parse_superblock(header) {
        Ok(sb) => sb,
        Err(_) => return Err(90),
    };
    let inode_offset = match locate_ext_inode_offset(image, &superblock, inode_number) {
        Some(o) => o,
        None => return Err(91),
    };
    let inode_size = superblock.inode_size_bytes as usize;
    if inode_size < 128 || inode_offset > il as u64 || inode_size as u64 > il as u64 - inode_offset {
        return Err(91);
    }
    let (_, tail) = image.split_at(inode_offset as usize);
    let (inode_bytes, _) = tail.split_at(inode_size);
    let mut inode: Vec<u8> = Vec::new();
    let mut k: usize = 0;
    while k < inode_size
        invariant
            inode_size == inode_bytes@.len(),
            k <= inode_size,
            inode@ == inode_bytes@.take(k as int),
        decreases inode_size - k,
    {
        inode.push(inode_bytes[k]);
        assert(inode_bytes@.take(k + 1) =~= inode_bytes@.take(k as int).push(inode_bytes@[k as int]));
        k = k + 1;
    }
    assert(inode_bytes@.take(inode_size as int) =~= inode_bytes@);
    assert(inode@ =~= image@.subrange(inode_offset as int, inode_offset + inode_size));
    let mode = read_u16_le(&inode, 0);
    let kind = mode & 0xF000;
    let is_regular = kind == 0x8000;
    let is_symlink = kind == 0xA000;
    let is_directory = kind == 0x4000;
    if !is_regular && !is_symlink && !is_directory {
        return Err(91);
    }
    let size_lo = read_u32_le(&inode, 4) as u64;
    let size_hi = if inode_size >= 0x6C + 4 {
        read_u32_le(&inode, 0x6C) as u64
    } else {
        0
    };
    let file_size = (size_hi << 32) | size_lo;
    assert(((size_hi << 32u64) | size_lo) == size_hi * 0x1_0000_0000 + size_lo) by (bit_vector)
        requires
            size_hi < 0x1_0000_0000u64,
            size_lo < 0x1_0000_0000u64,
    ;
    Ok(
        ExtFilePlan {
            superblock,
            inode_offset,
            inode,
            file_size,
            inline_symlink: is_symlink && file_size <= 60,
        },
    )
}

/// The writes that recover a planned file: an inline link target straight
/// from the inode's block-pointer area, else the file's data (see
/// `ext_data_recovery`).
pub open spec fn file_writes_of(img: Seq<u8>, sb: ExtSuperblock, off: nat, inode: Seq<u8>, size: nat, inline: bool) -> Option<
    (Seq<DataWrite>, bool),
> {
    if inline {
        if size == 0 {
            Some((Seq::empty(), false))
        } else {
            Some((seq![DataWrite::Image((off + 40) as u64, size as usize)], false))
        }
    } else {
        ext_data_recovery(img, sb.block_size_bytes as nat, inode, size)
    }
}

/// The writes that recover a planned file (see `file_writes_of`);
/// `Err(91)` when its block map is malformed.
pub fn ext_file_writes(image: &[u8], plan: &ExtFilePlan) -> (r: Result<(Vec<DataWrite>, bool), i32>)
    requires
        plan.inline_symlink ==> plan.file_size <= 60 && plan.inode_offset + 100 <= u64::MAX,
    ensures
        match (
            r,
            file_writes_of(image@, plan.superblock, plan.inode_offset as nat, plan.inode@, plan.file_size as nat, plan.inline_symlink),
        ) {
            (Ok((ws, p)), Some((sws, sp))) => ws@ == sws && p == sp,
            (Err(code), None) => code == 91,
            _ => false,
        },
{
    if plan.inline_symlink {
        if plan.file_size == 0 {
            return Ok((Vec::new(), false));
        }
        let w = vec![DataWrite::Image(plan.inode_offset + 40, plan.file_size as usize)];
        assert(w@ =~= seq![DataWrite::Image((plan.inode_offset + 40) as u64, plan.file_size as usize)]);
        return Ok((w, false));
    }
    recover_ext_candidate_data(image, &plan.superblock, &plan.inode, plan.file_size)
}


// ---------------------------------------------------------------------------
// Laws
// ---------------------------------------------------------------------------

proof fn lemma_gap_fill_written(bs: nat, e: nat, target: nat, rem: nat)
    requires
        bs <= u32::MAX,
    ensures
        gap_fill(bs, e, target, rem).2 <= rem,
        written(gap_fill(bs, e, target, rem).0) == rem - gap_fill(bs, e, target, rem).2,
    decreases target - e,
{
    if !(e >= target || rem == 0) {
        let n = min_nat(rem, bs);
        let w = DataWrite::Zeros(n as usize);
        let g = gap_fill(bs, e + 1, target, (rem - n) as nat);
        lemma_gap_fill_written(bs, e + 1, target, (rem - n) as nat);
        assert(seq![w] =~= Seq::<DataWrite>::empty().push(w));
        lemma_written_push(Seq::<DataWrite>::empty(), w);
        lemma_written_concat(seq![w], g.0);
    } else {
        assert(written(Seq::<DataWrite>::empty()) == 0);
    }
}

proof fn lemma_run_blocks_written(img_len: nat, bs: nat, run: ExtentRun, idx: nat, e: nat, rem: nat)
    requires
        bs <= u32::MAX,
    ensures
        run_blocks(img_len, bs, run, idx, e, rem).2 <= rem,
        written(run_blocks(img_len, bs, run, idx, e, rem).0) == rem - run_blocks(img_len, bs, run, idx, e, rem).2,
    decreases run.block_count - idx,
{
    if !(idx >= run.block_count || rem == 0) {
        let n = min_nat(rem, bs);
        let rest = run_blocks(img_len, bs, run, idx + 1, next_block(e), (rem - n) as nat);
        lemma_run_blocks_written(img_len, bs, run, idx + 1, next_block(e), (rem - n) as nat);
        let phys = run.physical_block + idx;
        let w = if run.is_uninitialized {
            DataWrite::Zeros(n as usize)
        } else {
            DataWrite::Image((phys * bs) as u64, n as usize)
        };
        assert(seq![w] =~= Seq::<DataWrite>::empty().push(w));
        lemma_written_push(Seq::<DataWrite>::empty(), w);
        lemma_written_concat(seq![w], rest.0);
    }
}

proof fn lemma_emit_runs_written(img_len: nat, bs: nat, runs: Seq<ExtentRun>, k: nat, e: nat, rem: nat)
    requires
        bs <= u32::MAX,
    ensures
        written(emit_runs(img_len, bs, runs, k, e, rem).0) <= rem,
    decreases runs.len() - k,
{
    if !(k >= runs.len() || rem == 0) {
        let run = runs[k as int];
        if run.logical_block >= e {
            let g = gap_fill(bs, e, run.logical_block as nat, rem);
            lemma_gap_fill_written(bs, e, run.logical_block as nat, rem);
            if g.2 != 0 {
                let b = run_blocks(img_len, bs, run, 0, g.1, g.2);
                lemma_run_blocks_written(img_len, bs, run, 0, g.1, g.2);
                lemma_written_concat(g.0, b.0);
                if !b.3 {
                    lemma_emit_runs_written(img_len, bs, runs, k + 1, b.1, b.2);
                    lemma_written_concat(g.0 + b.0, emit_runs(img_len, bs, runs, k + 1, b.1, b.2).0);
                }
            }
        }
    }
}

proof fn lemma_tail_zeros_written(bs: nat, rem: nat)
    requires
        1 <= bs <= u32::MAX,
    ensures
        written(tail_zeros(bs, rem)) == rem,
    decreases rem,
{
    if rem > 0 {
        let n = min_nat(rem, bs);
        let w = DataWrite::Zeros(n as usize);
        lemma_tail_zeros_written(bs, (rem - n) as nat);
        assert(seq![w] =~= Seq::<DataWrite>::empty().push(w));
        lemma_written_push(Seq::<DataWrite>::empty(), w);
        lemma_written_concat(seq![w], tail_zeros(bs, (rem - n) as nat));
    }
}

/// Recovery never yields more bytes than the inode's file size, and a
/// recovery that is not partial yields exactly the file size.
pub proof fn law_recovery_fits_file_size(img: Seq<u8>, bs: nat, inode: Seq<u8>, size: nat)
    requires
        bs <= u32::MAX,
    ensures
        ext_data_recovery(img, bs, inode, size) matches Some((ws, partial)) ==> written(ws) <= size && (!partial
            ==> written(ws) == size),
{
    if size > 0 && bs >= 1024 && inode.len() >= 100 {
        if (le32(inode, 32) as u32) & EXT_INODE_FLAG_EXTENTS != 0 {
            let root = inode.subrange(40, 100);
            match node_runs(img, bs, root, None, 0) {
                None => {},
                Some((runs, p0)) => {
                    if runs.len() > 0 {
                        let e = emit_runs(img.len(), bs, sorted_runs(runs), 0, 0, size);
                        lemma_emit_runs_written(img.len(), bs, sorted_runs(runs), 0, 0, size);
                        let rem = (size - written(e.0)) as nat;
                        let t = if e.2 {
                            Seq::empty()
                        } else {
                            tail_zeros(bs, rem)
                        };
                        if !e.2 {
                            lemma_tail_zeros_written(bs, rem);
                        }
                        lemma_written_concat(e.0, t);
                    }
                },
            }
        } else {
            let d = leaf_walk(img.len(), bs, inode, 40, 12, 0, size);
            lemma_leaf_walk_written(img.len(), bs, inode, 40, 12, 0, size);
            let r1 = (size - written(d.0)) as nat;
            let s1 = stage_if_owed(img, bs, le32(inode, 88), 1, r1);
            lemma_stage_written(img, bs, le32(inode, 88), 1, r1);
            let r2 = (r1 - written(s1.0)) as nat;
            let s2 = stage_if_owed(img, bs, le32(inode, 92), 2, r2);
            lemma_stage_written(img, bs, le32(inode, 92), 2, r2);
            let r3 = (r2 - written(s2.0)) as nat;
            let s3 = stage_if_owed(img, bs, le32(inode, 96), 3, r3);
            lemma_stage_written(img, bs, le32(inode, 96), 3, r3);
            lemma_written_concat(d.0, s1.0);
            lemma_written_concat(d.0 + s1.0, s2.0);
            lemma_written_concat(d.0 + s1.0 + s2.0, s3.0);
        }
    } else if size == 0 {
        assert(written(Seq::<DataWrite>::empty()) == 0);
    }
}

} // verus!
