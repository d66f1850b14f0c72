//! Writes of recovered file data: what a recovery asks its caller to put
//! in the output file, in order.
use vstd::prelude::*;

verus! {

/// One write of recovered data: zeros, or bytes of the volume image.
#[derive(Debug, Clone, Copy, PartialEq, Eq, Structural)]
pub enum DataWrite {
    Zeros(usize),
    Image(u64, usize),
}

/// How many bytes a write produces.
pub open spec fn write_len(w: DataWrite) -> nat {
    match w {
        DataWrite::Zeros(n) => n as nat,
        DataWrite::Image(_, n) => n as nat,
    }
}

/// How many bytes the writes produce together.
pub open spec fn written(ws: Seq<DataWrite>) -> nat
    decreases ws.len(),
{
    if ws.len() == 0 {
        0
    } else {
        written(ws.drop_last()) + write_len(ws.last())
    }
}

pub proof fn lemma_written_concat(a: Seq<DataWrite>, b: Seq<DataWrite>)
    ensures
        written(a + b) == written(a) + written(b),
    decreases b.len(),
{
    if b.len() > 0 {
        lemma_written_concat(a, b.drop_last());
        assert((a + b).drop_last() =~= a + b.drop_last());
    } else {
        assert(a + b =~= a);
    }
}

pub proof fn lemma_written_push(a: Seq<DataWrite>, w: DataWrite)
    ensures
        written(a.push(w)) == written(a) + write_len(w),
{
    assert(a.push(w).drop_last() =~= a);
}

/// The status of a finished recovery: 76 when nothing was written for a
/// non-empty file, else 0.
pub fn recovery_status(written_bytes: u64, file_size: u64) -> (s: i32)
    ensures
        s == if written_bytes == 0 && file_size > 0 { 76i32 } else { 0i32 },
{
    if written_bytes == 0 && file_size > 0 {
        76
    } else {
        0
    }
}

} // verus!
