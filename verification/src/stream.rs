//! Copying a given number of bytes from a reader to a writer, piece by piece.

use vstd::prelude::*;

verus! {

/// The size of the buffer that pieces are read into.
pub const BUFFER: usize = 65536;

/// What to do next: write the first `write` bytes of the buffer; `remaining` bytes are then still
/// to be copied. Then read at most `read` bytes into the buffer, or stop where `read` is zero.
#[derive(Clone, Copy, PartialEq, Eq, Structural, Debug)]
pub struct StreamStep {
    pub write: usize,
    pub remaining: u64,
    pub read: usize,
}

/// How many bytes to read when `remaining` are to be copied: what the buffer holds at most.
pub open spec fn chunk(remaining: int) -> int {
    if remaining < BUFFER {
        remaining
    } else {
        BUFFER as int
    }
}

/// The step that follows when `remaining` bytes were to be copied and `got` were read; `None`
/// where nothing has been read yet. A read of no bytes is the end of the source.
pub open spec fn stream_step(remaining: u64, got: Option<usize>) -> StreamStep {
    match got {
        None => StreamStep { write: 0, remaining, read: chunk(remaining as int) as usize },
        Some(n) => StreamStep {
            write: n,
            remaining: (remaining - n) as u64,
            read: if n == 0 {
                0
            } else {
                chunk(remaining - n) as usize
            },
        },
    }
}

/// One step in copying bytes: what to do when `remaining` bytes were to be copied and `got` were
/// read into the buffer.
pub fn stream_bytes(remaining: u64, got: Option<usize>) -> (r: StreamStep)
    requires
        got matches Some(n) ==> n <= chunk(remaining as int),
    ensures
        r == stream_step(remaining, got),
{
    let (write, rest): (usize, u64) = match got {
        None => (0, remaining),
        Some(n) => (n, remaining - n as u64),
    };
    let ended = match got {
        None => false,
        Some(n) => n == 0,
    };
    let read: usize = if ended {
        0
    } else if rest < BUFFER as u64 {
        rest as usize
    } else {
        BUFFER
    };
    StreamStep { write, remaining: rest, read }
}

/// The sum of the numbers of bytes read.
pub open spec fn total(reads: Seq<usize>) -> nat
    decreases reads.len(),
{
    if reads.len() == 0 {
        0
    } else {
        total(reads.drop_last()) + reads.last() as nat
    }
}

/// The step after the reads `reads` in copying `n` bytes.
pub open spec fn step_after(n: u64, reads: Seq<usize>) -> StreamStep
    decreases reads.len(),
{
    if reads.len() == 0 {
        stream_step(n, None)
    } else {
        stream_step(step_after(n, reads.drop_last()).remaining, Some(reads.last()))
    }
}

/// Each of the reads gave at most as many bytes as were asked for.
pub open spec fn reads_as_asked(n: u64, reads: Seq<usize>) -> bool
    decreases reads.len(),
{
    reads.len() == 0 || {
        &&& reads_as_asked(n, reads.drop_last())
        &&& reads.last() <= step_after(n, reads.drop_last()).read
    }
}

/// Copying never writes more than the bytes that were asked for, keeps count of those that are
/// left, and stops when all of them are written or the source has ended, and not before.
pub proof fn law_copies_what_was_asked(n: u64, reads: Seq<usize>)
    requires
        reads_as_asked(n, reads),
    ensures
        total(reads) <= n,
        step_after(n, reads).remaining == n - total(reads),
        step_after(n, reads).read == 0 <==> total(reads) == n || (reads.len() > 0 && reads.last()
            == 0),
        step_after(n, reads).read <= chunk(step_after(n, reads).remaining as int),
    decreases reads.len(),
{
    if reads.len() > 0 {
        law_copies_what_was_asked(n, reads.drop_last());
    }
}

/// What was read is written, all of it and nothing more, and what is left grows less by it. The next
/// read asks for what is left, but for no more than 64 KiB, and for nothing where the source ended.
pub proof fn law_every_read_is_written(remaining: u64, got: usize)
    requires
        got <= remaining,
    ensures
        ({
            let first = stream_step(remaining, None);
            &&& first.write == 0 && first.remaining == remaining
            &&& first.read == (if remaining < 65536 {
                remaining as int
            } else {
                65536
            })
        }),
        ({
            let next = stream_step(remaining, Some(got));
            &&& next.write == got && next.remaining + got == remaining
            &&& next.read == (if got == 0 {
                0
            } else if remaining - got < 65536 {
                remaining - got
            } else {
                65536
            })
        }),
{
}

} // verus!
