//! What a scan of given stream contents has to report, stated over the
//! contents alone.
//!
//! A stream is the sequence of its bytes. A read of a chunk at some position
//! gives the bytes from there on, a whole chunk where the stream holds one and
//! fewer, or none, at its end.

use vstd::prelude::*;
use crate::geometry::Layout;
use crate::parity::{mismatch_in, parity};
use crate::scan_loop::{Failure, Phase};

verus! {

/// The bytes that a read of up to `len` bytes at `from` gives.
pub open spec fn window(stream: Seq<u8>, from: int, len: int) -> Seq<u8> {
    if from >= stream.len() {
        Seq::empty()
    } else if from + len <= stream.len() {
        stream.subrange(from, from + len)
    } else {
        stream.subrange(from, stream.len() as int)
    }
}

/// The bytes that every stream gives in turn, read at the same position.
pub open spec fn windows(streams: Seq<Seq<u8>>, from: int, len: int) -> Seq<Seq<u8>> {
    Seq::new(streams.len(), |j: int| window(streams[j], from, len))
}

/// Every stream holds `len` bytes from `from` on.
pub open spec fn full_at(streams: Seq<Seq<u8>>, from: int, len: int) -> bool {
    forall|j: int| 0 <= j < streams.len() ==> from + len <= (#[trigger] streams[j]).len()
}

/// No stream holds a byte at or after `from`.
pub open spec fn ended_at(streams: Seq<Seq<u8>>, from: int) -> bool {
    forall|j: int| 0 <= j < streams.len() ==> (#[trigger] streams[j]).len() <= from
}

/// Length of the shortest stream; 0 where there is none.
pub open spec fn shortest(streams: Seq<Seq<u8>>) -> int
    decreases streams.len(),
{
    if streams.len() == 0 {
        0
    } else if streams.len() == 1 {
        streams[0].len() as int
    } else if streams.last().len() < shortest(streams.drop_last()) {
        streams.last().len() as int
    } else {
        shortest(streams.drop_last())
    }
}

/// Number of bytes that `stream` holds from `start` on.
pub open spec fn remaining(stream: Seq<u8>, start: int) -> int {
    if stream.len() > start {
        stream.len() - start
    } else {
        0
    }
}

/// Number of whole chunks that every stream holds from `start` on.
pub open spec fn full_chunks(streams: Seq<Seq<u8>>, start: int, chunk: int) -> int {
    if shortest(streams) <= start {
        0
    } else {
        (shortest(streams) - start) / chunk
    }
}

/// At `from`, stream `j` gives another number of bytes than the first stream,
/// or a part of a chunk.
pub open spec fn uneven_at(streams: Seq<Seq<u8>>, from: int, chunk: int, j: int) -> bool {
    let given = window(streams[j], from, chunk).len();
    given != window(streams[0], from, chunk).len() || 0 < given < chunk
}

/// `j` is the first stream that is uneven at `from`.
pub open spec fn is_first_uneven(streams: Seq<Seq<u8>>, from: int, chunk: int, j: int) -> bool {
    &&& 0 <= j < streams.len()
    &&& uneven_at(streams, from, chunk, j)
    &&& forall|i: int| 0 <= i < j ==> !uneven_at(streams, from, chunk, i)
}

/// How the scan ends at `from`, where not every stream holds a whole chunk:
/// `Finished` where all streams have ended, else `Truncated`, naming the first
/// stream that shows it.
pub open spec fn verdict(streams: Seq<Seq<u8>>, from: int, chunk: int) -> Phase {
    if ended_at(streams, from) {
        Phase::Finished
    } else {
        Phase::Truncated {
            stream: (choose|j: int| is_first_uneven(streams, from, chunk, j)) as usize,
        }
    }
}

/// The parity at byte `pos`: the XOR of the bytes that the streams hold there.
pub open spec fn parity_at(streams: Seq<Seq<u8>>, pos: int) -> u8
    decreases streams.len(),
{
    if streams.len() == 0 {
        0
    } else {
        parity_at(streams.drop_last(), pos) ^ streams.last()[pos]
    }
}

/// Offset, from the start of the scan, of the first non-zero parity byte of
/// chunk `k`, if it has one.
pub open spec fn chunk_mismatch(streams: Seq<Seq<u8>>, start: int, chunk: int, k: int) -> Option<
    int,
> {
    mismatch_in(parity(windows(streams, start + k * chunk, chunk), chunk), k * chunk)
}

/// The mismatches of the first `chunks` chunks, in the order of the chunks.
pub open spec fn mismatches(streams: Seq<Seq<u8>>, start: int, chunk: int, chunks: int) -> Seq<int>
    decreases chunks,
{
    if chunks <= 0 {
        Seq::empty()
    } else {
        let before = mismatches(streams, start, chunk, chunks - 1);
        match chunk_mismatch(streams, start, chunk, chunks - 1) {
            Some(offset) => before.push(offset),
            None => before,
        }
    }
}

/// The offsets of those of the first `chunks` chunks that lie on a progress
/// boundary, in rising order.
pub open spec fn progress(layout: Layout, chunks: int) -> Seq<int>
    decreases chunks,
{
    if chunks <= 0 {
        Seq::empty()
    } else {
        let before = progress(layout, chunks - 1);
        if layout.progress_due((chunks - 1) * layout.chunk) {
            before.push((chunks - 1) * layout.chunk)
        } else {
            before
        }
    }
}

/// What a scan has to report.
pub struct Summary {
    /// Offsets of the progress lines, in the order in which they are due.
    pub progress: Seq<int>,
    /// Offsets of the mismatches, in the order in which they are found.
    pub mismatches: Seq<int>,
    /// Number of chunks that were checked.
    pub chunks: int,
    /// The final phase.
    pub outcome: Phase,
}

/// The report of the scan of `streams` that resumes from `sector`.
pub open spec fn scan(layout: Layout, streams: Seq<Seq<u8>>, sector: int) -> Summary {
    let start = layout.resume_position(sector);
    let chunks = full_chunks(streams, start, layout.chunk);
    if streams.len() == 0 {
        failed(Failure::Argument)
    } else if start > u64::MAX {
        failed(Failure::Seek { stream: 0 })
    } else {
        Summary {
            progress: progress(layout, chunks),
            mismatches: mismatches(streams, start, layout.chunk, chunks),
            chunks,
            outcome: verdict(streams, start + chunks * layout.chunk, layout.chunk),
        }
    }
}

/// The report of a scan that failed before its first chunk.
pub open spec fn failed(failure: Failure) -> Summary {
    Summary {
        progress: Seq::empty(),
        mismatches: Seq::empty(),
        chunks: 0,
        outcome: Phase::Failed { failure },
    }
}

/// The shortest stream is one of the streams, and none is shorter.
pub proof fn lemma_shortest(streams: Seq<Seq<u8>>)
    requires
        streams.len() > 0,
    ensures
        exists|j: int| 0 <= j < streams.len() && (#[trigger] streams[j]).len() == shortest(streams),
        forall|j: int| 0 <= j < streams.len() ==> shortest(streams) <= (#[trigger] streams[j]).len(),
    decreases streams.len(),
{
    if streams.len() == 1 {
        assert(streams[0].len() == shortest(streams));
    } else {
        let front = streams.drop_last();
        lemma_shortest(front);
        let j = choose|j: int| 0 <= j < front.len() && (#[trigger] front[j]).len() == shortest(front);
        assert(front[j] == streams[j]);
        assert(streams[streams.len() - 1] == streams.last());
        assert forall|i: int| 0 <= i < streams.len() implies shortest(streams) <= (
        #[trigger] streams[i]).len() by {
            if i < front.len() {
                assert(front[i] == streams[i]);
            }
        }
    }
}

/// Every stream holds `len` bytes from `from` on exactly when the shortest does.
pub proof fn lemma_full_at_shortest(streams: Seq<Seq<u8>>, from: int, len: int)
    requires
        streams.len() > 0,
    ensures
        full_at(streams, from, len) <==> from + len <= shortest(streams),
    decreases streams.len(),
{
    if streams.len() == 1 {
        assert(streams[0].len() == shortest(streams));
    } else {
        let front = streams.drop_last();
        lemma_full_at_shortest(front, from, len);
        if full_at(streams, from, len) {
            assert forall|j: int| 0 <= j < front.len() implies from + len <= (
            #[trigger] front[j]).len() by {
                assert(front[j] == streams[j]);
            }
            assert(from + len <= streams[streams.len() - 1].len());
        }
        if from + len <= shortest(streams) {
            assert forall|j: int| 0 <= j < streams.len() implies from + len <= (
            #[trigger] streams[j]).len() by {
                if j < front.len() {
                    assert(front[j] == streams[j]);
                }
            }
        }
    }
}

/// Chunk `k` is whole in every stream exactly when `k` is below `full_chunks`.
pub proof fn lemma_full_chunks(streams: Seq<Seq<u8>>, start: int, chunk: int, k: int)
    requires
        streams.len() > 0,
        chunk > 0,
        start >= 0,
        k >= 0,
    ensures
        full_at(streams, start + k * chunk, chunk) <==> k < full_chunks(streams, start, chunk),
        full_chunks(streams, start, chunk) >= 0,
{
    let least = shortest(streams);
    lemma_full_at_shortest(streams, start + k * chunk, chunk);
    assert(k * chunk >= 0) by (nonlinear_arith)
        requires
            k >= 0,
            chunk > 0,
    ;
    if least > start {
        let room = least - start;
        let whole = room / chunk;
        assert(room == chunk * whole + room % chunk && 0 <= room % chunk < chunk && whole >= 0)
            by (nonlinear_arith)
            requires
                whole == room / chunk,
                chunk > 0,
                room > 0,
        ;
        if k < whole {
            assert((k + 1) * chunk <= whole * chunk) by (nonlinear_arith)
                requires
                    k + 1 <= whole,
                    chunk > 0,
            ;
            assert((k + 1) * chunk == k * chunk + chunk) by (nonlinear_arith);
            assert(chunk * whole == whole * chunk) by (nonlinear_arith);
        } else {
            assert((k + 1) * chunk >= (whole + 1) * chunk) by (nonlinear_arith)
                requires
                    k >= whole,
                    chunk > 0,
            ;
            assert((k + 1) * chunk == k * chunk + chunk) by (nonlinear_arith);
            assert((whole + 1) * chunk == chunk * whole + chunk) by (nonlinear_arith);
        }
    }
}

/// At most one stream is the first uneven one, and `verdict` names it.
pub proof fn lemma_verdict(streams: Seq<Seq<u8>>, from: int, chunk: int, j: int)
    requires
        is_first_uneven(streams, from, chunk, j),
        !ended_at(streams, from),
        0 <= j <= usize::MAX,
    ensures
        verdict(streams, from, chunk) == (Phase::Truncated { stream: j as usize }),
{
    let named = choose|i: int| is_first_uneven(streams, from, chunk, i);
    if named < j {
        assert(!uneven_at(streams, from, chunk, named));
    } else if j < named {
        assert(!uneven_at(streams, from, chunk, j));
    }
}

} // verus!
