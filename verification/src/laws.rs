//! What holds of every scan: laws of the model in `model`, proved from its
//! definitions.

use vstd::prelude::*;
use crate::geometry::Layout;
use crate::model::{
    chunk_mismatch, ended_at, full_at, full_chunks, lemma_full_chunks, lemma_shortest, mismatches,
    parity_at, progress, remaining, scan, shortest, verdict, windows,
};
use crate::parity::{is_first_nonzero, lemma_first_nonzero, parity};

verus! {

proof fn lemma_xor(a: u8, b: u8, c: u8)
    by (bit_vector)
    ensures
        a ^ 0 == a,
        0 ^ a == a,
        a ^ a == 0,
        a ^ b == b ^ a,
        (a ^ b) ^ c == a ^ (b ^ c),
        (a ^ b == 0) == (a == b),
{
}

/// The parity of chunks of `len` bytes is `len` bytes long.
pub proof fn lemma_parity_len(chunks: Seq<Seq<u8>>, len: int)
    requires
        len >= 0,
    ensures
        parity(chunks, len).len() == len,
    decreases chunks.len(),
{
    if chunks.len() > 0 {
        lemma_parity_len(chunks.drop_last(), len);
    }
}

/// Byte `i` of the accumulator of a whole chunk is the parity at that byte of
/// the streams.
pub proof fn lemma_parity_pointwise(streams: Seq<Seq<u8>>, from: int, chunk: int, i: int)
    requires
        full_at(streams, from, chunk),
        from >= 0,
        0 <= i < chunk,
    ensures
        parity(windows(streams, from, chunk), chunk)[i] == parity_at(streams, from + i),
    decreases streams.len(),
{
    let all = windows(streams, from, chunk);
    if streams.len() > 0 {
        let front = streams.drop_last();
        assert(all.drop_last() =~= windows(front, from, chunk));
        assert forall|j: int| 0 <= j < front.len() implies from + chunk <= (#[trigger] front[j]).len() by {
            assert(front[j] == streams[j]);
        }
        lemma_parity_pointwise(front, from, chunk, i);
        lemma_parity_len(all.drop_last(), chunk);
        assert(from + chunk <= streams[streams.len() - 1].len());
        assert(all.last()[i] == streams.last()[from + i]);
    }
}

/// The mismatch of a whole chunk is the first byte of the chunk at which the
/// parity of the streams is not zero; a chunk without mismatch has none.
pub proof fn lemma_chunk_mismatch(streams: Seq<Seq<u8>>, start: int, chunk: int, k: int)
    requires
        chunk > 0,
        start >= 0,
        k >= 0,
        full_at(streams, start + k * chunk, chunk),
    ensures
        match chunk_mismatch(streams, start, chunk, k) {
            Some(m) => {
                &&& k * chunk <= m < (k + 1) * chunk
                &&& parity_at(streams, start + m) != 0
                &&& forall|p: int|
                    start + k * chunk <= p < start + m ==> parity_at(streams, p) == 0
            },
            None => forall|p: int|
                start + k * chunk <= p < start + (k + 1) * chunk ==> parity_at(streams, p) == 0,
        },
{
    let from = start + k * chunk;
    let acc = parity(windows(streams, from, chunk), chunk);
    assert(k * chunk >= 0) by (nonlinear_arith)
        requires
            k >= 0,
            chunk > 0,
    ;
    assert((k + 1) * chunk == k * chunk + chunk) by (nonlinear_arith);
    lemma_parity_len(windows(streams, from, chunk), chunk);
    lemma_first_nonzero(acc);
    assert forall|i: int| 0 <= i < chunk implies acc[i] == parity_at(streams, from + i) by {
        lemma_parity_pointwise(streams, from, chunk, i);
    }
    match chunk_mismatch(streams, start, chunk, k) {
        Some(m) => {
            let i = m - k * chunk;
            assert(is_first_nonzero(acc, i));
            assert(parity_at(streams, start + m) == acc[i]);
            assert forall|p: int| from <= p < start + m implies parity_at(streams, p) == 0 by {
                assert(acc[p - from] == 0);
            }
        },
        None => {
            assert forall|p: int| from <= p < from + chunk implies parity_at(streams, p) == 0 by {
                assert(acc[p - from] == 0);
            }
        },
    }
}

/// The reported mismatches are those of the chunks that were checked.
pub proof fn lemma_mismatch_members(
    streams: Seq<Seq<u8>>,
    start: int,
    chunk: int,
    chunks: int,
    m: int,
)
    ensures
        mismatches(streams, start, chunk, chunks).contains(m) <==> exists|k: int|
            0 <= k < chunks && #[trigger] chunk_mismatch(streams, start, chunk, k) == Some(m),
    decreases chunks,
{
    if chunks > 0 {
        let before = mismatches(streams, start, chunk, chunks - 1);
        let now = mismatches(streams, start, chunk, chunks);
        lemma_mismatch_members(streams, start, chunk, chunks - 1, m);
        match chunk_mismatch(streams, start, chunk, chunks - 1) {
            Some(found) => {
                assert(now == before.push(found));
                if now.contains(m) {
                    let at = choose|i: int| 0 <= i < now.len() && now[i] == m;
                    if at < before.len() {
                        assert(before[at] == m);
                        assert(before.contains(m));
                    } else {
                        assert(found == m);
                    }
                }
                if before.contains(m) {
                    let at = choose|i: int| 0 <= i < before.len() && before[i] == m;
                    assert(now[at] == m);
                }
                if found == m {
                    assert(now[before.len() as int] == m);
                }
            },
            None => {},
        }
    }
}

/// A mismatch lies in the chunk in which it was found.
pub proof fn lemma_chunk_mismatch_range(streams: Seq<Seq<u8>>, start: int, chunk: int, k: int)
    requires
        chunk > 0,
    ensures
        chunk_mismatch(streams, start, chunk, k) matches Some(m) ==> k * chunk <= m < k * chunk
            + chunk,
{
    let all = windows(streams, start + k * chunk, chunk);
    lemma_parity_len(all, chunk);
    lemma_first_nonzero(parity(all, chunk));
}

/// The first `chunks` chunks show no mismatch where the parity of the streams
/// is zero at every byte of them.
pub proof fn lemma_clean_chunks(streams: Seq<Seq<u8>>, start: int, chunk: int, chunks: int)
    requires
        streams.len() > 0,
        chunk > 0,
        start >= 0,
        chunks <= full_chunks(streams, start, chunk),
        forall|p: int| start <= p < start + chunks * chunk ==> parity_at(streams, p) == 0,
    ensures
        mismatches(streams, start, chunk, chunks) == Seq::<int>::empty(),
    decreases chunks,
{
    if chunks > 0 {
        let k = chunks - 1;
        assert(chunks * chunk == k * chunk + chunk) by (nonlinear_arith)
            requires
                k == chunks - 1,
        ;
        assert(k * chunk >= 0) by (nonlinear_arith)
            requires
                k >= 0,
                chunk > 0,
        ;
        lemma_clean_chunks(streams, start, chunk, k);
        lemma_full_chunks(streams, start, chunk, k);
        lemma_chunk_mismatch(streams, start, chunk, k);
        if let Some(m) = chunk_mismatch(streams, start, chunk, k) {
            assert(parity_at(streams, start + m) == 0);
        }
    }
}

/// Where the parity of the streams is zero at every byte of the first `chunks`
/// chunks but at `offset`, the chunks up to the one that holds `offset` show
/// that mismatch and no other.
pub proof fn lemma_one_mismatch(
    streams: Seq<Seq<u8>>,
    start: int,
    chunk: int,
    scanned: int,
    chunks: int,
    offset: int,
)
    requires
        streams.len() > 0,
        chunk > 0,
        start >= 0,
        0 <= chunks <= scanned <= full_chunks(streams, start, chunk),
        0 <= offset < scanned * chunk,
        parity_at(streams, start + offset) != 0,
        forall|p: int|
            start <= p < start + scanned * chunk && p != start + offset ==> parity_at(streams, p)
                == 0,
    ensures
        mismatches(streams, start, chunk, chunks) == if offset < chunks * chunk {
            seq![offset]
        } else {
            Seq::<int>::empty()
        },
    decreases chunks,
{
    if chunks > 0 {
        let k = chunks - 1;
        assert(chunks * chunk == k * chunk + chunk) by (nonlinear_arith)
            requires
                k == chunks - 1,
        ;
        assert(k * chunk >= 0) by (nonlinear_arith)
            requires
                k >= 0,
                chunk > 0,
        ;
        assert(chunks * chunk <= scanned * chunk) by (nonlinear_arith)
            requires
                chunks <= scanned,
                chunk > 0,
        ;
        lemma_one_mismatch(streams, start, chunk, scanned, k, offset);
        lemma_full_chunks(streams, start, chunk, k);
        lemma_chunk_mismatch(streams, start, chunk, k);
        let before = mismatches(streams, start, chunk, k);
        match chunk_mismatch(streams, start, chunk, k) {
            Some(m) => {
                if m != offset {
                    assert(parity_at(streams, start + m) == 0);
                }
                assert(before.push(offset) =~= seq![offset]);
            },
            None => {
                if k * chunk <= offset < chunks * chunk {
                    assert(parity_at(streams, start + offset) == 0);
                }
            },
        }
    } else {
        assert(chunks * chunk == 0) by (nonlinear_arith)
            requires
                chunks == 0,
        ;
    }
}

/// Single divergence: where the parity of the streams is zero at every
/// scanned byte but one, the scan reports that byte and nothing else.
pub proof fn lemma_single_mismatch(layout: Layout, streams: Seq<Seq<u8>>, sector: int, offset: int)
    requires
        layout.valid(),
        streams.len() > 0,
        0 <= sector,
        layout.resume_position(sector) <= u64::MAX,
        0 <= offset < scan(layout, streams, sector).chunks * layout.chunk,
        parity_at(streams, layout.resume_position(sector) + offset) != 0,
        forall|p: int|
            layout.resume_position(sector) <= p < layout.resume_position(sector) + scan(
                layout,
                streams,
                sector,
            ).chunks * layout.chunk && p != layout.resume_position(sector) + offset ==> parity_at(
                streams,
                p,
            ) == 0,
    ensures
        scan(layout, streams, sector).mismatches == seq![offset],
{
    let start = layout.resume_position(sector);
    assert(start >= 0) by (nonlinear_arith)
        requires
            start == sector * layout.sector,
            sector >= 0,
            layout.sector > 0,
    ;
    let chunks = full_chunks(streams, start, layout.chunk);
    lemma_full_chunks(streams, start, layout.chunk, 0);
    lemma_one_mismatch(streams, start, layout.chunk, chunks, chunks, offset);
}

/// The parity of streams that hold the same byte at `pos` is zero there where
/// their number is even, and that byte where it is odd.
pub proof fn lemma_parity_of_copies(streams: Seq<Seq<u8>>, pos: int, byte: u8)
    requires
        forall|j: int| 0 <= j < streams.len() ==> (#[trigger] streams[j])[pos] == byte,
    ensures
        parity_at(streams, pos) == if streams.len() % 2 == 0 {
            0
        } else {
            byte
        },
    decreases streams.len(),
{
    if streams.len() > 0 {
        let front = streams.drop_last();
        assert forall|j: int| 0 <= j < front.len() implies (#[trigger] front[j])[pos] == byte by {
            assert(front[j] == streams[j]);
        }
        lemma_parity_of_copies(front, pos, byte);
        assert(streams[streams.len() - 1][pos] == byte);
        lemma_xor(byte, byte, 0);
    }
}

/// The parity of streams of which all but stream `odd_one` hold `byte` at
/// `pos`, and that one holds `other`.
pub proof fn lemma_parity_of_divergence(
    streams: Seq<Seq<u8>>,
    pos: int,
    odd_one: int,
    byte: u8,
    other: u8,
)
    requires
        0 <= odd_one < streams.len(),
        streams[odd_one][pos] == other,
        forall|j: int|
            0 <= j < streams.len() && j != odd_one ==> (#[trigger] streams[j])[pos] == byte,
    ensures
        parity_at(streams, pos) == if streams.len() % 2 == 0 {
            byte ^ other
        } else {
            other
        },
    decreases streams.len(),
{
    let front = streams.drop_last();
    let last = streams.len() - 1;
    lemma_xor(byte, other, byte);
    lemma_xor(other, byte, 0);
    lemma_xor(byte, byte, other);
    if odd_one == last {
        assert forall|j: int| 0 <= j < front.len() implies (#[trigger] front[j])[pos] == byte by {
            assert(front[j] == streams[j]);
        }
        lemma_parity_of_copies(front, pos, byte);
    } else {
        assert(front[odd_one] == streams[odd_one]);
        assert forall|j: int| 0 <= j < front.len() && j != odd_one implies (#[trigger] front[j])[pos]
            == byte by {
            assert(front[j] == streams[j]);
        }
        lemma_parity_of_divergence(front, pos, odd_one, byte, other);
        assert(streams[last][pos] == byte);
    }
}

/// Identity: an even number of streams with the same content shows no
/// mismatch, and the scan ends `Finished` exactly where the content from the
/// resume position on is a whole number of chunks, else `Truncated`.
pub proof fn lemma_identical_streams(layout: Layout, streams: Seq<Seq<u8>>, sector: int)
    requires
        layout.valid(),
        streams.len() > 0,
        streams.len() % 2 == 0,
        forall|j: int| 0 <= j < streams.len() ==> #[trigger] streams[j] == streams[0],
        0 <= sector,
        layout.resume_position(sector) <= u64::MAX,
    ensures
        scan(layout, streams, sector).mismatches == Seq::<int>::empty(),
        scan(layout, streams, sector).outcome is Finished <==> remaining(
            streams[0],
            layout.resume_position(sector),
        ) % layout.chunk == 0,
        scan(layout, streams, sector).outcome is Finished || scan(
            layout,
            streams,
            sector,
        ).outcome is Truncated,
{
    let start = layout.resume_position(sector);
    assert(start >= 0) by (nonlinear_arith)
        requires
            start == sector * layout.sector,
            sector >= 0,
            layout.sector > 0,
    ;
    let chunks = full_chunks(streams, start, layout.chunk);
    lemma_full_chunks(streams, start, layout.chunk, 0);
    assert forall|p: int| start <= p < start + chunks * layout.chunk implies parity_at(streams, p)
        == 0 by {
        lemma_parity_of_copies(streams, p, streams[0][p]);
    }
    lemma_clean_chunks(streams, start, layout.chunk, chunks);
    lemma_outcome(layout, streams, sector);
}

/// Clean and truncated termination: a scan that reaches its first chunk ends
/// `Finished` exactly where all streams hold the same number of bytes from
/// the resume position on and that number is a whole number of chunks; every
/// other such scan ends `Truncated`.
pub proof fn lemma_outcome(layout: Layout, streams: Seq<Seq<u8>>, sector: int)
    requires
        layout.valid(),
        streams.len() > 0,
        0 <= sector,
        layout.resume_position(sector) <= u64::MAX,
    ensures
        scan(layout, streams, sector).outcome is Finished <==> {
            &&& forall|j: int|
                0 <= j < streams.len() ==> remaining(
                    #[trigger] streams[j],
                    layout.resume_position(sector),
                ) == remaining(streams[0], layout.resume_position(sector))
            &&& remaining(streams[0], layout.resume_position(sector)) % layout.chunk == 0
        },
        scan(layout, streams, sector).outcome is Finished || scan(
            layout,
            streams,
            sector,
        ).outcome is Truncated,
{
    let start = layout.resume_position(sector);
    let chunk = layout.chunk;
    assert(start >= 0) by (nonlinear_arith)
        requires
            start == sector * layout.sector,
            sector >= 0,
            layout.sector > 0,
    ;
    let n = full_chunks(streams, start, chunk);
    let from = start + n * chunk;
    let first = remaining(streams[0], start);
    lemma_full_chunks(streams, start, chunk, 0);
    lemma_full_chunks(streams, start, chunk, n);
    lemma_shortest(streams);
    let least = choose|j: int| 0 <= j < streams.len() && (#[trigger] streams[j]).len() == shortest(
        streams,
    );
    let room = shortest(streams) - start;
    assert(n * chunk >= 0) by (nonlinear_arith)
        requires
            n >= 0,
            chunk > 0,
    ;
    if room > 0 {
        assert(n == room / chunk);
        assert(room == chunk * n + room % chunk) by (nonlinear_arith)
            requires
                n == room / chunk,
                chunk > 0,
        ;
        assert(chunk * n == n * chunk) by (nonlinear_arith);
    } else {
        assert(n == 0);
    }
    if ended_at(streams, from) {
        // no stream is longer than the chunks that all of them hold
        assert(streams[least].len() <= from);
        if room > 0 {
            assert(room % chunk >= 0);
            assert(room == n * chunk);
            assert forall|j: int| 0 <= j < streams.len() implies remaining(
                #[trigger] streams[j],
                start,
            ) == room by {
                assert(streams[j].len() <= from);
                assert(shortest(streams) <= streams[j].len());
            }
            assert(first == room);
            vstd::arithmetic::div_mod::lemma_mod_multiples_basic(n, chunk);
            assert(first % chunk == 0);
        } else {
            assert(from == start);
            assert forall|j: int| 0 <= j < streams.len() implies remaining(
                #[trigger] streams[j],
                start,
            ) == 0 by {
                assert(streams[j].len() <= from);
            }
            assert(first == 0);
            assert(0int % chunk == 0);
        }
    }
    if (forall|j: int|
        0 <= j < streams.len() ==> remaining(#[trigger] streams[j], start) == first) && first
        % chunk == 0 {
        assert(remaining(streams[least], start) == first);
        if first > 0 {
            assert(room == first);
            assert(room % chunk == 0);
            assert(room == n * chunk);
            assert forall|j: int| 0 <= j < streams.len() implies (#[trigger] streams[j]).len()
                <= from by {
                assert(remaining(streams[j], start) == first);
            }
        } else {
            assert(room <= 0);
            assert(from == start);
            assert forall|j: int| 0 <= j < streams.len() implies (#[trigger] streams[j]).len()
                <= from by {
                assert(remaining(streams[j], start) == 0);
            }
        }
        assert(ended_at(streams, from));
    }
    assert(scan(layout, streams, sector).outcome == verdict(streams, from, chunk));
}

/// Single divergence: an even number of streams are copies of `base`, but
/// that one of them differs from it in one byte. Where that byte lies in a
/// chunk that the scan checks, the scan reports it and nothing else.
pub proof fn lemma_divergent_copy(
    layout: Layout,
    streams: Seq<Seq<u8>>,
    sector: int,
    base: Seq<u8>,
    odd_one: int,
    offset: int,
)
    requires
        layout.valid(),
        streams.len() % 2 == 0,
        0 <= odd_one < streams.len(),
        0 <= sector,
        layout.resume_position(sector) <= u64::MAX,
        0 <= offset < scan(layout, streams, sector).chunks * layout.chunk,
        forall|j: int| 0 <= j < streams.len() && j != odd_one ==> #[trigger] streams[j] == base,
        streams[odd_one].len() == base.len(),
        forall|p: int|
            0 <= p < base.len() && p != layout.resume_position(sector) + offset ==> streams[odd_one][p]
                == base[p],
        streams[odd_one][layout.resume_position(sector) + offset] != base[layout.resume_position(
            sector,
        ) + offset],
    ensures
        scan(layout, streams, sector).mismatches == seq![offset],
{
    let start = layout.resume_position(sector);
    let chunk = layout.chunk;
    assert(start >= 0) by (nonlinear_arith)
        requires
            start == sector * layout.sector,
            sector >= 0,
            layout.sector > 0,
    ;
    let chunks = full_chunks(streams, start, chunk);
    lemma_full_chunks(streams, start, chunk, 0);
    lemma_full_chunks(streams, start, chunk, chunks - 1);
    assert(chunks * chunk == (chunks - 1) * chunk + chunk) by (nonlinear_arith);
    assert(chunks > 0) by (nonlinear_arith)
        requires
            0 <= offset < chunks * chunk,
            chunk > 0,
    ;
    assert(start + chunks * chunk <= streams[odd_one].len());
    let at = start + offset;
    lemma_parity_of_divergence(streams, at, odd_one, base[at], streams[odd_one][at]);
    lemma_xor(base[at], streams[odd_one][at], 0);
    assert forall|p: int| start <= p < start + chunks * chunk && p != at implies parity_at(
        streams,
        p,
    ) == 0 by {
        assert forall|j: int| 0 <= j < streams.len() implies (#[trigger] streams[j])[p]
            == base[p] by {}
        lemma_parity_of_copies(streams, p, base[p]);
    }
    lemma_single_mismatch(layout, streams, sector, offset);
}

/// Clean termination: streams of one length, which from the resume position
/// on is a whole number of chunks, end the scan `Finished`.
pub proof fn lemma_equal_lengths_finish(
    layout: Layout,
    streams: Seq<Seq<u8>>,
    sector: int,
    len: int,
)
    requires
        layout.valid(),
        streams.len() > 0,
        0 <= sector,
        layout.resume_position(sector) <= u64::MAX,
        forall|j: int| 0 <= j < streams.len() ==> (#[trigger] streams[j]).len() == len,
        layout.resume_position(sector) <= len,
        (len - layout.resume_position(sector)) % layout.chunk == 0,
    ensures
        scan(layout, streams, sector).outcome is Finished,
{
    lemma_outcome(layout, streams, sector);
}

/// Truncated termination: streams of one length, but that one of them is
/// shorter by a number of bytes that is no whole number of chunks, end the
/// scan `Truncated` wherever it resumes before the end of the longer ones.
pub proof fn lemma_shorter_stream_truncates(
    layout: Layout,
    streams: Seq<Seq<u8>>,
    sector: int,
    len: int,
    short_one: int,
    by: int,
)
    requires
        layout.valid(),
        streams.len() >= 2,
        0 <= sector,
        layout.resume_position(sector) < len,
        len <= u64::MAX,
        0 <= short_one < streams.len(),
        forall|j: int|
            0 <= j < streams.len() && j != short_one ==> (#[trigger] streams[j]).len() == len,
        streams[short_one].len() == len - by,
        by % layout.chunk != 0,
    ensures
        scan(layout, streams, sector).outcome is Truncated,
{
    let start = layout.resume_position(sector);
    lemma_outcome(layout, streams, sector);
    let other = if short_one == 0 {
        1int
    } else {
        0int
    };
    assert(by != 0) by {
        if by == 0 {
            assert(0int % layout.chunk == 0);
        }
    }
    assert(remaining(streams[other], start) == len - start);
    assert(remaining(streams[short_one], start) != len - start);
}

/// Resume: a scan that resumes on a chunk boundary finds the mismatches that
/// the scan from the first byte finds at or after the resume position, each
/// at the same byte of the streams, and none before that position.
pub proof fn lemma_resume(layout: Layout, streams: Seq<Seq<u8>>, sector: int, offset: int)
    requires
        layout.valid(),
        streams.len() > 0,
        0 <= sector,
        layout.resume_position(sector) <= u64::MAX,
        layout.resume_position(sector) % layout.chunk == 0,
    ensures
        scan(layout, streams, sector).mismatches.contains(offset) <==> offset >= 0 && scan(
            layout,
            streams,
            0,
        ).mismatches.contains(layout.resume_position(sector) + offset),
{
    let start = layout.resume_position(sector);
    let chunk = layout.chunk;
    assert(start >= 0) by (nonlinear_arith)
        requires
            start == sector * layout.sector,
            sector >= 0,
            layout.sector > 0,
    ;
    assert(layout.resume_position(0) == 0);
    let skipped = start / chunk;
    assert(start == chunk * skipped && skipped >= 0) by (nonlinear_arith)
        requires
            skipped == start / chunk,
            start % chunk == 0,
            start >= 0,
            chunk > 0,
    ;
    let resumed_chunks = full_chunks(streams, start, chunk);
    let whole_chunks = full_chunks(streams, 0, chunk);
    lemma_mismatch_members(streams, start, chunk, resumed_chunks, offset);
    lemma_mismatch_members(streams, 0, chunk, whole_chunks, start + offset);
    if scan(layout, streams, sector).mismatches.contains(offset) {
        let k = choose|k: int|
            0 <= k < resumed_chunks && #[trigger] chunk_mismatch(streams, start, chunk, k) == Some(
                offset,
            );
        assert((k + skipped) * chunk == k * chunk + chunk * skipped) by (nonlinear_arith);
        assert(k * chunk >= 0) by (nonlinear_arith)
            requires
                k >= 0,
                chunk > 0,
        ;
        lemma_chunk_mismatch_range(streams, start, chunk, k);
        lemma_full_chunks(streams, start, chunk, k);
        lemma_full_chunks(streams, 0, chunk, k + skipped);
        assert(chunk_mismatch(streams, 0, chunk, k + skipped) == Some(start + offset));
    }
    if offset >= 0 && scan(layout, streams, 0).mismatches.contains(start + offset) {
        let found = choose|k: int|
            0 <= k < whole_chunks && #[trigger] chunk_mismatch(streams, 0, chunk, k) == Some(
                start + offset,
            );
        lemma_chunk_mismatch_range(streams, 0, chunk, found);
        assert(found >= skipped) by (nonlinear_arith)
            requires
                chunk * skipped < found * chunk + chunk,
                chunk > 0,
        ;
        let k = found - skipped;
        assert(found * chunk == k * chunk + chunk * skipped) by (nonlinear_arith)
            requires
                k == found - skipped,
        ;
        lemma_full_chunks(streams, start, chunk, k);
        lemma_full_chunks(streams, 0, chunk, found);
        assert(chunk_mismatch(streams, start, chunk, k) == Some(offset));
    }
}

/// Progress cadence: the progress lines of the first `chunks` chunks stand at
/// the multiples of the progress boundary below the bytes checked, the first
/// of them at offset 0, and nowhere else.
pub proof fn lemma_progress_members(layout: Layout, chunks: int, offset: int)
    requires
        layout.valid(),
        chunks >= 0,
    ensures
        progress(layout, chunks).contains(offset) <==> 0 <= offset < chunks * layout.chunk && offset
            % layout.boundary == 0,
    decreases chunks,
{
    let chunk = layout.chunk;
    if chunks > 0 {
        let k = chunks - 1;
        let before = progress(layout, k);
        let now = progress(layout, chunks);
        lemma_progress_members(layout, k, offset);
        assert(chunks * chunk == k * chunk + chunk) by (nonlinear_arith)
            requires
                k == chunks - 1,
        ;
        assert(k * chunk >= 0) by (nonlinear_arith)
            requires
                k >= 0,
                chunk > 0,
        ;
        if (k * chunk) % layout.boundary == 0 {
            assert(now == before.push(k * chunk));
            assert(now[before.len() as int] == k * chunk);
            if before.contains(offset) {
                let at = choose|i: int| 0 <= i < before.len() && before[i] == offset;
                assert(now[at] == offset);
            }
            if now.contains(offset) {
                let at = choose|i: int| 0 <= i < now.len() && now[i] == offset;
                if at < before.len() {
                    assert(before[at] == offset);
                }
            }
        }
        if k * chunk <= offset < chunks * chunk && offset % layout.boundary == 0 {
            lemma_multiple_of_chunk(layout, offset);
            let t = offset / chunk;
            assert(t == k) by (nonlinear_arith)
                requires
                    offset == chunk * t,
                    k * chunk <= offset < k * chunk + chunk,
                    chunk > 0,
            ;
            assert(chunk * t == t * chunk) by (nonlinear_arith);
        }
    } else {
        assert(chunks * chunk == 0) by (nonlinear_arith)
            requires
                chunks == 0,
        ;
    }
}

/// A multiple of the progress boundary is a whole number of chunks.
proof fn lemma_multiple_of_chunk(layout: Layout, offset: int)
    requires
        layout.valid(),
        offset >= 0,
        offset % layout.boundary == 0,
    ensures
        offset == layout.chunk * (offset / layout.chunk),
{
    let chunk = layout.chunk;
    let boundary = layout.boundary;
    let lines = offset / boundary;
    let per_line = boundary / chunk;
    assert(offset == boundary * lines) by (nonlinear_arith)
        requires
            lines == offset / boundary,
            offset % boundary == 0,
            boundary > 0,
    ;
    assert(boundary == chunk * per_line) by (nonlinear_arith)
        requires
            per_line == boundary / chunk,
            boundary % chunk == 0,
            chunk > 0,
    ;
    assert(offset == (per_line * lines) * chunk) by (nonlinear_arith)
        requires
            offset == boundary * lines,
            boundary == chunk * per_line,
    ;
    vstd::arithmetic::div_mod::lemma_mod_multiples_basic(per_line * lines, chunk);
    assert(offset == chunk * (offset / chunk)) by (nonlinear_arith)
        requires
            offset % chunk == 0,
            chunk > 0,
    ;
}

/// Each progress line comes once, and the lines come in rising order.
pub proof fn lemma_progress_rises(layout: Layout, chunks: int)
    requires
        layout.valid(),
        chunks >= 0,
    ensures
        forall|i: int, j: int|
            0 <= i < j < progress(layout, chunks).len() ==> progress(layout, chunks)[i] < progress(
                layout,
                chunks,
            )[j],
    decreases chunks,
{
    if chunks > 0 {
        let k = chunks - 1;
        let before = progress(layout, k);
        let now = progress(layout, chunks);
        lemma_progress_rises(layout, k);
        assert forall|i: int, j: int| 0 <= i < j < now.len() implies now[i] < now[j] by {
            if j >= before.len() {
                assert(before.contains(before[i]));
                lemma_progress_members(layout, k, before[i]);
            }
        }
    }
}

/// Each mismatch comes once, and the mismatches come in rising order.
pub proof fn lemma_mismatches_rise(streams: Seq<Seq<u8>>, start: int, chunk: int, chunks: int)
    requires
        chunk > 0,
        chunks >= 0,
    ensures
        forall|i: int, j: int|
            0 <= i < j < mismatches(streams, start, chunk, chunks).len() ==> mismatches(
                streams,
                start,
                chunk,
                chunks,
            )[i] < mismatches(streams, start, chunk, chunks)[j],
    decreases chunks,
{
    if chunks > 0 {
        let last = chunks - 1;
        let before = mismatches(streams, start, chunk, last);
        let now = mismatches(streams, start, chunk, chunks);
        lemma_mismatches_rise(streams, start, chunk, last);
        lemma_chunk_mismatch_range(streams, start, chunk, last);
        assert forall|i: int, j: int| 0 <= i < j < now.len() implies now[i] < now[j] by {
            if j >= before.len() {
                assert(before.contains(before[i]));
                lemma_mismatch_members(streams, start, chunk, last, before[i]);
                let k = choose|k: int|
                    0 <= k < last && #[trigger] chunk_mismatch(streams, start, chunk, k) == Some(
                        before[i],
                    );
                lemma_chunk_mismatch_range(streams, start, chunk, k);
                assert(k * chunk + chunk <= last * chunk) by (nonlinear_arith)
                    requires
                        k < last,
                        chunk > 0,
                ;
            }
        }
    }
}

} // verus!
