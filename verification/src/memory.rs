//! Scans of streams that are held in memory.
//!
//! `scan_streams` drives the state machine as a program drives it over files:
//! it performs each action that the machine asks for, here on byte buffers,
//! and hands back what happened. Its report is the one that `model::scan`
//! defines over the contents of the streams.

use vstd::prelude::*;
use vstd::slice::slice_subrange;
use crate::geometry::{Geometry, Layout};
use crate::model::{
    ended_at, full_at, full_chunks, is_first_uneven, lemma_full_chunks, lemma_verdict, mismatches,
    progress, scan, uneven_at, window, windows, Summary,
};
use crate::parity::{contents, lemma_first_nonzero, parity, xor_bytes};
use crate::scan_loop::{Action, Event, Notes, Phase, ScanLoop, ScanState};

verus! {

/// What a scan reported, with all offsets counted from its start.
#[derive(Debug, PartialEq, Eq)]
pub struct ScanReport {
    /// Offsets of the progress lines, in the order in which they came.
    pub progress: Vec<u64>,
    /// Offsets of the mismatches, in the order in which they were found.
    pub mismatches: Vec<u64>,
    /// Number of chunks that were checked.
    pub chunks: u64,
    /// The final phase of the scan.
    pub outcome: Phase,
}

/// A list of offsets as mathematical integers.
pub open spec fn offsets(list: Seq<u64>) -> Seq<int> {
    Seq::new(list.len(), |i: int| list[i] as int)
}

impl View for ScanReport {
    type V = Summary;

    open spec fn view(&self) -> Summary {
        Summary {
            progress: offsets(self.progress@),
            mismatches: offsets(self.mismatches@),
            chunks: self.chunks as int,
            outcome: self.outcome,
        }
    }
}

/// Reads up to `len` bytes of `stream` at `from`: fewer where the stream ends
/// before, none at or after its end.
pub fn read_at<'a>(stream: &'a [u8], from: u64, len: usize) -> (data: &'a [u8])
    ensures
        data@ == window(stream@, from as int, len as int),
{
    let end: usize = stream.len();
    if from >= end as u64 {
        let data = slice_subrange(stream, 0, 0);
        assert(data@ =~= Seq::<u8>::empty());
        data
    } else {
        let first: usize = from as usize;
        if len <= end - first {
            slice_subrange(stream, first, first + len)
        } else {
            slice_subrange(stream, first, end)
        }
    }
}

/// `list` with the offset of `note` behind it, where there is one.
spec fn noted(list: Seq<int>, note: Option<u64>) -> Seq<int> {
    match note {
        Some(offset) => list.push(offset as int),
        None => list,
    }
}

/// How far a phase is from the end of the scan.
spec fn rank(phase: Phase) -> int {
    match phase {
        Phase::Opening { .. } => 3,
        Phase::Seeking { .. } => 2,
        Phase::Scanning { .. } => 1,
        _ => 0,
    }
}

/// The stream that a phase waits for.
spec fn cursor(phase: Phase) -> int {
    match phase {
        Phase::Opening { stream } => stream as int,
        Phase::Seeking { stream } => stream as int,
        Phase::Scanning { stream } => stream as int,
        _ => 0,
    }
}

/// The machine in `state` has checked the first `k` chunks of `streams` and
/// the two lists hold what the model reports of them.
spec fn tracks(
    state: ScanState,
    layout: Layout,
    streams: Seq<Seq<u8>>,
    sector: int,
    k: int,
    progress_so_far: Seq<int>,
    mismatches_so_far: Seq<int>,
) -> bool {
    let start = layout.resume_position(sector);
    let chunk = layout.chunk;
    let from = start + state.offset;
    &&& state.valid()
    &&& state.layout == layout
    &&& state.streams == streams.len()
    &&& 0 <= sector <= u64::MAX
    &&& state.position == (if start <= u64::MAX {
        Some(start)
    } else {
        None
    })
    &&& state.offset == k * chunk
    &&& match state.phase {
        Phase::Opening { .. } => k == 0,
        Phase::Seeking { .. } => k == 0,
        Phase::Scanning { stream } => {
            &&& 0 <= k <= full_chunks(streams, start, chunk)
            &&& progress_so_far == progress(layout, k)
            &&& mismatches_so_far == mismatches(streams, start, chunk, k)
            &&& if state.draining {
                forall|i: int| 0 <= i < stream ==> (#[trigger] streams[i]).len() <= from
            } else {
                &&& forall|i: int| 0 <= i < stream ==> from + chunk <= (#[trigger] streams[i]).len()
                &&& state.acc == parity(windows(streams, from, chunk).take(stream as int), chunk)
            }
        },
        _ => (Summary {
            progress: progress_so_far,
            mismatches: mismatches_so_far,
            chunks: k,
            outcome: state.phase,
        }) == scan(layout, streams, sector),
    }
    &&& (state.phase is Opening || state.phase is Seeking) ==> {
        &&& progress_so_far == Seq::<int>::empty()
        &&& mismatches_so_far == Seq::<int>::empty()
    }
}

/// A step that opens or seeks keeps the machine on track.
proof fn lemma_setup_step(
    state: ScanState,
    layout: Layout,
    streams: Seq<Seq<u8>>,
    sector: int,
    event: Event,
)
    requires
        tracks(state, layout, streams, sector, 0, Seq::empty(), Seq::empty()),
        state.phase is Opening && event is Opened || state.phase is Seeking && event is Sought,
    ensures
        tracks(state.next(event), layout, streams, sector, 0, Seq::empty(), Seq::empty()),
        state.notes(event) == (Notes { progress: None, mismatch: None }),
        rank(state.next(event).phase) < rank(state.phase) || (rank(state.next(event).phase)
            == rank(state.phase) && cursor(state.next(event).phase) == cursor(state.phase) + 1),
{
    let start = layout.resume_position(sector);
    let after = state.next(event);
    assert(sector * layout.sector >= 0) by (nonlinear_arith)
        requires
            sector >= 0,
            layout.sector > 0,
    ;
    if after.phase is Scanning {
        lemma_full_chunks(streams, start, layout.chunk, 0);
        assert(windows(streams, start, layout.chunk).take(0) =~= Seq::<Seq<u8>>::empty());
    }
}

/// A step that reads from memory keeps the machine on track.
proof fn lemma_read_step(
    state: ScanState,
    layout: Layout,
    streams: Seq<Seq<u8>>,
    sector: int,
    k: int,
    progress_so_far: Seq<int>,
    mismatches_so_far: Seq<int>,
    event: Event,
)
    requires
        tracks(state, layout, streams, sector, k, progress_so_far, mismatches_so_far),
        state.phase is Scanning,
        forall|j: int| 0 <= j < streams.len() ==> (#[trigger] streams[j]).len() <= usize::MAX,
        event matches Event::Read { data } && data@ == window(
            streams[cursor(state.phase)],
            layout.resume_position(sector) + state.offset,
            layout.chunk,
        ),
    ensures
        tracks(
            state.next(event),
            layout,
            streams,
            sector,
            if state.completed_by(event) {
                k + 1
            } else {
                k
            },
            noted(progress_so_far, state.notes(event).progress),
            noted(mismatches_so_far, state.notes(event).mismatch),
        ),
        state.completed_by(event) ==> k < full_chunks(
            streams,
            layout.resume_position(sector),
            layout.chunk,
        ),
        rank(state.next(event).phase) < rank(state.phase) || state.completed_by(event) || (rank(
            state.next(event).phase,
        ) == rank(state.phase) && cursor(state.next(event).phase) == cursor(state.phase) + 1),
{
    let start = layout.resume_position(sector);
    let chunk = layout.chunk;
    let from = start + state.offset;
    let j = cursor(state.phase);
    let data = event->data@;
    let after = state.next(event);
    let all = windows(streams, from, chunk);
    assert(sector * layout.sector >= 0) by (nonlinear_arith)
        requires
            sector >= 0,
            layout.sector > 0,
    ;
    lemma_full_chunks(streams, start, chunk, k);
    lemma_first_nonzero(xor_bytes(state.acc, data));
    assert(all[j] == data);
    assert(state.answered_by(event));
    let checked = if state.completed_by(event) {
        k + 1
    } else {
        k
    };
    let lines = noted(progress_so_far, state.notes(event).progress);
    let found = noted(mismatches_so_far, state.notes(event).mismatch);
    if after.phase is Scanning && !state.completed_by(event) {
        if !after.draining {
            assert(all.take(j + 1).drop_last() =~= all.take(j));
            assert(all.take(j + 1).last() == data);
        }
        assert(tracks(after, layout, streams, sector, checked, lines, found));
    } else if state.completed_by(event) {
        assert(all.take(j + 1).drop_last() =~= all.take(j));
        assert(all.take(j + 1).last() == data);
        assert(all.take(j + 1) =~= all);
        assert(full_at(streams, from, chunk));
        assert((k + 1) * chunk == k * chunk + chunk) by (nonlinear_arith);
        assert(all.take(0) =~= Seq::<Seq<u8>>::empty());
        assert(windows(streams, from + chunk, chunk).take(0) =~= Seq::<Seq<u8>>::empty());
        assert(parity(all, chunk) == xor_bytes(state.acc, data));
        assert(k + 1 <= full_chunks(streams, start, chunk));
        assert(after.offset == (k + 1) * chunk);
        assert(lines == progress(layout, k + 1));
        assert(found == mismatches(streams, start, chunk, k + 1));
        assert(after.acc == parity(windows(streams, start + after.offset, chunk).take(0), chunk));
        assert(after.offset % chunk == 0) by {
            vstd::arithmetic::div_mod::lemma_mod_adds(state.offset, chunk, chunk);
        }
        assert(after.valid());
        assert(tracks(after, layout, streams, sector, checked, lines, found));
    } else if after.phase is Failed {
        // cannot be: the streams hold the chunk, so the offset behind it fits
        assert(from + chunk <= streams[j].len());
        assert(state.offset + chunk <= u64::MAX);
    } else {
        assert(!full_at(streams, from, chunk)) by {
            if full_at(streams, from, chunk) {
                assert(from + chunk <= streams[j].len());
                assert(from + chunk <= streams[0].len());
            }
        }
        assert(k == full_chunks(streams, start, chunk));
        if after.phase is Finished {
            assert(ended_at(streams, from));
        } else {
            assert(uneven_at(streams, from, chunk, j));
            assert(is_first_uneven(streams, from, chunk, j));
            assert(!ended_at(streams, from)) by {
                if ended_at(streams, from) {
                    assert(streams[j].len() <= from);
                    assert(streams[0].len() <= from);
                }
            }
            lemma_verdict(streams, from, chunk, j);
        }
        assert(tracks(after, layout, streams, sector, checked, lines, found));
    }
}

/// No buffer is longer than an index can tell.
proof fn lemma_contents_bounded(buffers: Seq<Vec<u8>>)
    ensures
        forall|j: int|
            0 <= j < buffers.len() ==> (#[trigger] contents(buffers)[j]).len() <= usize::MAX,
{
    assert forall|j: int| 0 <= j < buffers.len() implies (#[trigger] contents(buffers)[j]).len()
        <= usize::MAX by {
        assert(buffers[j]@.len() == buffers[j].len());
    }
}

/// Scans `streams` from `sector` on and reports what the scan found.
pub fn scan_streams(geometry: Geometry, streams: &Vec<Vec<u8>>, sector: u64) -> (report: ScanReport)
    ensures
        report@ == scan(geometry@, contents(streams@), sector as int),
{
    let ghost layout = geometry@;
    let ghost model = contents(streams@);
    let position: Option<u64> = geometry.resume_position(sector);
    let chunk: usize = geometry.chunk_size();
    let mut scan_loop = ScanLoop::start(geometry, streams.len(), sector);
    let mut progress_list: Vec<u64> = Vec::new();
    let mut mismatch_list: Vec<u64> = Vec::new();
    let ghost mut k: int = 0;
    assert(offsets(progress_list@) =~= Seq::<int>::empty());
    assert(offsets(mismatch_list@) =~= Seq::<int>::empty());
    assert(0 * layout.chunk == 0);
    loop
        invariant
            tracks(
                scan_loop@,
                layout,
                model,
                sector as int,
                k,
                offsets(progress_list@),
                offsets(mismatch_list@),
            ),
            model == contents(streams@),
            layout.valid(),
            chunk == layout.chunk,
            match position {
                Some(p) => p == layout.resume_position(sector as int),
                None => layout.resume_position(sector as int) > u64::MAX,
            },
        ensures
            scan_loop@.terminal(),
        decreases
            rank(scan_loop@.phase),
            full_chunks(model, layout.resume_position(sector as int), layout.chunk) - k,
            streams@.len() - cursor(scan_loop@.phase),
    {
        let ghost before = scan_loop@;
        match scan_loop.action() {
            Action::Stop { .. } => {
                break ;
            },
            Action::Open { .. } => {
                let event = Event::Opened;
                proof {
                    lemma_setup_step(before, layout, model, sector as int, event);
                }
                let (after, _) = scan_loop.step(event);
                scan_loop = after;
            },
            Action::Seek { .. } => {
                let event = Event::Sought;
                proof {
                    lemma_setup_step(before, layout, model, sector as int, event);
                }
                let (after, _) = scan_loop.step(event);
                scan_loop = after;
            },
            Action::Read { stream, len } => {
                let ghost start = layout.resume_position(sector as int);
                proof {
                    lemma_contents_bounded(streams@);
                    assert(start >= 0) by (nonlinear_arith)
                        requires
                            start == sector * layout.sector,
                            layout.sector > 0,
                    ;
                    if k > 0 {
                        lemma_full_chunks(model, start, layout.chunk, k - 1);
                        assert(k * layout.chunk == (k - 1) * layout.chunk + layout.chunk)
                            by (nonlinear_arith);
                        assert(start + k * layout.chunk <= model[0].len());
                    } else {
                        assert(k * layout.chunk == 0);
                    }
                }
                let from: u64 = position.unwrap() + scan_loop.offset();
                let data = read_at(streams[stream].as_slice(), from, len);
                let event = Event::Read { data };
                proof {
                    assert(model[stream as int] == streams@[stream as int]@);
                    lemma_read_step(
                        before,
                        layout,
                        model,
                        sector as int,
                        k,
                        offsets(progress_list@),
                        offsets(mismatch_list@),
                        event,
                    );
                }
                let ghost progress_before = progress_list@;
                let ghost mismatches_before = mismatch_list@;
                let (after, notes) = scan_loop.step(event);
                scan_loop = after;
                if let Some(offset) = notes.progress {
                    progress_list.push(offset);
                    assert(offsets(progress_list@) =~= offsets(progress_before).push(offset as int));
                }
                if let Some(offset) = notes.mismatch {
                    mismatch_list.push(offset);
                    assert(offsets(mismatch_list@) =~= offsets(mismatches_before).push(
                        offset as int,
                    ));
                }
                proof {
                    if before.completed_by(event) {
                        k = k + 1;
                    }
                }
            },
        }
    }
    let chunks: u64 = scan_loop.offset() / (chunk as u64);
    proof {
        vstd::arithmetic::div_mod::lemma_div_by_multiple(k, layout.chunk);
    }
    ScanReport {
        progress: progress_list,
        mismatches: mismatch_list,
        chunks,
        outcome: scan_loop.phase(),
    }
}

} // verus!
