//! The scan as a state machine.
//!
//! The machine performs no I/O. It names the next thing its driver has to do
//! (`Action`), is told how that went (`Event`), and moves to its next state,
//! handing out what there is to report (`Notes`). The driver opens, seeks and
//! reads; every decision is taken here.

use vstd::prelude::*;
use crate::geometry::{Geometry, Layout};
use crate::parity::{clear, find_mismatch, fold_chunk, mismatch_in, xor_bytes, zeros};

verus! {

/// Why a scan failed.
#[derive(Clone, Copy, Debug, PartialEq, Eq, Structural)]
pub enum Failure {
    /// No stream identifier was given.
    Argument,
    /// The stream with this index could not be opened.
    Open { stream: usize },
    /// The stream with this index could not be moved to the resume position.
    Seek { stream: usize },
    /// Reading the stream with this index failed in the chunk at `offset`.
    Read { stream: usize, offset: u64 },
}

/// Where a scan stands. `Finished`, `Truncated` and `Failed` are final.
#[derive(Clone, Copy, Debug, PartialEq, Eq, Structural)]
pub enum Phase {
    /// Streams before `stream` are open; `stream` is to be opened next.
    Opening { stream: usize },
    /// Streams before `stream` stand at the resume position.
    Seeking { stream: usize },
    /// Streams before `stream` gave their chunk of the current iteration.
    Scanning { stream: usize },
    /// All streams ended together on a chunk boundary.
    Finished,
    /// The streams ran out unevenly or inside a chunk; `stream` showed it.
    Truncated { stream: usize },
    /// A fatal error ended the scan.
    Failed { failure: Failure },
}

/// What the driver has to do next.
#[derive(Clone, Copy, Debug, PartialEq, Eq, Structural)]
pub enum Action {
    Open { stream: usize },
    /// Move `stream` to byte `position`, counted from its start.
    Seek { stream: usize, position: u64 },
    /// Read up to `len` bytes from `stream`, fewer only at its end.
    Read { stream: usize, len: usize },
    /// The scan is over; nothing more is to be done.
    Stop { exit_code: i32 },
}

/// How the pending action went.
#[derive(Clone, Copy, Debug)]
pub enum Event<'a> {
    Opened,
    OpenFailed,
    Sought,
    SeekFailed,
    /// The bytes that the read gave; none at the end of the stream.
    Read { data: &'a [u8] },
    ReadFailed,
}

/// What one read gave, measured against the chunk that was asked for.
#[derive(Clone, Copy, Debug, PartialEq, Eq, Structural)]
pub enum Portion {
    /// A whole chunk.
    Whole,
    /// Nothing: the stream is at its end.
    Nothing,
    /// Some bytes, but not a whole chunk.
    Part,
}

/// The portion that `len` bytes are of a chunk of `chunk` bytes.
pub open spec fn portion_of(len: int, chunk: int) -> Portion {
    if len == chunk {
        Portion::Whole
    } else if len == 0 {
        Portion::Nothing
    } else {
        Portion::Part
    }
}

/// What one step has to report. Both are offsets from the start of the scan.
#[derive(Clone, Copy, Debug, PartialEq, Eq, Structural)]
pub struct Notes {
    /// The offset of the chunk just checked, where it lies on a progress boundary.
    pub progress: Option<u64>,
    /// The offset of the first byte of the chunk just checked at which the
    /// parity is not zero.
    pub mismatch: Option<u64>,
}

/// The state of a scan as mathematical values.
pub struct ScanState {
    pub layout: Layout,
    /// Number of streams.
    pub streams: int,
    /// Byte position at which the scan resumes in every stream; `None` where
    /// the position of the resume sector does not fit in 64 bits.
    pub position: Option<int>,
    pub phase: Phase,
    /// Offset of the current chunk from the start of the scan.
    pub offset: int,
    /// The first stream of this iteration was at its end, so all must be.
    pub draining: bool,
    /// XOR of the chunks that this iteration has taken so far.
    pub acc: Seq<u8>,
}

impl ScanState {
    /// What holds of the state of every scan: the sizes are valid, the offset
    /// is a whole number of chunks, the accumulator is one chunk long and
    /// holds zero bytes until the first chunk of an iteration is folded in,
    /// and every stream that the phase names is one of the streams.
    pub open spec fn valid(self) -> bool {
        &&& self.layout.valid()
        &&& 0 <= self.streams <= usize::MAX
        &&& self.position matches Some(p) ==> 0 <= p <= u64::MAX
        &&& 0 <= self.offset <= u64::MAX
        &&& self.offset % self.layout.chunk == 0
        &&& self.acc.len() == self.layout.chunk
        &&& named_stream(self.phase) matches Some(stream) ==> stream < self.streams
        &&& match self.phase {
            Phase::Opening { stream } => {
                &&& stream < self.streams
                &&& self.offset == 0
                &&& !self.draining
                &&& self.acc == zeros(self.layout.chunk)
            },
            Phase::Seeking { stream } => {
                &&& stream < self.streams
                &&& self.offset == 0
                &&& !self.draining
                &&& self.acc == zeros(self.layout.chunk)
                &&& self.position is Some
            },
            Phase::Scanning { stream } => {
                &&& stream < self.streams
                &&& self.position is Some
                &&& stream == 0 ==> !self.draining
                &&& (stream == 0 || self.draining) ==> self.acc == zeros(self.layout.chunk)
            },
            _ => true,
        }
    }

    /// The state in which every scan starts.
    pub open spec fn initial(layout: Layout, streams: int, sector: int) -> ScanState {
        ScanState {
            layout,
            streams,
            position: if layout.resume_position(sector) <= u64::MAX {
                Some(layout.resume_position(sector))
            } else {
                None
            },
            phase: if streams == 0 {
                Phase::Failed { failure: Failure::Argument }
            } else {
                Phase::Opening { stream: 0 }
            },
            offset: 0,
            draining: false,
            acc: zeros(layout.chunk),
        }
    }

    /// The scan is over.
    pub open spec fn terminal(self) -> bool {
        self.phase is Finished || self.phase is Truncated || self.phase is Failed
    }

    /// The scan stands between two iterations: the next read begins a chunk.
    /// A driver that has to stop early stops here.
    pub open spec fn at_boundary(self) -> bool {
        self.phase == (Phase::Scanning { stream: 0 })
    }

    /// What the driver has to do in this state.
    pub open spec fn pending(self) -> Action {
        match self.phase {
            Phase::Opening { stream } => Action::Open { stream },
            Phase::Seeking { stream } => Action::Seek {
                stream,
                position: self.position.unwrap() as u64,
            },
            Phase::Scanning { stream } => Action::Read { stream, len: self.layout.chunk as usize },
            _ => Action::Stop { exit_code: exit_code(self.phase) },
        }
    }

    /// `event` is a possible answer to the pending action.
    pub open spec fn answered_by(self, event: Event) -> bool {
        match self.phase {
            Phase::Opening { .. } => event is Opened || event is OpenFailed,
            Phase::Seeking { .. } => event is Sought || event is SeekFailed,
            Phase::Scanning { .. } => match event {
                Event::ReadFailed => true,
                Event::Read { data } => data@.len() <= self.layout.chunk,
                _ => false,
            },
            _ => false,
        }
    }

    /// `event` is the last full chunk of an iteration, which is then checked.
    pub open spec fn completed_by(self, event: Event) -> bool {
        &&& self.phase matches Phase::Scanning { stream }
        &&& event matches Event::Read { data }
        &&& !self.draining
        &&& portion_of(data@.len() as int, self.layout.chunk) == Portion::Whole
        &&& stream + 1 == self.streams
        &&& self.offset + self.layout.chunk <= u64::MAX
    }

    /// The state after `event`. An event that does not answer the pending
    /// action changes nothing.
    pub open spec fn next(self, event: Event) -> ScanState {
        if !self.answered_by(event) {
            self
        } else {
            match self.phase {
                Phase::Opening { stream } => if event is OpenFailed {
                    self.moved(Phase::Failed { failure: Failure::Open { stream } })
                } else if stream + 1 < self.streams {
                    self.moved(Phase::Opening { stream: (stream + 1) as usize })
                } else if self.position is Some {
                    self.moved(Phase::Seeking { stream: 0 })
                } else {
                    self.moved(Phase::Failed { failure: Failure::Seek { stream: 0 } })
                },
                Phase::Seeking { stream } => if event is SeekFailed {
                    self.moved(Phase::Failed { failure: Failure::Seek { stream } })
                } else if stream + 1 < self.streams {
                    self.moved(Phase::Seeking { stream: (stream + 1) as usize })
                } else {
                    self.moved(Phase::Scanning { stream: 0 })
                },
                Phase::Scanning { stream } => match event {
                    Event::Read { data } => self.after_read(stream, data@),
                    _ => self.moved(
                        Phase::Failed {
                            failure: Failure::Read { stream, offset: self.offset as u64 },
                        },
                    ),
                },
                _ => self,
            }
        }
    }

    /// The state after stream `stream` gave `data`, at most a chunk long.
    ///
    /// A whole chunk is folded into the accumulator, and the chunk of the last
    /// stream completes the iteration. Where the first stream gives nothing,
    /// the scan is at its end if every other stream gives nothing too. All
    /// else truncates the scan: a part of a chunk, an end that the streams do
    /// not share. An iteration whose end would lie beyond the last offset
    /// that 64 bits can hold fails as a read.
    pub open spec fn after_read(self, stream: usize, data: Seq<u8>) -> ScanState {
        let last = stream + 1 == self.streams;
        let onward = Phase::Scanning { stream: (stream + 1) as usize };
        let portion = portion_of(data.len() as int, self.layout.chunk);
        if self.draining {
            if portion != Portion::Nothing {
                self.moved(Phase::Truncated { stream })
            } else if last {
                self.moved(Phase::Finished)
            } else {
                self.moved(onward)
            }
        } else if portion == Portion::Whole {
            if !last {
                ScanState { phase: onward, acc: xor_bytes(self.acc, data), ..self }
            } else if self.offset + self.layout.chunk <= u64::MAX {
                ScanState {
                    phase: Phase::Scanning { stream: 0 },
                    offset: self.offset + self.layout.chunk,
                    acc: zeros(self.layout.chunk),
                    ..self
                }
            } else {
                self.moved(
                    Phase::Failed { failure: Failure::Read { stream, offset: self.offset as u64 } },
                )
            }
        } else if portion == Portion::Nothing && stream == 0 {
            if last {
                self.moved(Phase::Finished)
            } else {
                ScanState { phase: onward, draining: true, ..self }
            }
        } else {
            self.moved(Phase::Truncated { stream })
        }
    }

    /// The same state in another phase.
    pub open spec fn moved(self, phase: Phase) -> ScanState {
        ScanState { phase, ..self }
    }

    /// What the step that takes `event` reports.
    pub open spec fn notes(self, event: Event) -> Notes {
        if self.completed_by(event) {
            Notes {
                progress: if self.layout.progress_due(self.offset) {
                    Some(self.offset as u64)
                } else {
                    None
                },
                mismatch: match mismatch_in(xor_bytes(self.acc, event->data@), self.offset) {
                    Some(at) => Some(at as u64),
                    None => None,
                },
            }
        } else {
            Notes { progress: None, mismatch: None }
        }
    }
}

/// The stream that a final phase names, if it names one.
pub open spec fn named_stream(phase: Phase) -> Option<usize> {
    match phase {
        Phase::Truncated { stream } => Some(stream),
        Phase::Failed { failure: Failure::Open { stream } } => Some(stream),
        Phase::Failed { failure: Failure::Seek { stream } } => Some(stream),
        Phase::Failed { failure: Failure::Read { stream, .. } } => Some(stream),
        _ => None,
    }
}

/// The exit code that tells how a scan ended: 0 for `Finished`, 1 for a
/// missing argument, 2 for a failed open or seek, 3 for a failed read and for
/// `Truncated`. A scan that is not over has none; 0 stands for it.
pub open spec fn exit_code(phase: Phase) -> i32 {
    match phase {
        Phase::Failed { failure: Failure::Argument } => 1,
        Phase::Failed { failure: Failure::Open { .. } } => 2,
        Phase::Failed { failure: Failure::Seek { .. } } => 2,
        Phase::Failed { failure: Failure::Read { .. } } => 3,
        Phase::Truncated { .. } => 3,
        _ => 0,
    }
}

/// A scan in progress.
pub struct ScanLoop {
    geometry: Geometry,
    streams: usize,
    position: Option<u64>,
    phase: Phase,
    offset: u64,
    draining: bool,
    acc: Vec<u8>,
}

impl View for ScanLoop {
    type V = ScanState;

    closed spec fn view(&self) -> ScanState {
        ScanState {
            layout: self.geometry@,
            streams: self.streams as int,
            position: match self.position {
                Some(p) => Some(p as int),
                None => None,
            },
            phase: self.phase,
            offset: self.offset as int,
            draining: self.draining,
            acc: self.acc@,
        }
    }
}

impl ScanLoop {
    #[verifier::type_invariant]
    spec fn inv(self) -> bool {
        self@.valid()
    }

    /// Starts a scan of `streams` streams from `sector`. With no stream the
    /// scan has failed before anything is opened.
    pub fn start(geometry: Geometry, streams: usize, sector: u64) -> (scan: ScanLoop)
        ensures
            scan@ == ScanState::initial(geometry@, streams as int, sector as int),
            scan@.valid(),
    {
        let chunk: usize = geometry.chunk_size();
        let position = geometry.resume_position(sector);
        let acc: Vec<u8> = vec![0u8; chunk];
        assert(acc@ =~= zeros(chunk as int));
        let phase = if streams == 0 {
            Phase::Failed { failure: Failure::Argument }
        } else {
            Phase::Opening { stream: 0 }
        };
        ScanLoop { geometry, streams, position, phase, offset: 0, draining: false, acc }
    }

    /// The action that the driver has to perform now.
    pub fn action(&self) -> (action: Action)
        ensures
            action == self@.pending(),
            self@.valid(),
    {
        proof {
            use_type_invariant(self);
        }
        match self.phase {
            Phase::Opening { stream } => Action::Open { stream },
            Phase::Seeking { stream } => Action::Seek { stream, position: self.position.unwrap() },
            Phase::Scanning { stream } => Action::Read { stream, len: self.geometry.chunk_size() },
            _ => Action::Stop { exit_code: code_of(self.phase) },
        }
    }

    /// The phase in which the scan stands.
    pub fn phase(&self) -> (phase: Phase)
        ensures
            phase == self@.phase,
            self@.valid(),
    {
        proof {
            use_type_invariant(self);
        }
        self.phase
    }

    /// The byte position at which the scan resumes in every stream, where it
    /// fits in 64 bits.
    pub fn position(&self) -> (position: Option<u64>)
        ensures
            match position {
                Some(p) => self@.position == Some(p as int),
                None => self@.position is None,
            },
    {
        self.position
    }

    /// Offset of the current chunk from the start of the scan.
    pub fn offset(&self) -> (offset: u64)
        ensures
            offset == self@.offset,
    {
        self.offset
    }

    /// Number of streams under scan.
    pub fn streams(&self) -> (streams: usize)
        ensures
            streams == self@.streams,
    {
        self.streams
    }

    /// The scan is over.
    pub fn is_over(&self) -> (over: bool)
        ensures
            over == self@.terminal(),
    {
        match self.phase {
            Phase::Finished => true,
            Phase::Truncated { .. } => true,
            Phase::Failed { .. } => true,
            _ => false,
        }
    }

    /// The scan stands between two iterations.
    pub fn at_boundary(&self) -> (between: bool)
        ensures
            between == self@.at_boundary(),
    {
        match self.phase {
            Phase::Scanning { stream } => stream == 0,
            _ => false,
        }
    }

    /// Takes the answer to the pending action and moves on.
    pub fn step(self, event: Event<'_>) -> (after: (ScanLoop, Notes))
        ensures
            after.0@ == self@.next(event),
            after.1 == self@.notes(event),
            self@.valid(),
            after.0@.valid(),
    {
        proof {
            use_type_invariant(&self);
        }
        let ScanLoop { geometry, streams, position, phase, offset, draining, mut acc } = self;
        let chunk: usize = geometry.chunk_size();
        let mut notes = Notes { progress: None, mismatch: None };
        let mut phase_after = phase;
        let mut offset_after = offset;
        let mut draining_after = draining;
        match phase {
            Phase::Opening { stream } => match event {
                Event::Opened => {
                    if stream + 1 < streams {
                        phase_after = Phase::Opening { stream: stream + 1 };
                    } else if position.is_some() {
                        phase_after = Phase::Seeking { stream: 0 };
                    } else {
                        phase_after = Phase::Failed { failure: Failure::Seek { stream: 0 } };
                    }
                },
                Event::OpenFailed => {
                    phase_after = Phase::Failed { failure: Failure::Open { stream } };
                },
                _ => {},
            },
            Phase::Seeking { stream } => match event {
                Event::Sought => {
                    if stream + 1 < streams {
                        phase_after = Phase::Seeking { stream: stream + 1 };
                    } else {
                        phase_after = Phase::Scanning { stream: 0 };
                    }
                },
                Event::SeekFailed => {
                    phase_after = Phase::Failed { failure: Failure::Seek { stream } };
                },
                _ => {},
            },
            Phase::Scanning { stream } => match event {
                Event::ReadFailed => {
                    phase_after = Phase::Failed { failure: Failure::Read { stream, offset } };
                },
                Event::Read { data } => {
                    let last: bool = stream + 1 == streams;
                    let portion = classify(data.len(), chunk);
                    if data.len() > chunk {
                    } else if draining {
                        if portion != Portion::Nothing {
                            phase_after = Phase::Truncated { stream };
                        } else if last {
                            phase_after = Phase::Finished;
                        } else {
                            phase_after = Phase::Scanning { stream: stream + 1 };
                        }
                    } else if portion == Portion::Whole {
                        if !last {
                            fold_chunk(&mut acc, data);
                            phase_after = Phase::Scanning { stream: stream + 1 };
                        } else {
                            match offset.checked_add(chunk as u64) {
                                Some(onward) => {
                                    fold_chunk(&mut acc, data);
                                    if geometry.progress_due(offset) {
                                        notes.progress = Some(offset);
                                    }
                                    notes.mismatch = find_mismatch(acc.as_slice(), offset);
                                    clear(&mut acc);
                                    assert(onward as int % chunk as int == 0) by {
                                        lemma_next_chunk(offset as int, chunk as int);
                                    }
                                    offset_after = onward;
                                    phase_after = Phase::Scanning { stream: 0 };
                                },
                                None => {
                                    phase_after = Phase::Failed {
                                        failure: Failure::Read { stream, offset },
                                    };
                                },
                            }
                        }
                    } else if portion == Portion::Nothing && stream == 0 {
                        if last {
                            phase_after = Phase::Finished;
                        } else {
                            phase_after = Phase::Scanning { stream: 1 };
                            draining_after = true;
                        }
                    } else {
                        phase_after = Phase::Truncated { stream };
                    }
                },
                _ => {},
            },
            _ => {},
        }
        let scan = ScanLoop {
            geometry,
            streams,
            position,
            phase: phase_after,
            offset: offset_after,
            draining: draining_after,
            acc,
        };
        (scan, notes)
    }
}

/// Tells what portion of a chunk of `chunk` bytes a read of `len` bytes gave.
pub fn classify(len: usize, chunk: usize) -> (portion: Portion)
    ensures
        portion == portion_of(len as int, chunk as int),
{
    if len == chunk {
        Portion::Whole
    } else if len == 0 {
        Portion::Nothing
    } else {
        Portion::Part
    }
}

/// The stream that `phase` names, if it is final and names one.
pub fn stream_of(phase: Phase) -> (stream: Option<usize>)
    ensures
        stream == named_stream(phase),
{
    match phase {
        Phase::Truncated { stream } => Some(stream),
        Phase::Failed { failure: Failure::Open { stream } } => Some(stream),
        Phase::Failed { failure: Failure::Seek { stream } } => Some(stream),
        Phase::Failed { failure: Failure::Read { stream, .. } } => Some(stream),
        _ => None,
    }
}

/// The exit code of `phase`.
pub fn code_of(phase: Phase) -> (code: i32)
    ensures
        code == exit_code(phase),
{
    match phase {
        Phase::Failed { failure: Failure::Argument } => 1,
        Phase::Failed { failure: Failure::Open { .. } } => 2,
        Phase::Failed { failure: Failure::Seek { .. } } => 2,
        Phase::Failed { failure: Failure::Read { .. } } => 3,
        Phase::Truncated { .. } => 3,
        _ => 0,
    }
}

/// Every step leaves a valid state valid, and leaves the layout, the number
/// of streams and the resume position as they are.
pub proof fn lemma_step_keeps_valid(state: ScanState, event: Event)
    requires
        state.valid(),
    ensures
        state.next(event).valid(),
        state.next(event).layout == state.layout,
        state.next(event).streams == state.streams,
        state.next(event).position == state.position,
{
    if state.completed_by(event) {
        lemma_next_chunk(state.offset, state.layout.chunk);
    }
}

/// The offset advances in whole chunks only: a step adds one chunk to it
/// where it completes an iteration, and leaves it as it is where it does not.
pub proof fn lemma_offset_advances(state: ScanState, event: Event)
    requires
        state.valid(),
    ensures
        state.next(event).offset == if state.completed_by(event) {
            state.offset + state.layout.chunk
        } else {
            state.offset
        },
{
}

/// A scan that is over stays as it is and reports nothing more.
pub proof fn lemma_over_is_final(state: ScanState, event: Event)
    requires
        state.terminal(),
    ensures
        state.next(event) == state,
        state.notes(event) == (Notes { progress: None, mismatch: None }),
        state.pending() is Stop,
{
}

/// A scan without streams is over before it starts: it asks for no stream to
/// be opened and stops with the exit code of a missing argument.
pub proof fn lemma_no_streams(layout: Layout, sector: int)
    ensures
        ScanState::initial(layout, 0, sector).terminal(),
        ScanState::initial(layout, 0, sector).pending() == (Action::Stop { exit_code: 1 }),
{
}

/// Every stream is moved to the same position, and no chunk is read before
/// the last of them stands there.
pub proof fn lemma_common_start(state: ScanState, event: Event)
    requires
        state.valid(),
        state.phase is Seeking,
    ensures
        state.pending() matches Action::Seek { position, .. } && Some(position as int)
            == state.position,
        state.next(event).phase is Scanning ==> state.phase->Seeking_stream + 1 == state.streams,
{
}

/// An iteration begins with an accumulator of zero bytes.
pub proof fn lemma_fresh_accumulator(state: ScanState)
    requires
        state.valid(),
        state.phase == (Phase::Scanning { stream: 0 }),
    ensures
        state.acc == zeros(state.layout.chunk),
{
}

proof fn lemma_next_chunk(offset: int, chunk: int)
    requires
        chunk > 0,
        offset >= 0,
        offset % chunk == 0,
    ensures
        (offset + chunk) % chunk == 0,
{
    vstd::arithmetic::div_mod::lemma_mod_adds(offset, chunk, chunk);
}

} // verus!
