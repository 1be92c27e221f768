//! The lines that a scan prints.
//!
//! Every line is built here, character by character, so that what a program
//! prints is what the contracts below say.

use vstd::prelude::*;
use vstd::string::StringExecFns;
use crate::geometry::MEGABYTE;
use crate::scan_loop::{named_stream, stream_of, Failure, Notes, Phase, ScanLoop, ScanState};

verus! {

/// The character that stands for the digit `d` in bases up to 16.
pub open spec fn digit_char(d: int) -> char {
    seq!['0', '1', '2', '3', '4', '5', '6', '7', '8', '9', 'a', 'b', 'c', 'd', 'e', 'f'][d]
}

/// `n` in decimal digits, without leading zeros.
pub open spec fn decimal(n: nat) -> Seq<char>
    decreases n,
{
    if n < 10 {
        seq![digit_char(n as int)]
    } else {
        decimal(n / 10).push(digit_char((n % 10) as int))
    }
}

/// The last `width` hexadecimal digits of `n`, in lower case, with leading zeros.
pub open spec fn hex(n: nat, width: nat) -> Seq<char>
    decreases width,
{
    if width == 0 {
        Seq::empty()
    } else {
        hex(n / 16, (width - 1) as nat).push(digit_char((n % 16) as int))
    }
}

/// The line that tells from which sector the scan resumes.
pub open spec fn resuming_text(sector: u64) -> Seq<char> {
    "Resuming from sector "@ + decimal(sector as nat) + "."@
}

/// The line that tells how many streams are opened.
pub open spec fn opening_text(streams: usize) -> Seq<char> {
    "Opening "@ + decimal(streams as nat) + " streams."@
}

/// The progress line for the chunk at `offset`.
pub open spec fn progress_text(offset: u64) -> Seq<char> {
    "... offset "@ + hex(offset as nat, 16) + " ("@ + decimal((offset / MEGABYTE) as nat)
        + " mb) ..."@
}

/// The line that reports a mismatch at `offset`.
pub open spec fn mismatch_text(offset: u64) -> Seq<char> {
    "bad pd "@ + hex(offset as nat, 16)
}

/// The lines with which a scan of `streams` streams from `sector` begins: the
/// resume line, and the opening line where there is a stream to open.
pub open spec fn start_texts(sector: u64, streams: usize) -> Seq<Seq<char>> {
    if streams == 0 {
        seq![resuming_text(sector)]
    } else {
        seq![resuming_text(sector), opening_text(streams)]
    }
}

/// The lines that the notes of one step call for: the progress line before
/// the mismatch line.
pub open spec fn note_texts(notes: Notes) -> Seq<Seq<char>> {
    let progress = match notes.progress {
        Some(offset) => seq![progress_text(offset)],
        None => Seq::empty(),
    };
    match notes.mismatch {
        Some(offset) => progress.push(mismatch_text(offset)),
        None => progress,
    }
}

/// The line that closes a scan in `phase` at `offset`, where one is due: a
/// scan that is not over, and one that is `Finished`, has none. `name` is the
/// identifier of the stream that the phase names and `reason` what the
/// system said of the failure.
pub open spec fn closing_text(phase: Phase, offset: u64, name: Seq<char>, reason: Seq<char>) -> Option<
    Seq<char>,
> {
    match phase {
        Phase::Failed { failure: Failure::Argument } => Some("Use --help for help."@),
        Phase::Failed { failure: Failure::Open { .. } } => Some(
            "Can't open file: "@ + name + ". Reason: "@ + reason,
        ),
        Phase::Failed { failure: Failure::Seek { .. } } => Some(
            "I/O error during resuming: "@ + name + ". Reason: "@ + reason,
        ),
        Phase::Failed { failure: Failure::Read { offset: at, .. } } => Some(
            "I/O error when reading: "@ + name + " at offset "@ + hex(at as nat, 16) + ". Reason: "@
                + reason,
        ),
        Phase::Truncated { .. } => Some(
            "I/O error? End of file: "@ + name + " at offset "@ + hex(offset as nat, 16),
        ),
        _ => None,
    }
}

/// The line that closes the scan in `state`, where one is due. `names` are
/// the identifiers of its streams and `reason` is what the system said of the
/// failure. A resume position that does not fit in 64 bits is its own reason.
pub open spec fn final_text(state: ScanState, names: Seq<Seq<char>>, reason: Seq<char>) -> Option<
    Seq<char>,
> {
    closing_text(
        state.phase,
        state.offset as u64,
        match named_stream(state.phase) {
            Some(stream) => names[stream as int],
            None => Seq::empty(),
        },
        if state.phase is Failed && state.phase->failure is Seek && state.position is None {
            "the resume position is out of range"@
        } else {
            reason
        },
    )
}

/// The views of a list of lines.
pub open spec fn texts(lines: Seq<String>) -> Seq<Seq<char>> {
    Seq::new(lines.len(), |i: int| lines[i]@)
}

/// One digit as text.
fn digit_text(d: u8) -> (text: &'static str)
    requires
        d < 16,
    ensures
        text@ == seq![digit_char(d as int)],
{
    proof {
        reveal_strlit("0");
        reveal_strlit("1");
        reveal_strlit("2");
        reveal_strlit("3");
        reveal_strlit("4");
        reveal_strlit("5");
        reveal_strlit("6");
        reveal_strlit("7");
        reveal_strlit("8");
        reveal_strlit("9");
        reveal_strlit("a");
        reveal_strlit("b");
        reveal_strlit("c");
        reveal_strlit("d");
        reveal_strlit("e");
        reveal_strlit("f");
    }
    let text = match d {
        0 => "0",
        1 => "1",
        2 => "2",
        3 => "3",
        4 => "4",
        5 => "5",
        6 => "6",
        7 => "7",
        8 => "8",
        9 => "9",
        10 => "a",
        11 => "b",
        12 => "c",
        13 => "d",
        14 => "e",
        _ => "f",
    };
    assert(text@ =~= seq![digit_char(d as int)]);
    text
}

/// Appends `n` in decimal digits.
pub fn push_decimal(out: &mut String, n: u64)
    ensures
        final(out)@ == old(out)@ + decimal(n as nat),
    decreases n,
{
    if n >= 10 {
        push_decimal(out, n / 10);
    }
    out.append(digit_text((n % 10) as u8));
    assert(out@ =~= old(out)@ + decimal(n as nat));
}

/// Appends the last `width` hexadecimal digits of `n`.
pub fn push_hex(out: &mut String, n: u64, width: usize)
    ensures
        final(out)@ == old(out)@ + hex(n as nat, width as nat),
    decreases width,
{
    if width > 0 {
        push_hex(out, n / 16, width - 1);
        out.append(digit_text((n % 16) as u8));
    }
    assert(out@ =~= old(out)@ + hex(n as nat, width as nat));
}

/// The line `"Resuming from sector {sector}."`.
pub fn resuming_line(sector: u64) -> (line: String)
    ensures
        line@ == resuming_text(sector),
{
    let mut line = String::from_str("Resuming from sector ");
    push_decimal(&mut line, sector);
    line.append(".");
    line
}

/// The line `"Opening {streams} streams."`.
pub fn opening_line(streams: usize) -> (line: String)
    ensures
        line@ == opening_text(streams),
{
    let mut line = String::from_str("Opening ");
    push_decimal(&mut line, streams as u64);
    line.append(" streams.");
    line
}

/// The line `"... offset {offset:016x} ({mb} mb) ..."`.
pub fn progress_line(offset: u64) -> (line: String)
    ensures
        line@ == progress_text(offset),
{
    let mut line = String::from_str("... offset ");
    push_hex(&mut line, offset, 16);
    line.append(" (");
    push_decimal(&mut line, offset / MEGABYTE);
    line.append(" mb) ...");
    line
}

/// The line `"bad pd {offset:016x}"`.
pub fn mismatch_line(offset: u64) -> (line: String)
    ensures
        line@ == mismatch_text(offset),
{
    let mut line = String::from_str("bad pd ");
    push_hex(&mut line, offset, 16);
    line
}

/// The lines to print before the first stream is opened.
pub fn start_lines(sector: u64, streams: usize) -> (lines: Vec<String>)
    ensures
        texts(lines@) == start_texts(sector, streams),
{
    let mut lines: Vec<String> = Vec::new();
    lines.push(resuming_line(sector));
    if streams != 0 {
        lines.push(opening_line(streams));
    }
    assert(texts(lines@) =~= start_texts(sector, streams));
    lines
}

/// The lines to print after a step, in the order in which they are due.
pub fn note_lines(notes: &Notes) -> (lines: Vec<String>)
    ensures
        texts(lines@) == note_texts(*notes),
{
    let mut lines: Vec<String> = Vec::new();
    if let Some(offset) = notes.progress {
        lines.push(progress_line(offset));
    }
    if let Some(offset) = notes.mismatch {
        lines.push(mismatch_line(offset));
    }
    assert(texts(lines@) =~= note_texts(*notes));
    lines
}

/// The line to print when the scan has ended in `phase` at `offset`, if one
/// is due.
pub fn closing_line(phase: Phase, offset: u64, name: &str, reason: &str) -> (line: Option<String>)
    ensures
        match line {
            Some(text) => closing_text(phase, offset, name@, reason@) == Some(text@),
            None => closing_text(phase, offset, name@, reason@) is None,
        },
{
    match phase {
        Phase::Failed { failure: Failure::Argument } => Some(
            String::from_str("Use --help for help."),
        ),
        Phase::Failed { failure: Failure::Open { .. } } => {
            let mut line = String::from_str("Can't open file: ");
            line.append(name);
            line.append(". Reason: ");
            line.append(reason);
            Some(line)
        },
        Phase::Failed { failure: Failure::Seek { .. } } => {
            let mut line = String::from_str("I/O error during resuming: ");
            line.append(name);
            line.append(". Reason: ");
            line.append(reason);
            Some(line)
        },
        Phase::Failed { failure: Failure::Read { offset: at, .. } } => {
            let mut line = String::from_str("I/O error when reading: ");
            line.append(name);
            line.append(" at offset ");
            push_hex(&mut line, at, 16);
            line.append(". Reason: ");
            line.append(reason);
            Some(line)
        },
        Phase::Truncated { .. } => {
            let mut line = String::from_str("I/O error? End of file: ");
            line.append(name);
            line.append(" at offset ");
            push_hex(&mut line, offset, 16);
            Some(line)
        },
        _ => None,
    }
}

/// The line to print when `scan` is over, if one is due.
pub fn final_line(scan: &ScanLoop, names: &Vec<String>, reason: &str) -> (line: Option<String>)
    requires
        names@.len() == scan@.streams,
    ensures
        match line {
            Some(text) => final_text(scan@, texts(names@), reason@) == Some(text@),
            None => final_text(scan@, texts(names@), reason@) is None,
        },
{
    let phase = scan.phase();
    let out_of_range: bool = match phase {
        Phase::Failed { failure: Failure::Seek { .. } } => scan.position().is_none(),
        _ => false,
    };
    let told: &str = if out_of_range {
        "the resume position is out of range"
    } else {
        reason
    };
    match stream_of(phase) {
        Some(stream) => closing_line(phase, scan.offset(), names[stream].as_str(), told),
        None => {
            let line = closing_line(phase, scan.offset(), "", told);
            proof {
                reveal_strlit("");
                assert(""@ =~= Seq::<char>::empty());
            }
            line
        },
    }
}

} // verus!
