//! The command line: which options it holds and what they ask for.
//!
//! The options are found by `getopts`. What is done with them is decided
//! here, on plain values.

use vstd::prelude::*;
use vstd::string::{is_ascii, is_ascii_spec_bytes, StringExecFns};
use vstd::utf8::is_ascii_chars;
use crate::report::texts;

verus! {

/// The options that a command line holds.
#[derive(Debug, PartialEq, Eq)]
pub struct Given {
    /// The help flag was given.
    pub help: bool,
    /// The argument of the resume option, where it was given.
    pub resume: Option<String>,
    /// The arguments of the name option, in the order in which they came.
    pub names: Vec<String>,
}

/// What a command line asks for.
#[derive(Debug, PartialEq, Eq)]
pub enum Command {
    /// To show how the program is used.
    Help,
    /// Nothing that can be done: the line is malformed, for this reason.
    Invalid { reason: String },
    /// To scan the streams with these names from this sector on.
    Scan { names: Vec<String>, sector: u64 },
}

/// A command as mathematical values.
pub enum Request {
    Help,
    Invalid { reason: Seq<char> },
    Scan { names: Seq<Seq<char>>, sector: u64 },
}

impl View for Command {
    type V = Request;

    open spec fn view(&self) -> Request {
        match *self {
            Command::Help => Request::Help,
            Command::Invalid { reason } => Request::Invalid { reason: reason@ },
            Command::Scan { names, sector } => Request::Scan { names: texts(names@), sector },
        }
    }
}

/// The text is a non-empty run of decimal digits.
pub open spec fn is_digits(text: Seq<char>) -> bool {
    &&& text.len() > 0
    &&& forall|i: int| 0 <= i < text.len() ==> '0' <= #[trigger] text[i] <= '9'
}

/// The number that a run of decimal digits stands for.
pub open spec fn digits_value(text: Seq<char>) -> nat
    decreases text.len(),
{
    if text.len() == 0 {
        0
    } else {
        digits_value(text.drop_last()) * 10 + (text.last() as int - '0' as int) as nat
    }
}

/// The sector that `text` names: its value where it is a run of decimal
/// digits that fits in 64 bits, and none else.
pub open spec fn sector_of(text: Seq<char>) -> Option<u64> {
    if is_digits(text) && digits_value(text) <= u64::MAX {
        Some(digits_value(text) as u64)
    } else {
        None
    }
}

/// The sector from which to resume: 0 where the option is absent or names no
/// sector.
pub open spec fn resume_sector_of(resume: Option<Seq<char>>) -> u64 {
    match resume {
        Some(text) => match sector_of(text) {
            Some(sector) => sector,
            None => 0,
        },
        None => 0,
    }
}

/// What the options found on a command line ask for: a malformed line asks
/// for nothing, the help flag goes before everything else, and the rest is a
/// scan.
pub open spec fn request_of(
    found: Result<(bool, Option<Seq<char>>, Seq<Seq<char>>), Seq<char>>,
) -> Request {
    match found {
        Err(reason) => Request::Invalid { reason },
        Ok((help, resume, names)) => if help {
            Request::Help
        } else {
            Request::Scan { names, sector: resume_sector_of(resume) }
        },
    }
}

/// The found options as mathematical values.
pub open spec fn found_view(found: Result<Given, String>) -> Result<
    (bool, Option<Seq<char>>, Seq<Seq<char>>),
    Seq<char>,
> {
    match found {
        Ok(given) => Ok(
            (
                given.help,
                match given.resume {
                    Some(text) => Some(text@),
                    None => None,
                },
                texts(given.names@),
            ),
        ),
        Err(reason) => Err(reason@),
    }
}

/// What `getopts` finds on the command line `args` when it is told of three
/// options, each by its short and its long name: `many`, which takes an
/// argument and may come any number of times, `single`, which takes an
/// argument and may come once, and `flag`, which takes none. It finds whether
/// the flag was given, the argument of `single` and the arguments of `many`
/// in their order, or says why the line is malformed.
pub uninterp spec fn getopts_found(
    many: Seq<char>,
    many_long: Seq<char>,
    single: Seq<char>,
    single_long: Seq<char>,
    flag: Seq<char>,
    flag_long: Seq<char>,
    args: Seq<Seq<char>>,
) -> Result<(bool, Option<Seq<char>>, Seq<Seq<char>>), Seq<char>>;

/// Names by which `getopts` accepts an option: one ASCII character as the
/// short name, and the long name empty or of at least two ASCII characters.
pub open spec fn names_an_option(short_name: Seq<char>, long_name: Seq<char>) -> bool {
    &&& short_name.len() == 1
    &&& long_name.len() != 1
    &&& is_ascii_chars(short_name)
    &&& is_ascii_chars(long_name)
}

/// Declares the three options to `getopts::Options` (`optmulti`, `optopt`,
/// `optflag`), has it `parse` the arguments, and reads the `Matches` by the
/// short names (`opt_present`, `opt_str`, `opt_strs`); a `Fail` is handed on
/// as its text. The contract claims only that the outcome is a function of
/// the names and the arguments; which function, `getopts` decides.
#[verifier::external_body]
fn find_options(
    many: &str,
    many_long: &str,
    single: &str,
    single_long: &str,
    flag: &str,
    flag_long: &str,
    args: &Vec<String>,
) -> (found: Result<Given, String>)
    requires
        names_an_option(many@, many_long@),
        names_an_option(single@, single_long@),
        names_an_option(flag@, flag_long@),
    ensures
        found_view(found) == getopts_found(
            many@,
            many_long@,
            single@,
            single_long@,
            flag@,
            flag_long@,
            texts(args@),
        ),
{
    let mut options = getopts::Options::new();
    options.optmulti(many, many_long, "", "");
    options.optopt(single, single_long, "", "");
    options.optflag(flag, flag_long, "");
    match options.parse(args) {
        Ok(matches) => Ok(
            Given {
                help: matches.opt_present(flag),
                resume: matches.opt_str(single),
                names: matches.opt_strs(many),
            },
        ),
        Err(fail) => Err(fail.to_string()),
    }
}

/// What `getopts` finds on `args` for the options of this program: `-n` or
/// `--name` for a stream, `-r` or `--resume` for the sector, `-h` or `--help`.
pub open spec fn found_on(args: Seq<Seq<char>>) -> Result<
    (bool, Option<Seq<char>>, Seq<Seq<char>>),
    Seq<char>,
> {
    getopts_found("n"@, "name"@, "r"@, "resume"@, "h"@, "help"@, args)
}

/// A longer run of digits stands for no smaller number than its beginning.
proof fn lemma_prefix_value(text: Seq<char>, len: int)
    requires
        0 <= len <= text.len(),
        is_digits(text),
    ensures
        digits_value(text.take(len)) <= digits_value(text),
    decreases text.len() - len,
{
    if len < text.len() {
        let longer = text.take(len + 1);
        assert(longer.drop_last() =~= text.take(len));
        assert(longer.last() == text[len]);
        lemma_prefix_value(text, len + 1);
    } else {
        assert(text.take(len) =~= text);
    }
}

/// Reads a sector number written in decimal digits.
pub fn parse_sector(text: &str) -> (sector: Option<u64>)
    ensures
        sector == sector_of(text@),
{
    if !text.is_ascii() {
        return None;
    }
    proof {
        is_ascii_spec_bytes(text);
    }
    let bytes = text.as_bytes();
    let len: usize = bytes.len();
    if len == 0 {
        return None;
    }
    let mut value: u64 = 0;
    let mut i: usize = 0;
    while i < len
        invariant
            i <= len,
            len == text@.len(),
            bytes@ == Seq::new(text@.len(), |k: int| text@[k] as u8),
            is_ascii(text),
            forall|k: int| 0 <= k < i ==> '0' <= #[trigger] text@[k] <= '9',
            value == digits_value(text@.take(i as int)),
        decreases len - i,
    {
        let byte: u8 = bytes[i];
        assert(byte == text@[i as int] as u8);
        if byte < 48 || byte > 57 {
            assert(!('0' <= text@[i as int] <= '9'));
            return None;
        }
        assert('0' <= text@[i as int] <= '9');
        let ghost longer = text@.take(i + 1);
        proof {
            assert(longer.drop_last() =~= text@.take(i as int));
            assert(longer.last() == text@[i as int]);
        }
        let grown = match value.checked_mul(10) {
            Some(tenfold) => tenfold.checked_add((byte - 48) as u64),
            None => None,
        };
        match grown {
            Some(next) => {
                value = next;
            },
            None => {
                proof {
                    if is_digits(text@) {
                        lemma_prefix_value(text@, i + 1);
                    }
                }
                return None;
            },
        }
        i += 1;
    }
    assert(text@.take(len as int) =~= text@);
    Some(value)
}

/// The sector from which to resume, given the argument of the resume option.
pub fn resume_sector(resume: &Option<String>) -> (sector: u64)
    ensures
        sector == resume_sector_of(
            match *resume {
                Some(text) => Some(text@),
                None => None,
            },
        ),
{
    match resume {
        Some(text) => match parse_sector(text.as_str()) {
            Some(sector) => sector,
            None => 0,
        },
        None => 0,
    }
}

/// Decides what the options found on a command line ask for.
pub fn interpret(found: Result<Given, String>) -> (command: Command)
    ensures
        command@ == request_of(found_view(found)),
{
    match found {
        Err(reason) => Command::Invalid { reason },
        Ok(given) => {
            if given.help {
                Command::Help
            } else {
                let sector = resume_sector(&given.resume);
                Command::Scan { names: given.names, sector }
            }
        },
    }
}

/// Decides what the arguments of the program, without its own name, ask for.
pub fn command_from_args(args: &Vec<String>) -> (command: Command)
    ensures
        command@ == request_of(found_on(texts(args@))),
{
    proof {
        reveal_strlit("n");
        reveal_strlit("name");
        reveal_strlit("r");
        reveal_strlit("resume");
        reveal_strlit("h");
        reveal_strlit("help");
    }
    interpret(find_options("n", "name", "r", "resume", "h", "help", args))
}

/// The lines that show how `program` is used.
pub open spec fn usage_texts(program: Seq<char>) -> Seq<Seq<char>> {
    seq![
        "Syntax:"@,
        ""@,
        "    "@ + program + " <options...>"@,
        ""@,
        "Options:"@,
        ""@,
        "    -h        this screen"@,
        "    -r SECTOR resume from sector SECTOR"@,
        "    -n NAME   filename to read. can occur multiple times."@,
        ""@,
        "Example:"@,
        ""@,
        "    "@ + program + " -n file1.bin -n file2.bin -n file3.bin -r 512"@,
        ""@,
        "    This will check if PD of selected files is the same. Start from sector 512."@,
    ]
}

/// The lines that tell of a malformed command line: that there is an error,
/// what it is, and how `program` is used.
pub open spec fn syntax_error_texts(program: Seq<char>, reason: Seq<char>) -> Seq<Seq<char>> {
    seq!["Syntax error in arguments."@, reason] + usage_texts(program)
}

/// The lines to print for the help flag.
pub fn usage_lines(program: &str) -> (lines: Vec<String>)
    ensures
        texts(lines@) == usage_texts(program@),
{
    let mut lines: Vec<String> = Vec::new();
    lines.push(String::from_str("Syntax:"));
    lines.push(String::from_str(""));
    let mut call = String::from_str("    ");
    call.append(program);
    call.append(" <options...>");
    lines.push(call);
    lines.push(String::from_str(""));
    lines.push(String::from_str("Options:"));
    lines.push(String::from_str(""));
    lines.push(String::from_str("    -h        this screen"));
    lines.push(String::from_str("    -r SECTOR resume from sector SECTOR"));
    lines.push(String::from_str("    -n NAME   filename to read. can occur multiple times."));
    lines.push(String::from_str(""));
    lines.push(String::from_str("Example:"));
    lines.push(String::from_str(""));
    let mut example = String::from_str("    ");
    example.append(program);
    example.append(" -n file1.bin -n file2.bin -n file3.bin -r 512");
    lines.push(example);
    lines.push(String::from_str(""));
    lines.push(
        String::from_str(
            "    This will check if PD of selected files is the same. Start from sector 512.",
        ),
    );
    assert(texts(lines@) =~= usage_texts(program@));
    lines
}

/// The lines to print for a malformed command line.
pub fn syntax_error_lines(program: &str, reason: &str) -> (lines: Vec<String>)
    ensures
        texts(lines@) == syntax_error_texts(program@, reason@),
{
    let mut lines: Vec<String> = Vec::new();
    lines.push(String::from_str("Syntax error in arguments."));
    lines.push(String::from_str(reason));
    let mut usage = usage_lines(program);
    let ghost head = lines@;
    let ghost tail = usage@;
    lines.append(&mut usage);
    assert(lines@ == head + tail);
    assert(texts(lines@) =~= syntax_error_texts(program@, reason@));
    lines
}

} // verus!
