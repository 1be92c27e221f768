use xorfile::cli::{
    command_from_args, interpret, parse_sector, resume_sector, syntax_error_lines, usage_lines,
    Command, Given,
};

fn args(list: &[&str]) -> Vec<String> {
    list.iter().map(|s| s.to_string()).collect()
}

#[test]
fn parse_sector_reads_decimal_digits() {
    assert_eq!(parse_sector("0"), Some(0));
    assert_eq!(parse_sector("512"), Some(512));
    assert_eq!(parse_sector("0042"), Some(42));
    assert_eq!(parse_sector("18446744073709551615"), Some(u64::MAX));
}

#[test]
fn parse_sector_refuses_what_is_no_number() {
    assert_eq!(parse_sector(""), None);
    assert_eq!(parse_sector("12a"), None);
    assert_eq!(parse_sector("-1"), None);
    assert_eq!(parse_sector("+1"), None);
    assert_eq!(parse_sector(" 1"), None);
    assert_eq!(parse_sector("1.5"), None);
    assert_eq!(parse_sector("٣"), None);
    assert_eq!(parse_sector("1é"), None);
}

#[test]
fn parse_sector_refuses_what_does_not_fit() {
    assert_eq!(parse_sector("18446744073709551616"), None);
    assert_eq!(parse_sector("99999999999999999999999"), None);
    assert_eq!(parse_sector("184467440737095516150"), None);
}

#[test]
fn resume_sector_defaults_to_zero() {
    assert_eq!(resume_sector(&None), 0);
    assert_eq!(resume_sector(&Some("junk".to_string())), 0);
    assert_eq!(resume_sector(&Some("77".to_string())), 77);
}

#[test]
fn interpret_puts_help_first() {
    let given = Given { help: true, resume: Some("5".to_string()), names: args(&["a"]) };
    assert_eq!(interpret(Ok(given)), Command::Help);
}

#[test]
fn interpret_hands_on_the_reason_of_a_malformed_line() {
    assert_eq!(
        interpret(Err("Unrecognized option: 'x'".to_string())),
        Command::Invalid { reason: "Unrecognized option: 'x'".to_string() }
    );
}

#[test]
fn interpret_makes_a_scan_of_names_and_sector() {
    let given = Given { help: false, resume: Some("20480".to_string()), names: args(&["a", "b"]) };
    assert_eq!(interpret(Ok(given)), Command::Scan { names: args(&["a", "b"]), sector: 20480 });
    let plain = Given { help: false, resume: None, names: Vec::new() };
    assert_eq!(interpret(Ok(plain)), Command::Scan { names: Vec::new(), sector: 0 });
}

#[test]
fn command_line_with_names_and_resume() {
    let line = args(&["-n", "file1.bin", "-n", "file2.bin", "-n", "file3.bin", "-r", "512"]);
    assert_eq!(
        command_from_args(&line),
        Command::Scan { names: args(&["file1.bin", "file2.bin", "file3.bin"]), sector: 512 }
    );
}

#[test]
fn command_line_with_long_options() {
    let line = args(&["--name", "a", "--resume=9", "--name=b"]);
    assert_eq!(command_from_args(&line), Command::Scan { names: args(&["a", "b"]), sector: 9 });
}

#[test]
fn command_line_without_arguments_is_a_scan_of_nothing() {
    assert_eq!(command_from_args(&Vec::new()), Command::Scan { names: Vec::new(), sector: 0 });
}

#[test]
fn command_line_with_help() {
    assert_eq!(command_from_args(&args(&["-h"])), Command::Help);
    assert_eq!(command_from_args(&args(&["-n", "a", "--help"])), Command::Help);
}

#[test]
fn command_line_with_a_resume_that_is_no_number() {
    assert_eq!(
        command_from_args(&args(&["-n", "a", "-r", "soon"])),
        Command::Scan { names: args(&["a"]), sector: 0 }
    );
}

#[test]
fn malformed_command_lines() {
    assert_eq!(
        command_from_args(&args(&["-x"])),
        Command::Invalid { reason: "Unrecognized option: 'x'".to_string() }
    );
    assert_eq!(
        command_from_args(&args(&["-n"])),
        Command::Invalid { reason: "Argument to option 'n' missing".to_string() }
    );
    assert_eq!(
        command_from_args(&args(&["-r", "1", "-r", "2"])),
        Command::Invalid { reason: "Option 'resume' given more than once".to_string() }
    );
}

#[test]
fn usage_names_the_program() {
    let lines = usage_lines("xorfile");
    assert_eq!(lines.len(), 15);
    assert_eq!(lines[0], "Syntax:");
    assert_eq!(lines[1], "");
    assert_eq!(lines[2], "    xorfile <options...>");
    assert_eq!(lines[4], "Options:");
    assert_eq!(lines[6], "    -h        this screen");
    assert_eq!(lines[7], "    -r SECTOR resume from sector SECTOR");
    assert_eq!(lines[8], "    -n NAME   filename to read. can occur multiple times.");
    assert_eq!(lines[10], "Example:");
    assert_eq!(lines[12], "    xorfile -n file1.bin -n file2.bin -n file3.bin -r 512");
    assert_eq!(
        lines[14],
        "    This will check if PD of selected files is the same. Start from sector 512."
    );
}

#[test]
fn syntax_error_lines_tell_the_reason_before_the_usage() {
    let lines = syntax_error_lines("prog", "Unrecognized option: 'x'");
    assert_eq!(lines.len(), 17);
    assert_eq!(lines[0], "Syntax error in arguments.");
    assert_eq!(lines[1], "Unrecognized option: 'x'");
    assert_eq!(lines[2..].to_vec(), usage_lines("prog"));
}
