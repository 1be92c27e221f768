use xorfile::geometry::Geometry;
use xorfile::report::{
    closing_line, final_line, mismatch_line, note_lines, opening_line, progress_line, push_decimal,
    push_hex, resuming_line, start_lines,
};
use xorfile::scan_loop::{Event, Failure, Notes, Phase, ScanLoop};

#[test]
fn decimal_digits() {
    let mut out = String::from("n=");
    push_decimal(&mut out, 0);
    push_decimal(&mut out, 7);
    push_decimal(&mut out, 1090);
    assert_eq!(out, "n=071090");
    let mut max = String::new();
    push_decimal(&mut max, u64::MAX);
    assert_eq!(max, format!("{}", u64::MAX));
}

#[test]
fn hexadecimal_digits_with_leading_zeros() {
    let mut out = String::new();
    push_hex(&mut out, 0xabc, 6);
    assert_eq!(out, "000abc");
    let mut cut = String::new();
    push_hex(&mut cut, 0x12345, 2);
    assert_eq!(cut, "45");
    let mut none = String::from("x");
    push_hex(&mut none, 99, 0);
    assert_eq!(none, "x");
    let mut max = String::new();
    push_hex(&mut max, u64::MAX, 16);
    assert_eq!(max, "ffffffffffffffff");
}

#[test]
fn resuming_line_names_the_sector() {
    assert_eq!(resuming_line(0), "Resuming from sector 0.");
    assert_eq!(resuming_line(512), "Resuming from sector 512.");
    assert_eq!(resuming_line(u64::MAX), format!("Resuming from sector {}.", u64::MAX));
}

#[test]
fn opening_line_counts_the_streams() {
    assert_eq!(opening_line(3), "Opening 3 streams.");
    assert_eq!(opening_line(12), "Opening 12 streams.");
}

#[test]
fn progress_line_shows_hex_offset_and_megabytes() {
    assert_eq!(progress_line(0), "... offset 0000000000000000 (0 mb) ...");
    assert_eq!(progress_line(104_857_600), "... offset 0000000006400000 (100 mb) ...");
    assert_eq!(progress_line(209_715_200), "... offset 000000000c800000 (200 mb) ...");
    for offset in [1u64, 1_048_575, 1_048_576, 0xdead_beef_0000, u64::MAX] {
        assert_eq!(
            progress_line(offset),
            format!("... offset {:016x} ({} mb) ...", offset, offset / 1024 / 1024)
        );
    }
}

#[test]
fn mismatch_line_shows_hex_offset() {
    assert_eq!(mismatch_line(15_728_640), "bad pd 0000000000f00000");
    assert_eq!(mismatch_line(0), "bad pd 0000000000000000");
    assert_eq!(mismatch_line(u64::MAX), format!("bad pd {:016x}", u64::MAX));
}

#[test]
fn note_lines_put_progress_before_mismatch() {
    let both = Notes { progress: Some(0), mismatch: Some(5) };
    assert_eq!(
        note_lines(&both),
        vec![
            "... offset 0000000000000000 (0 mb) ...".to_string(),
            "bad pd 0000000000000005".to_string()
        ]
    );
    let neither = Notes { progress: None, mismatch: None };
    assert!(note_lines(&neither).is_empty());
    let only_mismatch = Notes { progress: None, mismatch: Some(0x1000) };
    assert_eq!(note_lines(&only_mismatch), vec!["bad pd 0000000000001000".to_string()]);
    let only_progress = Notes { progress: Some(104_857_600), mismatch: None };
    assert_eq!(
        note_lines(&only_progress),
        vec!["... offset 0000000006400000 (100 mb) ...".to_string()]
    );
}

#[test]
fn closing_line_for_each_final_phase() {
    let argument = Phase::Failed { failure: Failure::Argument };
    assert_eq!(closing_line(argument, 0, "", ""), Some("Use --help for help.".to_string()));
    let open = Phase::Failed { failure: Failure::Open { stream: 1 } };
    assert_eq!(
        closing_line(open, 0, "b.bin", "No such file or directory"),
        Some("Can't open file: b.bin. Reason: No such file or directory".to_string())
    );
    let seek = Phase::Failed { failure: Failure::Seek { stream: 0 } };
    assert_eq!(
        closing_line(seek, 0, "a.bin", "Illegal seek"),
        Some("I/O error during resuming: a.bin. Reason: Illegal seek".to_string())
    );
    let read = Phase::Failed { failure: Failure::Read { stream: 2, offset: 0xa00000 } };
    assert_eq!(
        closing_line(read, 0xa00000, "c.bin", "Input/output error"),
        Some(
            "I/O error when reading: c.bin at offset 0000000000a00000. Reason: Input/output error"
                .to_string()
        )
    );
    let truncated = Phase::Truncated { stream: 1 };
    assert_eq!(
        closing_line(truncated, 0x1400000, "b.bin", ""),
        Some("I/O error? End of file: b.bin at offset 0000000001400000".to_string())
    );
}

#[test]
fn no_closing_line_for_a_clean_end_or_a_running_scan() {
    assert_eq!(closing_line(Phase::Finished, 0, "a", "r"), None);
    assert_eq!(closing_line(Phase::Opening { stream: 0 }, 0, "a", "r"), None);
    assert_eq!(closing_line(Phase::Seeking { stream: 0 }, 0, "a", "r"), None);
    assert_eq!(closing_line(Phase::Scanning { stream: 0 }, 0, "a", "r"), None);
}

#[test]
fn final_line_names_the_failing_stream() {
    let names = vec!["a.bin".to_string(), "b.bin".to_string()];
    let geometry = Geometry::new(512, 4, 8).unwrap();
    let scan = ScanLoop::start(geometry, 2, 0);
    let (scan, _) = scan.step(Event::Opened);
    let (scan, _) = scan.step(Event::OpenFailed);
    assert_eq!(
        final_line(&scan, &names, "Permission denied"),
        Some("Can't open file: b.bin. Reason: Permission denied".to_string())
    );
}

#[test]
fn final_line_of_a_truncated_scan_gives_the_offset() {
    let names = vec!["a.bin".to_string(), "b.bin".to_string()];
    let geometry = Geometry::new(512, 4, 8).unwrap();
    let mut scan = ScanLoop::start(geometry, 2, 0);
    for event in [Event::Opened, Event::Opened, Event::Sought, Event::Sought] {
        scan = scan.step(event).0;
    }
    scan = scan.step(Event::Read { data: &[1, 2, 3, 4] }).0;
    scan = scan.step(Event::Read { data: &[1, 2, 3, 4] }).0;
    scan = scan.step(Event::Read { data: &[1, 2, 3, 4] }).0;
    scan = scan.step(Event::Read { data: &[1, 2] }).0;
    assert_eq!(scan.phase(), Phase::Truncated { stream: 1 });
    assert_eq!(
        final_line(&scan, &names, ""),
        Some("I/O error? End of file: b.bin at offset 0000000000000004".to_string())
    );
}

#[test]
fn final_line_gives_its_own_reason_for_a_resume_position_out_of_range() {
    let names = vec!["a.bin".to_string()];
    let scan = ScanLoop::start(Geometry::standard(), 1, u64::MAX);
    let (scan, _) = scan.step(Event::Opened);
    assert_eq!(scan.phase(), Phase::Failed { failure: Failure::Seek { stream: 0 } });
    assert_eq!(
        final_line(&scan, &names, "unused"),
        Some(
            "I/O error during resuming: a.bin. Reason: the resume position is out of range"
                .to_string()
        )
    );
}

#[test]
fn final_line_without_streams_is_the_usage_hint() {
    let scan = ScanLoop::start(Geometry::standard(), 0, 0);
    assert_eq!(final_line(&scan, &Vec::new(), ""), Some("Use --help for help.".to_string()));
}

#[test]
fn final_line_of_a_finished_scan_is_none() {
    let geometry = Geometry::new(512, 4, 8).unwrap();
    let mut scan = ScanLoop::start(geometry, 1, 0);
    scan = scan.step(Event::Opened).0;
    scan = scan.step(Event::Sought).0;
    scan = scan.step(Event::Read { data: &[] }).0;
    assert_eq!(scan.phase(), Phase::Finished);
    assert_eq!(final_line(&scan, &vec!["a".to_string()], ""), None);
}

#[test]
fn a_scan_begins_with_the_resume_line_and_the_opening_line() {
    assert_eq!(
        start_lines(512, 3),
        vec!["Resuming from sector 512.".to_string(), "Opening 3 streams.".to_string()]
    );
}

#[test]
fn a_scan_without_streams_announces_no_opening() {
    assert_eq!(start_lines(0, 0), vec!["Resuming from sector 0.".to_string()]);
}
