use xorfile::geometry::Geometry;
use xorfile::memory::{read_at, scan_streams, ScanReport};
use xorfile::scan_loop::{Failure, Phase};

const MIB: usize = 1024 * 1024;

fn small() -> Geometry {
    Geometry::new(2, 4, 8).expect("valid sizes")
}

fn pattern(len: usize) -> Vec<u8> {
    (0..len).map(|i| (i * 7 % 251) as u8 + 1).collect()
}

fn finished(progress: Vec<u64>, mismatches: Vec<u64>, chunks: u64) -> ScanReport {
    ScanReport { progress, mismatches, chunks, outcome: Phase::Finished }
}

#[test]
fn read_at_gives_whole_and_partial_chunks() {
    let stream = [1u8, 2, 3, 4, 5, 6, 7];
    assert_eq!(read_at(&stream, 0, 4), &[1u8, 2, 3, 4]);
    assert_eq!(read_at(&stream, 3, 4), &[4u8, 5, 6, 7]);
    assert_eq!(read_at(&stream, 4, 4), &[5u8, 6, 7]);
    assert_eq!(read_at(&stream, 6, 4), &[7u8]);
    assert_eq!(read_at(&stream, 7, 4), &[] as &[u8]);
    assert_eq!(read_at(&stream, u64::MAX, 4), &[] as &[u8]);
    assert_eq!(read_at(&stream, 2, 0), &[] as &[u8]);
    assert_eq!(read_at(&stream, 0, usize::MAX), &stream);
}

#[test]
fn flipped_bit_in_second_chunk_is_reported_once() {
    let a = pattern(20 * MIB);
    let b = a.clone();
    let mut c = vec![0u8; 20 * MIB];
    c[15_728_640] ^= 0x10;
    let report = scan_streams(Geometry::standard(), &vec![a, b, c], 0);
    assert_eq!(report, finished(vec![0], vec![15_728_640], 2));
    assert_eq!(15_728_640 / (10 * MIB), 1);
}

#[test]
fn progress_lines_over_250_mib() {
    let data = vec![0u8; 250 * MIB];
    let report = scan_streams(Geometry::standard(), &vec![data], 0);
    assert_eq!(report, finished(vec![0, 104_857_600, 209_715_200], Vec::new(), 25));
}

#[test]
fn progress_lines_stop_before_the_first_boundary_not_reached() {
    let report = scan_streams(small(), &vec![vec![0u8; 24]], 0);
    assert_eq!(report, finished(vec![0, 8, 16], Vec::new(), 6));
    let report = scan_streams(small(), &vec![vec![0u8; 8]], 0);
    assert_eq!(report, finished(vec![0], Vec::new(), 2));
    let report = scan_streams(small(), &vec![vec![0u8; 12]], 0);
    assert_eq!(report, finished(vec![0, 8], Vec::new(), 3));
}

#[test]
fn an_even_number_of_identical_streams_is_clean() {
    let data = pattern(16);
    for copies in [2usize, 4, 6] {
        let streams = vec![data.clone(); copies];
        let report = scan_streams(small(), &streams, 0);
        assert_eq!(report, finished(vec![0, 8], Vec::new(), 4));
    }
}

#[test]
fn an_odd_number_of_identical_streams_shows_their_content() {
    let data = pattern(8);
    let report = scan_streams(small(), &vec![data.clone(), data.clone(), data], 0);
    assert_eq!(report, finished(vec![0], vec![0, 4], 2));
}

#[test]
fn identical_streams_of_zero_bytes_are_clean_in_any_number() {
    let report = scan_streams(small(), &vec![vec![0u8; 8]; 3], 0);
    assert_eq!(report, finished(vec![0], Vec::new(), 2));
}

#[test]
fn a_single_divergent_byte_is_reported_at_its_offset() {
    for k in 0..16usize {
        let base = pattern(16);
        let mut odd = base.clone();
        odd[k] ^= 0x01;
        let report = scan_streams(small(), &vec![base.clone(), odd, base.clone(), base], 0);
        assert_eq!(report, finished(vec![0, 8], vec![k as u64], 4));
    }
}

#[test]
fn only_the_first_mismatch_of_a_chunk_is_reported() {
    let a = vec![0u8; 12];
    let mut b = vec![0u8; 12];
    b[1] = 1;
    b[3] = 1;
    b[4] = 1;
    b[11] = 1;
    let report = scan_streams(small(), &vec![a, b], 0);
    assert_eq!(report, finished(vec![0, 8], vec![1, 4, 11], 3));
}

#[test]
fn a_divergence_in_the_partial_last_chunk_is_not_reported() {
    let a = vec![0u8; 10];
    let mut b = vec![0u8; 10];
    b[9] = 1;
    let report = scan_streams(small(), &vec![a, b], 0);
    assert_eq!(report.mismatches, Vec::<u64>::new());
    assert_eq!(report.chunks, 2);
    assert_eq!(report.outcome, Phase::Truncated { stream: 0 });
}

#[test]
fn a_resumed_scan_counts_offsets_from_its_start() {
    let a = vec![0u8; 16];
    let mut b = vec![0u8; 16];
    b[2] = 1;
    b[9] = 1;
    b[13] = 1;
    let whole = scan_streams(small(), &vec![a.clone(), b.clone()], 0);
    assert_eq!(whole, finished(vec![0, 8], vec![2, 9, 13], 4));
    // sector 4 is byte 8, two chunks in
    let resumed = scan_streams(small(), &vec![a, b], 4);
    assert_eq!(resumed, finished(vec![0], vec![1, 5], 2));
}

#[test]
fn a_scan_resumed_on_a_chunk_boundary_finds_what_the_whole_scan_finds_from_there() {
    let a = pattern(40);
    let mut b = a.clone();
    for at in [0usize, 3, 5, 17, 18, 30, 39] {
        b[at] ^= 0x80;
    }
    let whole = scan_streams(small(), &vec![a.clone(), b.clone()], 0);
    for sector in [0u64, 2, 4, 8, 10, 16, 20] {
        let start = sector * 2;
        let resumed = scan_streams(small(), &vec![a.clone(), b.clone()], sector);
        let expected: Vec<u64> =
            whole.mismatches.iter().filter(|m| **m >= start).map(|m| m - start).collect();
        assert_eq!(resumed.mismatches, expected);
        assert_eq!(resumed.outcome, Phase::Finished);
    }
}

#[test]
fn a_scan_resumed_inside_a_chunk_sees_other_chunks() {
    let a = vec![0u8; 12];
    let mut b = vec![0u8; 12];
    b[1] = 1;
    b[3] = 1;
    let whole = scan_streams(small(), &vec![a.clone(), b.clone()], 0);
    assert_eq!(whole.mismatches, vec![1]);
    // sector 1 is byte 2: the chunk from byte 2 on has its first mismatch at byte 3
    let resumed = scan_streams(small(), &vec![a, b], 1);
    assert_eq!(resumed.mismatches, vec![1]);
    assert_eq!(resumed.chunks, 2);
    assert_eq!(resumed.outcome, Phase::Truncated { stream: 0 });
}

#[test]
fn a_scan_resumed_at_or_after_the_end_finishes_at_once() {
    let streams = vec![vec![1u8; 8], vec![1u8; 8]];
    let report = scan_streams(small(), &streams, 4);
    assert_eq!(report, finished(Vec::new(), Vec::new(), 0));
    let report = scan_streams(small(), &streams, 1000);
    assert_eq!(report, finished(Vec::new(), Vec::new(), 0));
}

#[test]
fn equal_lengths_of_whole_chunks_finish() {
    for len in [0usize, 4, 8, 40] {
        let report = scan_streams(small(), &vec![vec![0u8; len]; 3], 0);
        assert_eq!(report.outcome, Phase::Finished);
        assert_eq!(report.chunks, (len / 4) as u64);
    }
}

#[test]
fn equal_lengths_with_a_partial_chunk_truncate() {
    let report = scan_streams(small(), &vec![vec![0u8; 10]; 2], 0);
    assert_eq!(report.outcome, Phase::Truncated { stream: 0 });
    assert_eq!(report.chunks, 2);
}

#[test]
fn a_stream_shorter_by_part_of_a_chunk_truncates() {
    let report = scan_streams(small(), &vec![vec![0u8; 16], vec![0u8; 13]], 0);
    assert_eq!(report.outcome, Phase::Truncated { stream: 1 });
    assert_eq!(report.chunks, 3);
    let report = scan_streams(small(), &vec![vec![0u8; 13], vec![0u8; 16]], 0);
    assert_eq!(report.outcome, Phase::Truncated { stream: 0 });
    assert_eq!(report.chunks, 3);
    let report = scan_streams(small(), &vec![vec![0u8; 16], vec![0u8; 16], vec![0u8; 2]], 0);
    assert_eq!(report.outcome, Phase::Truncated { stream: 2 });
    assert_eq!(report.chunks, 0);
}

#[test]
fn a_stream_shorter_by_whole_chunks_truncates() {
    let report = scan_streams(small(), &vec![vec![0u8; 16], vec![0u8; 8]], 0);
    assert_eq!(report.outcome, Phase::Truncated { stream: 1 });
    assert_eq!(report.chunks, 2);
    let report = scan_streams(small(), &vec![vec![0u8; 8], vec![0u8; 16]], 0);
    assert_eq!(report.outcome, Phase::Truncated { stream: 1 });
    assert_eq!(report.chunks, 2);
}

#[test]
fn truncation_in_20_mib_streams_with_the_standard_sizes() {
    let long = vec![0u8; 20 * MIB];
    let short = vec![0u8; 20 * MIB - 5 * MIB];
    let report = scan_streams(Geometry::standard(), &vec![long, short], 0);
    assert_eq!(report.outcome, Phase::Truncated { stream: 1 });
    assert_eq!(report.chunks, 1);
    assert_eq!(report.progress, vec![0]);
}

#[test]
fn no_streams_is_an_argument_error() {
    let report = scan_streams(Geometry::standard(), &Vec::new(), 0);
    assert_eq!(
        report,
        ScanReport {
            progress: Vec::new(),
            mismatches: Vec::new(),
            chunks: 0,
            outcome: Phase::Failed { failure: Failure::Argument },
        }
    );
}

#[test]
fn a_resume_position_beyond_64_bits_is_a_seek_error() {
    let report = scan_streams(Geometry::standard(), &vec![vec![0u8; 4]], u64::MAX);
    assert_eq!(
        report,
        ScanReport {
            progress: Vec::new(),
            mismatches: Vec::new(),
            chunks: 0,
            outcome: Phase::Failed { failure: Failure::Seek { stream: 0 } },
        }
    );
}

#[test]
fn a_single_stream_checks_itself() {
    let report = scan_streams(small(), &vec![vec![0u8, 0, 0, 0, 0, 6, 0, 0]], 0);
    assert_eq!(report, finished(vec![0], vec![5], 2));
}
