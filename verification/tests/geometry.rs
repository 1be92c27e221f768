use xorfile::geometry::{Geometry, CHUNK_SIZE, MEGABYTE, PROGRESS_BOUNDARY, SECTOR_SIZE};

#[test]
fn constants_have_the_documented_values() {
    assert_eq!(SECTOR_SIZE, 512);
    assert_eq!(CHUNK_SIZE, 10 * 1024 * 1024);
    assert_eq!(PROGRESS_BOUNDARY, 100 * 1024 * 1024);
    assert_eq!(MEGABYTE, 1024 * 1024);
}

#[test]
fn standard_geometry_uses_the_constants() {
    let g = Geometry::standard();
    assert_eq!(g.sector_size(), 512);
    assert_eq!(g.chunk_size(), 10 * 1024 * 1024);
    assert_eq!(g.progress_boundary(), 100 * 1024 * 1024);
}

#[test]
fn new_accepts_a_boundary_of_whole_chunks() {
    let g = Geometry::new(512, 4096, 8192).expect("valid sizes");
    assert_eq!(g.sector_size(), 512);
    assert_eq!(g.chunk_size(), 4096);
    assert_eq!(g.progress_boundary(), 8192);
    assert!(Geometry::new(1, 1, 1).is_some());
}

#[test]
fn new_refuses_zero_sizes() {
    assert!(Geometry::new(0, 4096, 8192).is_none());
    assert!(Geometry::new(512, 0, 8192).is_none());
    assert!(Geometry::new(512, 4096, 0).is_none());
}

#[test]
fn new_refuses_a_boundary_that_splits_a_chunk() {
    assert!(Geometry::new(512, 4096, 6000).is_none());
    assert!(Geometry::new(512, 4096, 2048).is_none());
}

#[test]
fn resume_position_is_sector_times_sector_size() {
    let g = Geometry::standard();
    assert_eq!(g.resume_position(0), Some(0));
    assert_eq!(g.resume_position(1), Some(512));
    assert_eq!(g.resume_position(20480), Some(10 * 1024 * 1024));
    assert_eq!(g.resume_position(u64::MAX / 512), Some((u64::MAX / 512) * 512));
}

#[test]
fn resume_position_beyond_64_bits_is_none() {
    let g = Geometry::standard();
    assert_eq!(g.resume_position(u64::MAX / 512 + 1), None);
    assert_eq!(g.resume_position(u64::MAX), None);
}

#[test]
fn progress_is_due_on_multiples_of_the_boundary() {
    let g = Geometry::standard();
    assert!(g.progress_due(0));
    assert!(g.progress_due(104_857_600));
    assert!(g.progress_due(209_715_200));
    assert!(!g.progress_due(10_485_760));
    assert!(!g.progress_due(104_857_599));
    assert!(!g.progress_due(94_371_840));
    let small = Geometry::new(512, 4, 8).unwrap();
    assert!(small.progress_due(16));
    assert!(!small.progress_due(4));
}
