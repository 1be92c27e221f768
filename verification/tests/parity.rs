use xorfile::parity::{clear, find_first_nonzero, find_mismatch, fold_chunk, parity_of};

#[test]
fn clear_zeroes_every_byte_and_keeps_the_length() {
    let mut acc = vec![1u8, 2, 3, 255];
    clear(&mut acc);
    assert_eq!(acc, vec![0u8, 0, 0, 0]);
}

#[test]
fn clear_of_an_empty_accumulator() {
    let mut acc: Vec<u8> = Vec::new();
    clear(&mut acc);
    assert!(acc.is_empty());
}

#[test]
fn fold_chunk_is_bytewise_xor() {
    let mut acc = vec![0b1010_1010u8, 0xff, 0x00, 0x0f];
    fold_chunk(&mut acc, &[0b0110_0110u8, 0xff, 0x81, 0xf0]);
    assert_eq!(acc, vec![0b1100_1100u8, 0x00, 0x81, 0xff]);
}

#[test]
fn folding_a_chunk_twice_restores_the_accumulator() {
    let start = vec![7u8, 0, 200, 13];
    let chunk = [99u8, 1, 2, 3];
    let mut acc = start.clone();
    fold_chunk(&mut acc, &chunk);
    assert_ne!(acc, start);
    fold_chunk(&mut acc, &chunk);
    assert_eq!(acc, start);
}

#[test]
fn parity_of_no_chunks_is_zero() {
    assert_eq!(parity_of(&Vec::new(), 3), vec![0u8, 0, 0]);
}

#[test]
fn parity_of_one_chunk_is_the_chunk() {
    assert_eq!(parity_of(&vec![vec![5u8, 6, 7]], 3), vec![5u8, 6, 7]);
}

#[test]
fn parity_of_data_and_its_stripe_is_zero() {
    let a = vec![0x12u8, 0x34, 0x56];
    let b = vec![0xabu8, 0xcd, 0xef];
    let stripe: Vec<u8> = a.iter().zip(b.iter()).map(|(x, y)| x ^ y).collect();
    assert_eq!(parity_of(&vec![a, b, stripe], 3), vec![0u8, 0, 0]);
}

#[test]
fn parity_of_three_equal_chunks_is_the_chunk() {
    let c = vec![1u8, 2, 3];
    assert_eq!(parity_of(&vec![c.clone(), c.clone(), c.clone()], 3), c);
}

#[test]
fn first_nonzero_of_zero_bytes_is_none() {
    assert_eq!(find_first_nonzero(&[0u8; 16]), None);
    assert_eq!(find_first_nonzero(&[]), None);
}

#[test]
fn first_nonzero_is_the_leftmost() {
    assert_eq!(find_first_nonzero(&[0u8, 0, 4, 0, 9]), Some(2));
    assert_eq!(find_first_nonzero(&[1u8, 0, 4]), Some(0));
    assert_eq!(find_first_nonzero(&[0u8, 0, 0, 128]), Some(3));
}

#[test]
fn a_mismatch_is_the_offset_of_the_chunk_plus_the_index() {
    assert_eq!(find_mismatch(&[0, 0, 9, 1], 10_485_760), Some(10_485_762));
    assert_eq!(find_mismatch(&[3], 0), Some(0));
    assert_eq!(find_mismatch(&[0, 0, 0, 0], 40), None);
    assert_eq!(find_mismatch(&[], u64::MAX), None);
    assert_eq!(find_mismatch(&[0, 1], u64::MAX - 2), Some(u64::MAX - 1));
}
