use kernel::util::{random_u64, read_tsc};

#[test]
fn tsc_joins_both_halves() {
    assert_eq!(read_tsc(0x89ab_cdef, 0x0123_4567), 0x0123_4567_89ab_cdef);
    assert_eq!(read_tsc(0, 1), 1 << 32);
    assert_eq!(read_tsc(u32::MAX, u32::MAX), u64::MAX);
}

#[test]
fn random_is_one_round_of_xorshift() {
    assert_eq!(random_u64(0), 0);
    // 1 -> 1 ^ 0 = 1 -> 1 ^ 128 = 129 -> 129 ^ 0 = 129
    assert_eq!(random_u64(1), 129);
    // 1 << 20: ^ 1 << 7, then ^ (1 << 27 | 1 << 14), then ^ (1 << 3 | 1 << 10)
    assert_eq!(
        random_u64(1 << 20),
        (1 << 20) | (1 << 7) | (1 << 27) | (1 << 14) | (1 << 3) | (1 << 10)
    );
}

#[test]
fn random_numbers_differ_for_different_times() {
    let numbers: Vec<u64> = (0..1000).map(|t| random_u64(0x1234_5678_0000 + t)).collect();
    for i in 0..numbers.len() {
        for j in 0..i {
            assert_ne!(numbers[i], numbers[j]);
        }
    }
}
