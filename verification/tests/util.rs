use ddsd::util;

#[test]
fn div_ceil() {
    for a in 0..255u32 {
        for b in 1..255u32 {
            let expected = (a as f64 / b as f64).ceil() as u8;
            assert_eq!(util::div_ceil(a as u64, b as u64), expected as u64, "a={}, b={}", a, b);
        }
    }
}

#[test]
fn div_ceil_of_large_numbers() {
    assert_eq!(util::div_ceil(0, 7), 0);
    assert_eq!(util::div_ceil(u64::MAX, 1), u64::MAX);
    assert_eq!(util::div_ceil(u64::MAX, 2), 1 << 63);
    assert_eq!(util::div_ceil(u64::MAX, u64::MAX), 1);
}

#[test]
fn round_down_to_multiple() {
    assert_eq!(util::round_down_to_multiple(0, 4), 0);
    assert_eq!(util::round_down_to_multiple(7, 4), 4);
    assert_eq!(util::round_down_to_multiple(8, 4), 8);
    assert_eq!(util::round_down_to_multiple(u64::MAX, 1), u64::MAX);
    assert_eq!(util::round_down_to_multiple(5, 9), 0);
}

#[test]
fn mipmap_sizes() {
    assert_eq!(util::get_mipmap_size(256, 0), 256);
    assert_eq!(util::get_mipmap_size(256, 3), 32);
    assert_eq!(util::get_mipmap_size(256, 8), 1);
    assert_eq!(util::get_mipmap_size(256, 9), 1);
    assert_eq!(util::get_mipmap_size(5, 1), 2);
    assert_eq!(util::get_mipmap_size(0, 0), 1);
    assert_eq!(util::get_mipmap_size(u32::MAX, 255), 1);
    for level in 0..32u8 {
        assert_eq!(util::get_mipmap_size(u32::MAX, level), u32::MAX >> level);
    }
}

#[test]
fn byte_order() {
    let mut buffer = [1u8, 2, 3, 4, 5, 6, 7, 8];
    util::le_to_native_endian_16(&mut buffer, false);
    assert_eq!(buffer, [1, 2, 3, 4, 5, 6, 7, 8]);
    util::le_to_native_endian_16(&mut buffer, true);
    assert_eq!(buffer, [2, 1, 4, 3, 6, 5, 8, 7]);
    util::le_to_native_endian_32(&mut buffer, true);
    assert_eq!(buffer, [3, 4, 1, 2, 7, 8, 5, 6]);
    util::le_to_native_endian_32(&mut buffer, false);
    assert_eq!(buffer, [3, 4, 1, 2, 7, 8, 5, 6]);
    let mut nothing: [u8; 0] = [];
    util::le_to_native_endian_32(&mut nothing, true);
}
