use gdimage::mip::{bytes_per_pixel, mipmaps_size};

#[test]
fn bytes_per_pixel_of_named_codes() {
    assert_eq!(bytes_per_pixel(0), 1);
    assert_eq!(bytes_per_pixel(2), 3);
    assert_eq!(bytes_per_pixel(4), 4);
}

#[test]
fn bytes_per_pixel_of_every_code() {
    let expected = [1u8, 1, 3, 3, 4, 4, 5, 5];
    for code in 0..8u8 {
        assert_eq!(bytes_per_pixel(code), expected[code as usize], "code {}", code);
    }
}

#[test]
fn bytes_per_pixel_ignores_high_bits() {
    assert_eq!(bytes_per_pixel(0x08), 1);
    assert_eq!(bytes_per_pixel(0x8A), 3);
    assert_eq!(bytes_per_pixel(0xFF), 5);
}

#[test]
fn single_level_chain_is_one_pixel() {
    for bpp in [0u16, 1, 3, 4, 255, 65535] {
        assert_eq!(mipmaps_size(1, 1, bpp), bpp as u64);
    }
}

#[test]
fn four_by_four_chain() {
    assert_eq!(mipmaps_size(4, 4, 1), 16 + 4 + 1);
    assert_eq!(mipmaps_size(4, 4, 1), 21);
}

#[test]
fn odd_sides_round_up() {
    // 3x1, 2x1, 1x1
    assert_eq!(mipmaps_size(3, 1, 2), (3 + 2 + 1) * 2);
}

#[test]
fn rectangular_chain() {
    assert_eq!(mipmaps_size(256, 128, 4), 174764);
}

#[test]
fn zero_sides_settle_to_one() {
    assert_eq!(mipmaps_size(0, 0, 1), 1);
    // 0x5, 1x3, 1x2, 1x1
    assert_eq!(mipmaps_size(0, 5, 3), 18);
}

#[test]
fn largest_chain_does_not_overflow() {
    assert_eq!(mipmaps_size(65535, 65535, 65535), 375285652564650);
}
