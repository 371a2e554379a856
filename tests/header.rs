use gdimage::header::{
    fast_file_check, fast_image_check, header_checksum_of, GDImageHeader, FLAG_EXTENDED_HEADER,
    HEADER_SIZE, SIG,
};

fn header_bytes(width: u16, height: u16, flags: u8, mipmaps: u8, colors: u16) -> Vec<u8> {
    let mut b = vec![b'M', b'I', b'D', b'G'];
    b.extend_from_slice(&width.to_le_bytes());
    b.extend_from_slice(&height.to_le_bytes());
    b.push(flags);
    b.push(mipmaps);
    b.extend_from_slice(&colors.to_le_bytes());
    b.extend_from_slice(&[0, 0, 0, 0]);
    let sum = header_checksum_of(&b);
    b[12..16].copy_from_slice(&sum.to_le_bytes());
    b
}

#[test]
fn short_buffers_are_invalid() {
    let full = header_bytes(4, 3, 2, 1, 16);
    assert!(fast_image_check(&full));
    for len in 0..HEADER_SIZE {
        assert!(!fast_image_check(&full[..len]), "length {}", len);
    }
}

#[test]
fn sealed_header_is_valid() {
    assert!(fast_image_check(&header_bytes(4, 3, 2, 1, 16)));
    assert!(fast_image_check(&header_bytes(0, 0, 0, 0, 0)));
    assert!(fast_image_check(&header_bytes(65535, 1, 0x87, 255, 65535)));
}

#[test]
fn known_checksum_is_stored_little_endian() {
    let b = header_bytes(4, 3, 2, 1, 16);
    assert_eq!(&b[12..16], &[0xDF, 0xB7, 0xEB, 0xAA]);
}

#[test]
fn flipping_any_checked_bit_invalidates() {
    let good = header_bytes(4, 3, 2, 1, 16);
    for i in 4..12 {
        for j in 0..8 {
            let mut bad = good.clone();
            bad[i] ^= 1 << j;
            assert!(!fast_image_check(&bad), "byte {} bit {}", i, j);
        }
    }
}

#[test]
fn wrong_signature_is_invalid() {
    let mut b = header_bytes(4, 3, 2, 1, 16);
    b[0] = b'X';
    assert!(!fast_image_check(&b));
    let mut swapped = header_bytes(4, 3, 2, 1, 16);
    swapped[0..4].copy_from_slice(&[b'G', b'D', b'I', b'M']);
    assert!(!fast_image_check(&swapped));
}

#[test]
fn wrong_checksum_is_invalid() {
    let mut b = header_bytes(4, 3, 2, 1, 16);
    b[15] ^= 0x01;
    assert!(!fast_image_check(&b));
}

#[test]
fn extended_header_forbids_zero_dimensions() {
    assert!(!fast_image_check(&header_bytes(0, 3, FLAG_EXTENDED_HEADER, 0, 0)));
    assert!(!fast_image_check(&header_bytes(3, 0, FLAG_EXTENDED_HEADER, 0, 0)));
    assert!(!fast_image_check(&header_bytes(0, 0, FLAG_EXTENDED_HEADER | 2, 0, 0)));
    assert!(fast_image_check(&header_bytes(3, 3, FLAG_EXTENDED_HEADER, 0, 0)));
    assert!(fast_image_check(&header_bytes(0, 3, 0, 0, 0)));
}

#[test]
fn trailing_bytes_are_ignored() {
    let mut b = header_bytes(8, 8, 4, 4, 200);
    b.extend_from_slice(&[1, 2, 3, 4, 5, 6, 7]);
    assert!(fast_image_check(&b));
}

#[test]
fn decode_reads_every_field() {
    let b = header_bytes(0x0102, 0x0304, 0x05, 0x06, 0x0708);
    let h = GDImageHeader::decode(&b);
    assert_eq!(h.signature, SIG);
    assert_eq!(h.width, 0x0102);
    assert_eq!(h.height, 0x0304);
    assert_eq!(h.flags, 0x05);
    assert_eq!(h.mipmap_count, 0x06);
    assert_eq!(h.unique_colors, 0x0708);
    assert_eq!(h.checksum, header_checksum_of(&b));
}

#[test]
fn signature_spells_midg() {
    assert_eq!(SIG, u32::from_be_bytes(*b"MIDG"));
}

#[test]
fn default_header_has_only_the_signature() {
    let h = GDImageHeader::default();
    assert_eq!(h.signature, SIG);
    assert_eq!(h.width, 0);
    assert_eq!(h.height, 0);
    assert_eq!(h.flags, 0);
    assert_eq!(h.mipmap_count, 0);
    assert_eq!(h.unique_colors, 0);
    assert_eq!(h.checksum, 0);
}

#[test]
fn file_check_needs_the_minimum_size() {
    let b = header_bytes(4, 3, 2, 1, 16);
    assert!(!fast_file_check(20, &b));
    assert!(fast_file_check(21, &b));
    assert!(fast_file_check(1000, &b));
    let mut bad = b.clone();
    bad[5] ^= 0x80;
    assert!(!fast_file_check(1000, &bad));
}
