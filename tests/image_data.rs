use gdimage::image_data::{ImageData, OutOfBounds};
use gdimage::palette::Rgb;

#[test]
fn map_coords_then_read_gives_the_generator() {
    let (w, h) = (5u16, 3u16);
    let mut img: ImageData<u32> = ImageData::new_allocate(w, h);
    img.map_coords(|x, y| x as u32 * 100 + y as u32);
    for y in 0..h {
        for x in 0..w {
            assert_eq!(*img.get(x, y).unwrap(), x as u32 * 100 + y as u32);
        }
    }
}

#[test]
fn map_coords_visits_rows_in_order() {
    let counter = std::cell::Cell::new(0u32);
    let mut img: ImageData<u32> = ImageData::new_allocate(3, 2);
    img.map_coords(|_, _| {
        let n = counter.get();
        counter.set(n + 1);
        n
    });
    assert_eq!(img.get_data(), {
        let mut v = Vec::new();
        for n in 0..6u32 {
            v.extend_from_slice(&n.to_le_bytes());
        }
        v
    });
    assert_eq!(*img.get(2, 0).unwrap(), 2);
    assert_eq!(*img.get(0, 1).unwrap(), 3);
}

#[test]
fn reads_outside_the_image_fail() {
    let (w, h) = (4u16, 2u16);
    let img: ImageData<u8> = ImageData::new_allocate(w, h);
    assert!(img.get(w, 0).is_none());
    assert!(img.get(0, h).is_none());
    assert!(img.get(w, h).is_none());
    assert!(img.get(w - 1, h - 1).is_some());
}

#[test]
fn writes_outside_the_image_fail() {
    let (w, h) = (4u16, 2u16);
    let mut img: ImageData<u8> = ImageData::new_allocate(w, h);
    assert_eq!(img.set(w, 0, 9), Err(OutOfBounds { x: w, y: 0 }));
    assert_eq!(img.set(0, h, 9), Err(OutOfBounds { x: 0, y: h }));
    assert_eq!(img.set(w, h, 9), Err(OutOfBounds { x: w, y: h }));
    assert_eq!(img.get_data(), vec![0u8; 8]);
    assert_eq!(img.set(1, 1, 9), Ok(()));
    assert_eq!(*img.get(1, 1).unwrap(), 9);
    assert_eq!(img.get_data()[5], 9);
}

#[test]
fn pixel_gives_mutable_access_in_row_major_order() {
    let mut img: ImageData<u8> = ImageData::new_allocate(3, 2);
    *img.pixel(2, 1) = 7;
    *img.pixel(0, 1) += 4;
    assert_eq!(img.get_data(), vec![0, 0, 0, 4, 0, 7]);
}

#[test]
fn map_each_transforms_every_element() {
    let mut img = ImageData::with_data(2, 2, vec![1u16, 2, 3, 4]);
    img.map_each(|v| v * 10);
    assert_eq!(*img.get(0, 0).unwrap(), 10);
    assert_eq!(*img.get(1, 0).unwrap(), 20);
    assert_eq!(*img.get(0, 1).unwrap(), 30);
    assert_eq!(*img.get(1, 1).unwrap(), 40);
}

#[test]
fn new_holds_no_elements_until_allocated() {
    let mut img: ImageData<u8> = ImageData::new(3, 4);
    assert_eq!(img.width(), 3);
    assert_eq!(img.height(), 4);
    assert!(img.get_data().is_empty());
    img.allocate();
    assert_eq!(img.get_data(), vec![0u8; 12]);
}

#[test]
fn allocate_discards_old_contents() {
    let mut img = ImageData::with_data(2, 1, vec![Rgb::new(1, 2, 3), Rgb::new(4, 5, 6)]);
    img.allocate();
    assert_eq!(*img.get(0, 0).unwrap(), Rgb::default());
    assert_eq!(*img.get(1, 0).unwrap(), Rgb::default());
}

#[test]
fn raw_size_is_pixels_times_element_size() {
    let img: ImageData<u32> = ImageData::new_allocate(7, 3);
    assert_eq!(img.get_data_size(), 7 * 3 * 4);
    assert_eq!(img.get_data().len(), 7 * 3 * 4);
    let rgb: ImageData<Rgb> = ImageData::new_allocate(5, 5);
    assert_eq!(rgb.get_data_size(), 75);
    assert_eq!(rgb.get_data().len(), 75);
}

#[test]
fn zero_sized_buffers_give_empty_bytes() {
    for (w, h) in [(0u16, 0u16), (0, 9), (9, 0)] {
        let img: ImageData<u16> = ImageData::new_allocate(w, h);
        assert_eq!(img.get_data_size(), 0);
        assert!(img.get_data().is_empty());
    }
}

#[test]
fn raw_bytes_are_little_endian() {
    let img = ImageData::with_data(2, 1, vec![0x0102u16, 0xA0B0]);
    assert_eq!(img.get_data(), vec![0x02, 0x01, 0xB0, 0xA0]);
    let rgb = ImageData::with_data(1, 1, vec![Rgb::new(9, 8, 7)]);
    assert_eq!(rgb.get_data(), vec![9, 8, 7]);
}

#[test]
fn raw_bytes_round_trip() {
    let (w, h) = (6u16, 4u16);
    let mut img: ImageData<u32> = ImageData::new_allocate(w, h);
    img.map_coords(|x, y| (x as u32).wrapping_mul(0x0101_0101) ^ ((y as u32) << 20) ^ 0xDEAD_0000);
    let bytes = img.get_data();
    let back: ImageData<u32> = ImageData::from_bytes(w, h, &bytes).unwrap();
    assert_eq!(back.width(), w);
    assert_eq!(back.height(), h);
    for y in 0..h {
        for x in 0..w {
            assert_eq!(back.get(x, y), img.get(x, y));
        }
    }
    assert_eq!(back.get_data(), bytes);
}

#[test]
fn raw_bytes_round_trip_for_colours() {
    let mut img: ImageData<Rgb> = ImageData::new_allocate(3, 3);
    img.map_coords(|x, y| Rgb::new(x as u8 * 80, y as u8 * 80, 255 - x as u8));
    let back: ImageData<Rgb> = ImageData::from_bytes(3, 3, &img.get_data()).unwrap();
    for y in 0..3 {
        for x in 0..3 {
            assert_eq!(back.get(x, y), img.get(x, y));
        }
    }
}

#[test]
fn from_bytes_needs_the_exact_length() {
    assert!(ImageData::<u16>::from_bytes(2, 2, &[0u8; 7]).is_none());
    assert!(ImageData::<u16>::from_bytes(2, 2, &[0u8; 9]).is_none());
    assert!(ImageData::<u16>::from_bytes(2, 2, &[0u8; 8]).is_some());
    assert!(ImageData::<u8>::from_bytes(0, 5, &[]).is_some());
}

#[test]
fn from_bytes_reads_little_endian() {
    let img = ImageData::<u16>::from_bytes(2, 1, &[0x02, 0x01, 0xB0, 0xA0]).unwrap();
    assert_eq!(*img.get(0, 0).unwrap(), 0x0102);
    assert_eq!(*img.get(1, 0).unwrap(), 0xA0B0);
}
