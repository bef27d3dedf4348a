use rtlib::fb::Fb;

#[test]
fn from_func_row_major() {
    let fb = Fb::from_func(3, 2, |x, y| (x, y));
    assert_eq!(fb.width(), 3);
    assert_eq!(fb.height(), 2);
    for y in 0..2u16 {
        for x in 0..3u16 {
            assert_eq!(fb.get(x, y), (x, y));
        }
    }
}

#[test]
fn new_empty_filled() {
    let fb = Fb::new_empty(4, 3, [0u8, 0, 0]);
    assert_eq!(fb.to_bytes(), vec![0u8; 36]);
    assert_eq!(fb.get(3, 2), [0, 0, 0]);
}

#[test]
fn empty_grid_has_no_bytes() {
    let fb = Fb::new_empty(0, 5, [1u8, 2, 3]);
    assert_eq!(fb.to_bytes(), Vec::<u8>::new());
}

#[test]
fn to_bytes_interleaves_channels() {
    let fb = Fb::from_func(2, 2, |x, y| [x as u8, y as u8, 10 * x as u8 + y as u8]);
    assert_eq!(
        fb.to_bytes(),
        vec![0, 0, 0, 1, 0, 10, 0, 1, 1, 1, 1, 11]
    );
}

#[test]
fn from_pixels_checks_size() {
    assert!(Fb::from_pixels(2, 2, vec![1u8, 2, 3]).is_none());
    let fb = Fb::from_pixels(2, 2, vec![1u8, 2, 3, 4]).unwrap();
    assert_eq!(fb.get(0, 1), 3);
    assert_eq!(fb.get(1, 1), 4);
}

#[test]
fn map_each_pixel() {
    let fb = Fb::from_func(2, 1, |x, _| x as u32 + 1).map(|v| [v as u8; 3]);
    assert_eq!(fb.to_bytes(), vec![1, 1, 1, 2, 2, 2]);
}

#[test]
fn downsample_blocks_in_order() {
    let fb = Fb::from_func(4, 2, |x, y| (x, y));
    let small = fb.downsample(|a, b, c, d| [a, b, c, d]);
    assert_eq!(small.width(), 2);
    assert_eq!(small.height(), 1);
    assert_eq!(small.get(1, 0), [(2, 0), (2, 1), (3, 0), (3, 1)]);
}

#[test]
fn downsample_average_matches_plain() {
    let big = Fb::from_func(4, 4, |x, y| (x / 2 + 10 * (y / 2)) as u32);
    let avg = big.downsample(|a, b, c, d| (a + b + c + d) / 4);
    let plain = Fb::from_func(2, 2, |x, y| (x + 10 * y) as u32);
    for y in 0..2u16 {
        for x in 0..2u16 {
            assert_eq!(avg.get(x, y), plain.get(x, y));
        }
    }
}

#[test]
fn downsample_drops_odd_edge() {
    let fb = Fb::from_func(3, 3, |x, y| x + y);
    let small = fb.downsample(|a, _, _, _| a);
    assert_eq!((small.width(), small.height()), (1, 1));
    assert_eq!(small.get(0, 0), 0);
}

#[test]
fn layout_same_whatever_order() {
    let seq = Fb::from_func(3, 2, |x, y| [x as u8, y as u8, 7]);
    let mut data = vec![[0u8; 3]; 6];
    for i in (0..6).rev() {
        data[i] = [(i % 3) as u8, (i / 3) as u8, 7];
    }
    let other = Fb::from_pixels(3, 2, data).unwrap();
    assert_eq!(seq.to_bytes(), other.to_bytes());
}

#[test]
fn encode_writes_png_file() {
    let fb = rtlib::fb::Fb::from_func(2, 1, |x, _| [255 * x as u8, 0, 0]);
    let bytes = fb.to_bytes();
    let file = rtlib::encode::encode(fb).unwrap();
    assert_eq!(&file[..8], &[137u8, 80, 78, 71, 13, 10, 26, 10]);
    assert_ne!(file, bytes);
    assert_eq!(&file[12..16], b"IHDR");
    assert_eq!(&file[16..24], &[0u8, 0, 0, 2, 0, 0, 0, 1]);
    assert_eq!(&file[file.len() - 8..file.len() - 4], b"IEND");
}

#[test]
fn encode_new_empty_succeeds() {
    let fb = Fb::new_empty(640, 480, [0u8, 0, 0]);
    assert_eq!(fb.to_bytes().len(), 3 * 640 * 480);
    assert!(rtlib::encode::encode(fb).is_ok());
}
