use qoi_stream::pixel::Pixel;
use qoi_stream::utils::is_identical;

#[test]
fn infallible_calculate_hash_index() {
    assert!(Pixel::new(0, 0, 0, 0).calculate_hash_index() == 0);
    assert!(Pixel::new(255, 255, 255, 255).calculate_hash_index() == 38);
}

#[test]
fn infallible_to_output() {
    let (output, index) = Pixel::new(0, 0, 0, 0).to_output([1, 1, 1, 1], 0);
    assert!(is_identical(&output, &[0, 0, 0, 0]));
    assert!(index == 4);
}

#[test]
fn infallible_rgb_to_output() {
    let (output, index) = Pixel::new(0, 0, 0, 0).rgb_to_output([1, 1, 1, 1, 1], 0);
    assert!(is_identical(&output, &[254, 0, 0, 0, 1]));
    assert!(index == 4);
}

#[test]
fn infallible_rgba_to_output() {
    let (output, index) = Pixel::new(0, 0, 0, 5).rgba_to_output([1, 1, 1, 1, 1, 1], 0);
    assert!(is_identical(&output, &[255, 0, 0, 0, 5, 1]));
    assert!(index == 5);
}

#[test]
fn infallible_is_same() {
    let a = Pixel::new(5, 5, 5, 5);
    let b = Pixel::new(5, 5, 5, 5);
    let c = Pixel::new(6, 6, 6, 6);
    assert!(a.is_same(b));
    assert!(!a.is_same(c));
}

#[test]
fn infallible_diff() {
    let mut new = Pixel::new(0, 0, 0, 255);
    let mut old = Pixel::new(1, 1, 1, 255);
    let new_from_old = new.diff(old);
    assert!(new_from_old.is_some());
    if let Some(byte) = new_from_old {
        assert!((64 | 1 << 4 | 1 << 2 | 1) == 85);
        assert!(byte == 85);
    }
    new = Pixel::new(255, 255, 255, 255);
    old = Pixel::new(1, 1, 1, 255);
    let new_from_old = new.diff(old);
    assert!(new_from_old.is_some());
    if let Some(byte) = new_from_old {
        assert!((64 | 0 << 4 | 0 << 2 | 0) == 64);
        assert!(byte == 64);
    }
    new = Pixel::new(0, 1, 2, 255);
    old = Pixel::new(1, 1, 1, 255);
    let new_from_old = new.diff(old);
    assert!(new_from_old.is_some());
    if let Some(byte) = new_from_old {
        assert!((64 | 1 << 4 | 2 << 2 | 3) == 91);
        assert!(byte == 91);
    }
    new = Pixel::new(1, 1, 1, 255);
    old = Pixel::new(0, 0, 0, 255);
    let new_from_old = new.diff(old);
    assert!(new_from_old.is_some());
    if let Some(byte) = new_from_old {
        assert!((64 | 3 << 4 | 3 << 2 | 3) == 127);
        assert!(byte == 127);
    }
    new = Pixel::new(1, 1, 10, 255);
    old = Pixel::new(0, 0, 0, 255);
    let new_from_old = new.diff(old);
    assert!(new_from_old.is_none());
}

#[test]
fn infallible_luma() {
    let mut new = Pixel::new(5, 5, 5, 255);
    let mut old = Pixel::new(10, 10, 10, 255);
    let new_from_old = new.luma(old);
    assert!(new_from_old.is_some());
    if let Some((tag_green, red_blue)) = new_from_old {
        assert!(tag_green == 155);
        assert!(red_blue == 136);
    }
    new = Pixel::new(10, 10, 10, 255);
    old = Pixel::new(5, 5, 5, 255);
    let new_from_old = new.luma(old);
    assert!(new_from_old.is_some());
    if let Some((tag_green, red_blue)) = new_from_old {
        assert!(tag_green == 165);
        assert!(red_blue == 136);
    }
    new = Pixel::new(80, 80, 44, 255);
    old = Pixel::new(54, 50, 15, 255);
    let new_from_old = new.luma(old);
    assert!(new_from_old.is_some());
    if let Some((tag_green, red_blue)) = new_from_old {
        assert!(tag_green == 190);
        assert!(red_blue == 71);
    }
    new = Pixel::new(128, 128, 128, 255);
    old = Pixel::new(1, 1, 1, 255);
    let new_from_old = new.luma(old);
    assert!(new_from_old.is_none());
}

#[test]
fn hash_index_of_the_default_pixel() {
    assert_eq!(Pixel::new(0, 0, 0, 255).calculate_hash_index(), 53);
    assert_eq!(Pixel::new(1, 2, 3, 4).calculate_hash_index(), (3 + 10 + 21 + 44) % 64);
    assert_eq!(Pixel::new(219, 224, 223, 255).calculate_hash_index(), 63);
}

#[test]
fn diff_wraps_around_and_ends_at_its_range() {
    let old = Pixel::new(255, 0, 254, 7);
    assert_eq!(Pixel::new(0, 254, 255, 7).diff(old), Some(64 | 3 << 4 | 0 << 2 | 3));
    assert_eq!(Pixel::new(1, 0, 254, 7).diff(old), None);
    assert_eq!(Pixel::new(255, 253, 254, 7).diff(old), None);
    assert_eq!(old.diff(old), Some(64 | 2 << 4 | 2 << 2 | 2));
}

#[test]
fn luma_ends_at_its_range() {
    let old = Pixel::new(100, 100, 100, 255);
    assert_eq!(Pixel::new(131, 131, 131, 255).luma(old), Some((128 | 63, 8 << 4 | 8)));
    assert_eq!(Pixel::new(132, 132, 132, 255).luma(old), None);
    assert_eq!(Pixel::new(68, 68, 68, 255).luma(old), Some((128, 8 << 4 | 8)));
    assert_eq!(Pixel::new(67, 67, 67, 255).luma(old), None);
    assert_eq!(Pixel::new(107, 100, 92, 255).luma(old), Some((128 | 32, 15 << 4 | 0)));
    assert_eq!(Pixel::new(108, 100, 100, 255).luma(old), None);
    assert_eq!(Pixel::new(100, 100, 91, 255).luma(old), None);
}

#[test]
fn to_output_writes_at_the_index() {
    let (output, index) = Pixel::new(1, 2, 3, 4).to_output([9; 6], 2);
    assert_eq!(output, [9, 9, 1, 2, 3, 4]);
    assert_eq!(index, 6);
}
