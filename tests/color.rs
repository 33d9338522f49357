use fractal_explorer::color::to_pixel;

#[test]
fn interior_pixel_is_transparent_black() {
    assert_eq!(to_pixel(100, 100), (0, 0, 0, 0));
    assert_eq!(to_pixel(1, 1), (0, 0, 0, 0));
}

#[test]
fn count_above_cap_is_transparent_black() {
    assert_eq!(to_pixel(150, 100), (0, 0, 0, 0));
    assert_eq!(to_pixel(0, 0), (0, 0, 0, 0));
}

#[test]
fn escape_at_zero_is_opaque_black() {
    assert_eq!(to_pixel(0, 100), (0, 0, 0, 255));
}

#[test]
fn channels_follow_the_band_formula() {
    assert_eq!(to_pixel(1, 100), (2, 5, 3, 255));
    assert_eq!(to_pixel(51, 100), (102, 255, 153, 255));
    assert_eq!(to_pixel(99, 100), (198, 239, 41, 255));
}

#[test]
fn channels_wrap_modulo_256() {
    assert_eq!(to_pixel(130, 200), (4, 138, 134, 255));
    assert_eq!(to_pixel(4_000_000_000, u32::MAX), (0, 0, 0, 255));
}

#[test]
fn colour_formula_holds_for_every_count_below_the_cap() {
    let max_iter: u32 = 1000;
    for iter in 0..max_iter {
        let expected = (
            ((2 * iter) % 256) as u8,
            ((5 * iter) % 256) as u8,
            ((3 * iter) % 256) as u8,
            255u8,
        );
        assert_eq!(to_pixel(iter, max_iter), expected);
        assert_eq!(to_pixel(iter, max_iter), to_pixel(iter, max_iter));
    }
}
