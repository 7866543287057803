//! Tests for the pixel grid and the pixel algebra.

use morph::{BitPixel, Image, Pixel, Rgba, L};

#[test]
fn new_image_is_filled() {
    let img = Image::new(3, 2, L(9));
    assert_eq!(img.dimensions(), (3, 2));
    for y in 0..2u32 {
        for x in 0..3u32 {
            assert_eq!(img.get_pixel(x, y), Some(L(9)));
        }
    }
}

#[test]
fn get_pixel_checks_bounds() {
    let img = Image::new(3, 2, L(1));
    assert_eq!(img.get_pixel(3, 0), None);
    assert_eq!(img.get_pixel(0, 2), None);
    assert_eq!(img.get_pixel(2, 1), Some(L(1)));
}

#[test]
fn set_pixel_and_pixel_mut_write_one_cell() {
    let mut img = Image::new(3, 3, L(0));
    img.set_pixel(1, 2, L(5));
    *img.pixel_mut(2, 0) = L(8);
    assert_eq!(img.pixel(1, 2), L(5));
    assert_eq!(img.pixel(2, 0), L(8));
    assert_eq!(img.pixel(1, 1), L(0));
}

#[test]
fn from_pixels_derives_the_height() {
    let pixels = vec![L(1), L(2), L(3), L(4), L(5), L(6)];
    let img = Image::from_pixels(3, pixels);
    assert_eq!(img.dimensions(), (3, 2));
    assert_eq!(img.pixel(0, 0), L(1));
    assert_eq!(img.pixel(2, 1), L(6));
}

#[test]
fn band_extracts_one_channel() {
    let mut img = Image::new(2, 2, Rgba::new(10, 20, 30, 40));
    img.set_pixel(1, 1, Rgba::new(1, 2, 3, 4));
    assert_eq!(img.band(0).pixel(0, 0), L(10));
    assert_eq!(img.band(1).pixel(0, 0), L(20));
    assert_eq!(img.band(2).pixel(0, 0), L(30));
    assert_eq!(img.band(3).pixel(0, 0), L(40));
    assert_eq!(img.band(3).pixel(1, 1), L(4));
}

#[test]
fn underlay_pixel_blends_behind() {
    let mut img = Image::new(1, 1, Rgba { r: 10, g: 20, b: 30, a: 100 });
    img.underlay_pixel(0, 0, Rgba { r: 200, g: 100, b: 50, a: 255 });
    let p = img.pixel(0, 0);
    // inv = 155; each channel is (dst_c * 100 + src_c * 155) / 255,
    // the alpha is 100 + 255 * 155 / 255.
    assert_eq!(p, Rgba { r: 125, g: 68, b: 42, a: 255 });
}

#[test]
fn underlay_keeps_opaque_content_and_shows_through_transparent() {
    let mut opaque = Image::new(1, 1, Rgba::new(1, 2, 3, 255));
    opaque.underlay_pixel(0, 0, Rgba::new(200, 200, 200, 200));
    assert_eq!(opaque.pixel(0, 0), Rgba::new(1, 2, 3, 255));

    let mut clear = Image::new(1, 1, Rgba::new(0, 0, 0, 0));
    clear.underlay_pixel(0, 0, Rgba::new(9, 8, 7, 6));
    assert_eq!(clear.pixel(0, 0), Rgba::new(9, 8, 7, 6));
}

#[test]
fn luma_pixel_algebra() {
    assert_eq!(L::default(), L(0));
    assert_eq!(L(0).complement(), L(255));
    assert_eq!(L(100).complement(), L(155));
    assert_eq!(L(7).max(L(9)), L(9));
    assert_eq!(L(7).min(L(9)), L(7));
    assert_eq!(L(255).scale(255), L(255));
    assert_eq!(L(255).scale(128), L(128));
    assert_eq!(L(100).scale(128), L(50));
    assert_eq!(L(100).scale(0), L(0));
}

#[test]
fn rgba_pixel_algebra_is_component_wise() {
    let a = Rgba::new(10, 200, 30, 40);
    let b = Rgba::new(20, 100, 30, 50);
    assert_eq!(a.max(b), Rgba::new(20, 200, 30, 50));
    assert_eq!(a.min(b), Rgba::new(10, 100, 30, 40));
    assert_eq!(Rgba::default(), Rgba::new(0, 0, 0, 0));
    assert_eq!(Rgba::default().complement(), Rgba::new(255, 255, 255, 255));
    assert_eq!(a.scale(255), a);
    assert_eq!(Rgba::new(255, 255, 255, 255).scale(77), Rgba::new(77, 77, 77, 77));
}

#[test]
fn bit_pixel_holds_occupancy() {
    assert_eq!(BitPixel(true), BitPixel(true));
    assert!(BitPixel(true) != BitPixel(false));
}
