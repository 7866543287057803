//! Tests for the stroke/outline operator.

use morph::{Image, Rgba, Stroke};

fn transparent() -> Rgba {
    Rgba::new(0, 0, 0, 0)
}

fn opaque_white() -> Rgba {
    Rgba::new(255, 255, 255, 255)
}

/// A 10x10 transparent image holding a fully opaque 4x4 square at rows and
/// columns 3 through 6.
fn square_image() -> Image<Rgba> {
    let mut img = Image::new(10, 10, transparent());
    for y in 3..7u32 {
        for x in 3..7u32 {
            img.set_pixel(x, y, opaque_white());
        }
    }
    img
}

#[test]
fn stroke_new_clamps_size_and_extracts_alpha() {
    let img = square_image();
    let s = Stroke::new(&img, 0, Rgba::new(255, 0, 0, 255));
    assert_eq!(s.size, 1);
    assert_eq!(s.threshold, 0);
    assert_eq!(s.alpha.get_pixel(4, 4).unwrap().0, 255);
    assert_eq!(s.alpha.get_pixel(0, 0).unwrap().0, 0);
    let s2 = Stroke::new(&img, 3, Rgba::new(255, 0, 0, 255));
    assert_eq!(s2.size, 3);
}

#[test]
fn stroke_with_threshold_sets_threshold() {
    let img = square_image();
    let s = Stroke::new(&img, 3, Rgba::new(1, 2, 3, 4)).with_threshold(128);
    assert_eq!(s.threshold, 128);
    assert_eq!(s.size, 3);
    assert_eq!(s.color, Rgba::new(1, 2, 3, 4));
}

#[test]
fn stroke_covers_two_pixels_beyond_the_square_and_no_more() {
    // A 4x4 fully opaque square, stroke size 3, threshold 0: the stroke
    // shows non-zero coverage up to 2 pixels beyond the square's boundary in
    // every axis direction, and zero coverage strictly outside that margin.
    let img = square_image();
    let stroke = Stroke::new(&img, 3, Rgba::new(255, 0, 0, 255));
    let mut dest = Image::new(10, 10, transparent());
    stroke.draw(&mut dest);
    // Composited onto a fully transparent destination, the written alpha is
    // exactly the coverage.
    let cov = |x: u32, y: u32| dest.get_pixel(x, y).unwrap().a;
    // Two pixels beyond each edge, along the axes through the square.
    for t in 3..7u32 {
        assert!(cov(1, t) > 0, "left margin at row {t}");
        assert!(cov(2, t) > 0, "left margin at row {t}");
        assert!(cov(8, t) > 0, "right margin at row {t}");
        assert!(cov(t, 1) > 0, "top margin at col {t}");
        assert!(cov(t, 8) > 0, "bottom margin at col {t}");
    }
    // Inside the square the coverage is full.
    assert_eq!(cov(4, 4), 255);
    assert_eq!(cov(3, 3), 255);
    // Strictly outside the 2-pixel margin the coverage is zero.
    for t in 0..10u32 {
        assert_eq!(cov(0, t), 0, "outside left at row {t}");
        assert_eq!(cov(9, t), 0, "outside right at row {t}");
        assert_eq!(cov(t, 0), 0, "outside top at col {t}");
        assert_eq!(cov(t, 9), 0, "outside bottom at col {t}");
    }
}

#[test]
fn stroke_paints_behind_existing_content() {
    // Where the destination is already fully opaque, the stroke is invisible.
    let img = square_image();
    let stroke = Stroke::new(&img, 3, Rgba::new(0, 255, 0, 255));
    let mut dest = Image::new(10, 10, transparent());
    for y in 3..7u32 {
        for x in 3..7u32 {
            dest.set_pixel(x, y, opaque_white());
        }
    }
    stroke.draw(&mut dest);
    // The opaque square keeps its color.
    assert_eq!(dest.get_pixel(4, 4), Some(opaque_white()));
    // The margin takes the stroke color.
    let p = dest.get_pixel(2, 4).unwrap();
    assert_eq!((p.r, p.g, p.b), (0, 255, 0));
    assert!(p.a > 0);
}

#[test]
fn stroke_threshold_binarizes_the_alpha() {
    let mut img = Image::new(7, 7, transparent());
    img.set_pixel(3, 3, Rgba::new(255, 255, 255, 100));
    let color = Rgba::new(255, 0, 0, 255);
    // Threshold at the sample value: the pixel is not occupied, no stroke.
    let mut dest_high = Image::new(7, 7, transparent());
    Stroke::new(&img, 2, color).with_threshold(100).draw(&mut dest_high);
    for y in 0..7u32 {
        for x in 0..7u32 {
            assert_eq!(dest_high.get_pixel(x, y).unwrap().a, 0);
        }
    }
    // Threshold below the sample value: the pixel is occupied, full-scale.
    let mut dest_low = Image::new(7, 7, transparent());
    Stroke::new(&img, 2, color).with_threshold(99).draw(&mut dest_low);
    assert_eq!(dest_low.get_pixel(3, 3).unwrap().a, 255);
    assert!(dest_low.get_pixel(2, 3).unwrap().a > 0);
}
