//! Tests for dilation and erosion.

use morph::{Dilation, Erosion, Frac, Image, KernelImage, KernelShape, L};

fn luma(img: &Image<L>, x: u32, y: u32) -> u8 {
    img.get_pixel(x, y).unwrap().0
}

#[test]
fn dilating_a_single_point_reproduces_the_kernel_pattern() {
    // A single maximum pixel centered in a neutral field, grown by a cross:
    // the cross pattern appears around the point, full scale.
    let mut src = Image::new(5, 5, L(0));
    src.set_pixel(2, 2, L(255));
    let kernel = KernelImage::from_shape(KernelShape::Cross, 3, 3);
    let mut dest = Image::new(5, 5, L(0));
    Dilation::new(&src, &kernel).draw(&mut dest);
    for y in 0..5u32 {
        for x in 0..5u32 {
            let dx = (x as i32 - 2).abs();
            let dy = (y as i32 - 2).abs();
            let expected = if dx + dy <= 1 { 255 } else { 0 };
            assert_eq!(luma(&dest, x, y), expected, "at ({x}, {y})");
        }
    }
}

#[test]
fn dilating_a_point_with_a_weighted_kernel_scales_the_weights() {
    let mut src = Image::new(7, 7, L(0));
    src.set_pixel(3, 3, L(255));
    let kernel = KernelImage::from_shape(KernelShape::EllipseAa, 5, 5);
    let mut dest = Image::new(7, 7, L(0));
    Dilation::new(&src, &kernel).draw(&mut dest);
    // The kernel pattern reappears centered at the point.
    assert_eq!(luma(&dest, 3, 3), 255);
    assert_eq!(luma(&dest, 3, 1), 127);
    assert_eq!(luma(&dest, 1, 3), 127);
    assert_eq!(luma(&dest, 5, 3), 127);
    assert_eq!(luma(&dest, 3, 5), 127);
    assert_eq!(luma(&dest, 2, 1), 30);
    assert_eq!(luma(&dest, 1, 1), 0);
    assert_eq!(luma(&dest, 6, 6), 0);
}

#[test]
fn eroding_a_uniform_maximum_with_a_full_rect_kernel_is_identity() {
    let src = Image::new(5, 4, L(255));
    let kernel = KernelImage::from_shape(KernelShape::Rect, 3, 3);
    let mut dest = Image::new(5, 4, L(0));
    Erosion::new(&src, &kernel).draw(&mut dest);
    for y in 0..4u32 {
        for x in 0..5u32 {
            assert_eq!(luma(&dest, x, y), 255, "at ({x}, {y})");
        }
    }
}

#[test]
fn erosion_skips_zero_weight_taps() {
    // A dark corner pixel sits under a zero-weight kernel cell: it must not
    // force the minimum down.
    let mut src = Image::new(3, 3, L(255));
    src.set_pixel(0, 0, L(10));
    let kernel = KernelImage::from_shape(KernelShape::Cross, 3, 3);
    let mut dest = Image::new(3, 3, L(0));
    Erosion::new(&src, &kernel).draw(&mut dest);
    // At the center, the corner lies under the zero-weight cell (0, 0).
    assert_eq!(luma(&dest, 1, 1), 255);
    // At the corner itself, the dark pixel lies under the cross center.
    assert_eq!(luma(&dest, 0, 0), 10);
}

#[test]
fn erosion_skips_out_of_bounds_taps() {
    // Border pixels have kernel taps outside the source: those taps are
    // neutral and do not lower the minimum.
    let src = Image::new(3, 3, L(200));
    let kernel = KernelImage::from_shape(KernelShape::Rect, 3, 3);
    let mut dest = Image::new(3, 3, L(0));
    Erosion::new(&src, &kernel).draw(&mut dest);
    for y in 0..3u32 {
        for x in 0..3u32 {
            assert_eq!(luma(&dest, x, y), 200, "at ({x}, {y})");
        }
    }
}

#[test]
fn closing_never_shrinks_and_opening_never_grows() {
    // A binary square, closed and opened with a full 3x3 kernel.
    let mut src = Image::new(6, 6, L(0));
    for y in 2..4u32 {
        for x in 2..4u32 {
            src.set_pixel(x, y, L(255));
        }
    }
    let kernel = KernelImage::from_shape(KernelShape::Rect, 3, 3);

    let mut grown = Image::new(6, 6, L(0));
    Dilation::new(&src, &kernel).draw(&mut grown);
    let mut closed = Image::new(6, 6, L(0));
    Erosion::new(&grown, &kernel).draw(&mut closed);

    let mut shrunk = Image::new(6, 6, L(0));
    Erosion::new(&src, &kernel).draw(&mut shrunk);
    let mut opened = Image::new(6, 6, L(0));
    Dilation::new(&shrunk, &kernel).draw(&mut opened);

    for y in 0..6u32 {
        for x in 0..6u32 {
            assert!(luma(&closed, x, y) >= luma(&src, x, y), "closing at ({x}, {y})");
            assert!(luma(&opened, x, y) <= luma(&src, x, y), "opening at ({x}, {y})");
        }
    }
}

#[test]
fn dilation_with_position_offsets_the_destination_box() {
    let mut src = Image::new(2, 2, L(0));
    src.set_pixel(0, 0, L(255));
    let kernel = KernelImage::from_shape(KernelShape::Rect, 1, 1);
    let mut dest = Image::new(6, 6, L(7));
    Dilation::new(&src, &kernel).with_position(3, 2).draw(&mut dest);
    // The box [3, 5) x [2, 4) is painted, everything else untouched.
    assert_eq!(luma(&dest, 3, 2), 255);
    assert_eq!(luma(&dest, 4, 2), 0);
    assert_eq!(luma(&dest, 3, 3), 0);
    assert_eq!(luma(&dest, 4, 3), 0);
    assert_eq!(luma(&dest, 0, 0), 7);
    assert_eq!(luma(&dest, 5, 5), 7);
    assert_eq!(luma(&dest, 2, 2), 7);
}

#[test]
fn dilation_anchor_shifts_the_sampling() {
    // With a top-left anchor (0, 0), a 2x2 rect kernel reaches forward only:
    // the point spreads to smaller coordinates.
    let mut src = Image::new(4, 4, L(0));
    src.set_pixel(2, 2, L(255));
    let kernel = KernelImage::from_shape(KernelShape::Rect, 2, 2);
    let zero = Frac::new(0, 1);
    let mut dest = Image::new(4, 4, L(0));
    Dilation::new(&src, &kernel).with_anchor(zero, zero).draw(&mut dest);
    assert_eq!(luma(&dest, 2, 2), 255);
    assert_eq!(luma(&dest, 1, 1), 255);
    assert_eq!(luma(&dest, 1, 2), 255);
    assert_eq!(luma(&dest, 2, 1), 255);
    assert_eq!(luma(&dest, 3, 3), 0);
    assert_eq!(luma(&dest, 3, 2), 0);
}

#[test]
fn dilating_a_uniform_maximum_with_a_full_kernel_is_identity() {
    let src = Image::new(4, 3, L(255));
    let kernel = KernelImage::from_shape(KernelShape::Rect, 3, 3);
    let mut dest = Image::new(4, 3, L(0));
    Dilation::new(&src, &kernel).draw(&mut dest);
    for y in 0..3u32 {
        for x in 0..4u32 {
            assert_eq!(luma(&dest, x, y), 255);
        }
    }
}

#[test]
fn frac_builders() {
    let f = Frac::new(3, 4);
    assert_eq!(f.num, 3);
    assert_eq!(f.den, 4);
    let h = Frac::half();
    assert_eq!(h.num, 1);
    assert_eq!(h.den, 2);
}
