//! Tests for the structuring-element generators.

use morph::{isqrt, Image, KernelImage, KernelShape, L};

fn weights(k: &KernelImage) -> Vec<u8> {
    let (w, h) = k.dimensions();
    let mut out = Vec::new();
    for y in 0..h {
        for x in 0..w {
            out.push(k.pixel(x, y));
        }
    }
    out
}

#[test]
fn isqrt_small_values() {
    assert_eq!(isqrt(0), 0);
    assert_eq!(isqrt(1), 1);
    assert_eq!(isqrt(3), 1);
    assert_eq!(isqrt(4), 2);
    assert_eq!(isqrt(15), 3);
    assert_eq!(isqrt(16), 4);
    assert_eq!(isqrt(1_000_000), 1000);
    assert_eq!(isqrt(999_999), 999);
}

#[test]
fn new_kernel_is_all_zero() {
    let k = KernelImage::new(4, 3);
    assert_eq!(k.dimensions(), (4, 3));
    assert_eq!(weights(&k), vec![0; 12]);
}

#[test]
fn rect_kernel_three_by_three_has_nine_full_weights() {
    let k = KernelImage::from_shape(KernelShape::Rect, 3, 3);
    let w = weights(&k);
    assert_eq!(w.len(), 9);
    assert!(w.iter().all(|&v| v == 255));
}

#[test]
fn rect_kernel_any_size_all_full() {
    for &(w, h) in &[(1u32, 1u32), (2, 5), (7, 2), (6, 6)] {
        let k = KernelImage::from_shape(KernelShape::Rect, w, h);
        assert!(weights(&k).iter().all(|&v| v == 255));
        assert_eq!(weights(&k).len(), (w * h) as usize);
    }
}

#[test]
fn cross_kernel_pattern() {
    let k = KernelImage::from_shape(KernelShape::Cross, 5, 3);
    for y in 0..3u32 {
        for x in 0..5u32 {
            let expected = if x == 2 || y == 1 { 255 } else { 0 };
            assert_eq!(k.pixel(x, y), expected, "at ({x}, {y})");
        }
    }
}

#[test]
fn cross_kernel_even_dimensions() {
    let k = KernelImage::from_shape(KernelShape::Cross, 4, 4);
    for y in 0..4u32 {
        for x in 0..4u32 {
            let expected = if x == 2 || y == 2 { 255 } else { 0 };
            assert_eq!(k.pixel(x, y), expected, "at ({x}, {y})");
        }
    }
}

#[test]
fn ellipse_kernel_three_by_three_is_full() {
    let k = KernelImage::from_shape(KernelShape::Ellipse, 3, 3);
    assert_eq!(weights(&k), vec![255; 9]);
}

#[test]
fn ellipse_kernel_five_by_five() {
    let k = KernelImage::from_shape(KernelShape::Ellipse, 5, 5);
    let expected = vec![
        0, 255, 255, 255, 0,
        255, 255, 255, 255, 255,
        255, 255, 255, 255, 255,
        255, 255, 255, 255, 255,
        0, 255, 255, 255, 0,
    ];
    assert_eq!(weights(&k), expected);
}

#[test]
fn ellipse_aa_kernel_five_by_five() {
    let k = KernelImage::from_shape(KernelShape::EllipseAa, 5, 5);
    let expected = vec![
        0, 30, 127, 30, 0,
        30, 255, 255, 255, 30,
        127, 255, 255, 255, 127,
        30, 255, 255, 255, 30,
        0, 30, 127, 30, 0,
    ];
    assert_eq!(weights(&k), expected);
}

#[test]
fn ellipse_kernel_odd_dimensions_mirror_symmetric() {
    for &(w, h, shape) in &[
        (7u32, 5u32, KernelShape::Ellipse),
        (9, 9, KernelShape::Ellipse),
        (7, 5, KernelShape::EllipseAa),
        (9, 7, KernelShape::EllipseAa),
    ] {
        let k = KernelImage::from_shape(shape, w, h);
        for y in 0..h {
            for x in 0..w {
                assert_eq!(k.pixel(x, y), k.pixel(w - 1 - x, y), "x mirror at ({x}, {y})");
                assert_eq!(k.pixel(x, y), k.pixel(x, h - 1 - y), "y mirror at ({x}, {y})");
            }
        }
    }
}

#[test]
fn kernel_get_pixel_checks_bounds() {
    let k = KernelImage::from_shape(KernelShape::Rect, 3, 2);
    assert_eq!(k.get_pixel(2, 1), Some(255));
    assert_eq!(k.get_pixel(3, 0), None);
    assert_eq!(k.get_pixel(0, 2), None);
}

#[test]
fn pixel_mut_writes_one_cell() {
    let mut k = KernelImage::new(3, 3);
    *k.pixel_mut(1, 2) = 77;
    assert_eq!(k.pixel(1, 2), 77);
    assert_eq!(k.pixel(2, 1), 0);
    assert_eq!(k.pixel(1, 1), 0);
}

#[test]
fn kernel_into_luma_keeps_weights() {
    let k = KernelImage::from_shape(KernelShape::Cross, 3, 3);
    let img: Image<L> = k.into_luma();
    assert_eq!(img.dimensions(), (3, 3));
    assert_eq!(img.get_pixel(1, 0), Some(L(255)));
    assert_eq!(img.get_pixel(0, 0), Some(L(0)));
}

#[test]
fn kernel_into_mask_thresholds_at_zero() {
    let k = KernelImage::from_shape(KernelShape::EllipseAa, 5, 5);
    let img = k.into_mask();
    assert_eq!(img.dimensions(), (5, 5));
    assert_eq!(img.get_pixel(0, 0).map(|p| p.0), Some(false));
    assert_eq!(img.get_pixel(1, 0).map(|p| p.0), Some(true));
    assert_eq!(img.get_pixel(2, 2).map(|p| p.0), Some(true));
}
