//! Tests for the codec configuration and the layout anchors.

use morph::{
    AdaptiveFilterType, Compression, FilterType, HorizontalAnchor, PngDecoder, PngEncoder,
    VerticalAnchor,
};

#[test]
fn png_encoder_defaults() {
    let e = PngEncoder::new();
    assert_eq!(e.adaptive_filter, AdaptiveFilterType::NonAdaptive);
    assert_eq!(e.filter, FilterType::NoFilter);
    assert_eq!(e.compression, Compression::Default);
}

#[test]
fn png_encoder_builders_set_one_field_each() {
    let e = PngEncoder::new()
        .with_adaptive_filter(AdaptiveFilterType::Adaptive)
        .with_filter(FilterType::Paeth)
        .with_compression(Compression::Best);
    assert_eq!(e.adaptive_filter, AdaptiveFilterType::Adaptive);
    assert_eq!(e.filter, FilterType::Paeth);
    assert_eq!(e.compression, Compression::Best);

    let f = PngEncoder::new().with_filter(FilterType::Up);
    assert_eq!(f.adaptive_filter, AdaptiveFilterType::NonAdaptive);
    assert_eq!(f.filter, FilterType::Up);
    assert_eq!(f.compression, Compression::Default);
}

#[test]
fn png_decoder_constructs() {
    let _d = PngDecoder::new();
}

#[test]
fn anchor_defaults() {
    assert_eq!(HorizontalAnchor::default(), HorizontalAnchor::Left);
    assert_eq!(VerticalAnchor::default(), VerticalAnchor::Top);
}
