use mandelbrot::qimage::{QImage, QImageFormat};
use mandelbrot::text::push_decimal;

#[test]
fn null_image_is_refused() {
    let decoded = QImage::new("pixels", true, 0);
    assert!(QImage::from_data(decoded).is_none());
}

#[test]
fn decoded_image_is_kept() {
    let decoded = QImage::new(vec![1u8, 2, 3], false, 0x1234_0001);
    let image = QImage::from_data(decoded).expect("a decoded image");
    assert_eq!(image.image, vec![1u8, 2, 3]);
    assert_eq!(image.cache_key(), 0x1234_0001);
    assert!(!image.is_null());
}

#[test]
fn format_guessed_when_absent() {
    assert_eq!(QImage::<()>::data_format(None), "");
    assert_eq!(QImage::<()>::data_format(Some("PNG")), "PNG");
}

#[test]
fn cache_key_as_reported() {
    assert_eq!(QImage::new((), false, -7).cache_key(), -7);
}

#[test]
fn formats_are_distinct() {
    assert_ne!(QImageFormat::Format_RGB32, QImageFormat::Format_ARGB32);
    assert_eq!(QImageFormat::Format_Invalid, QImageFormat::Format_Invalid);
}

#[test]
fn decimal_text() {
    let mut text = String::from("n=");
    push_decimal(&mut text, 0);
    push_decimal(&mut text, 10);
    push_decimal(&mut text, 18446744073709551615);
    assert_eq!(text, "n=01018446744073709551615");
}
