//! What the library knows of a Qt image: the formats Qt stores images in,
//! and an image as Qt handed it over, with what Qt reported of it.
use vstd::prelude::*;

verus! {

/// The formats in which Qt stores an image.
#[allow(non_camel_case_types)]
#[derive(PartialEq, Eq, Structural, Clone, Copy, Debug)]
pub enum QImageFormat {
    /// The image is invalid.
    Format_Invalid,
    /// 1 bit per pixel, bytes packed most significant bit first.
    Format_Mono,
    /// 1 bit per pixel, bytes packed least significant bit first.
    Format_MonoLSB,
    /// 8-bit indexes into a colormap.
    Format_Indexed8,
    /// 32-bit RGB (0xffRRGGBB).
    Format_RGB32,
    /// 32-bit ARGB (0xAARRGGBB).
    Format_ARGB32,
    /// Premultiplied 32-bit ARGB (0xAARRGGBB).
    Format_ARGB32_Premultiplied,
    /// 16-bit RGB (5-6-5).
    Format_RGB16,
    /// Premultiplied 24-bit ARGB (8-5-6-5).
    Format_ARGB8565_Premultiplied,
    /// 24-bit RGB (6-6-6), the unused most significant bits zero.
    Format_RGB666,
    /// Premultiplied 24-bit ARGB (6-6-6-6).
    Format_ARGB6666_Premultiplied,
    /// 16-bit RGB (5-5-5), the unused most significant bit zero.
    Format_RGB555,
    /// Premultiplied 24-bit ARGB (8-5-5-5).
    Format_ARGB8555_Premultiplied,
    /// 24-bit RGB (8-8-8).
    Format_RGB888,
    /// 16-bit RGB (4-4-4), the unused bits zero.
    Format_RGB444,
    /// Premultiplied 16-bit ARGB (4-4-4-4).
    Format_ARGB4444_Premultiplied,
    /// 32-bit byte-ordered RGB(x) (8-8-8-8), alpha always 255.
    Format_RGBX8888,
    /// 32-bit byte-ordered RGBA (8-8-8-8).
    Format_RGBA8888,
    /// Premultiplied 32-bit byte-ordered RGBA (8-8-8-8).
    Format_RGBA8888_Premultiplied,
    /// 32-bit BGR (x-10-10-10).
    Format_BGR30,
    /// Premultiplied 32-bit ABGR (2-10-10-10).
    Format_A2BGR30_Premultiplied,
    /// 32-bit RGB (x-10-10-10).
    Format_RGB30,
    /// Premultiplied 32-bit ARGB (2-10-10-10).
    Format_A2RGB30_Premultiplied,
    /// 8-bit alpha only.
    Format_Alpha8,
    /// 8-bit grayscale.
    Format_Grayscale8,
    /// 64-bit halfword-ordered RGB(x) (16-16-16-16), alpha always 65535.
    Format_RGBX64,
    /// 64-bit halfword-ordered RGBA (16-16-16-16).
    Format_RGBA64,
    /// Premultiplied 64-bit halfword-ordered RGBA (16-16-16-16).
    Format_RGBA64_Premultiplied,
    /// 16-bit grayscale.
    Format_Grayscale16,
    /// 24-bit BGR.
    Format_BGR888,
}

/// An image that Qt handed over, carried untouched, with what Qt reported of
/// it: whether it is null and its cache key.
pub struct QImage<I> {
    /// The image itself.
    pub image: I,
    /// Whether Qt reported the image null.
    pub null: bool,
    /// The cache key Qt reported for the image.
    pub key: i64,
}

impl<I> QImage<I> {
    /// An image together with Qt's report on it.
    pub fn new(image: I, null: bool, key: i64) -> (res: QImage<I>)
        ensures
            res.image == image,
            res.null == null,
            res.key == key,
    {
        QImage { image, null, key }
    }

    /// Whether the image is null.
    pub fn is_null(&self) -> (res: bool)
        ensures
            res == self.null,
    {
        self.null
    }

    /// The cache key that Qt reported for the image.
    pub fn cache_key(&self) -> (res: i64)
        ensures
            res == self.key,
    {
        self.key
    }

    /// The format name that Qt's decoder is given for raw image data: the one
    /// asked for, or the empty name, with which Qt guesses the format from
    /// the data's header.
    pub fn data_format<'a>(format: Option<&'a str>) -> (res: &'a str)
        ensures
            res@ == (match format {
                Some(f) => f@,
                None => Seq::<char>::empty(),
            }),
    {
        proof {
            reveal_strlit("");
        }
        match format {
            Some(f) => f,
            None => "",
        }
    }

    /// The image decoded from raw data, if Qt could decode it: `None` when
    /// the decoded image is null, else the decoded image itself.
    pub fn from_data(decoded: QImage<I>) -> (res: Option<QImage<I>>)
        ensures
            decoded.null ==> res is None,
            !decoded.null ==> res == Some(decoded),
    {
        if decoded.is_null() {
            None
        } else {
            Some(decoded)
        }
    }
}

} // verus!
