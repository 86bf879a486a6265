//! The decision logic of a Mandelbrot renderer that hands its images to Qt.
//!
//! The floating-point iteration itself, the threads and the Qt objects live
//! outside this crate; what stands here is every integer decision that the
//! renderer takes around them: the pass schedule and its iteration budgets,
//! the colour of each point, the single start of the render thread, the
//! packing of colour channels into a `QRgb`,
//! the text attached to each published image, and the acceptance of an image
//! that Qt decoded.
use vstd::prelude::*;

pub mod qimage;
pub mod render;
pub mod text;
