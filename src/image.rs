//! Pixel data in CPU memory.
use vstd::prelude::*;

verus! {

/// Byte layout of a pixel.
#[derive(Debug, Clone, Copy, PartialEq, Eq, Structural)]
pub enum ImageFormat {
    RGBA8888,
    BGRA8888,
    RGBX8888,
}

/// Size and layout of an image.
#[derive(Debug, Clone, Copy, PartialEq, Eq, Structural)]
pub struct ImageInfo {
    pub width: u32,
    pub height: u32,
    pub format: ImageFormat,
    pub premultiplied: bool,
}

/// An immutable image held in CPU memory.
#[derive(Debug, Clone)]
pub struct Bitmap {
    pub data: Vec<u8>,
    pub info: ImageInfo,
    pub bytes_per_row: u32,
}

impl Bitmap {
    /// A bitmap over `data`; without an explicit row stride, rows are packed
    /// at four bytes per pixel.
    pub fn new(info: ImageInfo, data: Vec<u8>, bytes_per_row: Option<u32>) -> (r: Self)
        requires
            bytes_per_row is Some || info.width * 4 <= u32::MAX,
        ensures
            r.info == info,
            r.data@ == data@,
            r.bytes_per_row == match bytes_per_row {
                Some(b) => b as int,
                None => info.width * 4,
            },
    {
        let bytes_per_row = match bytes_per_row {
            Some(b) => b,
            None => info.width * 4,
        };
        Self { data, info, bytes_per_row }
    }
}

} // verus!
