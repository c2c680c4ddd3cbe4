//! The thumbnail settings: the box a thumbnail is fitted into and the JPEG
//! quality it is written with. Decoding and scaling happen on floats in
//! the image crate, outside the library.

use vstd::prelude::*;

verus! {

/// How thumbnails are made: a target width, an optional target height and
/// the JPEG quality.
pub struct ThumbnailGenerator {
    pub width: u32,
    pub height: Option<u32>,
    pub quality: u8,
}

/// The height of the box for a width: one and a half times the width,
/// rounded down, at most `u32::MAX`.
pub open spec fn default_height(width: u32) -> int {
    let h = (width * 3) / 2;
    if h > u32::MAX {
        u32::MAX as int
    } else {
        h
    }
}

impl ThumbnailGenerator {
    /// A generator for `width` wide thumbnails of the given quality, the
    /// height following from the width.
    pub fn new(width: u32, quality: u8) -> (r: Self)
        ensures
            r.width == width,
            r.height is None,
            r.quality == quality,
    {
        ThumbnailGenerator { width, height: None, quality }
    }

    /// The box a thumbnail is fitted into: the width, and the height when
    /// one is set, else [`default_height`] of the width.
    pub fn target_box(&self) -> (r: (u32, u32))
        ensures
            r.0 == self.width,
            r.1 == match self.height {
                Some(h) => h as int,
                None => default_height(self.width),
            },
    {
        match self.height {
            Some(h) => (self.width, h),
            None => {
                let h: u64 = (self.width as u64) * 3 / 2;
                if h > 4294967295 {
                    (self.width, 4294967295)
                } else {
                    (self.width, h as u32)
                }
            },
        }
    }
}

impl Default for ThumbnailGenerator {
    /// 300 pixels wide, quality 88.
    fn default() -> (r: Self)
        ensures
            r.width == 300,
            r.height is None,
            r.quality == 88,
    {
        ThumbnailGenerator::new(300, 88)
    }
}

} // verus!
