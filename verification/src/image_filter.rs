//! On-the-fly image filter settings and the content types they apply to.

use vstd::prelude::*;
use crate::text::{chars_of, chars_split, chars_trim, split, trim};

verus! {

#[derive(Debug, Clone, Copy)]
pub struct ResizeConfig {
    pub width: u32,
    pub height: u32,
    pub maintain_aspect: bool,
}

#[derive(Debug, Clone, Copy)]
pub struct CropConfig {
    pub width: u32,
    pub height: u32,
}

#[derive(Debug, Clone, Copy, PartialEq, Eq, Structural)]
pub enum Rotation {
    NoRotation,
    Clockwise90,
    Rotated180,
    CounterClockwise90,
}

impl Default for Rotation {
    fn default() -> (r: Self)
        ensures
            r == Rotation::NoRotation,
    {
        Rotation::NoRotation
    }
}

#[derive(Debug, Clone, Copy)]
pub struct ImageFilterConfig {
    pub resize: Option<ResizeConfig>,
    pub crop: Option<CropConfig>,
    pub rotate: Rotation,
    /// JPEG quality 1–100
    pub quality: u8,
}

/// The JPEG quality used when none is configured.
pub fn default_quality() -> (r: u8)
    ensures
        r == 85,
{
    85
}

impl Default for ImageFilterConfig {
    fn default() -> (r: Self)
        ensures
            r.resize is None,
            r.crop is None,
            r.rotate == Rotation::NoRotation,
            r.quality == 0,
    {
        Self { resize: None, crop: None, rotate: Rotation::NoRotation, quality: 0 }
    }
}

/// The media types the filter can process.
pub open spec fn is_image_type(t: Seq<char>) -> bool {
    ||| t == "image/jpeg"@
    ||| t == "image/png"@
    ||| t == "image/gif"@
    ||| t == "image/webp"@
    ||| t == "image/bmp"@
}

fn is_one_of_images(t: &[char]) -> (r: bool)
    ensures
        r == is_image_type(t@),
{
    let s = crate::text::string_of(t);
    crate::text::str_eq(s.as_str(), "image/jpeg") || crate::text::str_eq(s.as_str(), "image/png")
        || crate::text::str_eq(s.as_str(), "image/gif") || crate::text::str_eq(
        s.as_str(),
        "image/webp",
    ) || crate::text::str_eq(s.as_str(), "image/bmp")
}

/// Check if a content-type is an image type we can process: its media type
/// (the text before the first `;`, trimmed) is one of them.
pub fn is_image_content_type(content_type: &str) -> (r: bool)
    ensures
        r == is_image_type(trim(split(content_type@, ';')[0])),
{
    let cs = chars_of(content_type);
    let parts = chars_split(cs.as_slice(), ';');
    proof {
        crate::text::lemma_split_nonempty(content_type@, ';');
    }
    let t = chars_trim(parts[0].as_slice());
    is_one_of_images(t.as_slice())
}

} // verus!
