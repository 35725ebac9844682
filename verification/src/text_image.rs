//! The size of the picture a line of text is drawn into: the text's width
//! rounded up to a whole number of bytes of pixels (a multiple of eight), and
//! its height.
use vstd::prelude::*;

verus! {

/// The width of the picture for text `text_width` pixels wide: the least
/// multiple of eight that is not narrower.
pub open spec fn padded(text_width: int, width: int) -> bool {
    width % 8 == 0 && text_width <= width < text_width + 8
}

/// The picture's width and height for text of the given size. The size is
/// not negative, and the padded width still fits an `i32`.
pub fn image_size(text_width: i32, text_height: i32) -> (size: (u32, u32))
    requires
        0 <= text_width,
        0 <= text_height,
        text_width % 8 == 0 || text_width + (8 - text_width % 8) <= i32::MAX,
    ensures
        padded(text_width as int, size.0 as int),
        size.1 == text_height,
{
    let mut w = text_width;
    if w % 8 != 0 {
        w += 8 - (w % 8);
    }
    (w as u32, text_height as u32)
}

} // verus!
