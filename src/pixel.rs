//! Integer pixel boxes, as Pascal VOC writes them.
use vstd::prelude::*;

verus! {

/// A box in whole pixels, by its corners.
#[derive(Clone, Copy, PartialEq, Eq, Structural, Debug)]
pub struct PixelBox {
    pub xmin: i32,
    pub ymin: i32,
    pub xmax: i32,
    pub ymax: i32,
}

/// `v` moved into `[0, dim]`.
pub open spec fn clamped(v: int, dim: int) -> int {
    let low = if v < 0 { 0 } else { v };
    if low > dim { dim } else { low }
}

fn clamp_exec(v: i32, dim: i32) -> (r: i32)
    ensures
        r == clamped(v as int, dim as int),
{
    let low = if v < 0 { 0 } else { v };
    if low > dim { dim } else { low }
}

/// Clamps rounded corner coordinates into the image: each x into `[0, width]` and each y
/// into `[0, height]`.
pub fn clamp_pixel_box(xmin: i32, ymin: i32, xmax: i32, ymax: i32, width: i32, height: i32) -> (r: PixelBox)
    ensures
        r.xmin == clamped(xmin as int, width as int),
        r.ymin == clamped(ymin as int, height as int),
        r.xmax == clamped(xmax as int, width as int),
        r.ymax == clamped(ymax as int, height as int),
{
    PixelBox {
        xmin: clamp_exec(xmin, width),
        ymin: clamp_exec(ymin, height),
        xmax: clamp_exec(xmax, width),
        ymax: clamp_exec(ymax, height),
    }
}

/// A clamped box lies within an image of non-negative size, and coordinates already inside
/// the image are kept as they are.
pub proof fn lemma_clamped_box_in_image(xmin: int, ymin: int, xmax: int, ymax: int, width: int, height: int)
    requires
        width >= 0,
        height >= 0,
    ensures
        0 <= clamped(xmin, width) <= width,
        0 <= clamped(ymin, height) <= height,
        0 <= clamped(xmax, width) <= width,
        0 <= clamped(ymax, height) <= height,
        0 <= xmin <= width ==> clamped(xmin, width) == xmin,
        0 <= xmax <= width ==> clamped(xmax, width) == xmax,
        0 <= ymin <= height ==> clamped(ymin, height) == ymin,
        0 <= ymax <= height ==> clamped(ymax, height) == ymax,
{
}

} // verus!
