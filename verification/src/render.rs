use vstd::prelude::*;

verus! {

/// Bytes per pixel in the image buffer: red, green, blue.
pub const BYTES_PER_PIXEL: usize = 3;

/// The column of the pixel whose three bytes are the `idx`-th of the buffer.
pub open spec fn column_of(idx: nat, width: nat) -> nat
    recommends
        width > 0,
{
    idx % width
}

/// The row of that pixel, counted from the bottom: the top row is `height`.
pub open spec fn row_of(idx: nat, width: nat, height: nat) -> int
    recommends
        width > 0,
{
    height - idx / width
}

/// The length of the buffer of an image of `width` by `height`; `None` if
/// that is more than a `usize` holds.
pub fn buffer_len(width: u32, height: u32) -> (len: Option<usize>)
    ensures
        len.is_some() <==> width * height * 3 <= usize::MAX,
        len matches Some(n) ==> n == width * height * 3,
{
    assert(width * height <= 0xffff_ffff * 0xffff_ffff) by (nonlinear_arith)
        requires
            width <= 0xffff_ffff,
            height <= 0xffff_ffff,
    ;
    let need: u128 = (width as u128) * (height as u128) * 3;
    if need > usize::MAX as u128 {
        None
    } else {
        Some(need as usize)
    }
}

/// Where the pixel stands whose bytes are the `idx`-th three of the buffer:
/// its column from the left, and its row from the bottom.
pub fn pixel_of(idx: usize, width: u32, height: u32) -> (at: (usize, usize))
    requires
        width > 0,
        idx < width * height,
    ensures
        at.0 == column_of(idx as nat, width as nat),
        at.1 == row_of(idx as nat, width as nat, height as nat),
        at.0 < width,
        1 <= at.1 <= height,
        idx == (height - at.1) * width + at.0,
{
    let w: usize = width as usize;
    let row_from_top: usize = idx / w;
    let x: usize = idx % w;
    proof {
        lemma_row_below_height(idx as nat, width as nat, height as nat);
        assert(idx == (idx / w) * w + idx % w) by (nonlinear_arith)
            requires
                w > 0,
        ;
    }
    let y: usize = height as usize - row_from_top;
    (x, y)
}

/// The pixels of an image fill rows below its height.
pub proof fn lemma_row_below_height(idx: nat, width: nat, height: nat)
    requires
        width > 0,
        idx < width * height,
    ensures
        idx / width < height,
{
    assert(idx / width < height) by (nonlinear_arith)
        requires
            width > 0,
            idx < width * height,
    ;
}

/// Two pixels do not share a byte: their places in the buffer are three
/// bytes apart at least.
pub proof fn lemma_pixels_apart(idx: nat, other: nat)
    requires
        idx < other,
    ensures
        idx * 3 + 3 <= other * 3,
{
}

} // verus!
