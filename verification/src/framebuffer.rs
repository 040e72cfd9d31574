use vstd::prelude::*;

verus! {

/// Where pixel `(x, y)` sits in a row-major buffer of `width` by `height`
/// pixels: `y * width + x` for a point on the screen, nothing otherwise.
pub open spec fn spec_pixel_index(width: int, height: int, x: int, y: int) -> Option<int> {
    if 0 <= x < width && 0 <= y < height {
        Some(y * width + x)
    } else {
        None
    }
}

/// The buffer index of pixel `(x, y)`, or `None` for a point off the
/// screen, which drawing ignores.
pub fn pixel_index(width: usize, height: usize, x: usize, y: usize) -> (r: Option<usize>)
    requires
        width * height <= usize::MAX,
    ensures
        r matches Some(i) ==> Some(i as int) == spec_pixel_index(width as int, height as int, x as int, y as int),
        r is None ==> spec_pixel_index(width as int, height as int, x as int, y as int) is None,
        r matches Some(i) ==> i < width * height,
{
    if x < width && y < height {
        assert(y * width + x < width * height) by (nonlinear_arith)
            requires
                x < width,
                y < height,
        ;
        Some(y * width + x)
    } else {
        None
    }
}

} // verus!
