use vstd::prelude::*;

verus! {

/// Supersampling factor along each axis when antialiasing is on.
pub const SAMPLES: u16 = 2;

/// A point of the image plane as exact fractions over a common denominator:
/// `(u_num / den, v_num / den)`. `u` grows to the right, `v` upwards; the
/// plane spans `-1..1` vertically and keeps the image's aspect ratio.
#[derive(Clone, Copy, Debug, PartialEq, Eq, Structural)]
pub struct PlanePoint {
    pub u_num: i32,
    pub v_num: i32,
    pub den: u16,
}

/// Numerator over the image height of the horizontal plane coordinate of
/// column `x`: `(x / width * 2 - 1) * (width / height) == (2x - width) / height`.
pub open spec fn u_numerator(x: int, width: int) -> int {
    2 * x - width
}

/// Numerator over the image height of the vertical plane coordinate of
/// row `y`: `-(y / height * 2 - 1) == (height - 2y) / height`; row 0 is the top.
pub open spec fn v_numerator(y: int, height: int) -> int {
    height - 2 * y
}

/// Maps pixel `(x, y)` of an image of `size` (width, height) to the image
/// plane.
pub fn to_uv(x: u16, y: u16, size: (u16, u16)) -> (r: PlanePoint)
    requires
        size.1 > 0,
    ensures
        r.den == size.1,
        r.u_num == u_numerator(x as int, size.0 as int),
        r.v_num == v_numerator(y as int, size.1 as int),
{
    PlanePoint {
        u_num: 2 * (x as i32) - size.0 as i32,
        v_num: size.1 as i32 - 2 * (y as i32),
        den: size.1,
    }
}

/// Supersampling refines the plain sampling grid: sample `(2x + dx, 2y + dy)`
/// of an image twice as wide and high, over denominator `2 * height`, lies
/// at the point of plain pixel `(x, y)` over `height`, moved right by `dx`
/// and down by `dy` units of `1 / height`. The first sample of each block
/// is the plain pixel's own point.
pub proof fn lemma_supersample_refines(x: int, y: int, dx: int, dy: int, width: int, height: int)
    requires
        0 <= dx < SAMPLES,
        0 <= dy < SAMPLES,
    ensures
        u_numerator(SAMPLES * x + dx, SAMPLES * width) == SAMPLES * (u_numerator(x, width) + dx),
        v_numerator(SAMPLES * y + dy, SAMPLES * height) == SAMPLES * (v_numerator(y, height) - dy),
{
}

/// Size of the image that is actually traced: `size` itself, or `SAMPLES`
/// times larger along each axis when `multisample` is set.
pub fn render_size(size: (u16, u16), multisample: bool) -> (r: (u16, u16))
    requires
        multisample ==> size.0 * SAMPLES <= u16::MAX && size.1 * SAMPLES <= u16::MAX,
    ensures
        !multisample ==> r == size,
        multisample ==> r.0 == size.0 * SAMPLES && r.1 == size.1 * SAMPLES,
{
    if multisample {
        (size.0 * SAMPLES, size.1 * SAMPLES)
    } else {
        size
    }
}

} // verus!
