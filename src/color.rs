use vstd::prelude::*;

verus! {

/// An RGBA pixel: red, green, blue, alpha.
pub type Rgba = (u8, u8, u8, u8);

/// The colour of an iteration count: interior points (those that reached the
/// cap) stay transparent black, escaping points get a wrapping colour band.
pub open spec fn pixel_spec(iter: u32, max_iter: u32) -> Rgba {
    if iter >= max_iter {
        (0u8, 0u8, 0u8, 0u8)
    } else {
        (
            ((2 * iter as int) % 256) as u8,
            ((5 * iter as int) % 256) as u8,
            ((3 * iter as int) % 256) as u8,
            255u8,
        )
    }
}

/// Maps an iteration count to its pixel. The channels wrap modulo 256.
pub fn to_pixel(iter: u32, max_iter: u32) -> (r: Rgba)
    ensures
        r == pixel_spec(iter, max_iter),
{
    if iter >= max_iter {
        (0, 0, 0, 0)
    } else {
        let r = (iter % 128) * 2;
        let g = ((iter % 256) * 5) % 256;
        let b = ((iter % 256) * 3) % 256;
        assert(((2 * iter as int) % 256) == r) by (nonlinear_arith)
            requires r == (iter % 128) * 2;
        assert(((5 * iter as int) % 256) == g) by (nonlinear_arith)
            requires g == ((iter % 256) * 5) % 256;
        assert(((3 * iter as int) % 256) == b) by (nonlinear_arith)
            requires b == ((iter % 256) * 3) % 256;
        (r as u8, g as u8, b as u8, 255)
    }
}

} // verus!
