//! Nearest-neighbour texture sampling.
use vstd::prelude::*;
use crate::bitmap::Bitmap;
use crate::target::Color;

verus! {

/// Texture coordinate `1.0` in fixed point.
pub const UV_ONE: i64 = 65536;

/// The texel that coordinate `u` falls in, along an axis of `n` texels:
/// `u` clamped to `[0, 1]`, scaled by `n`, rounded down, and kept below `n`.
pub open spec fn texel(u: int, n: int) -> int {
    let c = if u < 0 {
        0
    } else if u > UV_ONE {
        UV_ONE as int
    } else {
        u
    };
    let k = (c * n) / (UV_ONE as int);
    if k > n - 1 {
        n - 1
    } else {
        k
    }
}

fn texel_of(u: i64, n: usize) -> (r: usize)
    requires
        n > 0,
    ensures
        r == texel(u as int, n as int),
        r < n,
{
    let c: i64 = if u < 0 {
        0
    } else if u > UV_ONE {
        UV_ONE
    } else {
        u
    };
    proof {
        assert(0 <= c * n <= UV_ONE * n) by (nonlinear_arith)
            requires
                0 <= c <= UV_ONE,
                n > 0,
        ;
        assert(UV_ONE * n <= 0x1_0000 * 0xffff_ffff_ffff_ffff) by (nonlinear_arith)
            requires
                n <= 0xffff_ffff_ffff_ffff,
        ;
        crate::vertex::lemma_scaled_between(c * n, 1, UV_ONE as int);
        assert((c * n) * 1 == c * n);
    }
    let k: u128 = (c as u128 * n as u128) / (UV_ONE as u128);
    if k > (n - 1) as u128 {
        n - 1
    } else {
        k as usize
    }
}

/// The colour of the texel that `(u, v)` falls in, each coordinate
/// clamped to `[0, 1]` (in units of `UV_ONE`).
pub fn sample_texture(texture: &Bitmap, u: i64, v: i64) -> (c: Color)
    requires
        texture.wf(),
        texture.width_spec() > 0,
        texture.height_spec() > 0,
    ensures
        c == texture.at(
            texel(u as int, texture.width_spec() as int),
            texel(v as int, texture.height_spec() as int),
        ),
{
    let x = texel_of(u, texture.width());
    let y = texel_of(v, texture.height());
    texture.data_at(x, y)
}

} // verus!
