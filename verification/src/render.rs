//! Integer scan conversion for the primitive passes: texel sampling with
//! modular wrap, the sky half of the background pass, one perspective wall
//! column, a billboard sprite square, and the scanline spans of a floor
//! polygon.

use crate::buffer::Buffer;
use crate::util::FOG_ONE;
use crate::util::clamp_spec;
use crate::util::mix_spec;
use crate::util::mul_spec;
use vstd::prelude::*;

verus! {

/// The three bytes of the texel at wrapped coordinates `(tx % 16, ty % 16)`
/// of a 16 by 16 RGB texture stored as one flat byte row per texel row.
pub open spec fn texel_spec(t: Seq<u8>, tx: int, ty: int) -> Seq<u8>
    recommends
        t.len() >= 768,
        tx >= 0,
        ty >= 0,
{
    seq![
        t[((ty % 16) * 16 + (tx % 16)) * 3],
        t[((ty % 16) * 16 + (tx % 16)) * 3 + 1],
        t[((ty % 16) * 16 + (tx % 16)) * 3 + 2],
    ]
}

/// The color a primitive pass writes: the texel tinted by the primitive's
/// flat color, then mixed toward the fog color by the fixed-point weight `k`.
pub open spec fn shade_spec(texel: Seq<u8>, tint: Seq<u8>, ambient: Seq<u8>, k: int) -> Seq<u8>
    recommends
        texel.len() == 3,
        tint.len() == 3,
        ambient.len() == 3,
        0 <= k <= FOG_ONE,
{
    mix_spec(mul_spec(texel, tint), ambient, k)
}

/// Nearest-neighbor texel fetch with wrapping texture coordinates.
pub fn sample(tex: &Vec<u8>, tx: usize, ty: usize) -> (r: [u8; 3])
    requires
        tex@.len() >= 768,
    ensures
        r@ == texel_spec(tex@, tx as int, ty as int),
{
    let base = ((ty % 16) * 16 + (tx % 16)) * 3;
    let r = [tex[base], tex[base + 1], tex[base + 2]];
    proof {
        assert(r@ =~= texel_spec(tex@, tx as int, ty as int));
    }
    r
}

/// `n` is a power of two.
pub open spec fn is_pow2(n: int) -> bool
    decreases n,
{
    if n <= 0 {
        false
    } else if n == 1 {
        true
    } else {
        n % 2 == 0 && is_pow2(n / 2)
    }
}

/// The least power of two that is at least `n`: the side of the padded
/// framebuffer allocated for a requested render resolution.
#[verifier::loop_isolation(false)]
pub fn next_pow2(n: usize) -> (r: usize)
    requires
        1 <= n <= 0x1000_0000,
    ensures
        is_pow2(r as int),
        n <= r,
        r < 2 * n,
{
    let mut p: usize = 1;
    while p < n
        invariant
            is_pow2(p as int),
            1 <= p,
            p < 2 * n,
        decreases 2 * n - p,
    {
        p = p * 2;
    }
    p
}

/// The larger of two integers.
pub open spec fn imax(a: int, b: int) -> int {
    if a < b {
        b
    } else {
        a
    }
}

/// The smaller of two integers.
pub open spec fn imin(a: int, b: int) -> int {
    if a < b {
        a
    } else {
        b
    }
}

/// Pixel `(i, j)` has the same color and depth in both buffers.
pub open spec fn cell_same(b0: Buffer, b1: Buffer, i: int, j: int) -> bool {
    b1.pixel_at(i, j) == b0.pixel_at(i, j) && b1.depth_at(i, j) == b0.depth_at(i, j)
}

/// The sky half of the background pass: every pixel in the upper half of the
/// screen takes the ambient color unconditionally, with no depth write.
#[verifier::loop_isolation(false)]
pub fn background_sky(buf: &mut Buffer, ambient: &[u8; 3], width: usize, height: usize)
    requires
        old(buf).wf(),
        width <= old(buf).width,
        height <= old(buf).height,
    ensures
        final(buf).wf(),
        final(buf).width == old(buf).width,
        final(buf).height == old(buf).height,
        final(buf).zbuffer@ == old(buf).zbuffer@,
        forall|i: int, j: int|
            0 <= i < width && 0 <= j < height / 2 ==> final(buf).pixel_at(i, j) == ambient@,
        forall|i: int, j: int|
            0 <= i < old(buf).width && 0 <= j < old(buf).height && !(0 <= i < width && 0 <= j
                < height / 2) ==> final(buf).pixel_at(i, j) == old(buf).pixel_at(i, j),
{
    let half = height / 2;
    let mut sx: usize = 0;
    while sx < width
        invariant
            sx <= width,
            buf.wf(),
            buf.width == old(buf).width,
            buf.height == old(buf).height,
            buf.zbuffer@ == old(buf).zbuffer@,
            forall|i: int, j: int|
                0 <= i < sx && 0 <= j < half ==> buf.pixel_at(i, j) == ambient@,
            forall|i: int, j: int|
                0 <= i < old(buf).width && 0 <= j < old(buf).height && !(0 <= i < sx && 0 <= j
                    < half) ==> buf.pixel_at(i, j) == old(buf).pixel_at(i, j),
        decreases width - sx,
    {
        let mut sy: usize = 0;
        while sy < half
            invariant
                sx < width,
                sy <= half,
                buf.wf(),
                buf.width == old(buf).width,
                buf.height == old(buf).height,
                buf.zbuffer@ == old(buf).zbuffer@,
                forall|i: int, j: int|
                    0 <= i < sx && 0 <= j < half ==> buf.pixel_at(i, j) == ambient@,
                forall|j: int| 0 <= j < sy ==> buf.pixel_at(sx as int, j) == ambient@,
                forall|i: int, j: int|
                    0 <= i < old(buf).width && 0 <= j < old(buf).height && !(0 <= i < sx && 0 <= j
                        < half) && !(i == sx && 0 <= j < sy) ==> buf.pixel_at(i, j) == old(
                        buf,
                    ).pixel_at(i, j),
            decreases half - sy,
        {
            buf.set_pixel(sx, sy, *ambient);
            sy = sy + 1;
        }
        sx = sx + 1;
    }
}

/// Wrapped vertical texture coordinate at screen row `yy` of a wall column
/// spanning rows `sy1..sy2`, where `h32` is the wall height in units of one
/// thirty-second of a texture tile.
pub open spec fn wall_ty(sy1: int, sy2: int, h32: int, yy: int) -> int
    recommends
        sy1 <= yy < sy2,
{
    ((yy - sy1) * h32 / (sy2 - sy1)) % 16
}

/// One pixel of a wall column after the pass: overwritten with the shaded
/// texel at depth `z` exactly when `z` was strictly nearer than the stored
/// depth, otherwise untouched.
pub open spec fn wall_cell_done(
    b0: Buffer,
    b1: Buffer,
    tex: Seq<u8>,
    tint: Seq<u8>,
    ambient: Seq<u8>,
    x: int,
    sy1: int,
    sy2: int,
    tx: int,
    h32: int,
    z: u32,
    k: int,
    j: int,
) -> bool {
    if z < b0.depth_at(x, j) {
        b1.pixel_at(x, j) == shade_spec(
            texel_spec(tex, tx, wall_ty(sy1, sy2, h32, j)),
            tint,
            ambient,
            k,
        ) && b1.depth_at(x, j) == z
    } else {
        cell_same(b0, b1, x, j)
    }
}

/// One screen column of a wall: rows `max(sy1, 0)` up to (excluding)
/// `min(sy2, height - 1)` are depth-tested against the column's view depth
/// `z` and, where nearer, take the tinted, fog-mixed wall texel; every other
/// pixel of the buffer is untouched.
#[verifier::loop_isolation(false)]
pub fn wall_column(
    buf: &mut Buffer,
    tex: &Vec<u8>,
    tint: &[u8; 3],
    ambient: &[u8; 3],
    width: usize,
    height: usize,
    x: usize,
    sy1: i64,
    sy2: i64,
    tx: usize,
    h32: u32,
    z: u32,
    k: u32,
)
    requires
        old(buf).wf(),
        width <= old(buf).width,
        height <= old(buf).height,
        1 <= height <= 0x4000_0000,
        x < width,
        tex@.len() >= 768,
        k <= FOG_ONE,
        sy1 <= sy2,
        -0x4000_0000 <= sy1,
        sy2 <= 0x4000_0000,
        h32 <= 0x10_0000,
    ensures
        final(buf).wf(),
        final(buf).width == old(buf).width,
        final(buf).height == old(buf).height,
        forall|j: int|
            imax(sy1 as int, 0) <= j < imin(sy2 as int, height - 1) ==> wall_cell_done(
                *old(buf),
                *final(buf),
                tex@,
                tint@,
                ambient@,
                x as int,
                sy1 as int,
                sy2 as int,
                tx as int,
                h32 as int,
                z,
                k as int,
                j,
            ),
        forall|i: int, j: int|
            0 <= i < old(buf).width && 0 <= j < old(buf).height && !(i == x && imax(sy1 as int, 0)
                <= j < imin(sy2 as int, height - 1)) ==> cell_same(*old(buf), *final(buf), i, j),
{
    let hm1 = (height - 1) as i64;
    let ymin: i64 = if sy1 > 0 {
        sy1
    } else {
        0
    };
    let ymax: i64 = if sy2 < hm1 {
        sy2
    } else {
        hm1
    };
    let mut yy = ymin;
    while yy < ymax
        invariant
            ymin <= yy,
            yy <= (if ymin < ymax {
                ymax
            } else {
                ymin
            }),
            buf.wf(),
            buf.width == old(buf).width,
            buf.height == old(buf).height,
            forall|j: int|
                ymin <= j < yy ==> wall_cell_done(
                    *old(buf),
                    *buf,
                    tex@,
                    tint@,
                    ambient@,
                    x as int,
                    sy1 as int,
                    sy2 as int,
                    tx as int,
                    h32 as int,
                    z,
                    k as int,
                    j,
                ),
            forall|i: int, j: int|
                0 <= i < old(buf).width && 0 <= j < old(buf).height && !(i == x && ymin <= j < yy)
                    ==> cell_same(*old(buf), *buf, i, j),
        decreases ymax - yy,
    {
        let dy = (yy - sy1) as u64;
        let den = (sy2 - sy1) as u64;
        proof {
            assert(dy * (h32 as u64) <= 0x8000_0000u64 * 0x10_0000u64) by (nonlinear_arith)
                requires
                    dy <= 0x8000_0000u64,
                    h32 <= 0x10_0000,
            ;
        }
        let tyv = ((dy * (h32 as u64) / den) % 16) as usize;
        proof {
            assert(tyv == wall_ty(sy1 as int, sy2 as int, h32 as int, yy as int));
        }
        let texel = sample(tex, tx, tyv);
        let tinted = crate::util::color_mul(&texel, tint);
        let color = crate::util::color_mix(&tinted, ambient, k);
        let ghost b_prev = *buf;
        buf.plot(x, yy as usize, z, color);
        proof {
            let w0 = old(buf).width as int;
            let h0 = old(buf).height as int;
            assert(cell_same(*old(buf), b_prev, x as int, yy as int));
            assert(wall_cell_done(
                *old(buf),
                *buf,
                tex@,
                tint@,
                ambient@,
                x as int,
                sy1 as int,
                sy2 as int,
                tx as int,
                h32 as int,
                z,
                k as int,
                yy as int,
            ));
            assert forall|j: int| ymin <= j < yy + 1 implies wall_cell_done(
                *old(buf),
                *buf,
                tex@,
                tint@,
                ambient@,
                x as int,
                sy1 as int,
                sy2 as int,
                tx as int,
                h32 as int,
                z,
                k as int,
                j,
            ) by {
                if j < yy {
                    assert(wall_cell_done(
                        *old(buf),
                        b_prev,
                        tex@,
                        tint@,
                        ambient@,
                        x as int,
                        sy1 as int,
                        sy2 as int,
                        tx as int,
                        h32 as int,
                        z,
                        k as int,
                        j,
                    ));
                    assert(cell_same(b_prev, *buf, x as int, j));
                }
            }
            assert forall|i: int, j: int|
                0 <= i < w0 && 0 <= j < h0 && !(i == x && ymin <= j < yy + 1) implies cell_same(
                *old(buf),
                *buf,
                i,
                j,
            ) by {
                assert(cell_same(*old(buf), b_prev, i, j));
                assert(cell_same(b_prev, *buf, i, j));
            }
        }
        yy = yy + 1;
    }
}

/// A fully transparent texel: exact black is skipped by the sprite pass.
pub open spec fn black() -> Seq<u8> {
    seq![0u8, 0u8, 0u8]
}

/// Billboard texture coordinate for screen coordinate `c` against a square
/// centered at `s` with side length `sw`.
pub open spec fn sprite_tc(s: int, sw: int, c: int) -> int
    recommends
        sw > 0,
{
    ((c - s + sw / 2) * 16 / sw) % 16
}

/// One pixel of a sprite square after the pass: untouched when its texel is
/// exact black or the stored depth is nearer, otherwise overwritten with the
/// shaded texel at depth `z`.
pub open spec fn sprite_cell_done(
    b0: Buffer,
    b1: Buffer,
    tex: Seq<u8>,
    tint: Seq<u8>,
    ambient: Seq<u8>,
    sx: int,
    sy: int,
    sw: int,
    z: u32,
    k: int,
    i: int,
    j: int,
) -> bool {
    let texel = texel_spec(tex, sprite_tc(sx, sw, i), sprite_tc(sy, sw, j));
    if texel == black() {
        cell_same(b0, b1, i, j)
    } else if z < b0.depth_at(i, j) {
        b1.pixel_at(i, j) == shade_spec(texel, tint, ambient, k) && b1.depth_at(i, j) == z
    } else {
        cell_same(b0, b1, i, j)
    }
}

/// A camera-facing sprite square centered at screen point `(sx, sy)` with
/// side length `sw`: every pixel of the square, clamped to the screen,
/// samples the sprite texture, skips exact-black texels as transparent, and
/// otherwise depth-tests against `z` and takes the tinted, fog-mixed texel
/// where nearer. Every pixel outside the clamped square is untouched.
#[verifier::loop_isolation(false)]
pub fn sprite_square(
    buf: &mut Buffer,
    tex: &Vec<u8>,
    tint: &[u8; 3],
    ambient: &[u8; 3],
    width: usize,
    height: usize,
    sx: i64,
    sy: i64,
    sw: i64,
    z: u32,
    k: u32,
)
    requires
        old(buf).wf(),
        width <= old(buf).width,
        height <= old(buf).height,
        1 <= width <= 0x4000_0000,
        1 <= height <= 0x4000_0000,
        tex@.len() >= 768,
        k <= FOG_ONE,
        0 <= sw <= 0x8000_0000,
        -0x8000_0000 <= sx <= 0x8000_0000,
        -0x8000_0000 <= sy <= 0x8000_0000,
    ensures
        final(buf).wf(),
        final(buf).width == old(buf).width,
        final(buf).height == old(buf).height,
        forall|i: int, j: int|
            clamp_spec(sx - sw / 2, 0, width - 1) <= i < clamp_spec(sx + sw / 2, 0, width - 1)
                && clamp_spec(sy - sw / 2, 0, height - 1) <= j < clamp_spec(
                sy + sw / 2,
                0,
                height - 1,
            ) ==> sprite_cell_done(
                *old(buf),
                *final(buf),
                tex@,
                tint@,
                ambient@,
                sx as int,
                sy as int,
                sw as int,
                z,
                k as int,
                i,
                j,
            ),
        forall|i: int, j: int|
            0 <= i < old(buf).width && 0 <= j < old(buf).height && !(clamp_spec(
                sx - sw / 2,
                0,
                width - 1,
            ) <= i < clamp_spec(sx + sw / 2, 0, width - 1) && clamp_spec(sy - sw / 2, 0, height - 1)
                <= j < clamp_spec(sy + sw / 2, 0, height - 1)) ==> cell_same(
                *old(buf),
                *final(buf),
                i,
                j,
            ),
{
    let wm1 = (width - 1) as i64;
    let hm1 = (height - 1) as i64;
    let half = ((sw as u64) / 2) as i64;
    let sx1 = crate::util::clamp(sx - half, 0, wm1);
    let sx2 = crate::util::clamp(sx + half, 0, wm1);
    let sy1 = crate::util::clamp(sy - half, 0, hm1);
    let sy2 = crate::util::clamp(sy + half, 0, hm1);
    let mut xx = sx1;
    while xx < sx2
        invariant
            sx1 <= xx,
            xx <= (if sx1 < sx2 {
                sx2
            } else {
                sx1
            }),
            buf.wf(),
            buf.width == old(buf).width,
            buf.height == old(buf).height,
            forall|i: int, j: int|
                sx1 <= i < xx && sy1 <= j < sy2 ==> sprite_cell_done(
                    *old(buf),
                    *buf,
                    tex@,
                    tint@,
                    ambient@,
                    sx as int,
                    sy as int,
                    sw as int,
                    z,
                    k as int,
                    i,
                    j,
                ),
            forall|i: int, j: int|
                0 <= i < old(buf).width && 0 <= j < old(buf).height && !(sx1 <= i < xx && sy1 <= j
                    < sy2) ==> cell_same(*old(buf), *buf, i, j),
        decreases sx2 - xx,
    {
        let mut yv = sy1;
        while yv < sy2
            invariant
                sx1 <= xx < sx2,
                sy1 <= yv,
                yv <= sy2,
                buf.wf(),
                buf.width == old(buf).width,
                buf.height == old(buf).height,
                forall|i: int, j: int|
                    sx1 <= i < xx && sy1 <= j < sy2 ==> sprite_cell_done(
                        *old(buf),
                        *buf,
                        tex@,
                        tint@,
                        ambient@,
                        sx as int,
                        sy as int,
                        sw as int,
                        z,
                        k as int,
                        i,
                        j,
                    ),
                forall|j: int|
                    sy1 <= j < yv ==> sprite_cell_done(
                        *old(buf),
                        *buf,
                        tex@,
                        tint@,
                        ambient@,
                        sx as int,
                        sy as int,
                        sw as int,
                        z,
                        k as int,
                        xx as int,
                        j,
                    ),
                forall|i: int, j: int|
                    0 <= i < old(buf).width && 0 <= j < old(buf).height && !(sx1 <= i < xx && sy1
                        <= j < sy2) && !(i == xx && sy1 <= j < yv) ==> cell_same(
                        *old(buf),
                        *buf,
                        i,
                        j,
                    ),
            decreases sy2 - yv,
        {
            let dx = (xx - sx + half) as u64;
            let dy = (yv - sy + half) as u64;
            proof {
                assert(dx * 16 <= 0x3_0000_0000u64 * 16) by (nonlinear_arith)
                    requires
                        dx <= 0x3_0000_0000u64,
                ;
                assert(dy * 16 <= 0x3_0000_0000u64 * 16) by (nonlinear_arith)
                    requires
                        dy <= 0x3_0000_0000u64,
                ;
            }
            let txc = ((dx * 16 / (sw as u64)) % 16) as usize;
            let tyc = ((dy * 16 / (sw as u64)) % 16) as usize;
            proof {
                assert(txc == sprite_tc(sx as int, sw as int, xx as int));
                assert(tyc == sprite_tc(sy as int, sw as int, yv as int));
            }
            let texel = sample(tex, txc, tyc);
            let ghost b_prev = *buf;
            if !(texel[0] == 0 && texel[1] == 0 && texel[2] == 0) {
                let tinted = crate::util::color_mul(&texel, tint);
                let color = crate::util::color_mix(&tinted, ambient, k);
                buf.plot(xx as usize, yv as usize, z, color);
            } else {
                proof {
                    assert(texel@ =~= black());
                }
            }
            proof {
                let w0 = old(buf).width as int;
                let h0 = old(buf).height as int;
                assert(cell_same(*old(buf), b_prev, xx as int, yv as int));
                assert(sprite_cell_done(
                    *old(buf),
                    *buf,
                    tex@,
                    tint@,
                    ambient@,
                    sx as int,
                    sy as int,
                    sw as int,
                    z,
                    k as int,
                    xx as int,
                    yv as int,
                ));
                assert forall|i: int, j: int|
                    0 <= i < w0 && 0 <= j < h0 && !(i == xx && j == yv) implies cell_same(
                    b_prev,
                    *buf,
                    i,
                    j,
                ) by {}
                assert forall|i: int, j: int|
                    sx1 <= i < xx && sy1 <= j < sy2 implies sprite_cell_done(
                    *old(buf),
                    *buf,
                    tex@,
                    tint@,
                    ambient@,
                    sx as int,
                    sy as int,
                    sw as int,
                    z,
                    k as int,
                    i,
                    j,
                ) by {
                    assert(sprite_cell_done(
                        *old(buf),
                        b_prev,
                        tex@,
                        tint@,
                        ambient@,
                        sx as int,
                        sy as int,
                        sw as int,
                        z,
                        k as int,
                        i,
                        j,
                    ));
                    assert(cell_same(b_prev, *buf, i, j));
                }
                assert forall|j: int| sy1 <= j < yv + 1 implies sprite_cell_done(
                    *old(buf),
                    *buf,
                    tex@,
                    tint@,
                    ambient@,
                    sx as int,
                    sy as int,
                    sw as int,
                    z,
                    k as int,
                    xx as int,
                    j,
                ) by {
                    if j < yv {
                        assert(sprite_cell_done(
                            *old(buf),
                            b_prev,
                            tex@,
                            tint@,
                            ambient@,
                            sx as int,
                            sy as int,
                            sw as int,
                            z,
                            k as int,
                            xx as int,
                            j,
                        ));
                        assert(cell_same(b_prev, *buf, xx as int, j));
                    }
                }
                assert forall|i: int, j: int|
                    0 <= i < w0 && 0 <= j < h0 && !(sx1 <= i < xx && sy1 <= j < sy2) && !(i == xx
                        && sy1 <= j < yv + 1) implies cell_same(*old(buf), *buf, i, j) by {
                    assert(cell_same(*old(buf), b_prev, i, j));
                    assert(cell_same(b_prev, *buf, i, j));
                }
            }
            yv = yv + 1;
        }
        xx = xx + 1;
    }
}

/// The absolute value.
pub open spec fn iabs(a: int) -> int {
    if a < 0 {
        -a
    } else {
        a
    }
}

/// Division truncating toward zero, as the machine division of two signed
/// integers behaves.
pub open spec fn tdiv(a: int, b: int) -> int
    recommends
        b != 0,
{
    if (a < 0) == (b < 0) {
        iabs(a) / iabs(b)
    } else {
        -(iabs(a) / iabs(b))
    }
}

/// The next index in cyclic order over `n` vertices.
pub open spec fn nxt(n: int, i: int) -> int {
    if i + 1 == n {
        0
    } else {
        i + 1
    }
}

/// The previous index in cyclic order over `n` vertices.
pub open spec fn prv(n: int, i: int) -> int {
    if i == 0 {
        n - 1
    } else {
        i - 1
    }
}

/// Index of the first vertex with the smallest screen column among the first
/// `i` vertices.
pub open spec fn fmin_idx(p: Seq<(i64, i64)>, i: int) -> int
    decreases i,
{
    if i <= 1 {
        0
    } else {
        let m = fmin_idx(p, i - 1);
        if p[i - 1].0 < p[m].0 {
            i - 1
        } else {
            m
        }
    }
}

/// Index of the last vertex with the largest screen column among the first
/// `i` vertices.
pub open spec fn lmax_idx(p: Seq<(i64, i64)>, i: int) -> int
    decreases i,
{
    if i <= 1 {
        0
    } else {
        let m = lmax_idx(p, i - 1);
        if p[i - 1].0 >= p[m].0 {
            i - 1
        } else {
            m
        }
    }
}

/// The two-cursor chain walk of the polygon filler, one screen column at a
/// time. The top cursor (`tp` previous, `tc` current) walks the vertex ring
/// forward from the leftmost vertex, the bottom cursor (`bp`, `bc`) walks it
/// backward; a cursor advances once at column `x` when its current vertex's
/// column has been passed, restarting that chain's interpolation origin
/// (`xt`, `xb`) at `x`. A column whose top or bottom chain segment is
/// degenerate (zero column span) emits nothing; otherwise the rows between
/// the two interpolated chain rows, clamped to the screen, form a span.
pub open spec fn span_walk(
    p: Seq<(i64, i64)>,
    x: int,
    xmax: int,
    tp: int,
    tc: int,
    bp: int,
    bc: int,
    xt: int,
    xb: int,
    height: int,
) -> Seq<(int, int, int)>
    decreases xmax - x,
{
    if x >= xmax {
        Seq::empty()
    } else {
        let n = p.len() as int;
        let tp1 = if p[tc].0 < x {
            tc
        } else {
            tp
        };
        let tc1 = if p[tc].0 < x {
            nxt(n, tc)
        } else {
            tc
        };
        let xt1 = if p[tc].0 < x {
            x
        } else {
            xt
        };
        let bp1 = if p[bc].0 < x {
            bc
        } else {
            bp
        };
        let bc1 = if p[bc].0 < x {
            prv(n, bc)
        } else {
            bc
        };
        let xb1 = if p[bc].0 < x {
            x
        } else {
            xb
        };
        walk_head(p, x, tp1, tc1, bp1, bc1, xt1, xb1, height) + span_walk(
            p,
            x + 1,
            xmax,
            tp1,
            tc1,
            bp1,
            bc1,
            xt1,
            xb1,
            height,
        )
    }
}

/// What the chain walk emits at one column, after the cursors have advanced:
/// nothing when either chain segment is degenerate or the clamped row range
/// is empty, else the span between the interpolated chain rows.
pub open spec fn walk_head(
    p: Seq<(i64, i64)>,
    x: int,
    tp: int,
    tc: int,
    bp: int,
    bc: int,
    xt: int,
    xb: int,
    height: int,
) -> Seq<(int, int, int)> {
    if p[tc].0 - p[tp].0 == 0 || p[bc].0 - p[bp].0 == 0 {
        Seq::empty()
    } else {
        let yt = p[tp].1 + tdiv((x - xt) * (p[tc].1 - p[tp].1), p[tc].0 - p[tp].0);
        let yb = p[bp].1 + tdiv((x - xb) * (p[bc].1 - p[bp].1), p[bc].0 - p[bp].0);
        let ylo = imax(imin(yt, yb), 0);
        let yhi = imin(imax(yt, yb) + 1, height);
        if ylo < yhi {
            seq![(x, ylo, yhi)]
        } else {
            Seq::empty()
        }
    }
}

/// One unfolding of the chain walk: the spans from column `x` on are the
/// column's own emission followed by the spans from column `x + 1` with the
/// advanced cursor state.
proof fn lemma_walk_step(
    p: Seq<(i64, i64)>,
    x: int,
    xmax: int,
    tp: int,
    tc: int,
    bp: int,
    bc: int,
    xt: int,
    xb: int,
    height: int,
)
    requires
        x < xmax,
        p.len() >= 1,
        0 <= tc < p.len(),
        0 <= bc < p.len(),
    ensures
        ({
            let n = p.len() as int;
            let adv_t = p[tc].0 < x;
            let adv_b = p[bc].0 < x;
            let tp1 = if adv_t {
                tc
            } else {
                tp
            };
            let tc1 = if adv_t {
                nxt(n, tc)
            } else {
                tc
            };
            let xt1 = if adv_t {
                x
            } else {
                xt
            };
            let bp1 = if adv_b {
                bc
            } else {
                bp
            };
            let bc1 = if adv_b {
                prv(n, bc)
            } else {
                bc
            };
            let xb1 = if adv_b {
                x
            } else {
                xb
            };
            span_walk(p, x, xmax, tp, tc, bp, bc, xt, xb, height) == walk_head(
                p,
                x,
                tp1,
                tc1,
                bp1,
                bc1,
                xt1,
                xb1,
                height,
            ) + span_walk(p, x + 1, xmax, tp1, tc1, bp1, bc1, xt1, xb1, height)
        }),
{
}

/// The spans of a whole polygon: the chain walk started at the first leftmost
/// vertex, over the columns from that vertex's column (clamped to the screen)
/// up to and including the last rightmost vertex's column (clamped likewise).
pub open spec fn polygon_spans_spec(p: Seq<(i64, i64)>, width: int, height: int) -> Seq<
    (int, int, int),
>
    recommends
        p.len() >= 1,
{
    let n = p.len() as int;
    let m = fmin_idx(p, n);
    let x0 = p[m].0 as int;
    let x1 = p[lmax_idx(p, n)].0 as int;
    span_walk(
        p,
        imax(x0, 0),
        imin(x1 + 1, width),
        m,
        nxt(n, m),
        m,
        prv(n, m),
        x0,
        x0,
        height,
    )
}

/// The span triples as unbounded integers.
pub open spec fn spans_ints(s: Seq<(usize, usize, usize)>) -> Seq<(int, int, int)> {
    s.map(|i: int, t: (usize, usize, usize)| (t.0 as int, t.1 as int, t.2 as int))
}

/// Machine division truncating toward zero.
fn div_trunc(a: i64, b: i64) -> (q: i64)
    requires
        b != 0,
        -0x4000_0000_0000_0000 <= a <= 0x4000_0000_0000_0000,
        -0x4000_0000_0000_0000 <= b <= 0x4000_0000_0000_0000,
    ensures
        q == tdiv(a as int, b as int),
        iabs(q as int) <= iabs(a as int),
{
    let neg = (a < 0) != (b < 0);
    let ua = if a < 0 {
        (-a) as u64
    } else {
        a as u64
    };
    let ub = if b < 0 {
        (-b) as u64
    } else {
        b as u64
    };
    proof {
        vstd::arithmetic::div_mod::lemma_div_is_ordered_by_denominator(ua as int, 1, ub as int);
        vstd::arithmetic::div_mod::lemma_div_by_self(1);
    }
    let uq = ua / ub;
    if neg {
        -(uq as i64)
    } else {
        uq as i64
    }
}

/// Index of the first vertex with the smallest screen column.
fn first_min_col(points: &Vec<(i64, i64)>) -> (m: usize)
    requires
        points@.len() >= 1,
    ensures
        m < points@.len(),
        m == fmin_idx(points@, points@.len() as int),
{
    let n = points.len();
    let mut m: usize = 0;
    let mut i: usize = 1;
    while i < n
        invariant
            1 <= i <= n,
            m < i,
            n == points@.len(),
            m == fmin_idx(points@, i as int),
        decreases n - i,
    {
        if points[i].0 < points[m].0 {
            m = i;
        }
        i = i + 1;
    }
    m
}

/// Index of the last vertex with the largest screen column.
fn last_max_col(points: &Vec<(i64, i64)>) -> (m: usize)
    requires
        points@.len() >= 1,
    ensures
        m < points@.len(),
        m == lmax_idx(points@, points@.len() as int),
{
    let n = points.len();
    let mut m: usize = 0;
    let mut i: usize = 1;
    while i < n
        invariant
            1 <= i <= n,
            m < i,
            n == points@.len(),
            m == lmax_idx(points@, i as int),
        decreases n - i,
    {
        if points[i].0 >= points[m].0 {
            m = i;
        }
        i = i + 1;
    }
    m
}

/// Scanline spans of a simple polygon given by its screen-space vertices:
/// exactly the columns and row ranges that the chain walk
/// (`polygon_spans_spec`) visits, each span already clamped to a screen of
/// `width` by `height` pixels and nonempty.
#[verifier::loop_isolation(false)]
#[verifier::rlimit(100)]
#[verifier::spinoff_prover]
pub fn polygon_spans(points: &Vec<(i64, i64)>, width: usize, height: usize) -> (spans: Vec<
    (usize, usize, usize),
>)
    requires
        points@.len() >= 1,
        forall|i: int|
            0 <= i < points@.len() ==> -0x2000_0000 <= (#[trigger] points@[i]).0 <= 0x2000_0000
                && -0x2000_0000 <= points@[i].1 <= 0x2000_0000,
        width <= 0x2000_0000,
        height <= 0x2000_0000,
    ensures
        spans_ints(spans@) == polygon_spans_spec(points@, width as int, height as int),
        forall|s: int|
            0 <= s < spans@.len() ==> spans@[s].0 < width && spans@[s].1 < spans@[s].2
                && spans@[s].2 <= height,
{
    let n = points.len();
    let m = first_min_col(points);
    let mx = last_max_col(points);
    let x0 = points[m].0;
    let x1 = points[mx].0;
    let xmin: i64 = if x0 > 0 {
        x0
    } else {
        0
    };
    let wlim = width as i64;
    let xmax: i64 = if x1 + 1 < wlim {
        x1 + 1
    } else {
        wlim
    };
    let mut tp = m;
    let mut tc = if m + 1 == n {
        0
    } else {
        m + 1
    };
    let mut bp = m;
    let mut bc = if m == 0 {
        n - 1
    } else {
        m - 1
    };
    let mut xt = x0;
    let mut xb = x0;
    let mut spans: Vec<(usize, usize, usize)> = Vec::new();
    let mut x = xmin;
    proof {
        assert(spans_ints(spans@) =~= Seq::<(int, int, int)>::empty());
    }
    while x < xmax
        invariant
            xmin <= x,
            x <= (if xmin < xmax {
                xmax
            } else {
                xmin
            }),
            tp < n,
            tc < n,
            bp < n,
            bc < n,
            -0x2000_0000 <= xt <= x,
            -0x2000_0000 <= xb <= x,
            polygon_spans_spec(points@, width as int, height as int) == spans_ints(spans@)
                + span_walk(
                points@,
                x as int,
                xmax as int,
                tp as int,
                tc as int,
                bp as int,
                bc as int,
                xt as int,
                xb as int,
                height as int,
            ),
            forall|s: int|
                0 <= s < spans@.len() ==> spans@[s].0 < width && spans@[s].1 < spans@[s].2
                    && spans@[s].2 <= height,
        decreases xmax - x,
    {
        let ghost state0 = (tp as int, tc as int, bp as int, bc as int, xt as int, xb as int);
        let ghost spans0 = spans@;
        if points[tc].0 < x {
            tp = tc;
            tc = if tc + 1 == n {
                0
            } else {
                tc + 1
            };
            xt = x;
        }
        if points[bc].0 < x {
            bp = bc;
            bc = if bc == 0 {
                n - 1
            } else {
                bc - 1
            };
            xb = x;
        }
        let ghost mut head: Seq<(int, int, int)> = Seq::empty();
        let tdx = points[tc].0 - points[tp].0;
        let bdx = points[bc].0 - points[bp].0;
        if tdx != 0 && bdx != 0 {
            let tdy = points[tc].1 - points[tp].1;
            let bdy = points[bc].1 - points[bp].1;
            proof {
                assert(iabs((x - xt) * tdy) <= 0x4000_0000_0000_0000) by (nonlinear_arith)
                    requires
                        0 <= x - xt <= 0x8000_0000,
                        -0x8000_0000 <= tdy <= 0x8000_0000,
                ;
                assert(iabs((x - xb) * bdy) <= 0x4000_0000_0000_0000) by (nonlinear_arith)
                    requires
                        0 <= x - xb <= 0x8000_0000,
                        -0x8000_0000 <= bdy <= 0x8000_0000,
                ;
            }
            let yt = points[tp].1 + div_trunc((x - xt) * tdy, tdx);
            let yb = points[bp].1 + div_trunc((x - xb) * bdy, bdx);
            let ylo = if yt < yb {
                yt
            } else {
                yb
            };
            let yhi = if yt < yb {
                yb
            } else {
                yt
            };
            let ylo2: i64 = if ylo > 0 {
                ylo
            } else {
                0
            };
            let hlim = height as i64;
            let yhi2: i64 = if yhi + 1 < hlim {
                yhi + 1
            } else {
                hlim
            };
            if ylo2 < yhi2 {
                spans.push((x as usize, ylo2 as usize, yhi2 as usize));
                proof {
                    head = seq![(x as int, ylo2 as int, yhi2 as int)];
                    assert(head =~= walk_head(
                        points@,
                        x as int,
                        tp as int,
                        tc as int,
                        bp as int,
                        bc as int,
                        xt as int,
                        xb as int,
                        height as int,
                    ));
                }
            } else {
                proof {
                    assert(head =~= walk_head(
                        points@,
                        x as int,
                        tp as int,
                        tc as int,
                        bp as int,
                        bc as int,
                        xt as int,
                        xb as int,
                        height as int,
                    ));
                }
            }
        } else {
            proof {
                assert(head =~= walk_head(
                    points@,
                    x as int,
                    tp as int,
                    tc as int,
                    bp as int,
                    bc as int,
                    xt as int,
                    xb as int,
                    height as int,
                ));
            }
        }
        proof {
            let p = points@;
            let h = height as int;
            let xm = xmax as int;
            let xo = x as int;
            let (tpo, tco, bpo, bco, xto, xbo) = state0;
            lemma_walk_step(p, xo, xm, tpo, tco, bpo, bco, xto, xbo, h);
            let rest = span_walk(
                p,
                xo + 1,
                xm,
                tp as int,
                tc as int,
                bp as int,
                bc as int,
                xt as int,
                xb as int,
                h,
            );
            assert(span_walk(p, xo, xm, tpo, tco, bpo, bco, xto, xbo, h) == head + rest);
            assert(spans_ints(spans@) =~= spans_ints(spans0) + head);
            assert(spans_ints(spans0) + (head + rest) =~= spans_ints(spans@) + rest);
        }
        x = x + 1;
    }
    spans
}

} // verus!
