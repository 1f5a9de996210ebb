//! The framebuffer: a color plane of 3 bytes per pixel and a depth plane of
//! one value per pixel, in row-major order.
//!
//! Depths are `u32` values whose numeric order is the nearness order: smaller
//! is nearer. A caller that measures depth in nonnegative reals passes any
//! order-preserving encoding of them (the IEEE-754 bit pattern of a
//! nonnegative float is one); `DEPTH_MAX` is farther than every encoded depth.

use vstd::prelude::*;

verus! {

/// The depth-plane sentinel meaning "nothing rendered here yet": farther than
/// any depth a primitive writes.
pub const DEPTH_MAX: u32 = 0xFFFF_FFFF;

/// Index of pixel `(x, y)` in the depth plane of a buffer `w` pixels wide.
pub open spec fn cell(w: int, x: int, y: int) -> int {
    x + y * w
}

/// Index of the first color byte of pixel `(x, y)`.
pub open spec fn pix(w: int, x: int, y: int) -> int {
    (x + y * w) * 3
}

/// Row-major cell indices stay inside a `w` by `h` grid.
pub proof fn lemma_cell_bounds(w: int, h: int, x: int, y: int)
    requires
        0 <= x < w,
        0 <= y < h,
    ensures
        0 <= cell(w, x, y),
        cell(w, x, y) < w * h,
        0 <= pix(w, x, y),
        pix(w, x, y) + 3 <= w * h * 3,
{
    assert(0 <= x + y * w && x + y * w < w * h) by (nonlinear_arith)
        requires
            0 <= x < w,
            0 <= y < h,
    ;
}

/// Distinct pixels of one row-major grid have distinct cell indices.
pub proof fn lemma_cell_distinct(w: int, x1: int, y1: int, x2: int, y2: int)
    requires
        0 <= x1 < w,
        0 <= x2 < w,
        0 <= y1,
        0 <= y2,
        x1 != x2 || y1 != y2,
    ensures
        cell(w, x1, y1) != cell(w, x2, y2),
{
    assert(x1 + y1 * w != x2 + y2 * w) by (nonlinear_arith)
        requires
            0 <= x1 < w,
            0 <= x2 < w,
            0 <= y1,
            0 <= y2,
            x1 != x2 || y1 != y2,
    ;
}

/// Color state of one pixel after a depth-tested write: the three color bytes
/// change exactly when the candidate depth is strictly nearer than the stored
/// one.
pub open spec fn plot_colors(
    c: Seq<u8>,
    d: Seq<u32>,
    w: int,
    x: int,
    y: int,
    z: u32,
    rgb: Seq<u8>,
) -> Seq<u8> {
    if z < d[cell(w, x, y)] {
        c.update(pix(w, x, y), rgb[0]).update(pix(w, x, y) + 1, rgb[1]).update(
            pix(w, x, y) + 2,
            rgb[2],
        )
    } else {
        c
    }
}

/// Depth state of one pixel after a depth-tested write.
pub open spec fn plot_depths(d: Seq<u32>, w: int, x: int, y: int, z: u32) -> Seq<u32> {
    if z < d[cell(w, x, y)] {
        d.update(cell(w, x, y), z)
    } else {
        d
    }
}

pub struct Buffer {
    pub pixels: Vec<u8>,
    pub zbuffer: Vec<u32>,
    pub width: usize,
    pub height: usize,
}

impl Buffer {
    /// The planes cover exactly `width * height` pixels.
    pub open spec fn wf(&self) -> bool {
        &&& self.pixels@.len() == self.width * self.height * 3
        &&& self.zbuffer@.len() == self.width * self.height
        &&& self.width * self.height * 3 <= usize::MAX
    }

    /// The three color bytes of pixel `(x, y)`.
    pub open spec fn pixel_at(&self, x: int, y: int) -> Seq<u8> {
        self.pixels@.subrange(pix(self.width as int, x, y), pix(self.width as int, x, y) + 3)
    }

    /// The stored depth of pixel `(x, y)`.
    pub open spec fn depth_at(&self, x: int, y: int) -> u32 {
        self.zbuffer@[cell(self.width as int, x, y)]
    }

    /// Both planes allocated zero-initialized: depths start at zero, so a
    /// frame must run `clear` before its depth-tested writes.
    pub fn new(width: usize, height: usize) -> (b: Buffer)
        requires
            width * height * 3 <= usize::MAX,
        ensures
            b.wf(),
            b.width == width,
            b.height == height,
            b.pixels@.len() == width * height * 3,
            b.zbuffer@.len() == width * height,
            forall|i: int| 0 <= i < b.pixels@.len() ==> b.pixels@[i] == 0u8,
            forall|i: int| 0 <= i < b.zbuffer@.len() ==> b.zbuffer@[i] == 0u32,
    {
        Buffer {
            pixels: vec![0u8; width * height * 3],
            zbuffer: vec![0u32; width * height],
            width,
            height,
        }
    }

    /// Unconditional color write to pixel `(x, y)`; the depth plane is left
    /// alone. Out-of-range coordinates are a caller contract violation.
    pub fn set_pixel(&mut self, x: usize, y: usize, rgb: [u8; 3])
        requires
            old(self).wf(),
            x < old(self).width,
            y < old(self).height,
        ensures
            final(self).wf(),
            final(self).width == old(self).width,
            final(self).height == old(self).height,
            final(self).zbuffer@ == old(self).zbuffer@,
            final(self).pixels@ == old(self).pixels@.update(
                pix(old(self).width as int, x as int, y as int),
                rgb[0],
            ).update(pix(old(self).width as int, x as int, y as int) + 1, rgb[1]).update(
                pix(old(self).width as int, x as int, y as int) + 2,
                rgb[2],
            ),
            final(self).pixel_at(x as int, y as int) == rgb@,
            forall|i: int, j: int|
                0 <= i < old(self).width && 0 <= j < old(self).height && (i != x || j != y)
                    ==> final(self).pixel_at(i, j) == old(self).pixel_at(i, j),
    {
        proof {
            lemma_cell_bounds(
                self.width as int,
                self.height as int,
                x as int,
                y as int,
            );
        }
        let base = (x + y * self.width) * 3;
        self.pixels.set(base, rgb[0]);
        self.pixels.set(base + 1, rgb[1]);
        self.pixels.set(base + 2, rgb[2]);
        proof {
            let w = self.width as int;
            let h = self.height as int;
            assert(self.pixel_at(x as int, y as int) =~= rgb@);
            assert forall|i: int, j: int|
                0 <= i < w && 0 <= j < h && (i != x || j != y) implies self.pixel_at(i, j)
                == old(self).pixel_at(i, j) by {
                lemma_cell_bounds(w, h, i, j);
                lemma_cell_distinct(w, i, j, x as int, y as int);
                assert(self.pixel_at(i, j) =~= old(self).pixel_at(i, j));
            }
        }
    }

    /// Color write plus an unconditional depth store at the same pixel.
    pub fn set_pixel3(&mut self, x: usize, y: usize, z: u32, rgb: [u8; 3])
        requires
            old(self).wf(),
            x < old(self).width,
            y < old(self).height,
        ensures
            final(self).wf(),
            final(self).width == old(self).width,
            final(self).height == old(self).height,
            final(self).pixels@ == old(self).pixels@.update(
                pix(old(self).width as int, x as int, y as int),
                rgb[0],
            ).update(pix(old(self).width as int, x as int, y as int) + 1, rgb[1]).update(
                pix(old(self).width as int, x as int, y as int) + 2,
                rgb[2],
            ),
            final(self).zbuffer@ == old(self).zbuffer@.update(
                cell(old(self).width as int, x as int, y as int),
                z,
            ),
            final(self).pixel_at(x as int, y as int) == rgb@,
            final(self).depth_at(x as int, y as int) == z,
            forall|i: int, j: int|
                0 <= i < old(self).width && 0 <= j < old(self).height && (i != x || j != y)
                    ==> final(self).pixel_at(i, j) == old(self).pixel_at(i, j)
                        && final(self).depth_at(i, j) == old(self).depth_at(i, j),
    {
        proof {
            lemma_cell_bounds(
                self.width as int,
                self.height as int,
                x as int,
                y as int,
            );
        }
        self.set_pixel(x, y, rgb);
        let slot = x + y * self.width;
        self.zbuffer.set(slot, z);
        proof {
            let w = self.width as int;
            let h = self.height as int;
            assert forall|i: int, j: int|
                0 <= i < w && 0 <= j < h && (i != x || j != y) implies self.depth_at(i, j)
                == old(self).depth_at(i, j) by {
                lemma_cell_bounds(w, h, i, j);
                lemma_cell_distinct(w, i, j, x as int, y as int);
            }
        }
    }

    /// The stored depth of pixel `(x, y)`.
    pub fn depth(&self, x: usize, y: usize) -> (z: u32)
        requires
            self.wf(),
            x < self.width,
            y < self.height,
        ensures
            z == self.depth_at(x as int, y as int),
    {
        proof {
            lemma_cell_bounds(
                self.width as int,
                self.height as int,
                x as int,
                y as int,
            );
        }
        self.zbuffer[x + y * self.width]
    }

    /// Per-frame depth reset: every depth slot becomes `DEPTH_MAX`. The color
    /// plane is untouched; full coverage of it is owed to the background pass.
    pub fn clear(&mut self)
        requires
            old(self).wf(),
        ensures
            final(self).wf(),
            final(self).width == old(self).width,
            final(self).height == old(self).height,
            final(self).pixels@ == old(self).pixels@,
            final(self).zbuffer@.len() == old(self).zbuffer@.len(),
            forall|i: int|
                0 <= i < final(self).zbuffer@.len() ==> final(self).zbuffer@[i] == DEPTH_MAX,
    {
        let n = self.width * self.height;
        let mut i: usize = 0;
        while i < n
            invariant
                old(self).wf(),
                n == old(self).width * old(self).height,
                i <= n,
                self.width == old(self).width,
                self.height == old(self).height,
                self.pixels@ == old(self).pixels@,
                self.zbuffer@.len() == old(self).zbuffer@.len(),
                forall|j: int| 0 <= j < i ==> self.zbuffer@[j] == DEPTH_MAX,
            decreases n - i,
        {
            self.zbuffer.set(i, DEPTH_MAX);
            i = i + 1;
        }
    }

    /// The depth-tested write shared by every primitive pass: the color and
    /// depth of `(x, y)` change to `rgb` and `z` exactly when `z` is strictly
    /// nearer than the stored depth; otherwise nothing changes.
    pub fn plot(&mut self, x: usize, y: usize, z: u32, rgb: [u8; 3]) -> (wrote: bool)
        requires
            old(self).wf(),
            x < old(self).width,
            y < old(self).height,
        ensures
            final(self).wf(),
            final(self).width == old(self).width,
            final(self).height == old(self).height,
            wrote == (z < old(self).depth_at(x as int, y as int)),
            final(self).pixels@ == plot_colors(
                old(self).pixels@,
                old(self).zbuffer@,
                old(self).width as int,
                x as int,
                y as int,
                z,
                rgb@,
            ),
            final(self).zbuffer@ == plot_depths(
                old(self).zbuffer@,
                old(self).width as int,
                x as int,
                y as int,
                z,
            ),
            wrote ==> final(self).pixel_at(x as int, y as int) == rgb@ && final(self).depth_at(
                x as int,
                y as int,
            ) == z,
            !wrote ==> *final(self) == *old(self),
            forall|i: int, j: int|
                0 <= i < old(self).width && 0 <= j < old(self).height && (i != x || j != y)
                    ==> final(self).pixel_at(i, j) == old(self).pixel_at(i, j)
                        && final(self).depth_at(i, j) == old(self).depth_at(i, j),
    {
        if self.depth(x, y) > z {
            self.set_pixel3(x, y, z, rgb);
            true
        } else {
            false
        }
    }
}

/// Within a frame the depth plane only moves nearer: a depth-tested write
/// leaves every cell's stored depth at most what it was.
pub proof fn lemma_depth_monotone(d: Seq<u32>, w: int, h: int, x: int, y: int, z: u32)
    requires
        0 <= x < w,
        0 <= y < h,
        d.len() == w * h,
    ensures
        plot_depths(d, w, x, y, z).len() == d.len(),
        forall|c: int| 0 <= c < d.len() ==> plot_depths(d, w, x, y, z)[c] <= d[c],
{
    lemma_cell_bounds(w, h, x, y);
}

/// Depth-test exclusivity: when two depth-tested writes with distinct depths
/// hit the same pixel in one frame, the pixel ends with the color and depth of
/// the strictly nearer write, whichever order the two writes run in.
pub proof fn lemma_depth_order_independent(
    c: Seq<u8>,
    d: Seq<u32>,
    w: int,
    h: int,
    x: int,
    y: int,
    z1: u32,
    rgb1: Seq<u8>,
    z2: u32,
    rgb2: Seq<u8>,
)
    requires
        0 <= x < w,
        0 <= y < h,
        c.len() == w * h * 3,
        d.len() == w * h,
        rgb1.len() == 3,
        rgb2.len() == 3,
        z1 != z2,
        z1 < d[cell(w, x, y)],
        z2 < d[cell(w, x, y)],
    ensures
        plot_colors(plot_colors(c, d, w, x, y, z1, rgb1), plot_depths(d, w, x, y, z1), w, x, y, z2, rgb2)
            == plot_colors(
            plot_colors(c, d, w, x, y, z2, rgb2),
            plot_depths(d, w, x, y, z2),
            w,
            x,
            y,
            z1,
            rgb1,
        ),
        plot_depths(plot_depths(d, w, x, y, z1), w, x, y, z2) == plot_depths(
            plot_depths(d, w, x, y, z2),
            w,
            x,
            y,
            z1,
        ),
        plot_depths(plot_depths(d, w, x, y, z1), w, x, y, z2)[cell(w, x, y)] == (if z1 < z2 {
            z1
        } else {
            z2
        }),
        plot_colors(plot_colors(c, d, w, x, y, z1, rgb1), plot_depths(d, w, x, y, z1), w, x, y, z2, rgb2)
            .subrange(pix(w, x, y), pix(w, x, y) + 3) == (if z1 < z2 {
            rgb1
        } else {
            rgb2
        }),
{
    lemma_cell_bounds(w, h, x, y);
    let c12 = plot_colors(
        plot_colors(c, d, w, x, y, z1, rgb1),
        plot_depths(d, w, x, y, z1),
        w,
        x,
        y,
        z2,
        rgb2,
    );
    let c21 = plot_colors(
        plot_colors(c, d, w, x, y, z2, rgb2),
        plot_depths(d, w, x, y, z2),
        w,
        x,
        y,
        z1,
        rgb1,
    );
    if z1 < z2 {
        assert(c12 =~= c21);
        assert(c12.subrange(pix(w, x, y), pix(w, x, y) + 3) =~= rgb1);
    } else {
        assert(c12 =~= c21);
        assert(c12.subrange(pix(w, x, y), pix(w, x, y) + 3) =~= rgb2);
    }
    assert(plot_depths(plot_depths(d, w, x, y, z1), w, x, y, z2) =~= plot_depths(
        plot_depths(d, w, x, y, z2),
        w,
        x,
        y,
        z1,
    ));
}

} // verus!
