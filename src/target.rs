//! The pixel sink that the pipeline draws into.
use vstd::prelude::*;

verus! {

/// An RGBA colour, eight bits per channel.
#[derive(Clone, Copy, Debug, PartialEq, Eq, Structural)]
pub struct Color {
    pub r: u8,
    pub g: u8,
    pub b: u8,
    pub a: u8,
}

impl Color {
    pub fn rgba(r: u8, g: u8, b: u8, a: u8) -> (c: Color)
        ensures
            c == (Color { r, g, b, a }),
    {
        Color { r, g, b, a }
    }
}

/// The depth a cleared target holds at every pixel: farther than anything.
pub const DEPTH_FAR: i64 = 0x7fff_ffff_ffff_ffff;

/// A width x height colour buffer with a depth buffer.
///
/// The depth at a pixel only decreases between two clears.
pub trait RenderTarget {
    /// The implementation's own well-formedness: every method keeps it.
    spec fn valid(&self) -> bool;

    spec fn width(&self) -> nat;

    spec fn height(&self) -> nat;

    spec fn depth_at(&self, x: int, y: int) -> i64;

    spec fn color_at(&self, x: int, y: int) -> Color;

    /// Returns the dimensions of this buffer.
    fn size(&self) -> (r: (u32, u32))
        requires
            self.valid(),
        ensures
            r.0 == self.width(),
            r.1 == self.height(),
    ;

    /// Fills the colour buffer and resets the depth buffer to `DEPTH_FAR`.
    fn clear(&mut self, color: Color)
        requires
            old(self).valid(),
        ensures
            final(self).valid(),
            final(self).width() == old(self).width(),
            final(self).height() == old(self).height(),
            forall|x: int, y: int|
                0 <= x < old(self).width() && 0 <= y < old(self).height() ==> (#[trigger] final(self).depth_at(x, y)) == DEPTH_FAR
                    && final(self).color_at(x, y) == color,
    ;

    /// Sets the colour at a pixel.
    fn put_pixel(&mut self, position: (u32, u32), color: Color)
        requires
            old(self).valid(),
            position.0 < old(self).width(),
            position.1 < old(self).height(),
        ensures
            final(self).valid(),
            final(self).width() == old(self).width(),
            final(self).height() == old(self).height(),
            forall|x: int, y: int| (#[trigger] final(self).depth_at(x, y)) == old(self).depth_at(x, y),
            forall|x: int, y: int|
                (#[trigger] final(self).color_at(x, y)) == if x == position.0 && y == position.1 {
                    color
                } else {
                    old(self).color_at(x, y)
                },
    ;

    /// Stores `depth` at a pixel and returns true iff it is smaller than
    /// the depth stored there.
    fn test_and_set_depth(&mut self, position: (u32, u32), depth: i64) -> (r: bool)
        requires
            old(self).valid(),
            position.0 < old(self).width(),
            position.1 < old(self).height(),
        ensures
            final(self).valid(),
            final(self).width() == old(self).width(),
            final(self).height() == old(self).height(),
            r == (depth < old(self).depth_at(position.0 as int, position.1 as int)),
            forall|x: int, y: int|
                (#[trigger] final(self).depth_at(x, y)) == if r && x == position.0 && y
                    == position.1 {
                    depth
                } else {
                    old(self).depth_at(x, y)
                },
            forall|x: int, y: int| (#[trigger] final(self).color_at(x, y)) == old(self).color_at(x, y),
    ;

    /// Publishes what was drawn since the last call.
    fn present(&mut self)
        requires
            old(self).valid(),
        ensures
            final(self).valid(),
            final(self).width() == old(self).width(),
            final(self).height() == old(self).height(),
            forall|x: int, y: int| (#[trigger] final(self).depth_at(x, y)) == old(self).depth_at(x, y),
            forall|x: int, y: int| (#[trigger] final(self).color_at(x, y)) == old(self).color_at(x, y),
    ;
}

/// An in-memory render target: rows of pixels, top row first.
pub struct FrameBuffer {
    width: u32,
    height: u32,
    colors: Vec<Color>,
    depths: Vec<i64>,
}

impl FrameBuffer {
    pub closed spec fn wf(&self) -> bool {
        &&& self.colors@.len() == self.width * self.height
        &&& self.depths@.len() == self.width * self.height
        &&& self.width * self.height <= usize::MAX
    }

    closed spec fn index(&self, x: int, y: int) -> int {
        y * self.width + x
    }

    /// A `width x height` buffer filled with `color`, every depth `DEPTH_FAR`.
    pub fn new(width: u32, height: u32, color: Color) -> (r: FrameBuffer)
        requires
            width * height <= usize::MAX,
        ensures
            r.valid(),
            r.width() == width,
            r.height() == height,
            forall|x: int, y: int|
                0 <= x < width && 0 <= y < height ==> #[trigger] r.depth_at(x, y) == DEPTH_FAR
                    && r.color_at(x, y) == color,
    {
        let n = width as usize * height as usize;
        let mut colors: Vec<Color> = Vec::new();
        let mut depths: Vec<i64> = Vec::new();
        let mut i: usize = 0;
        while i < n
            invariant
                n == width * height,
                i <= n,
                colors@.len() == i,
                depths@.len() == i,
                forall|k: int| 0 <= k < i ==> #[trigger] colors@[k] == color,
                forall|k: int| 0 <= k < i ==> #[trigger] depths@[k] == DEPTH_FAR,
            decreases n - i,
        {
            colors.push(color);
            depths.push(DEPTH_FAR);
            i = i + 1;
        }
        let r = FrameBuffer { width, height, colors, depths };
        proof {
            assert forall|x: int, y: int| 0 <= x < width && 0 <= y < height implies #[trigger] r.depth_at(
                x,
                y,
            ) == DEPTH_FAR && r.color_at(x, y) == color by {
                lemma_index_in_range(x, y, width as int, height as int);
            }
        }
        r
    }

    /// The colour at a pixel.
    pub fn color(&self, x: u32, y: u32) -> (c: Color)
        requires
            self.valid(),
            x < self.width(),
            y < self.height(),
        ensures
            c == self.color_at(x as int, y as int),
    {
        proof {
            lemma_index_in_range(x as int, y as int, self.width as int, self.height as int);
        }
        self.colors[y as usize * self.width as usize + x as usize]
    }

    /// The depth at a pixel.
    pub fn depth(&self, x: u32, y: u32) -> (d: i64)
        requires
            self.valid(),
            x < self.width(),
            y < self.height(),
        ensures
            d == self.depth_at(x as int, y as int),
    {
        proof {
            lemma_index_in_range(x as int, y as int, self.width as int, self.height as int);
        }
        self.depths[y as usize * self.width as usize + x as usize]
    }
}

proof fn lemma_index_in_range(x: int, y: int, w: int, h: int)
    requires
        0 <= x < w,
        0 <= y < h,
    ensures
        0 <= y * w + x < w * h,
        y * w + x >= y * w,
{
    assert(0 <= y * w + x < w * h) by (nonlinear_arith)
        requires
            0 <= x < w,
            0 <= y < h,
    ;
    assert(y * w >= 0) by (nonlinear_arith)
        requires
            0 <= y,
            0 <= w,
    ;
}

proof fn lemma_index_unique(x: int, y: int, x2: int, y2: int, w: int)
    requires
        0 <= x < w,
        0 <= x2 < w,
        y * w + x == y2 * w + x2,
    ensures
        x == x2,
        y == y2,
{
    assert(y == y2) by (nonlinear_arith)
        requires
            0 <= x < w,
            0 <= x2 < w,
            y * w + x == y2 * w + x2,
    ;
}

impl RenderTarget for FrameBuffer {
    open spec fn valid(&self) -> bool {
        self.wf()
    }

    closed spec fn width(&self) -> nat {
        self.width as nat
    }

    closed spec fn height(&self) -> nat {
        self.height as nat
    }

    /// Outside the buffer every pixel is as far as a cleared one.
    closed spec fn depth_at(&self, x: int, y: int) -> i64 {
        if 0 <= x < self.width && 0 <= y < self.height {
            self.depths@[self.index(x, y)]
        } else {
            DEPTH_FAR
        }
    }

    closed spec fn color_at(&self, x: int, y: int) -> Color {
        if 0 <= x < self.width && 0 <= y < self.height {
            self.colors@[self.index(x, y)]
        } else {
            Color { r: 0, g: 0, b: 0, a: 0 }
        }
    }

    fn size(&self) -> (r: (u32, u32)) {
        (self.width, self.height)
    }

    fn clear(&mut self, color: Color) {
        let n = self.colors.len();
        let mut i: usize = 0;
        while i < n
            invariant
                self.width == old(self).width,
                self.height == old(self).height,
                self.depths == old(self).depths,
                n == self.colors@.len(),
                n == old(self).colors@.len(),
                i <= n,
                forall|k: int| 0 <= k < i ==> #[trigger] self.colors@[k] == color,
            decreases n - i,
        {
            self.colors.set(i, color);
            i = i + 1;
        }
        let m = self.depths.len();
        let mut j: usize = 0;
        while j < m
            invariant
                self.width == old(self).width,
                self.height == old(self).height,
                n == self.colors@.len(),
                n == old(self).colors@.len(),
                m == self.depths@.len(),
                m == old(self).depths@.len(),
                j <= m,
                forall|k: int| 0 <= k < n ==> #[trigger] self.colors@[k] == color,
                forall|k: int| 0 <= k < j ==> #[trigger] self.depths@[k] == DEPTH_FAR,
            decreases m - j,
        {
            self.depths.set(j, DEPTH_FAR);
            j = j + 1;
        }
        proof {
            assert forall|x: int, y: int|
                0 <= x < self.width() && 0 <= y < self.height() implies #[trigger] self.depth_at(
                x,
                y,
            ) == DEPTH_FAR && self.color_at(x, y) == color by {
                lemma_index_in_range(x, y, self.width as int, self.height as int);
            }
        }
    }

    fn put_pixel(&mut self, position: (u32, u32), color: Color) {
        let (x, y) = position;
        proof {
            lemma_index_in_range(x as int, y as int, self.width as int, self.height as int);
        }
        let i = y as usize * self.width as usize + x as usize;
        self.colors.set(i, color);
        proof {
            assert forall|x2: int, y2: int| #[trigger]
                self.color_at(x2, y2) == if x2 == x && y2 == y {
                    color
                } else {
                    old(self).color_at(x2, y2)
                } by {
                if 0 <= x2 < self.width && 0 <= y2 < self.height {
                    lemma_index_in_range(x2, y2, self.width as int, self.height as int);
                    if self.index(x2, y2) == i {
                        lemma_index_unique(x2, y2, x as int, y as int, self.width as int);
                    }
                }
            }
        }
    }

    fn test_and_set_depth(&mut self, position: (u32, u32), depth: i64) -> (r: bool) {
        let (x, y) = position;
        proof {
            lemma_index_in_range(x as int, y as int, self.width as int, self.height as int);
        }
        let i = y as usize * self.width as usize + x as usize;
        if depth < self.depths[i] {
            self.depths.set(i, depth);
            proof {
                assert forall|x2: int, y2: int| #[trigger]
                    self.depth_at(x2, y2) == if x2 == x && y2 == y {
                        depth
                    } else {
                        old(self).depth_at(x2, y2)
                    } by {
                    if 0 <= x2 < self.width && 0 <= y2 < self.height {
                        lemma_index_in_range(x2, y2, self.width as int, self.height as int);
                        if self.index(x2, y2) == i {
                            lemma_index_unique(x2, y2, x as int, y as int, self.width as int);
                        }
                    }
                }
            }
            true
        } else {
            false
        }
    }

    fn present(&mut self) {
    }
}

} // verus!
