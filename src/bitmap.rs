//! A width x height image of colours, row by row.
use vstd::prelude::*;
use crate::target::Color;

verus! {

pub struct Bitmap {
    buffer: Vec<Color>,
    width: usize,
    height: usize,
}

impl Bitmap {
    /// The buffer holds one colour per pixel.
    pub closed spec fn wf(&self) -> bool {
        self.buffer@.len() == self.width * self.height && self.width * self.height <= usize::MAX
    }

    pub closed spec fn width_spec(&self) -> nat {
        self.width as nat
    }

    pub closed spec fn height_spec(&self) -> nat {
        self.height as nat
    }

    /// The colour at `(x, y)`.
    pub closed spec fn at(&self, x: int, y: int) -> Color {
        self.buffer@[y * self.width + x]
    }

    /// The colours, row by row.
    pub closed spec fn pixels(&self) -> Seq<Color> {
        self.buffer@
    }

    /// A bitmap filled with `color`.
    pub fn from_color(width: usize, height: usize, color: Color) -> (r: Bitmap)
        requires
            width * height <= usize::MAX,
        ensures
            r.wf(),
            r.width_spec() == width,
            r.height_spec() == height,
            r.pixels().len() == width * height,
            forall|i: int| 0 <= i < width * height ==> #[trigger] r.pixels()[i] == color,
    {
        let n = width * height;
        let mut buffer: Vec<Color> = Vec::new();
        let mut i: usize = 0;
        while i < n
            invariant
                n == width * height,
                i <= n,
                buffer@.len() == i,
                forall|k: int| 0 <= k < i ==> #[trigger] buffer@[k] == color,
            decreases n - i,
        {
            buffer.push(color);
            i = i + 1;
        }
        Bitmap { buffer, width, height }
    }

    /// A bitmap whose pixel `(x, y)` is `function(x, y)`.
    pub fn from_function<F: Fn(usize, usize) -> Color>(width: usize, height: usize, function: F) -> (r: Bitmap)
        requires
            width * height <= usize::MAX,
            forall|x: usize, y: usize| x < width && y < height ==> #[trigger] function.requires((x, y)),
        ensures
            r.wf(),
            r.width_spec() == width,
            r.height_spec() == height,
            forall|x: int, y: int|
                0 <= x < width && 0 <= y < height ==> function.ensures(
                    (x as usize, y as usize),
                    #[trigger] r.at(x, y),
                ),
    {
        let mut result = Bitmap::from_color(width, height, Color { r: 0, g: 0, b: 0, a: 255 });
        let mut y: usize = 0;
        while y < height
            invariant
                result.wf(),
                result.width == width,
                result.height == height,
                width * height <= usize::MAX,
                y <= height,
                forall|x: usize, y: usize| x < width && y < height ==> #[trigger] function.requires((x, y)),
                forall|x2: int, y2: int|
                    0 <= x2 < width && 0 <= y2 < y ==> function.ensures(
                        (x2 as usize, y2 as usize),
                        #[trigger] result.at(x2, y2),
                    ),
            decreases height - y,
        {
            let mut x: usize = 0;
            while x < width
                invariant
                    result.wf(),
                    result.width == width,
                    result.height == height,
                    width * height <= usize::MAX,
                    x <= width,
                    y < height,
                    forall|x: usize, y: usize| x < width && y < height ==> #[trigger] function.requires((x, y)),
                    forall|x2: int, y2: int|
                        0 <= x2 < width && 0 <= y2 < y ==> function.ensures(
                            (x2 as usize, y2 as usize),
                            #[trigger] result.at(x2, y2),
                        ),
                    forall|x2: int|
                        0 <= x2 < x ==> function.ensures(
                            (x2 as usize, y as usize),
                            #[trigger] result.at(x2, y as int),
                        ),
                decreases width - x,
            {
                let c = function(x, y);
                let ghost before = result;
                result.set_data_at(x, y, c);
                proof {
                    assert forall|x2: int, y2: int|
                        0 <= x2 < width && 0 <= y2 < y implies function.ensures(
                            (x2 as usize, y2 as usize),
                            #[trigger] result.at(x2, y2),
                        ) by {
                        lemma_index_distinct(x2, y2, x as int, y as int, width as int, height as int);
                        lemma_index_in_range(x as int, y as int, width as int, height as int);
                        assert(result.at(x2, y2) == before.at(x2, y2));
                    }
                    assert forall|x2: int| 0 <= x2 < x + 1 implies function.ensures(
                        (x2 as usize, y as usize),
                        #[trigger] result.at(x2, y as int),
                    ) by {
                        lemma_index_in_range(x as int, y as int, width as int, height as int);
                        if x2 < x {
                            lemma_index_distinct(x2, y as int, x as int, y as int, width as int, height as int);
                            assert(result.at(x2, y as int) == before.at(x2, y as int));
                        } else {
                            assert(result.at(x2, y as int) == c);
                        }
                    }
                }
                x = x + 1;
            }
            y = y + 1;
        }
        result
    }

    /// The colours, row by row.
    pub fn data(&self) -> (r: &[Color])
        ensures
            r@ == self.pixels(),
    {
        self.buffer.as_slice()
    }

    /// The colour at `(x, y)`.
    pub fn data_at(&self, x: usize, y: usize) -> (r: Color)
        requires
            self.wf(),
            x < self.width_spec(),
            y < self.height_spec(),
        ensures
            r == self.at(x as int, y as int),
    {
        proof {
            lemma_index_in_range(x as int, y as int, self.width as int, self.height as int);
        }
        self.buffer[y * self.width + x]
    }

    /// Sets the colour at `(x, y)`; every other pixel keeps its colour.
    pub fn set_data_at(&mut self, x: usize, y: usize, color: Color)
        requires
            old(self).wf(),
            x < old(self).width_spec(),
            y < old(self).height_spec(),
        ensures
            final(self).wf(),
            final(self).width_spec() == old(self).width_spec(),
            final(self).height_spec() == old(self).height_spec(),
            final(self).pixels() == old(self).pixels().update(y * old(self).width_spec() + x, color),
    {
        proof {
            lemma_index_in_range(x as int, y as int, self.width as int, self.height as int);
        }
        let i = y * self.width + x;
        self.buffer.set(i, color);
    }

    pub fn width(&self) -> (r: usize)
        ensures
            r == self.width_spec(),
    {
        self.width
    }

    pub fn height(&self) -> (r: usize)
        ensures
            r == self.height_spec(),
    {
        self.height
    }
}

proof fn lemma_index_in_range(x: int, y: int, w: int, h: int)
    requires
        0 <= x < w,
        0 <= y < h,
    ensures
        0 <= y * w <= y * w + x < w * h,
{
    assert(0 <= y * w + x < w * h) by (nonlinear_arith)
        requires
            0 <= x < w,
            0 <= y < h,
    ;
    assert(y * w >= 0) by (nonlinear_arith)
        requires
            0 <= y,
            0 <= w,
    ;
}

proof fn lemma_index_distinct(x: int, y: int, x2: int, y2: int, w: int, h: int)
    requires
        0 <= x < w,
        0 <= x2 < w,
        0 <= y < h,
        0 <= y2 < h,
        x != x2 || y != y2,
    ensures
        y * w + x != y2 * w + x2,
        0 <= y * w + x < w * h,
{
    lemma_index_in_range(x, y, w, h);
    if y * w + x == y2 * w + x2 {
        assert(y == y2) by (nonlinear_arith)
            requires
                0 <= x < w,
                0 <= x2 < w,
                y * w + x == y2 * w + x2,
        ;
    }
}

} // verus!
