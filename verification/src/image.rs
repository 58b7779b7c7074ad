//! The raster image model: a dense grid of colors indexed `[y][x]`,
//! with row 0 at the bottom of the canvas.
use vstd::prelude::*;

use crate::isl::{Color, Point, MAX_COORD};
use vstd::string::StringSliceAdditionalSpecFns;
use vstd::pervasive::VecAdditionalExecFns;

verus! {

/// Upper bound on the pixel count of an image, so that every sum over
/// pixels fits comfortably in 64 bits.
pub const MAX_IMAGE_AREA: usize = 16777216;

/// A dense RGBA raster; `0[y][x]` is the pixel at column `x` of row
/// `y`, with row 0 the bottom row.
#[derive(Debug)]
pub struct Image(pub Vec<Vec<Color>>);

impl View for Image {
    type V = Seq<Seq<Color>>;

    open spec fn view(&self) -> Seq<Seq<Color>> {
        Seq::new(self.0@.len(), |y: int| self.0@[y]@)
    }
}

/// A rectangular, nonempty grid of displayable colors, small enough
/// that channel sums and distance sums stay in range.
pub open spec fn image_wf(img: Seq<Seq<Color>>) -> bool {
    &&& 1 <= img.len() <= MAX_COORD
    &&& 1 <= img[0].len() <= MAX_COORD
    &&& img.len() * img[0].len() <= MAX_IMAGE_AREA
    &&& forall|y: int| 0 <= y < img.len() ==> (#[trigger] img[y]).len() == img[0].len()
    &&& forall|y: int, x: int|
        0 <= y < img.len() && 0 <= x < img[0].len() ==> (#[trigger] img[y][x]).is_valid()
}

/// Channel `k` of a color, for summing one channel at a time.
pub open spec fn chan(c: Color, k: int) -> int {
    if k == 0 {
        c.r as int
    } else if k == 1 {
        c.g as int
    } else if k == 2 {
        c.b as int
    } else {
        c.a as int
    }
}

/// Sum of channel `k` over columns `x0 <= x < x1` of a row.
pub open spec fn row_chan_sum(row: Seq<Color>, x0: int, x1: int, k: int) -> int
    decreases x1 - x0,
{
    if x0 >= x1 {
        0
    } else {
        chan(row[x0], k) + row_chan_sum(row, x0 + 1, x1, k)
    }
}

/// Sum of channel `k` over the rectangle `[x0, x1) x [y0, y1)`.
pub open spec fn rect_chan_sum(img: Seq<Seq<Color>>, x0: int, x1: int, y0: int, y1: int, k: int) -> int
    decreases y1 - y0,
{
    if y0 >= y1 {
        0
    } else {
        row_chan_sum(img[y0], x0, x1, k) + rect_chan_sum(img, x0, x1, y0 + 1, y1, k)
    }
}

pub proof fn lemma_row_chan_sum_bounds(row: Seq<Color>, x0: int, x1: int, k: int)
    requires
        0 <= x0,
        x1 <= row.len(),
        forall|x: int| 0 <= x < row.len() ==> (#[trigger] row[x]).is_valid(),
    ensures
        x0 < x1 ==> 0 <= row_chan_sum(row, x0, x1, k) <= 255 * (x1 - x0),
        x0 >= x1 ==> row_chan_sum(row, x0, x1, k) == 0,
    decreases x1 - x0,
{
    if x0 < x1 {
        lemma_row_chan_sum_bounds(row, x0 + 1, x1, k);
    }
}

pub proof fn lemma_rect_chan_sum_bounds(
    img: Seq<Seq<Color>>,
    x0: int,
    x1: int,
    y0: int,
    y1: int,
    k: int,
)
    requires
        image_wf(img),
        0 <= x0,
        x1 <= img[0].len(),
        0 <= y0,
        y1 <= img.len(),
    ensures
        0 <= rect_chan_sum(img, x0, x1, y0, y1, k) <= 255 * (y1 - y0) * (x1 - x0) || y1 - y0 < 0
            || x1 - x0 < 0,
        rect_chan_sum(img, x0, x1, y0, y1, k) >= 0,
        rect_chan_sum(img, x0, x1, y0, y1, k) <= if y0 < y1 && x0 < x1 {
            255 * (y1 - y0) * (x1 - x0)
        } else {
            0
        },
    decreases y1 - y0,
{
    if y0 < y1 {
        lemma_row_chan_sum_bounds(img[y0], x0, x1, k);
        lemma_rect_chan_sum_bounds(img, x0, x1, y0 + 1, y1, k);
        if x0 < x1 {
            assert(255 * (y1 - y0) * (x1 - x0) == 255 * (x1 - x0) + 255 * (y1 - y0 - 1) * (x1
                - x0)) by (nonlinear_arith);
        }
    }
}

impl Clone for Image {
    fn clone(&self) -> (r: Self)
        ensures
            r@ == self@,
    {
        let mut rows: Vec<Vec<Color>> = Vec::new();
        let mut y: usize = 0;
        while y < self.0.len()
            invariant
                y <= self.0@.len(),
                rows@.len() == y,
                forall|j: int| 0 <= j < y ==> (#[trigger] rows@[j])@ == self.0@[j]@,
            decreases self.0@.len() - y,
        {
            let mut row: Vec<Color> = Vec::new();
            let mut x: usize = 0;
            while x < self.0[y].len()
                invariant
                    y < self.0@.len(),
                    x <= self.0@[y as int]@.len(),
                    row@ == self.0@[y as int]@.subrange(0, x as int),
                decreases self.0@[y as int]@.len() - x,
            {
                row.push(self.0[y][x]);
                proof {
                    assert(row@ =~= self.0@[y as int]@.subrange(0, x + 1));
                }
                x = x + 1;
            }
            proof {
                assert(self.0@[y as int]@.subrange(0, self.0@[y as int]@.len() as int)
                    =~= self.0@[y as int]@);
            }
            rows.push(row);
            y = y + 1;
        }
        let r = Image(rows);
        proof {
            assert(r@ =~= self@);
        }
        r
    }
}

impl Image {
    pub open spec fn wf(self) -> bool {
        image_wf(self@)
    }

    /// A fresh all-white image.
    pub fn new(w: usize, h: usize) -> (r: Image)
        requires
            1 <= w <= MAX_COORD,
            1 <= h <= MAX_COORD,
            w * h <= MAX_IMAGE_AREA,
        ensures
            r.wf(),
            r@.len() == h,
            r@[0].len() == w,
            forall|y: int, x: int| 0 <= y < h && 0 <= x < w ==> (#[trigger] r@[y][x]) == (Color {
                r: 255,
                g: 255,
                b: 255,
                a: 255,
            }),
    {
        let mut rows: Vec<Vec<Color>> = Vec::new();
        let mut y: usize = 0;
        while y < h
            invariant
                y <= h,
                rows@.len() == y,
                forall|j: int| 0 <= j < y ==> (#[trigger] rows@[j])@.len() == w,
                forall|j: int, x: int| 0 <= j < y && 0 <= x < w ==> (#[trigger] rows@[j]@[x])
                    == (Color { r: 255, g: 255, b: 255, a: 255 }),
            decreases h - y,
        {
            let mut row: Vec<Color> = Vec::new();
            let mut x: usize = 0;
            while x < w
                invariant
                    x <= w,
                    row@.len() == x,
                    forall|i: int| 0 <= i < x ==> (#[trigger] row@[i]) == (Color {
                        r: 255,
                        g: 255,
                        b: 255,
                        a: 255,
                    }),
                decreases w - x,
            {
                row.push(Color::white());
                x = x + 1;
            }
            rows.push(row);
            y = y + 1;
        }
        let r = Image(rows);
        proof {
            assert(r@.len() == h);
            assert(r@[0] == rows@[0]@);
            assert(h * w <= MAX_IMAGE_AREA) by (nonlinear_arith)
                requires
                    w * h <= MAX_IMAGE_AREA,
            ;
            assert forall|j: int| 0 <= j < h implies (#[trigger] r@[j]).len() == r@[0].len() by {
                assert(r@[j] == rows@[j]@);
            }
            assert forall|j: int, i: int| 0 <= j < h && 0 <= i < w implies (#[trigger] r@[j][i]).is_valid() by {
                assert(r@[j] == rows@[j]@);
            }
        }
        r
    }

    pub fn width(&self) -> (r: usize)
        requires
            self.wf(),
        ensures
            r == self@[0].len(),
    {
        self.0[0].len()
    }

    pub fn height(&self) -> (r: usize)
        requires
            self.wf(),
        ensures
            r == self@.len(),
    {
        self.0.len()
    }

    pub fn area(&self) -> (r: usize)
        requires
            self.wf(),
        ensures
            r == self@.len() * self@[0].len(),
            r <= MAX_IMAGE_AREA,
    {
        self.0.len() * self.0[0].len()
    }

    /// Read one pixel.
    pub fn pixel(&self, x: usize, y: usize) -> (r: Color)
        requires
            self.wf(),
            y < self@.len(),
            x < self@[0].len(),
        ensures
            r == self@[y as int][x as int],
    {
        proof {
            assert(self@[y as int] == self.0@[y as int]@);
            assert(self@[y as int].len() == self@[0].len());
        }
        self.0[y][x]
    }

    /// Overwrite one pixel.
    pub fn set_pixel(&mut self, x: usize, y: usize, c: Color)
        requires
            old(self).wf(),
            y < old(self)@.len(),
            x < old(self)@[0].len(),
            c.is_valid(),
        ensures
            final(self).wf(),
            final(self)@ == old(self)@.update(y as int, old(self)@[y as int].update(x as int, c)),
    {
        let ghost before = self@;
        let mut row: Vec<Color> = Vec::new();
        self.0.set_and_swap(y, &mut row);
        proof {
            assert(row@ == before[y as int]);
            assert(before[y as int].len() == before[0].len());
        }
        row.set(x, c);
        self.0.set_and_swap(y, &mut row);
        proof {
            let after = self@;
            let want = before.update(y as int, before[y as int].update(x as int, c));
            assert forall|j: int| 0 <= j < after.len() implies after[j] =~= want[j] by {}
            assert(after =~= want);
            assert forall|j: int, i: int|
                0 <= j < after.len() && 0 <= i < after[0].len() implies (#[trigger] after[j][i]).is_valid() by {
                assert(after[j][i] == want[j][i]);
            }
        }
    }

    /// The channel-wise mean color of the rectangle at `p` of extent
    /// `size`, rounded to the nearest integer channel values.
    pub fn average(&self, p: Point, size: Point) -> (r: Color)
        requires
            self.wf(),
            0 <= p.x,
            0 <= p.y,
            0 < size.x,
            0 < size.y,
            p.x + size.x <= self@[0].len(),
            p.y + size.y <= self@.len(),
        ensures
            r.is_valid(),
            ({
                let x0 = p.x as int;
                let x1 = p.x + size.x;
                let y0 = p.y as int;
                let y1 = p.y + size.y;
                let n = size.x * size.y;
                &&& r.r == crate::simulator::round_ratio(rect_chan_sum(self@, x0, x1, y0, y1, 0), n)
                &&& r.g == crate::simulator::round_ratio(rect_chan_sum(self@, x0, x1, y0, y1, 1), n)
                &&& r.b == crate::simulator::round_ratio(rect_chan_sum(self@, x0, x1, y0, y1, 2), n)
                &&& r.a == crate::simulator::round_ratio(rect_chan_sum(self@, x0, x1, y0, y1, 3), n)
            }),
    {
        let x0 = p.x as usize;
        let y0 = p.y as usize;
        let x1 = x0 + size.x as usize;
        let y1 = y0 + size.y as usize;
        let ghost img = self@;
        let mut sr: i64 = 0;
        let mut sg: i64 = 0;
        let mut sb: i64 = 0;
        let mut sa: i64 = 0;
        let mut y: usize = y0;
        proof {
            lemma_rect_chan_sum_bounds(img, x0 as int, x1 as int, y0 as int, y1 as int, 0);
            assert((y1 - y0) * (x1 - x0) <= img.len() * img[0].len()) by (nonlinear_arith)
                requires
                    0 < (x1 - x0) <= img[0].len(),
                    0 < (y1 - y0) <= img.len(),
            ;
            assert(255 * ((y0 - y0) as int) * ((x1 - x0) as int) == 0) by (nonlinear_arith);
        }
        while y < y1
            invariant
                y0 <= y <= y1,
                img == self@,
                self.wf(),
                x1 <= img[0].len(),
                y1 <= img.len(),
                0 <= x0 < x1,
                0 <= y0 < y1,
                (y1 - y0) * (x1 - x0) <= MAX_IMAGE_AREA,
                sr == rect_chan_sum(img, x0 as int, x1 as int, y0 as int, y as int, 0),
                sg == rect_chan_sum(img, x0 as int, x1 as int, y0 as int, y as int, 1),
                sb == rect_chan_sum(img, x0 as int, x1 as int, y0 as int, y as int, 2),
                sa == rect_chan_sum(img, x0 as int, x1 as int, y0 as int, y as int, 3),
                0 <= sr <= 255 * (y - y0) * (x1 - x0),
                0 <= sg <= 255 * (y - y0) * (x1 - x0),
                0 <= sb <= 255 * (y - y0) * (x1 - x0),
                0 <= sa <= 255 * (y - y0) * (x1 - x0),
            decreases y1 - y,
        {
            let mut x: usize = x0;
            let mut rr: i64 = 0;
            let mut rg: i64 = 0;
            let mut rb: i64 = 0;
            let mut ra: i64 = 0;
            while x < x1
                invariant
                    x0 <= x <= x1,
                    img == self@,
                    self.wf(),
                    x1 <= img[0].len(),
                    y1 <= img.len(),
                    y0 <= y < y1,
                    rr == row_chan_sum(img[y as int], x0 as int, x as int, 0),
                    rg == row_chan_sum(img[y as int], x0 as int, x as int, 1),
                    rb == row_chan_sum(img[y as int], x0 as int, x as int, 2),
                    ra == row_chan_sum(img[y as int], x0 as int, x as int, 3),
                    0 <= rr <= 255 * (x - x0),
                    0 <= rg <= 255 * (x - x0),
                    0 <= rb <= 255 * (x - x0),
                    0 <= ra <= 255 * (x - x0),
                decreases x1 - x,
            {
                let c = self.0[y][x];
                proof {
                    lemma_row_chan_sum_snoc(img[y as int], x0 as int, x as int, 0);
                    lemma_row_chan_sum_snoc(img[y as int], x0 as int, x as int, 1);
                    lemma_row_chan_sum_snoc(img[y as int], x0 as int, x as int, 2);
                    lemma_row_chan_sum_snoc(img[y as int], x0 as int, x as int, 3);
                }
                rr = rr + c.r as i64;
                rg = rg + c.g as i64;
                rb = rb + c.b as i64;
                ra = ra + c.a as i64;
                x = x + 1;
            }
            proof {
                lemma_rect_chan_sum_snoc(img, x0 as int, x1 as int, y0 as int, y as int, 0);
                lemma_rect_chan_sum_snoc(img, x0 as int, x1 as int, y0 as int, y as int, 1);
                lemma_rect_chan_sum_snoc(img, x0 as int, x1 as int, y0 as int, y as int, 2);
                lemma_rect_chan_sum_snoc(img, x0 as int, x1 as int, y0 as int, y as int, 3);
                assert(255 * ((y + 1) - y0) * (x1 - x0) == 255 * (y - y0) * (x1 - x0) + 255 * (x1
                    - x0)) by (nonlinear_arith);
                assert(255 * (y - y0) * (x1 - x0) <= 255 * MAX_IMAGE_AREA) by (nonlinear_arith)
                    requires
                        0 <= (y - y0),
                        0 < (x1 - x0),
                        (y1 - y0) * (x1 - x0) <= MAX_IMAGE_AREA,
                        y < y1,
                ;
            }
            sr = sr + rr;
            sg = sg + rg;
            sb = sb + rb;
            sa = sa + ra;
            y = y + 1;
        }
        proof {
            assert(size.x * size.y == (y1 - y0) * (x1 - x0)) by (nonlinear_arith)
                requires
                    x1 - x0 == size.x,
                    y1 - y0 == size.y,
            ;
            assert(0 < size.x * size.y) by (nonlinear_arith)
                requires
                    0 < size.x,
                    0 < size.y,
            ;
            assert(255 * (size.x * size.y) == 255 * ((y1 - y0) as int) * ((x1 - x0) as int))
                by (nonlinear_arith)
                requires
                    size.x * size.y == (y1 - y0) * (x1 - x0),
            ;
        }
        let n = (size.x as i64) * (size.y as i64);
        let cr = avg_round(sr, n);
        let cg = avg_round(sg, n);
        let cb = avg_round(sb, n);
        let ca = avg_round(sa, n);
        Color { r: cr, g: cg, b: cb, a: ca }
    }
}

/// The color a pattern byte stands for in a text image: `.` white,
/// `#` black, `r` red, `g` green, `b` blue, `z` all-zero, anything
/// else mid gray.
pub open spec fn byte_color(b: u8) -> Color {
    if b == 46 {
        Color { r: 255, g: 255, b: 255, a: 255 }
    } else if b == 35 {
        Color { r: 0, g: 0, b: 0, a: 255 }
    } else if b == 114 {
        Color { r: 255, g: 0, b: 0, a: 255 }
    } else if b == 103 {
        Color { r: 0, g: 255, b: 0, a: 255 }
    } else if b == 98 {
        Color { r: 0, g: 0, b: 255, a: 255 }
    } else if b == 122 {
        Color { r: 0, g: 0, b: 0, a: 0 }
    } else {
        Color { r: 128, g: 128, b: 128, a: 255 }
    }
}

/// Occurrences of a color in a sequence of pixels.
pub open spec fn count_color(s: Seq<Color>, c: Color) -> int
    decreases s.len(),
{
    if s.len() == 0 {
        0
    } else {
        (if s[0] == c {
            1int
        } else {
            0int
        }) + count_color(s.drop_first(), c)
    }
}

pub proof fn lemma_count_color_snoc(s: Seq<Color>, x: Color, c: Color)
    ensures
        count_color(s.push(x), c) == count_color(s, c) + if x == c {
            1int
        } else {
            0int
        },
    decreases s.len(),
{
    if s.len() == 0 {
        assert(s.push(x).drop_first() =~= Seq::<Color>::empty());
        assert(s.push(x)[0] == x);
        assert(count_color(Seq::<Color>::empty(), c) == 0);
        assert(s.push(x).len() == 1);
        assert(count_color(s.push(x), c) == (if s.push(x)[0] == c {
            1int
        } else {
            0int
        }) + count_color(s.push(x).drop_first(), c));
    } else {
        lemma_count_color_snoc(s.drop_first(), x, c);
        assert(s.push(x).drop_first() =~= s.drop_first().push(x));
        assert(s.push(x)[0] == s[0]);
        assert(count_color(s.push(x), c) == (if s.push(x)[0] == c {
            1int
        } else {
            0int
        }) + count_color(s.push(x).drop_first(), c));
        assert(count_color(s, c) == (if s[0] == c {
            1int
        } else {
            0int
        }) + count_color(s.drop_first(), c));
    }
}

pub proof fn lemma_count_color_nonneg(s: Seq<Color>, c: Color)
    ensures
        0 <= count_color(s, c) <= s.len(),
    decreases s.len(),
{
    if s.len() > 0 {
        lemma_count_color_nonneg(s.drop_first(), c);
    }
}

/// Every element is counted at least once.
pub proof fn lemma_count_color_at(s: Seq<Color>, j: int)
    requires
        0 <= j < s.len(),
    ensures
        count_color(s, s[j]) >= 1,
    decreases s.len(),
{
    lemma_count_color_nonneg(s.drop_first(), s[j]);
    if j > 0 {
        lemma_count_color_at(s.drop_first(), j - 1);
        assert(s.drop_first()[j - 1] == s[j]);
    }
}

pub proof fn lemma_count_color_occurs(s: Seq<Color>, c: Color)
    requires
        count_color(s, c) > 0,
    ensures
        exists|j: int| 0 <= j < s.len() && s[j] == c,
    decreases s.len(),
{
    if s.len() > 0 {
        if s[0] == c {
            assert(s[0] == c);
        } else {
            lemma_count_color_occurs(s.drop_first(), c);
            let j = choose|j: int| 0 <= j < s.drop_first().len() && s.drop_first()[j] == c;
            assert(s[j + 1] == c);
        }
    }
}

/// One more column extends a row sum by one pixel.
pub proof fn lemma_row_chan_sum_snoc(row: Seq<Color>, x0: int, x: int, k: int)
    requires
        x0 <= x,
    ensures
        row_chan_sum(row, x0, x + 1, k) == row_chan_sum(row, x0, x, k) + chan(row[x], k),
    decreases x - x0,
{
    if x0 < x {
        lemma_row_chan_sum_snoc(row, x0 + 1, x, k);
    } else {
        assert(row_chan_sum(row, x0, x, k) == 0);
        assert(row_chan_sum(row, x + 1, x + 1, k) == 0);
        assert(row_chan_sum(row, x0, x + 1, k) == chan(row[x], k) + row_chan_sum(
            row,
            x + 1,
            x + 1,
            k,
        ));
    }
}

/// One more row extends a rectangle sum by one row.
pub proof fn lemma_rect_chan_sum_snoc(
    img: Seq<Seq<Color>>,
    x0: int,
    x1: int,
    y0: int,
    y: int,
    k: int,
)
    requires
        y0 <= y,
    ensures
        rect_chan_sum(img, x0, x1, y0, y + 1, k) == rect_chan_sum(img, x0, x1, y0, y, k)
            + row_chan_sum(img[y], x0, x1, k),
    decreases y - y0,
{
    if y0 < y {
        lemma_rect_chan_sum_snoc(img, x0, x1, y0 + 1, y, k);
    } else {
        assert(rect_chan_sum(img, x0, x1, y0, y, k) == 0);
        assert(rect_chan_sum(img, x0, x1, y + 1, y + 1, k) == 0);
        assert(rect_chan_sum(img, x0, x1, y0, y + 1, k) == row_chan_sum(img[y], x0, x1, k)
            + rect_chan_sum(img, x0, x1, y + 1, y + 1, k));
    }
}

impl Image {
    /// Build an image from rows of pattern bytes; the first string is
    /// the bottom row.
    pub fn from_string_array(string_array: &[&str]) -> (r: Image)
        requires
            1 <= string_array@.len() <= MAX_COORD,
            1 <= string_array@[0].spec_bytes().len() <= MAX_COORD,
            string_array@.len() * string_array@[0].spec_bytes().len() <= MAX_IMAGE_AREA,
            forall|y: int|
                0 <= y < string_array@.len() ==> (#[trigger] string_array@[y]).spec_bytes().len()
                    == string_array@[0].spec_bytes().len(),
        ensures
            r.wf(),
            r@.len() == string_array@.len(),
            r@[0].len() == string_array@[0].spec_bytes().len(),
            forall|y: int, x: int|
                0 <= y < r@.len() && 0 <= x < r@[0].len() ==> (#[trigger] r@[y][x]) == byte_color(
                    string_array@[y].spec_bytes()[x],
                ),
    {
        let mut rows: Vec<Vec<Color>> = Vec::new();
        let w = string_array[0].as_bytes().len();
        let mut y: usize = 0;
        while y < string_array.len()
            invariant
                y <= string_array@.len(),
                w == string_array@[0].spec_bytes().len(),
                forall|j: int|
                    0 <= j < string_array@.len() ==> (#[trigger] string_array@[j]).spec_bytes().len()
                        == w,
                rows@.len() == y,
                forall|j: int| 0 <= j < y ==> (#[trigger] rows@[j])@.len() == w,
                forall|j: int, x: int|
                    0 <= j < y && 0 <= x < w ==> (#[trigger] rows@[j]@[x]) == byte_color(
                        string_array@[j].spec_bytes()[x],
                    ),
            decreases string_array@.len() - y,
        {
            let bytes = string_array[y].as_bytes();
            let mut row: Vec<Color> = Vec::new();
            let mut x: usize = 0;
            while x < bytes.len()
                invariant
                    x <= bytes@.len(),
                    y < string_array@.len(),
                    bytes@ == string_array@[y as int].spec_bytes(),
                    row@.len() == x,
                    forall|i: int| 0 <= i < x ==> (#[trigger] row@[i]) == byte_color(bytes@[i]),
                decreases bytes@.len() - x,
            {
                let b = bytes[x];
                let c = if b == 46 {
                    Color::new(255, 255, 255, 255)
                } else if b == 35 {
                    Color::new(0, 0, 0, 255)
                } else if b == 114 {
                    Color::new(255, 0, 0, 255)
                } else if b == 103 {
                    Color::new(0, 255, 0, 255)
                } else if b == 98 {
                    Color::new(0, 0, 255, 255)
                } else if b == 122 {
                    Color::new(0, 0, 0, 0)
                } else {
                    Color::new(128, 128, 128, 255)
                };
                row.push(c);
                x = x + 1;
            }
            rows.push(row);
            y = y + 1;
        }
        let r = Image(rows);
        proof {
            assert(r@.len() == string_array@.len());
            assert forall|j: int| 0 <= j < r@.len() implies (#[trigger] r@[j]).len() == w by {
                assert(r@[j] == rows@[j]@);
            }
            assert forall|j: int, x: int|
                0 <= j < r@.len() && 0 <= x < w implies (#[trigger] r@[j][x]) == byte_color(
                string_array@[j].spec_bytes()[x],
            ) by {
                assert(r@[j] == rows@[j]@);
            }
            assert forall|j: int, x: int|
                0 <= j < r@.len() && 0 <= x < w implies (#[trigger] r@[j][x]).is_valid() by {
                assert(r@[j][x] == byte_color(string_array@[j].spec_bytes()[x]));
            }
        }
        r
    }

    /// The most frequent pixel color of the rectangle at `p` of extent
    /// `size`: a color that occurs there, at least as often as every
    /// other color.
    pub fn majority(&self, p: Point, size: Point) -> (r: Color)
        requires
            self.wf(),
            0 <= p.x,
            0 <= p.y,
            0 < size.x,
            0 < size.y,
            p.x + size.x <= self@[0].len(),
            p.y + size.y <= self@.len(),
        ensures
            r.is_valid(),
            ({
                let pix = rect_pixels(self@, p.x as int, p.x + size.x, p.y as int, p.y + size.y);
                &&& count_color(pix, r) >= 1
                &&& forall|c: Color| #[trigger] count_color(pix, c) <= count_color(pix, r)
            }),
    {
        let x0 = p.x as usize;
        let y0 = p.y as usize;
        let x1 = x0 + size.x as usize;
        let y1 = y0 + size.y as usize;
        let ghost img = self@;
        let mut pix: Vec<Color> = Vec::new();
        let mut y: usize = y0;
        proof {
            assert(rect_pixels(img, x0 as int, x1 as int, y0 as int, y0 as int) =~= Seq::<
                Color,
            >::empty());
        }
        while y < y1
            invariant
                y0 <= y <= y1,
                img == self@,
                self.wf(),
                x0 < x1,
                x1 <= img[0].len(),
                y1 <= img.len(),
                pix@ == rect_pixels(img, x0 as int, x1 as int, y0 as int, y as int),
                forall|j: int| 0 <= j < pix@.len() ==> (#[trigger] pix@[j]).is_valid(),
            decreases y1 - y,
        {
            let mut x: usize = x0;
            proof {
                assert(row_pixels(img[y as int], x0 as int, x0 as int) =~= Seq::<Color>::empty());
            }
            while x < x1
                invariant
                    x0 <= x <= x1,
                    img == self@,
                    self.wf(),
                    x1 <= img[0].len(),
                    y0 <= y < y1,
                    y1 <= img.len(),
                    pix@ == rect_pixels(img, x0 as int, x1 as int, y0 as int, y as int) + row_pixels(
                        img[y as int],
                        x0 as int,
                        x as int,
                    ),
                    forall|j: int| 0 <= j < pix@.len() ==> (#[trigger] pix@[j]).is_valid(),
                decreases x1 - x,
            {
                pix.push(self.pixel(x, y));
                proof {
                    lemma_row_pixels_snoc(img[y as int], x0 as int, x as int);
                    assert(pix@ =~= rect_pixels(img, x0 as int, x1 as int, y0 as int, y as int)
                        + row_pixels(img[y as int], x0 as int, x + 1));
                }
                x = x + 1;
            }
            proof {
                lemma_rect_pixels_snoc(img, x0 as int, x1 as int, y0 as int, y as int);
                assert(pix@ =~= rect_pixels(img, x0 as int, x1 as int, y0 as int, y + 1));
            }
            y = y + 1;
        }
        let n = pix.len();
        proof {
            assert(n >= 1) by {
                lemma_rect_pixels_len(img, x0 as int, x1 as int, y0 as int, y1 as int);
            }
        }
        let mut best_color = pix[0];
        let mut best_count = count_occurrences(&pix, pix[0]);
        let mut i: usize = 1;
        proof {
            lemma_count_color_nonneg(pix@, pix@[0]);
            lemma_count_color_at(pix@, 0);
        }
        while i < n
            invariant
                1 <= i <= n,
                n == pix@.len(),
                n >= 1,
                best_color.is_valid(),
                forall|j: int| 0 <= j < pix@.len() ==> (#[trigger] pix@[j]).is_valid(),
                best_count == count_color(pix@, best_color),
                best_count >= 1 || count_color(pix@, best_color) >= 0,
                count_color(pix@, best_color) >= 1,
                forall|j: int| 0 <= j < i ==> count_color(pix@, #[trigger] pix@[j]) <= best_count,
            decreases n - i,
        {
            let cnt = count_occurrences(&pix, pix[i]);
            proof {
                lemma_count_color_at(pix@, i as int);
            }
            if cnt > best_count {
                best_count = cnt;
                best_color = pix[i];
            }
            i = i + 1;
        }
        proof {
            assert forall|c: Color| #[trigger] count_color(pix@, c) <= count_color(
                pix@,
                best_color,
            ) by {
                lemma_count_color_nonneg(pix@, c);
                if count_color(pix@, c) > 0 {
                    lemma_count_color_occurs(pix@, c);
                    let j = choose|j: int| 0 <= j < pix@.len() && pix@[j] == c;
                    assert(count_color(pix@, pix@[j]) <= best_count);
                }
            }
        }
        best_color
    }
}

/// The pixels of one row between two columns, in order.
pub open spec fn row_pixels(row: Seq<Color>, x0: int, x1: int) -> Seq<Color>
    decreases x1 - x0,
{
    if x0 >= x1 {
        Seq::empty()
    } else {
        row_pixels(row, x0, x1 - 1).push(row[x1 - 1])
    }
}

/// The pixels of a rectangle, row-major.
pub open spec fn rect_pixels(img: Seq<Seq<Color>>, x0: int, x1: int, y0: int, y1: int) -> Seq<
    Color,
>
    decreases y1 - y0,
{
    if y0 >= y1 {
        Seq::empty()
    } else {
        rect_pixels(img, x0, x1, y0, y1 - 1) + row_pixels(img[y1 - 1], x0, x1)
    }
}

pub proof fn lemma_row_pixels_snoc(row: Seq<Color>, x0: int, x: int)
    requires
        x0 <= x,
    ensures
        row_pixels(row, x0, x + 1) == row_pixels(row, x0, x).push(row[x]),
{
}

pub proof fn lemma_rect_pixels_snoc(img: Seq<Seq<Color>>, x0: int, x1: int, y0: int, y: int)
    requires
        y0 <= y,
    ensures
        rect_pixels(img, x0, x1, y0, y + 1) == rect_pixels(img, x0, x1, y0, y) + row_pixels(
            img[y],
            x0,
            x1,
        ),
{
}

pub proof fn lemma_rect_pixels_len(img: Seq<Seq<Color>>, x0: int, x1: int, y0: int, y1: int)
    requires
        x0 < x1,
        y0 < y1,
    ensures
        rect_pixels(img, x0, x1, y0, y1).len() >= 1,
    decreases y1 - y0,
{
    lemma_row_pixels_len(img[y1 - 1], x0, x1);
}

pub proof fn lemma_row_pixels_len(row: Seq<Color>, x0: int, x1: int)
    requires
        x0 <= x1,
    ensures
        row_pixels(row, x0, x1).len() == x1 - x0,
    decreases x1 - x0,
{
    if x0 < x1 {
        lemma_row_pixels_len(row, x0, x1 - 1);
    }
}

/// Occurrences of `c` among the pixels of `v`.
fn count_occurrences(v: &Vec<Color>, c: Color) -> (r: usize)
    ensures
        r == count_color(v@, c),
{
    let mut r: usize = 0;
    let mut i: usize = 0;
    proof {
        assert(v@.subrange(0, 0) =~= Seq::<Color>::empty());
        lemma_count_color_nonneg(v@, c);
    }
    while i < v.len()
        invariant
            i <= v@.len(),
            r == count_color(v@.subrange(0, i as int), c),
            r <= i,
        decreases v@.len() - i,
    {
        proof {
            assert(v@.subrange(0, i + 1).drop_last() =~= v@.subrange(0, i as int));
            lemma_count_color_snoc(v@.subrange(0, i as int), v@[i as int], c);
            assert(v@.subrange(0, i + 1) =~= v@.subrange(0, i as int).push(v@[i as int]));
        }
        if v[i].r == c.r && v[i].g == c.g && v[i].b == c.b && v[i].a == c.a {
            r = r + 1;
        }
        i = i + 1;
    }
    proof {
        assert(v@.subrange(0, v@.len() as int) =~= v@);
    }
    r
}

/// `sum / n` rounded half up, for channel averages: the result of
/// averaging valid channels is a valid channel.
fn avg_round(sum: i64, n: i64) -> (r: i32)
    requires
        0 < n <= MAX_IMAGE_AREA,
        0 <= sum <= 255 * n,
    ensures
        r == crate::simulator::round_ratio(sum as int, n as int),
        0 <= r <= 255,
{
    let r = (2 * sum + n) / (2 * n);
    proof {
        let num = (2 * sum + n) as int;
        let den = (2 * n) as int;
        assert(0 <= num <= 511 * n);
        vstd::arithmetic::div_mod::lemma_div_is_ordered(0, num, den);
        vstd::arithmetic::div_mod::lemma_div_is_ordered(num, (511 * n) as int, den);
        assert(511 * n == 255 * (2 * n) + n);
        vstd::arithmetic::div_mod::lemma_div_multiples_vanish_fancy(255, n as int, (2 * n) as int);
        assert((255 * (2 * n) + n) / (2 * n) == 255);
    }
    r as i32
}

} // verus!
