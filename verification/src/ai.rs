//! Planner interfaces and the simple baseline planners: a head planner
//! proposes a program, a chained planner transforms one.
use vstd::prelude::*;

use crate::image::{rect_chan_sum, Image};
use crate::isl::{program_wf, BlockId, Color, Move, MoveView, Orientation, Point, Program};
use crate::simulator::round_ratio;
use crate::state::State;

verus! {

/// A planner that produces a program from scratch.
pub trait HeadAI {
    /// What the planner needs of its inputs.
    spec fn valid_input(&self, image: &Image, initial_state: &State) -> bool;

    fn solve(&mut self, image: &Image, initial_state: &State) -> (r: Program)
        requires
            old(self).valid_input(image, initial_state),
        ensures
            program_wf(r@),
    ;
}

/// A planner that transforms an existing program.
pub trait ChainedAI {
    /// What the planner needs of its inputs.
    spec fn valid_input(&self, image: &Image, initial_state: &State, program: &Program) -> bool;

    fn solve(&mut self, image: &Image, initial_state: &State, program: &Program) -> (r: Program)
        requires
            old(self).valid_input(image, initial_state, program),
        ensures
            program_wf(r@),
    ;
}

/// Paint the whole canvas with its mean color: a single color move on
/// block `[0]`.
pub struct OneColorAI {}

impl HeadAI for OneColorAI {
    open spec fn valid_input(&self, image: &Image, initial_state: &State) -> bool {
        image.wf()
    }

    fn solve(&mut self, image: &Image, _initial_state: &State) -> (r: Program)
        ensures
            r@.len() == 1,
            r@[0] == (MoveView::Color {
                block_id: seq![0u32],
                color: Color {
                    r: round_ratio(
                        rect_chan_sum(image@, 0, image@[0].len() as int, 0, image@.len() as int, 0),
                        (image@.len() * image@[0].len()) as int,
                    ) as i32,
                    g: round_ratio(
                        rect_chan_sum(image@, 0, image@[0].len() as int, 0, image@.len() as int, 1),
                        (image@.len() * image@[0].len()) as int,
                    ) as i32,
                    b: round_ratio(
                        rect_chan_sum(image@, 0, image@[0].len() as int, 0, image@.len() as int, 2),
                        (image@.len() * image@[0].len()) as int,
                    ) as i32,
                    a: round_ratio(
                        rect_chan_sum(image@, 0, image@[0].len() as int, 0, image@.len() as int, 3),
                        (image@.len() * image@[0].len()) as int,
                    ) as i32,
                },
            }),
    {
        let w = image.width();
        let h = image.height();
        let color = image.average(Point::new(0, 0), Point::new(w as i32, h as i32));
        let mv = Move::Color { block_id: BlockId::new(&[0]), color };
        let mut v: Vec<Move> = Vec::new();
        v.push(mv);
        let r = Program(v);
        proof {
            assert(r@[0] == r.0@[0]@);
            assert(r.0@[0]@ matches MoveView::Color { block_id, .. } && block_id =~= seq![0u32]);
            assert((w as i32) * (h as i32) == (image@.len() * image@[0].len()) as int)
                by (nonlinear_arith)
                requires
                    w == image@[0].len(),
                    h == image@.len(),
                    1 <= image@.len() <= crate::isl::MAX_COORD,
                    1 <= image@[0].len() <= crate::isl::MAX_COORD,
            ;
        }
        r
    }
}

/// Cut the canvas into a regular grid and paint every cell with its
/// mean color.
pub struct GridAI {
    pub rows: usize,
    pub cols: usize,
}

/// What a grid fill may emit: line cuts on grid lines, and color moves
/// painting some grid cell's rounded mean.
pub open spec fn grid_move_ok(img: Seq<Seq<Color>>, rows: int, cols: int, m: MoveView) -> bool {
    let gh = img.len() as int / rows;
    let gw = img[0].len() as int / cols;
    match m {
        MoveView::LCut { orientation, line_number, .. } => match orientation {
            Orientation::Horizontal => exists|i: int|
                1 <= i < rows && line_number == #[trigger] (gh * i),
            Orientation::Vertical => exists|j: int|
                1 <= j < cols && line_number == #[trigger] (gw * j),
        },
        MoveView::Color { color, .. } => exists|i: int, j: int|
            0 <= i < rows && 0 <= j < cols && #[trigger] crate::change_color_ai::is_mean_of(
                img,
                Point { x: (gw * j) as i32, y: (gh * i) as i32 },
                Point { x: gw as i32, y: gh as i32 },
                color,
            ),
        _ => false,
    }
}

impl HeadAI for GridAI {
    open spec fn valid_input(&self, image: &Image, initial_state: &State) -> bool {
        &&& image.wf()
        &&& 1 <= self.rows <= image@.len()
        &&& 1 <= self.cols <= image@[0].len()
    }

    fn solve(&mut self, image: &Image, _initial_state: &State) -> (r: Program)
        ensures
            r@.len() == old(self).rows * (2 * old(self).cols - 1) + (old(self).rows - 1),
            forall|i: int|
                0 <= i < r@.len() ==> grid_move_ok(
                    image@,
                    old(self).rows as int,
                    old(self).cols as int,
                    #[trigger] r@[i],
                ),
    {
        let rows = self.rows;
        let cols = self.cols;
        let height = image.height();
        let width = image.width();
        let grid_height = (height / rows) as i32;
        let grid_width = (width / cols) as i32;
        proof {
            vstd::arithmetic::div_mod::lemma_fundamental_div_mod(height as int, rows as int);
            vstd::arithmetic::div_mod::lemma_fundamental_div_mod(width as int, cols as int);
            assert((height as int) / (rows as int) >= 1) by {
                vstd::arithmetic::div_mod::lemma_div_non_zero(height as int, rows as int);
            }
            assert((width as int) / (cols as int) >= 1) by {
                vstd::arithmetic::div_mod::lemma_div_non_zero(width as int, cols as int);
            }
        }
        let mut result: Vec<Move> = Vec::new();
        let mut block_id: Vec<u32> = Vec::new();
        block_id.push(0);
        let mut i: usize = 1;
        while i < rows + 1
            invariant
                1 <= i <= rows + 1,
                rows >= 1,
                cols >= 1,
                image.wf(),
                rows <= image@.len(),
                cols <= image@[0].len(),
                height == image@.len(),
                width == image@[0].len(),
                grid_height == (height as int) / (rows as int),
                grid_width == (width as int) / (cols as int),
                1 <= grid_height,
                1 <= grid_width,
                grid_height * (rows as int) <= height as int,
                grid_width * (cols as int) <= width as int,
                i <= rows ==> result@.len() == (i - 1) * (2 * cols),
                i == rows + 1 ==> result@.len() == rows * (2 * cols - 1) + (rows - 1),
                forall|k: int|
                    0 <= k < result@.len() ==> grid_move_ok(
                        image@,
                        rows as int,
                        cols as int,
                        (#[trigger] result@[k])@,
                    ),
                forall|k: int| 0 <= k < result@.len() ==> (#[trigger] result@[k])@.wf(),
            decreases rows + 1 - i,
        {
            proof {
                assert(grid_height * (i as int) <= grid_height * (rows as int)) by (nonlinear_arith)
                    requires
                        1 <= i <= rows,
                        grid_height >= 1,
                ;
                assert(grid_height * ((i - 1) as int) >= 0) by (nonlinear_arith)
                    requires
                        i >= 1,
                        grid_height >= 1,
                ;
                assert(grid_height * (i as int) == grid_height * ((i - 1) as int) + grid_height)
                    by (nonlinear_arith);
            }
            if i < rows {
                let ghost before = result@;
                result.push(
                    Move::LCut {
                        block_id: BlockId::new(block_id.as_slice()),
                        orientation: Orientation::Horizontal,
                        line_number: grid_height * (i as i32),
                    },
                );
                proof {
                    let gh = image@.len() as int / (rows as int);
                    assert(1 <= i < rows && (grid_height * (i as i32)) as int == gh * (i as int));
                    assert(grid_move_ok(
                        image@,
                        rows as int,
                        cols as int,
                        (result@[result@.len() - 1])@,
                    ));
                    assert forall|k: int|
                        0 <= k < result@.len() implies grid_move_ok(
                        image@,
                        rows as int,
                        cols as int,
                        (#[trigger] result@[k])@,
                    ) by {
                        if k < before.len() {
                            assert(result@[k] == before[k]);
                        }
                    }
                }
            }
            let mut x_block_id: Vec<u32> = Vec::new();
            let mut t: usize = 0;
            while t < block_id.len()
                invariant
                    t <= block_id@.len(),
                    x_block_id@ == block_id@.subrange(0, t as int),
                decreases block_id@.len() - t,
            {
                x_block_id.push(block_id[t]);
                proof {
                    assert(x_block_id@ =~= block_id@.subrange(0, t + 1));
                }
                t = t + 1;
            }
            if i < rows {
                x_block_id.push(0);
            }
            let ghost len_before = result@.len();
            let mut j: usize = 1;
            while j < cols + 1
                invariant
                    1 <= j <= cols + 1,
                    rows >= 1,
                    cols >= 1,
                    1 <= i <= rows,
                    image.wf(),
                    rows <= image@.len(),
                    cols <= image@[0].len(),
                    height == image@.len(),
                    width == image@[0].len(),
                    grid_height == (height as int) / (rows as int),
                    grid_width == (width as int) / (cols as int),
                    1 <= grid_height,
                    1 <= grid_width,
                    grid_height * (rows as int) <= height as int,
                    grid_width * (cols as int) <= width as int,
                    0 <= grid_height * ((i - 1) as int),
                    grid_height * (i as int) <= height as int,
                    grid_height * (i as int) == grid_height * ((i - 1) as int) + grid_height,
                    j <= cols ==> result@.len() == len_before + 2 * (j - 1),
                    j == cols + 1 ==> result@.len() == len_before + 2 * cols - 1,
                    forall|k: int|
                        0 <= k < result@.len() ==> grid_move_ok(
                            image@,
                            rows as int,
                            cols as int,
                            (#[trigger] result@[k])@,
                        ),
                    forall|k: int| 0 <= k < result@.len() ==> (#[trigger] result@[k])@.wf(),
                decreases cols + 1 - j,
            {
                proof {
                    assert(grid_width * (j as int) <= grid_width * (cols as int))
                        by (nonlinear_arith)
                        requires
                            1 <= j <= cols,
                            grid_width >= 1,
                    ;
                    assert(grid_width * ((j - 1) as int) >= 0) by (nonlinear_arith)
                        requires
                            j >= 1,
                            grid_width >= 1,
                    ;
                    assert(grid_width * (j as int) == grid_width * ((j - 1) as int) + grid_width)
                        by (nonlinear_arith);
                }
                if j < cols {
                    let ghost before = result@;
                    result.push(
                        Move::LCut {
                            block_id: BlockId::new(x_block_id.as_slice()),
                            orientation: Orientation::Vertical,
                            line_number: grid_width * (j as i32),
                        },
                    );
                    proof {
                        let gw = image@[0].len() as int / (cols as int);
                        assert(1 <= j < cols && (grid_width * (j as i32)) as int == gw * (j as int));
                        assert(grid_move_ok(
                            image@,
                            rows as int,
                            cols as int,
                            (result@[result@.len() - 1])@,
                        ));
                        assert forall|k: int|
                            0 <= k < result@.len() implies grid_move_ok(
                            image@,
                            rows as int,
                            cols as int,
                            (#[trigger] result@[k])@,
                        ) by {
                            if k < before.len() {
                                assert(result@[k] == before[k]);
                            }
                        }
                    }
                    x_block_id.push(0);
                }
                let y_from = grid_height * ((i - 1) as i32);
                let x_from = grid_width * ((j - 1) as i32);
                let color = image.average(
                    Point::new(x_from, y_from),
                    Point::new(grid_width, grid_height),
                );
                let ghost before = result@;
                result.push(Move::Color { block_id: BlockId::new(x_block_id.as_slice()), color });
                proof {
                    let gh = image@.len() as int / (rows as int);
                    let gw = image@[0].len() as int / (cols as int);
                    assert(x_from as int == gw * ((j - 1) as int));
                    assert(y_from as int == gh * ((i - 1) as int));
                    let pt = Point { x: (gw * ((j - 1) as int)) as i32, y: (gh * ((i
                        - 1) as int)) as i32 };
                    let sz = Point { x: gw as i32, y: gh as i32 };
                    assert(pt == (Point { x: x_from, y: y_from }));
                    assert(sz == (Point { x: grid_width, y: grid_height }));
                    assert(color == (Color {
                        r: crate::simulator::round_ratio(
                            crate::image::rect_chan_sum(
                                image@,
                                pt.x as int,
                                pt.x + sz.x,
                                pt.y as int,
                                pt.y + sz.y,
                                0,
                            ),
                            sz.x * sz.y,
                        ) as i32,
                        g: crate::simulator::round_ratio(
                            crate::image::rect_chan_sum(
                                image@,
                                pt.x as int,
                                pt.x + sz.x,
                                pt.y as int,
                                pt.y + sz.y,
                                1,
                            ),
                            sz.x * sz.y,
                        ) as i32,
                        b: crate::simulator::round_ratio(
                            crate::image::rect_chan_sum(
                                image@,
                                pt.x as int,
                                pt.x + sz.x,
                                pt.y as int,
                                pt.y + sz.y,
                                2,
                            ),
                            sz.x * sz.y,
                        ) as i32,
                        a: crate::simulator::round_ratio(
                            crate::image::rect_chan_sum(
                                image@,
                                pt.x as int,
                                pt.x + sz.x,
                                pt.y as int,
                                pt.y + sz.y,
                                3,
                            ),
                            sz.x * sz.y,
                        ) as i32,
                    }));
                    assert(crate::change_color_ai::is_mean_of(image@, pt, sz, color));
                    assert(crate::change_color_ai::is_mean_of(
                        image@,
                        Point {
                            x: (gw * ((j - 1) as int)) as i32,
                            y: (gh * ((i - 1) as int)) as i32,
                        },
                        Point { x: gw as i32, y: gh as i32 },
                        color,
                    ));
                    assert(0 <= (i - 1) as int && ((i - 1) as int) < rows as int && 0 <= (j
                        - 1) as int && ((j - 1) as int) < cols as int);
                    assert((result@[result@.len() - 1])@ matches MoveView::Color { color: c2, .. }
                        && c2 == color);
                    assert(grid_move_ok(
                        image@,
                        rows as int,
                        cols as int,
                        (result@[result@.len() - 1])@,
                    ));
                    assert forall|k: int|
                        0 <= k < result@.len() implies grid_move_ok(
                        image@,
                        rows as int,
                        cols as int,
                        (#[trigger] result@[k])@,
                    ) by {
                        if k < before.len() {
                            assert(result@[k] == before[k]);
                        }
                    }
                }
                if j < cols {
                    let _popped = x_block_id.pop();
                }
                x_block_id.push(1);
                j = j + 1;
            }
            proof {
                assert((i as int) * (2 * (cols as int)) == ((i - 1) as int) * (2 * (cols as int))
                    + 2 * (cols as int)) by (nonlinear_arith);
                assert((rows as int) * (2 * (cols as int) - 1) + ((rows as int) - 1) == ((rows
                    - 1) as int) * (2 * (cols as int)) + 2 * (cols as int) - 1)
                    by (nonlinear_arith);
            }
            block_id.push(1);
            i = i + 1;
        }
        Program(result)
    }
}

} // verus!
