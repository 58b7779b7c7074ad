//! Rasterization: painting the blocks of a state onto a canvas in
//! ascending identifier order, and the scoring functions built on it.
use vstd::prelude::*;

use crate::image::Image;
use crate::isl::{Color, Move, MoveView, Point, Program, MAX_COORD};
use crate::similarity::{calc_partial_image_similarity, rect_dist, sim_round};
use crate::simulator::{
    spec_move_cost, spec_run, spec_run_ok, spec_simulate, move_cost, program_exec_error, simulate,
    ProgramExecError,
};
use crate::state::{BlockEntry, BlockState, SimpleBlock, State, StateModel};

verus! {

/// Whether a block leaves paint on the canvas: deleted blocks and
/// blocks with undefined contents do not.
pub open spec fn block_paints(b: SimpleBlock) -> bool {
    &&& b.state != BlockState::Deleted
    &&& !b.color.is_invalid_sentinel()
}

/// Whether painting block `b`, clipped to the rectangle at `p` of
/// extent `size` and to the canvas, covers the pixel `(x, y)`.
pub open spec fn paint_covers(
    img: Seq<Seq<Color>>,
    b: SimpleBlock,
    p: Point,
    size: Point,
    x: int,
    y: int,
) -> bool {
    let cx1 = vstd::math::min(p.x + size.x, img[0].len() as int);
    let cy1 = vstd::math::min(p.y + size.y, img.len() as int);
    &&& vstd::math::max(p.x as int, b.p.x as int) <= x < vstd::math::min(cx1, b.p.x + b.size.x)
    &&& vstd::math::max(p.y as int, b.p.y as int) <= y < vstd::math::min(cy1, b.p.y + b.size.y)
}

/// The canvas after painting one block, clipped to the rectangle at
/// `p` of extent `size`.
pub open spec fn paint_block(img: Seq<Seq<Color>>, b: SimpleBlock, p: Point, size: Point) -> Seq<
    Seq<Color>,
> {
    Seq::new(
        img.len(),
        |y: int|
            Seq::new(
                img[y].len(),
                |x: int|
                    if block_paints(b) && paint_covers(img, b, p, size, x, y) {
                        b.color
                    } else {
                        img[y][x]
                    },
            ),
    )
}

/// The canvas after painting a sequence of blocks, in order.
pub open spec fn paint_all(img: Seq<Seq<Color>>, s: Seq<BlockEntry>, p: Point, size: Point) -> Seq<
    Seq<Color>,
>
    decreases s.len(),
{
    if s.len() == 0 {
        img
    } else {
        paint_all(paint_block(img, s[0].1, p, size), s.drop_first(), p, size)
    }
}

/// An all-white canvas.
pub open spec fn white_canvas(w: int, h: int) -> Seq<Seq<Color>> {
    Seq::new(h as nat, |y: int| Seq::new(w as nat, |x: int| Color { r: 255, g: 255, b: 255, a: 255 }))
}

/// The canvas a state rasterizes to on a `w`×`h` image, painting every
/// block in ascending identifier order with clip rectangle `(p, size)`.
pub open spec fn spec_rasterize(m: StateModel, p: Point, size: Point, w: int, h: int) -> Seq<
    Seq<Color>,
> {
    paint_all(white_canvas(w, h), m.blocks, p, size)
}

impl SimpleBlock {
    /// Paint this block onto `image`, clipped to the rectangle at `p`
    /// of extent `size`.
    pub fn partial_rasterize(&self, p: Point, size: Point, image: &mut Image)
        requires
            old(image).wf(),
            self.wf(),
            0 <= p.x,
            0 <= p.y,
            0 <= size.x,
            0 <= size.y,
            p.x + size.x <= MAX_COORD,
            p.y + size.y <= MAX_COORD,
        ensures
            final(image).wf(),
            final(image)@ =~~= paint_block(old(image)@, *self, p, size),
            final(image)@.len() == old(image)@.len(),
            final(image)@[0].len() == old(image)@[0].len(),
    {
        let ghost img0 = image@;
        let iw = image.width() as i32;
        let ih = image.height() as i32;
        let deleted = match self.state {
            BlockState::Deleted => true,
            _ => false,
        };
        if deleted || self.color.is_invalid() {
            proof {
                let res = paint_block(img0, *self, p, size);
                assert forall|j: int| 0 <= j < img0.len() implies image@[j] =~= res[j] by {
                    assert(!block_paints(*self));
                }
                assert(image@ =~~= res);
            }
            return ;
        }
        let cx1 = if p.x + size.x < iw {
            p.x + size.x
        } else {
            iw
        };
        let cy1 = if p.y + size.y < ih {
            p.y + size.y
        } else {
            ih
        };
        let l = if p.x > self.p.x {
            p.x
        } else {
            self.p.x
        };
        let t = if p.y > self.p.y {
            p.y
        } else {
            self.p.y
        };
        let r = if cx1 < self.p.x + self.size.x {
            cx1
        } else {
            self.p.x + self.size.x
        };
        let b = if cy1 < self.p.y + self.size.y {
            cy1
        } else {
            self.p.y + self.size.y
        };
        if l >= r || t >= b {
            proof {
                let res = paint_block(img0, *self, p, size);
                assert forall|j: int| 0 <= j < img0.len() implies image@[j] =~= res[j] by {
                    assert forall|i: int| 0 <= i < img0[j].len() implies image@[j][i] == res[j][i] by {
                        assert(!paint_covers(img0, *self, p, size, i, j));
                    }
                }
                assert(image@ =~~= res);
            }
            return ;
        }
        let lu = l as usize;
        let ru = r as usize;
        let tu = t as usize;
        let bu = b as usize;
        proof {
            assert(self.color.is_valid());
        }
        let mut y: usize = tu;
        while y < bu
            invariant
                tu <= y <= bu,
                image.wf(),
                image@.len() == img0.len(),
                img0.len() >= 1,
                forall|j: int| 0 <= j < img0.len() ==> (#[trigger] image@[j]).len() == img0[j].len(),
                forall|j: int| 0 <= j < img0.len() ==> (#[trigger] img0[j]).len() == img0[0].len(),
                bu <= img0.len(),
                ru <= img0[0].len(),
                lu < ru,
                tu < bu,
                self.color.is_valid(),
                forall|j: int, i: int|
                    0 <= j < img0.len() && 0 <= i < img0[j].len() ==> (#[trigger] image@[j][i])
                        == if tu <= j < y && lu <= i < ru {
                        self.color
                    } else {
                        img0[j][i]
                    },
            decreases bu - y,
        {
            let mut x: usize = lu;
            while x < ru
                invariant
                    lu <= x <= ru,
                    image.wf(),
                    image@.len() == img0.len(),
                    img0.len() >= 1,
                    forall|j: int| 0 <= j < img0.len() ==> (#[trigger] image@[j]).len()
                        == img0[j].len(),
                    forall|j: int| 0 <= j < img0.len() ==> (#[trigger] img0[j]).len() == img0[0].len(),
                    bu <= img0.len(),
                    ru <= img0[0].len(),
                    lu < ru,
                    tu <= y < bu,
                    self.color.is_valid(),
                    forall|j: int, i: int|
                        0 <= j < img0.len() && 0 <= i < img0[j].len() ==> (#[trigger] image@[j][i])
                            == if (tu <= j < y && lu <= i < ru) || (j == y && lu <= i < x) {
                            self.color
                        } else {
                            img0[j][i]
                        },
                decreases ru - x,
            {
                image.set_pixel(x, y, self.color);
                x = x + 1;
            }
            y = y + 1;
        }
        proof {
            let res = paint_block(img0, *self, p, size);
            assert forall|j: int| 0 <= j < img0.len() implies image@[j] =~= res[j] by {
                assert forall|i: int| 0 <= i < img0[j].len() implies image@[j][i] == res[j][i] by {
                    assert(paint_covers(img0, *self, p, size, i, j) == (tu <= j < bu && lu <= i
                        < ru));
                }
            }
            assert(image@ =~~= res);
        }
    }

    /// Paint this block onto the whole canvas.
    pub fn rasterize(&self, image: &mut Image)
        requires
            old(image).wf(),
            self.wf(),
        ensures
            final(image).wf(),
            final(image)@ =~~= paint_block(
                old(image)@,
                *self,
                Point { x: 0, y: 0 },
                Point { x: old(image)@[0].len() as i32, y: old(image)@.len() as i32 },
            ),
    {
        let w = image.width();
        let h = image.height();
        self.partial_rasterize(Point::new(0, 0), Point::new(w as i32, h as i32), image);
    }
}

/// Rasterize a state onto a fresh `w`×`h` canvas, painting only inside
/// the rectangle at `p` of extent `size`.
pub fn rasterize_partial_state(p: Point, size: Point, state: &State, w: usize, h: usize) -> (r:
    Image)
    requires
        state@.wf(),
        1 <= w <= MAX_COORD,
        1 <= h <= MAX_COORD,
        w * h <= crate::image::MAX_IMAGE_AREA,
        0 <= p.x,
        0 <= p.y,
        0 <= size.x,
        0 <= size.y,
        p.x + size.x <= MAX_COORD,
        p.y + size.y <= MAX_COORD,
    ensures
        r.wf(),
        r@ == spec_rasterize(state@, p, size, w as int, h as int),
        r@.len() == h,
        r@[0].len() == w,
{
    let mut image = Image::new(w, h);
    proof {
        assert(image@ =~~= white_canvas(w as int, h as int));
    }
    let ghost blocks = state@.blocks;
    let ghost img0 = image@;
    let mut i: usize = 0;
    proof {
        assert(blocks.skip(0) =~= blocks);
    }
    while i < state.blocks.len()
        invariant
            i <= state.blocks@.len(),
            state@.wf(),
            blocks == state@.blocks,
            blocks.len() == state.blocks@.len(),
            image.wf(),
            image@.len() == h,
            image@[0].len() == w,
            paint_all(image@, blocks.skip(i as int), p, size) == paint_all(img0, blocks, p, size),
            0 <= p.x,
            0 <= p.y,
            0 <= size.x,
            0 <= size.y,
            p.x + size.x <= MAX_COORD,
            p.y + size.y <= MAX_COORD,
        decreases state.blocks@.len() - i,
    {
        let b = state.blocks[i].1;
        proof {
            assert(state@.blocks[i as int] == (state.blocks@[i as int].0@, state.blocks@[i as int].1));
            assert(b.wf());
            assert(blocks.skip(i as int)[0] == blocks[i as int]);
        }
        b.partial_rasterize(p, size, &mut image);
        proof {
            assert(blocks.skip(i as int).drop_first() =~= blocks.skip(i + 1));
        }
        i = i + 1;
    }
    proof {
        assert(blocks.skip(blocks.len() as int).len() == 0);
        assert(image@ == paint_all(img0, blocks, p, size));
    }
    image
}

/// Rasterize a state onto a fresh `w`×`h` canvas.
pub fn rasterize_state(state: &State, w: usize, h: usize) -> (r: Image)
    requires
        state@.wf(),
        1 <= w <= MAX_COORD,
        1 <= h <= MAX_COORD,
        w * h <= crate::image::MAX_IMAGE_AREA,
    ensures
        r.wf(),
        r@ == spec_rasterize(
            state@,
            Point { x: 0, y: 0 },
            Point { x: w as i32, y: h as i32 },
            w as int,
            h as int,
        ),
        r@.len() == h,
        r@[0].len() == w,
{
    rasterize_partial_state(Point::new(0, 0), Point::new(w as i32, h as i32), state, w, h)
}

/// The canvas of a state over the whole `w`×`h` image.
pub open spec fn spec_canvas(m: StateModel, w: int, h: int) -> Seq<Seq<Color>> {
    spec_rasterize(m, Point { x: 0, y: 0 }, Point { x: w as i32, y: h as i32 }, w, h)
}

/// The similarity penalty of a state against a target image: distance
/// between the rasterized canvas and the target over the full canvas.
pub open spec fn spec_state_similarity(m: StateModel, tgt: Seq<Seq<Color>>) -> int {
    let w = tgt[0].len() as int;
    let h = tgt.len() as int;
    sim_round(rect_dist(spec_canvas(m, w, h), tgt, 0, w, 0, h))
}

/// Rasterization always yields displayable pixels, so the canvas of a
/// well-formed state is itself a well-formed image.
pub fn calc_state_similarity(state: &State, target_image: &Image) -> (r: i64)
    requires
        state@.wf(),
        target_image.wf(),
    ensures
        r == spec_state_similarity(state@, target_image@),
        0 <= r <= 0x40000000000000 + crate::similarity::SIM_DEN,
{
    let w = target_image.width();
    let h = target_image.height();
    proof {
        assert(w * h <= crate::image::MAX_IMAGE_AREA) by (nonlinear_arith)
            requires
                target_image@.len() * target_image@[0].len() <= crate::image::MAX_IMAGE_AREA,
                w == target_image@[0].len(),
                h == target_image@.len(),
        ;
    }
    let current_image = rasterize_state(state, w, h);
    calc_partial_image_similarity(
        Point::new(0, 0),
        Point::new(w as i32, h as i32),
        &current_image,
        target_image,
    )
}

/// Similarity of a state against the target over one rectangle, with
/// the canvas rasterized only inside that rectangle.
pub fn calc_partial_state_similarity(
    p: Point,
    size: Point,
    state: &State,
    target_image: &Image,
) -> (r: i64)
    requires
        state@.wf(),
        target_image.wf(),
        0 <= p.x,
        0 <= p.y,
        0 <= size.x,
        0 <= size.y,
        p.x + size.x <= target_image@[0].len(),
        p.y + size.y <= target_image@.len(),
    ensures
        r == sim_round(
            rect_dist(
                spec_rasterize(
                    state@,
                    p,
                    size,
                    target_image@[0].len() as int,
                    target_image@.len() as int,
                ),
                target_image@,
                p.x as int,
                p.x + size.x,
                p.y as int,
                p.y + size.y,
            ),
        ),
        0 <= r <= 0x40000000000000 + crate::similarity::SIM_DEN,
{
    let w = target_image.width();
    let h = target_image.height();
    proof {
        assert(w * h <= crate::image::MAX_IMAGE_AREA) by (nonlinear_arith)
            requires
                target_image@.len() * target_image@[0].len() <= crate::image::MAX_IMAGE_AREA,
                w == target_image@[0].len(),
                h == target_image@.len(),
        ;
    }
    let current_image = rasterize_partial_state(p, size, state, w, h);
    calc_partial_image_similarity(p, size, &current_image, target_image)
}

/// Accumulated cost of running a program: the sum of each move's cost
/// in the state it executes from, and the final state; `None` when a
/// move is invalid or targets a missing block.
pub open spec fn spec_prefix_costs(m: StateModel, prog: Seq<MoveView>, w: int, h: int) -> Option<
    (int, StateModel),
>
    decreases prog.len(),
{
    if prog.len() == 0 {
        Some((0, m))
    } else {
        match spec_move_cost(m, prog[0], w, h) {
            None => None,
            Some(c) => match spec_simulate(m, prog[0]) {
                None => None,
                Some(m2) => match spec_prefix_costs(m2, prog.drop_first(), w, h) {
                    None => None,
                    Some(rest) => Some((c + rest.0, rest.1)),
                },
            },
        }
    }
}

/// A program whose costs are all defined also executes fully.
pub proof fn lemma_prefix_costs_run_ok(m: StateModel, prog: Seq<MoveView>, w: int, h: int)
    requires
        spec_prefix_costs(m, prog, w, h) is Some,
    ensures
        spec_run_ok(m, prog),
        spec_run(m, prog).1 == spec_prefix_costs(m, prog, w, h).unwrap().1,
    decreases prog.len(),
{
    if prog.len() > 0 {
        let m2 = spec_simulate(m, prog[0]).unwrap();
        lemma_prefix_costs_run_ok(m2, prog.drop_first(), w, h);
    }
}

/// The total score of a program: the sum of all move costs plus the
/// similarity of the terminal state against the target.
pub open spec fn spec_score(prog: Seq<MoveView>, tgt: Seq<Seq<Color>>, m: StateModel) -> Option<
    int,
> {
    match spec_prefix_costs(m, prog, tgt[0].len() as int, tgt.len() as int) {
        None => None,
        Some((cost, mf)) => Some(cost + spec_state_similarity(mf, tgt)),
    }
}

/// Compute the total score of `program` against `target_image` from
/// `initial_state`: every move's cost plus the final similarity.
pub fn calc_score(program: &Program, target_image: &Image, initial_state: &State) -> (r: Result<
    i64,
    ProgramExecError,
>)
    requires
        initial_state@.wf(),
        crate::isl::program_wf(program@),
        target_image.wf(),
        program@.len() <= 100000000,
    ensures
        match r {
            Ok(score) => spec_score(program@, target_image@, initial_state@) == Some(score as int)
                && 0 <= score,
            Err(_) => spec_score(program@, target_image@, initial_state@) is None,
        },
{
    let h = target_image.height();
    let w = target_image.width();
    let mut state = initial_state.clone();
    let ghost m0 = initial_state@;
    let ghost prog = program@;
    let mut cost: i64 = 0;
    let mut i: usize = 0;
    proof {
        assert(prog.skip(0) =~= prog);
    }
    while i < program.0.len()
        invariant
            i <= program.0@.len(),
            m0 == initial_state@,
            prog == program@,
            prog.len() == program.0@.len(),
            crate::isl::program_wf(program@),
            prog.len() <= 100000000,
            state@.wf(),
            target_image.wf(),
            w == target_image@[0].len(),
            h == target_image@.len(),
            0 <= cost <= 12000000000 * i,
            spec_prefix_costs(m0, prog, w as int, h as int) == match spec_prefix_costs(
                state@,
                prog.skip(i as int),
                w as int,
                h as int,
            ) {
                None => None::<(int, StateModel)>,
                Some(rest) => Some(((cost + rest.0) as int, rest.1)),
            },
        decreases program.0@.len() - i,
    {
        let ghost before = state@;
        let mv = &program.0[i];
        proof {
            assert(prog.skip(i as int)[0] == prog[i as int]);
            assert(prog[i as int] == program.0@[i as int]@);
            assert(prog[i as int].wf());
        }
        let c = match move_cost(&state, mv, w, h) {
            Some(c) => c,
            None => {
                return Err(program_exec_error(i + 1, mv.clone(), &state));
            },
        };
        proof {
            lemma_move_cost_bound(before, mv@, w as int, h as int);
        }
        match simulate(&mut state, mv) {
            Some(()) => {
                proof {
                    assert(prog.skip(i as int).drop_first() =~= prog.skip(i + 1));
                }
            },
            None => {
                return Err(program_exec_error(i + 1, mv.clone(), &state));
            },
        }
        cost = cost + c;
        i = i + 1;
    }
    proof {
        assert(prog.skip(prog.len() as int).len() == 0);
    }
    let sim = calc_state_similarity(&state, target_image);
    Ok(cost + sim)
}

/// The sum of all move costs of a program, if every move is valid:
/// the cost part of the score, without the final similarity.
pub fn program_cost_sum(program: &Program, initial_state: &State, w: usize, h: usize) -> (r:
    Option<i64>)
    requires
        initial_state@.wf(),
        crate::isl::program_wf(program@),
        0 < w <= MAX_COORD,
        0 < h <= MAX_COORD,
        program@.len() <= 100000000,
    ensures
        match r {
            Some(c) => spec_prefix_costs(initial_state@, program@, w as int, h as int) matches Some(
                p,
            ) && p.0 == c,
            None => spec_prefix_costs(initial_state@, program@, w as int, h as int) is None,
        },
{
    let mut state = initial_state.clone();
    let ghost m0 = initial_state@;
    let ghost prog = program@;
    let mut cost: i64 = 0;
    let mut i: usize = 0;
    proof {
        assert(prog.skip(0) =~= prog);
    }
    while i < program.0.len()
        invariant
            i <= program.0@.len(),
            m0 == initial_state@,
            prog == program@,
            prog.len() == program.0@.len(),
            crate::isl::program_wf(program@),
            prog.len() <= 100000000,
            state@.wf(),
            0 < w <= MAX_COORD,
            0 < h <= MAX_COORD,
            0 <= cost <= 12000000000 * i,
            spec_prefix_costs(m0, prog, w as int, h as int) == match spec_prefix_costs(
                state@,
                prog.skip(i as int),
                w as int,
                h as int,
            ) {
                None => None::<(int, StateModel)>,
                Some(rest) => Some(((cost + rest.0) as int, rest.1)),
            },
        decreases program.0@.len() - i,
    {
        let ghost before = state@;
        let mv = &program.0[i];
        proof {
            assert(prog.skip(i as int)[0] == prog[i as int]);
            assert(prog[i as int] == program.0@[i as int]@);
            assert(prog[i as int].wf());
        }
        let c = match move_cost(&state, mv, w, h) {
            Some(c) => c,
            None => {
                return None;
            },
        };
        proof {
            lemma_move_cost_bound(before, mv@, w as int, h as int);
        }
        match simulate(&mut state, mv) {
            Some(()) => {
                proof {
                    assert(prog.skip(i as int).drop_first() =~= prog.skip(i + 1));
                }
            },
            None => {
                return None;
            },
        }
        cost = cost + c;
        i = i + 1;
    }
    proof {
        assert(prog.skip(prog.len() as int).len() == 0);
    }
    Some(cost)
}

/// Any move cost on a bounded canvas stays below `1.2e10`.
pub proof fn lemma_move_cost_bound(m: StateModel, mv: MoveView, w: int, h: int)
    requires
        m.wf(),
        0 < w <= MAX_COORD,
        0 < h <= MAX_COORD,
    ensures
        match spec_move_cost(m, mv, w, h) {
            Some(c) => 0 <= c <= 12000000000,
            None => true,
        },
{
    if spec_move_cost(m, mv, w, h) is Some {
        lemma_cost_area_positive(m, mv);
        let area = crate::simulator::spec_move_cost_area(m, mv).unwrap();
        let base = crate::simulator::spec_cost_base(m.cost_coeff_version, mv);
        assert(0 <= base <= 10);
        assert(1 <= area <= (MAX_COORD as int) * (MAX_COORD as int));
        assert(0 <= base * w * h <= 10 * (MAX_COORD as int) * (MAX_COORD as int))
            by (nonlinear_arith)
            requires
                0 <= base <= 10,
                0 < w <= MAX_COORD,
                0 < h <= MAX_COORD,
        ;
        let num = base * w * h;
        let c = crate::simulator::round_ratio(num, area);
        assert(0 <= c <= 12000000000) by {
            vstd::arithmetic::div_mod::lemma_div_is_ordered(0, 2 * num + area, 2 * area);
            assert((2 * num + area) / (2 * area) <= (2 * num + area) / 2) by {
                vstd::arithmetic::div_mod::lemma_div_is_ordered_by_denominator(
                    2 * num + area,
                    2,
                    2 * area,
                );
            }
            assert((2 * num + area) / 2 <= num + area);
            assert(num + area <= 12000000000) by (nonlinear_arith)
                requires
                    num <= 10 * (MAX_COORD as int) * (MAX_COORD as int),
                    1 <= area <= (MAX_COORD as int) * (MAX_COORD as int),
            ;
        }
    }
}

/// The area dividing a move's cost is positive in a well-formed state.
proof fn lemma_cost_area_positive(m: StateModel, mv: MoveView)
    requires
        m.wf(),
    ensures
        match crate::simulator::spec_move_cost_area(m, mv) {
            Some(area) => 1 <= area <= (MAX_COORD as int) * (MAX_COORD as int),
            None => true,
        },
{
    match mv {
        MoveView::PCut { block_id, .. } => lemma_lookup_block_area(m, block_id),
        MoveView::LCut { block_id, .. } => lemma_lookup_block_area(m, block_id),
        MoveView::Color { block_id, .. } => lemma_lookup_block_area(m, block_id),
        MoveView::Swap { a, .. } => lemma_lookup_block_area(m, a),
        MoveView::Merge { a, b } => {
            lemma_lookup_block_area(m, a);
            lemma_lookup_block_area(m, b);
        },
    }
}

/// Any block found in a well-formed state has a bounded positive area.
proof fn lemma_lookup_block_area(m: StateModel, id: Seq<u32>)
    requires
        m.wf(),
    ensures
        match crate::state::lookup_blocks(m.blocks, id) {
            Some(b) => 1 <= b.size.x * b.size.y <= (MAX_COORD as int) * (MAX_COORD as int)
                && b.wf(),
            None => true,
        },
{
    crate::state::lemma_lookup_is_entry(m.blocks, id);
    if crate::state::lookup_blocks(m.blocks, id) is Some {
        let b = crate::state::lookup_blocks(m.blocks, id)->Some_0;
        assert(b.wf());
        assert(1 <= b.size.x * b.size.y <= (MAX_COORD as int) * (MAX_COORD as int))
            by (nonlinear_arith)
            requires
                0 < b.size.x <= MAX_COORD,
                0 < b.size.y <= MAX_COORD,
        ;
    }
}


} // verus!
