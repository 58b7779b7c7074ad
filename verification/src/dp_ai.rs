//! The dynamic-programming synthesizer: for a single rectangular block,
//! enumerate recursive cuts and color assignments over a d×d grid of
//! the block, memoize the cheapest cost-plus-similarity for every
//! sub-grid rectangle and candidate color, and reconstruct a program
//! from the memo.
use vstd::prelude::*;

use crate::ai::HeadAI;
use crate::image::Image;
use crate::isl::{program_wf, BlockId, Color, Move, MoveView, Orientation, Point, Program, MAX_COORD};
use crate::kmeans::k_means_color_sampling;
use crate::merge_ai::MergeAI;
use crate::render::rasterize_partial_state;
use crate::similarity::{calc_partial_image_similarity, calc_partial_one_color_similarity};
use crate::simulator::{move_cost_without_state, simulate_all};
use crate::state::{SimpleBlock, State};

verus! {

/// Upper bound on one unit cell's similarity.
pub const DP_CELL_CAP: i64 = 18014398719197184;

/// Upper bound on any memoized value: at most `16 * 16` unit cells.
pub const DP_VALUE_CAP: i64 = 256 * 18014398719197184;

/// A memoized sub-grid descriptor: the cell to recurse into and the
/// candidate color it is evaluated under.
#[derive(Clone, Copy, Debug)]
pub struct Child {
    pub x: usize,
    pub y: usize,
    pub w: usize,
    pub h: usize,
    pub color_id: usize,
}

impl Child {
    pub fn new(x: usize, y: usize, w: usize, h: usize, color_id: usize) -> (r: Child)
        ensures
            r == (Child { x, y, w, h, color_id }),
    {
        Child { x, y, w, h, color_id }
    }
}

/// The move edits the block named `root` or one of its descendants
/// (and is a cut or color move, never a swap or merge).
pub open spec fn move_targets_within(root: Seq<u32>, m: MoveView) -> bool {
    match m {
        MoveView::PCut { block_id, .. } => block_id == root || crate::isl::spec_is_child(
            root,
            block_id,
        ),
        MoveView::LCut { block_id, .. } => block_id == root || crate::isl::spec_is_child(
            root,
            block_id,
        ),
        MoveView::Color { block_id, .. } => block_id == root || crate::isl::spec_is_child(
            root,
            block_id,
        ),
        _ => false,
    }
}

/// The flattened index of cell `(x, y, w, h)` under color `c` in a
/// memo for `nc` colors over a `d`-way grid.
pub open spec fn spec_midx(d: int, c: int, x: int, y: int, w: int, h: int) -> int {
    (((c * d + x) * d + y) * (d + 1) + w) * (d + 1) + h
}

/// The flattened index of unit cell `(x, y)` under color `c`.
pub open spec fn spec_sidx(d: int, c: int, x: int, y: int) -> int {
    (c * d + x) * d + y
}

/// Distinct unit cells use distinct similarity-memo slots.
pub proof fn lemma_sidx_inj(d: int, c1: int, x1: int, y1: int, c2: int, x2: int, y2: int)
    requires
        1 <= d,
        0 <= c1,
        0 <= x1 < d,
        0 <= y1 < d,
        0 <= c2,
        0 <= x2 < d,
        0 <= y2 < d,
        spec_sidx(d, c1, x1, y1) == spec_sidx(d, c2, x2, y2),
    ensures
        c1 == c2 && x1 == x2 && y1 == y2,
{
    let i = spec_sidx(d, c1, x1, y1);
    assert(0 <= c1 * d + x1) by (nonlinear_arith)
        requires
            0 <= c1,
            0 <= x1,
            1 <= d,
    ;
    assert(0 <= c2 * d + x2) by (nonlinear_arith)
        requires
            0 <= c2,
            0 <= x2,
            1 <= d,
    ;
    vstd::arithmetic::div_mod::lemma_fundamental_div_mod_converse(i, d, c1 * d + x1, y1);
    vstd::arithmetic::div_mod::lemma_fundamental_div_mod_converse(i, d, c2 * d + x2, y2);
    assert(c1 * d + x1 == c2 * d + x2);
    vstd::arithmetic::div_mod::lemma_fundamental_div_mod_converse(c1 * d + x1, d, c1, x1);
    vstd::arithmetic::div_mod::lemma_fundamental_div_mod_converse(c2 * d + x2, d, c2, x2);
}

/// Distinct cells use distinct memo slots.
pub proof fn lemma_midx_inj(
    d: int,
    c1: int,
    x1: int,
    y1: int,
    w1: int,
    h1: int,
    c2: int,
    x2: int,
    y2: int,
    w2: int,
    h2: int,
)
    requires
        1 <= d,
        0 <= c1,
        0 <= x1 < d,
        0 <= y1 < d,
        0 <= w1 < d + 1,
        0 <= h1 < d + 1,
        0 <= c2,
        0 <= x2 < d,
        0 <= y2 < d,
        0 <= w2 < d + 1,
        0 <= h2 < d + 1,
        spec_midx(d, c1, x1, y1, w1, h1) == spec_midx(d, c2, x2, y2, w2, h2),
    ensures
        c1 == c2 && x1 == x2 && y1 == y2 && w1 == w2 && h1 == h2,
{
    let i = spec_midx(d, c1, x1, y1, w1, h1);
    assert(0 <= (c1 * d + x1) * d + y1 && 0 <= ((c1 * d + x1) * d + y1) * (d + 1) + w1)
        by (nonlinear_arith)
        requires
            0 <= c1,
            0 <= x1,
            0 <= y1,
            0 <= w1,
            1 <= d,
    ;
    assert(0 <= (c2 * d + x2) * d + y2 && 0 <= ((c2 * d + x2) * d + y2) * (d + 1) + w2)
        by (nonlinear_arith)
        requires
            0 <= c2,
            0 <= x2,
            0 <= y2,
            0 <= w2,
            1 <= d,
    ;
    vstd::arithmetic::div_mod::lemma_fundamental_div_mod_converse(
        i,
        d + 1,
        ((c1 * d + x1) * d + y1) * (d + 1) + w1,
        h1,
    );
    vstd::arithmetic::div_mod::lemma_fundamental_div_mod_converse(
        i,
        d + 1,
        ((c2 * d + x2) * d + y2) * (d + 1) + w2,
        h2,
    );
    assert(((c1 * d + x1) * d + y1) * (d + 1) + w1 == ((c2 * d + x2) * d + y2) * (d + 1) + w2);
    vstd::arithmetic::div_mod::lemma_fundamental_div_mod_converse(
        ((c1 * d + x1) * d + y1) * (d + 1) + w1,
        d + 1,
        (c1 * d + x1) * d + y1,
        w1,
    );
    vstd::arithmetic::div_mod::lemma_fundamental_div_mod_converse(
        ((c2 * d + x2) * d + y2) * (d + 1) + w2,
        d + 1,
        (c2 * d + x2) * d + y2,
        w2,
    );
    lemma_sidx_inj(d, c1, x1, y1, c2, x2, y2);
}

/// The similarity of one unit cell of the grid over a block, under a
/// candidate color: the distance of the target against a solid fill,
/// or against the block's pre-rendered contents for the sentinel.
pub open spec fn dp_cell_sim(
    tgt: Seq<Seq<Color>>,
    init: Seq<Seq<Color>>,
    blk: SimpleBlock,
    d: int,
    colors: Seq<Color>,
    nx: int,
    ny: int,
    c: int,
) -> int {
    let x0 = blk.p.x + grid_off(nx, blk.size.x as int, d);
    let x1 = blk.p.x + grid_off(nx + 1, blk.size.x as int, d);
    let y0 = blk.p.y + grid_off(ny, blk.size.y as int, d);
    let y1 = blk.p.y + grid_off(ny + 1, blk.size.y as int, d);
    if colors[c].is_invalid_sentinel() {
        crate::similarity::sim_round(crate::similarity::rect_dist(init, tgt, x0, x1, y0, y1))
    } else {
        crate::similarity::sim_round(
            crate::similarity::rect_dist_color(colors[c], tgt, x0, x1, y0, y1),
        )
    }
}

/// The summed similarity of one grid column's first `h` cells.
pub open spec fn dp_col_sim(
    tgt: Seq<Seq<Color>>,
    init: Seq<Seq<Color>>,
    blk: SimpleBlock,
    d: int,
    colors: Seq<Color>,
    nx: int,
    y: int,
    h: int,
    c: int,
) -> int
    decreases h,
{
    if h <= 0 {
        0
    } else {
        dp_col_sim(tgt, init, blk, d, colors, nx, y, h - 1, c) + dp_cell_sim(
            tgt,
            init,
            blk,
            d,
            colors,
            nx,
            y + h - 1,
            c,
        )
    }
}

/// The summed similarity of the sub-grid rectangle `(x, y, w, h)`.
pub open spec fn dp_cells_sim(
    tgt: Seq<Seq<Color>>,
    init: Seq<Seq<Color>>,
    blk: SimpleBlock,
    d: int,
    colors: Seq<Color>,
    x: int,
    y: int,
    w: int,
    h: int,
    c: int,
) -> int
    decreases w,
{
    if w <= 0 {
        0
    } else {
        dp_cells_sim(tgt, init, blk, d, colors, x, y, w - 1, h, c) + dp_col_sim(
            tgt,
            init,
            blk,
            d,
            colors,
            x + w - 1,
            y,
            h,
            c,
        )
    }
}

/// Everything the synthesizer's value recurrence depends on: the
/// target image, the pre-rendered initial window, the block, the grid
/// arity, the candidate colors, and the cost-table version.
pub ghost struct DpCtx {
    pub tgt: Seq<Seq<Color>>,
    pub init: Seq<Seq<Color>>,
    pub blk: SimpleBlock,
    pub d: int,
    pub colors: Seq<Color>,
    pub version: u8,
}

/// The smaller of two candidate values.
pub open spec fn min2(a: int, b: int) -> int {
    if a <= b {
        a
    } else {
        b
    }
}

/// A value no transition family can reach: stands for an empty
/// minimum.
pub open spec fn dp_inf() -> int {
    100 * (DP_VALUE_CAP as int)
}

/// The pixel area of the sub-grid rectangle `(x, y, w, h)`.
pub open spec fn dp_rect_area(blk: SimpleBlock, d: int, x: int, y: int, w: int, h: int) -> int {
    (grid_off(x + w, blk.size.x as int, d) - grid_off(x, blk.size.x as int, d)) * (grid_off(
        y + h,
        blk.size.y as int,
        d,
    ) - grid_off(y, blk.size.y as int, d))
}

/// The cost a hypothetical move of `mv`'s kind incurs against the
/// sub-grid rectangle `(x, y, w, h)`, on the full target canvas.
pub open spec fn dp_move_cost(ctx: DpCtx, mv: MoveView, x: int, y: int, w: int, h: int) -> int {
    crate::simulator::round_ratio(
        crate::simulator::spec_cost_base(ctx.version, mv) * (ctx.tgt[0].len() as int) * (
        ctx.tgt.len() as int),
        dp_rect_area(ctx.blk, ctx.d, x, y, w, h),
    )
}

/// The cost of first repainting the sub-grid with candidate `c`: free
/// when `c` is the slot the cell already shows.
pub open spec fn dp_ncost(ctx: DpCtx, x: int, y: int, w: int, h: int, c0: int, c: int) -> int {
    if c == c0 {
        0
    } else {
        dp_move_cost(
            ctx,
            MoveView::Color { block_id: Seq::empty(), color: ctx.colors[c] },
            x,
            y,
            w,
            h,
        )
    }
}

/// One point-cut transition: repaint to `c`, cut at grid corner
/// `(x + lw, y + lh)`, and solve the four children under `c`.
pub open spec fn dp_pcut_opt(
    ctx: DpCtx,
    x: int,
    y: int,
    w: int,
    h: int,
    c0: int,
    c: int,
    lw: int,
    lh: int,
) -> int
    decreases w + h, 2int, lw, lh,
{
    if 1 <= lw < w && 1 <= lh < h {
        dp_ncost(ctx, x, y, w, h, c0, c) + dp_move_cost(
            ctx,
            MoveView::PCut { block_id: Seq::empty(), point: Point { x: 0, y: 0 } },
            x,
            y,
            w,
            h,
        ) + dp_value(ctx, x, y, lw, lh, c) + dp_value(ctx, x + lw, y, w - lw, lh, c) + dp_value(
            ctx,
            x + lw,
            y + lh,
            w - lw,
            h - lh,
            c,
        ) + dp_value(ctx, x, y + lh, lw, h - lh, c)
    } else {
        dp_inf()
    }
}

/// One vertical line-cut transition: repaint to `c`, cut at grid
/// column `x + lw`, and solve the two children under `c`.
pub open spec fn dp_vcut_opt(
    ctx: DpCtx,
    x: int,
    y: int,
    w: int,
    h: int,
    c0: int,
    c: int,
    lw: int,
) -> int
    decreases w + h, 2int, lw, 0int,
{
    if 1 <= lw < w && 1 <= h {
        dp_ncost(ctx, x, y, w, h, c0, c) + dp_move_cost(
            ctx,
            MoveView::LCut {
                block_id: Seq::empty(),
                orientation: Orientation::Vertical,
                line_number: 0,
            },
            x,
            y,
            w,
            h,
        ) + dp_value(ctx, x, y, lw, h, c) + dp_value(ctx, x + lw, y, w - lw, h, c)
    } else {
        dp_inf()
    }
}

/// One horizontal line-cut transition: repaint to `c`, cut at grid
/// row `y + lh`, and solve the two children under `c`.
pub open spec fn dp_hcut_opt(
    ctx: DpCtx,
    x: int,
    y: int,
    w: int,
    h: int,
    c0: int,
    c: int,
    lh: int,
) -> int
    decreases w + h, 2int, lh, 0int,
{
    if 1 <= lh < h && 1 <= w {
        dp_ncost(ctx, x, y, w, h, c0, c) + dp_move_cost(
            ctx,
            MoveView::LCut {
                block_id: Seq::empty(),
                orientation: Orientation::Horizontal,
                line_number: 0,
            },
            x,
            y,
            w,
            h,
        ) + dp_value(ctx, x, y, w, lh, c) + dp_value(ctx, x, y + lh, w, h - lh, c)
    } else {
        dp_inf()
    }
}

/// `s` lowered by the repaint-and-stop transition to `c`, when that
/// transition exists (it is the base case again for the current slot).
pub open spec fn dp_stop_done(
    ctx: DpCtx,
    x: int,
    y: int,
    w: int,
    h: int,
    c0: int,
    c: int,
    s: int,
) -> int {
    if c == c0 {
        s
    } else {
        min2(
            s,
            dp_ncost(ctx, x, y, w, h, c0, c) + dp_cells_sim(
                ctx.tgt,
                ctx.init,
                ctx.blk,
                ctx.d,
                ctx.colors,
                x,
                y,
                w,
                h,
                c,
            ),
        )
    }
}

/// `s` lowered by every point cut at column `lw` with row split below
/// `lh`.
pub open spec fn dp_pcut_row_done(
    ctx: DpCtx,
    x: int,
    y: int,
    w: int,
    h: int,
    c0: int,
    c: int,
    lw: int,
    lh: int,
    s: int,
) -> int
    decreases w + h, 2int, lw, lh,
{
    if lh <= 1 || w < 2 || h < 2 {
        s
    } else {
        min2(
            dp_pcut_row_done(ctx, x, y, w, h, c0, c, lw, lh - 1, s),
            dp_pcut_opt(ctx, x, y, w, h, c0, c, lw, lh - 1),
        )
    }
}

/// `s` lowered by every point cut with column split below `lw`.
pub open spec fn dp_pcut_done(
    ctx: DpCtx,
    x: int,
    y: int,
    w: int,
    h: int,
    c0: int,
    c: int,
    lw: int,
    s: int,
) -> int
    decreases w + h, 3int, lw, 0int,
{
    if lw <= 1 || w < 2 || h < 2 {
        s
    } else {
        dp_pcut_row_done(ctx, x, y, w, h, c0, c, lw - 1, h, dp_pcut_done(ctx, x, y, w, h, c0, c, lw - 1, s))
    }
}

/// `s` lowered by every vertical line cut at a column below `lw`.
pub open spec fn dp_vcut_done(
    ctx: DpCtx,
    x: int,
    y: int,
    w: int,
    h: int,
    c0: int,
    c: int,
    lw: int,
    s: int,
) -> int
    decreases w + h, 3int, lw, 0int,
{
    if lw <= 1 || w < 2 || h < 1 {
        s
    } else {
        min2(
            dp_vcut_done(ctx, x, y, w, h, c0, c, lw - 1, s),
            dp_vcut_opt(ctx, x, y, w, h, c0, c, lw - 1),
        )
    }
}

/// `s` lowered by every horizontal line cut at a row below `lh`.
pub open spec fn dp_hcut_done(
    ctx: DpCtx,
    x: int,
    y: int,
    w: int,
    h: int,
    c0: int,
    c: int,
    lh: int,
    s: int,
) -> int
    decreases w + h, 3int, lh, 0int,
{
    if lh <= 1 || h < 2 || w < 1 {
        s
    } else {
        min2(
            dp_hcut_done(ctx, x, y, w, h, c0, c, lh - 1, s),
            dp_hcut_opt(ctx, x, y, w, h, c0, c, lh - 1),
        )
    }
}

/// `s` lowered by every transition through candidate color `c`: the
/// repaint-and-stop option and all point, vertical and horizontal
/// cuts taken after repainting to `c`.
pub open spec fn dp_color_step(
    ctx: DpCtx,
    x: int,
    y: int,
    w: int,
    h: int,
    c0: int,
    c: int,
    s: int,
) -> int
    decreases w + h, 4int, 0int, 0int,
{
    if w < 1 || h < 1 {
        s
    } else {
        dp_hcut_done(
            ctx,
            x,
            y,
            w,
            h,
            c0,
            c,
            h,
            dp_vcut_done(
                ctx,
                x,
                y,
                w,
                h,
                c0,
                c,
                w,
                dp_pcut_done(ctx, x, y, w, h, c0, c, w, dp_stop_done(ctx, x, y, w, h, c0, c, s)),
            ),
        )
    }
}

/// The minimum of the no-move base case and every transition through
/// the first `c` candidate colors, in their sampling order.  A
/// sentinel candidate is skipped unless it is the current slot.
pub open spec fn dp_color_fold(
    ctx: DpCtx,
    x: int,
    y: int,
    w: int,
    h: int,
    c0: int,
    c: int,
) -> int
    decreases w + h, 5int, c, 0int,
{
    if c <= 0 || w < 1 || h < 1 {
        dp_cells_sim(ctx.tgt, ctx.init, ctx.blk, ctx.d, ctx.colors, x, y, w, h, c0)
    } else if ctx.colors[c - 1].is_invalid_sentinel() && c - 1 != c0 {
        dp_color_fold(ctx, x, y, w, h, c0, c - 1)
    } else {
        dp_color_step(ctx, x, y, w, h, c0, c - 1, dp_color_fold(ctx, x, y, w, h, c0, c - 1))
    }
}

/// The recurrence the synthesizer solves: the cheapest cost plus
/// per-cell similarity for the sub-grid rectangle `(x, y, w, h)` when
/// its contents currently show candidate slot `c0` — the minimum of
/// leaving the rectangle as it is and every repaint and grid-aligned
/// cut transition.
pub open spec fn dp_value(ctx: DpCtx, x: int, y: int, w: int, h: int, c0: int) -> int
    decreases w + h, 6int, 0int, 0int,
{
    if 1 <= w && 1 <= h {
        dp_color_fold(ctx, x, y, w, h, c0, ctx.colors.len() as int)
    } else {
        0
    }
}

/// A stored reconstruction step: up to two moves (an optional color
/// move and a cut) and up to four child cells.
pub open spec fn plan_wf(moves: Seq<Move>, childs: Seq<Child>, d: int, nc: int) -> bool {
    &&& moves.len() <= 2
    &&& forall|i: int| 0 <= i < moves.len() ==> {
        &&& (#[trigger] moves[i])@.wf()
        &&& !(moves[i]@ matches MoveView::Swap { .. })
        &&& !(moves[i]@ matches MoveView::Merge { .. })
    }
    &&& childs.len() <= 4
    &&& forall|i: int| 0 <= i < childs.len() ==> {
        let c = #[trigger] childs[i];
        &&& 1 <= c.w
        &&& 1 <= c.h
        &&& c.x + c.w <= d
        &&& c.y + c.h <= d
        &&& c.color_id < nc
    }
}

pub struct DpAI {
    pub divide_num: usize,
    pub sample_color_num: usize,
    pub k_means_iter_num: usize,
    pub rng: rand::rngs::ThreadRng,
    pub sampled_color: Vec<Color>,
    pub memo: Vec<i64>,
    pub memo_restore: Vec<Option<(Vec<Move>, Vec<Child>)>>,
    pub similarity_memo: Vec<i64>,
    pub target_image: Image,
    pub initial_state: State,
    pub initial_block_id: Option<BlockId>,
    pub initial_block: SimpleBlock,
    pub initial_image: Image,
}

impl DpAI {
    /// The recurrence context this synthesizer instance evaluates
    /// under.
    pub open spec fn dp_ctx(self) -> DpCtx {
        DpCtx {
            tgt: self.target_image@,
            init: self.initial_image@,
            blk: self.initial_block,
            d: self.divide_num as int,
            colors: self.sampled_color@,
            version: self.initial_state@.cost_coeff_version,
        }
    }

    /// Everything `calc` needs of the synthesizer's tables and inputs.
    pub open spec fn ctx_wf(self) -> bool {
        let d = self.divide_num as int;
        let nc = self.sampled_color@.len() as int;
        &&& 1 <= d <= 16
        &&& 1 <= nc <= 18
        &&& self.memo@.len() == nc * d * d * (d + 1) * (d + 1)
        &&& self.memo_restore@.len() == nc * d * d * (d + 1) * (d + 1)
        &&& self.similarity_memo@.len() == nc * d * d
        &&& (forall|i: int| 0 <= i < self.memo@.len() ==> ((#[trigger] self.memo@[i]) == i64::MIN
            || (0 <= self.memo@[i] <= DP_VALUE_CAP)))
        &&& (forall|cc: int, xx: int, yy: int, ww: int, hh: int|
            0 <= cc < nc && 0 <= xx < d && 0 <= yy < d && 0 <= ww < d + 1 && 0 <= hh < d + 1
                ==> ((#[trigger] self.memo@[spec_midx(d, cc, xx, yy, ww, hh)]) == i64::MIN
                || self.memo@[spec_midx(d, cc, xx, yy, ww, hh)] == dp_value(
                self.dp_ctx(),
                xx,
                yy,
                ww,
                hh,
                cc,
            )))
        &&& (forall|i: int| 0 <= i < self.similarity_memo@.len() ==> -1 <= (
        #[trigger] self.similarity_memo@[i]) <= DP_CELL_CAP)
        &&& (forall|cc: int, xx: int, yy: int|
            0 <= cc < nc && 0 <= xx < d && 0 <= yy < d ==> ((#[trigger] self.similarity_memo@[
                spec_sidx(d, cc, xx, yy)]) == -1 || self.similarity_memo@[spec_sidx(d, cc, xx, yy)]
                == dp_cell_sim(
                self.target_image@,
                self.initial_image@,
                self.initial_block,
                d,
                self.sampled_color@,
                xx,
                yy,
                cc,
            )))
        &&& (forall|i: int| 0 <= i < self.memo_restore@.len() ==> match #[trigger] self.memo_restore@[i] {
            Some(p) => plan_wf(p.0@, p.1@, d, nc),
            None => true,
        })
        &&& (forall|i: int| 0 <= i < nc ==> (#[trigger] self.sampled_color@[i]).wf())
        &&& self.target_image.wf()
        &&& self.initial_image.wf()
        &&& self.initial_image@.len() == self.target_image@.len()
        &&& self.initial_image@[0].len() == self.target_image@[0].len()
        &&& self.initial_block.wf()
        &&& self.initial_block.p.x + self.initial_block.size.x <= self.target_image@[0].len()
        &&& self.initial_block.p.y + self.initial_block.size.y <= self.target_image@.len()
        &&& d <= self.initial_block.size.x
        &&& d <= self.initial_block.size.y
        &&& self.initial_state@.cost_coeff_version < 2
    }

    /// The context `calc` works under never changes beneath it.
    pub open spec fn ctx_eq(self, other: DpAI) -> bool {
        &&& self.divide_num == other.divide_num
        &&& self.sample_color_num == other.sample_color_num
        &&& self.k_means_iter_num == other.k_means_iter_num
        &&& self.sampled_color@ == other.sampled_color@
        &&& self.target_image@ == other.target_image@
        &&& self.initial_state@ == other.initial_state@
        &&& self.initial_block == other.initial_block
        &&& self.initial_image@ == other.initial_image@
    }

    pub fn new(
        divide_num: usize,
        sample_color_num: usize,
        k_means_iter_num: usize,
        initial_block_id: Option<BlockId>,
    ) -> (r: DpAI)
        requires
            2 <= divide_num <= 16,
            1 <= sample_color_num <= 16,
            k_means_iter_num <= 1000,
        ensures
            r.divide_num == divide_num,
            r.sample_color_num == sample_color_num,
            r.k_means_iter_num == k_means_iter_num,
            r.initial_block_id == initial_block_id,
    {
        DpAI {
            divide_num,
            sample_color_num,
            k_means_iter_num,
            rng: crate::rng::new_rng(),
            sampled_color: Vec::new(),
            memo: Vec::new(),
            memo_restore: Vec::new(),
            similarity_memo: Vec::new(),
            target_image: Image::new(1, 1),
            initial_state: State::initial_state(1, 1, 0),
            initial_block_id,
            initial_block: SimpleBlock::new(
                Point::new(0, 0),
                Point::new(1, 1),
                Color::white(),
            ),
            initial_image: Image::new(1, 1),
        }
    }

    /// The flattened memo index of cell `(x, y, w, h)` under color `c`.
    fn midx(&self, c: usize, x: usize, y: usize, w: usize, h: usize) -> (r: usize)
        requires
            self.ctx_wf(),
            c < self.sampled_color@.len(),
            x < self.divide_num,
            y < self.divide_num,
            w <= self.divide_num,
            h <= self.divide_num,
        ensures
            r < self.memo@.len(),
            r == spec_midx(
                self.divide_num as int,
                c as int,
                x as int,
                y as int,
                w as int,
                h as int,
            ),
    {
        let d = self.divide_num;
        let nc = self.sampled_color.len();
        proof {
            lemma_midx_bound(nc as int, d as int, c as int, x as int, y as int, w as int, h as int);
            assert(0 <= c * d + x <= 287) by (nonlinear_arith)
                requires
                    0 <= c <= 17,
                    0 <= x < d,
                    1 <= d <= 16,
            ;
            assert(0 <= (c * d + x) * d + y <= 4607) by (nonlinear_arith)
                requires
                    0 <= c * d + x <= 287,
                    0 <= y < d,
                    1 <= d <= 16,
            ;
            assert(0 <= ((c * d + x) * d + y) * (d + 1) + w <= 78335) by (nonlinear_arith)
                requires
                    0 <= (c * d + x) * d + y <= 4607,
                    0 <= w <= d,
                    1 <= d <= 16,
            ;
            assert(0 <= (((c * d + x) * d + y) * (d + 1) + w) * (d + 1) + h <= 1331711)
                by (nonlinear_arith)
                requires
                    0 <= ((c * d + x) * d + y) * (d + 1) + w <= 78335,
                    0 <= h <= d,
                    1 <= d <= 16,
            ;
        }
        (((c * d + x) * d + y) * (d + 1) + w) * (d + 1) + h
    }

    /// The flattened similarity-memo index of unit cell `(x, y)` under
    /// color `c`.
    fn sidx(&self, c: usize, x: usize, y: usize) -> (r: usize)
        requires
            self.ctx_wf(),
            c < self.sampled_color@.len(),
            x < self.divide_num,
            y < self.divide_num,
        ensures
            r < self.similarity_memo@.len(),
            r == spec_sidx(self.divide_num as int, c as int, x as int, y as int),
    {
        let d = self.divide_num;
        let nc = self.sampled_color.len();
        proof {
            lemma_sidx_bound(nc as int, d as int, c as int, x as int, y as int);
            assert(0 <= c * d + x <= 287) by (nonlinear_arith)
                requires
                    0 <= c <= 17,
                    0 <= x < d,
                    1 <= d <= 16,
            ;
            assert(0 <= (c * d + x) * d + y <= 4607) by (nonlinear_arith)
                requires
                    0 <= c * d + x <= 287,
                    0 <= y < d,
                    1 <= d <= 16,
            ;
        }
        (c * d + x) * d + y
    }

    /// The pixel position of grid corner `(x, y)` within the block:
    /// offsets grow in proportion, clamped to the block's extent.
    pub fn convert_point(&self, x: usize, y: usize) -> (r: Point)
        requires
            self.ctx_wf(),
            x <= self.divide_num,
            y <= self.divide_num,
        ensures
            r.x == self.initial_block.p.x + grid_off(
                x as int,
                self.initial_block.size.x as int,
                self.divide_num as int,
            ),
            r.y == self.initial_block.p.y + grid_off(
                y as int,
                self.initial_block.size.y as int,
                self.divide_num as int,
            ),
    {
        let d = self.divide_num;
        let bw = self.initial_block.size.x as usize;
        let bh = self.initial_block.size.y as usize;
        proof {
            assert(x * bw <= 16 * 32768) by (nonlinear_arith)
                requires
                    x <= 16,
                    bw <= 32768,
            ;
            assert(y * bh <= 16 * 32768) by (nonlinear_arith)
                requires
                    y <= 16,
                    bh <= 32768,
            ;
            lemma_grid_off_bounds(x as int, bw as int, d as int);
            lemma_grid_off_bounds(y as int, bh as int, d as int);
        }
        let ox = x * bw / d;
        let oy = y * bh / d;
        let lx = if ox < bw {
            ox
        } else {
            bw
        };
        let ly = if oy < bh {
            oy
        } else {
            bh
        };
        Point::new(self.initial_block.p.x + lx as i32, self.initial_block.p.y + ly as i32)
    }

    /// Similarity of the sub-grid rectangle `(x, y, w, h)` under
    /// candidate color `color_id`: the sum of its unit cells'
    /// similarities, memoized per cell.
    pub fn calc_similarity(&mut self, x: usize, y: usize, w: usize, h: usize, color_id: usize) -> (r:
        i64)
        requires
            old(self).ctx_wf(),
            x + w <= old(self).divide_num,
            y + h <= old(self).divide_num,
            color_id < old(self).sampled_color@.len(),
        ensures
            final(self).ctx_wf(),
            final(self).ctx_eq(*old(self)),
            final(self).memo@ == old(self).memo@,
            final(self).memo_restore@ == old(self).memo_restore@,
            0 <= r <= 256 * DP_CELL_CAP,
            r == dp_cells_sim(
                old(self).target_image@,
                old(self).initial_image@,
                old(self).initial_block,
                old(self).divide_num as int,
                old(self).sampled_color@,
                x as int,
                y as int,
                w as int,
                h as int,
                color_id as int,
            ),
    {
        let mut ret: i64 = 0;
        let mut dx: usize = 0;
        let ghost orig = *old(self);
        while dx < w
            invariant
                dx <= w,
                self.ctx_wf(),
                self.ctx_eq(orig),
                self.memo@ == orig.memo@,
                self.memo_restore@ == orig.memo_restore@,
                x + w <= self.divide_num,
                y + h <= self.divide_num,
                color_id < self.sampled_color@.len(),
                0 <= ret <= (dx * 16 as int) * DP_CELL_CAP,
                ret == dp_cells_sim(
                    orig.target_image@,
                    orig.initial_image@,
                    orig.initial_block,
                    orig.divide_num as int,
                    orig.sampled_color@,
                    x as int,
                    y as int,
                    dx as int,
                    h as int,
                    color_id as int,
                ),
                self.divide_num <= 16,
                h <= 16,
            decreases w - dx,
        {
            let nx = x + dx;
            let mut dy: usize = 0;
            while dy < h
                invariant
                    dy <= h,
                    dx < w,
                    nx == x + dx,
                    self.ctx_wf(),
                    self.ctx_eq(orig),
                    self.memo@ == orig.memo@,
                    self.memo_restore@ == orig.memo_restore@,
                    x + w <= self.divide_num,
                    y + h <= self.divide_num,
                    color_id < self.sampled_color@.len(),
                    0 <= ret <= (dx * 16 as int) * DP_CELL_CAP + (dy as int) * DP_CELL_CAP,
                    ret == dp_cells_sim(
                        orig.target_image@,
                        orig.initial_image@,
                        orig.initial_block,
                        orig.divide_num as int,
                        orig.sampled_color@,
                        x as int,
                        y as int,
                        dx as int,
                        h as int,
                        color_id as int,
                    ) + dp_col_sim(
                        orig.target_image@,
                        orig.initial_image@,
                        orig.initial_block,
                        orig.divide_num as int,
                        orig.sampled_color@,
                        nx as int,
                        y as int,
                        dy as int,
                        color_id as int,
                    ),
                    self.divide_num <= 16,
                    h <= 16,
                decreases h - dy,
            {
                let ny = y + dy;
                let si = self.sidx(color_id, nx, ny);
                let ghost cell_spec = dp_cell_sim(
                    self.target_image@,
                    self.initial_image@,
                    self.initial_block,
                    self.divide_num as int,
                    self.sampled_color@,
                    nx as int,
                    ny as int,
                    color_id as int,
                );
                let stored = self.similarity_memo[si];
                let s: i64;
                if stored >= 0 {
                    s = stored;
                    proof {
                        assert(s == cell_spec);
                    }
                } else {
                    let lt = self.convert_point(nx, ny);
                    let rb = self.convert_point(nx + 1, ny + 1);
                    proof {
                        lemma_grid_off_mono(
                            nx as int,
                            nx + 1,
                            self.initial_block.size.x as int,
                            self.divide_num as int,
                        );
                        lemma_grid_off_mono(
                            ny as int,
                            ny + 1,
                            self.initial_block.size.y as int,
                            self.divide_num as int,
                        );
                        lemma_grid_off_bounds(
                            nx as int,
                            self.initial_block.size.x as int,
                            self.divide_num as int,
                        );
                        lemma_grid_off_bounds(
                            nx + 1,
                            self.initial_block.size.x as int,
                            self.divide_num as int,
                        );
                        lemma_grid_off_bounds(
                            ny as int,
                            self.initial_block.size.y as int,
                            self.divide_num as int,
                        );
                        lemma_grid_off_bounds(
                            ny + 1,
                            self.initial_block.size.y as int,
                            self.divide_num as int,
                        );
                    }
                    let size = Point::new(rb.x - lt.x, rb.y - lt.y);
                    let c = self.sampled_color[color_id];
                    if c.is_invalid() {
                        s = calc_partial_image_similarity(
                            lt,
                            size,
                            &self.initial_image,
                            &self.target_image,
                        );
                    } else {
                        s = calc_partial_one_color_similarity(lt, size, c, &self.target_image);
                    }
                    proof {
                        let d_ = self.divide_num as int;
                        assert(lt.x + size.x <= self.target_image@[0].len()) by {
                            lemma_grid_off_bounds(
                                nx + 1,
                                self.initial_block.size.x as int,
                                d_,
                            );
                        }
                        assert(lt.y + size.y <= self.target_image@.len()) by {
                            lemma_grid_off_bounds(
                                ny + 1,
                                self.initial_block.size.y as int,
                                d_,
                            );
                        }
                        assert(s == cell_spec);
                    }
                    let ghost pre_memo = self.similarity_memo@;
                    self.similarity_memo.set(si, s);
                    proof {
                        let d_ = self.divide_num as int;
                        let nc_ = self.sampled_color@.len() as int;
                        assert forall|cc: int, xx: int, yy: int|
                            0 <= cc < nc_ && 0 <= xx < d_ && 0 <= yy < d_ implies ((
                        #[trigger] self.similarity_memo@[spec_sidx(d_, cc, xx, yy)]) == -1
                            || self.similarity_memo@[spec_sidx(d_, cc, xx, yy)] == dp_cell_sim(
                            self.target_image@,
                            self.initial_image@,
                            self.initial_block,
                            d_,
                            self.sampled_color@,
                            xx,
                            yy,
                            cc,
                        )) by {
                            lemma_sidx_bound(nc_, d_, cc, xx, yy);
                            assert(0 <= spec_sidx(d_, cc, xx, yy)) by (nonlinear_arith)
                                requires
                                    0 <= cc,
                                    0 <= xx,
                                    0 <= yy,
                                    1 <= d_,
                            ;
                            if spec_sidx(d_, cc, xx, yy) == si as int {
                                lemma_sidx_inj(
                                    d_,
                                    cc,
                                    xx,
                                    yy,
                                    color_id as int,
                                    nx as int,
                                    ny as int,
                                );
                            } else {
                                assert(self.similarity_memo@[spec_sidx(d_, cc, xx, yy)]
                                    == pre_memo[spec_sidx(d_, cc, xx, yy)]);
                            }
                        }
                        assert(self.ctx_wf());
                    }
                }
                proof {
                    assert((dx * 16 as int) * DP_CELL_CAP + ((dy + 1) as int) * DP_CELL_CAP <= (16
                        * 16 as int) * DP_CELL_CAP) by (nonlinear_arith)
                        requires
                            0 <= dx < 16,
                            0 <= dy < 16,
                    ;
                }
                ret = ret + s;
                dy = dy + 1;
            }
            proof {
                assert(((dx + 1) * 16 as int) * DP_CELL_CAP == (dx * 16 as int) * DP_CELL_CAP + (16
                    as int) * DP_CELL_CAP) by (nonlinear_arith);
                assert((h as int) * DP_CELL_CAP <= (16 as int) * DP_CELL_CAP) by (nonlinear_arith)
                    requires
                        h <= 16,
                ;
            }
            dx = dx + 1;
        }
        proof {
            assert((dx * 16 as int) * DP_CELL_CAP <= (256 as int) * DP_CELL_CAP) by (nonlinear_arith)
                requires
                    0 <= dx <= 16,
            ;
        }
        ret
    }

    /// The pixel area of the sub-grid rectangle `(x, y, w, h)`.
    fn cell_area(&self, x: usize, y: usize, w: usize, h: usize) -> (r: usize)
        requires
            self.ctx_wf(),
            1 <= w,
            1 <= h,
            x + w <= self.divide_num,
            y + h <= self.divide_num,
        ensures
            1 <= r <= MAX_COORD * MAX_COORD,
            r == dp_rect_area(
                self.initial_block,
                self.divide_num as int,
                x as int,
                y as int,
                w as int,
                h as int,
            ),
    {
        let lt = self.convert_point(x, y);
        let rb = self.convert_point(x + w, y + h);
        proof {
            lemma_grid_off_strict(
                x as int,
                (x + w) as int,
                self.initial_block.size.x as int,
                self.divide_num as int,
            );
            lemma_grid_off_strict(
                y as int,
                (y + h) as int,
                self.initial_block.size.y as int,
                self.divide_num as int,
            );
            lemma_grid_off_bounds(
                (x + w) as int,
                self.initial_block.size.x as int,
                self.divide_num as int,
            );
            lemma_grid_off_bounds(
                (y + h) as int,
                self.initial_block.size.y as int,
                self.divide_num as int,
            );
            lemma_grid_off_bounds(x as int, self.initial_block.size.x as int, self.divide_num as int);
            lemma_grid_off_bounds(y as int, self.initial_block.size.y as int, self.divide_num as int);
            assert(((rb.x - lt.x) as int) * ((rb.y - lt.y) as int) <= (MAX_COORD as int) * (
            MAX_COORD as int)) by (nonlinear_arith)
                requires
                    1 <= rb.x - lt.x <= MAX_COORD,
                    1 <= rb.y - lt.y <= MAX_COORD,
            ;
            assert(1 <= ((rb.x - lt.x) as int) * ((rb.y - lt.y) as int)) by (nonlinear_arith)
                requires
                    1 <= rb.x - lt.x,
                    1 <= rb.y - lt.y,
            ;
        }
        ((rb.x - lt.x) as usize) * ((rb.y - lt.y) as usize)
    }

    /// The best cost-plus-similarity achievable for the sub-grid
    /// rectangle `(x, y, w, h)` when its current contents are the
    /// candidate color `color_id`, memoized.
    #[verifier::loop_isolation(false)]
    #[verifier::rlimit(100)]
    pub fn calc(&mut self, x: usize, y: usize, w: usize, h: usize, color_id: usize) -> (r: i64)
        requires
            old(self).ctx_wf(),
            1 <= w,
            1 <= h,
            x + w <= old(self).divide_num,
            y + h <= old(self).divide_num,
            color_id < old(self).sampled_color@.len(),
        ensures
            final(self).ctx_wf(),
            final(self).ctx_eq(*old(self)),
            0 <= r <= DP_VALUE_CAP,
            ({
                let idx = spec_midx(
                    old(self).divide_num as int,
                    color_id as int,
                    x as int,
                    y as int,
                    w as int,
                    h as int,
                );
                &&& 0 <= idx < final(self).memo@.len()
                &&& final(self).memo@[idx] == r
            }),
            r == dp_value(
                old(self).dp_ctx(),
                x as int,
                y as int,
                w as int,
                h as int,
                color_id as int,
            ),
        decreases w + h,
    {
        let ghost orig = *self;
        let ghost ctxg = orig.dp_ctx();
        let idx = self.midx(color_id, x, y, w, h);
        let stored = self.memo[idx];
        if stored != i64::MIN {
            proof {
                assert(self.memo@[spec_midx(
                    self.divide_num as int,
                    color_id as int,
                    x as int,
                    y as int,
                    w as int,
                    h as int,
                )] == stored);
                assert(stored == dp_value(
                    ctxg,
                    x as int,
                    y as int,
                    w as int,
                    h as int,
                    color_id as int,
                ));
            }
            return stored;
        }
        let mut best: i64 = self.calc_similarity(x, y, w, h, color_id);
        proof {
            assert(best == dp_color_fold(
                ctxg,
                x as int,
                y as int,
                w as int,
                h as int,
                color_id as int,
                0,
            ));
        }
        let mut best_moves: Vec<Move> = Vec::new();
        let mut best_childs: Vec<Child> = Vec::new();
        let tw = self.target_image.width();
        let th = self.target_image.height();
        let target_area = self.cell_area(x, y, w, h);
        let version = self.initial_state.cost_coeff_version;
        let nc = self.sampled_color.len();
        proof {
            assert(version == ctxg.version);
            assert(tw as int == ctxg.tgt[0].len() && th as int == ctxg.tgt.len());
            assert(target_area as int == dp_rect_area(
                ctxg.blk,
                ctxg.d,
                x as int,
                y as int,
                w as int,
                h as int,
            ));
        }
        let mut c: usize = 0;
        while c < nc
            invariant
                c <= nc,
                nc == self.sampled_color@.len(),
                self.ctx_wf(),
                self.ctx_eq(orig),
                1 <= w,
                1 <= h,
                x + w <= self.divide_num,
                y + h <= self.divide_num,
                color_id < nc,
                0 <= best <= DP_VALUE_CAP,
                best == dp_color_fold(
                    ctxg,
                    x as int,
                    y as int,
                    w as int,
                    h as int,
                    color_id as int,
                    c as int,
                ),
                tw == self.target_image@[0].len(),
                th == self.target_image@.len(),
                1 <= target_area <= MAX_COORD * MAX_COORD,
                target_area as int == dp_rect_area(
                    ctxg.blk,
                    ctxg.d,
                    x as int,
                    y as int,
                    w as int,
                    h as int,
                ),
                version == self.initial_state.cost_coeff_version,
                version == ctxg.version,
                version < 2,
                plan_wf(best_moves@, best_childs@, self.divide_num as int, nc as int),
            decreases nc - c,
        {
            let cand = self.sampled_color[c];
            if cand.is_invalid() && color_id != c {
                proof {
                    assert(dp_color_fold(
                        ctxg,
                        x as int,
                        y as int,
                        w as int,
                        h as int,
                        color_id as int,
                        c + 1,
                    ) == dp_color_fold(
                        ctxg,
                        x as int,
                        y as int,
                        w as int,
                        h as int,
                        color_id as int,
                        c as int,
                    ));
                }
                c = c + 1;
                continue ;
            }
            let ghost fold_c = dp_color_fold(
                ctxg,
                x as int,
                y as int,
                w as int,
                h as int,
                color_id as int,
                c as int,
            );
            let mut color_move: Option<Move> = None;
            let mut ncost: i64 = 0;
            if c != color_id {
                let mv = Move::Color { block_id: BlockId::default(), color: cand };
                ncost = move_cost_without_state(&mv, target_area, tw, th, version);
                proof {
                    lemma_cost_small(version, mv@, tw as int, th as int, target_area as int);
                    assert(ncost == dp_ncost(
                        ctxg,
                        x as int,
                        y as int,
                        w as int,
                        h as int,
                        color_id as int,
                        c as int,
                    ));
                }
                let scost = self.calc_similarity(x, y, w, h, c);
                if ncost + scost < best {
                    best = ncost + scost;
                    best_moves = Vec::new();
                    best_moves.push(mv.clone());
                    best_childs = Vec::new();
                }
                color_move = Some(mv);
            } else {
                proof {
                    assert(ncost == dp_ncost(
                        ctxg,
                        x as int,
                        y as int,
                        w as int,
                        h as int,
                        color_id as int,
                        c as int,
                    ));
                }
            }
            let ghost d0 = dp_stop_done(
                ctxg,
                x as int,
                y as int,
                w as int,
                h as int,
                color_id as int,
                c as int,
                fold_c,
            );
            proof {
                assert(best == d0);
            }
            // four-way cuts at every interior grid corner
            let mut lw: usize = 1;
            while lw < w
                invariant
                    1 <= lw <= w,
                    c < nc,
                    nc == self.sampled_color@.len(),
                    self.ctx_wf(),
                    self.ctx_eq(orig),
                    1 <= w,
                    1 <= h,
                    x + w <= self.divide_num,
                    y + h <= self.divide_num,
                    color_id < nc,
                    0 <= best <= DP_VALUE_CAP,
                    best == dp_pcut_done(
                        ctxg,
                        x as int,
                        y as int,
                        w as int,
                        h as int,
                        color_id as int,
                        c as int,
                        lw as int,
                        d0,
                    ),
                    ncost == dp_ncost(
                        ctxg,
                        x as int,
                        y as int,
                        w as int,
                        h as int,
                        color_id as int,
                        c as int,
                    ),
                    tw == self.target_image@[0].len(),
                    th == self.target_image@.len(),
                    1 <= target_area <= MAX_COORD * MAX_COORD,
                    target_area as int == dp_rect_area(
                        ctxg.blk,
                        ctxg.d,
                        x as int,
                        y as int,
                        w as int,
                        h as int,
                    ),
                    version == self.initial_state.cost_coeff_version,
                    version == ctxg.version,
                    version < 2,
                    0 <= ncost <= 13000000000,
                    (color_move matches Some(m) ==> (m@.wf() && !(m@ matches MoveView::Swap { .. })
                        && !(m@ matches MoveView::Merge { .. }))),
                    plan_wf(best_moves@, best_childs@, self.divide_num as int, nc as int),
                decreases w - lw,
            {
                let ghost pacc = dp_pcut_done(
                    ctxg,
                    x as int,
                    y as int,
                    w as int,
                    h as int,
                    color_id as int,
                    c as int,
                    lw as int,
                    d0,
                );
                let mut lh: usize = 1;
                while lh < h
                    invariant
                        1 <= lh <= h,
                        1 <= lw < w,
                        c < nc,
                        nc == self.sampled_color@.len(),
                        self.ctx_wf(),
                        self.ctx_eq(orig),
                        1 <= w,
                        1 <= h,
                        x + w <= self.divide_num,
                        y + h <= self.divide_num,
                        color_id < nc,
                        0 <= best <= DP_VALUE_CAP,
                        best == dp_pcut_row_done(
                            ctxg,
                            x as int,
                            y as int,
                            w as int,
                            h as int,
                            color_id as int,
                            c as int,
                            lw as int,
                            lh as int,
                            pacc,
                        ),
                        ncost == dp_ncost(
                            ctxg,
                            x as int,
                            y as int,
                            w as int,
                            h as int,
                            color_id as int,
                            c as int,
                        ),
                        target_area as int == dp_rect_area(
                            ctxg.blk,
                            ctxg.d,
                            x as int,
                            y as int,
                            w as int,
                            h as int,
                        ),
                        version == ctxg.version,
                        tw == self.target_image@[0].len(),
                        th == self.target_image@.len(),
                        1 <= target_area <= MAX_COORD * MAX_COORD,
                        version == self.initial_state.cost_coeff_version,
                        version < 2,
                        0 <= ncost <= 13000000000,
                        (color_move matches Some(m) ==> (m@.wf() && !(m@ matches MoveView::Swap {
                            ..
                        }) && !(m@ matches MoveView::Merge { .. }))),
                        plan_wf(best_moves@, best_childs@, self.divide_num as int, nc as int),
                    decreases h - lh,
                {
                    let pt = self.convert_point(x + lw, y + lh);
                    let mv = Move::PCut { block_id: BlockId::default(), point: pt };
                    let cut_cost = move_cost_without_state(&mv, target_area, tw, th, version);
                    proof {
                        lemma_cost_small(version, mv@, tw as int, th as int, target_area as int);
                    }
                    let v0 = self.calc(x, y, lw, lh, c);
                    let v1 = self.calc(x + lw, y, w - lw, lh, c);
                    let v2 = self.calc(x + lw, y + lh, w - lw, h - lh, c);
                    let v3 = self.calc(x, y + lh, lw, h - lh, c);
                    let total: i128 = ncost as i128 + cut_cost as i128 + v0 as i128 + v1 as i128
                        + v2 as i128 + v3 as i128;
                    proof {
                        assert(self.dp_ctx() == ctxg);
                        assert(v0 == dp_value(ctxg, x as int, y as int, lw as int, lh as int, c as int));
                        assert(v1 == dp_value(ctxg, x + lw, y as int, w - lw, lh as int, c as int));
                        assert(v2 == dp_value(ctxg, x + lw, y + lh, w - lw, h - lh, c as int));
                        assert(v3 == dp_value(ctxg, x as int, y + lh, lw as int, h - lh, c as int));
                        assert(cut_cost == dp_move_cost(
                            ctxg,
                            MoveView::PCut { block_id: Seq::empty(), point: Point { x: 0, y: 0 } },
                            x as int,
                            y as int,
                            w as int,
                            h as int,
                        ));
                        assert(total == dp_pcut_opt(
                            ctxg,
                            x as int,
                            y as int,
                            w as int,
                            h as int,
                            color_id as int,
                            c as int,
                            lw as int,
                            lh as int,
                        ));
                    }
                    if total < best as i128 {
                        best = total as i64;
                        best_moves = Vec::new();
                        match &color_move {
                            Some(cmv) => best_moves.push(cmv.clone()),
                            None => {},
                        }
                        best_moves.push(mv);
                        best_childs = Vec::new();
                        best_childs.push(Child::new(x, y, lw, lh, c));
                        best_childs.push(Child::new(x + lw, y, w - lw, lh, c));
                        best_childs.push(Child::new(x + lw, y + lh, w - lw, h - lh, c));
                        best_childs.push(Child::new(x, y + lh, lw, h - lh, c));
                    }
                    proof {
                        assert(dp_pcut_row_done(
                            ctxg,
                            x as int,
                            y as int,
                            w as int,
                            h as int,
                            color_id as int,
                            c as int,
                            lw as int,
                            lh + 1,
                            pacc,
                        ) == min2(
                            dp_pcut_row_done(
                                ctxg,
                                x as int,
                                y as int,
                                w as int,
                                h as int,
                                color_id as int,
                                c as int,
                                lw as int,
                                lh as int,
                                pacc,
                            ),
                            dp_pcut_opt(
                                ctxg,
                                x as int,
                                y as int,
                                w as int,
                                h as int,
                                color_id as int,
                                c as int,
                                lw as int,
                                lh as int,
                            ),
                        ));
                    }
                    lh = lh + 1;
                }
                proof {
                    assert(dp_pcut_done(
                        ctxg,
                        x as int,
                        y as int,
                        w as int,
                        h as int,
                        color_id as int,
                        c as int,
                        lw + 1,
                        d0,
                    ) == dp_pcut_row_done(
                        ctxg,
                        x as int,
                        y as int,
                        w as int,
                        h as int,
                        color_id as int,
                        c as int,
                        lw as int,
                        h as int,
                        pacc,
                    ));
                }
                lw = lw + 1;
            }
            // vertical line cuts
            let ghost d1 = dp_pcut_done(
                ctxg,
                x as int,
                y as int,
                w as int,
                h as int,
                color_id as int,
                c as int,
                w as int,
                d0,
            );
            let mut lw: usize = 1;
            while lw < w
                invariant
                    1 <= lw <= w,
                    c < nc,
                    nc == self.sampled_color@.len(),
                    self.ctx_wf(),
                    self.ctx_eq(orig),
                    1 <= w,
                    1 <= h,
                    x + w <= self.divide_num,
                    y + h <= self.divide_num,
                    color_id < nc,
                    0 <= best <= DP_VALUE_CAP,
                    best == dp_vcut_done(
                        ctxg,
                        x as int,
                        y as int,
                        w as int,
                        h as int,
                        color_id as int,
                        c as int,
                        lw as int,
                        d1,
                    ),
                    ncost == dp_ncost(
                        ctxg,
                        x as int,
                        y as int,
                        w as int,
                        h as int,
                        color_id as int,
                        c as int,
                    ),
                    target_area as int == dp_rect_area(
                        ctxg.blk,
                        ctxg.d,
                        x as int,
                        y as int,
                        w as int,
                        h as int,
                    ),
                    version == ctxg.version,
                    tw == self.target_image@[0].len(),
                    th == self.target_image@.len(),
                    1 <= target_area <= MAX_COORD * MAX_COORD,
                    version == self.initial_state.cost_coeff_version,
                    version < 2,
                    0 <= ncost <= 13000000000,
                    (color_move matches Some(m) ==> (m@.wf() && !(m@ matches MoveView::Swap { .. })
                        && !(m@ matches MoveView::Merge { .. }))),
                    plan_wf(best_moves@, best_childs@, self.divide_num as int, nc as int),
                decreases w - lw,
            {
                let pt = self.convert_point(x + lw, y);
                let mv = Move::LCut {
                    block_id: BlockId::default(),
                    orientation: Orientation::Vertical,
                    line_number: pt.x,
                };
                let cut_cost = move_cost_without_state(&mv, target_area, tw, th, version);
                proof {
                    lemma_cost_small(version, mv@, tw as int, th as int, target_area as int);
                }
                let v0 = self.calc(x, y, lw, h, c);
                let v1 = self.calc(x + lw, y, w - lw, h, c);
                let total: i128 = ncost as i128 + cut_cost as i128 + v0 as i128 + v1 as i128;
                proof {
                    assert(self.dp_ctx() == ctxg);
                    assert(v0 == dp_value(ctxg, x as int, y as int, lw as int, h as int, c as int));
                    assert(v1 == dp_value(ctxg, x + lw, y as int, w - lw, h as int, c as int));
                    assert(cut_cost == dp_move_cost(
                        ctxg,
                        MoveView::LCut {
                            block_id: Seq::empty(),
                            orientation: Orientation::Vertical,
                            line_number: 0,
                        },
                        x as int,
                        y as int,
                        w as int,
                        h as int,
                    ));
                    assert(total == dp_vcut_opt(
                        ctxg,
                        x as int,
                        y as int,
                        w as int,
                        h as int,
                        color_id as int,
                        c as int,
                        lw as int,
                    ));
                }
                if total < best as i128 {
                    best = total as i64;
                    best_moves = Vec::new();
                    match &color_move {
                        Some(cmv) => best_moves.push(cmv.clone()),
                        None => {},
                    }
                    best_moves.push(mv);
                    best_childs = Vec::new();
                    best_childs.push(Child::new(x, y, lw, h, c));
                    best_childs.push(Child::new(x + lw, y, w - lw, h, c));
                }
                proof {
                    assert(dp_vcut_done(
                        ctxg,
                        x as int,
                        y as int,
                        w as int,
                        h as int,
                        color_id as int,
                        c as int,
                        lw + 1,
                        d1,
                    ) == min2(
                        dp_vcut_done(
                            ctxg,
                            x as int,
                            y as int,
                            w as int,
                            h as int,
                            color_id as int,
                            c as int,
                            lw as int,
                            d1,
                        ),
                        dp_vcut_opt(
                            ctxg,
                            x as int,
                            y as int,
                            w as int,
                            h as int,
                            color_id as int,
                            c as int,
                            lw as int,
                        ),
                    ));
                }
                lw = lw + 1;
            }
            // horizontal line cuts
            let ghost d2 = dp_vcut_done(
                ctxg,
                x as int,
                y as int,
                w as int,
                h as int,
                color_id as int,
                c as int,
                w as int,
                d1,
            );
            let mut lh: usize = 1;
            while lh < h
                invariant
                    1 <= lh <= h,
                    c < nc,
                    nc == self.sampled_color@.len(),
                    self.ctx_wf(),
                    self.ctx_eq(orig),
                    1 <= w,
                    1 <= h,
                    x + w <= self.divide_num,
                    y + h <= self.divide_num,
                    color_id < nc,
                    0 <= best <= DP_VALUE_CAP,
                    best == dp_hcut_done(
                        ctxg,
                        x as int,
                        y as int,
                        w as int,
                        h as int,
                        color_id as int,
                        c as int,
                        lh as int,
                        d2,
                    ),
                    ncost == dp_ncost(
                        ctxg,
                        x as int,
                        y as int,
                        w as int,
                        h as int,
                        color_id as int,
                        c as int,
                    ),
                    target_area as int == dp_rect_area(
                        ctxg.blk,
                        ctxg.d,
                        x as int,
                        y as int,
                        w as int,
                        h as int,
                    ),
                    version == ctxg.version,
                    tw == self.target_image@[0].len(),
                    th == self.target_image@.len(),
                    1 <= target_area <= MAX_COORD * MAX_COORD,
                    version == self.initial_state.cost_coeff_version,
                    version < 2,
                    0 <= ncost <= 13000000000,
                    (color_move matches Some(m) ==> (m@.wf() && !(m@ matches MoveView::Swap { .. })
                        && !(m@ matches MoveView::Merge { .. }))),
                    plan_wf(best_moves@, best_childs@, self.divide_num as int, nc as int),
                decreases h - lh,
            {
                let pt = self.convert_point(x, y + lh);
                let mv = Move::LCut {
                    block_id: BlockId::default(),
                    orientation: Orientation::Horizontal,
                    line_number: pt.y,
                };
                let cut_cost = move_cost_without_state(&mv, target_area, tw, th, version);
                proof {
                    lemma_cost_small(version, mv@, tw as int, th as int, target_area as int);
                }
                let v0 = self.calc(x, y, w, lh, c);
                let v1 = self.calc(x, y + lh, w, h - lh, c);
                let total: i128 = ncost as i128 + cut_cost as i128 + v0 as i128 + v1 as i128;
                proof {
                    assert(self.dp_ctx() == ctxg);
                    assert(v0 == dp_value(ctxg, x as int, y as int, w as int, lh as int, c as int));
                    assert(v1 == dp_value(ctxg, x as int, y + lh, w as int, h - lh, c as int));
                    assert(cut_cost == dp_move_cost(
                        ctxg,
                        MoveView::LCut {
                            block_id: Seq::empty(),
                            orientation: Orientation::Horizontal,
                            line_number: 0,
                        },
                        x as int,
                        y as int,
                        w as int,
                        h as int,
                    ));
                    assert(total == dp_hcut_opt(
                        ctxg,
                        x as int,
                        y as int,
                        w as int,
                        h as int,
                        color_id as int,
                        c as int,
                        lh as int,
                    ));
                }
                if total < best as i128 {
                    best = total as i64;
                    best_moves = Vec::new();
                    match &color_move {
                        Some(cmv) => best_moves.push(cmv.clone()),
                        None => {},
                    }
                    best_moves.push(mv);
                    best_childs = Vec::new();
                    best_childs.push(Child::new(x, y, w, lh, c));
                    best_childs.push(Child::new(x, y + lh, w, h - lh, c));
                }
                proof {
                    assert(dp_hcut_done(
                        ctxg,
                        x as int,
                        y as int,
                        w as int,
                        h as int,
                        color_id as int,
                        c as int,
                        lh + 1,
                        d2,
                    ) == min2(
                        dp_hcut_done(
                            ctxg,
                            x as int,
                            y as int,
                            w as int,
                            h as int,
                            color_id as int,
                            c as int,
                            lh as int,
                            d2,
                        ),
                        dp_hcut_opt(
                            ctxg,
                            x as int,
                            y as int,
                            w as int,
                            h as int,
                            color_id as int,
                            c as int,
                            lh as int,
                        ),
                    ));
                }
                lh = lh + 1;
            }
            proof {
                assert(best == dp_hcut_done(
                    ctxg,
                    x as int,
                    y as int,
                    w as int,
                    h as int,
                    color_id as int,
                    c as int,
                    h as int,
                    d2,
                ));
                assert(dp_color_step(
                    ctxg,
                    x as int,
                    y as int,
                    w as int,
                    h as int,
                    color_id as int,
                    c as int,
                    fold_c,
                ) == best);
                assert(dp_color_fold(
                    ctxg,
                    x as int,
                    y as int,
                    w as int,
                    h as int,
                    color_id as int,
                    c + 1,
                ) == best);
            }
            c = c + 1;
        }
        proof {
            assert(best == dp_value(
                ctxg,
                x as int,
                y as int,
                w as int,
                h as int,
                color_id as int,
            ));
        }
        let idx = self.midx(color_id, x, y, w, h);
        let ghost pre_memo = self.memo@;
        self.memo.set(idx, best);
        self.memo_restore.set(idx, Some((best_moves, best_childs)));
        proof {
            let d_ = self.divide_num as int;
            let nc_ = self.sampled_color@.len() as int;
            assert(self.dp_ctx() == ctxg);
            assert forall|cc: int, xx: int, yy: int, ww: int, hh: int|
                0 <= cc < nc_ && 0 <= xx < d_ && 0 <= yy < d_ && 0 <= ww < d_ + 1 && 0 <= hh < d_
                    + 1 implies ((#[trigger] self.memo@[spec_midx(d_, cc, xx, yy, ww, hh)])
                == i64::MIN || self.memo@[spec_midx(d_, cc, xx, yy, ww, hh)] == dp_value(
                self.dp_ctx(),
                xx,
                yy,
                ww,
                hh,
                cc,
            )) by {
                lemma_midx_bound(nc_, d_, cc, xx, yy, ww, hh);
                assert(0 <= spec_midx(d_, cc, xx, yy, ww, hh)) by (nonlinear_arith)
                    requires
                        0 <= cc,
                        0 <= xx,
                        0 <= yy,
                        0 <= ww,
                        0 <= hh,
                        1 <= d_,
                ;
                if spec_midx(d_, cc, xx, yy, ww, hh) == idx as int {
                    lemma_midx_inj(
                        d_,
                        cc,
                        xx,
                        yy,
                        ww,
                        hh,
                        color_id as int,
                        x as int,
                        y as int,
                        w as int,
                        h as int,
                    );
                } else {
                    assert(self.memo@[spec_midx(d_, cc, xx, yy, ww, hh)] == pre_memo[spec_midx(
                        d_,
                        cc,
                        xx,
                        yy,
                        ww,
                        hh,
                    )]);
                }
            }
            assert(self.ctx_wf());
        }
        best
    }

    /// The memoized value of the whole block under the initial
    /// contents, once `solve` has filled the tables: the cost plus
    /// per-cell similarity the synthesizer settled on.
    pub fn best_value(&self) -> (r: Option<i64>)
        ensures
            r matches Some(v) ==> 0 <= v,
            self.ctx_wf() ==> (r matches Some(v) ==> v == dp_value(
                self.dp_ctx(),
                0,
                0,
                self.divide_num as int,
                self.divide_num as int,
                0,
            )),
    {
        let d = self.divide_num;
        let nc = self.sampled_color.len();
        if d < 1 || d > 16 || nc < 1 || nc > 18 {
            return None;
        }
        proof {
            assert(0 < nc * d <= 288 && 0 < nc * d * d <= 4608 && 0 < nc * d * d * (d + 1) <= 78336
                && 0 < nc * d * d * (d + 1) * (d + 1) <= 1331712) by (nonlinear_arith)
                requires
                    1 <= nc <= 18,
                    1 <= d <= 16,
            ;
        }
        if self.memo.len() != nc * d * d * (d + 1) * (d + 1) {
            return None;
        }
        proof {
            lemma_midx_bound(nc as int, d as int, 0, 0, 0, d as int, d as int);
            assert(0 <= ((0 * d + 0) * d + 0) * (d + 1) + d <= 16 + 0) by (nonlinear_arith)
                requires
                    1 <= d <= 16,
            ;
            assert(0 <= (((0 * d + 0) * d + 0) * (d + 1) + d) * (d + 1) + d <= 16 * 17 + 16)
                by (nonlinear_arith)
                requires
                    1 <= d <= 16,
            ;
        }
        let idx = (((0 * d + 0) * d + 0) * (d + 1) + d) * (d + 1) + d;
        let v = self.memo[idx];
        proof {
            if self.ctx_wf() {
                assert(idx == spec_midx(d as int, 0, 0, 0, d as int, d as int));
                assert(self.memo@[spec_midx(d as int, 0, 0, 0, d as int, d as int)] == v);
            }
        }
        if v == i64::MIN {
            None
        } else {
            if v < 0 {
                None
            } else {
                Some(v)
            }
        }
    }

    /// Walk the memo from a cell, appending the stored moves (patched
    /// to the running identifier prefix) and recursing into the stored
    /// children with the child index appended to the prefix.
    pub fn restore_program(
        &self,
        program: &mut Program,
        x: usize,
        y: usize,
        w: usize,
        h: usize,
        color_id: usize,
        block_id: &mut BlockId,
        fuel: usize,
    )
        requires
            self.ctx_wf(),
            1 <= w,
            1 <= h,
            x + w <= self.divide_num,
            y + h <= self.divide_num,
            color_id < self.sampled_color@.len(),
            program_wf(old(program)@),
        ensures
            self.ctx_wf(),
            program_wf(final(program)@),
            final(program)@.len() >= old(program)@.len(),
            forall|k: int|
                0 <= k < old(program)@.len() ==> final(program)@[k] == old(program)@[k],
            forall|k: int|
                old(program)@.len() <= k < final(program)@.len() ==> move_targets_within(
                    old(block_id)@,
                    #[trigger] final(program)@[k],
                ),
            final(block_id)@ == old(block_id)@,
        decreases fuel,
    {
        let ghost root = block_id@;
        let ghost base = program@;
        if fuel == 0 {
            return ;
        }
        let idx = self.midx(color_id, x, y, w, h);
        let plan = match &self.memo_restore[idx] {
            Some(p) => p,
            None => {
                return ;
            },
        };
        let n_moves = plan.0.len();
        let mut i: usize = 0;
        while i < n_moves
            invariant
                i <= n_moves,
                self.ctx_wf(),
                idx < self.memo_restore@.len(),
                self.memo_restore@[idx as int] matches Some(p) && p.0@.len() == n_moves,
                program_wf(program@),
                block_id@ == root,
                program@.len() >= base.len(),
                forall|k: int| 0 <= k < base.len() ==> program@[k] == base[k],
                forall|k: int|
                    base.len() <= k < program@.len() ==> move_targets_within(
                        root,
                        #[trigger] program@[k],
                    ),
            decreases n_moves - i,
        {
            let plan = match &self.memo_restore[idx] {
                Some(p) => p,
                None => {
                    return ;
                },
            };
            let mut mv = plan.0[i].clone();
            mv.convert_block_id(block_id);
            let ghost before = program@;
            program.0.push(mv);
            proof {
                assert forall|k: int| 0 <= k < program@.len() implies (#[trigger] program@[k]).wf() by {
                    if k < before.len() {
                        assert(program@[k] == before[k]);
                    } else {
                        assert(program@[k] == program.0@[k]@);
                    }
                }
                assert forall|k: int|
                    base.len() <= k < program@.len() implies move_targets_within(
                    root,
                    #[trigger] program@[k],
                ) by {
                    if k < before.len() {
                        assert(program@[k] == before[k]);
                    } else {
                        assert(program@[k] == program.0@[k]@);
                    }
                }
            }
            i = i + 1;
        }
        let n_childs = plan.1.len();
        let mut i: usize = 0;
        while i < n_childs
            invariant
                i <= n_childs,
                self.ctx_wf(),
                idx < self.memo_restore@.len(),
                self.memo_restore@[idx as int] matches Some(p) && p.1@.len() == n_childs,
                program_wf(program@),
                block_id@ == root,
                program@.len() >= base.len(),
                forall|k: int| 0 <= k < base.len() ==> program@[k] == base[k],
                forall|k: int|
                    base.len() <= k < program@.len() ==> move_targets_within(
                        root,
                        #[trigger] program@[k],
                    ),
                fuel >= 1,
            decreases n_childs - i,
        {
            let child = match &self.memo_restore[idx] {
                Some(p) => p.1[i],
                None => {
                    return ;
                },
            };
            block_id.0.push(i as u32);
            let ghost mid = program@;
            self.restore_program(
                program,
                child.x,
                child.y,
                child.w,
                child.h,
                child.color_id,
                block_id,
                fuel - 1,
            );
            let _ = block_id.0.pop();
            proof {
                assert(block_id@ =~= root) by {
                    assert(root.push(i as u32).drop_last() =~= root);
                }
                crate::isl::lemma_is_child_push(root, i as u32);
                assert forall|k: int|
                    base.len() <= k < program@.len() implies move_targets_within(
                    root,
                    #[trigger] program@[k],
                ) by {
                    if k < mid.len() {
                        assert(program@[k] == mid[k]);
                    } else {
                        assert(move_targets_within(root.push(i as u32), program@[k]));
                        match program@[k] {
                            MoveView::PCut { block_id: t, .. } => {
                                if t != root.push(i as u32) {
                                    crate::isl::lemma_is_child_trans(root, root.push(i as u32), t);
                                }
                            },
                            MoveView::LCut { block_id: t, .. } => {
                                if t != root.push(i as u32) {
                                    crate::isl::lemma_is_child_trans(root, root.push(i as u32), t);
                                }
                            },
                            MoveView::Color { block_id: t, .. } => {
                                if t != root.push(i as u32) {
                                    crate::isl::lemma_is_child_trans(root, root.push(i as u32), t);
                                }
                            },
                            _ => {},
                        }
                    }
                }
            }
            i = i + 1;
        }
    }
}

impl DpAI {
    /// Synthesize a program for the initial block (merging a
    /// multi-block partition first).  `None` surfaces a failure the
    /// host must treat as fatal: the partition could not be merged, or
    /// the merger's program did not execute.
    pub fn solve_checked(&mut self, image: &Image, initial_state: &State) -> (r: Option<Program>)
        requires
            image.wf(),
            initial_state@.wf(),
            initial_state@.blocks.len() >= 1,
            2 <= old(self).divide_num <= 16,
            1 <= old(self).sample_color_num <= 16,
            old(self).k_means_iter_num <= 1000,
        ensures
            r matches Some(p) ==> {
                &&& program_wf(p@)
                &&& ((old(self).initial_block_id is None && initial_state@.blocks.len() == 1 && (
                initial_state@.blocks[0].1.size.x < old(self).divide_num
                    || initial_state@.blocks[0].1.size.y < old(self).divide_num)) ==> p@.len()
                    == 0)
                &&& ((old(self).initial_block_id is None && initial_state@.blocks.len() == 1)
                    ==> forall|k: int|
                    0 <= k < p@.len() ==> move_targets_within(
                        initial_state@.blocks[0].0,
                        #[trigger] p@[k],
                    ))
                &&& (old(self).initial_block_id matches Some(b0) ==> forall|k: int|
                    0 <= k < p@.len() ==> move_targets_within(b0@, #[trigger] p@[k]))
            },
            final(self).divide_num == old(self).divide_num,
            ({
                &&& old(self).initial_block_id is None
                &&& initial_state@.blocks.len() == 1
                &&& initial_state@.blocks[0].1.size.x >= old(self).divide_num
                &&& initial_state@.blocks[0].1.size.y >= old(self).divide_num
                &&& initial_state@.blocks[0].1.p.x + initial_state@.blocks[0].1.size.x <= image@[
                    0
                ].len()
                &&& initial_state@.blocks[0].1.p.y + initial_state@.blocks[0].1.size.y
                    <= image@.len()
                &&& r is Some
            }) ==> ({
                let d = old(self).divide_num as int;
                &&& final(self).ctx_wf()
                &&& 0 <= spec_midx(d, 0, 0, 0, d, d) < final(self).memo@.len()
                &&& final(self).memo@[spec_midx(d, 0, 0, 0, d, d)] != i64::MIN
                &&& final(self).memo@[spec_midx(d, 0, 0, 0, d, d)] == dp_value(
                    final(self).dp_ctx(),
                    0,
                    0,
                    d,
                    d,
                    0,
                )
            }),
    {
        let ghost single = old(self).initial_block_id is None && initial_state@.blocks.len() == 1;
        let ghost had_id = old(self).initial_block_id is Some;
        let ghost had_bid: Seq<u32> = match old(self).initial_block_id {
            Some(b0) => b0@,
            None => Seq::empty(),
        };
        let mut ret: Vec<Move> = Vec::new();
        self.target_image = image.clone();
        self.initial_state = initial_state.clone();
        let ghost mut single_bid: Seq<u32> = Seq::empty();
        if self.initial_block_id.is_none() {
            if initial_state.blocks.len() != 1 {
                let mut merge_ai = MergeAI::new(initial_state.cost_coeff_version);
                match merge_ai.solve(image, initial_state) {
                    Some(p) => {
                        self.initial_block_id = Some(merge_ai.merged_block_id());
                        match simulate_all(&p, initial_state) {
                            Ok(s2) => {
                                self.initial_state = s2;
                            },
                            Err(_) => {
                                return None;
                            },
                        }
                        ret = p.0;
                    },
                    None => {
                        return None;
                    },
                }
            } else {
                let id0 = initial_state.blocks[0].0.clone();
                proof {
                    crate::state::lemma_entry_is_lookup(initial_state@.blocks, 0);
                    single_bid = id0@;
                }
                self.initial_block_id = Some(id0);
            }
        }
        let ghost kept: Seq<MoveView> = Seq::new(ret@.len(), |i: int| ret@[i]@);
        proof {
            assert(forall|i: int| 0 <= i < kept.len() ==> (#[trigger] kept[i]).wf());
            if single {
                assert(kept.len() == 0);
                assert(single_bid == initial_state@.blocks[0].0);
            }
            if had_id {
                assert(kept.len() == 0);
            }
        }
        let bid = match &self.initial_block_id {
            Some(b) => BlockId::new(b.0.as_slice()),
            None => {
                return Some(Program(ret));
            },
        };
        proof {
            if single {
                assert(bid@ == single_bid);
            }
            if had_id {
                assert(bid@ == had_bid);
            }
        }
        let b = match self.initial_state.get_block(&bid) {
            Some(bb) => bb,
            None => {
                return Some(Program(ret));
            },
        };
        proof {
            crate::state::lemma_lookup_is_entry(self.initial_state@.blocks, bid@);
        }
        self.initial_block = b;
        let w = image.width();
        let h = image.height();
        if b.p.x + b.size.x > w as i32 || b.p.y + b.size.y > h as i32 {
            return Some(Program(ret));
        }
        let d = self.divide_num;
        if (b.size.x as usize) < d || (b.size.y as usize) < d {
            return Some(Program(ret));
        }
        proof {
            assert(w * h <= crate::image::MAX_IMAGE_AREA) by (nonlinear_arith)
                requires
                    image@.len() * image@[0].len() <= crate::image::MAX_IMAGE_AREA,
                    w == image@[0].len(),
                    h == image@.len(),
            ;
        }
        self.initial_image = rasterize_partial_state(b.p, b.size, &self.initial_state, w, h);
        let km = k_means_color_sampling(
            image,
            self.sample_color_num - 1,
            self.k_means_iter_num,
            b.p.x as usize,
            b.p.y as usize,
            b.size.x as usize,
            b.size.y as usize,
            &mut self.rng,
        );
        let mut colors: Vec<Color> = Vec::new();
        colors.push(Color::invalid());
        colors.push(b.color);
        let mut km = km;
        while km.len() > 0
            invariant
                2 <= colors@.len(),
                colors@.len() + km@.len() <= 17,
                forall|i: int| 0 <= i < colors@.len() ==> (#[trigger] colors@[i]).wf(),
                forall|i: int| 0 <= i < km@.len() ==> (#[trigger] km@[i]).is_valid(),
            decreases km@.len(),
        {
            let c = km.pop().unwrap();
            colors.push(c);
        }
        self.sampled_color = colors;
        self.sample_color_num = self.sampled_color.len();
        let nc = self.sampled_color.len();
        proof {
            assert(nc * d * d * (d + 1) * (d + 1) <= 17 * 16 * 16 * 17 * 17) by (nonlinear_arith)
                requires
                    2 <= nc <= 17,
                    2 <= d <= 16,
            ;
            assert(0 < nc * d * d * (d + 1) * (d + 1)) by (nonlinear_arith)
                requires
                    2 <= nc,
                    2 <= d,
            ;
            assert(nc * d * d <= 17 * 16 * 16) by (nonlinear_arith)
                requires
                    2 <= nc <= 17,
                    2 <= d <= 16,
            ;
            assert(0 < nc * d * d) by (nonlinear_arith)
                requires
                    2 <= nc,
                    2 <= d,
            ;
            assert(0 < nc * d <= 272 && 0 < nc * d * d <= 4352 && 0 < nc * d * d * (d + 1) <= 73984
                && 0 < nc * d * d * (d + 1) * (d + 1) <= 1257728) by (nonlinear_arith)
                requires
                    2 <= nc <= 17,
                    2 <= d <= 16,
            ;
        }
        let msize = nc * d * d * (d + 1) * (d + 1);
        let mut memo: Vec<i64> = Vec::new();
        let mut t: usize = 0;
        while t < msize
            invariant
                t <= msize,
                memo@.len() == t,
                forall|i: int| 0 <= i < t ==> (#[trigger] memo@[i]) == i64::MIN,
            decreases msize - t,
        {
            memo.push(i64::MIN);
            t = t + 1;
        }
        self.memo = memo;
        proof {
            let d_ = d as int;
            let nc_ = nc as int;
            assert forall|cc: int, xx: int, yy: int, ww: int, hh: int|
                0 <= cc < nc_ && 0 <= xx < d_ && 0 <= yy < d_ && 0 <= ww < d_ + 1 && 0 <= hh < d_
                    + 1 implies (#[trigger] self.memo@[spec_midx(d_, cc, xx, yy, ww, hh)])
                == i64::MIN by {
                lemma_midx_bound(nc_, d_, cc, xx, yy, ww, hh);
                assert(0 <= spec_midx(d_, cc, xx, yy, ww, hh)) by (nonlinear_arith)
                    requires
                        0 <= cc,
                        0 <= xx,
                        0 <= yy,
                        0 <= ww,
                        0 <= hh,
                        1 <= d_,
                ;
            }
        }
        let mut memo_restore: Vec<Option<(Vec<Move>, Vec<Child>)>> = Vec::new();
        let mut t: usize = 0;
        while t < msize
            invariant
                t <= msize,
                memo_restore@.len() == t,
                forall|i: int| 0 <= i < t ==> (#[trigger] memo_restore@[i]) is None,
            decreases msize - t,
        {
            memo_restore.push(None);
            t = t + 1;
        }
        self.memo_restore = memo_restore;
        let ssize = nc * d * d;
        let mut similarity_memo: Vec<i64> = Vec::new();
        let mut t: usize = 0;
        while t < ssize
            invariant
                t <= ssize,
                similarity_memo@.len() == t,
                forall|i: int| 0 <= i < t ==> (#[trigger] similarity_memo@[i]) == -1,
            decreases ssize - t,
        {
            similarity_memo.push(-1);
            t = t + 1;
        }
        self.similarity_memo = similarity_memo;
        proof {
            let d_ = self.divide_num as int;
            let nc_ = self.sampled_color@.len() as int;
            assert forall|cc: int, xx: int, yy: int|
                0 <= cc < nc_ && 0 <= xx < d_ && 0 <= yy < d_ implies (
            #[trigger] self.similarity_memo@[spec_sidx(d_, cc, xx, yy)]) == -1 by {
                lemma_sidx_bound(nc_, d_, cc, xx, yy);
                assert(0 <= spec_sidx(d_, cc, xx, yy)) by (nonlinear_arith)
                    requires
                        0 <= cc,
                        0 <= xx,
                        0 <= yy,
                        1 <= d_,
                ;
            }
            assert(self.ctx_wf());
        }
        let _score = self.calc(0, 0, d, d, 0);
        let mut program = Program(Vec::new());
        let mut block_id = bid;
        proof {
            assert(program_wf(program@));
        }
        self.restore_program(&mut program, 0, 0, d, d, 0, &mut block_id, 1048576);
        let ghost dp_part = program@;
        let mut dp_moves = program.0;
        ret.append(&mut dp_moves);
        let r = Program(ret);
        proof {
            assert forall|i: int| 0 <= i < r@.len() implies (#[trigger] r@[i]).wf() by {
                assert(r@[i] == r.0@[i]@);
                if i < kept.len() {
                    assert(r.0@[i]@ == kept[i]);
                } else {
                    assert(r.0@[i]@ == dp_part[i - kept.len()]);
                }
            }
            if single {
                assert forall|k: int| 0 <= k < r@.len() implies move_targets_within(
                    initial_state@.blocks[0].0,
                    #[trigger] r@[k],
                ) by {
                    assert(r@[k] == r.0@[k]@);
                    assert(r.0@[k]@ == dp_part[k]);
                    assert(move_targets_within(single_bid, dp_part[k]));
                }
            }
            if had_id {
                assert forall|k: int| 0 <= k < r@.len() implies move_targets_within(
                    had_bid,
                    #[trigger] r@[k],
                ) by {
                    assert(r@[k] == r.0@[k]@);
                    assert(r.0@[k]@ == dp_part[k]);
                    assert(move_targets_within(had_bid, dp_part[k]));
                }
            }
        }
        Some(r)
    }
}

impl HeadAI for DpAI {
    open spec fn valid_input(&self, image: &Image, initial_state: &State) -> bool {
        &&& image.wf()
        &&& initial_state@.wf()
        &&& initial_state@.blocks.len() >= 1
        &&& 2 <= self.divide_num <= 16
        &&& 1 <= self.sample_color_num <= 16
        &&& self.k_means_iter_num <= 1000
    }

    fn solve(&mut self, image: &Image, initial_state: &State) -> (r: Program)
        ensures
            (old(self).initial_block_id is None && initial_state@.blocks.len() == 1 && (
            initial_state@.blocks[0].1.size.x < old(self).divide_num
                || initial_state@.blocks[0].1.size.y < old(self).divide_num)) ==> r@.len() == 0,
            (old(self).initial_block_id is None && initial_state@.blocks.len() == 1)
                ==> forall|k: int|
                0 <= k < r@.len() ==> move_targets_within(
                    initial_state@.blocks[0].0,
                    #[trigger] r@[k],
                ),
            old(self).initial_block_id matches Some(b0) ==> forall|k: int|
                0 <= k < r@.len() ==> move_targets_within(b0@, #[trigger] r@[k]),
    {
        match self.solve_checked(image, initial_state) {
            Some(p) => p,
            None => Program(Vec::new()),
        }
    }
}

/// The clamped proportional offset of grid line `i` in a block of
/// extent `len` cut into `d` columns.
pub open spec fn grid_off(i: int, len: int, d: int) -> int {
    let o = i * len / d;
    if o <= len {
        o
    } else {
        len
    }
}

pub proof fn lemma_grid_off_bounds(i: int, len: int, d: int)
    requires
        0 <= i,
        1 <= d,
        1 <= len,
    ensures
        0 <= grid_off(i, len, d) <= len,
{
    assert(0 <= i * len) by (nonlinear_arith)
        requires
            0 <= i,
            0 <= len,
    ;
    vstd::arithmetic::div_mod::lemma_div_is_ordered(0, i * len, d);
}

pub proof fn lemma_grid_off_mono(i: int, j: int, len: int, d: int)
    requires
        0 <= i <= j,
        1 <= d,
        1 <= len,
    ensures
        grid_off(i, len, d) <= grid_off(j, len, d),
{
    assert(i * len <= j * len) by (nonlinear_arith)
        requires
            i <= j,
            0 <= len,
    ;
    vstd::arithmetic::div_mod::lemma_div_is_ordered(i * len, j * len, d);
    lemma_grid_off_bounds(i, len, d);
    lemma_grid_off_bounds(j, len, d);
}

/// When the block is at least `d` wide, distinct grid lines land on
/// distinct pixels.
pub proof fn lemma_grid_off_strict(i: int, j: int, len: int, d: int)
    requires
        0 <= i < j,
        1 <= d <= len,
        j <= d,
    ensures
        grid_off(i, len, d) < grid_off(j, len, d),
{
    vstd::arithmetic::div_mod::lemma_fundamental_div_mod(i * len, d);
    vstd::arithmetic::div_mod::lemma_mod_bound(i * len, d);
    assert(0 <= i * len) by (nonlinear_arith)
        requires
            0 <= i,
            0 <= len,
    ;
    // j*len >= i*len + len >= i*len + d, so the quotient grows
    assert(j * len >= i * len + len) by (nonlinear_arith)
        requires
            j >= i + 1,
            0 <= len,
    ;
    let q = i * len / d;
    assert(d * (q + 1) == d * q + d) by (nonlinear_arith);
    assert(i * len < d * (q + 1)) by {
        assert(i * len == d * q + (i * len) % d);
    }
    assert(j * len >= d * (q + 1)) by {
        assert(i * len >= d * q);
        assert(len >= d);
    }
    assert(j * len / d >= q + 1) by {
        vstd::arithmetic::div_mod::lemma_div_multiples_vanish(q + 1, d);
        vstd::arithmetic::div_mod::lemma_div_is_ordered(d * (q + 1), j * len, d);
    }
    // both offsets stay clamped consistently
    assert(j * len <= d * len) by (nonlinear_arith)
        requires
            j <= d,
            0 <= len,
    ;
    assert(j * len / d <= len) by {
        vstd::arithmetic::div_mod::lemma_div_multiples_vanish(len, d);
        vstd::arithmetic::div_mod::lemma_div_is_ordered(j * len, d * len, d);
    }
    assert(i * len / d < len);
}

proof fn lemma_sidx_bound(nc: int, d: int, c: int, x: int, y: int)
    requires
        1 <= d,
        0 <= c < nc,
        0 <= x < d,
        0 <= y < d,
    ensures
        (c * d + x) * d + y < nc * d * d,
{
    assert(c * d + x <= nc * d - 1) by (nonlinear_arith)
        requires
            0 <= c <= nc - 1,
            0 <= x <= d - 1,
            1 <= d,
    ;
    assert((c * d + x) * d + y <= (nc * d - 1) * d + (d - 1)) by (nonlinear_arith)
        requires
            0 <= c * d + x <= nc * d - 1,
            0 <= y <= d - 1,
            1 <= d,
    ;
    assert((nc * d - 1) * d + (d - 1) == nc * d * d - 1) by (nonlinear_arith);
}

proof fn lemma_midx_bound(nc: int, d: int, c: int, x: int, y: int, w: int, h: int)
    requires
        1 <= d,
        0 <= c < nc,
        0 <= x < d,
        0 <= y < d,
        0 <= w <= d,
        0 <= h <= d,
    ensures
        (((c * d + x) * d + y) * (d + 1) + w) * (d + 1) + h < nc * d * d * (d + 1) * (d + 1),
{
    lemma_sidx_bound(nc, d, c, x, y);
    assert(0 <= (c * d + x) * d + y) by (nonlinear_arith)
        requires
            0 <= c,
            0 <= x,
            0 <= y,
            1 <= d,
    ;
    assert(((c * d + x) * d + y) * (d + 1) + w <= (nc * d * d - 1) * (d + 1) + d)
        by (nonlinear_arith)
        requires
            0 <= (c * d + x) * d + y <= nc * d * d - 1,
            0 <= w <= d,
            1 <= d,
    ;
    assert(0 <= ((c * d + x) * d + y) * (d + 1) + w) by (nonlinear_arith)
        requires
            0 <= (c * d + x) * d + y,
            0 <= w,
            1 <= d,
    ;
    assert((nc * d * d - 1) * (d + 1) + d == nc * d * d * (d + 1) - 1) by (nonlinear_arith);
    assert((((c * d + x) * d + y) * (d + 1) + w) * (d + 1) + h <= (nc * d * d * (d + 1) - 1) * (d
        + 1) + d) by (nonlinear_arith)
        requires
            0 <= ((c * d + x) * d + y) * (d + 1) + w <= nc * d * d * (d + 1) - 1,
            0 <= h <= d,
            1 <= d,
    ;
    assert((nc * d * d * (d + 1) - 1) * (d + 1) + d == nc * d * d * (d + 1) * (d + 1) - 1)
        by (nonlinear_arith);
}

/// Any single move's cost on a bounded canvas is at most `1.3e10`.
pub proof fn lemma_cost_small(version: u8, mv: MoveView, w: int, h: int, area: int)
    requires
        0 < w <= MAX_COORD,
        0 < h <= MAX_COORD,
        1 <= area <= MAX_COORD * MAX_COORD,
    ensures
        0 <= crate::simulator::round_ratio(
            crate::simulator::spec_cost_base(version, mv) * w * h,
            area,
        ) <= 13000000000,
{
    let base = crate::simulator::spec_cost_base(version, mv);
    assert(0 <= base <= 10);
    assert(0 <= base * w * h <= 10 * (MAX_COORD as int) * (MAX_COORD as int)) by (nonlinear_arith)
        requires
            0 <= base <= 10,
            0 < w <= MAX_COORD,
            0 < h <= MAX_COORD,
    ;
    let num = base * w * h;
    vstd::arithmetic::div_mod::lemma_div_is_ordered(0, 2 * num + area, 2 * area);
    vstd::arithmetic::div_mod::lemma_div_is_ordered_by_denominator(2 * num + area, 2, 2 * area);
    assert((2 * num + area) / 2 <= num + area);
}

} // verus!
