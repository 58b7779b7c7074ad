//! A planner that recolors initial blocks in place: each block gets
//! its window's mean or majority color, whichever scores better, and
//! only when that beats leaving the block alone.
use vstd::prelude::*;

use crate::ai::HeadAI;
use crate::image::{count_color, rect_chan_sum, rect_pixels, Image};
use crate::isl::{Color, Move, MoveView, Point, Program};
use crate::similarity::calc_partial_one_color_similarity;
use crate::simulator::{move_cost, round_ratio};
use crate::state::{lookup_blocks, SimpleBlock, State};

verus! {

pub struct ChangeColorAI {}

/// `c` is the rounded channel-wise mean of the rectangle at `p` of
/// extent `size`.
pub open spec fn is_mean_of(img: Seq<Seq<Color>>, p: Point, size: Point, c: Color) -> bool {
    let x0 = p.x as int;
    let x1 = p.x + size.x;
    let y0 = p.y as int;
    let y1 = p.y + size.y;
    let n = size.x * size.y;
    c == (Color {
        r: round_ratio(rect_chan_sum(img, x0, x1, y0, y1, 0), n) as i32,
        g: round_ratio(rect_chan_sum(img, x0, x1, y0, y1, 1), n) as i32,
        b: round_ratio(rect_chan_sum(img, x0, x1, y0, y1, 2), n) as i32,
        a: round_ratio(rect_chan_sum(img, x0, x1, y0, y1, 3), n) as i32,
    })
}

/// The similarity of painting block `blk` with the single color `c`,
/// judged against the image (the block lying within it).
pub open spec fn one_color_sim(img: Seq<Seq<Color>>, blk: SimpleBlock, c: Color) -> int {
    crate::similarity::sim_round(
        crate::similarity::rect_dist_color(
            c,
            img,
            blk.p.x as int,
            blk.p.x + blk.size.x,
            blk.p.y as int,
            blk.p.y + blk.size.y,
        ),
    )
}

/// `c` occurs in the rectangle at `p` of extent `size` at least as
/// often as every other color.
pub open spec fn is_majority_of(img: Seq<Seq<Color>>, p: Point, size: Point, c: Color) -> bool {
    let pix = rect_pixels(img, p.x as int, p.x + size.x, p.y as int, p.y + size.y);
    &&& count_color(pix, c) >= 1
    &&& forall|d: Color| #[trigger] count_color(pix, d) <= count_color(pix, c)
}

impl HeadAI for ChangeColorAI {
    open spec fn valid_input(&self, image: &Image, initial_state: &State) -> bool {
        &&& image.wf()
        &&& initial_state@.wf()
    }

    fn solve(&mut self, image: &Image, initial_state: &State) -> (r: Program)
        ensures
            forall|i: int| 0 <= i < r@.len() ==> match #[trigger] r@[i] {
                MoveView::Color { block_id, color } => (lookup_blocks(
                    initial_state@.blocks,
                    block_id,
                ) matches Some(b) && ((is_mean_of(image@, b.p, b.size, color) || is_majority_of(
                    image@,
                    b.p,
                    b.size,
                    color,
                )) && one_color_sim(image@, b, color) + crate::simulator::round_ratio(
                    (5 * image@[0].len() * image@.len()) as int,
                    b.size.x * b.size.y,
                ) < one_color_sim(image@, b, b.color))),
                _ => false,
            },
    {
        let w = image.width();
        let h = image.height();
        let n = initial_state.blocks.len();
        let mut programs: Vec<Move> = Vec::new();
        let mut i: usize = 0;
        while i < n
            invariant
                i <= n,
                n == initial_state.blocks@.len(),
                image.wf(),
                initial_state@.wf(),
                w == image@[0].len(),
                h == image@.len(),
                forall|k: int| 0 <= k < programs@.len() ==> (#[trigger] programs@[k])@.wf(),
                forall|k: int| 0 <= k < programs@.len() ==> match (#[trigger] programs@[k])@ {
                    MoveView::Color { block_id, color } => (lookup_blocks(
                        initial_state@.blocks,
                        block_id,
                    ) matches Some(b) && ((is_mean_of(image@, b.p, b.size, color)
                        || is_majority_of(image@, b.p, b.size, color)) && one_color_sim(
                        image@,
                        b,
                        color,
                    ) + crate::simulator::round_ratio(
                        (5 * image@[0].len() * image@.len()) as int,
                        b.size.x * b.size.y,
                    ) < one_color_sim(image@, b, b.color))),
                    _ => false,
                },
            decreases n - i,
        {
            let block = initial_state.blocks[i].1;
            proof {
                assert(initial_state@.blocks[i as int].1 == initial_state.blocks@[i as int].1);
                assert(initial_state@.blocks[i as int].1.wf());
                crate::state::lemma_entry_is_lookup(initial_state@.blocks, i as int);
            }
            // only blocks inside the target can be resampled
            if block.p.x + block.size.x <= w as i32 && block.p.y + block.size.y <= h as i32 {
                let color_average = image.average(block.p, block.size);
                let color_majority = image.majority(block.p, block.size);
                let next_move_average = Move::Color {
                    block_id: initial_state.blocks[i].0.clone(),
                    color: color_average,
                };
                let next_move_majority = Move::Color {
                    block_id: initial_state.blocks[i].0.clone(),
                    color: color_majority,
                };
                let sim_before = calc_partial_one_color_similarity(
                    block.p,
                    block.size,
                    block.color,
                    image,
                );
                let sim_average = calc_partial_one_color_similarity(
                    block.p,
                    block.size,
                    color_average,
                    image,
                );
                let sim_majority = calc_partial_one_color_similarity(
                    block.p,
                    block.size,
                    color_majority,
                    image,
                );
                let move_cost_average = move_cost(initial_state, &next_move_average, w, h);
                let move_cost_majority = move_cost(initial_state, &next_move_majority, w, h);
                match (move_cost_average, move_cost_majority) {
                    (Some(ca), Some(cm)) => {
                        proof {
                            crate::render::lemma_move_cost_bound(
                                initial_state@,
                                next_move_average@,
                                w as int,
                                h as int,
                            );
                            crate::render::lemma_move_cost_bound(
                                initial_state@,
                                next_move_majority@,
                                w as int,
                                h as int,
                            );
                        }
                        proof {
                            assert(sim_before == one_color_sim(image@, block, block.color));
                            assert(sim_average == one_color_sim(image@, block, color_average));
                            assert(sim_majority == one_color_sim(image@, block, color_majority));
                            crate::state::lemma_entry_is_lookup(initial_state@.blocks, i as int);
                            assert(ca == crate::simulator::round_ratio(
                                (5 * image@[0].len() * image@.len()) as int,
                                block.size.x * block.size.y,
                            ));
                            assert(cm == crate::simulator::round_ratio(
                                (5 * image@[0].len() * image@.len()) as int,
                                block.size.x * block.size.y,
                            ));
                        }
                        if sim_average + ca >= sim_before && sim_majority + cm >= sim_before {
                            // neither recoloring helps
                        } else if sim_average + ca >= sim_majority + cm {
                            programs.push(next_move_majority);
                        } else {
                            programs.push(next_move_average);
                        }
                    },
                    _ => {},
                }
            }
            i = i + 1;
        }
        let r = Program(programs);
        proof {
            assert forall|k: int| 0 <= k < r@.len() implies (#[trigger] r@[k]).wf() by {
                assert(r@[k] == r.0@[k]@);
            }
            assert forall|k: int| 0 <= k < r@.len() implies match #[trigger] r@[k] {
                MoveView::Color { block_id, color } => (lookup_blocks(
                    initial_state@.blocks,
                    block_id,
                ) matches Some(b) && ((is_mean_of(image@, b.p, b.size, color) || is_majority_of(
                    image@,
                    b.p,
                    b.size,
                    color,
                )) && one_color_sim(image@, b, color) + crate::simulator::round_ratio(
                    (5 * image@[0].len() * image@.len()) as int,
                    b.size.x * b.size.y,
                ) < one_color_sim(image@, b, b.color))),
                _ => false,
            } by {
                assert(r@[k] == r.0@[k]@);
            }
        }
        r
    }
}

} // verus!
