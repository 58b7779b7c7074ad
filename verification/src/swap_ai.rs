//! A planner that only swaps equal-sized blocks of the initial
//! partition, greedily exchanging the pair that lowers the similarity
//! the most until no swap helps.
use vstd::prelude::*;

use crate::ai::HeadAI;
use crate::image::Image;
use crate::isl::{Color, Move, MoveView, Program};
use crate::similarity::calc_partial_one_color_similarity;
use crate::simulator::move_cost_without_state;
use crate::state::{lookup_blocks, State};

verus! {

pub struct SwapAI {}

/// The similarity of painting block `blk` with the single color `c`,
/// clipped to the image.
pub open spec fn clipped_sim(img: Seq<Seq<Color>>, blk: crate::state::SimpleBlock, c: Color) -> int {
    let x1 = if blk.p.x + blk.size.x <= img[0].len() {
        blk.p.x + blk.size.x
    } else {
        img[0].len() as int
    };
    let y1 = if blk.p.y + blk.size.y <= img.len() {
        blk.p.y + blk.size.y
    } else {
        img.len() as int
    };
    crate::similarity::sim_round(
        crate::similarity::rect_dist_color(c, img, blk.p.x as int, x1, blk.p.y as int, y1),
    )
}

/// The score change a swap of blocks `ba` and `bb` is predicted to
/// bring, when they currently show the colors of blocks `o1` and `o2`.
pub open spec fn swap_delta(
    img: Seq<Seq<Color>>,
    blocks: Seq<crate::state::BlockEntry>,
    ba: crate::state::SimpleBlock,
    bb: crate::state::SimpleBlock,
    o1: int,
    o2: int,
) -> int {
    clipped_sim(img, ba, blocks[o2].1.color) + clipped_sim(img, bb, blocks[o1].1.color)
        + crate::simulator::round_ratio(
        (3 * img[0].len() * img.len()) as int,
        ba.size.x * ba.size.y,
    ) - clipped_sim(img, ba, blocks[o1].1.color) - clipped_sim(img, bb, blocks[o2].1.color)
}

impl HeadAI for SwapAI {
    open spec fn valid_input(&self, image: &Image, initial_state: &State) -> bool {
        &&& image.wf()
        &&& initial_state@.wf()
    }

    fn solve(&mut self, image: &Image, initial_state: &State) -> (r: Program)
        ensures
            forall|i: int| 0 <= i < r@.len() ==> match #[trigger] r@[i] {
                MoveView::Swap { a, b } => {
                    &&& a != b
                    &&& (lookup_blocks(initial_state@.blocks, a) matches Some(ba) && (lookup_blocks(
                        initial_state@.blocks,
                        b,
                    ) matches Some(bb) && ba.size == bb.size && exists|o1: int, o2: int|
                        0 <= o1 < initial_state@.blocks.len() && 0 <= o2
                            < initial_state@.blocks.len() && #[trigger] swap_delta(
                            image@,
                            initial_state@.blocks,
                            ba,
                            bb,
                            o1,
                            o2,
                        ) < 0))
                },
                _ => false,
            },
    {
        let w = image.width();
        let h = image.height();
        let n = initial_state.blocks.len();
        // similarity of painting block i with the color of block j
        let mut similarity: Vec<Vec<i64>> = Vec::new();
        let mut i: usize = 0;
        while i < n
            invariant
                i <= n,
                n == initial_state.blocks@.len(),
                image.wf(),
                initial_state@.wf(),
                w == image@[0].len(),
                h == image@.len(),
                similarity@.len() == i,
                forall|a: int| 0 <= a < i ==> (#[trigger] similarity@[a])@.len() == n,
                forall|a: int, b: int|
                    0 <= a < i && 0 <= b < n ==> 0 <= (#[trigger] similarity@[a]@[b])
                        <= 0x40000000000000 + 209715200,
                forall|a: int, b: int|
                    0 <= a < i && 0 <= b < n ==> (#[trigger] similarity@[a]@[b]) == clipped_sim(
                        image@,
                        initial_state@.blocks[a].1,
                        initial_state@.blocks[b].1.color,
                    ),
            decreases n - i,
        {
            let bi = initial_state.blocks[i].1;
            proof {
                assert(initial_state@.blocks[i as int].1 == initial_state.blocks@[i as int].1);
                assert(initial_state@.blocks[i as int].1.wf());
            }
            let mut row: Vec<i64> = Vec::new();
            let mut j: usize = 0;
            while j < n
                invariant
                    j <= n,
                    n == initial_state.blocks@.len(),
                    image.wf(),
                    initial_state@.wf(),
                    bi.wf(),
                    row@.len() == j,
                    forall|a: int| 0 <= a < j ==> 0 <= (#[trigger] row@[a])
                        <= 0x40000000000000 + 209715200,
                    bi == initial_state@.blocks[i as int].1,
                    forall|a: int| 0 <= a < j ==> (#[trigger] row@[a]) == clipped_sim(
                        image@,
                        bi,
                        initial_state@.blocks[a].1.color,
                    ),
                decreases n - j,
            {
                let cj = initial_state.blocks[j].1.color;
                proof {
                    assert(initial_state@.blocks[j as int].1 == initial_state.blocks@[j as int].1);
                    assert(initial_state@.blocks[j as int].1.wf());
                }
                let s = calc_partial_one_color_similarity(bi.p, bi.size, cj, image);
                row.push(s);
                j = j + 1;
            }
            similarity.push(row);
            i = i + 1;
        }
        // color_origin[i]: which block's color currently sits at slot i
        let mut color_origin: Vec<usize> = Vec::new();
        let mut i: usize = 0;
        while i < n
            invariant
                i <= n,
                color_origin@.len() == i,
                forall|a: int| 0 <= a < i ==> (#[trigger] color_origin@[a]) == a && color_origin@[a]
                    < n,
            decreases n - i,
        {
            color_origin.push(i);
            i = i + 1;
        }
        let mut program: Vec<Move> = Vec::new();
        let mut updated = true;
        let mut iter_count: usize = 0;
        while updated && iter_count < 10000
            invariant
                n == initial_state.blocks@.len(),
                image.wf(),
                initial_state@.wf(),
                w == image@[0].len(),
                h == image@.len(),
                similarity@.len() == n,
                forall|a: int| 0 <= a < n ==> (#[trigger] similarity@[a])@.len() == n,
                forall|a: int, b: int|
                    0 <= a < n && 0 <= b < n ==> 0 <= (#[trigger] similarity@[a]@[b])
                        <= 0x40000000000000 + 209715200,
                forall|a: int, b: int|
                    0 <= a < n && 0 <= b < n ==> (#[trigger] similarity@[a]@[b]) == clipped_sim(
                        image@,
                        initial_state@.blocks[a].1,
                        initial_state@.blocks[b].1.color,
                    ),
                color_origin@.len() == n,
                forall|a: int| 0 <= a < n ==> (#[trigger] color_origin@[a]) < n,
                forall|i: int| 0 <= i < program@.len() ==> match (#[trigger] program@[i])@ {
                    MoveView::Swap { a, b } => {
                        &&& a != b
                        &&& (lookup_blocks(initial_state@.blocks, a) matches Some(ba) && (
                        lookup_blocks(initial_state@.blocks, b) matches Some(bb) && ba.size
                            == bb.size && exists|o1: int, o2: int|
                            0 <= o1 < initial_state@.blocks.len() && 0 <= o2
                                < initial_state@.blocks.len() && #[trigger] swap_delta(
                                image@,
                                initial_state@.blocks,
                                ba,
                                bb,
                                o1,
                                o2,
                            ) < 0))
                    },
                    _ => false,
                },
            decreases 10000 - iter_count,
        {
            iter_count = iter_count + 1;
            updated = false;
            let mut min_cost_delta: i64 = i64::MAX;
            let mut best_i: usize = 0;
            let mut best_j: usize = 0;
            let mut found = false;
            let mut i: usize = 0;
            while i < n
                invariant
                    i <= n,
                    n == initial_state.blocks@.len(),
                    image.wf(),
                    initial_state@.wf(),
                    w == image@[0].len(),
                    h == image@.len(),
                    similarity@.len() == n,
                    forall|a: int| 0 <= a < n ==> (#[trigger] similarity@[a])@.len() == n,
                    forall|a: int, b: int|
                        0 <= a < n && 0 <= b < n ==> 0 <= (#[trigger] similarity@[a]@[b])
                            <= 0x40000000000000 + 209715200,
                    forall|a: int, b: int|
                        0 <= a < n && 0 <= b < n ==> (#[trigger] similarity@[a]@[b])
                            == clipped_sim(
                            image@,
                            initial_state@.blocks[a].1,
                            initial_state@.blocks[b].1.color,
                        ),
                    color_origin@.len() == n,
                    forall|a: int| 0 <= a < n ==> (#[trigger] color_origin@[a]) < n,
                    found ==> (best_i < n && best_j < n && best_i != best_j
                        && initial_state@.blocks[best_i as int].1.size
                        == initial_state@.blocks[best_j as int].1.size && min_cost_delta as int
                        == swap_delta(
                        image@,
                        initial_state@.blocks,
                        initial_state@.blocks[best_i as int].1,
                        initial_state@.blocks[best_j as int].1,
                        color_origin@[best_i as int] as int,
                        color_origin@[best_j as int] as int,
                    )),
                decreases n - i,
            {
                let mut j: usize = i + 1;
                while j < n
                    invariant
                        i < j <= n || j == i + 1,
                        i < n,
                        n == initial_state.blocks@.len(),
                        image.wf(),
                        initial_state@.wf(),
                        w == image@[0].len(),
                        h == image@.len(),
                        similarity@.len() == n,
                        forall|a: int| 0 <= a < n ==> (#[trigger] similarity@[a])@.len() == n,
                        forall|a: int, b: int|
                            0 <= a < n && 0 <= b < n ==> 0 <= (#[trigger] similarity@[a]@[b])
                                <= 0x40000000000000 + 209715200,
                        forall|a: int, b: int|
                            0 <= a < n && 0 <= b < n ==> (#[trigger] similarity@[a]@[b])
                                == clipped_sim(
                                image@,
                                initial_state@.blocks[a].1,
                                initial_state@.blocks[b].1.color,
                            ),
                        color_origin@.len() == n,
                        forall|a: int| 0 <= a < n ==> (#[trigger] color_origin@[a]) < n,
                        found ==> (best_i < n && best_j < n && best_i != best_j
                            && initial_state@.blocks[best_i as int].1.size
                            == initial_state@.blocks[best_j as int].1.size && min_cost_delta as int
                            == swap_delta(
                            image@,
                            initial_state@.blocks,
                            initial_state@.blocks[best_i as int].1,
                            initial_state@.blocks[best_j as int].1,
                            color_origin@[best_i as int] as int,
                            color_origin@[best_j as int] as int,
                        )),
                    decreases n - j,
                {
                    let b_i = initial_state.blocks[i].1;
                    let b_j = initial_state.blocks[j].1;
                    proof {
                        assert(initial_state@.blocks[i as int].1
                            == initial_state.blocks@[i as int].1);
                        assert(initial_state@.blocks[i as int].1.wf());
                    }
                    if b_i.size.x == b_j.size.x && b_i.size.y == b_j.size.y {
                        let swap_move = Move::Swap {
                            a: initial_state.blocks[i].0.clone(),
                            b: initial_state.blocks[j].0.clone(),
                        };
                        let area = b_i.area();
                        let move_cost = move_cost_without_state(
                            &swap_move,
                            area as usize,
                            w,
                            h,
                            initial_state.cost_coeff_version,
                        );
                        proof {
                            crate::dp_ai::lemma_cost_small(
                                initial_state.cost_coeff_version,
                                swap_move@,
                                w as int,
                                h as int,
                                area as int,
                            );
                        }
                        let oi = color_origin[i];
                        let oj = color_origin[j];
                        let sim_before = similarity[i][oi] + similarity[j][oj];
                        let sim_after = similarity[i][oj] + similarity[j][oi];
                        let cost_delta = sim_after + move_cost - sim_before;
                        if cost_delta < min_cost_delta {
                            min_cost_delta = cost_delta;
                            best_i = i;
                            best_j = j;
                            found = true;
                        }
                    }
                    j = j + 1;
                }
                i = i + 1;
            }
            if found && min_cost_delta < 0 {
                updated = true;
                proof {
                    crate::state::lemma_entry_is_lookup(initial_state@.blocks, best_i as int);
                    crate::state::lemma_entry_is_lookup(initial_state@.blocks, best_j as int);
                    if best_i < best_j {
                        crate::state::lemma_lex_asym(
                            initial_state@.blocks[best_i as int].0,
                            initial_state@.blocks[best_j as int].0,
                        );
                    } else {
                        crate::state::lemma_lex_asym(
                            initial_state@.blocks[best_j as int].0,
                            initial_state@.blocks[best_i as int].0,
                        );
                    }
                }
                let swap_move = Move::Swap {
                    a: initial_state.blocks[best_i].0.clone(),
                    b: initial_state.blocks[best_j].0.clone(),
                };
                let oi = color_origin[best_i];
                let oj = color_origin[best_j];
                color_origin.set(best_i, oj);
                color_origin.set(best_j, oi);
                program.push(swap_move);
            }
        }
        let r = Program(program);
        proof {
            assert forall|i: int| 0 <= i < r@.len() implies match #[trigger] r@[i] {
                MoveView::Swap { a, b } => {
                    &&& a != b
                    &&& (lookup_blocks(initial_state@.blocks, a) matches Some(ba) && (lookup_blocks(
                        initial_state@.blocks,
                        b,
                    ) matches Some(bb) && ba.size == bb.size && exists|o1: int, o2: int|
                        0 <= o1 < initial_state@.blocks.len() && 0 <= o2
                            < initial_state@.blocks.len() && #[trigger] swap_delta(
                            image@,
                            initial_state@.blocks,
                            ba,
                            bb,
                            o1,
                            o2,
                        ) < 0))
                },
                _ => false,
            } by {
                assert(r@[i] == r.0@[i]@);
            }
        }
        r
    }
}

} // verus!
