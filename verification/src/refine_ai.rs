//! The local-search refiner: randomized neighborhood moves over an
//! existing program, accepted by hill climbing or simulated annealing,
//! with incremental rescoring of the affected rectangle.  The best
//! program seen is tracked by its fully recomputed score, so the
//! result is never worse than the starting program.
use vstd::prelude::*;

use crate::ai::{ChainedAI, HeadAI};
use crate::dp_ai::DpAI;
use crate::image::Image;
use crate::isl::{program_wf, BlockId, Move, MoveView, Point, Program};
use crate::program_edit::lemma_collapse_wf;
use crate::render::{
    calc_score, lemma_prefix_costs_run_ok, program_cost_sum, rasterize_partial_state,
    rasterize_state, spec_score,
};
use crate::rng::{gen_range_i32, gen_range_usize, gen_unit, new_rng};
use crate::similarity::calc_partial_image_similarity;
use crate::simulator::simulate_all;
use crate::state::{lookup_blocks, BlockState, State};

verus! {

/// How candidate programs are accepted.
#[derive(Clone, Copy, Debug, PartialEq, Eq, Structural)]
pub enum OptimizeAlgorithm {
    HillClimbing,
    Annealing,
}

/// `m` is one of the moves of `prog`.
pub open spec fn occurs_in(prog: Seq<MoveView>, m: MoveView) -> bool {
    exists|k: int| 0 <= k < prog.len() && prog[k] == m
}

/// `m` is a cut or color move on a strict descendant of `root`.
pub open spec fn targets_strict_descendant(root: Seq<u32>, m: MoveView) -> bool {
    match m {
        MoveView::PCut { block_id, .. } => crate::isl::spec_is_child(root, block_id),
        MoveView::LCut { block_id, .. } => crate::isl::spec_is_child(root, block_id),
        MoveView::Color { block_id, .. } => crate::isl::spec_is_child(root, block_id),
        _ => false,
    }
}

/// `m` is a swap or merge naming a strict descendant of `root`.
pub open spec fn swap_merge_touches(root: Seq<u32>, m: MoveView) -> bool {
    match m {
        MoveView::Swap { a, b } => crate::isl::spec_is_child(root, a) || crate::isl::spec_is_child(
            root,
            b,
        ),
        MoveView::Merge { a, b } => crate::isl::spec_is_child(root, a) || crate::isl::spec_is_child(
            root,
            b,
        ),
        _ => false,
    }
}

/// `s` with every cut or color move on a strict descendant of `root`
/// removed, in the order it came.
pub open spec fn drop_descendants(root: Seq<u32>, s: Seq<MoveView>) -> Seq<MoveView>
    decreases s.len(),
{
    if s.len() == 0 {
        Seq::empty()
    } else {
        let rest = drop_descendants(root, s.drop_last());
        if targets_strict_descendant(root, s.last()) {
            rest
        } else {
            rest.push(s.last())
        }
    }
}

/// `m` is a swap or a merge.
pub open spec fn is_swap_merge(m: MoveView) -> bool {
    (m matches MoveView::Swap { .. }) || (m matches MoveView::Merge { .. })
}

/// The swap and merge moves of `s`, in order.
pub open spec fn swap_merge_seq(s: Seq<MoveView>) -> Seq<MoveView>
    decreases s.len(),
{
    if s.len() == 0 {
        Seq::empty()
    } else {
        let rest = swap_merge_seq(s.drop_last());
        if is_swap_merge(s.last()) {
            rest.push(s.last())
        } else {
            rest
        }
    }
}

/// Replacing a cut or color move by another keeps the swap-and-merge
/// subsequence.
pub proof fn lemma_swap_merge_seq_update(s: Seq<MoveView>, t: int, m: MoveView)
    requires
        0 <= t < s.len(),
        !is_swap_merge(s[t]),
        !is_swap_merge(m),
    ensures
        swap_merge_seq(s.update(t, m)) == swap_merge_seq(s),
    decreases s.len(),
{
    let u = s.update(t, m);
    if t == s.len() - 1 {
        assert(u.drop_last() =~= s.drop_last());
    } else {
        assert(u.drop_last() =~= s.drop_last().update(t, m));
        assert(u.last() == s.last());
        lemma_swap_merge_seq_update(s.drop_last(), t, m);
    }
}

/// Removing a cut or color move keeps the swap-and-merge subsequence.
pub proof fn lemma_swap_merge_seq_remove(s: Seq<MoveView>, t: int)
    requires
        0 <= t < s.len(),
        !is_swap_merge(s[t]),
    ensures
        swap_merge_seq(s.remove(t)) == swap_merge_seq(s),
    decreases s.len(),
{
    if t == s.len() - 1 {
        assert(s.remove(t) =~= s.drop_last());
    } else {
        let u = s.remove(t);
        assert(u.drop_last() =~= s.drop_last().remove(t));
        assert(u.last() == s.last());
        lemma_swap_merge_seq_remove(s.drop_last(), t);
    }
}

/// The swap-and-merge subsequence distributes over concatenation.
pub proof fn lemma_swap_merge_seq_add(a: Seq<MoveView>, b: Seq<MoveView>)
    ensures
        swap_merge_seq(a + b) == swap_merge_seq(a) + swap_merge_seq(b),
    decreases b.len(),
{
    if b.len() == 0 {
        assert(a + b =~= a);
        assert(swap_merge_seq(a) + swap_merge_seq(b) =~= swap_merge_seq(a));
    } else {
        assert((a + b).drop_last() =~= a + b.drop_last());
        assert((a + b).last() == b.last());
        lemma_swap_merge_seq_add(a, b.drop_last());
        if is_swap_merge(b.last()) {
            assert(swap_merge_seq(a) + swap_merge_seq(b) =~= (swap_merge_seq(a) + swap_merge_seq(
                b.drop_last(),
            )).push(b.last()));
        }
    }
}

/// A program of cuts and colors alone has no swaps or merges.
pub proof fn lemma_swap_merge_seq_empty(s: Seq<MoveView>)
    requires
        forall|j: int| 0 <= j < s.len() ==> !is_swap_merge(#[trigger] s[j]),
    ensures
        swap_merge_seq(s) == Seq::<MoveView>::empty(),
    decreases s.len(),
{
    if s.len() > 0 {
        lemma_swap_merge_seq_empty(s.drop_last());
    }
}

/// A one-move program's swap-and-merge subsequence.
pub proof fn lemma_swap_merge_seq_single(m: MoveView)
    ensures
        swap_merge_seq(seq![m]) == if is_swap_merge(m) {
            seq![m]
        } else {
            Seq::<MoveView>::empty()
        },
{
    assert(seq![m].drop_last() =~= Seq::<MoveView>::empty());
    assert(swap_merge_seq(Seq::<MoveView>::empty()) == Seq::<MoveView>::empty());
    if is_swap_merge(m) {
        assert(Seq::<MoveView>::empty().push(m) =~= seq![m]);
    }
}

/// Collapsing redundant color moves keeps the swap-and-merge
/// subsequence.
pub proof fn lemma_swap_merge_seq_collapse(s: Seq<MoveView>, colored: Set<Seq<u32>>)
    ensures
        swap_merge_seq(crate::program_edit::spec_collapse_colors(s, colored)) == swap_merge_seq(s),
    decreases s.len(),
{
    if s.len() > 0 {
        let last = s.last();
        let single = seq![last];
        lemma_swap_merge_seq_single(last);
        match last {
            MoveView::Color { block_id, .. } => {
                if colored.contains(block_id) {
                    lemma_swap_merge_seq_collapse(s.drop_last(), colored);
                } else {
                    let rp = crate::program_edit::spec_collapse_colors(
                        s.drop_last(),
                        colored.insert(block_id),
                    );
                    lemma_swap_merge_seq_collapse(s.drop_last(), colored.insert(block_id));
                    lemma_swap_merge_seq_add(rp, single);
                    assert(swap_merge_seq(rp) + Seq::<MoveView>::empty() =~= swap_merge_seq(rp));
                }
            },
            _ => {
                let rp = crate::program_edit::spec_collapse_colors(s.drop_last(), colored);
                lemma_swap_merge_seq_collapse(s.drop_last(), colored);
                lemma_swap_merge_seq_add(rp, single);
                if is_swap_merge(last) {
                    assert(swap_merge_seq(rp) + seq![last] =~= swap_merge_seq(rp).push(last));
                } else {
                    assert(swap_merge_seq(rp) + Seq::<MoveView>::empty() =~= swap_merge_seq(rp));
                }
            },
        }
    }
}

/// Filtering out a subtree's cuts and colors keeps the swap-and-merge
/// subsequence.
pub proof fn lemma_swap_merge_seq_drop_desc(root: Seq<u32>, s: Seq<MoveView>)
    ensures
        swap_merge_seq(drop_descendants(root, s)) == swap_merge_seq(s),
    decreases s.len(),
{
    if s.len() > 0 {
        lemma_swap_merge_seq_drop_desc(root, s.drop_last());
        let q = drop_descendants(root, s.drop_last());
        if !targets_strict_descendant(root, s.last()) {
            assert(q.push(s.last()).drop_last() =~= q);
            assert(q.push(s.last()).last() == s.last());
        }
    }
}

pub struct RefineAi {
    pub n_iters: usize,
    pub algorithm: OptimizeAlgorithm,
    /// Initial annealing temperature, in thousandths.
    pub initial_temperature_milli: u64,
    pub dp_divide_max: usize,
}

/// Pick a uniformly random active block of a state.
pub fn sample_active_block(state: &State, rng: &mut rand::rngs::ThreadRng) -> (r: Option<BlockId>)
    requires
        state@.wf(),
    ensures
        r matches Some(id) ==> (lookup_blocks(state@.blocks, id@) matches Some(b) && b.state
            == BlockState::Active),
        crate::state::count_active(state@.blocks) > 0 ==> r is Some,
{
    let ids = state.active_ids();
    if ids.len() == 0 {
        return None;
    }
    let t = gen_range_usize(rng, 0, ids.len());
    let mut ids = ids;
    let id = ids.swap_remove(t);
    Some(id)
}

/// The annealing temperature at progress `i / n`, in fixed point with
/// 20 fractional bits: `T0 * (1 - p) * 2^(-p)`, the halving taken in a
/// linear approximation.
pub(crate) fn temperature_fp(t0_milli: u64, i: usize, n: usize) -> (r: u128)
    requires
        0 < n <= 1000000000,
        i <= n,
        t0_milli <= 1000000,
{
    let nn = n as u128;
    let ii = i as u128;
    proof {
        assert((nn - ii) * (2 * nn - ii) <= 2000000000000000000) by (nonlinear_arith)
            requires
                0 <= ii <= nn <= 1000000000,
        ;
        assert((t0_milli as u128) * ((nn - ii) * (2 * nn - ii)) <= 1000000
            * 2000000000000000000u128) by (nonlinear_arith)
            requires
                t0_milli <= 1000000,
                0 <= (nn - ii) * (2 * nn - ii) <= 2000000000000000000,
        ;
        assert((2 * nn) * nn <= 2000000000000000000) by (nonlinear_arith)
            requires
                0 < nn <= 1000000000,
        ;
        assert(0 < (2 * nn) * nn) by (nonlinear_arith)
            requires
                0 < nn,
        ;
    }
    let num = (t0_milli as u128) * ((nn - ii) * (2 * nn - ii));
    let den = (2 * nn) * nn * 1000;
    (num * 1048576) / den
}

/// Metropolis acceptance for a worsening of `delta` at temperature
/// `t_fp`: accept with probability roughly `exp(-delta / t)`.
pub(crate) fn anneal_accept(rng: &mut rand::rngs::ThreadRng, delta: i64, t_fp: u128) -> bool
    requires
        0 <= delta <= 1000000000000,
{
    if t_fp == 0 {
        return false;
    }
    // z = delta / t in fixed point (20 fractional bits)
    let num = (delta as u128) * 1099511627776;
    let z_q20 = num / t_fp;
    proof {
        vstd::arithmetic::div_mod::lemma_div_is_ordered_by_denominator(num as int, 1, t_fp as int);
        assert(z_q20 <= num);
        assert(z_q20 * 1512775 <= 1000000000000 * 1099511627776 * 1512775) by (nonlinear_arith)
            requires
                0 <= z_q20 <= 1000000000000u128 * 1099511627776,
        ;
        assert((delta as u128) * 1099511627776 <= 1000000000000u128 * 1099511627776)
            by (nonlinear_arith)
            requires
                0 <= delta <= 1000000000000,
        ;
    }
    // halvings = z * log2(e)
    let y_q20 = (z_q20 * 1512775) / 1048576;
    let k = y_q20 / 1048576;
    if k >= 31 {
        return false;
    }
    let f = y_q20 % 1048576;
    proof {
        vstd::arithmetic::div_mod::lemma_mod_bound(y_q20 as int, 1048576);
    }
    // probability 2^(-k) * 2^(-f), the fractional halving linearized
    let mut base: u128 = 0x100000000u128;
    let mut j: u128 = 0;
    while j < k
        invariant
            j <= k,
            k < 31,
            f < 0x100000,
            base <= 0x100000000u128,
        decreases k - j,
    {
        base = base / 2;
        j = j + 1;
    }
    proof {
        assert(base * (0x200000 - f) <= 0x100000000u128 * 0x200000) by (nonlinear_arith)
            requires
                0 <= base <= 0x100000000u128,
                0 <= 0x200000 - f <= 0x200000,
        ;
    }
    let p_q32 = base * (0x200000 - f) / 0x200000;
    let u = gen_unit(rng) as u128;
    u < p_q32
}

impl RefineAi {
    /// Drop every move that targets a descendant of `target_block_id`;
    /// fail when a swap or merge touches one.
    pub fn remove_all_child(prev_program: &Program, target_block_id: &BlockId) -> (r: Option<
        Program,
    >)
        requires
            program_wf(prev_program@),
        ensures
            r matches Some(p) ==> {
                &&& program_wf(p@)
                &&& forall|j: int| 0 <= j < p@.len() ==> occurs_in(prev_program@, #[trigger] p@[j])
                &&& p@ == drop_descendants(target_block_id@, prev_program@)
            },
            (r is Some) <==> (forall|j: int|
                0 <= j < prev_program@.len() ==> !swap_merge_touches(
                    target_block_id@,
                    #[trigger] prev_program@[j],
                )),
    {
        let ghost root = target_block_id@;
        let mut next: Vec<Move> = Vec::new();
        let mut i: usize = 0;
        while i < prev_program.0.len()
            invariant
                i <= prev_program.0@.len(),
                program_wf(prev_program@),
                prev_program@.len() == prev_program.0@.len(),
                root == target_block_id@,
                forall|j: int| 0 <= j < next@.len() ==> (#[trigger] next@[j])@.wf(),
                forall|j: int|
                    0 <= j < next@.len() ==> occurs_in(prev_program@, (#[trigger] next@[j])@),
                Seq::new(next@.len() as nat, |k: int| next@[k]@) == drop_descendants(
                    root,
                    prev_program@.take(i as int),
                ),
                forall|j: int|
                    0 <= j < i ==> !swap_merge_touches(root, #[trigger] prev_program@[j]),
            decreases prev_program.0@.len() - i,
        {
            let ghost taken = prev_program@.take(i as int);
            let mv = &prev_program.0[i];
            proof {
                assert(prev_program@[i as int] == prev_program.0@[i as int]@);
                assert(prev_program@[i as int].wf());
            }
            let keep = match mv {
                Move::PCut { block_id, .. } => !target_block_id.is_child(block_id),
                Move::LCut { block_id, .. } => !target_block_id.is_child(block_id),
                Move::Color { block_id, .. } => !target_block_id.is_child(block_id),
                Move::Swap { a, b } => {
                    if target_block_id.is_child(a) || target_block_id.is_child(b) {
                        proof {
                            assert(swap_merge_touches(root, prev_program@[i as int]));
                        }
                        return None;
                    }
                    true
                },
                Move::Merge { a, b } => {
                    if target_block_id.is_child(a) || target_block_id.is_child(b) {
                        proof {
                            assert(swap_merge_touches(root, prev_program@[i as int]));
                        }
                        return None;
                    }
                    true
                },
            };
            proof {
                assert(keep == !targets_strict_descendant(root, prev_program@[i as int]));
            }
            if keep {
                next.push(mv.clone());
                proof {
                    assert(prev_program@[i as int] == (next@[next@.len() - 1])@);
                    assert(occurs_in(prev_program@, (next@[next@.len() - 1])@));
                }
            }
            proof {
                let taken1 = prev_program@.take(i + 1);
                assert(taken1.drop_last() =~= taken);
                assert(taken1.last() == prev_program@[i as int]);
                assert(Seq::new(next@.len() as nat, |k: int| next@[k]@) =~= drop_descendants(
                    root,
                    taken1,
                ));
            }
            i = i + 1;
        }
        let ghost nseq = next@;
        let p = Program(next);
        proof {
            assert forall|j: int| 0 <= j < p@.len() implies (#[trigger] p@[j]).wf() by {
                assert(p@[j] == p.0@[j]@);
            }
            assert forall|j: int| 0 <= j < p@.len() implies occurs_in(
                prev_program@,
                #[trigger] p@[j],
            ) by {
                assert(p@[j] == p.0@[j]@);
                assert(p.0@ == nseq);
                assert(occurs_in(prev_program@, (nseq[j])@));
            }
            assert(prev_program@.take(prev_program@.len() as int) =~= prev_program@);
            assert(p@ =~= Seq::new(nseq.len() as nat, |k: int| nseq[k]@));
            assert(p@ == drop_descendants(target_block_id@, prev_program@));
        }
        Some(p)
    }

    /// Append a DP subdivision of one block of the end state, then
    /// collapse redundant color moves.
    fn solve_by_dp_ai_one_block(
        &self,
        program: Program,
        block_id: &BlockId,
        image: &Image,
        initial_state: &State,
        end_state: &State,
        rng: &mut rand::rngs::ThreadRng,
    ) -> (r: Program)
        requires
            program_wf(program@),
            image.wf(),
            initial_state@.wf(),
            end_state@.wf(),
            lookup_blocks(end_state@.blocks, block_id@) is Some,
            4 <= self.dp_divide_max <= 16,
        ensures
            program_wf(r@),
            forall|j: int|
                0 <= j < r@.len() ==> (((#[trigger] r@[j]) matches MoveView::Swap { .. } || r@[j]
                    matches MoveView::Merge { .. }) ==> occurs_in(program@, r@[j])),
            swap_merge_seq(r@) == swap_merge_seq(program@),
    {
        let d = gen_range_usize(rng, 4, self.dp_divide_max + 1);
        let c = gen_range_usize(rng, 3, 9);
        let temp_state = end_state.block_state(
            BlockId::new(block_id.0.as_slice()),
            initial_state.cost_coeff_version,
        );
        let mut dp_ai = DpAI::new(d, c, 20, Some(BlockId::new(block_id.0.as_slice())));
        let ghost input = program@;
        let dp_program = dp_ai.solve(image, &temp_state);
        let mut program = program;
        let mut dp_moves = dp_program.0;
        let ghost base = program@;
        let ghost extra = Seq::new(dp_moves@.len(), |i: int| dp_moves@[i]@);
        proof {
            assert(extra =~= dp_program@);
        }
        program.0.append(&mut dp_moves);
        proof {
            assert forall|j: int| 0 <= j < program@.len() implies (#[trigger] program@[j]).wf() by {
                assert(program@[j] == program.0@[j]@);
                if j < base.len() {
                    assert(program.0@[j]@ == base[j]);
                } else {
                    assert(program.0@[j]@ == extra[j - base.len()]);
                }
            }
        }
        let ghost pre = program@;
        proof {
            assert(pre =~= base + extra);
            lemma_swap_merge_seq_add(base, extra);
            assert forall|j: int| 0 <= j < extra.len() implies !is_swap_merge(
                #[trigger] extra[j],
            ) by {
                assert(crate::dp_ai::move_targets_within(block_id@, dp_program@[j]));
            }
            lemma_swap_merge_seq_empty(extra);
            assert(swap_merge_seq(base) + Seq::<MoveView>::empty() =~= swap_merge_seq(base));
            assert(swap_merge_seq(pre) == swap_merge_seq(input));
        }
        program.remove_redundant_color_move();
        proof {
            lemma_swap_merge_seq_collapse(pre, Set::<Seq<u32>>::empty());
            lemma_collapse_wf(pre, Set::<Seq<u32>>::empty());
            crate::program_edit::lemma_collapse_elements(pre, Set::<Seq<u32>>::empty());
            assert forall|j: int|
                0 <= j < program@.len() && ((#[trigger] program@[j]) matches MoveView::Swap { .. }
                    || program@[j] matches MoveView::Merge { .. }) implies occurs_in(
                input,
                program@[j],
            ) by {
                if program@[j] matches MoveView::Swap { .. } || program@[j]
                    matches MoveView::Merge { .. } {
                    let k2 = choose|k2: int| 0 <= k2 < pre.len() && pre[k2] == program@[j];
                    if k2 >= base.len() {
                        assert(pre[k2] == extra[k2 - base.len()]);
                        assert(crate::dp_ai::move_targets_within(
                            block_id@,
                            dp_program@[k2 - base.len()],
                        ));
                        assert(false);
                    } else {
                        assert(pre[k2] == base[k2]);
                        assert(input[k2] == program@[j]);
                        assert(occurs_in(input, program@[j]));
                    }
                }
            }
        }
        program
    }

    /// Propose one neighbor of `prev_program`: either re-synthesize a
    /// random block with the DP, or perturb / drop one random move.
    /// Returns the candidate and the rectangle it may have changed.
    fn make_neighbor(
        &self,
        prev_program: &Program,
        image: &Image,
        initial_state: &State,
        end_state: &State,
        rng: &mut rand::rngs::ThreadRng,
    ) -> (r: Option<(Program, Point, Point)>)
        requires
            program_wf(prev_program@),
            prev_program@.len() >= 1,
            image.wf(),
            initial_state@.wf(),
            end_state@.wf(),
            4 <= self.dp_divide_max <= 16,
        ensures
            r matches Some(c) ==> {
                &&& program_wf(c.0@)
                &&& 0 <= c.1.x
                &&& 0 <= c.1.y
                &&& 0 <= c.2.x
                &&& 0 <= c.2.y
                &&& c.1.x + c.2.x <= crate::isl::MAX_COORD
                &&& c.1.y + c.2.y <= crate::isl::MAX_COORD
                &&& exists|id: Seq<u32>|
                    #[trigger] lookup_blocks(end_state@.blocks, id) matches Some(b) && c.1 == b.p
                        && c.2 == b.size
                &&& forall|j: int|
                    0 <= j < c.0@.len() ==> (((#[trigger] c.0@[j]) matches MoveView::Swap { .. }
                        || c.0@[j] matches MoveView::Merge { .. }) ==> occurs_in(
                        prev_program@,
                        c.0@[j],
                    ))
                &&& swap_merge_seq(c.0@) == swap_merge_seq(prev_program@)
            },
    {
        if gen_range_usize(rng, 0, 100) == 0 {
            // re-synthesize one random active block
            let block_id = match sample_active_block(end_state, rng) {
                Some(b) => b,
                None => {
                    return None;
                },
            };
            let block = end_state.get_block(&block_id).unwrap();
            proof {
                crate::state::lemma_lookup_is_entry(end_state@.blocks, block_id@);
            }
            let next_program = self.solve_by_dp_ai_one_block(
                prev_program.clone(),
                &block_id,
                image,
                initial_state,
                end_state,
                rng,
            );
            if next_program.0.len() == prev_program.0.len() {
                return None;
            }
            proof {
                assert forall|j: int|
                    0 <= j < next_program@.len() && ((#[trigger] next_program@[j])
                        matches MoveView::Swap { .. } || next_program@[j]
                        matches MoveView::Merge { .. }) implies occurs_in(
                    prev_program@,
                    next_program@[j],
                ) by {}
            }
            return Some((next_program, block.p, block.size));
        }
        let t = gen_range_usize(rng, 0, prev_program.0.len());
        let mv = prev_program.0[t].clone();
        proof {
            assert(prev_program@[t as int] == prev_program.0@[t as int]@);
            assert(prev_program@[t as int].wf());
        }
        let mut next_program = prev_program.clone();
        match mv {
            Move::PCut { block_id, point } => {
                let block = match end_state.get_block(&block_id) {
                    Some(b) => b,
                    None => {
                        return None;
                    },
                };
                proof {
                    crate::state::lemma_lookup_is_entry(end_state@.blocks, block_id@);
                }
                let r = gen_range_usize(rng, 0, 8);
                if r > 0 {
                    let dx = gen_range_i32(rng, -5, 6);
                    let dy = gen_range_i32(rng, -5, 6);
                    if dx == 0 || dy == 0 {
                        return None;
                    }
                    if point.x < -1000000 || point.x > 1000000 || point.y < -1000000 || point.y
                        > 1000000 {
                        return None;
                    }
                    let npoint = Point::new(point.x + dx, point.y + dy);
                    next_program.0.set(t, Move::PCut { block_id, point: npoint });
                    proof {
                        lemma_program_wf_set(prev_program@, next_program@, t as int);
                        lemma_edit_keeps_swaps(prev_program@, next_program@, t as int);
                        assert(next_program@ =~= prev_program@.update(
                            t as int,
                            next_program@[t as int],
                        ));
                        lemma_swap_merge_seq_update(
                            prev_program@,
                            t as int,
                            next_program@[t as int],
                        );
                    }
                    return Some((next_program, block.p, block.size));
                }
                let ghost pre0 = next_program.0@;
                let _removed = next_program.0.remove(t);
                proof {
                    assert forall|j: int| 0 <= j < next_program@.len() implies ((
                    #[trigger] next_program@[j]).wf() && next_program@[j]
                        == prev_program@.remove(t as int)[j]) by {
                        assert(next_program@[j] == next_program.0@[j]@);
                        assert(next_program.0@ == pre0.remove(t as int));
                        if j < t {
                            assert(pre0.remove(t as int)[j] == pre0[j]);
                            assert(pre0[j]@ == prev_program@[j]);
                        } else {
                            assert(pre0.remove(t as int)[j] == pre0[j + 1]);
                            assert(pre0[j + 1]@ == prev_program@[j + 1]);
                        }
                    }
                    assert(next_program@ =~= prev_program@.remove(t as int));
                    lemma_swap_merge_seq_remove(prev_program@, t as int);
                }
                let ghost removed_view = next_program@;
                let next_program = match Self::remove_all_child(&next_program, &block_id) {
                    Some(p) => p,
                    None => {
                        return None;
                    },
                };
                let ghost filtered_view = next_program@;
                let next_program = self.solve_by_dp_ai_one_block(
                    next_program,
                    &block_id,
                    image,
                    initial_state,
                    end_state,
                    rng,
                );
                proof {
                    assert forall|j: int|
                        0 <= j < next_program@.len() && ((#[trigger] next_program@[j])
                            matches MoveView::Swap { .. } || next_program@[j]
                            matches MoveView::Merge { .. }) implies occurs_in(
                        prev_program@,
                        next_program@[j],
                    ) by {
                        assert(occurs_in(filtered_view, next_program@[j]));
                        let k1 = choose|k1: int|
                            0 <= k1 < filtered_view.len() && filtered_view[k1]
                                == next_program@[j];
                        assert(occurs_in(removed_view, filtered_view[k1]));
                        let k2 = choose|k2: int|
                            0 <= k2 < removed_view.len() && removed_view[k2] == filtered_view[k1];
                        if k2 < t {
                            assert(prev_program@[k2] == next_program@[j]);
                        } else {
                            assert(prev_program@[k2 + 1] == next_program@[j]);
                        }
                        assert(occurs_in(prev_program@, next_program@[j]));
                    }
                    lemma_swap_merge_seq_drop_desc(block_id@, removed_view);
                    assert(swap_merge_seq(next_program@) == swap_merge_seq(prev_program@));
                }
                Some((next_program, block.p, block.size))
            },
            Move::LCut { block_id, orientation, line_number } => {
                let block = match end_state.get_block(&block_id) {
                    Some(b) => b,
                    None => {
                        return None;
                    },
                };
                proof {
                    crate::state::lemma_lookup_is_entry(end_state@.blocks, block_id@);
                }
                let r = gen_range_usize(rng, 0, 8);
                if r > 0 {
                    let dl = gen_range_i32(rng, -5, 6);
                    if dl == 0 {
                        return None;
                    }
                    if line_number < -1000000 || line_number > 1000000 {
                        return None;
                    }
                    next_program.0.set(
                        t,
                        Move::LCut { block_id, orientation, line_number: line_number + dl },
                    );
                    proof {
                        lemma_program_wf_set(prev_program@, next_program@, t as int);
                        lemma_edit_keeps_swaps(prev_program@, next_program@, t as int);
                        assert(next_program@ =~= prev_program@.update(
                            t as int,
                            next_program@[t as int],
                        ));
                        lemma_swap_merge_seq_update(
                            prev_program@,
                            t as int,
                            next_program@[t as int],
                        );
                    }
                    return Some((next_program, block.p, block.size));
                }
                let ghost pre0 = next_program.0@;
                let _removed = next_program.0.remove(t);
                proof {
                    assert forall|j: int| 0 <= j < next_program@.len() implies ((
                    #[trigger] next_program@[j]).wf() && next_program@[j]
                        == prev_program@.remove(t as int)[j]) by {
                        assert(next_program@[j] == next_program.0@[j]@);
                        assert(next_program.0@ == pre0.remove(t as int));
                        if j < t {
                            assert(pre0.remove(t as int)[j] == pre0[j]);
                            assert(pre0[j]@ == prev_program@[j]);
                        } else {
                            assert(pre0.remove(t as int)[j] == pre0[j + 1]);
                            assert(pre0[j + 1]@ == prev_program@[j + 1]);
                        }
                    }
                    assert(next_program@ =~= prev_program@.remove(t as int));
                    lemma_swap_merge_seq_remove(prev_program@, t as int);
                }
                let ghost removed_view = next_program@;
                let next_program = match Self::remove_all_child(&next_program, &block_id) {
                    Some(p) => p,
                    None => {
                        return None;
                    },
                };
                let ghost filtered_view = next_program@;
                let next_program = self.solve_by_dp_ai_one_block(
                    next_program,
                    &block_id,
                    image,
                    initial_state,
                    end_state,
                    rng,
                );
                proof {
                    assert forall|j: int|
                        0 <= j < next_program@.len() && ((#[trigger] next_program@[j])
                            matches MoveView::Swap { .. } || next_program@[j]
                            matches MoveView::Merge { .. }) implies occurs_in(
                        prev_program@,
                        next_program@[j],
                    ) by {
                        assert(occurs_in(filtered_view, next_program@[j]));
                        let k1 = choose|k1: int|
                            0 <= k1 < filtered_view.len() && filtered_view[k1]
                                == next_program@[j];
                        assert(occurs_in(removed_view, filtered_view[k1]));
                        let k2 = choose|k2: int|
                            0 <= k2 < removed_view.len() && removed_view[k2] == filtered_view[k1];
                        if k2 < t {
                            assert(prev_program@[k2] == next_program@[j]);
                        } else {
                            assert(prev_program@[k2 + 1] == next_program@[j]);
                        }
                        assert(occurs_in(prev_program@, next_program@[j]));
                    }
                    lemma_swap_merge_seq_drop_desc(block_id@, removed_view);
                    assert(swap_merge_seq(next_program@) == swap_merge_seq(prev_program@));
                }
                Some((next_program, block.p, block.size))
            },
            Move::Color { block_id, color: prev_color } => {
                let block = match end_state.get_block(&block_id) {
                    Some(b) => b,
                    None => {
                        return None;
                    },
                };
                proof {
                    crate::state::lemma_lookup_is_entry(end_state@.blocks, block_id@);
                }
                let r = gen_range_usize(rng, 0, 5);
                if r > 0 {
                    // block must lie within the image to sample from it
                    let w = image.width();
                    let h = image.height();
                    if block.p.x + block.size.x > w as i32 || block.p.y + block.size.y > h as i32 {
                        return None;
                    }
                    let color = if r <= 2 {
                        let x = block.p.x + gen_range_i32(rng, 0, block.size.x);
                        let y = block.p.y + gen_range_i32(rng, 0, block.size.y);
                        image.pixel(x as usize, y as usize)
                    } else {
                        image.average(block.p, block.size)
                    };
                    // skip barely-changed colors (distance below 1.5)
                    let dr = (color.r - prev_color.r) as i64;
                    let dg = (color.g - prev_color.g) as i64;
                    let db = (color.b - prev_color.b) as i64;
                    let da = (color.a - prev_color.a) as i64;
                    proof {
                        crate::similarity::lemma_sq_dist_bounds(color, prev_color);
                    }
                    let sq = dr * dr + dg * dg + db * db + da * da;
                    if sq <= 2 {
                        return None;
                    }
                    next_program.0.set(t, Move::Color { block_id, color });
                    proof {
                        lemma_program_wf_set(prev_program@, next_program@, t as int);
                        lemma_edit_keeps_swaps(prev_program@, next_program@, t as int);
                        assert(next_program@ =~= prev_program@.update(
                            t as int,
                            next_program@[t as int],
                        ));
                        lemma_swap_merge_seq_update(
                            prev_program@,
                            t as int,
                            next_program@[t as int],
                        );
                    }
                    return Some((next_program, block.p, block.size));
                }
                let ghost pre0 = next_program.0@;
                let _removed = next_program.0.remove(t);
                proof {
                    assert forall|j: int| 0 <= j < next_program@.len() implies ((
                    #[trigger] next_program@[j]).wf() && next_program@[j]
                        == prev_program@.remove(t as int)[j]) by {
                        assert(next_program@[j] == next_program.0@[j]@);
                        assert(next_program.0@ == pre0.remove(t as int));
                        if j < t {
                            assert(pre0.remove(t as int)[j] == pre0[j]);
                            assert(pre0[j]@ == prev_program@[j]);
                        } else {
                            assert(pre0.remove(t as int)[j] == pre0[j + 1]);
                            assert(pre0[j + 1]@ == prev_program@[j + 1]);
                        }
                    }
                    assert(next_program@ =~= prev_program@.remove(t as int));
                    lemma_swap_merge_seq_remove(prev_program@, t as int);
                }
                proof {
                    assert forall|j: int|
                        0 <= j < next_program@.len() && ((#[trigger] next_program@[j])
                            matches MoveView::Swap { .. } || next_program@[j]
                            matches MoveView::Merge { .. }) implies occurs_in(
                        prev_program@,
                        next_program@[j],
                    ) by {
                        if j < t {
                            assert(prev_program@[j] == next_program@[j]);
                        } else {
                            assert(prev_program@[j + 1] == next_program@[j]);
                        }
                        assert(occurs_in(prev_program@, next_program@[j]));
                    }
                }
                Some((next_program, block.p, block.size))
            },
            _ => None,
        }
    }
}

/// A program that agrees with another everywhere but at one index,
/// where it holds a cut or color move, has no new swaps or merges.
proof fn lemma_edit_keeps_swaps(before: Seq<MoveView>, after: Seq<MoveView>, t: int)
    requires
        after.len() == before.len(),
        0 <= t < before.len(),
        forall|j: int| 0 <= j < after.len() && j != t ==> after[j] == before[j],
        !(after[t] matches MoveView::Swap { .. }),
        !(after[t] matches MoveView::Merge { .. }),
    ensures
        forall|j: int|
            0 <= j < after.len() ==> (((#[trigger] after[j]) matches MoveView::Swap { .. }
                || after[j] matches MoveView::Merge { .. }) ==> occurs_in(before, after[j])),
{
    assert forall|j: int|
        0 <= j < after.len() && ((#[trigger] after[j]) matches MoveView::Swap { .. } || after[j]
            matches MoveView::Merge { .. }) implies occurs_in(before, after[j]) by {
        assert(j != t);
        assert(before[j] == after[j]);
        assert(occurs_in(before, after[j]));
    }
}

/// Replacing one move of a well-formed program with a well-formed move
/// keeps the program well formed.
proof fn lemma_program_wf_set(before: Seq<MoveView>, after: Seq<MoveView>, t: int)
    requires
        program_wf(before),
        after.len() == before.len(),
        0 <= t < before.len(),
        forall|j: int| 0 <= j < after.len() && j != t ==> after[j] == before[j],
        after[t].wf(),
    ensures
        program_wf(after),
{
}

impl ChainedAI for RefineAi {
    open spec fn valid_input(&self, image: &Image, initial_state: &State, program: &Program) -> bool {
        &&& image.wf()
        &&& initial_state@.wf()
        &&& program_wf(program@)
        &&& program@.len() <= 1000000
        &&& 4 <= self.dp_divide_max <= 16
        &&& self.initial_temperature_milli <= 1000000
        &&& self.n_iters <= 100000000
    }

    fn solve(&mut self, image: &Image, initial_state: &State, initial_program: &Program) -> (r:
        Program)
        ensures
            spec_score(initial_program@, image@, initial_state@) matches Some(s0) ==> (spec_score(
                r@,
                image@,
                initial_state@,
            ) matches Some(s) && s <= s0),
            (old(self).n_iters == 0 || initial_program@.len() == 0) ==> r@ == initial_program@,
    {
        let mut rng = new_rng();
        let mut best_program = initial_program.clone();
        let mut current_score = match calc_score(initial_program, image, initial_state) {
            Ok(s) => s,
            Err(_) => {
                return best_program;
            },
        };
        let ghost s0 = current_score as int;
        let mut best_score = current_score;
        let mut prev_program = initial_program.clone();
        proof {
            lemma_prefix_costs_run_ok(
                initial_state@,
                initial_program@,
                image@[0].len() as int,
                image@.len() as int,
            );
        }
        let mut current_end_state = match simulate_all(&prev_program, initial_state) {
            Ok(s) => s,
            Err(_) => {
                return best_program;
            },
        };
        let w = image.width();
        let h = image.height();
        proof {
            assert(w * h <= crate::image::MAX_IMAGE_AREA) by (nonlinear_arith)
                requires
                    image@.len() * image@[0].len() <= crate::image::MAX_IMAGE_AREA,
                    w == image@[0].len(),
                    h == image@.len(),
            ;
        }
        let mut current_image = rasterize_state(&current_end_state, w, h);
        let mut iter: usize = 0;
        while iter < self.n_iters
            invariant
                self.n_iters <= 100000000,
                image.wf(),
                initial_state@.wf(),
                w == image@[0].len(),
                h == image@.len(),
                w * h <= crate::image::MAX_IMAGE_AREA,
                4 <= self.dp_divide_max <= 16,
                self.initial_temperature_milli <= 1000000,
                program_wf(prev_program@),
                program_wf(best_program@),
                prev_program@.len() <= 50000000,
                spec_score(prev_program@, image@, initial_state@) == Some(current_score as int),
                spec_score(best_program@, image@, initial_state@) == Some(best_score as int),
                best_score as int <= s0,
                current_end_state@.wf(),
                crate::simulator::spec_run_ok(initial_state@, prev_program@),
                current_end_state@ == crate::simulator::spec_run(initial_state@, prev_program@).1,
                current_image.wf(),
                current_image@.len() == h,
                current_image@[0].len() == w,
                (self.n_iters == 0 || initial_program@.len() == 0) ==> (best_program@
                    == initial_program@ && prev_program@ == initial_program@),
            decreases self.n_iters - iter,
        {
            iter = iter + 1;
            if prev_program.0.len() == 0 {
                break ;
            }
            let t_fp = temperature_fp(self.initial_temperature_milli, iter, self.n_iters + 1);
            let candidate = match self.make_neighbor(
                &prev_program,
                image,
                initial_state,
                &current_end_state,
                &mut rng,
            ) {
                Some(c) => c,
                None => {
                    continue ;
                },
            };
            let (candidate_program, lt, size) = candidate;
            if candidate_program.0.len() > 50000000 {
                continue ;
            }
            let candidate_end_state = match simulate_all(&candidate_program, initial_state) {
                Ok(s) => s,
                Err(_) => {
                    continue ;
                },
            };
            // incremental estimate over the affected rectangle
            if lt.x + size.x > w as i32 || lt.y + size.y > h as i32 {
                continue ;
            }
            let candidate_move_sum = match program_cost_sum(&candidate_program, initial_state, w, h) {
                Some(c) => c,
                None => {
                    continue ;
                },
            };
            let current_move_sum = match program_cost_sum(&prev_program, initial_state, w, h) {
                Some(c) => c,
                None => {
                    continue ;
                },
            };
            let candidate_partial_image = rasterize_partial_state(
                lt,
                size,
                &candidate_end_state,
                w,
                h,
            );
            let diff_from = calc_partial_image_similarity(lt, size, &current_image, image);
            let diff_to = calc_partial_image_similarity(lt, size, &candidate_partial_image, image);
            let est_i128: i128 = candidate_move_sum as i128 + diff_to as i128 + (
            current_score as i128 - diff_from as i128 - current_move_sum as i128);
            let accept = if est_i128 < current_score as i128 {
                true
            } else {
                match self.algorithm {
                    OptimizeAlgorithm::HillClimbing => false,
                    OptimizeAlgorithm::Annealing => {
                        let delta_i128 = est_i128 - current_score as i128;
                        let delta = if delta_i128 > 1000000000000i128 {
                            1000000000000i64
                        } else {
                            delta_i128 as i64
                        };
                        anneal_accept(&mut rng, delta, t_fp)
                    },
                }
            };
            if accept {
                match calc_score(&candidate_program, image, initial_state) {
                    Ok(s) => {
                        proof {
                            lemma_prefix_costs_run_ok(
                                initial_state@,
                                candidate_program@,
                                w as int,
                                h as int,
                            );
                        }
                        prev_program = candidate_program;
                        current_score = s;
                        current_end_state = candidate_end_state;
                        current_image = rasterize_state(&current_end_state, w, h);
                        if current_score < best_score {
                            best_score = current_score;
                            best_program = prev_program.clone();
                        }
                    },
                    Err(_) => {},
                }
            }
        }
        best_program
    }
}

} // verus!
