//! The library's laws: general properties of the simulator and the
//! scoring rules, stated and proved once over the specifications that
//! the executable functions are verified against.
use vstd::prelude::*;

use crate::isl::{Color, MoveView, Point};
use crate::similarity::{lemma_sim_round_split, sim_round};
use crate::simulator::{
    pcut_child, pcut_valid, spec_merge_block, spec_run, spec_run_ok, spec_simulate,
};
use crate::state::{
    insert_blocks, lemma_lookup_insert, lemma_lookup_is_entry, lookup_blocks, BlockState,
    SimpleBlock, StateModel,
};

verus! {

/// Law: the simulator is a function of the program and the starting
/// state alone.  Executing a program twice from equal states reaches
/// equal states and succeeds or fails identically — `simulate_all`'s
/// contract pins its result to `spec_run`, and `spec_run` is a
/// mathematical function.
pub proof fn lemma_simulate_deterministic(
    m1: StateModel,
    m2: StateModel,
    prog: Seq<MoveView>,
)
    requires
        m1 == m2,
    ensures
        spec_run(m1, prog) == spec_run(m2, prog),
{
}

/// Law: the total score decomposes exactly into the sum of each move's
/// cost in the state it executes from, plus the similarity of the
/// terminal state against the target.
pub proof fn lemma_score_decomposition(
    prog: Seq<MoveView>,
    tgt: Seq<Seq<Color>>,
    m: StateModel,
)
    requires
        crate::render::spec_score(prog, tgt, m) is Some,
    ensures
        spec_run_ok(m, prog),
        crate::render::spec_score(prog, tgt, m) == Some(
            crate::render::spec_prefix_costs(m, prog, tgt[0].len() as int, tgt.len() as int).unwrap().0
                + crate::render::spec_state_similarity(spec_run(m, prog).1, tgt),
        ),
{
    crate::render::lemma_prefix_costs_run_ok(m, prog, tgt[0].len() as int, tgt.len() as int);
}

/// Law: incremental rescoring drifts by at most two.  If an old and a
/// new canvas agree outside one rectangle — their raw pixel-distance
/// sums decompose as `old_rect + rest` and `new_rect + rest` — then
/// the score estimated by exchanging the rectangle's similarity is
/// within two units of the fully recomputed score.
pub proof fn lemma_incremental_rescore(
    old_rect: int,
    new_rect: int,
    rest: int,
    old_move_sum: int,
    new_move_sum: int,
)
    requires
        0 <= old_rect,
        0 <= new_rect,
        0 <= rest,
    ensures
        ({
            let old_score = old_move_sum + sim_round(old_rect + rest);
            let estimate = new_move_sum + sim_round(new_rect) + (old_score - sim_round(old_rect)
                - old_move_sum);
            let true_score = new_move_sum + sim_round(new_rect + rest);
            estimate - 2 <= true_score <= estimate + 2
        }),
{
    lemma_sim_round_split(old_rect, rest);
    lemma_sim_round_split(new_rect, rest);
}

/// Law: a point cut is undone by merging the four children back.  For
/// a valid `PCut(id, p)` on block `B`, merging the two bottom children,
/// then the two top children, then the two spans, always succeeds and
/// produces a block covering exactly `B`'s rectangle, with undefined
/// contents.
pub proof fn lemma_pcut_merge_round_trip(m: StateModel, id: Seq<u32>, point: Point)
    requires
        m.wf(),
        lookup_blocks(m.blocks, id) matches Some(b) && pcut_valid(b, point),
        m.next_global_id <= u32::MAX - 3,
    ensures
        ({
            let b = lookup_blocks(m.blocks, id).unwrap();
            let n = m.next_global_id;
            let moves = seq![
                MoveView::PCut { block_id: id, point },
                MoveView::Merge { a: id.push(0u32), b: id.push(1u32) },
                MoveView::Merge { a: id.push(2u32), b: id.push(3u32) },
                MoveView::Merge { a: seq![n], b: seq![(n + 1) as u32] },
            ];
            &&& spec_run_ok(m, moves)
            &&& lookup_blocks(spec_run(m, moves).1.blocks, seq![(n + 2) as u32]) == Some(
                SimpleBlock {
                    p: b.p,
                    size: b.size,
                    color: Color { r: -1i32, g: -1i32, b: -1i32, a: -1i32 },
                    state: BlockState::Active,
                },
            )
        }),
{
    let b = lookup_blocks(m.blocks, id).unwrap();
    let n = m.next_global_id;
    lemma_lookup_is_entry(m.blocks, id);
    assert(id.len() >= 1 && id[0] < n && b.wf());
    let id0 = id.push(0u32);
    let id1 = id.push(1u32);
    let id2 = id.push(2u32);
    let id3 = id.push(3u32);
    let nid0: Seq<u32> = seq![n];
    let nid1: Seq<u32> = seq![(n + 1) as u32];
    let nid2: Seq<u32> = seq![(n + 2) as u32];
    // all the identifiers involved are pairwise distinct
    assert(id0[id.len() as int] == 0u32);
    assert(id1[id.len() as int] == 1u32);
    assert(id2[id.len() as int] == 2u32);
    assert(id3[id.len() as int] == 3u32);
    assert(id0.len() == id.len() + 1 && id0.len() >= 2);
    assert(nid0.len() == 1 && nid1.len() == 1 && nid2.len() == 1);
    assert(nid0[0] == n && nid1[0] == n + 1 && nid2[0] == n + 2);
    assert(id != nid0 && id != nid1 && id != nid2) by {
        if id == nid0 {
            assert(id[0] == n);
        }
        if id == nid1 {
            assert(id[0] == n + 1);
        }
        if id == nid2 {
            assert(id[0] == n + 2);
        }
    }
    let c0 = pcut_child(b, point, 0);
    let c1 = pcut_child(b, point, 1);
    let c2 = pcut_child(b, point, 2);
    let c3 = pcut_child(b, point, 3);
    let parent = SimpleBlock { state: BlockState::Deleted, ..b };
    let mv1 = MoveView::PCut { block_id: id, point };
    let s0 = m.blocks;
    let s1 = insert_blocks(s0, id0, c0);
    let s2 = insert_blocks(s1, id1, c1);
    let s3 = insert_blocks(s2, id2, c2);
    let s4 = insert_blocks(s3, id3, c3);
    let s5 = insert_blocks(s4, id, parent);
    let m1 = spec_simulate(m, mv1).unwrap();
    assert(m1.blocks == s5 && m1.next_global_id == n);
    // locate the four children in the cut state
    lemma_lookup_insert(s4, id, parent, id0);
    lemma_lookup_insert(s3, id3, c3, id0);
    lemma_lookup_insert(s2, id2, c2, id0);
    lemma_lookup_insert(s1, id1, c1, id0);
    lemma_lookup_insert(s0, id0, c0, id0);
    assert(lookup_blocks(s5, id0) == Some(c0));
    lemma_lookup_insert(s4, id, parent, id1);
    lemma_lookup_insert(s3, id3, c3, id1);
    lemma_lookup_insert(s2, id2, c2, id1);
    lemma_lookup_insert(s1, id1, c1, id1);
    assert(lookup_blocks(s5, id1) == Some(c1));
    // first merge: the two bottom children, horizontally adjacent
    let mv2 = MoveView::Merge { a: id0, b: id1 };
    let ox = point.x - b.p.x;
    let oy = point.y - b.p.y;
    let merged0 = spec_merge_block(c0, c1).unwrap();
    assert(spec_merge_block(c0, c1) == Some(SimpleBlock {
        p: b.p,
        size: Point { x: b.size.x, y: oy as i32 },
        color: Color { r: -1i32, g: -1i32, b: -1i32, a: -1i32 },
        state: BlockState::Active,
    }));
    let t1 = insert_blocks(s5, nid0, merged0);
    let t2 = insert_blocks(t1, id0, SimpleBlock { state: BlockState::Merged, ..c0 });
    let t3 = insert_blocks(t2, id1, SimpleBlock { state: BlockState::Merged, ..c1 });
    let m2 = spec_simulate(m1, mv2).unwrap();
    assert(m2.blocks == t3 && m2.next_global_id == n + 1);
    // locate the two top children after the first merge
    lemma_lookup_insert(s4, id, parent, id2);
    lemma_lookup_insert(s3, id3, c3, id2);
    lemma_lookup_insert(s2, id2, c2, id2);
    assert(lookup_blocks(s5, id2) == Some(c2));
    lemma_lookup_insert(s4, id, parent, id3);
    lemma_lookup_insert(s3, id3, c3, id3);
    assert(lookup_blocks(s5, id3) == Some(c3));
    lemma_lookup_insert(t2, id1, SimpleBlock { state: BlockState::Merged, ..c1 }, id2);
    lemma_lookup_insert(t1, id0, SimpleBlock { state: BlockState::Merged, ..c0 }, id2);
    lemma_lookup_insert(s5, nid0, merged0, id2);
    assert(lookup_blocks(t3, id2) == Some(c2));
    lemma_lookup_insert(t2, id1, SimpleBlock { state: BlockState::Merged, ..c1 }, id3);
    lemma_lookup_insert(t1, id0, SimpleBlock { state: BlockState::Merged, ..c0 }, id3);
    lemma_lookup_insert(s5, nid0, merged0, id3);
    assert(lookup_blocks(t3, id3) == Some(c3));
    // second merge: the two top children; the left one sorts first
    let mv3 = MoveView::Merge { a: id2, b: id3 };
    let merged1 = spec_merge_block(c2, c3).unwrap();
    assert(spec_merge_block(c2, c3) == Some(SimpleBlock {
        p: Point { x: b.p.x, y: (b.p.y + oy) as i32 },
        size: Point { x: b.size.x, y: (b.size.y - oy) as i32 },
        color: Color { r: -1i32, g: -1i32, b: -1i32, a: -1i32 },
        state: BlockState::Active,
    }));
    let u1 = insert_blocks(t3, nid1, merged1);
    let u2 = insert_blocks(u1, id2, SimpleBlock { state: BlockState::Merged, ..c2 });
    let u3 = insert_blocks(u2, id3, SimpleBlock { state: BlockState::Merged, ..c3 });
    let m3 = spec_simulate(m2, mv3).unwrap();
    assert(m3.blocks == u3 && m3.next_global_id == n + 2);
    // locate the two spans
    lemma_lookup_insert(t2, id1, SimpleBlock { state: BlockState::Merged, ..c1 }, nid0);
    lemma_lookup_insert(t1, id0, SimpleBlock { state: BlockState::Merged, ..c0 }, nid0);
    lemma_lookup_insert(s5, nid0, merged0, nid0);
    assert(lookup_blocks(t3, nid0) == Some(merged0));
    lemma_lookup_insert(u2, id3, SimpleBlock { state: BlockState::Merged, ..c3 }, nid0);
    lemma_lookup_insert(u1, id2, SimpleBlock { state: BlockState::Merged, ..c2 }, nid0);
    lemma_lookup_insert(t3, nid1, merged1, nid0);
    assert(lookup_blocks(u3, nid0) == Some(merged0));
    lemma_lookup_insert(u2, id3, SimpleBlock { state: BlockState::Merged, ..c3 }, nid1);
    lemma_lookup_insert(u1, id2, SimpleBlock { state: BlockState::Merged, ..c2 }, nid1);
    lemma_lookup_insert(t3, nid1, merged1, nid1);
    assert(lookup_blocks(u3, nid1) == Some(merged1));
    // final merge: bottom span under top span
    let mv4 = MoveView::Merge { a: nid0, b: nid1 };
    let merged2 = spec_merge_block(merged0, merged1).unwrap();
    assert(spec_merge_block(merged0, merged1) == Some(SimpleBlock {
        p: b.p,
        size: b.size,
        color: Color { r: -1i32, g: -1i32, b: -1i32, a: -1i32 },
        state: BlockState::Active,
    }));
    let v1 = insert_blocks(u3, nid2, merged2);
    let v2 = insert_blocks(v1, nid0, SimpleBlock { state: BlockState::Merged, ..merged0 });
    let v3 = insert_blocks(v2, nid1, SimpleBlock { state: BlockState::Merged, ..merged1 });
    let m4 = spec_simulate(m3, mv4).unwrap();
    assert(m4.blocks == v3);
    lemma_lookup_insert(v2, nid1, SimpleBlock { state: BlockState::Merged, ..merged1 }, nid2);
    lemma_lookup_insert(v1, nid0, SimpleBlock { state: BlockState::Merged, ..merged0 }, nid2);
    lemma_lookup_insert(u3, nid2, merged2, nid2);
    assert(lookup_blocks(v3, nid2) == Some(merged2));
    // assemble the run
    let moves = seq![mv1, mv2, mv3, mv4];
    assert(moves.drop_first() =~= seq![mv2, mv3, mv4]);
    assert(seq![mv2, mv3, mv4].drop_first() =~= seq![mv3, mv4]);
    assert(seq![mv3, mv4].drop_first() =~= seq![mv4]);
    assert(seq![mv4].drop_first() =~= Seq::<MoveView>::empty());
    assert(spec_run(m4, Seq::<MoveView>::empty()) == (0int, m4));
    assert(spec_run(m3, seq![mv4]) == (1int, m4));
    assert(spec_run(m2, seq![mv3, mv4]) == (2int, m4));
    assert(spec_run(m1, seq![mv2, mv3, mv4]) == (3int, m4));
    assert(spec_run(m, moves) == (4int, m4));
}

/// Every non-root identifier's parent is present in the table (and so,
/// inductively, its whole parent chain).
pub open spec fn parent_chains_present(s: Seq<crate::state::BlockEntry>) -> bool {
    forall|i: int|
        0 <= i < s.len() ==> ((#[trigger] s[i]).0.len() >= 2 ==> lookup_blocks(
            s,
            s[i].0.drop_last(),
        ) is Some)
}

/// An insertion never removes a key.
proof fn lemma_insert_keeps_some(
    s: Seq<crate::state::BlockEntry>,
    id: Seq<u32>,
    b: SimpleBlock,
    q: Seq<u32>,
)
    ensures
        lookup_blocks(s, q) is Some ==> lookup_blocks(insert_blocks(s, id, b), q) is Some,
{
    lemma_lookup_insert(s, id, b, q);
}

/// Law: the simulator preserves the identifier forest.  Every move
/// leaves the parent of each non-root identifier present in the state:
/// cuts insert children directly under their parent (which stays,
/// deleted), and merges draw fresh root identifiers.
pub proof fn lemma_simulate_preserves_parent_chains(m: StateModel, mv: MoveView)
    requires
        m.wf(),
        parent_chains_present(m.blocks),
        spec_simulate(m, mv) is Some,
    ensures
        parent_chains_present(spec_simulate(m, mv).unwrap().blocks),
{
    let t = spec_simulate(m, mv).unwrap().blocks;
    match mv {
        MoveView::PCut { block_id, point } => {
            let b = lookup_blocks(m.blocks, block_id).unwrap();
            let parent = SimpleBlock { state: BlockState::Deleted, ..b };
            let s0 = m.blocks;
            let s1 = insert_blocks(s0, block_id.push(0u32), pcut_child(b, point, 0));
            let s2 = insert_blocks(s1, block_id.push(1u32), pcut_child(b, point, 1));
            let s3 = insert_blocks(s2, block_id.push(2u32), pcut_child(b, point, 2));
            let s4 = insert_blocks(s3, block_id.push(3u32), pcut_child(b, point, 3));
            crate::state::lemma_insert_elements(s0, block_id.push(0u32), pcut_child(b, point, 0));
            crate::state::lemma_insert_elements(s1, block_id.push(1u32), pcut_child(b, point, 1));
            crate::state::lemma_insert_elements(s2, block_id.push(2u32), pcut_child(b, point, 2));
            crate::state::lemma_insert_elements(s3, block_id.push(3u32), pcut_child(b, point, 3));
            crate::state::lemma_insert_elements(s4, block_id, parent);
            assert forall|i: int|
                0 <= i < t.len() && (#[trigger] t[i]).0.len() >= 2 implies lookup_blocks(
                t,
                t[i].0.drop_last(),
            ) is Some by {
                let q = t[i].0.drop_last();
                if t[i].0 == block_id.push(0u32) || t[i].0 == block_id.push(1u32) || t[i].0
                    == block_id.push(2u32) || t[i].0 == block_id.push(3u32) {
                    assert(q =~= block_id) by {
                        assert(block_id.push(0u32).drop_last() =~= block_id);
                        assert(block_id.push(1u32).drop_last() =~= block_id);
                        assert(block_id.push(2u32).drop_last() =~= block_id);
                        assert(block_id.push(3u32).drop_last() =~= block_id);
                    }
                    lemma_lookup_insert(s4, block_id, parent, q);
                } else {
                    // an entry of the old table, or the deleted parent
                    assert(lookup_blocks(s0, q) is Some) by {
                        if t[i].0 == block_id {
                            crate::state::lemma_lookup_is_entry(s0, block_id);
                        } else {
                            assert(exists|j: int| 0 <= j < s0.len() && t[i] == #[trigger] s0[j]);
                            let j = choose|j: int| 0 <= j < s0.len() && t[i] == #[trigger] s0[j];
                            assert(s0[j].0.len() >= 2);
                        }
                    }
                    lemma_insert_keeps_some(s0, block_id.push(0u32), pcut_child(b, point, 0), q);
                    lemma_insert_keeps_some(s1, block_id.push(1u32), pcut_child(b, point, 1), q);
                    lemma_insert_keeps_some(s2, block_id.push(2u32), pcut_child(b, point, 2), q);
                    lemma_insert_keeps_some(s3, block_id.push(3u32), pcut_child(b, point, 3), q);
                    lemma_insert_keeps_some(s4, block_id, parent, q);
                }
            }
        },
        MoveView::LCut { block_id, orientation, line_number } => {
            let b = lookup_blocks(m.blocks, block_id).unwrap();
            let parent = SimpleBlock { state: BlockState::Deleted, ..b };
            let s0 = m.blocks;
            let s1 = insert_blocks(
                s0,
                block_id.push(0u32),
                crate::simulator::lcut_child(b, orientation, line_number, 0),
            );
            let s2 = insert_blocks(
                s1,
                block_id.push(1u32),
                crate::simulator::lcut_child(b, orientation, line_number, 1),
            );
            crate::state::lemma_insert_elements(
                s0,
                block_id.push(0u32),
                crate::simulator::lcut_child(b, orientation, line_number, 0),
            );
            crate::state::lemma_insert_elements(
                s1,
                block_id.push(1u32),
                crate::simulator::lcut_child(b, orientation, line_number, 1),
            );
            crate::state::lemma_insert_elements(s2, block_id, parent);
            assert forall|i: int|
                0 <= i < t.len() && (#[trigger] t[i]).0.len() >= 2 implies lookup_blocks(
                t,
                t[i].0.drop_last(),
            ) is Some by {
                let q = t[i].0.drop_last();
                if t[i].0 == block_id.push(0u32) || t[i].0 == block_id.push(1u32) {
                    assert(q =~= block_id) by {
                        assert(block_id.push(0u32).drop_last() =~= block_id);
                        assert(block_id.push(1u32).drop_last() =~= block_id);
                    }
                    lemma_lookup_insert(s2, block_id, parent, q);
                } else {
                    assert(lookup_blocks(s0, q) is Some) by {
                        if t[i].0 == block_id {
                            crate::state::lemma_lookup_is_entry(s0, block_id);
                        } else {
                            assert(exists|j: int| 0 <= j < s0.len() && t[i] == #[trigger] s0[j]);
                            let j = choose|j: int| 0 <= j < s0.len() && t[i] == #[trigger] s0[j];
                            assert(s0[j].0.len() >= 2);
                        }
                    }
                    lemma_insert_keeps_some(
                        s0,
                        block_id.push(0u32),
                        crate::simulator::lcut_child(b, orientation, line_number, 0),
                        q,
                    );
                    lemma_insert_keeps_some(
                        s1,
                        block_id.push(1u32),
                        crate::simulator::lcut_child(b, orientation, line_number, 1),
                        q,
                    );
                    lemma_insert_keeps_some(s2, block_id, parent, q);
                }
            }
        },
        MoveView::Color { block_id, color } => {
            let b = lookup_blocks(m.blocks, block_id).unwrap();
            let nb = SimpleBlock { color, ..b };
            let s0 = m.blocks;
            crate::state::lemma_insert_elements(s0, block_id, nb);
            assert forall|i: int|
                0 <= i < t.len() && (#[trigger] t[i]).0.len() >= 2 implies lookup_blocks(
                t,
                t[i].0.drop_last(),
            ) is Some by {
                let q = t[i].0.drop_last();
                assert(lookup_blocks(s0, q) is Some) by {
                    if t[i].0 == block_id {
                        crate::state::lemma_lookup_is_entry(s0, block_id);
                    } else {
                        assert(exists|j: int| 0 <= j < s0.len() && t[i] == #[trigger] s0[j]);
                        let j = choose|j: int| 0 <= j < s0.len() && t[i] == #[trigger] s0[j];
                        assert(s0[j].0.len() >= 2);
                    }
                }
                lemma_insert_keeps_some(s0, block_id, nb, q);
            }
        },
        MoveView::Swap { a, b } => {
            let b1 = lookup_blocks(m.blocks, a).unwrap();
            let b2 = lookup_blocks(m.blocks, b).unwrap();
            let nb1 = SimpleBlock { p: b2.p, ..b1 };
            let nb2 = SimpleBlock { p: b1.p, ..b2 };
            let s0 = m.blocks;
            let s1 = insert_blocks(s0, a, nb1);
            crate::state::lemma_insert_elements(s0, a, nb1);
            crate::state::lemma_insert_elements(s1, b, nb2);
            assert forall|i: int|
                0 <= i < t.len() && (#[trigger] t[i]).0.len() >= 2 implies lookup_blocks(
                t,
                t[i].0.drop_last(),
            ) is Some by {
                let q = t[i].0.drop_last();
                assert(lookup_blocks(s0, q) is Some) by {
                    if t[i].0 == a {
                        crate::state::lemma_lookup_is_entry(s0, a);
                    } else if t[i].0 == b {
                        crate::state::lemma_lookup_is_entry(s0, b);
                    } else {
                        assert(exists|j: int| 0 <= j < s0.len() && t[i] == #[trigger] s0[j]);
                        let j = choose|j: int| 0 <= j < s0.len() && t[i] == #[trigger] s0[j];
                        assert(s0[j].0.len() >= 2);
                    }
                }
                lemma_insert_keeps_some(s0, a, nb1, q);
                lemma_insert_keeps_some(s1, b, nb2, q);
            }
        },
        MoveView::Merge { a, b } => {
            let b1 = lookup_blocks(m.blocks, a).unwrap();
            let b2 = lookup_blocks(m.blocks, b).unwrap();
            let nb = spec_merge_block(b1, b2).unwrap();
            let nb1 = SimpleBlock { state: BlockState::Merged, ..b1 };
            let nb2 = SimpleBlock { state: BlockState::Merged, ..b2 };
            let s0 = m.blocks;
            let s1 = insert_blocks(s0, seq![m.next_global_id], nb);
            let s2 = insert_blocks(s1, a, nb1);
            crate::state::lemma_insert_elements(s0, seq![m.next_global_id], nb);
            crate::state::lemma_insert_elements(s1, a, nb1);
            crate::state::lemma_insert_elements(s2, b, nb2);
            assert forall|i: int|
                0 <= i < t.len() && (#[trigger] t[i]).0.len() >= 2 implies lookup_blocks(
                t,
                t[i].0.drop_last(),
            ) is Some by {
                let q = t[i].0.drop_last();
                assert(t[i].0 != seq![m.next_global_id]);
                assert(lookup_blocks(s0, q) is Some) by {
                    if t[i].0 == a {
                        crate::state::lemma_lookup_is_entry(s0, a);
                    } else if t[i].0 == b {
                        crate::state::lemma_lookup_is_entry(s0, b);
                    } else {
                        assert(exists|j: int| 0 <= j < s0.len() && t[i] == #[trigger] s0[j]);
                        let j = choose|j: int| 0 <= j < s0.len() && t[i] == #[trigger] s0[j];
                        assert(s0[j].0.len() >= 2);
                    }
                }
                lemma_insert_keeps_some(s0, seq![m.next_global_id], nb, q);
                lemma_insert_keeps_some(s1, a, nb1, q);
                lemma_insert_keeps_some(s2, b, nb2, q);
            }
        },
    }
}

} // verus!
