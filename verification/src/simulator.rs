//! Execution of moves against a state: the authoritative model of the
//! instruction language, and the cost of each move.
use vstd::prelude::*;

use crate::isl::{BlockId, Color, Move, MoveView, Orientation, Point, Program, MAX_COORD};
use crate::state::{
    blocks_entries_wf, blocks_sorted, insert_blocks, lemma_insert_elements, lemma_lookup_is_entry,
    lookup_blocks, BlockEntry, BlockState, SimpleBlock, State, StateModel,
};

verus! {

/// Why a program stopped: the 1-based index of the offending move, the
/// move itself, and the block it targeted, if one existed.
#[derive(Debug)]
pub struct ProgramExecError {
    pub line_number: usize,
    pub mv: Move,
    pub block: Option<SimpleBlock>,
}

pub fn program_exec_error(line_number: usize, mv: Move, state: &State) -> (r: ProgramExecError)
    ensures
        r.line_number == line_number,
        r.mv@ == mv@,
{
    let block = match &mv {
        Move::LCut { block_id, .. } => state.get_block(block_id),
        Move::PCut { block_id, .. } => state.get_block(block_id),
        Move::Color { block_id, .. } => state.get_block(block_id),
        _ => None,
    };
    ProgramExecError { line_number, mv, block }
}

/// Whether a point cut of `b` at `point` is legal: the block is active
/// and the point is strictly interior.
pub open spec fn pcut_valid(b: SimpleBlock, point: Point) -> bool {
    &&& b.state == BlockState::Active
    &&& b.p.x < point.x < b.p.x + b.size.x
    &&& b.p.y < point.y < b.p.y + b.size.y
}

/// The four children of a point cut, in the canonical order
/// bottom-left, bottom-right, top-right, top-left.
pub open spec fn pcut_child(b: SimpleBlock, point: Point, i: int) -> SimpleBlock {
    let ox = (point.x - b.p.x) as i32;
    let oy = (point.y - b.p.y) as i32;
    let px = b.p.x;
    let py = b.p.y;
    let qx = (b.p.x + ox) as i32;
    let qy = (b.p.y + oy) as i32;
    let wx = (b.size.x - ox) as i32;
    let wy = (b.size.y - oy) as i32;
    if i == 0 {
        SimpleBlock {
            p: Point { x: px, y: py },
            size: Point { x: ox, y: oy },
            color: b.color,
            state: BlockState::Active,
        }
    } else if i == 1 {
        SimpleBlock {
            p: Point { x: qx, y: py },
            size: Point { x: wx, y: oy },
            color: b.color,
            state: BlockState::Active,
        }
    } else if i == 2 {
        SimpleBlock {
            p: Point { x: qx, y: qy },
            size: Point { x: wx, y: wy },
            color: b.color,
            state: BlockState::Active,
        }
    } else {
        SimpleBlock {
            p: Point { x: px, y: qy },
            size: Point { x: ox, y: wy },
            color: b.color,
            state: BlockState::Active,
        }
    }
}

/// Whether a line cut of `b` is legal: the block is active and the
/// line is strictly interior along the cut axis.
pub open spec fn lcut_valid(b: SimpleBlock, orientation: Orientation, line_number: i32) -> bool {
    &&& b.state == BlockState::Active
    &&& match orientation {
        Orientation::Vertical => b.p.x < line_number < b.p.x + b.size.x,
        Orientation::Horizontal => b.p.y < line_number < b.p.y + b.size.y,
    }
}

/// The two children of a line cut: left then right for a vertical cut,
/// bottom then top for a horizontal one.
pub open spec fn lcut_child(
    b: SimpleBlock,
    orientation: Orientation,
    line_number: i32,
    i: int,
) -> SimpleBlock {
    match orientation {
        Orientation::Vertical => {
            let ox = (line_number - b.p.x) as i32;
            if i == 0 {
                SimpleBlock {
                    p: b.p,
                    size: Point { x: ox, y: b.size.y },
                    color: b.color,
                    state: BlockState::Active,
                }
            } else {
                SimpleBlock {
                    p: Point { x: (b.p.x + ox) as i32, y: b.p.y },
                    size: Point { x: (b.size.x - ox) as i32, y: b.size.y },
                    color: b.color,
                    state: BlockState::Active,
                }
            }
        },
        Orientation::Horizontal => {
            let oy = (line_number - b.p.y) as i32;
            if i == 0 {
                SimpleBlock {
                    p: b.p,
                    size: Point { x: b.size.x, y: oy },
                    color: b.color,
                    state: BlockState::Active,
                }
            } else {
                SimpleBlock {
                    p: Point { x: b.p.x, y: (b.p.y + oy) as i32 },
                    size: Point { x: b.size.x, y: (b.size.y - oy) as i32 },
                    color: b.color,
                    state: BlockState::Active,
                }
            }
        },
    }
}

/// The union of two adjacent blocks, if they share a full edge:
/// stacked vertically with equal widths, or side by side with equal
/// heights.  The union has undefined contents.
pub open spec fn spec_merge_block(b1: SimpleBlock, b2: SimpleBlock) -> Option<SimpleBlock> {
    let lo = if b1.p.x > b2.p.x || b1.p.y > b2.p.y {
        b2
    } else {
        b1
    };
    let hi = if b1.p.x > b2.p.x || b1.p.y > b2.p.y {
        b1
    } else {
        b2
    };
    if lo.p.x == hi.p.x {
        if lo.size.x == hi.size.x && lo.p.y + lo.size.y == hi.p.y {
            Some(SimpleBlock {
                p: lo.p,
                size: Point { x: lo.size.x, y: (lo.size.y + hi.size.y) as i32 },
                color: Color { r: -1i32, g: -1i32, b: -1i32, a: -1i32 },
                state: BlockState::Active,
            })
        } else {
            None
        }
    } else {
        if lo.size.y == hi.size.y && lo.p.x + lo.size.x == hi.p.x {
            Some(SimpleBlock {
                p: lo.p,
                size: Point { x: (lo.size.x + hi.size.x) as i32, y: lo.size.y },
                color: Color { r: -1i32, g: -1i32, b: -1i32, a: -1i32 },
                state: BlockState::Active,
            })
        } else {
            None
        }
    }
}

/// Executable counterpart of [`spec_merge_block`].
pub fn merge_block(block1: &SimpleBlock, block2: &SimpleBlock) -> (r: Option<SimpleBlock>)
    requires
        block1.wf(),
        block2.wf(),
    ensures
        r == spec_merge_block(*block1, *block2),
        r matches Some(b) ==> b.wf(),
{
    let (lo, hi) = if block1.p.x > block2.p.x || block1.p.y > block2.p.y {
        (*block2, *block1)
    } else {
        (*block1, *block2)
    };
    if lo.p.x == hi.p.x {
        if lo.size.x == hi.size.x && lo.p.y + lo.size.y == hi.p.y {
            Some(SimpleBlock {
                p: lo.p,
                size: Point::new(lo.size.x, lo.size.y + hi.size.y),
                color: Color::invalid(),
                state: BlockState::Active,
            })
        } else {
            None
        }
    } else {
        if lo.size.y == hi.size.y && lo.p.x + lo.size.x == hi.p.x {
            Some(SimpleBlock {
                p: lo.p,
                size: Point::new(lo.size.x + hi.size.x, lo.size.y),
                color: Color::invalid(),
                state: BlockState::Active,
            })
        } else {
            None
        }
    }
}

/// The state after one move, or `None` when the move is invalid in the
/// given state.  This is the definition of move semantics.
pub open spec fn spec_simulate(m: StateModel, mv: MoveView) -> Option<StateModel> {
    match mv {
        MoveView::PCut { block_id, point } => match lookup_blocks(m.blocks, block_id) {
            None => None,
            Some(b) => if pcut_valid(b, point) {
                let s1 = insert_blocks(m.blocks, block_id.push(0u32), pcut_child(b, point, 0));
                let s2 = insert_blocks(s1, block_id.push(1u32), pcut_child(b, point, 1));
                let s3 = insert_blocks(s2, block_id.push(2u32), pcut_child(b, point, 2));
                let s4 = insert_blocks(s3, block_id.push(3u32), pcut_child(b, point, 3));
                let s5 = insert_blocks(s4, block_id, SimpleBlock { state: BlockState::Deleted, ..b });
                Some(StateModel { blocks: s5, ..m })
            } else {
                None
            },
        },
        MoveView::LCut { block_id, orientation, line_number } => match lookup_blocks(
            m.blocks,
            block_id,
        ) {
            None => None,
            Some(b) => if lcut_valid(b, orientation, line_number) {
                let s1 = insert_blocks(
                    m.blocks,
                    block_id.push(0u32),
                    lcut_child(b, orientation, line_number, 0),
                );
                let s2 = insert_blocks(
                    s1,
                    block_id.push(1u32),
                    lcut_child(b, orientation, line_number, 1),
                );
                let s3 = insert_blocks(s2, block_id, SimpleBlock { state: BlockState::Deleted, ..b });
                Some(StateModel { blocks: s3, ..m })
            } else {
                None
            },
        },
        MoveView::Color { block_id, color } => match lookup_blocks(m.blocks, block_id) {
            None => None,
            Some(b) => if b.state == BlockState::Active {
                Some(
                    StateModel {
                        blocks: insert_blocks(m.blocks, block_id, SimpleBlock { color, ..b }),
                        ..m
                    },
                )
            } else {
                None
            },
        },
        MoveView::Swap { a, b } => match (lookup_blocks(m.blocks, a), lookup_blocks(m.blocks, b)) {
            (Some(b1), Some(b2)) => if b1.state == BlockState::Active && b2.state
                == BlockState::Active && b1.size == b2.size {
                let s1 = insert_blocks(m.blocks, a, SimpleBlock { p: b2.p, ..b1 });
                let s2 = insert_blocks(s1, b, SimpleBlock { p: b1.p, ..b2 });
                Some(StateModel { blocks: s2, ..m })
            } else {
                None
            },
            _ => None,
        },
        MoveView::Merge { a, b } => match (lookup_blocks(m.blocks, a), lookup_blocks(m.blocks, b)) {
            (Some(b1), Some(b2)) => if b1.state == BlockState::Active && b2.state
                == BlockState::Active && m.next_global_id < u32::MAX {
                match spec_merge_block(b1, b2) {
                    None => None,
                    Some(nb) => {
                        let s1 = insert_blocks(m.blocks, seq![m.next_global_id], nb);
                        let s2 = insert_blocks(s1, a, SimpleBlock { state: BlockState::Merged, ..b1 });
                        let s3 = insert_blocks(s2, b, SimpleBlock { state: BlockState::Merged, ..b2 });
                        Some(
                            StateModel {
                                blocks: s3,
                                next_global_id: (m.next_global_id + 1) as u32,
                                cost_coeff_version: m.cost_coeff_version,
                            },
                        )
                    },
                }
            } else {
                None
            },
            _ => None,
        },
    }
}

/// Entry well-formedness survives one insertion of a well-formed entry.
proof fn lemma_insert_wf(s: Seq<BlockEntry>, id: Seq<u32>, b: SimpleBlock, next: u32)
    requires
        blocks_entries_wf(s, next),
        b.wf(),
        id.len() >= 1,
        id[0] < next,
    ensures
        blocks_entries_wf(insert_blocks(s, id, b), next),
{
    lemma_insert_elements(s, id, b);
    let t = insert_blocks(s, id, b);
    assert forall|i: int| 0 <= i < t.len() implies {
        &&& (#[trigger] t[i]).1.wf()
        &&& t[i].0.len() >= 1
        &&& t[i].0[0] < next
    } by {
        if t[i] != (id, b) {
            let j = choose|j: int| 0 <= j < s.len() && t[i] == #[trigger] s[j];
            assert(s[j].1.wf());
        }
    }
}

/// Raising the merge counter cannot break entry well-formedness.
proof fn lemma_entries_wf_weaken(s: Seq<BlockEntry>, next1: u32, next2: u32)
    requires
        blocks_entries_wf(s, next1),
        next1 <= next2,
    ensures
        blocks_entries_wf(s, next2),
{
}

/// Execute one move.  On success the state becomes exactly what
/// [`spec_simulate`] prescribes; an invalid move leaves it untouched.
#[must_use]
pub fn simulate(state: &mut State, mv: &Move) -> (r: Option<()>)
    requires
        old(state)@.wf(),
        mv@.wf(),
    ensures
        final(state)@.wf(),
        match spec_simulate(old(state)@, mv@) {
            Some(m2) => r is Some && final(state)@ == m2,
            None => r is None && final(state)@ == old(state)@,
        },
{
    let ghost m0 = state@;
    match mv {
        Move::PCut { block_id, point } => {
            let b = match state.get_block(block_id) {
                Some(b) => b,
                None => {
                    return None;
                },
            };
            proof {
                lemma_lookup_is_entry(m0.blocks, block_id@);
            }
            if !b.state.is_active() {
                return None;
            }
            if point.x <= b.p.x || point.x >= b.p.x + b.size.x || point.y <= b.p.y || point.y
                >= b.p.y + b.size.y {
                return None;
            }
            let ox = point.x - b.p.x;
            let oy = point.y - b.p.y;
            let c0 = SimpleBlock::new(Point::new(b.p.x, b.p.y), Point::new(ox, oy), b.color);
            let c1 = SimpleBlock::new(
                Point::new(b.p.x + ox, b.p.y),
                Point::new(b.size.x - ox, oy),
                b.color,
            );
            let c2 = SimpleBlock::new(
                Point::new(b.p.x + ox, b.p.y + oy),
                Point::new(b.size.x - ox, b.size.y - oy),
                b.color,
            );
            let c3 = SimpleBlock::new(
                Point::new(b.p.x, b.p.y + oy),
                Point::new(ox, b.size.y - oy),
                b.color,
            );
            proof {
                assert(c0 == pcut_child(b, *point, 0));
                assert(c1 == pcut_child(b, *point, 1));
                assert(c2 == pcut_child(b, *point, 2));
                assert(c3 == pcut_child(b, *point, 3));
            }
            let mut id0 = block_id.clone();
            id0.0.push(0);
            let mut id1 = block_id.clone();
            id1.0.push(1);
            let mut id2 = block_id.clone();
            id2.0.push(2);
            let mut id3 = block_id.clone();
            id3.0.push(3);
            state.insert_block(id0, c0);
            state.insert_block(id1, c1);
            state.insert_block(id2, c2);
            state.insert_block(id3, c3);
            let parent = SimpleBlock { state: BlockState::Deleted, ..b };
            state.insert_block(BlockId::new(block_id.0.as_slice()), parent);
            proof {
                let s0 = m0.blocks;
                let s1 = insert_blocks(s0, block_id@.push(0u32), c0);
                let s2 = insert_blocks(s1, block_id@.push(1u32), c1);
                let s3 = insert_blocks(s2, block_id@.push(2u32), c2);
                let s4 = insert_blocks(s3, block_id@.push(3u32), c3);
                let s5 = insert_blocks(s4, block_id@, parent);
                lemma_insert_wf(s0, block_id@.push(0u32), c0, m0.next_global_id);
                lemma_insert_wf(s1, block_id@.push(1u32), c1, m0.next_global_id);
                lemma_insert_wf(s2, block_id@.push(2u32), c2, m0.next_global_id);
                lemma_insert_wf(s3, block_id@.push(3u32), c3, m0.next_global_id);
                lemma_insert_wf(s4, block_id@, parent, m0.next_global_id);
                assert(final(state)@.blocks == s5);
                assert(final(state)@ =~= spec_simulate(m0, mv@).unwrap());
            }
            Some(())
        },
        Move::LCut { block_id, orientation, line_number } => {
            let b = match state.get_block(block_id) {
                Some(b) => b,
                None => {
                    return None;
                },
            };
            proof {
                lemma_lookup_is_entry(m0.blocks, block_id@);
            }
            if !b.state.is_active() {
                return None;
            }
            let (c0, c1) = match orientation {
                Orientation::Vertical => {
                    if *line_number <= b.p.x || *line_number >= b.p.x + b.size.x {
                        return None;
                    }
                    let ox = *line_number - b.p.x;
                    (
                        SimpleBlock::new(b.p, Point::new(ox, b.size.y), b.color),
                        SimpleBlock::new(
                            Point::new(b.p.x + ox, b.p.y),
                            Point::new(b.size.x - ox, b.size.y),
                            b.color,
                        ),
                    )
                },
                Orientation::Horizontal => {
                    if *line_number <= b.p.y || *line_number >= b.p.y + b.size.y {
                        return None;
                    }
                    let oy = *line_number - b.p.y;
                    (
                        SimpleBlock::new(b.p, Point::new(b.size.x, oy), b.color),
                        SimpleBlock::new(
                            Point::new(b.p.x, b.p.y + oy),
                            Point::new(b.size.x, b.size.y - oy),
                            b.color,
                        ),
                    )
                },
            };
            proof {
                assert(c0 == lcut_child(b, *orientation, *line_number, 0));
                assert(c1 == lcut_child(b, *orientation, *line_number, 1));
            }
            let mut id0 = block_id.clone();
            id0.0.push(0);
            let mut id1 = block_id.clone();
            id1.0.push(1);
            state.insert_block(id0, c0);
            state.insert_block(id1, c1);
            let parent = SimpleBlock { state: BlockState::Deleted, ..b };
            state.insert_block(BlockId::new(block_id.0.as_slice()), parent);
            proof {
                let s0 = m0.blocks;
                let s1 = insert_blocks(s0, block_id@.push(0u32), c0);
                let s2 = insert_blocks(s1, block_id@.push(1u32), c1);
                let s3 = insert_blocks(s2, block_id@, parent);
                lemma_insert_wf(s0, block_id@.push(0u32), c0, m0.next_global_id);
                lemma_insert_wf(s1, block_id@.push(1u32), c1, m0.next_global_id);
                lemma_insert_wf(s2, block_id@, parent, m0.next_global_id);
                assert(final(state)@.blocks == s3);
                assert(final(state)@ =~= spec_simulate(m0, mv@).unwrap());
            }
            Some(())
        },
        Move::Color { block_id, color } => {
            let b = match state.get_block(block_id) {
                Some(b) => b,
                None => {
                    return None;
                },
            };
            proof {
                lemma_lookup_is_entry(m0.blocks, block_id@);
            }
            if !b.state.is_active() {
                return None;
            }
            let nb = SimpleBlock { color: *color, ..b };
            state.insert_block(BlockId::new(block_id.0.as_slice()), nb);
            proof {
                lemma_insert_wf(m0.blocks, block_id@, nb, m0.next_global_id);
                assert(final(state)@ =~= spec_simulate(m0, mv@).unwrap());
            }
            Some(())
        },
        Move::Swap { a, b } => {
            let b1 = match state.get_block(a) {
                Some(x) => x,
                None => {
                    return None;
                },
            };
            let b2 = match state.get_block(b) {
                Some(x) => x,
                None => {
                    return None;
                },
            };
            proof {
                lemma_lookup_is_entry(m0.blocks, a@);
                lemma_lookup_is_entry(m0.blocks, b@);
            }
            if !b1.state.is_active() || !b2.state.is_active() {
                return None;
            }
            if !(b1.size.x == b2.size.x && b1.size.y == b2.size.y) {
                return None;
            }
            proof {
                assert(b1.size == b2.size);
            }
            let nb1 = SimpleBlock { p: b2.p, ..b1 };
            let nb2 = SimpleBlock { p: b1.p, ..b2 };
            state.insert_block(BlockId::new(a.0.as_slice()), nb1);
            state.insert_block(BlockId::new(b.0.as_slice()), nb2);
            proof {
                let s1 = insert_blocks(m0.blocks, a@, nb1);
                lemma_insert_wf(m0.blocks, a@, nb1, m0.next_global_id);
                lemma_insert_wf(s1, b@, nb2, m0.next_global_id);
                assert(final(state)@ =~= spec_simulate(m0, mv@).unwrap());
            }
            Some(())
        },
        Move::Merge { a, b } => {
            let b1 = match state.get_block(a) {
                Some(x) => x,
                None => {
                    return None;
                },
            };
            let b2 = match state.get_block(b) {
                Some(x) => x,
                None => {
                    return None;
                },
            };
            proof {
                lemma_lookup_is_entry(m0.blocks, a@);
                lemma_lookup_is_entry(m0.blocks, b@);
            }
            if !b1.state.is_active() || !b2.state.is_active() {
                return None;
            }
            if state.next_global_id == u32::MAX {
                return None;
            }
            let nb = match merge_block(&b1, &b2) {
                Some(x) => x,
                None => {
                    return None;
                },
            };
            let fresh = state.next_global_id;
            let mut fresh_vec: Vec<u32> = Vec::new();
            fresh_vec.push(fresh);
            state.insert_block(BlockId(fresh_vec), nb);
            let nb1 = SimpleBlock { state: BlockState::Merged, ..b1 };
            let nb2 = SimpleBlock { state: BlockState::Merged, ..b2 };
            state.insert_block(BlockId::new(a.0.as_slice()), nb1);
            state.insert_block(BlockId::new(b.0.as_slice()), nb2);
            state.next_global_id = fresh + 1;
            proof {
                let next1 = (m0.next_global_id + 1) as u32;
                let s1 = insert_blocks(m0.blocks, seq![m0.next_global_id], nb);
                let s2 = insert_blocks(s1, a@, nb1);
                let s3 = insert_blocks(s2, b@, nb2);
                lemma_entries_wf_weaken(m0.blocks, m0.next_global_id, next1);
                lemma_insert_wf(m0.blocks, seq![m0.next_global_id], nb, next1);
                lemma_insert_wf(s1, a@, nb1, next1);
                lemma_insert_wf(s2, b@, nb2, next1);
                assert(final(state)@.blocks == s3);
                assert(final(state)@ =~= spec_simulate(m0, mv@).unwrap());
            }
            Some(())
        },
    }
}

/// The view of a sequence of moves.
pub open spec fn moves_view(s: Seq<Move>) -> Seq<MoveView> {
    Seq::new(s.len(), |i: int| s[i]@)
}

/// Run a program from a state: the number of moves that executed
/// before the first invalid one (the whole length on success), and the
/// state reached at that point.
pub open spec fn spec_run(m: StateModel, prog: Seq<MoveView>) -> (int, StateModel)
    decreases prog.len(),
{
    if prog.len() == 0 {
        (0, m)
    } else {
        match spec_simulate(m, prog[0]) {
            None => (0, m),
            Some(m2) => {
                let r = spec_run(m2, prog.drop_first());
                (1 + r.0, r.1)
            },
        }
    }
}

/// A run executes between zero and all of the program's moves.
pub proof fn lemma_spec_run_bounds(m: StateModel, prog: Seq<MoveView>)
    ensures
        0 <= spec_run(m, prog).0 <= prog.len(),
    decreases prog.len(),
{
    if prog.len() > 0 {
        match spec_simulate(m, prog[0]) {
            None => {},
            Some(m2) => {
                lemma_spec_run_bounds(m2, prog.drop_first());
            },
        }
    }
}

/// A program executes fully from a state.
pub open spec fn spec_run_ok(m: StateModel, prog: Seq<MoveView>) -> bool {
    spec_run(m, prog).0 == prog.len()
}

/// Appending one move to a program that runs through: the run extends
/// by exactly that move's step.
pub proof fn lemma_spec_run_snoc(m: StateModel, s: Seq<MoveView>, mv: MoveView)
    requires
        spec_run_ok(m, s),
    ensures
        spec_run(m, s.push(mv)) == match spec_simulate(spec_run(m, s).1, mv) {
            None => (s.len() as int, spec_run(m, s).1),
            Some(m2) => (s.len() + 1int, m2),
        },
    decreases s.len(),
{
    if s.len() == 0 {
        assert(s.push(mv).drop_first() =~= Seq::<MoveView>::empty());
        assert(s.push(mv)[0] == mv);
        assert(spec_run(m, s) == (0int, m));
        match spec_simulate(m, mv) {
            None => {
                assert(spec_run(m, s.push(mv)) == (0int, m));
            },
            Some(m2) => {
                assert(spec_run(m2, s.push(mv).drop_first()) == (0int, m2));
                assert(spec_run(m, s.push(mv)) == (1int, m2));
            },
        }
    } else {
        assert(spec_run(m, s).0 == s.len());
        assert(spec_simulate(m, s[0]) is Some) by {
            if spec_simulate(m, s[0]) is None {
                assert(spec_run(m, s) == (0int, m));
            }
        }
        let m2 = spec_simulate(m, s[0]).unwrap();
        assert(spec_run(m, s) == (1 + spec_run(m2, s.drop_first()).0, spec_run(
            m2,
            s.drop_first(),
        ).1));
        assert(spec_run_ok(m2, s.drop_first()));
        lemma_spec_run_snoc(m2, s.drop_first(), mv);
        assert(s.push(mv).drop_first() =~= s.drop_first().push(mv));
        assert(s.push(mv)[0] == s[0]);
        assert(spec_run(m, s.push(mv)) == (1 + spec_run(m2, s.drop_first().push(mv)).0, spec_run(
            m2,
            s.drop_first().push(mv),
        ).1));
    }
}

/// Execute every move of `program` in order.  On failure the state is
/// left at the point just before the offending move, whose 1-based
/// index the error carries.
pub fn simulate_partial(state: &mut State, program: &[Move]) -> (r: Result<(), ProgramExecError>)
    requires
        old(state)@.wf(),
        program_wf_slice(program@),
    ensures
        final(state)@.wf(),
        final(state)@ == spec_run(old(state)@, moves_view(program@)).1,
        match r {
            Ok(()) => spec_run_ok(old(state)@, moves_view(program@)),
            Err(e) => {
                &&& spec_run(old(state)@, moves_view(program@)).0 < program@.len()
                &&& e.line_number == spec_run(old(state)@, moves_view(program@)).0 + 1
                &&& e.mv@ == program@[spec_run(old(state)@, moves_view(program@)).0 as int]@
            },
        },
{
    let ghost m0 = state@;
    let ghost prog = moves_view(program@);
    let mut i: usize = 0;
    proof {
        assert(prog.skip(0) =~= prog);
    }
    while i < program.len()
        invariant
            i <= program@.len(),
            m0 == old(state)@,
            prog == moves_view(program@),
            prog.len() == program@.len(),
            state@.wf(),
            program_wf_slice(program@),
            spec_run(m0, prog) == {
                let r = spec_run(state@, prog.skip(i as int));
                (i + r.0, r.1)
            },
        decreases program@.len() - i,
    {
        let ghost before = state@;
        let mv = &program[i];
        proof {
            assert(prog.skip(i as int)[0] == prog[i as int]);
        }
        match simulate(state, mv) {
            Some(()) => {
                proof {
                    assert(prog.skip(i as int).drop_first() =~= prog.skip(i + 1));
                }
            },
            None => {
                proof {
                    assert(state@ == before);
                    assert(spec_run(before, prog.skip(i as int)).0 == 0int);
                    assert(spec_run(before, prog.skip(i as int)).1 == before);
                    assert(spec_run(m0, prog).0 == i as int);
                    assert(spec_run(m0, prog).1 == before);
                }
                return Err(program_exec_error(i + 1, mv.clone(), state));
            },
        }
        i = i + 1;
    }
    proof {
        assert(prog.skip(program@.len() as int).len() == 0);
    }
    Ok(())
}

/// Every move of a slice is well formed.
pub open spec fn program_wf_slice(s: Seq<Move>) -> bool {
    forall|i: int| 0 <= i < s.len() ==> (#[trigger] s[i])@.wf()
}

/// Execute a whole program against a copy of `initial_state`.
pub fn simulate_all(program: &Program, initial_state: &State) -> (r: Result<
    State,
    ProgramExecError,
>)
    requires
        initial_state@.wf(),
        crate::isl::program_wf(program@),
    ensures
        match r {
            Ok(s2) => {
                &&& spec_run_ok(initial_state@, program@)
                &&& s2@ == spec_run(initial_state@, program@).1
                &&& s2@.wf()
            },
            Err(e) => {
                &&& spec_run(initial_state@, program@).0 < program@.len()
                &&& e.line_number == spec_run(initial_state@, program@).0 + 1
                &&& e.mv@ == program@[spec_run(initial_state@, program@).0 as int]
            },
        },
{
    let mut state = initial_state.clone();
    proof {
        assert(moves_view(program.0@) =~= program@);
        assert forall|i: int| 0 <= i < program.0@.len() implies (#[trigger] program.0@[i])@.wf() by {
            assert(program@[i] == program.0@[i]@);
        }
    }
    let r = simulate_partial(&mut state, program.0.as_slice());
    match r {
        Ok(()) => Ok(state),
        Err(e) => {
            proof {
                lemma_spec_run_bounds(initial_state@, program@);
                let k = spec_run(initial_state@, program@).0;
                assert(program@[k as int] == program.0@[k as int]@);
            }
            Err(e)
        },
    }
}

/// Base cost coefficient of a move kind under a cost-table version.
pub open spec fn spec_cost_base(version: u8, mv: MoveView) -> int {
    match mv {
        MoveView::PCut { .. } => if version == 1 {
            3
        } else {
            10
        },
        MoveView::LCut { .. } => if version == 1 {
            2
        } else {
            7
        },
        MoveView::Color { .. } => 5,
        MoveView::Swap { .. } => 3,
        MoveView::Merge { .. } => 1,
    }
}

/// `num / den` rounded to the nearest integer, halves up: the
/// rounding used by every cost formula.
pub open spec fn round_ratio(num: int, den: int) -> int {
    (2 * num + den) / (2 * den)
}

/// The block whose area divides a move's cost: the target block, and
/// for a merge the larger of the two.
pub open spec fn spec_move_cost_area(m: StateModel, mv: MoveView) -> Option<int> {
    match mv {
        MoveView::PCut { block_id, .. } => match lookup_blocks(m.blocks, block_id) {
            Some(b) => Some(b.size.x * b.size.y),
            None => None,
        },
        MoveView::LCut { block_id, .. } => match lookup_blocks(m.blocks, block_id) {
            Some(b) => Some(b.size.x * b.size.y),
            None => None,
        },
        MoveView::Color { block_id, .. } => match lookup_blocks(m.blocks, block_id) {
            Some(b) => Some(b.size.x * b.size.y),
            None => None,
        },
        MoveView::Swap { a, .. } => match lookup_blocks(m.blocks, a) {
            Some(b) => Some(b.size.x * b.size.y),
            None => None,
        },
        MoveView::Merge { a, b } => match (lookup_blocks(m.blocks, a), lookup_blocks(m.blocks, b)) {
            (Some(b1), Some(b2)) => {
                let a1 = b1.size.x * b1.size.y;
                let a2 = b2.size.x * b2.size.y;
                Some(
                    if a1 >= a2 {
                        a1
                    } else {
                        a2
                    },
                )
            },
            _ => None,
        },
    }
}

/// Cost of one move on a `w`×`h` canvas: the base coefficient scaled
/// by the canvas area over the target block's area, rounded.
pub open spec fn spec_move_cost(m: StateModel, mv: MoveView, w: int, h: int) -> Option<int> {
    match spec_move_cost_area(m, mv) {
        Some(area) => Some(round_ratio(spec_cost_base(m.cost_coeff_version, mv) * w * h, area)),
        None => None,
    }
}

/// Round-to-nearest of `base * (w*h) / area`, computed exactly.
fn cost_round(base: u64, w: usize, h: usize, area: u64) -> (r: i64)
    requires
        base <= 10,
        0 < w <= MAX_COORD,
        0 < h <= MAX_COORD,
        0 < area <= MAX_COORD * MAX_COORD,
    ensures
        r == round_ratio(base * w * h, area as int),
{
    proof {
        assert(w * h <= MAX_COORD * MAX_COORD) by (nonlinear_arith)
            requires
                0 < w <= MAX_COORD,
                0 < h <= MAX_COORD,
        ;
        assert(base * (w * h) <= 10 * (MAX_COORD * MAX_COORD)) by (nonlinear_arith)
            requires
                base <= 10,
                0 <= w * h <= MAX_COORD * MAX_COORD,
        ;
        assert(base * w * h == base * (w * h)) by (nonlinear_arith);
    }
    let wh = (w as u64) * (h as u64);
    let num = base * wh;
    let r = (2 * num + area) / (2 * area);
    proof {
        assert(r == round_ratio(base * w * h, area as int));
        assert(round_ratio(base * w * h, area as int) <= i64::MAX) by {
            assert(2 * (base * w * h) + area <= 21 * (MAX_COORD * MAX_COORD));
            vstd::arithmetic::div_mod::lemma_div_is_ordered(
                (2 * (base * w * h) + area) as int,
                21 * (MAX_COORD * MAX_COORD),
                2 * area as int,
            );
            vstd::arithmetic::div_mod::lemma_div_is_ordered_by_denominator(
                21 * (MAX_COORD * MAX_COORD),
                2,
                2 * area as int,
            );
        }
    }
    r as i64
}

/// Cost of `mv` in `state` on a `w`×`h` canvas, if its targets exist.
pub fn move_cost(state: &State, mv: &Move, w: usize, h: usize) -> (r: Option<i64>)
    requires
        state@.wf(),
        0 < w <= MAX_COORD,
        0 < h <= MAX_COORD,
    ensures
        match spec_move_cost(state@, mv@, w as int, h as int) {
            Some(c) => r == Some(c as i64),
            None => r is None,
        },
{
    let base: u64 = match mv {
        Move::PCut { .. } => if state.cost_coeff_version == 1 {
            3
        } else {
            10
        },
        Move::LCut { .. } => if state.cost_coeff_version == 1 {
            2
        } else {
            7
        },
        Move::Color { .. } => 5,
        Move::Swap { .. } => 3,
        Move::Merge { .. } => 1,
    };
    let area: i32 = match mv {
        Move::PCut { block_id, .. } => {
            let b = match state.get_block(block_id) {
                Some(b) => b,
                None => {
                    return None;
                },
            };
            proof {
                lemma_lookup_is_entry(state@.blocks, block_id@);
            }
            b.area()
        },
        Move::LCut { block_id, .. } => {
            let b = match state.get_block(block_id) {
                Some(b) => b,
                None => {
                    return None;
                },
            };
            proof {
                lemma_lookup_is_entry(state@.blocks, block_id@);
            }
            b.area()
        },
        Move::Color { block_id, .. } => {
            let b = match state.get_block(block_id) {
                Some(b) => b,
                None => {
                    return None;
                },
            };
            proof {
                lemma_lookup_is_entry(state@.blocks, block_id@);
            }
            b.area()
        },
        Move::Swap { a, .. } => {
            let b = match state.get_block(a) {
                Some(b) => b,
                None => {
                    return None;
                },
            };
            proof {
                lemma_lookup_is_entry(state@.blocks, a@);
            }
            b.area()
        },
        Move::Merge { a, b } => {
            let b1 = match state.get_block(a) {
                Some(x) => x,
                None => {
                    return None;
                },
            };
            let b2 = match state.get_block(b) {
                Some(x) => x,
                None => {
                    return None;
                },
            };
            proof {
                lemma_lookup_is_entry(state@.blocks, a@);
                lemma_lookup_is_entry(state@.blocks, b@);
            }
            let a1 = b1.area();
            let a2 = b2.area();
            if a1 >= a2 {
                a1
            } else {
                a2
            }
        },
    };
    Some(cost_round(base, w, h, area as u64))
}

/// Cost of a move whose target area is known without a state.
pub fn move_cost_without_state(
    mv: &Move,
    target_area: usize,
    w: usize,
    h: usize,
    cost_coeff_version: u8,
) -> (r: i64)
    requires
        0 < target_area <= MAX_COORD * MAX_COORD,
        0 < w <= MAX_COORD,
        0 < h <= MAX_COORD,
    ensures
        r == round_ratio(spec_cost_base(cost_coeff_version, mv@) * w * h, target_area as int),
{
    let base: u64 = match mv {
        Move::PCut { .. } => if cost_coeff_version == 1 {
            3
        } else {
            10
        },
        Move::LCut { .. } => if cost_coeff_version == 1 {
            2
        } else {
            7
        },
        Move::Color { .. } => 5,
        Move::Swap { .. } => 3,
        Move::Merge { .. } => 1,
    };
    cost_round(base, w, h, target_area as u64)
}

} // verus!
