//! The merger: combine a multi-block initial partition into a single
//! block by a sequence of merges, then paint it white.
use vstd::prelude::*;

use crate::image::Image;
use crate::isl::{program_wf, BlockId, Color, Move, MoveView, Program};
use crate::simulator::{lemma_spec_run_snoc, merge_block, simulate, spec_run, spec_run_ok, spec_simulate};
use crate::state::{count_active, lookup_blocks, BlockState, SimpleBlock, State};

verus! {

/// A valid merge lowers the number of active blocks by exactly one:
/// two blocks retire and one fresh one appears.
proof fn lemma_merge_decrements_active(m: crate::state::StateModel, a: Seq<u32>, b: Seq<u32>)
    requires
        m.wf(),
        spec_simulate(m, MoveView::Merge { a, b }) is Some,
    ensures
        count_active(spec_simulate(m, MoveView::Merge { a, b }).unwrap().blocks) == count_active(
            m.blocks,
        ) - 1,
{
    let b1 = lookup_blocks(m.blocks, a).unwrap();
    let b2 = lookup_blocks(m.blocks, b).unwrap();
    let nb = crate::simulator::spec_merge_block(b1, b2).unwrap();
    let nb1 = SimpleBlock { state: BlockState::Merged, ..b1 };
    let nb2 = SimpleBlock { state: BlockState::Merged, ..b2 };
    let s0 = m.blocks;
    let nid: Seq<u32> = seq![m.next_global_id];
    let s1 = crate::state::insert_blocks(s0, nid, nb);
    let s2 = crate::state::insert_blocks(s1, a, nb1);
    crate::state::lemma_lookup_is_entry(s0, a);
    crate::state::lemma_lookup_is_entry(s0, b);
    // the fresh identifier is not yet a key
    crate::state::lemma_lookup_is_entry(s0, nid);
    assert(lookup_blocks(s0, nid) is None) by {
        if lookup_blocks(s0, nid) is Some {
            let j = choose|j: int|
                0 <= j < s0.len() && #[trigger] s0[j] == (nid, lookup_blocks(s0, nid)->Some_0);
            assert(s0[j].0[0] < m.next_global_id);
        }
    }
    // merging a block with itself never satisfies the adjacency check
    assert(a != b) by {
        if a == b {
            assert(b1 == b2);
            assert(b1.wf());
        }
    }
    assert(a != nid && b != nid) by {
        if a == nid {
            assert(lookup_blocks(s0, a) is Some);
        }
        if b == nid {
            assert(lookup_blocks(s0, b) is Some);
        }
    }
    crate::state::lemma_count_active_insert(s0, nid, nb);
    crate::state::lemma_insert_sorted(s0, nid, nb);
    crate::state::lemma_lookup_insert(s0, nid, nb, a);
    crate::state::lemma_count_active_insert(s1, a, nb1);
    crate::state::lemma_insert_sorted(s1, a, nb1);
    crate::state::lemma_lookup_insert(s0, nid, nb, b);
    crate::state::lemma_lookup_insert(s1, a, nb1, b);
    crate::state::lemma_count_active_insert(s2, b, nb2);
}

/// Coloring an active block keeps the number of active blocks.
proof fn lemma_color_keeps_active(m: crate::state::StateModel, id: Seq<u32>, c: Color)
    requires
        m.wf(),
        spec_simulate(m, MoveView::Color { block_id: id, color: c }) is Some,
    ensures
        count_active(
            spec_simulate(m, MoveView::Color { block_id: id, color: c }).unwrap().blocks,
        ) == count_active(m.blocks),
{
    let b = lookup_blocks(m.blocks, id).unwrap();
    crate::state::lemma_count_active_insert(m.blocks, id, SimpleBlock { color: c, ..b });
}

/// Greedy merger: while more than one block is active, merge the first
/// mergeable pair in (x, y) order of block origins.
pub struct MergeAI {
    pub state: State,
}

impl MergeAI {
    pub fn new(cost_coeff_version: u8) -> (r: MergeAI)
        requires
            cost_coeff_version < 2,
        ensures
            r.state@.wf(),
    {
        MergeAI { state: State::initial_state(1, 1, cost_coeff_version) }
    }

    /// Emit merges until one active block remains, then color it white.
    /// `None` when no mergeable pair exists (an inconsistent partition).
    pub fn solve(&mut self, _image: &Image, initial_state: &State) -> (r: Option<Program>)
        requires
            initial_state@.wf(),
        ensures
            final(self).state@.wf(),
            match r {
                Some(p) => {
                    &&& program_wf(p@)
                    &&& spec_run_ok(initial_state@, p@)
                    &&& spec_run(initial_state@, p@).1 == final(self).state@
                    &&& count_active(final(self).state@.blocks) == 1
                    &&& p@.len() >= 1
                    &&& p@.len() == count_active(initial_state@.blocks)
                    &&& (forall|j: int|
                        0 <= j < p@.len() - 1 ==> (#[trigger] p@[j]) matches MoveView::Merge {
                            ..
                        })
                    &&& (p@.last() matches MoveView::Color { color, .. } && color == (Color {
                        r: 255,
                        g: 255,
                        b: 255,
                        a: 255,
                    }))
                },
                None => true,
            },
            count_active(initial_state@.blocks) == 1 ==> r is Some,
    {
        self.state = initial_state.clone();
        let ghost init = initial_state@;
        let ghost count0 = count_active(init.blocks);
        let mut ret: Vec<Move> = Vec::new();
        let ghost mut acc: Seq<MoveView> = Seq::empty();
        let total = self.state.blocks.len();
        let mut round: usize = 0;
        while round < total
            invariant
                init == initial_state@,
                init.wf(),
                count0 == count_active(init.blocks),
                count_active(self.state@.blocks) == count0 - acc.len(),
                self.state@.wf(),
                spec_run(init, acc) == (acc.len() as int, self.state@),
                ret@.len() == acc.len(),
                forall|j: int| 0 <= j < acc.len() ==> (#[trigger] ret@[j])@ == acc[j],
                forall|j: int| 0 <= j < acc.len() ==> (#[trigger] acc[j]).wf(),
                forall|j: int| 0 <= j < acc.len() ==> (#[trigger] acc[j]) matches MoveView::Merge {
                    ..
                },
                count0 == 1 ==> acc.len() == 0,
            decreases total - round,
        {
            if self.active_block_num() <= 1 {
                break ;
            }
            let pair = self.find_mergeable_pair();
            let (a, b) = match pair {
                Some(x) => x,
                None => {
                    return None;
                },
            };
            let mv = Move::Merge { a, b };
            let ghost mvv = mv@;
            let ghost before = self.state@;
            match simulate(&mut self.state, &mv) {
                Some(()) => {},
                None => {
                    return None;
                },
            }
            proof {
                match mvv {
                    MoveView::Merge { a: av, b: bv } => {
                        lemma_merge_decrements_active(before, av, bv);
                    },
                    _ => {},
                }
                lemma_spec_run_snoc(init, acc, mvv);
                acc = acc.push(mvv);
            }
            ret.push(mv);
            round = round + 1;
        }
        if self.active_block_num() != 1 {
            return None;
        }
        let merged = self.merged_block_id();
        let mv = Move::Color { block_id: merged, color: Color::white() };
        let ghost mvv = mv@;
        let ghost before_color = self.state@;
        match simulate(&mut self.state, &mv) {
            Some(()) => {},
            None => {
                return None;
            },
        }
        proof {
            match mvv {
                MoveView::Color { block_id: idv, color: cv } => {
                    lemma_color_keeps_active(before_color, idv, cv);
                },
                _ => {},
            }
            lemma_spec_run_snoc(init, acc, mvv);
            acc = acc.push(mvv);
        }
        ret.push(mv);
        if self.active_block_num() != 1 {
            return None;
        }
        let p = Program(ret);
        proof {
            assert(p@ =~= acc);
            assert(p@.last() == acc[acc.len() - 1]);
        }
        Some(p)
    }

    /// How many blocks of the merger's state are active.
    pub fn active_block_num(&self) -> (r: usize)
        ensures
            r == count_active(self.state@.blocks),
    {
        self.state.active_block_num()
    }

    /// The identifier of the single remaining active block.
    pub fn merged_block_id(&self) -> (r: BlockId)
        requires
            self.state@.wf(),
            count_active(self.state@.blocks) >= 1,
        ensures
            lookup_blocks(self.state@.blocks, r@) matches Some(b) && b.state == BlockState::Active,
    {
        let ghost s = self.state@.blocks;
        let mut i: usize = 0;
        proof {
            assert(s.take(0) =~= Seq::<crate::state::BlockEntry>::empty());
        }
        while i < self.state.blocks.len()
            invariant
                i <= self.state.blocks@.len(),
                s == self.state@.blocks,
                self.state@.wf(),
                s.len() == self.state.blocks@.len(),
                count_active(s) >= 1,
                count_active(s.take(i as int)) == 0,
            decreases self.state.blocks@.len() - i,
        {
            proof {
                crate::state::lemma_count_active_take_snoc(s, i as int);
            }
            if self.state.blocks[i].1.state.is_active() {
                proof {
                    crate::state::lemma_entry_is_lookup(s, i as int);
                }
                return self.state.blocks[i].0.clone();
            }
            i = i + 1;
        }
        proof {
            assert(s.take(s.len() as int) =~= s);
        }
        unreached()
    }

    /// The first mergeable pair of active blocks, scanning blocks in
    /// ascending (x, y) order of their origins.
    fn find_mergeable_pair(&self) -> (r: Option<(BlockId, BlockId)>)
        requires
            self.state@.wf(),
        ensures
            r matches Some((a, b)) ==> {
                &&& (lookup_blocks(self.state@.blocks, a@) matches Some(ba) && ba.state
                    == BlockState::Active)
                &&& (lookup_blocks(self.state@.blocks, b@) matches Some(bb) && bb.state
                    == BlockState::Active)
            },
    {
        let ghost s = self.state@.blocks;
        // collect the active blocks
        let mut pool: Vec<(BlockId, SimpleBlock)> = Vec::new();
        let mut i: usize = 0;
        while i < self.state.blocks.len()
            invariant
                i <= self.state.blocks@.len(),
                s == self.state@.blocks,
                self.state@.wf(),
                s.len() == self.state.blocks@.len(),
                forall|j: int| 0 <= j < pool@.len() ==> {
                    &&& lookup_blocks(s, (#[trigger] pool@[j]).0@) == Some(pool@[j].1)
                    &&& pool@[j].1.state == BlockState::Active
                    &&& pool@[j].1.wf()
                },
            decreases self.state.blocks@.len() - i,
        {
            if self.state.blocks[i].1.state.is_active() {
                proof {
                    crate::state::lemma_entry_is_lookup(s, i as int);
                }
                pool.push((self.state.blocks[i].0.clone(), self.state.blocks[i].1));
            }
            i = i + 1;
        }
        // selection sort by (origin.x, origin.y)
        let mut sorted: Vec<(BlockId, SimpleBlock)> = Vec::new();
        while pool.len() > 0
            invariant
                s == self.state@.blocks,
                forall|j: int| 0 <= j < pool@.len() ==> {
                    &&& lookup_blocks(s, (#[trigger] pool@[j]).0@) == Some(pool@[j].1)
                    &&& pool@[j].1.state == BlockState::Active
                    &&& pool@[j].1.wf()
                },
                forall|j: int| 0 <= j < sorted@.len() ==> {
                    &&& lookup_blocks(s, (#[trigger] sorted@[j]).0@) == Some(sorted@[j].1)
                    &&& sorted@[j].1.state == BlockState::Active
                    &&& sorted@[j].1.wf()
                },
            decreases pool@.len(),
        {
            let mut best: usize = 0;
            let mut k: usize = 1;
            while k < pool.len()
                invariant
                    best < k <= pool@.len() || (k <= pool@.len() && best == 0),
                    best < pool@.len(),
                    pool@.len() > 0,
                decreases pool@.len() - k,
            {
                let pk = pool[k].1.p;
                let pb = pool[best].1.p;
                if pk.x < pb.x || (pk.x == pb.x && pk.y < pb.y) {
                    best = k;
                }
                k = k + 1;
            }
            let item = pool.swap_remove(best);
            sorted.push(item);
        }
        // first mergeable pair in that order
        let n = sorted.len();
        let mut i: usize = 0;
        while i < n
            invariant
                n == sorted@.len(),
                s == self.state@.blocks,
                forall|j: int| 0 <= j < sorted@.len() ==> {
                    &&& lookup_blocks(s, (#[trigger] sorted@[j]).0@) == Some(sorted@[j].1)
                    &&& sorted@[j].1.state == BlockState::Active
                    &&& sorted@[j].1.wf()
                },
            decreases n - i,
        {
            let mut j: usize = i + 1;
            while j < n
                invariant
                    i < j <= n || j == i + 1,
                    i < n,
                    n == sorted@.len(),
                    s == self.state@.blocks,
                    forall|jj: int| 0 <= jj < sorted@.len() ==> {
                        &&& lookup_blocks(s, (#[trigger] sorted@[jj]).0@) == Some(sorted@[jj].1)
                        &&& sorted@[jj].1.state == BlockState::Active
                        &&& sorted@[jj].1.wf()
                    },
                decreases n - j,
            {
                if merge_block(&sorted[i].1, &sorted[j].1).is_some() {
                    let a = sorted[i].0.clone();
                    let b = sorted[j].0.clone();
                    return Some((a, b));
                }
                j = j + 1;
            }
            i = i + 1;
        }
        None
    }
}

} // verus!
