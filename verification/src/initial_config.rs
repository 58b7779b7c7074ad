//! Building a simulator state from an initial-partition description:
//! the plain values a configuration file carries, already parsed.
use vstd::prelude::*;

use crate::isl::{BlockId, Color, Point, MAX_COORD};
use crate::state::{BlockState, SimpleBlock, State};

verus! {

/// One block of an initial partition: a single-index identifier, its
/// rectangle by corners, and an optional solid color (absent for a
/// block whose contents are not a single color).
pub struct InitialBlockConfig {
    pub block_id: u32,
    pub bottom_left: Point,
    pub top_right: Point,
    pub color: Option<Color>,
}

impl InitialBlockConfig {
    /// A usable entry: a nonempty rectangle within bounds, an
    /// identifier below the block count, and a displayable color if
    /// one is given.
    pub open spec fn wf(self, n: int) -> bool {
        &&& 0 <= self.bottom_left.x < self.top_right.x <= MAX_COORD
        &&& 0 <= self.bottom_left.y < self.top_right.y <= MAX_COORD
        &&& self.block_id < n
        &&& match self.color {
            Some(c) => c.is_valid(),
            None => true,
        }
    }
}

/// Build the initial state an explicit partition describes: each entry
/// becomes an active block under its single-index identifier, a block
/// without a color gets undefined contents, and the merge counter
/// starts just past the partition's size.  `None` when an entry is out
/// of bounds.
pub fn initial_state_from_config(
    blocks: &Vec<InitialBlockConfig>,
    use_alternate_costs: bool,
) -> (r: Option<State>)
    requires
        1 <= blocks@.len() <= 65536,
    ensures
        r matches Some(s) ==> {
            &&& s@.wf()
            &&& s@.next_global_id == blocks@.len()
            &&& s@.cost_coeff_version == (if use_alternate_costs {
                1u8
            } else {
                0u8
            })
        },
{
    let n = blocks.len();
    let version: u8 = if use_alternate_costs {
        1
    } else {
        0
    };
    let mut state = State {
        blocks: Vec::new(),
        next_global_id: n as u32,
        cost_coeff_version: version,
    };
    proof {
        assert(state@.blocks =~= Seq::<crate::state::BlockEntry>::empty());
    }
    let mut i: usize = 0;
    while i < n
        invariant
            i <= n,
            n == blocks@.len(),
            1 <= n <= 65536,
            state@.next_global_id == n,
            state@.cost_coeff_version == version,
            version < 2,
            state@.wf(),
        decreases n - i,
    {
        let entry = &blocks[i];
        if !(0 <= entry.bottom_left.x && entry.bottom_left.x < entry.top_right.x
            && entry.top_right.x <= MAX_COORD && 0 <= entry.bottom_left.y && entry.bottom_left.y
            < entry.top_right.y && entry.top_right.y <= MAX_COORD && (entry.block_id as usize)
            < n) {
            return None;
        }
        let color = match &entry.color {
            Some(c) => {
                if !(0 <= c.r && c.r <= 255 && 0 <= c.g && c.g <= 255 && 0 <= c.b && c.b <= 255 && 0
                    <= c.a && c.a <= 255) {
                    return None;
                }
                *c
            },
            None => Color::invalid(),
        };
        let p = entry.bottom_left;
        let size = Point::new(
            entry.top_right.x - entry.bottom_left.x,
            entry.top_right.y - entry.bottom_left.y,
        );
        let block = SimpleBlock { p, size, color, state: BlockState::Active };
        let mut idv: Vec<u32> = Vec::new();
        idv.push(entry.block_id);
        let id = BlockId(idv);
        proof {
            assert(id@ =~= seq![entry.block_id]);
            crate::state::lemma_insert_sorted(state@.blocks, id@, block);
        }
        let ghost pre = state@.blocks;
        state.insert_block(id, block);
        proof {
            crate::state::lemma_insert_elements(pre, seq![entry.block_id], block);
            assert forall|k: int| 0 <= k < state@.blocks.len() implies {
                &&& (#[trigger] state@.blocks[k]).1.wf()
                &&& state@.blocks[k].0.len() >= 1
                &&& state@.blocks[k].0[0] < state@.next_global_id
            } by {
                if state@.blocks[k] != (seq![entry.block_id], block) {
                    let j = choose|j: int|
                        0 <= j < pre.len() && state@.blocks[k] == #[trigger] pre[j];
                    assert(pre[j].1.wf());
                }
            }
        }
        i = i + 1;
    }
    Some(state)
}

} // verus!
