//! The simulator's state: a mapping from block identifiers to blocks,
//! kept as an association list sorted by identifier.  The ascending
//! identifier order is also the canonical painting order, so keeping
//! the list sorted serves both lookups and rasterization.
use vstd::prelude::*;

use crate::isl::{BlockId, Color, Point, MAX_COORD};
use vstd::pervasive::VecAdditionalExecFns;

verus! {

/// Lifecycle of a block.  Only `Active` blocks can be cut, colored,
/// swapped or merged; `Deleted` blocks were replaced by cut children;
/// `Merged` blocks were consumed by a merge.
#[derive(Clone, Copy, Debug, PartialEq, Eq, Structural)]
pub enum BlockState {
    Active,
    Deleted,
    Merged,
}

impl BlockState {
    pub fn is_active(self) -> (r: bool)
        ensures
            r == (self == BlockState::Active),
    {
        match self {
            BlockState::Active => true,
            _ => false,
        }
    }
}

/// An axis-aligned rectangle with a color and a lifecycle state.
/// `p` is the bottom-left corner, `size` the extent.
#[derive(Clone, Copy, Debug, PartialEq, Eq, Structural)]
pub struct SimpleBlock {
    pub p: Point,
    pub size: Point,
    pub color: Color,
    pub state: BlockState,
}

impl SimpleBlock {
    /// Geometric and color sanity of a block held in a state.
    pub open spec fn wf(self) -> bool {
        &&& 0 <= self.p.x
        &&& 0 <= self.p.y
        &&& 0 < self.size.x
        &&& 0 < self.size.y
        &&& self.p.x + self.size.x <= MAX_COORD
        &&& self.p.y + self.size.y <= MAX_COORD
        &&& self.color.wf()
    }

    pub fn new(p: Point, size: Point, color: Color) -> (r: SimpleBlock)
        ensures
            r == (SimpleBlock { p, size, color, state: BlockState::Active }),
    {
        SimpleBlock { p, size, color, state: BlockState::Active }
    }

    /// Number of pixels the block spans.
    pub fn area(&self) -> (r: i32)
        requires
            self.wf(),
        ensures
            r == self.size.x * self.size.y,
            0 < r <= MAX_COORD * MAX_COORD,
    {
        proof {
            assert(self.size.x * self.size.y <= MAX_COORD * MAX_COORD) by (nonlinear_arith)
                requires
                    0 < self.size.x <= MAX_COORD,
                    0 < self.size.y <= MAX_COORD,
            ;
            assert(0 < self.size.x * self.size.y) by (nonlinear_arith)
                requires
                    0 < self.size.x,
                    0 < self.size.y,
            ;
        }
        self.size.x * self.size.y
    }
}

/// Strict lexicographic order on identifiers, with a proper prefix
/// ordered before its extensions.  This is the painting order.
pub open spec fn lex_lt(a: Seq<u32>, b: Seq<u32>) -> bool
    decreases a.len(),
{
    if b.len() == 0 {
        false
    } else if a.len() == 0 {
        true
    } else if a[0] < b[0] {
        true
    } else if a[0] > b[0] {
        false
    } else {
        lex_lt(a.drop_first(), b.drop_first())
    }
}

pub proof fn lemma_lex_irrefl(a: Seq<u32>)
    ensures
        !lex_lt(a, a),
    decreases a.len(),
{
    if a.len() > 0 {
        lemma_lex_irrefl(a.drop_first());
    }
}

pub proof fn lemma_lex_trichotomy(a: Seq<u32>, b: Seq<u32>)
    ensures
        lex_lt(a, b) || lex_lt(b, a) || a == b,
    decreases a.len(),
{
    if a.len() > 0 && b.len() > 0 && a[0] == b[0] {
        lemma_lex_trichotomy(a.drop_first(), b.drop_first());
        if a.drop_first() == b.drop_first() {
            assert forall|i: int| 0 <= i < a.len() implies a[i] == b[i] by {
                if i > 0 {
                    assert(a.drop_first()[i - 1] == b.drop_first()[i - 1]);
                }
            }
            assert(a =~= b);
        }
    } else if a.len() == 0 && b.len() == 0 {
        assert(a =~= b);
    }
}

pub proof fn lemma_lex_asym(a: Seq<u32>, b: Seq<u32>)
    requires
        lex_lt(a, b),
    ensures
        !lex_lt(b, a),
        a != b,
    decreases a.len(),
{
    lemma_lex_irrefl(a);
    if a.len() > 0 && b.len() > 0 && a[0] == b[0] {
        lemma_lex_asym(a.drop_first(), b.drop_first());
        if a == b {
            assert(a.drop_first() == b.drop_first());
        }
    } else {
        if a == b {
            assert(a.len() == b.len());
        }
    }
}

pub proof fn lemma_lex_trans(a: Seq<u32>, b: Seq<u32>, c: Seq<u32>)
    requires
        lex_lt(a, b),
        lex_lt(b, c),
    ensures
        lex_lt(a, c),
    decreases a.len(),
{
    if a.len() > 0 && b.len() > 0 && c.len() > 0 && a[0] == b[0] && b[0] == c[0] {
        lemma_lex_trans(a.drop_first(), b.drop_first(), c.drop_first());
    }
}

/// If two identifiers agree on their first `i` elements, their order
/// is decided by the remainders.
pub proof fn lemma_lex_skip(a: Seq<u32>, b: Seq<u32>, i: int)
    requires
        0 <= i <= a.len(),
        i <= b.len(),
        forall|j: int| 0 <= j < i ==> a[j] == b[j],
    ensures
        lex_lt(a, b) == lex_lt(a.skip(i), b.skip(i)),
    decreases i,
{
    if i > 0 {
        assert(a.len() > 0 && b.len() > 0 && a[0] == b[0]);
        lemma_lex_skip(a.drop_first(), b.drop_first(), i - 1);
        assert(a.drop_first().skip(i - 1) =~= a.skip(i));
        assert(b.drop_first().skip(i - 1) =~= b.skip(i));
    } else {
        assert(a.skip(0) =~= a);
        assert(b.skip(0) =~= b);
    }
}

/// One entry of the block table: an identifier and its block.
pub type BlockEntry = (Seq<u32>, SimpleBlock);

/// The mathematical value of a simulator state.
#[verifier::ext_equal]
pub ghost struct StateModel {
    pub blocks: Seq<BlockEntry>,
    pub next_global_id: u32,
    pub cost_coeff_version: u8,
}

/// The block table is strictly ascending in identifier order.
pub open spec fn blocks_sorted(s: Seq<BlockEntry>) -> bool {
    forall|i: int, j: int| 0 <= i < j < s.len() ==> lex_lt(#[trigger] s[i].0, #[trigger] s[j].0)
}

/// Each entry is a well-formed block under a nonempty identifier whose
/// head index was drawn before the current merge counter.
pub open spec fn blocks_entries_wf(s: Seq<BlockEntry>, next_global_id: u32) -> bool {
    forall|i: int| 0 <= i < s.len() ==> {
        &&& (#[trigger] s[i]).1.wf()
        &&& s[i].0.len() >= 1
        &&& s[i].0[0] < next_global_id
    }
}

impl StateModel {
    pub open spec fn wf(self) -> bool {
        &&& blocks_sorted(self.blocks)
        &&& blocks_entries_wf(self.blocks, self.next_global_id)
        &&& self.cost_coeff_version < 2
    }
}

/// The block stored under `id`, if any.
pub open spec fn lookup_blocks(s: Seq<BlockEntry>, id: Seq<u32>) -> Option<SimpleBlock>
    decreases s.len(),
{
    if s.len() == 0 {
        None
    } else if s[0].0 == id {
        Some(s[0].1)
    } else {
        lookup_blocks(s.drop_first(), id)
    }
}

/// Index of the first entry not below `id`; `s.len()` if all are below.
pub open spec fn first_geq(s: Seq<BlockEntry>, id: Seq<u32>) -> int
    decreases s.len(),
{
    if s.len() == 0 {
        0
    } else if lex_lt(s[0].0, id) {
        1 + first_geq(s.drop_first(), id)
    } else {
        0
    }
}

/// Store `b` under `id`: replace the entry with that identifier, or
/// place a new entry at its ordered position.
pub open spec fn insert_blocks(s: Seq<BlockEntry>, id: Seq<u32>, b: SimpleBlock) -> Seq<BlockEntry> {
    let k = first_geq(s, id);
    if k < s.len() && s[k].0 == id {
        s.update(k, (id, b))
    } else {
        s.subrange(0, k).push((id, b)) + s.subrange(k, s.len() as int)
    }
}

pub proof fn lemma_first_geq_bounds(s: Seq<BlockEntry>, id: Seq<u32>)
    ensures
        0 <= first_geq(s, id) <= s.len(),
        forall|j: int| 0 <= j < first_geq(s, id) ==> lex_lt(#[trigger] s[j].0, id),
        first_geq(s, id) < s.len() ==> !lex_lt(s[first_geq(s, id)].0, id),
    decreases s.len(),
{
    if s.len() > 0 && lex_lt(s[0].0, id) {
        lemma_first_geq_bounds(s.drop_first(), id);
        assert forall|j: int| 0 <= j < first_geq(s, id) implies lex_lt(#[trigger] s[j].0, id) by {
            if j > 0 {
                assert(s.drop_first()[j - 1] == s[j]);
            }
        }
        if first_geq(s, id) < s.len() {
            assert(s.drop_first()[first_geq(s.drop_first(), id)] == s[first_geq(s, id)]);
        }
    }
}

/// Any position that is below `id` up to it and not below at it is the
/// first such position.
pub proof fn lemma_first_geq_char(s: Seq<BlockEntry>, id: Seq<u32>, k: int)
    requires
        0 <= k <= s.len(),
        forall|j: int| 0 <= j < k ==> lex_lt(#[trigger] s[j].0, id),
        k < s.len() ==> !lex_lt(s[k].0, id),
    ensures
        k == first_geq(s, id),
    decreases s.len(),
{
    if s.len() > 0 {
        if lex_lt(s[0].0, id) {
            assert(k > 0);
            lemma_first_geq_char(s.drop_first(), id, k - 1);
        }
    }
}

/// Every entry of an insertion result is the inserted entry or one of
/// the old entries.
pub proof fn lemma_insert_elements(s: Seq<BlockEntry>, id: Seq<u32>, b: SimpleBlock)
    ensures
        forall|k: int| 0 <= k < insert_blocks(s, id, b).len() ==> {
            let e = #[trigger] insert_blocks(s, id, b)[k];
            e == (id, b) || (exists|j: int| 0 <= j < s.len() && e == #[trigger] s[j])
        },
{
    lemma_first_geq_bounds(s, id);
    let t = insert_blocks(s, id, b);
    let kk = first_geq(s, id);
    assert forall|k: int| 0 <= k < t.len() implies {
        let e = #[trigger] t[k];
        e == (id, b) || (exists|j: int| 0 <= j < s.len() && e == #[trigger] s[j])
    } by {
        if kk < s.len() && s[kk].0 == id {
            if k != kk {
                assert(t[k] == s[k]);
            }
        } else {
            if k < kk {
                assert(t[k] == s[k]);
            } else if k > kk {
                assert(t[k] == s[k - 1]);
            }
        }
    }
}

/// Insertion keeps the table sorted.
pub proof fn lemma_insert_sorted(s: Seq<BlockEntry>, id: Seq<u32>, b: SimpleBlock)
    requires
        blocks_sorted(s),
    ensures
        blocks_sorted(insert_blocks(s, id, b)),
{
    lemma_first_geq_bounds(s, id);
    let t = insert_blocks(s, id, b);
    let kk = first_geq(s, id);
    if kk < s.len() && s[kk].0 == id {
        assert forall|i: int, j: int| 0 <= i < j < t.len() implies lex_lt(
            #[trigger] t[i].0,
            #[trigger] t[j].0,
        ) by {
            assert(t[i].0 == s[i].0);
            assert(t[j].0 == s[j].0);
        }
    } else {
        if kk < s.len() {
            lemma_lex_trichotomy(s[kk].0, id);
        }
        assert forall|i: int, j: int| 0 <= i < j < t.len() implies lex_lt(
            #[trigger] t[i].0,
            #[trigger] t[j].0,
        ) by {
            if i < kk {
                assert(t[i] == s[i]);
            } else if i > kk {
                assert(t[i] == s[i - 1]);
            }
            if j < kk {
                assert(t[j] == s[j]);
            } else if j > kk {
                assert(t[j] == s[j - 1]);
            }
            if i == kk {
                assert(t[i].0 == id);
                if j > kk {
                    assert(t[j] == s[j - 1]);
                    assert(kk < s.len());
                    assert(!lex_lt(s[kk].0, id));
                    assert(s[kk].0 != id);
                    lemma_lex_trichotomy(s[kk].0, id);
                    assert(lex_lt(id, s[kk].0));
                    if j - 1 > kk {
                        assert(lex_lt(s[kk].0, s[j - 1].0));
                        lemma_lex_trans(id, s[kk].0, s[j - 1].0);
                    }
                }
            }
            if j == kk {
                assert(t[j].0 == id);
            }
        }
    }
}

/// Looking a key up after an insertion: the inserted key maps to the
/// new block, every other key is untouched.
pub proof fn lemma_lookup_insert(s: Seq<BlockEntry>, id: Seq<u32>, b: SimpleBlock, q: Seq<u32>)
    ensures
        lookup_blocks(insert_blocks(s, id, b), q) == if q == id {
            Some(b)
        } else {
            lookup_blocks(s, q)
        },
    decreases s.len(),
{
    lemma_first_geq_bounds(s, id);
    let t = insert_blocks(s, id, b);
    let kk = first_geq(s, id);
    if s.len() == 0 {
        assert(t =~= seq![(id, b)]);
        assert(t.drop_first() =~= Seq::<BlockEntry>::empty());
    } else if lex_lt(s[0].0, id) {
        // the head is kept; the insertion happens in the tail
        lemma_lookup_insert(s.drop_first(), id, b, q);
        lemma_lex_asym(s[0].0, id);
        assert(kk >= 1);
        if kk < s.len() && s[kk].0 == id {
            assert(t =~= seq![s[0]] + insert_blocks(s.drop_first(), id, b)) by {
                assert(first_geq(s.drop_first(), id) == kk - 1);
                assert(insert_blocks(s.drop_first(), id, b) =~= s.drop_first().update(
                    kk - 1,
                    (id, b),
                ));
                assert(t =~= s.update(kk, (id, b)));
            }
        } else {
            assert(t =~= seq![s[0]] + insert_blocks(s.drop_first(), id, b)) by {
                let kd = first_geq(s.drop_first(), id);
                assert(kd == kk - 1);
                assert((seq![s[0]] + insert_blocks(s.drop_first(), id, b)).len() == s.len() + 1);
                assert(t.len() == s.len() + 1);
                assert forall|x: int| 0 <= x < t.len() implies t[x] == (seq![s[0]]
                    + insert_blocks(s.drop_first(), id, b))[x] by {
                    let u = seq![s[0]] + insert_blocks(s.drop_first(), id, b);
                    if x == 0 {
                        assert(t[0] == s[0]);
                    } else if x < kk {
                        assert(t[x] == s[x]);
                        assert(u[x] == s.drop_first()[x - 1]);
                    } else if x == kk {
                        assert(t[x] == (id, b));
                        assert(u[x] == (id, b));
                    } else {
                        assert(t[x] == s[x - 1]);
                        assert(u[x] == s.drop_first()[x - 2]);
                    }
                }
            }
        }
        assert(t[0] == s[0]);
        assert(t.drop_first() =~= insert_blocks(s.drop_first(), id, b));
        if s[0].0 == q {
            assert(q != id);
        }
    } else {
        // kk == 0: the insertion happens at the head
        assert(kk == 0);
        if s[0].0 == id {
            assert(t =~= s.update(0, (id, b)));
            assert(t.drop_first() =~= s.drop_first());
        } else {
            assert(t =~= seq![(id, b)] + s);
            assert(t.drop_first() =~= s);
        }
    }
}

/// A found block is one of the table's entries (so table-wide facts
/// apply to it).
pub proof fn lemma_lookup_is_entry(s: Seq<BlockEntry>, id: Seq<u32>)
    ensures
        lookup_blocks(s, id) matches Some(b) ==> exists|j: int|
            0 <= j < s.len() && #[trigger] s[j] == (id, b),
        (lookup_blocks(s, id) is None) ==> forall|j: int| 0 <= j < s.len() ==> (#[trigger] s[j]).0 != id,
    decreases s.len(),
{
    if s.len() > 0 {
        lemma_lookup_is_entry(s.drop_first(), id);
        if s[0].0 != id {
            if lookup_blocks(s, id) is Some {
                let b = lookup_blocks(s, id)->Some_0;
                let j = choose|j: int|
                    0 <= j < s.drop_first().len() && #[trigger] s.drop_first()[j] == (id, b);
                assert(s[j + 1] == (id, b));
            } else {
                assert forall|j: int| 0 <= j < s.len() implies (#[trigger] s[j]).0 != id by {
                    if j > 0 {
                        assert(s.drop_first()[j - 1] == s[j]);
                    }
                }
            }
        }
    }
}

/// Conversely, in a sorted table any entry is what lookup returns.
pub proof fn lemma_entry_is_lookup(s: Seq<BlockEntry>, j: int)
    requires
        blocks_sorted(s),
        0 <= j < s.len(),
    ensures
        lookup_blocks(s, s[j].0) == Some(s[j].1),
    decreases s.len(),
{
    if j == 0 {
    } else {
        lemma_lex_asym(s[0].0, s[j].0);
        lemma_entry_is_lookup(s.drop_first(), j - 1);
    }
}

/// A simulator state: the block table (sorted by identifier), the
/// counter that names merge results, and the cost-table selector.
#[derive(Debug)]
pub struct State {
    pub blocks: Vec<(BlockId, SimpleBlock)>,
    pub next_global_id: u32,
    pub cost_coeff_version: u8,
}

impl View for State {
    type V = StateModel;

    open spec fn view(&self) -> StateModel {
        StateModel {
            blocks: Seq::new(self.blocks@.len(), |i: int| (self.blocks@[i].0@, self.blocks@[i].1)),
            next_global_id: self.next_global_id,
            cost_coeff_version: self.cost_coeff_version,
        }
    }
}

impl Clone for State {
    fn clone(&self) -> (r: Self)
        ensures
            r@ == self@,
    {
        let mut v: Vec<(BlockId, SimpleBlock)> = Vec::new();
        let mut i: usize = 0;
        while i < self.blocks.len()
            invariant
                i <= self.blocks@.len(),
                v@.len() == i,
                forall|j: int| 0 <= j < i ==> (#[trigger] v@[j]).0@ == self.blocks@[j].0@
                    && v@[j].1 == self.blocks@[j].1,
            decreases self.blocks@.len() - i,
        {
            let id = self.blocks[i].0.clone();
            let b = self.blocks[i].1;
            v.push((id, b));
            i = i + 1;
        }
        let r = State {
            blocks: v,
            next_global_id: self.next_global_id,
            cost_coeff_version: self.cost_coeff_version,
        };
        proof {
            assert(r@.blocks =~= self@.blocks);
        }
        r
    }
}

/// Whether `a@` is lexicographically below `b@`.
pub fn id_lex_lt(a: &BlockId, b: &BlockId) -> (r: bool)
    ensures
        r == lex_lt(a@, b@),
{
    let na = a.0.len();
    let nb = b.0.len();
    let n = if na < nb {
        na
    } else {
        nb
    };
    let mut i: usize = 0;
    while i < n
        invariant
            i <= n,
            n == if a@.len() < b@.len() {
                a@.len()
            } else {
                b@.len()
            },
            forall|j: int| 0 <= j < i ==> a@[j] == b@[j],
        decreases n - i,
    {
        if a.0[i] < b.0[i] {
            proof {
                lemma_lex_skip(a@, b@, i as int);
            }
            return true;
        }
        if a.0[i] > b.0[i] {
            proof {
                lemma_lex_skip(a@, b@, i as int);
            }
            return false;
        }
        i = i + 1;
    }
    proof {
        lemma_lex_skip(a@, b@, n as int);
        if a@.len() < b@.len() {
            assert(b@.skip(n as int).len() > 0);
            assert(a@.skip(n as int).len() == 0);
        } else {
            assert(a@.skip(n as int).len() == a@.len() - n);
            assert(b@.skip(n as int).len() == 0);
        }
    }
    na < nb
}

impl State {
    pub open spec fn wf(self) -> bool {
        self@.wf()
    }

    /// The block stored under `id`, if any.
    pub fn get_block(&self, id: &BlockId) -> (r: Option<SimpleBlock>)
        ensures
            r == lookup_blocks(self@.blocks, id@),
    {
        let ghost s = self@.blocks;
        proof {
            assert(s.skip(0) =~= s);
        }
        let mut i: usize = 0;
        while i < self.blocks.len()
            invariant
                i <= self.blocks@.len(),
                s == self@.blocks,
                s.len() == self.blocks@.len(),
                lookup_blocks(s, id@) == lookup_blocks(s.skip(i as int), id@),
                forall|j: int| 0 <= j < i ==> (#[trigger] s[j]).0 != id@,
            decreases self.blocks@.len() - i,
        {
            if self.blocks[i].0.eq(id) {
                proof {
                    assert(s.skip(i as int)[0] == s[i as int]);
                    assert(s[i as int].0 == id@);
                }
                return Some(self.blocks[i].1);
            }
            proof {
                assert(s.skip(i as int)[0] == s[i as int]);
                assert(s.skip(i as int).drop_first() =~= s.skip(i + 1));
            }
            i = i + 1;
        }
        proof {
            assert(s.skip(i as int).len() == 0);
        }
        None
    }

    /// Store `b` under `id`, replacing any block already there and
    /// keeping the table sorted.
    pub fn insert_block(&mut self, id: BlockId, b: SimpleBlock)
        requires
            blocks_sorted(old(self)@.blocks),
        ensures
            final(self)@.blocks == insert_blocks(old(self)@.blocks, id@, b),
            final(self)@.next_global_id == old(self)@.next_global_id,
            final(self)@.cost_coeff_version == old(self)@.cost_coeff_version,
            blocks_sorted(final(self)@.blocks),
    {
        let ghost s = self@.blocks;
        let mut k: usize = 0;
        while k < self.blocks.len() && id_lex_lt(&self.blocks[k].0, &id)
            invariant
                k <= self.blocks@.len(),
                s == self@.blocks,
                s.len() == self.blocks@.len(),
                forall|j: int| 0 <= j < k ==> lex_lt((#[trigger] s[j]).0, id@),
            decreases self.blocks@.len() - k,
        {
            k = k + 1;
        }
        proof {
            lemma_first_geq_char(s, id@, k as int);
            lemma_insert_sorted(s, id@, b);
        }
        if k < self.blocks.len() && self.blocks[k].0.eq(&id) {
            self.blocks.set(k, (id, b));
            proof {
                assert(final(self)@.blocks =~= insert_blocks(s, id@, b));
            }
        } else {
            proof {
                if k < s.len() {
                    assert(s[k as int].0 != id@);
                }
            }
            self.blocks.insert(k, (id, b));
            proof {
                let t = insert_blocks(s, id@, b);
                assert(t =~= s.subrange(0, k as int).push((id@, b)) + s.subrange(
                    k as int,
                    s.len() as int,
                ));
                assert(final(self)@.blocks =~= t);
            }
        }
    }

    /// The canvas-sized initial state: one white block named `[0]`.
    pub fn initial_state(w: i32, h: i32, cost_coeff_version: u8) -> (r: State)
        requires
            0 < w <= MAX_COORD,
            0 < h <= MAX_COORD,
            cost_coeff_version < 2,
        ensures
            r@.wf(),
            r@.blocks =~= seq![
                (seq![0u32], SimpleBlock {
                    p: Point { x: 0, y: 0 },
                    size: Point { x: w, y: h },
                    color: Color { r: 255, g: 255, b: 255, a: 255 },
                    state: BlockState::Active,
                }),
            ],
            r@.next_global_id == 1,
            r@.cost_coeff_version == cost_coeff_version,
    {
        let mut blocks: Vec<(BlockId, SimpleBlock)> = Vec::new();
        blocks.push(
            (
                BlockId::new(&[0]),
                SimpleBlock::new(Point::new(0, 0), Point::new(w, h), Color::white()),
            ),
        );
        let r = State { blocks, next_global_id: 1, cost_coeff_version };
        proof {
            assert(r@.blocks[0].0 =~= seq![0u32]);
        }
        r
    }

    /// A state holding a single chosen block of this state, used to
    /// hand one block to a planner.
    pub fn block_state(&self, block_id: BlockId, cost_coeff_version: u8) -> (r: State)
        requires
            self@.wf(),
            lookup_blocks(self@.blocks, block_id@) is Some,
            cost_coeff_version < 2,
        ensures
            r@.wf(),
            r@.blocks =~= seq![(block_id@, lookup_blocks(self@.blocks, block_id@).unwrap())],
            r@.next_global_id == self@.next_global_id,
            r@.cost_coeff_version == cost_coeff_version,
    {
        let b = self.get_block(&block_id).unwrap();
        let mut blocks: Vec<(BlockId, SimpleBlock)> = Vec::new();
        proof {
            lemma_lookup_is_entry(self@.blocks, block_id@);
        }
        blocks.push((block_id, b));
        State { blocks, next_global_id: self.next_global_id, cost_coeff_version }
    }
}

/// Number of active blocks in a table.
pub open spec fn count_active(s: Seq<BlockEntry>) -> int
    decreases s.len(),
{
    if s.len() == 0 {
        0
    } else {
        (if s[0].1.state == BlockState::Active {
            1int
        } else {
            0int
        }) + count_active(s.drop_first())
    }
}

/// One more entry extends an active count by at most one.
pub proof fn lemma_count_active_take_snoc(s: Seq<BlockEntry>, i: int)
    requires
        0 <= i < s.len(),
    ensures
        count_active(s.take(i + 1)) == count_active(s.take(i)) + if s[i].1.state
            == BlockState::Active {
            1int
        } else {
            0int
        },
    decreases i,
{
    if i == 0 {
        assert(s.take(1).drop_first() =~= s.take(0));
        assert(s.take(1)[0] == s[0]);
    } else {
        lemma_count_active_take_snoc(s.drop_first(), i - 1);
        assert(s.take(i + 1).drop_first() =~= s.drop_first().take(i));
        assert(s.take(i).drop_first() =~= s.drop_first().take(i - 1));
        assert(s.take(i + 1)[0] == s[0]);
        assert(s.take(i)[0] == s[0]);
        assert(s.drop_first()[i - 1] == s[i]);
    }
}

impl State {
    /// How many blocks are currently active.
    pub fn active_block_num(&self) -> (r: usize)
        ensures
            r == count_active(self@.blocks),
    {
        let ghost s = self@.blocks;
        let mut r: usize = 0;
        let mut i: usize = 0;
        proof {
            assert(s.take(0) =~= Seq::<BlockEntry>::empty());
        }
        while i < self.blocks.len()
            invariant
                i <= self.blocks@.len(),
                s == self@.blocks,
                s.len() == self.blocks@.len(),
                r == count_active(s.take(i as int)),
                r <= i,
            decreases self.blocks@.len() - i,
        {
            proof {
                lemma_count_active_take_snoc(s, i as int);
            }
            if self.blocks[i].1.state.is_active() {
                r = r + 1;
            }
            i = i + 1;
        }
        proof {
            assert(s.take(s.len() as int) =~= s);
        }
        r
    }

    /// The identifiers of the active blocks, in table order.
    pub fn active_ids(&self) -> (r: Vec<BlockId>)
        requires
            self@.wf(),
        ensures
            forall|j: int| 0 <= j < r@.len() ==> match lookup_blocks(
                self@.blocks,
                (#[trigger] r@[j])@,
            ) {
                Some(b) => b.state == BlockState::Active,
                None => false,
            },
            count_active(self@.blocks) > 0 ==> r@.len() > 0,
    {
        let ghost s = self@.blocks;
        let mut r: Vec<BlockId> = Vec::new();
        let mut i: usize = 0;
        proof {
            assert(s.take(0) =~= Seq::<BlockEntry>::empty());
        }
        while i < self.blocks.len()
            invariant
                i <= self.blocks@.len(),
                s == self@.blocks,
                self@.wf(),
                s.len() == self.blocks@.len(),
                r@.len() as int >= count_active(s.take(i as int)),
                forall|j: int| 0 <= j < r@.len() ==> match lookup_blocks(s, (#[trigger] r@[j])@) {
                    Some(b) => b.state == BlockState::Active,
                    None => false,
                },
            decreases self.blocks@.len() - i,
        {
            proof {
                lemma_count_active_take_snoc(s, i as int);
            }
            if self.blocks[i].1.state.is_active() {
                proof {
                    lemma_entry_is_lookup(s, i as int);
                }
                r.push(self.blocks[i].0.clone());
            }
            i = i + 1;
        }
        proof {
            assert(s.take(s.len() as int) =~= s);
            lemma_count_active_nonneg(s);
        }
        r
    }
}

/// How an insertion changes the number of active blocks: the new
/// block's activity comes in, the displaced block's goes out.
pub proof fn lemma_count_active_insert(s: Seq<BlockEntry>, id: Seq<u32>, b: SimpleBlock)
    requires
        blocks_sorted(s),
    ensures
        count_active(insert_blocks(s, id, b)) == count_active(s) + (if b.state
            == BlockState::Active {
            1int
        } else {
            0int
        }) - (match lookup_blocks(s, id) {
            Some(ob) => if ob.state == BlockState::Active {
                1int
            } else {
                0int
            },
            None => 0int,
        }),
    decreases s.len(),
{
    lemma_first_geq_bounds(s, id);
    let t = insert_blocks(s, id, b);
    let kk = first_geq(s, id);
    if s.len() == 0 {
        assert(t =~= seq![(id, b)]);
        assert(t.drop_first() =~= Seq::<BlockEntry>::empty());
        assert(count_active(t) == (if t[0].1.state == BlockState::Active {
            1int
        } else {
            0int
        }) + count_active(t.drop_first()));
        assert(t[0] == (id, b));
    } else if lex_lt(s[0].0, id) {
        assert forall|i: int, j: int|
            0 <= i < j < s.drop_first().len() implies lex_lt(
            #[trigger] s.drop_first()[i].0,
            #[trigger] s.drop_first()[j].0,
        ) by {
            assert(s.drop_first()[i] == s[i + 1]);
            assert(s.drop_first()[j] == s[j + 1]);
        }
        lemma_count_active_insert(s.drop_first(), id, b);
        lemma_lex_asym(s[0].0, id);
        assert(kk >= 1);
        assert(t =~= seq![s[0]] + insert_blocks(s.drop_first(), id, b)) by {
            let u = seq![s[0]] + insert_blocks(s.drop_first(), id, b);
            if kk < s.len() && s[kk].0 == id {
                assert(first_geq(s.drop_first(), id) == kk - 1);
                assert(insert_blocks(s.drop_first(), id, b) =~= s.drop_first().update(
                    kk - 1,
                    (id, b),
                ));
                assert(t =~= s.update(kk, (id, b)));
                assert forall|x: int| 0 <= x < t.len() implies t[x] == u[x] by {
                    if x == 0 {
                    } else if x == kk {
                    } else {
                        assert(u[x] == s.drop_first().update(kk - 1, (id, b))[x - 1]);
                    }
                }
            } else {
                let kd = first_geq(s.drop_first(), id);
                assert(kd == kk - 1);
                assert(u.len() == s.len() + 1);
                assert(t.len() == s.len() + 1);
                assert forall|x: int| 0 <= x < t.len() implies t[x] == u[x] by {
                    if x == 0 {
                        assert(t[0] == s[0]);
                    } else if x < kk {
                        assert(t[x] == s[x]);
                        assert(u[x] == s.drop_first()[x - 1]);
                    } else if x == kk {
                        assert(t[x] == (id, b));
                        assert(u[x] == (id, b));
                    } else {
                        assert(t[x] == s[x - 1]);
                        assert(u[x] == s.drop_first()[x - 2]);
                    }
                }
            }
        }
        assert(t[0] == s[0]);
        assert(t.drop_first() =~= insert_blocks(s.drop_first(), id, b));
        assert(count_active(t) == (if t[0].1.state == BlockState::Active {
            1int
        } else {
            0int
        }) + count_active(t.drop_first()));
        assert(count_active(s) == (if s[0].1.state == BlockState::Active {
            1int
        } else {
            0int
        }) + count_active(s.drop_first()));
        assert(s[0].0 != id);
        assert(lookup_blocks(s, id) == lookup_blocks(s.drop_first(), id));
    } else {
        assert(kk == 0);
        if s[0].0 == id {
            assert(t =~= s.update(0, (id, b)));
            assert(t.drop_first() =~= s.drop_first());
            assert(t[0] == (id, b));
            assert(lookup_blocks(s, id) == Some(s[0].1));
            assert(count_active(s) == (if s[0].1.state == BlockState::Active {
                1int
            } else {
                0int
            }) + count_active(s.drop_first()));
        } else {
            assert(t =~= seq![(id, b)] + s);
            assert(t.drop_first() =~= s);
            assert(t[0] == (id, b));
            lemma_lex_trichotomy(s[0].0, id);
            assert(lex_lt(id, s[0].0));
            assert forall|j: int| 0 <= j < s.len() implies (#[trigger] s[j]).0 != id by {
                if j > 0 {
                    lemma_lex_trans(id, s[0].0, s[j].0);
                    lemma_lex_asym(id, s[j].0);
                } else {
                    lemma_lex_asym(id, s[0].0);
                }
            }
            lemma_lookup_is_entry(s, id);
            assert(lookup_blocks(s, id) is None) by {
                if lookup_blocks(s, id) is Some {
                    let j = choose|j: int| 0 <= j < s.len() && #[trigger] s[j] == (
                        id,
                        lookup_blocks(s, id)->Some_0,
                    );
                    assert(s[j].0 == id);
                }
            }
        }
        assert(count_active(t) == (if t[0].1.state == BlockState::Active {
            1int
        } else {
            0int
        }) + count_active(t.drop_first()));
        assert(count_active(s) == (if s[0].1.state == BlockState::Active {
            1int
        } else {
            0int
        }) + count_active(s.drop_first()));
    }
}

pub proof fn lemma_count_active_nonneg(s: Seq<BlockEntry>)
    ensures
        count_active(s) >= 0,
    decreases s.len(),
{
    if s.len() > 0 {
        lemma_count_active_nonneg(s.drop_first());
    }
}

} // verus!
