//! Data model of the instruction language: points, colors, block
//! identifiers, moves and programs.
use vstd::prelude::*;

verus! {

/// Upper bound on pixel coordinates and block extents.  Keeping every
/// coordinate within this bound keeps all the arithmetic of the
/// simulator far away from `i32`/`i64` overflow.
pub const MAX_COORD: i32 = 32768;

/// A pixel position or extent; the canvas origin is the bottom-left
/// corner and y grows upward.
#[derive(Clone, Copy, Debug, PartialEq, Eq, Structural)]
pub struct Point {
    pub x: i32,
    pub y: i32,
}

impl Point {
    pub fn new(x: i32, y: i32) -> (r: Point)
        ensures
            r == (Point { x, y }),
    {
        Point { x, y }
    }
}

/// An RGBA color with integer channels; a channel value `v` stands for
/// the intensity `v / 255`.  All four channels equal to `-1` is the
/// sentinel for a block whose contents are not a single color (the
/// result of a merge).
#[derive(Clone, Copy, Debug, PartialEq, Eq, Structural)]
pub struct Color {
    pub r: i32,
    pub g: i32,
    pub b: i32,
    pub a: i32,
}

impl Color {
    /// True of a displayable color: every channel within `0 ..= 255`.
    pub open spec fn is_valid(self) -> bool {
        &&& 0 <= self.r <= 255
        &&& 0 <= self.g <= 255
        &&& 0 <= self.b <= 255
        &&& 0 <= self.a <= 255
    }

    /// True of the sentinel that marks undefined block contents.
    pub open spec fn is_invalid_sentinel(self) -> bool {
        self == (Color { r: -1i32, g: -1i32, b: -1i32, a: -1i32 })
    }

    /// Every color handled by the simulator is either displayable or
    /// the sentinel.
    pub open spec fn wf(self) -> bool {
        self.is_valid() || self.is_invalid_sentinel()
    }

    pub fn new(r: i32, g: i32, b: i32, a: i32) -> (c: Color)
        ensures
            c == (Color { r, g, b, a }),
    {
        Color { r, g, b, a }
    }

    /// Opaque white, the color of a fresh canvas.
    pub fn white() -> (c: Color)
        ensures
            c == (Color { r: 255, g: 255, b: 255, a: 255 }),
    {
        Color { r: 255, g: 255, b: 255, a: 255 }
    }

    /// All channels zero (transparent black).
    pub fn zero() -> (c: Color)
        ensures
            c == (Color { r: 0, g: 0, b: 0, a: 0 }),
    {
        Color { r: 0, g: 0, b: 0, a: 0 }
    }

    /// The sentinel marking undefined block contents.
    pub fn invalid() -> (c: Color)
        ensures
            c == (Color { r: -1i32, g: -1i32, b: -1i32, a: -1i32 }),
            c.is_invalid_sentinel(),
    {
        Color { r: -1i32, g: -1i32, b: -1i32, a: -1i32 }
    }

    pub fn is_invalid(&self) -> (r: bool)
        ensures
            r == self.is_invalid_sentinel(),
    {
        self.r == -1 && self.g == -1 && self.b == -1 && self.a == -1
    }
}

/// The axis of a two-way cut.
#[derive(Clone, Copy, Debug, PartialEq, Eq, Structural)]
pub enum Orientation {
    Vertical,
    Horizontal,
}

/// A block identifier: a sequence of indices.  The initial partition
/// assigns single-element identifiers; a cut appends the child index;
/// a merge draws a fresh single-element identifier from a counter.
/// The empty sequence is a placeholder used while building moves whose
/// target is not yet known.
#[derive(Debug, Eq)]
pub struct BlockId(pub Vec<u32>);

impl View for BlockId {
    type V = Seq<u32>;

    open spec fn view(&self) -> Seq<u32> {
        self.0@
    }
}

/// `a` names an ancestor of `b`: `a` is a strict prefix of `b`.
pub open spec fn spec_is_child(a: Seq<u32>, b: Seq<u32>) -> bool {
    a.len() < b.len() && a == b.subrange(0, a.len() as int)
}

/// Appending an index steps one level down the identifier tree.
pub proof fn lemma_is_child_push(a: Seq<u32>, x: u32)
    ensures
        spec_is_child(a, a.push(x)),
{
    assert(a.push(x).subrange(0, a.len() as int) =~= a);
}

/// Descent is transitive.
pub proof fn lemma_is_child_trans(a: Seq<u32>, b: Seq<u32>, c: Seq<u32>)
    requires
        spec_is_child(a, b),
        spec_is_child(b, c),
    ensures
        spec_is_child(a, c),
{
    assert(c.subrange(0, a.len() as int) =~= c.subrange(0, b.len() as int).subrange(
        0,
        a.len() as int,
    ));
}

impl BlockId {
    /// The empty placeholder identifier.
    pub fn default() -> (r: Self)
        ensures
            r@ == Seq::<u32>::empty(),
    {
        BlockId(Vec::new())
    }

    pub fn new(id: &[u32]) -> (r: Self)
        ensures
            r@ == id@,
    {
        let mut v: Vec<u32> = Vec::new();
        let mut i: usize = 0;
        while i < id.len()
            invariant
                i <= id@.len(),
                v@ == id@.subrange(0, i as int),
            decreases id@.len() - i,
        {
            v.push(id[i]);
            assert(v@ == id@.subrange(0, i + 1 as int));
            i = i + 1;
        }
        assert(id@.subrange(0, id@.len() as int) == id@);
        BlockId(v)
    }

    /// Whether `target` names a strict descendant of `self`.
    pub fn is_child(&self, target: &BlockId) -> (r: bool)
        ensures
            r == spec_is_child(self@, target@),
    {
        if self.0.len() >= target.0.len() {
            return false;
        }
        let mut i: usize = 0;
        while i < self.0.len()
            invariant
                i <= self@.len(),
                self@.len() < target@.len(),
                forall|j: int| 0 <= j < i ==> self@[j] == target@[j],
            decreases self@.len() - i,
        {
            if self.0[i] != target.0[i] {
                assert(self@[i as int] != target@.subrange(0, self@.len() as int)[i as int]);
                return false;
            }
            i = i + 1;
        }
        assert(self@ =~= target@.subrange(0, self@.len() as int));
        true
    }
}

impl Clone for BlockId {
    fn clone(&self) -> (r: Self)
        ensures
            r@ == self@,
    {
        BlockId::new(self.0.as_slice())
    }
}

impl PartialEq for BlockId {
    fn eq(&self, other: &Self) -> (r: bool) {
        if self.0.len() != other.0.len() {
            return false;
        }
        let mut i: usize = 0;
        while i < self.0.len()
            invariant
                i <= self@.len(),
                self@.len() == other@.len(),
                forall|j: int| 0 <= j < i ==> self@[j] == other@[j],
            decreases self@.len() - i,
        {
            if self.0[i] != other.0[i] {
                return false;
            }
            i = i + 1;
        }
        proof {
            assert(self@ =~= other@);
        }
        true
    }
}

impl vstd::std_specs::cmp::PartialEqSpecImpl for BlockId {
    open spec fn obeys_eq_spec() -> bool {
        true
    }

    open spec fn eq_spec(&self, other: &BlockId) -> bool {
        self@ == other@
    }
}

/// One instruction of the language.
#[derive(Debug)]
pub enum Move {
    PCut { block_id: BlockId, point: Point },
    LCut { block_id: BlockId, orientation: Orientation, line_number: i32 },
    Color { block_id: BlockId, color: Color },
    Swap { a: BlockId, b: BlockId },
    Merge { a: BlockId, b: BlockId },
}

/// The mathematical shape of a move: identifiers as plain sequences.
pub ghost enum MoveView {
    PCut { block_id: Seq<u32>, point: Point },
    LCut { block_id: Seq<u32>, orientation: Orientation, line_number: i32 },
    Color { block_id: Seq<u32>, color: Color },
    Swap { a: Seq<u32>, b: Seq<u32> },
    Merge { a: Seq<u32>, b: Seq<u32> },
}

impl View for Move {
    type V = MoveView;

    open spec fn view(&self) -> MoveView {
        match self {
            Move::PCut { block_id, point } => MoveView::PCut {
                block_id: block_id@,
                point: *point,
            },
            Move::LCut { block_id, orientation, line_number } => MoveView::LCut {
                block_id: block_id@,
                orientation: *orientation,
                line_number: *line_number,
            },
            Move::Color { block_id, color } => MoveView::Color {
                block_id: block_id@,
                color: *color,
            },
            Move::Swap { a, b } => MoveView::Swap { a: a@, b: b@ },
            Move::Merge { a, b } => MoveView::Merge { a: a@, b: b@ },
        }
    }
}

impl MoveView {
    /// Colors carried by moves are displayable or the sentinel.
    pub open spec fn wf(self) -> bool {
        match self {
            MoveView::Color { color, .. } => color.wf(),
            _ => true,
        }
    }
}

impl Clone for Move {
    fn clone(&self) -> (r: Self)
        ensures
            r@ == self@,
    {
        match self {
            Move::PCut { block_id, point } => Move::PCut {
                block_id: block_id.clone(),
                point: *point,
            },
            Move::LCut { block_id, orientation, line_number } => Move::LCut {
                block_id: block_id.clone(),
                orientation: *orientation,
                line_number: *line_number,
            },
            Move::Color { block_id, color } => Move::Color {
                block_id: block_id.clone(),
                color: *color,
            },
            Move::Swap { a, b } => Move::Swap { a: a.clone(), b: b.clone() },
            Move::Merge { a, b } => Move::Merge { a: a.clone(), b: b.clone() },
        }
    }
}

impl Move {
    /// Replace the target identifier of a cut or color move.
    pub fn convert_block_id(&mut self, id: &BlockId)
        requires
            !(old(self)@ matches MoveView::Swap { .. }),
            !(old(self)@ matches MoveView::Merge { .. }),
        ensures
            final(self)@ == (match old(self)@ {
                MoveView::PCut { point, .. } => MoveView::PCut { block_id: id@, point },
                MoveView::LCut { orientation, line_number, .. } => MoveView::LCut {
                    block_id: id@,
                    orientation,
                    line_number,
                },
                MoveView::Color { color, .. } => MoveView::Color { block_id: id@, color },
                m => m,
            }),
    {
        match self {
            Move::PCut { block_id, .. } => *block_id = id.clone(),
            Move::LCut { block_id, .. } => *block_id = id.clone(),
            Move::Color { block_id, .. } => *block_id = id.clone(),
            _ => unreached(),
        }
    }
}

/// A program: an ordered sequence of moves, executed left to right.
#[derive(Debug)]
pub struct Program(pub Vec<Move>);

impl View for Program {
    type V = Seq<MoveView>;

    open spec fn view(&self) -> Seq<MoveView> {
        Seq::new(self.0@.len(), |i: int| self.0@[i]@)
    }
}

/// Every move of the sequence is well formed.
pub open spec fn program_wf(p: Seq<MoveView>) -> bool {
    forall|i: int| 0 <= i < p.len() ==> (#[trigger] p[i]).wf()
}

impl Clone for Program {
    fn clone(&self) -> (r: Self)
        ensures
            r@ == self@,
    {
        let mut v: Vec<Move> = Vec::new();
        let mut i: usize = 0;
        while i < self.0.len()
            invariant
                i <= self.0@.len(),
                v@.len() == i,
                forall|j: int| 0 <= j < i ==> (#[trigger] v@[j])@ == self.0@[j]@,
            decreases self.0@.len() - i,
        {
            v.push(self.0[i].clone());
            i = i + 1;
        }
        let r = Program(v);
        proof {
            assert(r@ =~= self@);
        }
        r
    }
}

impl Program {
    pub fn len(&self) -> (r: usize)
        ensures
            r == self@.len(),
    {
        self.0.len()
    }
}

} // verus!
