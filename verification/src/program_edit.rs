//! Program rewriting: collapsing redundant color moves.  When an
//! identifier is colored more than once with no intervening use, only
//! the last color move matters; the earlier ones are dropped.
use vstd::prelude::*;

use crate::isl::{BlockId, Move, MoveView, Program};

verus! {

/// The collapse, walking the program from the back: a color move whose
/// target was already colored later is dropped; everything else is
/// kept.  `colored` is the set of identifiers already colored later.
pub open spec fn spec_collapse_colors(s: Seq<MoveView>, colored: Set<Seq<u32>>) -> Seq<MoveView>
    decreases s.len(),
{
    if s.len() == 0 {
        Seq::empty()
    } else {
        match s.last() {
            MoveView::Color { block_id, .. } => if colored.contains(block_id) {
                spec_collapse_colors(s.drop_last(), colored)
            } else {
                spec_collapse_colors(s.drop_last(), colored.insert(block_id)) + seq![s.last()]
            },
            _ => spec_collapse_colors(s.drop_last(), colored) + seq![s.last()],
        }
    }
}

/// Law: after the collapse, no identifier is the target of more than
/// one color move, and no kept color move targets an identifier that
/// was already colored later.
pub proof fn lemma_collapse_unique_color_targets(s: Seq<MoveView>, colored: Set<Seq<u32>>)
    ensures
        ({
            let r = spec_collapse_colors(s, colored);
            &&& forall|i: int|
                0 <= i < r.len() ==> match #[trigger] r[i] {
                    MoveView::Color { block_id, .. } => !colored.contains(block_id),
                    _ => true,
                }
            &&& forall|i: int, j: int|
                0 <= i < j < r.len() ==> match (#[trigger] r[i], #[trigger] r[j]) {
                    (
                        MoveView::Color { block_id: id1, .. },
                        MoveView::Color { block_id: id2, .. },
                    ) => id1 != id2,
                    _ => true,
                }
        }),
    decreases s.len(),
{
    if s.len() > 0 {
        let r = spec_collapse_colors(s, colored);
        match s.last() {
            MoveView::Color { block_id, .. } => {
                if colored.contains(block_id) {
                    lemma_collapse_unique_color_targets(s.drop_last(), colored);
                } else {
                    lemma_collapse_unique_color_targets(s.drop_last(), colored.insert(block_id));
                    let rp = spec_collapse_colors(s.drop_last(), colored.insert(block_id));
                    assert forall|i: int| 0 <= i < r.len() implies match #[trigger] r[i] {
                        MoveView::Color { block_id: id2, .. } => !colored.contains(id2),
                        _ => true,
                    } by {
                        if i < rp.len() {
                            assert(r[i] == rp[i]);
                        }
                    }
                    assert forall|i: int, j: int| 0 <= i < j < r.len() implies match (
                        #[trigger] r[i],
                        #[trigger] r[j],
                    ) {
                        (
                            MoveView::Color { block_id: id1, .. },
                            MoveView::Color { block_id: id2, .. },
                        ) => id1 != id2,
                        _ => true,
                    } by {
                        if j < rp.len() {
                            assert(r[i] == rp[i]);
                            assert(r[j] == rp[j]);
                        } else {
                            assert(r[j] == s.last());
                            assert(r[i] == rp[i]);
                        }
                    }
                }
            },
            _ => {
                lemma_collapse_unique_color_targets(s.drop_last(), colored);
                let rp = spec_collapse_colors(s.drop_last(), colored);
                assert forall|i: int| 0 <= i < r.len() implies match #[trigger] r[i] {
                    MoveView::Color { block_id: id2, .. } => !colored.contains(id2),
                    _ => true,
                } by {
                    if i < rp.len() {
                        assert(r[i] == rp[i]);
                    }
                }
                assert forall|i: int, j: int| 0 <= i < j < r.len() implies match (
                    #[trigger] r[i],
                    #[trigger] r[j],
                ) {
                    (
                        MoveView::Color { block_id: id1, .. },
                        MoveView::Color { block_id: id2, .. },
                    ) => id1 != id2,
                    _ => true,
                } by {
                    if j < rp.len() {
                        assert(r[i] == rp[i]);
                        assert(r[j] == rp[j]);
                    } else {
                        assert(r[i] == rp[i]);
                    }
                }
            },
        }
    }
}

/// The collapse keeps only moves of the input program, so a
/// well-formed program stays well formed.
pub proof fn lemma_collapse_wf(s: Seq<MoveView>, colored: Set<Seq<u32>>)
    requires
        forall|i: int| 0 <= i < s.len() ==> (#[trigger] s[i]).wf(),
    ensures
        forall|i: int|
            0 <= i < spec_collapse_colors(s, colored).len() ==> (#[trigger] spec_collapse_colors(
                s,
                colored,
            )[i]).wf(),
    decreases s.len(),
{
    if s.len() > 0 {
        assert(forall|i: int| 0 <= i < s.drop_last().len() ==> (#[trigger] s.drop_last()[i]).wf());
        match s.last() {
            MoveView::Color { block_id, .. } => {
                if colored.contains(block_id) {
                    lemma_collapse_wf(s.drop_last(), colored);
                } else {
                    lemma_collapse_wf(s.drop_last(), colored.insert(block_id));
                    let rp = spec_collapse_colors(s.drop_last(), colored.insert(block_id));
                    let r = spec_collapse_colors(s, colored);
                    assert forall|i: int| 0 <= i < r.len() implies (#[trigger] r[i]).wf() by {
                        if i < rp.len() {
                            assert(r[i] == rp[i]);
                        } else {
                            assert(r[i] == s.last());
                            assert(s.last() == s[s.len() - 1]);
                        }
                    }
                }
            },
            _ => {
                lemma_collapse_wf(s.drop_last(), colored);
                let rp = spec_collapse_colors(s.drop_last(), colored);
                let r = spec_collapse_colors(s, colored);
                assert forall|i: int| 0 <= i < r.len() implies (#[trigger] r[i]).wf() by {
                    if i < rp.len() {
                        assert(r[i] == rp[i]);
                    } else {
                        assert(r[i] == s.last());
                        assert(s.last() == s[s.len() - 1]);
                    }
                }
            },
        }
    }
}

/// Every move the collapse keeps is a move of the input program.
pub proof fn lemma_collapse_elements(s: Seq<MoveView>, colored: Set<Seq<u32>>)
    ensures
        forall|i: int|
            0 <= i < spec_collapse_colors(s, colored).len() ==> exists|k: int|
                0 <= k < s.len() && s[k] == #[trigger] spec_collapse_colors(s, colored)[i],
    decreases s.len(),
{
    if s.len() > 0 {
        let r = spec_collapse_colors(s, colored);
        let sub = s.drop_last();
        let kept = match s.last() {
            MoveView::Color { block_id, .. } => !colored.contains(block_id),
            _ => true,
        };
        let cs = match s.last() {
            MoveView::Color { block_id, .. } => if colored.contains(block_id) {
                colored
            } else {
                colored.insert(block_id)
            },
            _ => colored,
        };
        lemma_collapse_elements(sub, cs);
        let rp = spec_collapse_colors(sub, cs);
        assert forall|i: int| 0 <= i < r.len() implies exists|k: int|
            0 <= k < s.len() && s[k] == #[trigger] r[i] by {
            if kept && i == r.len() - 1 {
                assert(r[i] == s.last());
                assert(s[s.len() - 1] == r[i]);
            } else {
                assert(r[i] == rp[i]);
                let k = choose|k: int| 0 <= k < sub.len() && sub[k] == rp[i];
                assert(s[k] == r[i]);
            }
        }
    }
}

/// Whether one of the identifiers in `v` views to `id`.
fn contains_id(v: &Vec<BlockId>, id: &BlockId) -> (r: bool)
    ensures
        r == exists|j: int| 0 <= j < v@.len() && (#[trigger] v@[j])@ == id@,
{
    let mut i: usize = 0;
    while i < v.len()
        invariant
            i <= v@.len(),
            forall|j: int| 0 <= j < i ==> (#[trigger] v@[j])@ != id@,
        decreases v@.len() - i,
    {
        if v[i].eq(id) {
            return true;
        }
        i = i + 1;
    }
    false
}

/// The set of identifiers a vector of identifiers denotes.
pub open spec fn ids_of(v: Seq<BlockId>) -> Set<Seq<u32>> {
    Set::new(|q: Seq<u32>| exists|j: int| 0 <= j < v.len() && (#[trigger] v[j])@ == q)
}

impl Program {
    /// Drop every color move whose target is colored again later.
    pub fn remove_redundant_color_move(&mut self)
        ensures
            final(self)@ == spec_collapse_colors(old(self)@, Set::empty()),
    {
        let ghost target = spec_collapse_colors(self@, Set::<Seq<u32>>::empty());
        let ghost orig = self@;
        let mut colored: Vec<BlockId> = Vec::new();
        let mut kept_rev: Vec<Move> = Vec::new();
        let ghost mut acc: Seq<MoveView> = Seq::empty();
        let mut i: usize = self.0.len();
        proof {
            assert(ids_of(colored@) =~= Set::<Seq<u32>>::empty());
            assert(orig.take(i as int) =~= orig);
            assert(spec_collapse_colors(orig.take(i as int), ids_of(colored@)) + acc =~= target);
        }
        while i > 0
            invariant
                i <= self.0@.len(),
                orig == self@,
                orig.len() == self.0@.len(),
                spec_collapse_colors(orig.take(i as int), ids_of(colored@)) + acc =~= target,
                kept_rev@.len() == acc.len(),
                forall|j: int| 0 <= j < acc.len() ==> (#[trigger] kept_rev@[j])@ == acc[acc.len() - 1
                    - j],
            decreases i,
        {
            i = i - 1;
            let ghost cs = ids_of(colored@);
            proof {
                assert(orig.take(i + 1).drop_last() =~= orig.take(i as int));
                assert(orig.take(i + 1).last() == orig[i as int]);
                assert(orig[i as int] == self.0@[i as int]@);
            }
            let mv = &self.0[i];
            let mut keep = true;
            match mv {
                Move::Color { block_id, .. } => {
                    if contains_id(&colored, block_id) {
                        proof {
                            assert(cs.contains(block_id@));
                        }
                        keep = false;
                    } else {
                        proof {
                            assert(!cs.contains(block_id@));
                        }
                        let ghost prev = colored@;
                        colored.push(BlockId::new(block_id.0.as_slice()));
                        proof {
                            assert forall|q: Seq<u32>|
                                ids_of(colored@).contains(q) == cs.insert(block_id@).contains(
                                    q,
                                ) by {
                                if cs.insert(block_id@).contains(q) {
                                    if q == block_id@ {
                                        assert((colored@[colored@.len() - 1])@ == q);
                                    } else {
                                        let j = choose|j: int|
                                            0 <= j < prev.len() && (#[trigger] prev[j])@ == q;
                                        assert((colored@[j])@ == q);
                                    }
                                }
                                if ids_of(colored@).contains(q) {
                                    let j = choose|j: int|
                                        0 <= j < colored@.len() && (#[trigger] colored@[j])@ == q;
                                    if j < prev.len() {
                                        assert(prev[j]@ == q);
                                    }
                                }
                            }
                            assert(ids_of(colored@) =~= cs.insert(block_id@));
                        }
                    }
                },
                _ => {},
            }
            if keep {
                kept_rev.push(mv.clone());
                proof {
                    acc = seq![orig[i as int]] + acc;
                    assert(spec_collapse_colors(orig.take(i as int), ids_of(colored@)) + acc
                        =~= target);
                }
            }
        }
        proof {
            assert(orig.take(0) =~= Seq::<MoveView>::empty());
            assert(acc =~= target);
        }
        let mut out: Vec<Move> = Vec::new();
        while kept_rev.len() > 0
            invariant
                kept_rev@.len() + out@.len() == acc.len(),
                forall|j: int| 0 <= j < kept_rev@.len() ==> (#[trigger] kept_rev@[j])@
                    == acc[acc.len() - 1 - j],
                forall|t: int| 0 <= t < out@.len() ==> (#[trigger] out@[t])@ == acc[t],
            decreases kept_rev@.len(),
        {
            let m = kept_rev.pop().unwrap();
            out.push(m);
        }
        self.0 = out;
        proof {
            assert(self@ =~= acc);
        }
    }
}

} // verus!
