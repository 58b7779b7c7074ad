//! A recursive quad-fill planner: point-cut the canvas at the center
//! of each region down to a fixed depth, paint every leaf with its
//! mean color, and hoist the most common leaf color into one initial
//! fill of the whole canvas.
use vstd::prelude::*;

use crate::ai::HeadAI;
use crate::change_color_ai::is_mean_of;
use crate::image::Image;
use crate::isl::{BlockId, Color, Move, MoveView, Point, Program};
use crate::state::State;

verus! {

pub struct CrossAI {
    pub size: usize,
}

/// `c` is the rounded mean of some nonempty rectangle of the image.
pub open spec fn is_some_window_mean(img: Seq<Seq<Color>>, c: Color) -> bool {
    exists|p: Point, q: Point|
        {
            &&& 0 <= p.x
            &&& 0 <= p.y
            &&& 1 <= q.x
            &&& 1 <= q.y
            &&& p.x + q.x <= img[0].len()
            &&& p.y + q.y <= img.len()
            &&& #[trigger] is_mean_of(img, p, q, c)
        }
}

/// Every move is a point cut or a color move, well formed, and every
/// color painted is the rounded mean of some window of the image.
pub open spec fn cross_moves_ok(img: Seq<Seq<Color>>, s: Seq<Move>) -> bool {
    forall|i: int| 0 <= i < s.len() ==> {
        &&& ((#[trigger] s[i])@ matches MoveView::PCut { .. } || s[i]@ matches MoveView::Color {
            ..
        })
        &&& s[i]@.wf()
        &&& match s[i]@ {
            MoveView::Color { color, .. } => is_some_window_mean(img, color),
            _ => true,
        }
    }
}

impl CrossAI {
    /// Recursively fill the region `[min.x, max.x) x [min.y, max.y)`
    /// of the block named `block_id`.
    fn draw(
        &self,
        block_id: BlockId,
        image: &Image,
        min: Point,
        max: Point,
        depth: usize,
    ) -> (r: Vec<Move>)
        requires
            image.wf(),
            0 <= min.x < max.x,
            0 <= min.y < max.y,
            max.x <= image@[0].len(),
            max.y <= image@.len(),
        ensures
            cross_moves_ok(image@, r@),
            r@.len() >= 1,
        decreases self.size - depth,
    {
        // a leaf: too deep, or too small to cut through the middle
        if depth >= self.size || max.x - min.x < 2 || max.y - min.y < 2 {
            let size = Point::new(max.x - min.x, max.y - min.y);
            let color = image.average(min, size);
            let mut r: Vec<Move> = Vec::new();
            r.push(Move::Color { block_id, color });
            proof {
                assert(is_mean_of(image@, min, size, color));
                assert(is_some_window_mean(image@, color));
                assert(cross_moves_ok(image@, r@)) by {
                    assert(r@[0]@ matches MoveView::Color { .. });
                }
            }
            return r;
        }
        let ave = Point::new(min.x + (max.x - min.x) / 2, min.y + (max.y - min.y) / 2);
        let mut result: Vec<Move> = Vec::new();
        result.push(Move::PCut { block_id: BlockId::new(block_id.0.as_slice()), point: ave });
        let quads: [(Point, Point); 4] = [
            (Point::new(min.x, min.y), Point::new(ave.x, ave.y)),
            (Point::new(ave.x, min.y), Point::new(max.x, ave.y)),
            (Point::new(ave.x, ave.y), Point::new(max.x, max.y)),
            (Point::new(min.x, ave.y), Point::new(ave.x, max.y)),
        ];
        let mut i: usize = 0;
        while i < 4
            invariant
                i <= 4,
                depth < self.size,
                image.wf(),
                0 <= min.x < ave.x < max.x,
                0 <= min.y < ave.y < max.y,
                max.x <= image@[0].len(),
                max.y <= image@.len(),
                quads@.len() == 4,
                quads@[0] == (Point { x: min.x, y: min.y }, Point { x: ave.x, y: ave.y }),
                quads@[1] == (Point { x: ave.x, y: min.y }, Point { x: max.x, y: ave.y }),
                quads@[2] == (Point { x: ave.x, y: ave.y }, Point { x: max.x, y: max.y }),
                quads@[3] == (Point { x: min.x, y: ave.y }, Point { x: ave.x, y: max.y }),
                cross_moves_ok(image@, result@),
                result@.len() >= 1,
            decreases 4 - i,
        {
            let mut next_block_id = BlockId::new(block_id.0.as_slice());
            next_block_id.0.push(i as u32);
            let (qmin, qmax) = quads[i];
            let sub = self.draw(next_block_id, image, qmin, qmax, depth + 1);
            let ghost before = result@;
            let ghost extra = sub@;
            let mut sub = sub;
            result.append(&mut sub);
            proof {
                assert forall|k: int| 0 <= k < result@.len() implies {
                    &&& ((#[trigger] result@[k])@ matches MoveView::PCut { .. } || result@[k]@
                        matches MoveView::Color { .. })
                    &&& result@[k]@.wf()
                } by {
                    if k < before.len() {
                        assert(result@[k] == before[k]);
                    } else {
                        assert(result@[k] == extra[k - before.len()]);
                    }
                }
            }
            i = i + 1;
        }
        result
    }
}

impl HeadAI for CrossAI {
    open spec fn valid_input(&self, image: &Image, initial_state: &State) -> bool {
        image.wf()
    }

    fn solve(&mut self, image: &Image, _initial_state: &State) -> (r: Program)
        ensures
            r@.len() >= 1,
            forall|i: int|
                0 <= i < r@.len() ==> ((#[trigger] r@[i]) matches MoveView::PCut { .. } || r@[i]
                    matches MoveView::Color { .. }),
            forall|i: int|
                0 <= i < r@.len() ==> match #[trigger] r@[i] {
                    MoveView::Color { color, .. } => is_some_window_mean(image@, color),
                    _ => true,
                },
    {
        let height = image.height();
        let width = image.width();
        let result = self.draw(
            BlockId::new(&[0]),
            image,
            Point::new(0, 0),
            Point::new(width as i32, height as i32),
            0,
        );
        // count leaf colors; paint the most common one first and drop
        // its color moves
        let n = result.len();
        let mut best_color: Option<Color> = None;
        let mut best_count: usize = 0;
        let mut i: usize = 0;
        while i < n
            invariant
                i <= n,
                n == result@.len(),
                cross_moves_ok(image@, result@),
                best_count <= n,
                (best_color matches Some(cc) ==> (cc.wf() && is_some_window_mean(image@, cc))),
            decreases n - i,
        {
            match &result[i] {
                Move::Color { color, .. } => {
                    let c = *color;
                    let mut cnt: usize = 0;
                    let mut j: usize = 0;
                    while j < n
                        invariant
                            j <= n,
                            n == result@.len(),
                            cnt <= j,
                        decreases n - j,
                    {
                        match &result[j] {
                            Move::Color { color: c2, .. } => {
                                if c2.r == c.r && c2.g == c.g && c2.b == c.b && c2.a == c.a {
                                    cnt = cnt + 1;
                                }
                            },
                            _ => {},
                        }
                        j = j + 1;
                    }
                    if cnt > best_count {
                        best_count = cnt;
                        best_color = Some(c);
                    }
                },
                _ => {},
            }
            i = i + 1;
        }
        let refined: Vec<Move> = match best_color {
            Some(c) => {
                proof {
                    assert(cross_moves_ok(image@, result@));
                }
                let mut refined: Vec<Move> = Vec::new();
                refined.push(Move::Color { block_id: BlockId::new(&[0]), color: c });
                let mut i: usize = 0;
                while i < n
                    invariant
                        i <= n,
                        n == result@.len(),
                        cross_moves_ok(image@, result@),
                        refined@.len() >= 1,
                        c.wf(),
                        is_some_window_mean(image@, c),
                        forall|k: int|
                            0 <= k < refined@.len() ==> (((#[trigger] refined@[k])@
                                matches MoveView::PCut { .. } || refined@[k]@
                                matches MoveView::Color { .. }) && refined@[k]@.wf() && (
                            match refined@[k]@ {
                                MoveView::Color { color, .. } => is_some_window_mean(
                                    image@,
                                    color,
                                ),
                                _ => true,
                            })),
                    decreases n - i,
                {
                    let keep = match &result[i] {
                        Move::Color { color: c2, .. } => !(c2.r == c.r && c2.g == c.g && c2.b == c.b
                            && c2.a == c.a),
                        _ => true,
                    };
                    if keep {
                        refined.push(result[i].clone());
                        proof {
                            assert(result@[i as int]@ matches MoveView::PCut { .. }
                                || result@[i as int]@ matches MoveView::Color { .. });
                        }
                    }
                    i = i + 1;
                }
                refined
            },
            None => result,
        };
        let r = Program(refined);
        proof {
            assert forall|i: int| 0 <= i < r@.len() implies ((#[trigger] r@[i])
                matches MoveView::PCut { .. } || r@[i] matches MoveView::Color { .. }) by {
                assert(r@[i] == r.0@[i]@);
            }
            assert forall|i: int| 0 <= i < r@.len() implies match #[trigger] r@[i] {
                MoveView::Color { color, .. } => is_some_window_mean(image@, color),
                _ => true,
            } by {
                assert(r@[i] == r.0@[i]@);
            }
        }
        r
    }
}

} // verus!
