//! The textual form of programs, one move per line:
//! `cut [id] [x, y]`, `cut [id] [X|Y] [line]`, `color [id] [r, g, b, a]`,
//! `swap [a] [b]`, `merge [a] [b]`.  Identifiers render as dotted
//! numeric components inside brackets, e.g. `[0.2.1]`.
use vstd::prelude::*;
use vstd::string::StringExecFns;

use crate::isl::{BlockId, Move, MoveView, Orientation, Program};

verus! {

/// The decimal digit character for `0 <= d <= 9`.
pub open spec fn digit_char(d: int) -> char {
    if d == 0 {
        '0'
    } else if d == 1 {
        '1'
    } else if d == 2 {
        '2'
    } else if d == 3 {
        '3'
    } else if d == 4 {
        '4'
    } else if d == 5 {
        '5'
    } else if d == 6 {
        '6'
    } else if d == 7 {
        '7'
    } else if d == 8 {
        '8'
    } else {
        '9'
    }
}

/// The decimal representation of a nonnegative integer.
pub open spec fn spec_digits(n: int) -> Seq<char>
    decreases n,
{
    if n < 10 {
        seq![digit_char(n)]
    } else {
        spec_digits(n / 10).push(digit_char(n % 10))
    }
}

/// The decimal representation of a signed integer.
pub open spec fn spec_int_text(n: int) -> Seq<char> {
    if n < 0 {
        seq!['-'] + spec_digits(-n)
    } else {
        spec_digits(n)
    }
}

fn digit_str(d: u64) -> (s: &'static str)
    requires
        d <= 9,
    ensures
        s@ == seq![digit_char(d as int)],
{
    proof {
        reveal_strlit("0");
        reveal_strlit("1");
        reveal_strlit("2");
        reveal_strlit("3");
        reveal_strlit("4");
        reveal_strlit("5");
        reveal_strlit("6");
        reveal_strlit("7");
        reveal_strlit("8");
        reveal_strlit("9");
    }
    if d == 0 {
        "0"
    } else if d == 1 {
        "1"
    } else if d == 2 {
        "2"
    } else if d == 3 {
        "3"
    } else if d == 4 {
        "4"
    } else if d == 5 {
        "5"
    } else if d == 6 {
        "6"
    } else if d == 7 {
        "7"
    } else if d == 8 {
        "8"
    } else {
        "9"
    }
}

/// Render a nonnegative integer in decimal.
pub fn u64_to_string(n: u64) -> (s: String)
    ensures
        s@ == spec_digits(n as int),
    decreases n,
{
    if n < 10 {
        String::from_str(digit_str(n))
    } else {
        let s = u64_to_string(n / 10);
        let r = s.concat(digit_str(n % 10));
        proof {
            assert(r@ =~= spec_digits(n as int));
        }
        r
    }
}

/// Render a signed integer in decimal.
pub fn i32_to_string(n: i32) -> (s: String)
    ensures
        s@ == spec_int_text(n as int),
{
    if n < 0 {
        proof {
            reveal_strlit("-");
        }
        let m = -(n as i64);
        let mut s = String::from_str("-");
        s.append(u64_to_string(m as u64).as_str());
        proof {
            assert(s@ =~= spec_int_text(n as int));
        }
        s
    } else {
        u64_to_string(n as u64)
    }
}

/// The bracketless body of an identifier: components joined by dots.
pub open spec fn spec_id_body(id: Seq<u32>) -> Seq<char>
    decreases id.len(),
{
    if id.len() == 0 {
        Seq::empty()
    } else if id.len() == 1 {
        spec_digits(id[0] as int)
    } else {
        spec_id_body(id.drop_last()) + seq!['.'] + spec_digits(id.last() as int)
    }
}

/// An identifier in brackets, dotted: `[0.2.1]`.
pub open spec fn spec_id_text(id: Seq<u32>) -> Seq<char> {
    seq!['['] + spec_id_body(id) + seq![']']
}

impl BlockId {
    /// The textual form of this identifier.
    pub fn to_text(&self) -> (s: String)
        ensures
            s@ == spec_id_text(self@),
    {
        proof {
            reveal_strlit("[");
            reveal_strlit("]");
            reveal_strlit(".");
        }
        let mut body = String::new();
        let mut i: usize = 0;
        proof {
            assert(self@.take(0) =~= Seq::<u32>::empty());
        }
        while i < self.0.len()
            invariant
                i <= self@.len(),
                body@ == spec_id_body(self@.take(i as int)),
            decreases self@.len() - i,
        {
            if i != 0 {
                body.append(".");
            }
            body.append(u64_to_string(self.0[i] as u64).as_str());
            proof {
                reveal_strlit(".");
                let t = self@.take(i + 1);
                assert(t.drop_last() =~= self@.take(i as int));
                assert(t.last() == self@[i as int]);
                if i == 0 {
                    assert(body@ =~= spec_id_body(t));
                } else {
                    assert(body@ =~= spec_id_body(t));
                }
            }
            i = i + 1;
        }
        proof {
            assert(self@.take(self@.len() as int) =~= self@);
        }
        let mut s = String::from_str("[");
        s.append(body.as_str());
        s.append("]");
        proof {
            assert(s@ =~= spec_id_text(self@));
        }
        s
    }
}

/// `[x, y]` for a point.
pub open spec fn spec_point_text(x: int, y: int) -> Seq<char> {
    seq!['['] + spec_int_text(x) + seq![',', ' '] + spec_int_text(y) + seq![']']
}

/// `[x, y]` for a point.
pub fn format_point(p: &crate::isl::Point) -> (s: String)
    ensures
        s@ == spec_point_text(p.x as int, p.y as int),
{
    proof {
        reveal_strlit("[");
        reveal_strlit("]");
        reveal_strlit(", ");
    }
    let mut s = String::from_str("[");
    s.append(i32_to_string(p.x).as_str());
    s.append(", ");
    s.append(i32_to_string(p.y).as_str());
    s.append("]");
    proof {
        assert(s@ =~= spec_point_text(p.x as int, p.y as int));
    }
    s
}

/// `[r, g, b, a]` for a color, channels as stored (0..255).
pub open spec fn spec_color_text(c: crate::isl::Color) -> Seq<char> {
    seq!['['] + spec_int_text(c.r as int) + seq![',', ' '] + spec_int_text(c.g as int) + seq![
        ',',
        ' ',
    ] + spec_int_text(c.b as int) + seq![',', ' '] + spec_int_text(c.a as int) + seq![']']
}

/// `[r, g, b, a]` for a color.
pub fn format_color(c: &crate::isl::Color) -> (s: String)
    ensures
        s@ == spec_color_text(*c),
{
    proof {
        reveal_strlit("[");
        reveal_strlit("]");
        reveal_strlit(", ");
    }
    let mut s = String::from_str("[");
    s.append(i32_to_string(c.r).as_str());
    s.append(", ");
    s.append(i32_to_string(c.g).as_str());
    s.append(", ");
    s.append(i32_to_string(c.b).as_str());
    s.append(", ");
    s.append(i32_to_string(c.a).as_str());
    s.append("]");
    proof {
        assert(s@ =~= spec_color_text(*c));
    }
    s
}

/// One move, in the instruction language's text form.
pub open spec fn spec_move_text(m: MoveView) -> Seq<char> {
    match m {
        MoveView::PCut { block_id, point } => "cut "@ + spec_id_text(block_id) + " "@
            + spec_point_text(point.x as int, point.y as int),
        MoveView::LCut { block_id, orientation, line_number } => "cut "@ + spec_id_text(block_id)
            + (match orientation {
            Orientation::Vertical => " [X] ["@,
            Orientation::Horizontal => " [Y] ["@,
        }) + spec_int_text(line_number as int) + "]"@,
        MoveView::Color { block_id, color } => "color "@ + spec_id_text(block_id) + " "@
            + spec_color_text(color),
        MoveView::Swap { a, b } => "swap "@ + spec_id_text(a) + " "@ + spec_id_text(b),
        MoveView::Merge { a, b } => "merge "@ + spec_id_text(a) + " "@ + spec_id_text(b),
    }
}

impl Move {
    /// The textual form of this move.
    pub fn to_text(&self) -> (s: String)
        ensures
            s@ == spec_move_text(self@),
    {
        proof {
            reveal_strlit("cut ");
            reveal_strlit("color ");
            reveal_strlit("swap ");
            reveal_strlit("merge ");
            reveal_strlit(" ");
            reveal_strlit(" [X] [");
            reveal_strlit(" [Y] [");
            reveal_strlit("]");
        }
        match self {
            Move::PCut { block_id, point } => {
                let mut s = String::from_str("cut ");
                s.append(block_id.to_text().as_str());
                s.append(" ");
                s.append(format_point(point).as_str());
                proof {
                    assert(s@ =~= spec_move_text(self@));
                }
                s
            },
            Move::LCut { block_id, orientation, line_number } => {
                let mut s = String::from_str("cut ");
                s.append(block_id.to_text().as_str());
                match orientation {
                    Orientation::Vertical => s.append(" [X] ["),
                    Orientation::Horizontal => s.append(" [Y] ["),
                }
                s.append(i32_to_string(*line_number).as_str());
                s.append("]");
                proof {
                    assert(s@ =~= spec_move_text(self@));
                }
                s
            },
            Move::Color { block_id, color } => {
                let mut s = String::from_str("color ");
                s.append(block_id.to_text().as_str());
                s.append(" ");
                s.append(format_color(color).as_str());
                proof {
                    assert(s@ =~= spec_move_text(self@));
                }
                s
            },
            Move::Swap { a, b } => {
                let mut s = String::from_str("swap ");
                s.append(a.to_text().as_str());
                s.append(" ");
                s.append(b.to_text().as_str());
                proof {
                    assert(s@ =~= spec_move_text(self@));
                }
                s
            },
            Move::Merge { a, b } => {
                let mut s = String::from_str("merge ");
                s.append(a.to_text().as_str());
                s.append(" ");
                s.append(b.to_text().as_str());
                proof {
                    assert(s@ =~= spec_move_text(self@));
                }
                s
            },
        }
    }
}

/// A program's text: each move's line followed by a newline.
pub open spec fn spec_program_text(p: Seq<MoveView>) -> Seq<char>
    decreases p.len(),
{
    if p.len() == 0 {
        Seq::empty()
    } else {
        spec_program_text(p.drop_last()) + spec_move_text(p.last()) + seq!['\n']
    }
}

impl Program {
    /// The textual form of this program, one move per line.
    pub fn to_text(&self) -> (s: String)
        ensures
            s@ == spec_program_text(self@),
    {
        proof {
            reveal_strlit("\n");
        }
        let mut s = String::new();
        let mut i: usize = 0;
        proof {
            assert(self@.take(0) =~= Seq::<MoveView>::empty());
        }
        while i < self.0.len()
            invariant
                i <= self.0@.len(),
                self@.len() == self.0@.len(),
                s@ == spec_program_text(self@.take(i as int)),
            decreases self.0@.len() - i,
        {
            s.append(self.0[i].to_text().as_str());
            s.append("\n");
            proof {
                reveal_strlit("\n");
                let t = self@.take(i + 1);
                assert(t.drop_last() =~= self@.take(i as int));
                assert(t.last() == self@[i as int]);
                assert(self@[i as int] == self.0@[i as int]@);
                assert(s@ =~= spec_program_text(t));
            }
            i = i + 1;
        }
        proof {
            assert(self@.take(self@.len() as int) =~= self@);
        }
        s
    }
}

} // verus!
