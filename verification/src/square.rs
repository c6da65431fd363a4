//! A board square: its coordinate and its (optional) occupying piece.

use vstd::prelude::*;
use vstd::string::StringExecFns;

use crate::piece::Piece;

verus! {

/// One cell of the board. `coords` is (file, rank), zero-based:
/// (0, 0) is a1, (7, 0) is h1, (0, 7) is a8, (7, 7) is h8.
#[derive(Clone, Copy, PartialEq, Eq, Debug)]
pub struct Square {
    pub coords: (u8, u8),
    pub content: Option<Piece>,
}

/// The file letter of a zero-based file index.
pub open spec fn file_char(x: int) -> char {
    if x == 0 {
        'a'
    } else if x == 1 {
        'b'
    } else if x == 2 {
        'c'
    } else if x == 3 {
        'd'
    } else if x == 4 {
        'e'
    } else if x == 5 {
        'f'
    } else if x == 6 {
        'g'
    } else {
        'h'
    }
}

/// The rank digit of a zero-based rank index.
pub open spec fn rank_char(y: int) -> char {
    if y == 0 {
        '1'
    } else if y == 1 {
        '2'
    } else if y == 2 {
        '3'
    } else if y == 3 {
        '4'
    } else if y == 4 {
        '5'
    } else if y == 5 {
        '6'
    } else if y == 6 {
        '7'
    } else {
        '8'
    }
}

/// The two-character algebraic name of a board coordinate.
pub open spec fn coord_text(x: int, y: int) -> Seq<char> {
    seq![file_char(x), rank_char(y)]
}

/// The file letter as a string slice.
fn file_str(x: u8) -> (r: &'static str)
    requires
        x < 8,
    ensures
        r@ =~= seq![file_char(x as int)],
{
    proof {
        reveal_strlit("a");
        reveal_strlit("b");
        reveal_strlit("c");
        reveal_strlit("d");
        reveal_strlit("e");
        reveal_strlit("f");
        reveal_strlit("g");
        reveal_strlit("h");
    }
    match x {
        0 => "a",
        1 => "b",
        2 => "c",
        3 => "d",
        4 => "e",
        5 => "f",
        6 => "g",
        _ => "h",
    }
}

/// The rank digit as a string slice.
fn rank_str(y: u8) -> (r: &'static str)
    requires
        y < 8,
    ensures
        r@ =~= seq![rank_char(y as int)],
{
    proof {
        reveal_strlit("1");
        reveal_strlit("2");
        reveal_strlit("3");
        reveal_strlit("4");
        reveal_strlit("5");
        reveal_strlit("6");
        reveal_strlit("7");
        reveal_strlit("8");
    }
    match y {
        0 => "1",
        1 => "2",
        2 => "3",
        3 => "4",
        4 => "5",
        5 => "6",
        6 => "7",
        _ => "8",
    }
}

/// The algebraic name of a coordinate, e.g. "e2".
pub fn coord_string(x: u8, y: u8) -> (r: String)
    requires
        x < 8,
        y < 8,
    ensures
        r@ =~= coord_text(x as int, y as int),
{
    let mut s = String::from_str(file_str(x));
    s.append(rank_str(y));
    s
}

impl Square {
    /// An empty square at a1.
    pub fn new() -> (r: Self)
        ensures
            r.coords == ((0u8, 0u8)),
            r.content is None,
    {
        Square { coords: (0, 0), content: None }
    }

    /// The algebraic name of this square's coordinate.
    pub fn coord(&self) -> (r: String)
        requires
            self.coords.0 < 8,
            self.coords.1 < 8,
        ensures
            r@ =~= coord_text(self.coords.0 as int, self.coords.1 as int),
    {
        coord_string(self.coords.0, self.coords.1)
    }

    /// The square's display colour as an (r, g, b) triple: light squares and
    /// dark squares alternate, each with a hover variant.
    pub fn colour(&self, mouse_over: bool) -> (r: (u8, u8, u8))
        ensures
            r == self.spec_colour(mouse_over),
    {
        if (self.coords.0 % 2 + self.coords.1 % 2) % 2 == 1 {
            if mouse_over {
                (141, 177, 196)
            } else {
                (161, 222, 255)
            }
        } else {
            if mouse_over {
                (4, 38, 56)
            } else {
                (0, 79, 122)
            }
        }
    }

    pub open spec fn spec_colour(self, mouse_over: bool) -> (u8, u8, u8) {
        if (self.coords.0 + self.coords.1) % 2 == 1 {
            if mouse_over {
                (141u8, 177u8, 196u8)
            } else {
                (161u8, 222u8, 255u8)
            }
        } else {
            if mouse_over {
                (4u8, 38u8, 56u8)
            } else {
                (0u8, 79u8, 122u8)
            }
        }
    }
}

} // verus!
