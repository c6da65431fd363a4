//! The board model: a sequence of exactly 64 squares, indexed as
//! `file + 8 * rank`, with spec-level accessors and the basic exec helpers
//! that the move generator and the game state share.

use vstd::prelude::*;

use crate::piece::ChessColour;
use crate::piece::Piece;
use crate::piece::PieceKind;
use crate::square::Square;

verus! {

/// Whether a (file, rank) pair lies on the board.
pub open spec fn in_board(x: int, y: int) -> bool {
    0 <= x < 8 && 0 <= y < 8
}

/// The index of a coordinate in the square sequence.
pub open spec fn sq(x: int, y: int) -> int {
    x + 8 * y
}

/// A well-formed board: 64 squares, each recording its own coordinate.
pub open spec fn wf_board(b: Seq<Square>) -> bool {
    &&& b.len() == 64
    &&& forall|i: int|
        0 <= i < 64 ==> (#[trigger] b[i]).coords == (((i % 8) as u8, (i / 8) as u8))
}

/// The piece standing on a coordinate, if any.
pub open spec fn piece_at(b: Seq<Square>, x: int, y: int) -> Option<Piece> {
    b[sq(x, y)].content
}

/// Whether a coordinate is occupied.
pub open spec fn has_piece(b: Seq<Square>, x: int, y: int) -> bool {
    piece_at(b, x, y) is Some
}

/// Whether a coordinate holds a piece of the given colour.
pub open spec fn colour_is(b: Seq<Square>, x: int, y: int, c: ChessColour) -> bool {
    match piece_at(b, x, y) {
        Some(p) => p.colour == c,
        None => false,
    }
}

/// Whether a coordinate holds a piece that is currently capturable en passant.
pub open spec fn ep_flag_at(b: Seq<Square>, x: int, y: int) -> bool {
    match piece_at(b, x, y) {
        Some(p) => p.en_passanteable,
        None => false,
    }
}

/// Whether the square at index `i` holds the king of colour `c`.
pub open spec fn king_at_idx(b: Seq<Square>, i: int, c: ChessColour) -> bool {
    match b[i].content {
        Some(p) => p.kind == PieceKind::King && p.colour == c,
        None => false,
    }
}

/// The lowest index at or after `i` holding a king of colour `c`, or 64 if
/// there is none.
pub open spec fn first_king_idx_from(b: Seq<Square>, c: ChessColour, i: int) -> int
    decreases 64 - i when i <= 64
{
    if 0 <= i < 64 {
        if king_at_idx(b, i, c) {
            i
        } else {
            first_king_idx_from(b, c, i + 1)
        }
    } else {
        64
    }
}

/// The index of the first king of colour `c`, or 64 if there is none.
pub open spec fn first_king_idx(b: Seq<Square>, c: ChessColour) -> int {
    first_king_idx_from(b, c, 0)
}

/// Whether a king of colour `c` stands somewhere on the board.
pub open spec fn king_exists(b: Seq<Square>, c: ChessColour) -> bool {
    first_king_idx(b, c) < 64
}

/// `first_king_idx_from` returns either 64 or the index of a king of `c`,
/// and skips no earlier king.
pub proof fn lemma_first_king_idx_from(b: Seq<Square>, c: ChessColour, i: int)
    requires
        0 <= i <= 64,
    ensures
        i <= first_king_idx_from(b, c, i) <= 64,
        first_king_idx_from(b, c, i) < 64 ==> king_at_idx(b, first_king_idx_from(b, c, i), c),
        forall|j: int|
            i <= j < first_king_idx_from(b, c, i) ==> !king_at_idx(b, j, c),
    decreases 64 - i,
{
    if i < 64 && !king_at_idx(b, i, c) {
        lemma_first_king_idx_from(b, c, i + 1);
    }
}

/// As `lemma_first_king_idx_from`, for the scan of the whole board.
pub proof fn lemma_first_king_idx(b: Seq<Square>, c: ChessColour)
    ensures
        0 <= first_king_idx(b, c) <= 64,
        first_king_idx(b, c) < 64 ==> king_at_idx(b, first_king_idx(b, c), c),
        forall|j: int| 0 <= j < first_king_idx(b, c) ==> !king_at_idx(b, j, c),
{
    lemma_first_king_idx_from(b, c, 0);
}

/// The board after plainly relocating the piece at `(sx, sy)` to `(tx, ty)`:
/// the destination receives the source piece with `has_moved` set, then the
/// source is cleared.
pub open spec fn after_simple(b: Seq<Square>, sx: int, sy: int, tx: int, ty: int) -> Seq<Square> {
    let moved = match piece_at(b, sx, sy) {
        Some(p) => Some(Piece { has_moved: true, ..p }),
        None => None,
    };
    b.update(sq(tx, ty), Square { coords: b[sq(tx, ty)].coords, content: moved }).update(
        sq(sx, sy),
        Square { coords: b[sq(sx, sy)].coords, content: None },
    )
}

/// Reads the square at a coordinate.
pub fn square_at(b: &Vec<Square>, x: u8, y: u8) -> (r: Square)
    requires
        b@.len() == 64,
        in_board(x as int, y as int),
    ensures
        r == b@[sq(x as int, y as int)],
{
    b[(x + 8 * y) as usize]
}

/// The index of the first king of colour `c`, or 64 if there is none.
pub fn find_king_idx(b: &Vec<Square>, c: ChessColour) -> (r: usize)
    requires
        b@.len() == 64,
    ensures
        r == first_king_idx(b@, c),
{
    proof {
        lemma_first_king_idx(b@, c);
    }
    let mut i: usize = 0;
    while i < 64
        invariant
            b@.len() == 64,
            0 <= i <= 64,
            forall|j: int| 0 <= j < i ==> !king_at_idx(b@, j, c),
            0 <= first_king_idx(b@, c) <= 64,
            first_king_idx(b@, c) < 64 ==> king_at_idx(b@, first_king_idx(b@, c), c),
            forall|j: int| 0 <= j < first_king_idx(b@, c) ==> !king_at_idx(b@, j, c),
        decreases 64 - i,
    {
        let s = b[i];
        match s.content {
            Some(p) => {
                if p.kind == PieceKind::King && p.colour == c {
                    proof {
                        if first_king_idx(b@, c) < i as int {
                            assert(!king_at_idx(b@, first_king_idx(b@, c), c));
                        }
                        if first_king_idx(b@, c) > i as int {
                            assert(!king_at_idx(b@, i as int, c));
                        }
                    }
                    return i;
                }
            },
            None => {},
        }
        i = i + 1;
    }
    proof {
        if first_king_idx(b@, c) < 64 {
            assert(!king_at_idx(b@, first_king_idx(b@, c), c));
        }
    }
    64
}

/// Updating a square's content, keeping its coordinate, preserves
/// well-formedness.
pub proof fn lemma_update_keeps_wf(b: Seq<Square>, x: int, y: int, content: Option<Piece>)
    requires
        wf_board(b),
        in_board(x, y),
    ensures
        wf_board(
            b.update(sq(x, y), Square { coords: b[sq(x, y)].coords, content }),
        ),
{
}

/// A plain relocation preserves well-formedness.
pub proof fn lemma_after_simple_wf(b: Seq<Square>, sx: int, sy: int, tx: int, ty: int)
    requires
        wf_board(b),
        in_board(sx, sy),
        in_board(tx, ty),
    ensures
        wf_board(after_simple(b, sx, sy, tx, ty)),
{
}

/// A fresh copy of a vector of copyable items.
pub fn copy_vec<T: Copy>(v: &Vec<T>) -> (r: Vec<T>)
    ensures
        r@ =~= v@,
{
    let mut nb: Vec<T> = Vec::new();
    let mut i: usize = 0;
    while i < v.len()
        invariant
            0 <= i <= v@.len(),
            nb@.len() == i,
            forall|j: int| 0 <= j < i ==> nb@[j] == v@[j],
        decreases v@.len() - i,
    {
        nb.push(v[i]);
        i = i + 1;
    }
    nb
}

/// A fresh copy of the board with the content of one square replaced; the
/// square keeps its recorded coordinate.
pub fn with_content(b: &Vec<Square>, x: u8, y: u8, content: Option<Piece>) -> (r: Vec<Square>)
    requires
        b@.len() == 64,
        in_board(x as int, y as int),
    ensures
        r@ =~= b@.update(
            sq(x as int, y as int),
            Square { coords: b@[sq(x as int, y as int)].coords, content },
        ),
{
    let idx: usize = (x + 8 * y) as usize;
    let mut nb: Vec<Square> = Vec::new();
    let mut i: usize = 0;
    while i < 64
        invariant
            b@.len() == 64,
            idx == sq(x as int, y as int),
            idx < 64,
            0 <= i <= 64,
            nb@.len() == i,
            forall|j: int|
                0 <= j < i ==> nb@[j] == (if j == idx {
                    Square { coords: b@[idx as int].coords, content }
                } else {
                    b@[j]
                }),
        decreases 64 - i,
    {
        let base = b[i];
        let cell = if i == idx {
            Square { coords: base.coords, content }
        } else {
            base
        };
        nb.push(cell);
        i = i + 1;
    }
    nb
}

/// A fresh copy of the board with the piece at `src` plainly relocated to
/// `dst`: destination set (with `has_moved`), source cleared.
pub fn simple_applied(b: &Vec<Square>, src: (u8, u8), dst: (u8, u8)) -> (r: Vec<Square>)
    requires
        b@.len() == 64,
        in_board(src.0 as int, src.1 as int),
        in_board(dst.0 as int, dst.1 as int),
    ensures
        r@ =~= after_simple(b@, src.0 as int, src.1 as int, dst.0 as int, dst.1 as int),
{
    let src_idx: usize = (src.0 + 8 * src.1) as usize;
    let dst_idx: usize = (dst.0 + 8 * dst.1) as usize;
    let moved: Option<Piece> = match b[src_idx].content {
        Some(p) => Some(
            Piece { kind: p.kind, colour: p.colour, has_moved: true, en_passanteable: p.en_passanteable },
        ),
        None => None,
    };
    let ghost bafter = after_simple(b@, src.0 as int, src.1 as int, dst.0 as int, dst.1 as int);
    let mut nb: Vec<Square> = Vec::new();
    let mut i: usize = 0;
    while i < 64
        invariant
            b@.len() == 64,
            src_idx == sq(src.0 as int, src.1 as int),
            dst_idx == sq(dst.0 as int, dst.1 as int),
            src_idx < 64,
            dst_idx < 64,
            moved == (match piece_at(b@, src.0 as int, src.1 as int) {
                Some(p) => Some(Piece { has_moved: true, ..p }),
                None => None,
            }),
            bafter == after_simple(b@, src.0 as int, src.1 as int, dst.0 as int, dst.1 as int),
            bafter.len() == 64,
            0 <= i <= 64,
            nb@.len() == i,
            forall|j: int| 0 <= j < i ==> nb@[j] == bafter[j],
        decreases 64 - i,
    {
        let base = b[i];
        let cell = if i == src_idx {
            Square { coords: base.coords, content: None }
        } else if i == dst_idx {
            Square { coords: base.coords, content: moved }
        } else {
            base
        };
        nb.push(cell);
        i = i + 1;
    }
    nb
}

} // verus!
