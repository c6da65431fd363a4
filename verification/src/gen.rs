//! Pseudo-legal destination predicates, per piece kind, and the executable
//! generators proved against them. A destination here ignores king safety;
//! the legality filter in `state` discards check-exposing candidates.

use vstd::prelude::*;

use crate::board::colour_is;
use crate::board::ep_flag_at;
use crate::board::first_king_idx;
use crate::board::has_piece;
use crate::board::in_board;
use crate::board::piece_at;
use crate::board::sq;
use crate::piece::ChessColour;
use crate::piece::Piece;
use crate::piece::PieceKind;
use crate::square::Square;

verus! {

/// A destination a sliding piece of colour `c` reaches from `(cx, cy)` along
/// direction `(ddx, ddy)`: step through empty squares; the first square met
/// is a destination if it is empty or holds an enemy piece, and the ray stops
/// at any occupied square. `fuel` bounds the walk; 8 covers the whole board.
pub open spec fn ray_dest(
    b: Seq<Square>,
    cx: int,
    cy: int,
    ddx: int,
    ddy: int,
    c: ChessColour,
    tx: int,
    ty: int,
    fuel: nat,
) -> bool
    decreases fuel,
{
    fuel > 0 && {
        let nx = cx + ddx;
        let ny = cy + ddy;
        in_board(nx, ny) && if nx == tx && ny == ty {
            !colour_is(b, nx, ny, c)
        } else {
            !has_piece(b, nx, ny) && ray_dest(b, nx, ny, ddx, ddy, c, tx, ty, (fuel - 1) as nat)
        }
    }
}

/// Rook destinations: rays along the four files and ranks.
pub open spec fn rook_dest(b: Seq<Square>, cx: int, cy: int, c: ChessColour, tx: int, ty: int) -> bool {
    ||| ray_dest(b, cx, cy, 1, 0, c, tx, ty, 8)
    ||| ray_dest(b, cx, cy, -1, 0, c, tx, ty, 8)
    ||| ray_dest(b, cx, cy, 0, 1, c, tx, ty, 8)
    ||| ray_dest(b, cx, cy, 0, -1, c, tx, ty, 8)
}

/// Bishop destinations: rays along the four diagonals.
pub open spec fn bishop_dest(b: Seq<Square>, cx: int, cy: int, c: ChessColour, tx: int, ty: int) -> bool {
    ||| ray_dest(b, cx, cy, 1, 1, c, tx, ty, 8)
    ||| ray_dest(b, cx, cy, 1, -1, c, tx, ty, 8)
    ||| ray_dest(b, cx, cy, -1, 1, c, tx, ty, 8)
    ||| ray_dest(b, cx, cy, -1, -1, c, tx, ty, 8)
}

/// Queen destinations: the union of rook and bishop rays.
pub open spec fn queen_dest(b: Seq<Square>, cx: int, cy: int, c: ChessColour, tx: int, ty: int) -> bool {
    rook_dest(b, cx, cy, c, tx, ty) || bishop_dest(b, cx, cy, c, tx, ty)
}

/// A stepping destination is on the board and not blocked by a friendly piece.
pub open spec fn step_ok(b: Seq<Square>, c: ChessColour, tx: int, ty: int) -> bool {
    in_board(tx, ty) && !colour_is(b, tx, ty, c)
}

/// Knight destinations: the eight L-shaped offsets.
pub open spec fn knight_dest(b: Seq<Square>, cx: int, cy: int, c: ChessColour, tx: int, ty: int) -> bool {
    step_ok(b, c, tx, ty) && {
        let dx = tx - cx;
        let dy = ty - cy;
        ||| (dx == 1 && dy == 2)
        ||| (dx == -1 && dy == 2)
        ||| (dx == 2 && dy == 1)
        ||| (dx == -2 && dy == 1)
        ||| (dx == 2 && dy == -1)
        ||| (dx == -2 && dy == -1)
        ||| (dx == 1 && dy == -2)
        ||| (dx == -1 && dy == -2)
    }
}

/// King destinations: the eight adjacent squares.
pub open spec fn king_dest(b: Seq<Square>, cx: int, cy: int, c: ChessColour, tx: int, ty: int) -> bool {
    step_ok(b, c, tx, ty) && {
        let dx = tx - cx;
        let dy = ty - cy;
        -1 <= dx <= 1 && -1 <= dy <= 1 && !(dx == 0 && dy == 0)
    }
}

/// The direction a pawn of colour `c` advances in.
pub open spec fn pawn_dir(c: ChessColour) -> int {
    if c == ChessColour::White {
        1
    } else {
        -1
    }
}

/// Pawn destinations other than en passant: a single advance onto an empty
/// square; a double advance by an unmoved pawn across two empty squares; and
/// a diagonal capture of an enemy piece. An advance onto the far rank is a
/// promotion candidate like any other destination.
pub open spec fn pawn_dest(b: Seq<Square>, cx: int, cy: int, p: Piece, tx: int, ty: int) -> bool {
    let d = pawn_dir(p.colour);
    ||| (tx == cx && ty == cy + d && in_board(tx, ty) && !has_piece(b, tx, ty))
    ||| (tx == cx && ty == cy + 2 * d && !p.has_moved && in_board(tx, ty) && !has_piece(
        b,
        cx,
        cy + d,
    ) && !has_piece(b, tx, ty))
    ||| ((tx == cx - 1 || tx == cx + 1) && ty == cy + d && in_board(tx, ty) && colour_is(
        b,
        tx,
        ty,
        p.colour.spec_flip(),
    ))
}

/// En passant candidates: the piece is a pawn and a piece beside it is
/// currently capturable en passant; the destination is the forward diagonal
/// over that neighbour.
pub open spec fn ep_dest(b: Seq<Square>, cx: int, cy: int, p: Piece, tx: int, ty: int) -> bool {
    let d = pawn_dir(p.colour);
    p.kind == PieceKind::Pawn && ty == cy + d && in_board(tx, ty) && {
        ||| (tx == cx - 1 && cx >= 1 && ep_flag_at(b, cx - 1, cy))
        ||| (tx == cx + 1 && cx <= 6 && ep_flag_at(b, cx + 1, cy))
    }
}

/// Whether the square at `(x, y)` holds an unmoved rook of colour `c`.
pub open spec fn unmoved_rook_at(b: Seq<Square>, x: int, y: int, c: ChessColour) -> bool {
    match piece_at(b, x, y) {
        Some(q) => q.kind == PieceKind::Rook && q.colour == c && !q.has_moved,
        None => false,
    }
}

/// The home rank of a colour's king and rooks.
pub open spec fn home_rank(c: ChessColour) -> int {
    if c == ChessColour::White {
        0
    } else {
        7
    }
}

/// Long castling is offered to the first king of its colour when it stands
/// unmoved on its home rank, an unmoved rook of the same colour stands on
/// the a-file of that rank, and the three squares beside that rook are
/// empty; the destination is two files down. Whether the king is in check,
/// or passes through an attacked square, is deliberately not examined here:
/// an open question, not silently patched.
pub open spec fn castle_long_dest(b: Seq<Square>, cx: int, cy: int, p: Piece, tx: int, ty: int) -> bool {
    &&& p.kind == PieceKind::King
    &&& !p.has_moved
    &&& first_king_idx(b, p.colour) == sq(cx, cy)
    &&& cy == home_rank(p.colour)
    &&& unmoved_rook_at(b, 0, cy, p.colour)
    &&& !has_piece(b, 1, cy)
    &&& !has_piece(b, 2, cy)
    &&& !has_piece(b, 3, cy)
    &&& tx == cx - 2
    &&& ty == cy
}

/// Short castling: as `castle_long_dest`, with the same-colour unmoved rook
/// on the h-file and the two squares beside it empty; the destination is two
/// files up.
pub open spec fn castle_short_dest(b: Seq<Square>, cx: int, cy: int, p: Piece, tx: int, ty: int) -> bool {
    &&& p.kind == PieceKind::King
    &&& !p.has_moved
    &&& first_king_idx(b, p.colour) == sq(cx, cy)
    &&& cy == home_rank(p.colour)
    &&& unmoved_rook_at(b, 7, cy, p.colour)
    &&& !has_piece(b, 5, cy)
    &&& !has_piece(b, 6, cy)
    &&& tx == cx + 2
    &&& ty == cy
}

/// Either castling destination.
pub open spec fn castle_dest(b: Seq<Square>, cx: int, cy: int, p: Piece, tx: int, ty: int) -> bool {
    castle_long_dest(b, cx, cy, p, tx, ty) || castle_short_dest(b, cx, cy, p, tx, ty)
}

/// The base (pre-filter, non-special) destinations of piece `p` at `(cx, cy)`.
pub open spec fn base_dest(b: Seq<Square>, cx: int, cy: int, p: Piece, tx: int, ty: int) -> bool {
    match p.kind {
        PieceKind::Pawn => pawn_dest(b, cx, cy, p, tx, ty),
        PieceKind::Knight => knight_dest(b, cx, cy, p.colour, tx, ty),
        PieceKind::King => king_dest(b, cx, cy, p.colour, tx, ty),
        PieceKind::Rook => rook_dest(b, cx, cy, p.colour, tx, ty),
        PieceKind::Bishop => bishop_dest(b, cx, cy, p.colour, tx, ty),
        PieceKind::Queen => queen_dest(b, cx, cy, p.colour, tx, ty),
    }
}

/// Every destination the generator reports for `p` at `(cx, cy)` when the
/// legality filter is off: base, en passant and castling candidates.
pub open spec fn all_dest(b: Seq<Square>, cx: int, cy: int, p: Piece, tx: int, ty: int) -> bool {
    ||| base_dest(b, cx, cy, p, tx, ty)
    ||| ep_dest(b, cx, cy, p, tx, ty)
    ||| castle_dest(b, cx, cy, p, tx, ty)
}

/// Whether the square at index `i` holds a piece of the side opposing `c`
/// whose unfiltered destinations include the coordinate `(tx, ty)`.
pub open spec fn attacks_from(b: Seq<Square>, i: int, c: ChessColour, tx: int, ty: int) -> bool {
    match b[i].content {
        Some(q) => q.colour != c && all_dest(b, i % 8, i / 8, q, tx, ty),
        None => false,
    }
}

/// Whether the side of colour `c` stands in check: its first king's square
/// is a reported destination of some enemy piece. A board with no king of
/// that colour is not in check.
pub open spec fn in_check(b: Seq<Square>, c: ChessColour) -> bool {
    let ki = first_king_idx(b, c);
    ki < 64 && exists|i: int| 0 <= i < 64 && #[trigger] attacks_from(b, i, c, ki % 8, ki / 8)
}

/// A ray destination lies on the board, strictly beyond the origin in the
/// ray's direction on each axis.
pub proof fn lemma_ray_props(
    b: Seq<Square>,
    cx: int,
    cy: int,
    ddx: int,
    ddy: int,
    c: ChessColour,
    tx: int,
    ty: int,
    fuel: nat,
)
    requires
        ray_dest(b, cx, cy, ddx, ddy, c, tx, ty, fuel),
    ensures
        in_board(tx, ty),
        ddx == 0 ==> tx == cx,
        ddx > 0 ==> tx > cx,
        ddx < 0 ==> tx < cx,
        ddy == 0 ==> ty == cy,
        ddy > 0 ==> ty > cy,
        ddy < 0 ==> ty < cy,
    decreases fuel,
{
    let nx = cx + ddx;
    let ny = cy + ddy;
    if !(nx == tx && ny == ty) {
        lemma_ray_props(b, nx, ny, ddx, ddy, c, tx, ty, (fuel - 1) as nat);
    }
}

/// Every reported destination lies on the board and differs from the piece's
/// own square.
pub proof fn lemma_dest_on_board(b: Seq<Square>, cx: int, cy: int, p: Piece, tx: int, ty: int)
    requires
        in_board(cx, cy),
        all_dest(b, cx, cy, p, tx, ty),
    ensures
        in_board(tx, ty),
        !(tx == cx && ty == cy),
{
    if base_dest(b, cx, cy, p, tx, ty) {
        match p.kind {
            PieceKind::Rook | PieceKind::Bishop | PieceKind::Queen => {
                if ray_dest(b, cx, cy, 1, 0, p.colour, tx, ty, 8) {
                    lemma_ray_props(b, cx, cy, 1, 0, p.colour, tx, ty, 8);
                }
                if ray_dest(b, cx, cy, -1, 0, p.colour, tx, ty, 8) {
                    lemma_ray_props(b, cx, cy, -1, 0, p.colour, tx, ty, 8);
                }
                if ray_dest(b, cx, cy, 0, 1, p.colour, tx, ty, 8) {
                    lemma_ray_props(b, cx, cy, 0, 1, p.colour, tx, ty, 8);
                }
                if ray_dest(b, cx, cy, 0, -1, p.colour, tx, ty, 8) {
                    lemma_ray_props(b, cx, cy, 0, -1, p.colour, tx, ty, 8);
                }
                if ray_dest(b, cx, cy, 1, 1, p.colour, tx, ty, 8) {
                    lemma_ray_props(b, cx, cy, 1, 1, p.colour, tx, ty, 8);
                }
                if ray_dest(b, cx, cy, 1, -1, p.colour, tx, ty, 8) {
                    lemma_ray_props(b, cx, cy, 1, -1, p.colour, tx, ty, 8);
                }
                if ray_dest(b, cx, cy, -1, 1, p.colour, tx, ty, 8) {
                    lemma_ray_props(b, cx, cy, -1, 1, p.colour, tx, ty, 8);
                }
                if ray_dest(b, cx, cy, -1, -1, p.colour, tx, ty, 8) {
                    lemma_ray_props(b, cx, cy, -1, -1, p.colour, tx, ty, 8);
                }
            },
            _ => {},
        }
    }
    if castle_dest(b, cx, cy, p, tx, ty) {
        crate::board::lemma_first_king_idx(b, p.colour);
        assert(crate::board::king_at_idx(b, sq(cx, cy), p.colour));
        if castle_long_dest(b, cx, cy, p, tx, ty) {
            assert(cx != 0) by {
                if cx == 0 {
                    assert(sq(cx, cy) == sq(0, cy));
                }
            }
            assert(cx != 1 && cx != 2 && cx != 3) by {
                if cx == 1 {
                    assert(sq(cx, cy) == sq(1, cy));
                }
                if cx == 2 {
                    assert(sq(cx, cy) == sq(2, cy));
                }
                if cx == 3 {
                    assert(sq(cx, cy) == sq(3, cy));
                }
            }
        } else {
            assert(cx != 7) by {
                if cx == 7 {
                    assert(sq(cx, cy) == sq(7, cy));
                }
            }
            assert(cx != 5 && cx != 6) by {
                if cx == 5 {
                    assert(sq(cx, cy) == sq(5, cy));
                }
                if cx == 6 {
                    assert(sq(cx, cy) == sq(6, cy));
                }
            }
        }
    }
}

/// The piece on an occupied coordinate (an arbitrary placeholder when empty;
/// only used under `has_piece`).
pub open spec fn piece_on(b: Seq<Square>, x: int, y: int) -> Piece {
    match piece_at(b, x, y) {
        Some(p) => p,
        None => Piece {
            kind: PieceKind::Pawn,
            colour: ChessColour::White,
            has_moved: false,
            en_passanteable: false,
        },
    }
}

/// Whether the coordinate list holds `(tx, ty)`.
pub open spec fn contains_c(s: Seq<(u8, u8)>, tx: int, ty: int) -> bool {
    exists|i: int| 0 <= i < s.len() && s[i].0 == tx && s[i].1 == ty
}

/// Whether the coordinate list holds no repeated entry.
pub open spec fn nodup(s: Seq<(u8, u8)>) -> bool {
    forall|i: int, j: int| 0 <= i < j < s.len() ==> s[i] != s[j]
}

/// Whether `v` holds the coordinate `(tx, ty)`.
pub fn contains_coord(v: &Vec<(u8, u8)>, tx: u8, ty: u8) -> (r: bool)
    ensures
        r == contains_c(v@, tx as int, ty as int),
{
    let mut i: usize = 0;
    while i < v.len()
        invariant
            0 <= i <= v@.len(),
            forall|j: int| 0 <= j < i ==> !((#[trigger] v@[j]).0 == tx && v@[j].1 == ty),
        decreases v@.len() - i,
    {
        let e = v[i];
        if e.0 == tx && e.1 == ty {
            return true;
        }
        i = i + 1;
    }
    false
}

/// Appends a coordinate unless it is already present.
fn push_unique(v: &mut Vec<(u8, u8)>, t: (u8, u8))
    requires
        nodup(old(v)@),
    ensures
        nodup(final(v)@),
        forall|tx: int, ty: int| #![trigger contains_c(final(v)@, tx, ty)]
            contains_c(final(v)@, tx, ty) <==> contains_c(old(v)@, tx, ty) || (tx == t.0 && ty
                == t.1),
{
    if !contains_coord(v, t.0, t.1) {
        v.push(t);
        assert forall|tx: int, ty: int|
            contains_c(v@, tx, ty) <==> contains_c(old(v)@, tx, ty) || (tx == t.0 && ty
                == t.1) by {
            if contains_c(old(v)@, tx, ty) {
                let i = choose|i: int|
                    0 <= i < old(v)@.len() && old(v)@[i].0 == tx && old(v)@[i].1 == ty;
                assert(v@[i].0 == tx && v@[i].1 == ty);
            }
            if tx == t.0 && ty == t.1 {
                assert(v@[v@.len() - 1].0 == tx && v@[v@.len() - 1].1 == ty);
            }
        }
    } else {
        assert forall|tx: int, ty: int|
            contains_c(v@, tx, ty) <==> contains_c(old(v)@, tx, ty) || (tx == t.0 && ty
                == t.1) by {}
    }
}

/// Pours every coordinate of `src` into `dst`, without duplicating.
fn merge_unique(dst: &mut Vec<(u8, u8)>, src: &Vec<(u8, u8)>)
    requires
        nodup(old(dst)@),
    ensures
        nodup(final(dst)@),
        forall|tx: int, ty: int| #![trigger contains_c(final(dst)@, tx, ty)]
            contains_c(final(dst)@, tx, ty) <==> contains_c(old(dst)@, tx, ty) || contains_c(
                src@,
                tx,
                ty,
            ),
{
    let mut i: usize = 0;
    while i < src.len()
        invariant
            nodup(dst@),
            0 <= i <= src@.len(),
            forall|tx: int, ty: int|
                contains_c(dst@, tx, ty) <==> contains_c(old(dst)@, tx, ty) || (exists|j: int|
                    0 <= j < i && (#[trigger] src@[j]).0 == tx && src@[j].1 == ty),
        decreases src@.len() - i,
    {
        push_unique(dst, src[i]);
        i = i + 1;
    }
    assert forall|tx: int, ty: int|
        contains_c(dst@, tx, ty) <==> contains_c(old(dst)@, tx, ty) || contains_c(
            src@,
            tx,
            ty,
        ) by {
        if contains_c(src@, tx, ty) {
            let j = choose|j: int| 0 <= j < src@.len() && src@[j].0 == tx && src@[j].1 == ty;
            assert(src@[j].0 == tx && src@[j].1 == ty);
        }
    }
}

/// Walks one sliding ray, collecting every destination it yields.
fn ray_collect(
    b: &Vec<Square>,
    cx: u8,
    cy: u8,
    ddx: i8,
    ddy: i8,
    col: ChessColour,
    fuel: u8,
    out: &mut Vec<(u8, u8)>,
)
    requires
        b@.len() == 64,
        in_board(cx as int, cy as int),
        -1 <= ddx as int <= 1,
        -1 <= ddy as int <= 1,
        nodup(old(out)@),
    ensures
        nodup(final(out)@),
        forall|tx: int, ty: int| #![trigger contains_c(final(out)@, tx, ty)]
            contains_c(final(out)@, tx, ty) <==> contains_c(old(out)@, tx, ty) || ray_dest(
                b@,
                cx as int,
                cy as int,
                ddx as int,
                ddy as int,
                col,
                tx,
                ty,
                fuel as nat,
            ),
    decreases fuel,
{
    if fuel == 0 {
        return ;
    }
    let nxi: i16 = cx as i16 + ddx as i16;
    let nyi: i16 = cy as i16 + ddy as i16;
    if !(0 <= nxi && nxi < 8 && 0 <= nyi && nyi < 8) {
        return ;
    }
    let nx: u8 = nxi as u8;
    let ny: u8 = nyi as u8;
    let s = crate::board::square_at(b, nx, ny);
    match s.content {
        Some(q) => {
            if q.colour != col {
                push_unique(out, (nx, ny));
            }
        },
        None => {
            push_unique(out, (nx, ny));
            ray_collect(b, nx, ny, ddx, ddy, col, fuel - 1, out);
        },
    }
}

/// One stepping offset: collects the destination if it is on the board and
/// not blocked by a friendly piece.
fn try_step(
    b: &Vec<Square>,
    cx: u8,
    cy: u8,
    col: ChessColour,
    ddx: i8,
    ddy: i8,
    out: &mut Vec<(u8, u8)>,
)
    requires
        b@.len() == 64,
        in_board(cx as int, cy as int),
        -2 <= ddx as int <= 2,
        -2 <= ddy as int <= 2,
        nodup(old(out)@),
    ensures
        nodup(final(out)@),
        forall|tx: int, ty: int| #![trigger contains_c(final(out)@, tx, ty)]
            contains_c(final(out)@, tx, ty) <==> contains_c(old(out)@, tx, ty) || (tx == cx + ddx && ty
                == cy + ddy && step_ok(b@, col, tx, ty)),
{
    let nxi: i16 = cx as i16 + ddx as i16;
    let nyi: i16 = cy as i16 + ddy as i16;
    if 0 <= nxi && nxi < 8 && 0 <= nyi && nyi < 8 {
        let nx: u8 = nxi as u8;
        let ny: u8 = nyi as u8;
        let s = crate::board::square_at(b, nx, ny);
        let blocked = match s.content {
            Some(q) => q.colour == col,
            None => false,
        };
        if !blocked {
            push_unique(out, (nx, ny));
        }
    }
}

/// The destinations of a knight.
fn knight_dests(b: &Vec<Square>, cx: u8, cy: u8, col: ChessColour, out: &mut Vec<(u8, u8)>)
    requires
        b@.len() == 64,
        in_board(cx as int, cy as int),
        nodup(old(out)@),
    ensures
        nodup(final(out)@),
        forall|tx: int, ty: int| #![trigger contains_c(final(out)@, tx, ty)]
            contains_c(final(out)@, tx, ty) <==> contains_c(old(out)@, tx, ty) || knight_dest(
                b@,
                cx as int,
                cy as int,
                col,
                tx,
                ty,
            ),
{
    try_step(b, cx, cy, col, 1, 2, out);
    try_step(b, cx, cy, col, -1, 2, out);
    try_step(b, cx, cy, col, 2, 1, out);
    try_step(b, cx, cy, col, -2, 1, out);
    try_step(b, cx, cy, col, 2, -1, out);
    try_step(b, cx, cy, col, -2, -1, out);
    try_step(b, cx, cy, col, 1, -2, out);
    try_step(b, cx, cy, col, -1, -2, out);
}

/// The destinations of a king (castling aside).
fn king_dests(b: &Vec<Square>, cx: u8, cy: u8, col: ChessColour, out: &mut Vec<(u8, u8)>)
    requires
        b@.len() == 64,
        in_board(cx as int, cy as int),
        nodup(old(out)@),
    ensures
        nodup(final(out)@),
        forall|tx: int, ty: int| #![trigger contains_c(final(out)@, tx, ty)]
            contains_c(final(out)@, tx, ty) <==> contains_c(old(out)@, tx, ty) || king_dest(
                b@,
                cx as int,
                cy as int,
                col,
                tx,
                ty,
            ),
{
    try_step(b, cx, cy, col, -1, -1, out);
    try_step(b, cx, cy, col, -1, 0, out);
    try_step(b, cx, cy, col, -1, 1, out);
    try_step(b, cx, cy, col, 0, 1, out);
    try_step(b, cx, cy, col, 0, -1, out);
    try_step(b, cx, cy, col, 1, -1, out);
    try_step(b, cx, cy, col, 1, 0, out);
    try_step(b, cx, cy, col, 1, 1, out);
}

/// The non-special destinations of a pawn.
fn pawn_dests(b: &Vec<Square>, cx: u8, cy: u8, p: Piece, out: &mut Vec<(u8, u8)>)
    requires
        b@.len() == 64,
        in_board(cx as int, cy as int),
        p.kind == PieceKind::Pawn,
        nodup(old(out)@),
    ensures
        nodup(final(out)@),
        forall|tx: int, ty: int| #![trigger contains_c(final(out)@, tx, ty)]
            contains_c(final(out)@, tx, ty) <==> contains_c(old(out)@, tx, ty) || pawn_dest(
                b@,
                cx as int,
                cy as int,
                p,
                tx,
                ty,
            ),
{
    let d: i8 = if p.colour == ChessColour::White {
        1
    } else {
        -1
    };
    let ty1: i16 = cy as i16 + d as i16;
    let ty2: i16 = cy as i16 + 2 * (d as i16);
    // single advance
    if 0 <= ty1 && ty1 < 8 {
        let s = crate::board::square_at(b, cx, ty1 as u8);
        if s.content.is_none() {
            push_unique(out, (cx, ty1 as u8));
        }
    }
    // double advance by an unmoved pawn, both squares empty
    if !p.has_moved && 0 <= ty1 && ty1 < 8 && 0 <= ty2 && ty2 < 8 {
        let s1 = crate::board::square_at(b, cx, ty1 as u8);
        let s2 = crate::board::square_at(b, cx, ty2 as u8);
        if s1.content.is_none() && s2.content.is_none() {
            push_unique(out, (cx, ty2 as u8));
        }
    }
    // diagonal captures
    if 0 <= ty1 && ty1 < 8 {
        if cx >= 1 {
            let s = crate::board::square_at(b, cx - 1, ty1 as u8);
            let enemy = match s.content {
                Some(q) => q.colour == p.colour.flip(),
                None => false,
            };
            if enemy {
                push_unique(out, (cx - 1, ty1 as u8));
            }
        }
        if cx <= 6 {
            let s = crate::board::square_at(b, cx + 1, ty1 as u8);
            let enemy = match s.content {
                Some(q) => q.colour == p.colour.flip(),
                None => false,
            };
            if enemy {
                push_unique(out, (cx + 1, ty1 as u8));
            }
        }
    }
}

/// The base destinations of `p` at `(cx, cy)`: everything except en passant
/// and castling.
pub fn base_dests(b: &Vec<Square>, cx: u8, cy: u8, p: Piece) -> (r: Vec<(u8, u8)>)
    requires
        b@.len() == 64,
        in_board(cx as int, cy as int),
    ensures
        nodup(r@),
        forall|tx: int, ty: int| #![trigger contains_c(r@, tx, ty)]
            contains_c(r@, tx, ty) <==> base_dest(b@, cx as int, cy as int, p, tx, ty),
{
    let mut out: Vec<(u8, u8)> = Vec::new();
    match p.kind {
        PieceKind::Pawn => pawn_dests(b, cx, cy, p, &mut out),
        PieceKind::Knight => knight_dests(b, cx, cy, p.colour, &mut out),
        PieceKind::King => king_dests(b, cx, cy, p.colour, &mut out),
        PieceKind::Rook => {
            ray_collect(b, cx, cy, 1, 0, p.colour, 8, &mut out);
            ray_collect(b, cx, cy, -1, 0, p.colour, 8, &mut out);
            ray_collect(b, cx, cy, 0, 1, p.colour, 8, &mut out);
            ray_collect(b, cx, cy, 0, -1, p.colour, 8, &mut out);
        },
        PieceKind::Bishop => {
            ray_collect(b, cx, cy, 1, 1, p.colour, 8, &mut out);
            ray_collect(b, cx, cy, 1, -1, p.colour, 8, &mut out);
            ray_collect(b, cx, cy, -1, 1, p.colour, 8, &mut out);
            ray_collect(b, cx, cy, -1, -1, p.colour, 8, &mut out);
        },
        PieceKind::Queen => {
            ray_collect(b, cx, cy, 1, 0, p.colour, 8, &mut out);
            ray_collect(b, cx, cy, -1, 0, p.colour, 8, &mut out);
            ray_collect(b, cx, cy, 0, 1, p.colour, 8, &mut out);
            ray_collect(b, cx, cy, 0, -1, p.colour, 8, &mut out);
            ray_collect(b, cx, cy, 1, 1, p.colour, 8, &mut out);
            ray_collect(b, cx, cy, 1, -1, p.colour, 8, &mut out);
            ray_collect(b, cx, cy, -1, 1, p.colour, 8, &mut out);
            ray_collect(b, cx, cy, -1, -1, p.colour, 8, &mut out);
        },
    }
    out
}

/// The en passant candidate destinations of `p` at `(cx, cy)`.
pub fn ep_dests(b: &Vec<Square>, cx: u8, cy: u8, p: Piece) -> (r: Vec<(u8, u8)>)
    requires
        b@.len() == 64,
        in_board(cx as int, cy as int),
    ensures
        nodup(r@),
        forall|tx: int, ty: int| #![trigger contains_c(r@, tx, ty)]
            contains_c(r@, tx, ty) <==> ep_dest(b@, cx as int, cy as int, p, tx, ty),
{
    let mut out: Vec<(u8, u8)> = Vec::new();
    if p.kind == PieceKind::Pawn {
        let d: i8 = if p.colour == ChessColour::White {
            1
        } else {
            -1
        };
        let ty1: i16 = cy as i16 + d as i16;
        if 0 <= ty1 && ty1 < 8 {
            if cx >= 1 {
                let s = crate::board::square_at(b, cx - 1, cy);
                let flagged = match s.content {
                    Some(q) => q.en_passanteable,
                    None => false,
                };
                if flagged {
                    push_unique(&mut out, (cx - 1, ty1 as u8));
                }
            }
            if cx <= 6 {
                let s = crate::board::square_at(b, cx + 1, cy);
                let flagged = match s.content {
                    Some(q) => q.en_passanteable,
                    None => false,
                };
                if flagged {
                    push_unique(&mut out, (cx + 1, ty1 as u8));
                }
            }
        }
    }
    out
}

/// The castling candidate destinations of `p` at `(cx, cy)`.
pub fn castle_dests(b: &Vec<Square>, cx: u8, cy: u8, p: Piece) -> (r: Vec<(u8, u8)>)
    requires
        b@.len() == 64,
        in_board(cx as int, cy as int),
    ensures
        nodup(r@),
        forall|tx: int, ty: int| #![trigger contains_c(r@, tx, ty)]
            contains_c(r@, tx, ty) <==> castle_dest(b@, cx as int, cy as int, p, tx, ty),
{
    let mut out: Vec<(u8, u8)> = Vec::new();
    if p.kind != PieceKind::King || p.has_moved {
        return out;
    }
    let ki = crate::board::find_king_idx(b, p.colour);
    if ki != (cx as usize) + 8 * (cy as usize) {
        return out;
    }
    let home: u8 = if p.colour == ChessColour::White {
        0
    } else {
        7
    };
    if cy != home {
        return out;
    }
    proof {
        crate::board::lemma_first_king_idx(b@, p.colour);
    }
    // long castling
    {
        let rook_sq = crate::board::square_at(b, 0, cy);
        let rook_ok = match rook_sq.content {
            Some(q) => q.kind == PieceKind::Rook && q.colour == p.colour && !q.has_moved,
            None => false,
        };
        if rook_ok && crate::board::square_at(b, 1, cy).content.is_none()
            && crate::board::square_at(b, 2, cy).content.is_none() && crate::board::square_at(
            b,
            3,
            cy,
        ).content.is_none() {
            proof {
                assert(crate::board::king_at_idx(b@, sq(cx as int, cy as int), p.colour));
                if cx as int == 0 {
                    assert(sq(cx as int, cy as int) == sq(0, cy as int));
                }
                if cx as int == 1 {
                    assert(sq(cx as int, cy as int) == sq(1, cy as int));
                }
                if cx as int == 2 {
                    assert(sq(cx as int, cy as int) == sq(2, cy as int));
                }
                if cx as int == 3 {
                    assert(sq(cx as int, cy as int) == sq(3, cy as int));
                }
            }
            push_unique(&mut out, (cx - 2, cy));
        }
    }
    // short castling
    {
        let rook_sq = crate::board::square_at(b, 7, cy);
        let rook_ok = match rook_sq.content {
            Some(q) => q.kind == PieceKind::Rook && q.colour == p.colour && !q.has_moved,
            None => false,
        };
        if rook_ok && crate::board::square_at(b, 5, cy).content.is_none()
            && crate::board::square_at(b, 6, cy).content.is_none() {
            proof {
                assert(crate::board::king_at_idx(b@, sq(cx as int, cy as int), p.colour));
                if cx as int == 7 {
                    assert(sq(cx as int, cy as int) == sq(7, cy as int));
                }
                if cx as int == 5 {
                    assert(sq(cx as int, cy as int) == sq(5, cy as int));
                }
                if cx as int == 6 {
                    assert(sq(cx as int, cy as int) == sq(6, cy as int));
                }
            }
            push_unique(&mut out, (cx + 2, cy));
        }
    }
    out
}

/// Every destination the generator reports for the piece at `(cx, cy)` with
/// the legality filter off.
pub fn dests_from(b: &Vec<Square>, cx: u8, cy: u8) -> (r: Vec<(u8, u8)>)
    requires
        b@.len() == 64,
        in_board(cx as int, cy as int),
        has_piece(b@, cx as int, cy as int),
    ensures
        nodup(r@),
        forall|tx: int, ty: int| #![trigger contains_c(r@, tx, ty)]
            contains_c(r@, tx, ty) <==> all_dest(
                b@,
                cx as int,
                cy as int,
                piece_on(b@, cx as int, cy as int),
                tx,
                ty,
            ),
{
    let s = crate::board::square_at(b, cx, cy);
    let p = match s.content {
        Some(p) => p,
        None => {
            proof {
                assert(false);
            }
            Piece {
                kind: PieceKind::Pawn,
                colour: ChessColour::White,
                has_moved: false,
                en_passanteable: false,
            }
        },
    };
    let mut out = base_dests(b, cx, cy, p);
    let ghost out0 = out@;
    let eps = ep_dests(b, cx, cy, p);
    merge_unique(&mut out, &eps);
    let ghost out1 = out@;
    let castles = castle_dests(b, cx, cy, p);
    merge_unique(&mut out, &castles);
    assert forall|tx: int, ty: int|
        contains_c(out@, tx, ty) <==> all_dest(
            b@,
            cx as int,
            cy as int,
            piece_on(b@, cx as int, cy as int),
            tx,
            ty,
        ) by {
        assert(contains_c(out@, tx, ty) <==> contains_c(out1, tx, ty) || contains_c(
            castles@,
            tx,
            ty,
        ));
        assert(contains_c(out1, tx, ty) <==> contains_c(out0, tx, ty) || contains_c(
            eps@,
            tx,
            ty,
        ));
        assert(contains_c(out0, tx, ty) <==> base_dest(b@, cx as int, cy as int, p, tx, ty));
        assert(contains_c(eps@, tx, ty) <==> ep_dest(b@, cx as int, cy as int, p, tx, ty));
        assert(contains_c(castles@, tx, ty) <==> castle_dest(b@, cx as int, cy as int, p, tx, ty));
    }
    out
}

/// Whether the side of colour `c` is in check on this board.
pub fn in_check_board(b: &Vec<Square>, c: ChessColour) -> (r: bool)
    requires
        b@.len() == 64,
    ensures
        r == in_check(b@, c),
{
    let ki = crate::board::find_king_idx(b, c);
    if ki >= 64 {
        return false;
    }
    let kx: u8 = (ki % 8) as u8;
    let ky: u8 = (ki / 8) as u8;
    let mut i: usize = 0;
    while i < 64
        invariant
            b@.len() == 64,
            ki == first_king_idx(b@, c),
            ki < 64,
            kx == ki as int % 8,
            ky == ki as int / 8,
            0 <= i <= 64,
            forall|j: int| 0 <= j < i ==> !(#[trigger] attacks_from(b@, j, c, ki as int % 8, ki as int / 8)),
        decreases 64 - i,
    {
        let s = b[i];
        let enemy_here = match s.content {
            Some(q) => q.colour != c,
            None => false,
        };
        if enemy_here {
            let ds = dests_from(b, (i % 8) as u8, (i / 8) as u8);
            if contains_coord(&ds, kx, ky) {
                assert(attacks_from(b@, i as int, c, ki as int % 8, ki as int / 8));
                return true;
            }
        }
        i = i + 1;
    }
    false
}

} // verus!
