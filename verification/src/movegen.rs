//! The rules engine: attack detection, move generation, the legality
//! filter, the board mutator, the dead-position test and the matcher that
//! resolves a submitted move to a legal one.

use crate::types::{
    cell, king_square, on_board, Board, CastlingRights, Cells, ChessMove, Color, MoveError,
    MoveFault, MoveJson, MoveText, Piece, PieceKind, Square,
};
use vstd::prelude::*;

verus! {

// ---------------------------------------------------------------------------
// Attack detection
// ---------------------------------------------------------------------------
/// One of the eight unit directions of the board.
pub open spec fn is_direction(df: int, dr: int) -> bool {
    -1 <= df <= 1 && -1 <= dr <= 1 && !(df == 0 && dr == 0)
}

/// The number of steps that can be taken from `(f, r)` along `(df, dr)`
/// before leaving the board.
pub open spec fn room(f: int, r: int, df: int, dr: int) -> int {
    let rf = if df == 1 {
        7 - f
    } else if df == -1 {
        f
    } else {
        7
    };
    let rr = if dr == 1 {
        7 - r
    } else if dr == -1 {
        r
    } else {
        7
    };
    if rf < rr {
        rf
    } else {
        rr
    }
}

/// The first piece met when walking from `(f, r)` along `(df, dr)`; the
/// walk starts one step away and ends at the edge of the board.
pub open spec fn first_on_ray(b: Cells, f: int, r: int, df: int, dr: int) -> Option<Piece>
    decreases room(f, r, df, dr),
{
    if !is_direction(df, dr) || !on_board(f, r) || !on_board(f + df, r + dr) {
        None
    } else if cell(b, f + df, r + dr) is Some {
        cell(b, f + df, r + dr)
    } else {
        first_on_ray(b, f + df, r + dr, df, dr)
    }
}

/// A knight of colour `by` stands a knight's jump away from `(f, r)`.
pub open spec fn knight_near(b: Cells, f: int, r: int, by: Color) -> bool {
    let n = Some(Piece { kind: PieceKind::Knight, color: by });
    ||| cell(b, f - 2, r - 1) == n
    ||| cell(b, f - 2, r + 1) == n
    ||| cell(b, f - 1, r - 2) == n
    ||| cell(b, f - 1, r + 2) == n
    ||| cell(b, f + 1, r - 2) == n
    ||| cell(b, f + 1, r + 2) == n
    ||| cell(b, f + 2, r - 1) == n
    ||| cell(b, f + 2, r + 1) == n
}

/// A king of colour `by` stands next to `(f, r)`.
pub open spec fn king_near(b: Cells, f: int, r: int, by: Color) -> bool {
    let k = Some(Piece { kind: PieceKind::King, color: by });
    ||| cell(b, f - 1, r - 1) == k
    ||| cell(b, f - 1, r) == k
    ||| cell(b, f - 1, r + 1) == k
    ||| cell(b, f, r - 1) == k
    ||| cell(b, f, r + 1) == k
    ||| cell(b, f + 1, r - 1) == k
    ||| cell(b, f + 1, r) == k
    ||| cell(b, f + 1, r + 1) == k
}

/// A pawn of colour `by` stands one square diagonally behind `(f, r)`, seen
/// from its own side.
pub open spec fn pawn_near(b: Cells, f: int, r: int, by: Color) -> bool {
    let p = Some(Piece { kind: PieceKind::Pawn, color: by });
    cell(b, f - 1, r - by.forward()) == p || cell(b, f + 1, r - by.forward()) == p
}

/// The piece, if any, is of colour `by` and moves along diagonals
/// (`diagonal`) or along files and ranks (otherwise): a queen, or a bishop
/// or a rook respectively.
pub open spec fn line_piece(p: Option<Piece>, by: Color, diagonal: bool) -> bool {
    p matches Some(q) && q.color == by && (q.kind == PieceKind::Queen || q.kind == (if diagonal {
        PieceKind::Bishop
    } else {
        PieceKind::Rook
    }))
}

/// Along one of the four diagonals from `(f, r)`, the first occupied square
/// holds a bishop or queen of colour `by`.
pub open spec fn diagonal_hit(b: Cells, f: int, r: int, by: Color) -> bool {
    ||| line_piece(first_on_ray(b, f, r, -1, -1), by, true)
    ||| line_piece(first_on_ray(b, f, r, -1, 1), by, true)
    ||| line_piece(first_on_ray(b, f, r, 1, -1), by, true)
    ||| line_piece(first_on_ray(b, f, r, 1, 1), by, true)
}

/// Along the file or the rank of `(f, r)`, in one of the four directions,
/// the first occupied square holds a rook or queen of colour `by`.
pub open spec fn straight_hit(b: Cells, f: int, r: int, by: Color) -> bool {
    ||| line_piece(first_on_ray(b, f, r, -1, 0), by, false)
    ||| line_piece(first_on_ray(b, f, r, 1, 0), by, false)
    ||| line_piece(first_on_ray(b, f, r, 0, -1), by, false)
    ||| line_piece(first_on_ray(b, f, r, 0, 1), by, false)
}

/// The square `(f, r)` is attacked by colour `by`.
pub open spec fn attacked(b: Cells, f: int, r: int, by: Color) -> bool {
    ||| knight_near(b, f, r, by)
    ||| king_near(b, f, r, by)
    ||| pawn_near(b, f, r, by)
    ||| diagonal_hit(b, f, r, by)
    ||| straight_hit(b, f, r, by)
}

/// The king of `color` is attacked by the other side. A side without a king
/// is not in check.
pub open spec fn in_check(b: Cells, color: Color) -> bool {
    match king_square(b, color) {
        Some(k) => attacked(b, k.file as int, k.rank as int, color.other()),
        None => false,
    }
}

/// `k` steps along one coordinate of a direction.
pub open spec fn steps(d: int, k: int) -> int {
    if d == 1 {
        k
    } else if d == -1 {
        -k
    } else {
        0
    }
}

/// What stands `k` steps from `(f, r)` along `(df, dr)`.
pub open spec fn ray_cell(b: Cells, f: int, r: int, df: int, dr: int, k: int) -> Option<Piece> {
    cell(b, f + steps(df, k), r + steps(dr, k))
}

/// The first piece on a ray is the piece on its first occupied square: a
/// piece that stands `k` steps away with only empty squares before it.
pub proof fn lemma_first_on_ray_found(b: Cells, f: int, r: int, df: int, dr: int, k: int)
    requires
        is_direction(df, dr),
        on_board(f, r),
        k >= 1,
        ray_cell(b, f, r, df, dr, k) is Some,
        forall|j: int| 1 <= j < k ==> (#[trigger] ray_cell(b, f, r, df, dr, j)) is None,
    ensures
        first_on_ray(b, f, r, df, dr) == ray_cell(b, f, r, df, dr, k),
    decreases k,
{
    assert(on_board(f + steps(df, k), r + steps(dr, k)));
    assert(on_board(f + df, r + dr));
    if k == 1 {
        assert(ray_cell(b, f, r, df, dr, 1) == cell(b, f + df, r + dr));
    } else {
        assert(ray_cell(b, f, r, df, dr, 1) is None);
        assert(cell(b, f + df, r + dr) is None);
        let f1 = f + df;
        let r1 = r + dr;
        assert forall|j: int| 1 <= j < k - 1 implies (#[trigger] ray_cell(
            b,
            f1,
            r1,
            df,
            dr,
            j,
        )) is None by {
            assert(ray_cell(b, f1, r1, df, dr, j) == ray_cell(b, f, r, df, dr, j + 1));
        }
        assert(ray_cell(b, f1, r1, df, dr, k - 1) == ray_cell(b, f, r, df, dr, k));
        lemma_first_on_ray_found(b, f1, r1, df, dr, k - 1);
    }
}

/// Where a ray meets a piece, that piece stands some steps away with only
/// empty squares before it; where it meets none, every square of the ray
/// is empty.
pub proof fn lemma_first_on_ray_is_first(b: Cells, f: int, r: int, df: int, dr: int) -> (k: int)
    requires
        is_direction(df, dr),
        on_board(f, r),
    ensures
        first_on_ray(b, f, r, df, dr) is Some ==> 1 <= k && ray_cell(b, f, r, df, dr, k)
            == first_on_ray(b, f, r, df, dr) && on_board(f + steps(df, k), r + steps(dr, k)),
        forall|j: int|
            1 <= j && (first_on_ray(b, f, r, df, dr) is Some ==> j < k) ==> (#[trigger] ray_cell(
                b,
                f,
                r,
                df,
                dr,
                j,
            )) is None,
    decreases room(f, r, df, dr),
{
    if !on_board(f + df, r + dr) {
        assert forall|j: int| 1 <= j implies (#[trigger] ray_cell(b, f, r, df, dr, j)) is None by {
            assert(!on_board(f + steps(df, j), r + steps(dr, j)));
        }
        0
    } else if cell(b, f + df, r + dr) is Some {
        assert(ray_cell(b, f, r, df, dr, 1) == cell(b, f + df, r + dr));
        1
    } else {
        let k1 = lemma_first_on_ray_is_first(b, f + df, r + dr, df, dr);
        let found = first_on_ray(b, f, r, df, dr) is Some;
        assert forall|j: int| 1 <= j && (found ==> j < k1 + 1) implies (#[trigger] ray_cell(
            b,
            f,
            r,
            df,
            dr,
            j,
        )) is None by {
            if j == 1 {
                assert(ray_cell(b, f, r, df, dr, 1) == cell(b, f + df, r + dr));
            } else {
                assert(ray_cell(b, f, r, df, dr, j) == ray_cell(b, f + df, r + dr, df, dr, j - 1));
            }
        }
        if found {
            assert(ray_cell(b, f, r, df, dr, k1 + 1) == ray_cell(b, f + df, r + dr, df, dr, k1));
        }
        k1 + 1
    }
}

/// Returns what stands `(df, dr)` away from `sq`; nothing stands off the
/// board.
fn piece_at_offset(board: &Board, sq: Square, df: i8, dr: i8) -> (r: Option<Piece>)
    requires
        sq.wf(),
    ensures
        r == cell(board@, sq.file + df, sq.rank + dr),
{
    match sq.offset(df, dr) {
        Some(q) => board.get(q),
        None => None,
    }
}

/// Tells whether the piece `p` stands `(df, dr)` away from `sq`.
fn stands_at(board: &Board, sq: Square, df: i8, dr: i8, p: Piece) -> (r: bool)
    requires
        sq.wf(),
    ensures
        r == (cell(board@, sq.file + df, sq.rank + dr) == Some(p)),
{
    match piece_at_offset(board, sq, df, dr) {
        Some(q) => q.kind == p.kind && q.color == p.color,
        None => false,
    }
}

/// Walks from `sq` along `(df, dr)` and returns the first piece met.
fn first_piece_along(board: &Board, sq: Square, df: i8, dr: i8) -> (r: Option<Piece>)
    requires
        sq.wf(),
        is_direction(df as int, dr as int),
    ensures
        r == first_on_ray(board@, sq.file as int, sq.rank as int, df as int, dr as int),
{
    let mut cur = sq;
    loop
        invariant
            cur.wf(),
            is_direction(df as int, dr as int),
            first_on_ray(board@, sq.file as int, sq.rank as int, df as int, dr as int)
                == first_on_ray(board@, cur.file as int, cur.rank as int, df as int, dr as int),
        decreases room(cur.file as int, cur.rank as int, df as int, dr as int),
    {
        match cur.offset(df, dr) {
            None => {
                return None;
            },
            Some(next) => {
                match board.get(next) {
                    Some(p) => {
                        return Some(p);
                    },
                    None => {
                        cur = next;
                    },
                }
            },
        }
    }
}

/// Tells whether the first piece met from `sq` along `(df, dr)` is a queen
/// of colour `by`, or its bishop (`diagonal`) or rook (otherwise).
fn line_attack(board: &Board, sq: Square, df: i8, dr: i8, by: Color, diagonal: bool) -> (r: bool)
    requires
        sq.wf(),
        is_direction(df as int, dr as int),
    ensures
        r == line_piece(
            first_on_ray(board@, sq.file as int, sq.rank as int, df as int, dr as int),
            by,
            diagonal,
        ),
{
    match first_piece_along(board, sq, df, dr) {
        Some(q) => q.color == by && (q.kind == PieceKind::Queen || (diagonal && q.kind
            == PieceKind::Bishop) || (!diagonal && q.kind == PieceKind::Rook)),
        None => false,
    }
}

/// Returns `true` if the given square is attacked by any piece of
/// `attacker_color`: by a knight a jump away, a king next to it, a pawn
/// diagonally behind it, or a bishop, rook or queen that is the first piece
/// along one of its lines.
pub fn is_square_attacked(board: &Board, sq: Square, attacker_color: Color) -> (r: bool)
    requires
        sq.wf(),
    ensures
        r == attacked(board@, sq.file as int, sq.rank as int, attacker_color),
{
    let knight = Piece { kind: PieceKind::Knight, color: attacker_color };
    if stands_at(board, sq, -2, -1, knight) || stands_at(board, sq, -2, 1, knight) || stands_at(
        board,
        sq,
        -1,
        -2,
        knight,
    ) || stands_at(board, sq, -1, 2, knight) || stands_at(board, sq, 1, -2, knight) || stands_at(
        board,
        sq,
        1,
        2,
        knight,
    ) || stands_at(board, sq, 2, -1, knight) || stands_at(board, sq, 2, 1, knight) {
        return true;
    }
    let king = Piece { kind: PieceKind::King, color: attacker_color };
    if stands_at(board, sq, -1, -1, king) || stands_at(board, sq, -1, 0, king) || stands_at(
        board,
        sq,
        -1,
        1,
        king,
    ) || stands_at(board, sq, 0, -1, king) || stands_at(board, sq, 0, 1, king) || stands_at(
        board,
        sq,
        1,
        -1,
        king,
    ) || stands_at(board, sq, 1, 0, king) || stands_at(board, sq, 1, 1, king) {
        return true;
    }
    let pawn = Piece { kind: PieceKind::Pawn, color: attacker_color };
    let back: i8 = match attacker_color {
        Color::White => -1,
        Color::Black => 1,
    };
    if stands_at(board, sq, -1, back, pawn) || stands_at(board, sq, 1, back, pawn) {
        return true;
    }
    if line_attack(board, sq, -1, -1, attacker_color, true) || line_attack(
        board,
        sq,
        -1,
        1,
        attacker_color,
        true,
    ) || line_attack(board, sq, 1, -1, attacker_color, true) || line_attack(
        board,
        sq,
        1,
        1,
        attacker_color,
        true,
    ) {
        return true;
    }
    line_attack(board, sq, -1, 0, attacker_color, false) || line_attack(
        board,
        sq,
        1,
        0,
        attacker_color,
        false,
    ) || line_attack(board, sq, 0, -1, attacker_color, false) || line_attack(
        board,
        sq,
        0,
        1,
        attacker_color,
        false,
    )
}

/// Returns `true` if the king of the given colour is attacked by the other
/// side; `false` if that side has no king on the board.
pub fn is_in_check(board: &Board, color: Color) -> (r: bool)
    ensures
        r == in_check(board@, color),
{
    match board.find_king(color) {
        Some(king_sq) => is_square_attacked(board, king_sq, color.opponent()),
        None => false,
    }
}


// ---------------------------------------------------------------------------
// The board mutator
// ---------------------------------------------------------------------------
/// The move can be applied to the board for the side `color`: both squares
/// lie on the board, a piece stands on the source, and for an en-passant
/// capture the square one rank behind the target, seen from the mover, lies
/// on the board.
pub open spec fn applicable(b: Cells, mv: ChessMove, color: Color) -> bool {
    &&& mv.wf()
    &&& b[mv.from.idx()] is Some
    &&& mv.is_en_passant ==> on_board(mv.to.file as int, mv.to.rank - color.forward())
}

/// A promotion, if the move has one, is to a queen, rook, bishop or knight.
pub open spec fn promotes_well(mv: ChessMove) -> bool {
    mv.promotion matches Some(k) ==> k.is_promotion_target()
}

/// Every move of the sequence can be applied, and promotes, if it does, to
/// a queen, rook, bishop or knight.
pub open spec fn all_applicable(b: Cells, s: Seq<ChessMove>, color: Color) -> bool {
    forall|i: int|
        0 <= i < s.len() ==> applicable(b, #[trigger] s[i], color) && promotes_well(s[i])
}

/// The board after the rook's part of a castling move: the rook of the
/// king's rank goes from the h-file to the f-file when the king lands on
/// the g-file, from the a-file to the d-file when it lands on the c-file.
pub open spec fn rook_castled(b: Cells, mv: ChessMove) -> Cells {
    let base = mv.from.rank * 8;
    if mv.is_castling && mv.to.file == 6 {
        b.update(base + 7, None).update(base + 5, b[base + 7])
    } else if mv.is_castling && mv.to.file == 2 {
        b.update(base, None).update(base + 3, b[base])
    } else {
        b
    }
}

/// The board after an en-passant capture's removal of the captured pawn,
/// which stands one rank behind the target, seen from the mover.
pub open spec fn pawn_removed(b: Cells, mv: ChessMove, color: Color) -> Cells {
    if mv.is_en_passant {
        b.update((mv.to.rank - color.forward()) * 8 + mv.to.file, None)
    } else {
        b
    }
}

/// The piece that a move puts on its target: for a promotion a new piece of
/// the promotion kind, else the piece that moved.
pub open spec fn placed_piece(b: Cells, mv: ChessMove, color: Color) -> Piece {
    match mv.promotion {
        Some(k) => Piece { kind: k, color },
        None => b[mv.from.idx()].unwrap(),
    }
}

/// The board after a move of the side `color`.
pub open spec fn applied(b: Cells, mv: ChessMove, color: Color) -> Cells {
    pawn_removed(rook_castled(b.update(mv.from.idx(), None), mv), mv, color).update(
        mv.to.idx(),
        Some(placed_piece(b, mv, color)),
    )
}

/// Applies a move to the board: clears the source; for castling moves the
/// rook as well; for en passant removes the captured pawn; then places the
/// moved piece, or for a promotion the new piece, on the target.
pub fn apply_move_to_board(board: &mut Board, mv: &ChessMove, color: Color)
    requires
        applicable(old(board)@, *mv, color),
    ensures
        final(board)@ == applied(old(board)@, *mv, color),
{
    let piece = match board.get(mv.from) {
        Some(p) => p,
        None => {
            return ;
        },
    };
    board.set(mv.from, None);
    if mv.is_castling {
        let rank = mv.from.rank;
        if mv.to.file == 6 {
            let rook = board.get(Square { file: 7, rank });
            board.set(Square { file: 7, rank }, None);
            board.set(Square { file: 5, rank }, rook);
        } else if mv.to.file == 2 {
            let rook = board.get(Square { file: 0, rank });
            board.set(Square { file: 0, rank }, None);
            board.set(Square { file: 3, rank }, rook);
        }
    }
    if mv.is_en_passant {
        let captured_rank: u8 = match color {
            Color::White => mv.to.rank - 1,
            Color::Black => mv.to.rank + 1,
        };
        board.set(Square { file: mv.to.file, rank: captured_rank }, None);
    }
    let placed = match mv.promotion {
        Some(k) => Piece { kind: k, color },
        None => piece,
    };
    board.set(mv.to, Some(placed));
}

// ---------------------------------------------------------------------------
// Pseudo-legal generation
// ---------------------------------------------------------------------------
/// A piece of `color` may land on `(f, r)`: the square lies on the board and
/// is empty or holds a piece of the other colour.
pub open spec fn can_land(b: Cells, f: int, r: int, color: Color) -> bool {
    on_board(f, r) && (cell(b, f, r) matches Some(p) ==> p.color != color)
}

/// The move of a piece that steps `(df, dr)` away from `from`, if it may
/// land there.
pub open spec fn step_moves(b: Cells, from: Square, color: Color, df: int, dr: int) -> Seq<
    ChessMove,
> {
    if can_land(b, from.file + df, from.rank + dr, color) {
        seq![ChessMove::plain(from, Square::at(from.file + df, from.rank + dr))]
    } else {
        Seq::empty()
    }
}

/// The moves of a piece of `color` from `from` that slides along `(df, dr)`
/// and has come as far as `(f, r)`: every empty square further on until the
/// first occupied one, and that one too if it holds a piece of the other
/// colour.
pub open spec fn slide_moves(
    b: Cells,
    from: Square,
    color: Color,
    f: int,
    r: int,
    df: int,
    dr: int,
) -> Seq<ChessMove>
    decreases room(f, r, df, dr),
{
    if !is_direction(df, dr) || !on_board(f, r) || !on_board(f + df, r + dr) {
        Seq::empty()
    } else {
        let mv = ChessMove::plain(from, Square::at(f + df, r + dr));
        match cell(b, f + df, r + dr) {
            None => seq![mv] + slide_moves(b, from, color, f + df, r + dr, df, dr),
            Some(p) => if p.color != color {
                seq![mv]
            } else {
                Seq::empty()
            },
        }
    }
}

/// The moves along one direction of a sliding piece on `from`.
pub open spec fn ray_moves(b: Cells, from: Square, color: Color, df: int, dr: int) -> Seq<
    ChessMove,
> {
    slide_moves(b, from, color, from.file as int, from.rank as int, df, dr)
}

/// The moves of a sliding piece on `from` along files and ranks.
pub open spec fn straight_moves(b: Cells, from: Square, color: Color) -> Seq<ChessMove> {
    ray_moves(b, from, color, -1, 0) + ray_moves(b, from, color, 1, 0) + ray_moves(
        b,
        from,
        color,
        0,
        -1,
    ) + ray_moves(b, from, color, 0, 1)
}

/// The moves of a sliding piece on `from` along diagonals.
pub open spec fn diagonal_moves(b: Cells, from: Square, color: Color) -> Seq<ChessMove> {
    ray_moves(b, from, color, -1, -1) + ray_moves(b, from, color, -1, 1) + ray_moves(
        b,
        from,
        color,
        1,
        -1,
    ) + ray_moves(b, from, color, 1, 1)
}

/// The moves of a sliding piece on `from`: along files and ranks if
/// `straight`, then along diagonals if `diagonal`.
pub open spec fn sliding_moves(
    b: Cells,
    from: Square,
    color: Color,
    straight: bool,
    diagonal: bool,
) -> Seq<ChessMove> {
    (if straight {
        straight_moves(b, from, color)
    } else {
        Seq::empty()
    }) + (if diagonal {
        diagonal_moves(b, from, color)
    } else {
        Seq::empty()
    })
}

/// The moves of a knight on `from`.
pub open spec fn knight_moves(b: Cells, from: Square, color: Color) -> Seq<ChessMove> {
    step_moves(b, from, color, -2, -1) + step_moves(b, from, color, -2, 1) + step_moves(
        b,
        from,
        color,
        -1,
        -2,
    ) + step_moves(b, from, color, -1, 2) + step_moves(b, from, color, 1, -2) + step_moves(
        b,
        from,
        color,
        1,
        2,
    ) + step_moves(b, from, color, 2, -1) + step_moves(b, from, color, 2, 1)
}

/// The one-square moves of a king on `from`.
pub open spec fn king_steps(b: Cells, from: Square, color: Color) -> Seq<ChessMove> {
    step_moves(b, from, color, -1, -1) + step_moves(b, from, color, -1, 0) + step_moves(
        b,
        from,
        color,
        -1,
        1,
    ) + step_moves(b, from, color, 0, -1) + step_moves(b, from, color, 0, 1) + step_moves(
        b,
        from,
        color,
        1,
        -1,
    ) + step_moves(b, from, color, 1, 0) + step_moves(b, from, color, 1, 1)
}

/// Castling on the king's side is allowed for `color`, whose king stands on
/// its starting square and is not in check: the right is held, the f- and
/// g-squares are empty, the rook stands on the h-square, and neither the f-
/// nor the g-square is attacked.
pub open spec fn kingside_allowed(b: Cells, color: Color, rights: CastlingRights) -> bool {
    let rank = color.back_rank();
    &&& rights.side(color).kingside
    &&& cell(b, 5, rank) is None
    &&& cell(b, 6, rank) is None
    &&& cell(b, 7, rank) == Some(Piece { kind: PieceKind::Rook, color })
    &&& !attacked(b, 5, rank, color.other())
    &&& !attacked(b, 6, rank, color.other())
}

/// Castling on the queen's side is allowed for `color`, whose king stands
/// on its starting square and is not in check: the right is held, the d-,
/// c- and b-squares are empty, the rook stands on the a-square, and neither
/// the d- nor the c-square is attacked. The b-square need not be safe.
pub open spec fn queenside_allowed(b: Cells, color: Color, rights: CastlingRights) -> bool {
    let rank = color.back_rank();
    &&& rights.side(color).queenside
    &&& cell(b, 3, rank) is None
    &&& cell(b, 2, rank) is None
    &&& cell(b, 1, rank) is None
    &&& cell(b, 0, rank) == Some(Piece { kind: PieceKind::Rook, color })
    &&& !attacked(b, 3, rank, color.other())
    &&& !attacked(b, 2, rank, color.other())
}

/// The castling move of a king on `from` to the file `file`.
pub open spec fn castling_move(from: Square, file: int) -> ChessMove {
    ChessMove {
        from,
        to: Square::at(file, from.rank as int),
        promotion: None,
        is_castling: true,
        is_en_passant: false,
    }
}

/// The castling moves of a king of `color` on `from`: none unless it stands
/// on its starting square and is not attacked; then the king's side first.
pub open spec fn castling_moves(b: Cells, from: Square, color: Color, rights: CastlingRights) -> Seq<
    ChessMove,
> {
    if from != Square::at(4, color.back_rank()) || attacked(
        b,
        from.file as int,
        from.rank as int,
        color.other(),
    ) {
        Seq::empty()
    } else {
        (if kingside_allowed(b, color, rights) {
            seq![castling_move(from, 6)]
        } else {
            Seq::empty()
        }) + (if queenside_allowed(b, color, rights) {
            seq![castling_move(from, 2)]
        } else {
            Seq::empty()
        })
    }
}

/// The moves of a king on `from`: its steps, then castling.
pub open spec fn king_moves(b: Cells, from: Square, color: Color, rights: CastlingRights) -> Seq<
    ChessMove,
> {
    king_steps(b, from, color) + castling_moves(b, from, color, rights)
}

/// A pawn move with a promotion.
pub open spec fn promotion_move(from: Square, to: Square, kind: PieceKind) -> ChessMove {
    ChessMove { from, to, promotion: Some(kind), is_castling: false, is_en_passant: false }
}

/// The moves that one pawn advance or capture from `from` to `to` stands
/// for: on the last rank the four promotions (queen, rook, bishop, knight),
/// elsewhere the move itself, marked as en passant if `en_passant`.
pub open spec fn pawn_entries(from: Square, to: Square, color: Color, en_passant: bool) -> Seq<
    ChessMove,
> {
    if to.rank == color.last_rank() {
        seq![
            promotion_move(from, to, PieceKind::Queen),
            promotion_move(from, to, PieceKind::Rook),
            promotion_move(from, to, PieceKind::Bishop),
            promotion_move(from, to, PieceKind::Knight),
        ]
    } else {
        seq![
            ChessMove { from, to, promotion: None, is_castling: false, is_en_passant: en_passant },
        ]
    }
}

/// The advances of a pawn of `color` on `from`: one square if that is
/// empty, and then two squares from the home rank if that is empty too.
pub open spec fn pawn_pushes(b: Cells, from: Square, color: Color) -> Seq<ChessMove> {
    let f = from.file as int;
    let r1 = from.rank + color.forward();
    let r2 = from.rank + 2 * color.forward();
    if on_board(f, r1) && cell(b, f, r1) is None {
        pawn_entries(from, Square::at(f, r1), color, false) + (if from.rank == color.home_rank()
            && on_board(f, r2) && cell(b, f, r2) is None {
            pawn_entries(from, Square::at(f, r2), color, false)
        } else {
            Seq::empty()
        })
    } else {
        Seq::empty()
    }
}

/// The captures of a pawn of `color` on `from` towards the file `df` away:
/// the capture of a piece of the other colour, then the en-passant capture
/// if the target is the en-passant square.
pub open spec fn pawn_captures(
    b: Cells,
    from: Square,
    color: Color,
    en_passant: Option<Square>,
    df: int,
) -> Seq<ChessMove> {
    let f = from.file + df;
    let r = from.rank + color.forward();
    if on_board(f, r) {
        let to = Square::at(f, r);
        (if cell(b, f, r) matches Some(p) && p.color != color {
            pawn_entries(from, to, color, false)
        } else {
            Seq::empty()
        }) + (if en_passant == Some(to) {
            pawn_entries(from, to, color, true)
        } else {
            Seq::empty()
        })
    } else {
        Seq::empty()
    }
}

/// The moves of a pawn of `color` on `from`: advances, then captures
/// towards the a-file, then captures towards the h-file.
pub open spec fn pawn_moves(b: Cells, from: Square, color: Color, en_passant: Option<Square>) -> Seq<
    ChessMove,
> {
    pawn_pushes(b, from, color) + pawn_captures(b, from, color, en_passant, -1) + pawn_captures(
        b,
        from,
        color,
        en_passant,
        1,
    )
}

/// The pseudo-legal moves of whatever stands on `from`: none unless it is a
/// piece of the side to move.
pub open spec fn piece_moves(
    b: Cells,
    from: Square,
    turn: Color,
    rights: CastlingRights,
    en_passant: Option<Square>,
) -> Seq<ChessMove> {
    match b[from.idx()] {
        Some(p) => if p.color != turn {
            Seq::empty()
        } else {
            match p.kind {
                PieceKind::King => king_moves(b, from, turn, rights),
                PieceKind::Queen => sliding_moves(b, from, turn, true, true),
                PieceKind::Rook => sliding_moves(b, from, turn, true, false),
                PieceKind::Bishop => sliding_moves(b, from, turn, false, true),
                PieceKind::Knight => knight_moves(b, from, turn),
                PieceKind::Pawn => pawn_moves(b, from, turn, en_passant),
            }
        },
        None => Seq::empty(),
    }
}

/// The pseudo-legal moves of the pieces on the first `n` squares, in index
/// order (rank by rank from the first, file by file from the a-file).
pub open spec fn pseudo_legal_upto(
    b: Cells,
    turn: Color,
    rights: CastlingRights,
    en_passant: Option<Square>,
    n: int,
) -> Seq<ChessMove>
    decreases n,
{
    if n <= 0 {
        Seq::empty()
    } else {
        pseudo_legal_upto(b, turn, rights, en_passant, n - 1) + piece_moves(
            b,
            Square::at((n - 1) % 8, (n - 1) / 8),
            turn,
            rights,
            en_passant,
        )
    }
}

/// The pseudo-legal moves of the side to move: moves that follow the
/// pieces' movement and occupancy rules, whether or not they leave the
/// mover's king attacked.
pub open spec fn pseudo_legal(
    b: Cells,
    turn: Color,
    rights: CastlingRights,
    en_passant: Option<Square>,
) -> Seq<ChessMove> {
    pseudo_legal_upto(b, turn, rights, en_passant, 64)
}

/// Appends a move that can be applied.
fn push_move(b: &Board, color: Color, moves: &mut Vec<ChessMove>, mv: ChessMove)
    requires
        applicable(b@, mv, color),
        promotes_well(mv),
    ensures
        final(moves)@ == old(moves)@ + seq![mv],
        all_applicable(b@, old(moves)@, color) ==> all_applicable(b@, final(moves)@, color),
{
    moves.push(mv);
    assert(moves@ =~= old(moves)@ + seq![mv]);
}

/// Appending is associative.
proof fn lemma_add_assoc(a: Seq<ChessMove>, b: Seq<ChessMove>, c: Seq<ChessMove>)
    ensures
        (a + b) + c == a + (b + c),
{
    assert((a + b) + c =~= a + (b + c));
}

/// Appending nothing changes nothing.
proof fn lemma_add_empty(a: Seq<ChessMove>)
    ensures
        a + Seq::<ChessMove>::empty() == a,
        Seq::<ChessMove>::empty() + a == a,
{
    assert(a + Seq::<ChessMove>::empty() =~= a);
    assert(Seq::<ChessMove>::empty() + a =~= a);
}

/// Appends the move of a piece that steps `(df, dr)` away, if it may land
/// there.
fn generate_step_move(
    board: &Board,
    from: Square,
    color: Color,
    df: i8,
    dr: i8,
    moves: &mut Vec<ChessMove>,
)
    requires
        from.wf(),
        board@[from.idx()] is Some,
    ensures
        final(moves)@ == old(moves)@ + step_moves(board@, from, color, df as int, dr as int),
        all_applicable(board@, old(moves)@, color) ==> all_applicable(
            board@,
            final(moves)@,
            color,
        ),
{
    match from.offset(df, dr) {
        Some(to) => {
            let free = match board.get(to) {
                None => true,
                Some(target) => target.color != color,
            };
            if free {
                push_move(board, color, moves, ChessMove::simple(from, to));
            } else {
                assert(moves@ =~= old(moves)@ + Seq::<ChessMove>::empty());
            }
        },
        None => {
            assert(moves@ =~= old(moves)@ + Seq::<ChessMove>::empty());
        },
    }
}

/// Appends the moves of a sliding piece along one direction.
fn generate_ray_moves(
    board: &Board,
    from: Square,
    color: Color,
    df: i8,
    dr: i8,
    moves: &mut Vec<ChessMove>,
)
    requires
        from.wf(),
        board@[from.idx()] is Some,
        is_direction(df as int, dr as int),
    ensures
        final(moves)@ == old(moves)@ + ray_moves(board@, from, color, df as int, dr as int),
        all_applicable(board@, old(moves)@, color) ==> all_applicable(
            board@,
            final(moves)@,
            color,
        ),
{
    let mut cur = from;
    assert(moves@ + ray_moves(board@, from, color, df as int, dr as int) =~= old(moves)@
        + ray_moves(board@, from, color, df as int, dr as int));
    loop
        invariant
            cur.wf(),
            from.wf(),
            board@[from.idx()] is Some,
            is_direction(df as int, dr as int),
            moves@ + slide_moves(
                board@,
                from,
                color,
                cur.file as int,
                cur.rank as int,
                df as int,
                dr as int,
            ) == old(moves)@ + ray_moves(board@, from, color, df as int, dr as int),
            all_applicable(board@, old(moves)@, color) ==> all_applicable(board@, moves@, color),
        decreases room(cur.file as int, cur.rank as int, df as int, dr as int),
    {
        let ghost before = moves@;
        let ghost rest = slide_moves(
            board@,
            from,
            color,
            cur.file as int,
            cur.rank as int,
            df as int,
            dr as int,
        );
        match cur.offset(df, dr) {
            None => {
                assert(moves@ + Seq::<ChessMove>::empty() =~= moves@);
                return ;
            },
            Some(to) => {
                match board.get(to) {
                    None => {
                        push_move(board, color, moves, ChessMove::simple(from, to));
                        cur = to;
                        assert(moves@ + slide_moves(
                            board@,
                            from,
                            color,
                            cur.file as int,
                            cur.rank as int,
                            df as int,
                            dr as int,
                        ) =~= before + rest);
                    },
                    Some(target) => {
                        if target.color != color {
                            push_move(board, color, moves, ChessMove::simple(from, to));
                        } else {
                            assert(moves@ + Seq::<ChessMove>::empty() =~= moves@);
                        }
                        return ;
                    },
                }
            },
        }
    }
}

/// Appends the moves of a sliding piece along the four directions given by
/// `diagonal`.
fn generate_line_moves(
    board: &Board,
    from: Square,
    color: Color,
    diagonal: bool,
    moves: &mut Vec<ChessMove>,
)
    requires
        from.wf(),
        board@[from.idx()] is Some,
    ensures
        final(moves)@ == old(moves)@ + (if diagonal {
            diagonal_moves(board@, from, color)
        } else {
            straight_moves(board@, from, color)
        }),
        all_applicable(board@, old(moves)@, color) ==> all_applicable(
            board@,
            final(moves)@,
            color,
        ),
{
    let ghost b = board@;
    let ghost a0 = moves@;
    if diagonal {
        generate_ray_moves(board, from, color, -1, -1, moves);
        generate_ray_moves(board, from, color, -1, 1, moves);
        generate_ray_moves(board, from, color, 1, -1, moves);
        generate_ray_moves(board, from, color, 1, 1, moves);
        proof {
            let s1 = ray_moves(b, from, color, -1, -1);
            let s2 = ray_moves(b, from, color, -1, 1);
            let s3 = ray_moves(b, from, color, 1, -1);
            let s4 = ray_moves(b, from, color, 1, 1);
            lemma_add_assoc(a0, s1, s2);
            lemma_add_assoc(a0, s1 + s2, s3);
            lemma_add_assoc(a0, s1 + s2 + s3, s4);
        }
    } else {
        generate_ray_moves(board, from, color, -1, 0, moves);
        generate_ray_moves(board, from, color, 1, 0, moves);
        generate_ray_moves(board, from, color, 0, -1, moves);
        generate_ray_moves(board, from, color, 0, 1, moves);
        proof {
            let s1 = ray_moves(b, from, color, -1, 0);
            let s2 = ray_moves(b, from, color, 1, 0);
            let s3 = ray_moves(b, from, color, 0, -1);
            let s4 = ray_moves(b, from, color, 0, 1);
            lemma_add_assoc(a0, s1, s2);
            lemma_add_assoc(a0, s1 + s2, s3);
            lemma_add_assoc(a0, s1 + s2 + s3, s4);
        }
    }
}

/// Appends the moves of a sliding piece (rook, bishop or queen) on `from`:
/// along files and ranks if `straight`, along diagonals if `diagonal`. Each
/// walk stops at the first occupied square, which is a capture if it holds
/// a piece of the other colour.
pub fn generate_sliding_moves(
    board: &Board,
    from: Square,
    color: Color,
    straight: bool,
    diagonal: bool,
    moves: &mut Vec<ChessMove>,
)
    requires
        from.wf(),
        board@[from.idx()] is Some,
    ensures
        final(moves)@ == old(moves)@ + sliding_moves(board@, from, color, straight, diagonal),
        all_applicable(board@, old(moves)@, color) ==> all_applicable(
            board@,
            final(moves)@,
            color,
        ),
{
    let ghost a0 = moves@;
    let ghost first = if straight {
        straight_moves(board@, from, color)
    } else {
        Seq::empty()
    };
    let ghost second = if diagonal {
        diagonal_moves(board@, from, color)
    } else {
        Seq::empty()
    };
    if straight {
        generate_line_moves(board, from, color, false, moves);
    } else {
        proof {
            lemma_add_empty(a0);
        }
    }
    let ghost mid = moves@;
    assert(mid == a0 + first);
    if diagonal {
        generate_line_moves(board, from, color, true, moves);
    } else {
        proof {
            lemma_add_empty(mid);
        }
    }
    assert(moves@ == mid + second);
    proof {
        lemma_add_assoc(a0, first, second);
    }
}

/// Appends the moves of a knight on `from`: the eight jumps to squares that
/// are empty or hold a piece of the other colour.
pub fn generate_knight_moves(board: &Board, from: Square, color: Color, moves: &mut Vec<ChessMove>)
    requires
        from.wf(),
        board@[from.idx()] is Some,
    ensures
        final(moves)@ == old(moves)@ + knight_moves(board@, from, color),
        all_applicable(board@, old(moves)@, color) ==> all_applicable(
            board@,
            final(moves)@,
            color,
        ),
{
    generate_step_move(board, from, color, -2, -1, moves);
    generate_step_move(board, from, color, -2, 1, moves);
    generate_step_move(board, from, color, -1, -2, moves);
    generate_step_move(board, from, color, -1, 2, moves);
    generate_step_move(board, from, color, 1, -2, moves);
    generate_step_move(board, from, color, 1, 2, moves);
    generate_step_move(board, from, color, 2, -1, moves);
    generate_step_move(board, from, color, 2, 1, moves);
    proof {
        let b = board@;
        let a0 = old(moves)@;
        let s1 = step_moves(b, from, color, -2, -1);
        let s2 = s1 + step_moves(b, from, color, -2, 1);
        let s3 = s2 + step_moves(b, from, color, -1, -2);
        let s4 = s3 + step_moves(b, from, color, -1, 2);
        let s5 = s4 + step_moves(b, from, color, 1, -2);
        let s6 = s5 + step_moves(b, from, color, 1, 2);
        let s7 = s6 + step_moves(b, from, color, 2, -1);
        lemma_add_assoc(a0, s1, step_moves(b, from, color, -2, 1));
        lemma_add_assoc(a0, s2, step_moves(b, from, color, -1, -2));
        lemma_add_assoc(a0, s3, step_moves(b, from, color, -1, 2));
        lemma_add_assoc(a0, s4, step_moves(b, from, color, 1, -2));
        lemma_add_assoc(a0, s5, step_moves(b, from, color, 1, 2));
        lemma_add_assoc(a0, s6, step_moves(b, from, color, 2, -1));
        lemma_add_assoc(a0, s7, step_moves(b, from, color, 2, 1));
    }
}

/// Appends the one-square moves of a king on `from`.
fn generate_king_steps(board: &Board, from: Square, color: Color, moves: &mut Vec<ChessMove>)
    requires
        from.wf(),
        board@[from.idx()] is Some,
    ensures
        final(moves)@ == old(moves)@ + king_steps(board@, from, color),
        all_applicable(board@, old(moves)@, color) ==> all_applicable(
            board@,
            final(moves)@,
            color,
        ),
{
    generate_step_move(board, from, color, -1, -1, moves);
    generate_step_move(board, from, color, -1, 0, moves);
    generate_step_move(board, from, color, -1, 1, moves);
    generate_step_move(board, from, color, 0, -1, moves);
    generate_step_move(board, from, color, 0, 1, moves);
    generate_step_move(board, from, color, 1, -1, moves);
    generate_step_move(board, from, color, 1, 0, moves);
    generate_step_move(board, from, color, 1, 1, moves);
    proof {
        let b = board@;
        let a0 = old(moves)@;
        let s1 = step_moves(b, from, color, -1, -1);
        let s2 = s1 + step_moves(b, from, color, -1, 0);
        let s3 = s2 + step_moves(b, from, color, -1, 1);
        let s4 = s3 + step_moves(b, from, color, 0, -1);
        let s5 = s4 + step_moves(b, from, color, 0, 1);
        let s6 = s5 + step_moves(b, from, color, 1, -1);
        let s7 = s6 + step_moves(b, from, color, 1, 0);
        lemma_add_assoc(a0, s1, step_moves(b, from, color, -1, 0));
        lemma_add_assoc(a0, s2, step_moves(b, from, color, -1, 1));
        lemma_add_assoc(a0, s3, step_moves(b, from, color, 0, -1));
        lemma_add_assoc(a0, s4, step_moves(b, from, color, 0, 1));
        lemma_add_assoc(a0, s5, step_moves(b, from, color, 1, -1));
        lemma_add_assoc(a0, s6, step_moves(b, from, color, 1, 0));
        lemma_add_assoc(a0, s7, step_moves(b, from, color, 1, 1));
    }
}

/// Tells whether castling on the king's side is allowed for a king that
/// stands on its starting square and is not in check.
fn kingside_castling_allowed(board: &Board, color: Color, castling: &CastlingRights) -> (r: bool)
    ensures
        r == kingside_allowed(board@, color, *castling),
{
    let rank: u8 = match color {
        Color::White => 0,
        Color::Black => 7,
    };
    let enemy = color.opponent();
    if !castling.for_color(color).kingside {
        return false;
    }
    let f_sq = Square { file: 5, rank };
    let g_sq = Square { file: 6, rank };
    let path_clear = board.get(f_sq).is_none() && board.get(g_sq).is_none();
    let rook_present = stands_at(
        board,
        Square { file: 7, rank },
        0,
        0,
        Piece { kind: PieceKind::Rook, color },
    );
    path_clear && rook_present && !is_square_attacked(board, f_sq, enemy) && !is_square_attacked(
        board,
        g_sq,
        enemy,
    )
}

/// Tells whether castling on the queen's side is allowed for a king that
/// stands on its starting square and is not in check.
fn queenside_castling_allowed(board: &Board, color: Color, castling: &CastlingRights) -> (r: bool)
    ensures
        r == queenside_allowed(board@, color, *castling),
{
    let rank: u8 = match color {
        Color::White => 0,
        Color::Black => 7,
    };
    let enemy = color.opponent();
    if !castling.for_color(color).queenside {
        return false;
    }
    let d_sq = Square { file: 3, rank };
    let c_sq = Square { file: 2, rank };
    let b_sq = Square { file: 1, rank };
    let path_clear = board.get(d_sq).is_none() && board.get(c_sq).is_none() && board.get(
        b_sq,
    ).is_none();
    let rook_present = stands_at(
        board,
        Square { file: 0, rank },
        0,
        0,
        Piece { kind: PieceKind::Rook, color },
    );
    path_clear && rook_present && !is_square_attacked(board, d_sq, enemy) && !is_square_attacked(
        board,
        c_sq,
        enemy,
    )
}

/// Appends the castling moves of a king on `from`.
fn generate_castling_moves(
    board: &Board,
    from: Square,
    color: Color,
    castling: &CastlingRights,
    moves: &mut Vec<ChessMove>,
)
    requires
        from.wf(),
        board@[from.idx()] is Some,
    ensures
        final(moves)@ == old(moves)@ + castling_moves(board@, from, color, *castling),
        all_applicable(board@, old(moves)@, color) ==> all_applicable(
            board@,
            final(moves)@,
            color,
        ),
{
    let ghost a0 = moves@;
    let rank: u8 = match color {
        Color::White => 0,
        Color::Black => 7,
    };
    if from.file != 4 || from.rank != rank {
        proof {
            lemma_add_empty(a0);
        }
        return ;
    }
    if is_square_attacked(board, from, color.opponent()) {
        proof {
            lemma_add_empty(a0);
        }
        return ;
    }
    let ghost first = if kingside_allowed(board@, color, *castling) {
        seq![castling_move(from, 6)]
    } else {
        Seq::empty()
    };
    let ghost second = if queenside_allowed(board@, color, *castling) {
        seq![castling_move(from, 2)]
    } else {
        Seq::empty()
    };
    if kingside_castling_allowed(board, color, castling) {
        push_move(
            board,
            color,
            moves,
            ChessMove {
                from,
                to: Square { file: 6, rank },
                promotion: None,
                is_castling: true,
                is_en_passant: false,
            },
        );
    } else {
        proof {
            lemma_add_empty(a0);
        }
    }
    let ghost mid = moves@;
    assert(mid == a0 + first);
    if queenside_castling_allowed(board, color, castling) {
        push_move(
            board,
            color,
            moves,
            ChessMove {
                from,
                to: Square { file: 2, rank },
                promotion: None,
                is_castling: true,
                is_en_passant: false,
            },
        );
    } else {
        proof {
            lemma_add_empty(mid);
        }
    }
    assert(moves@ == mid + second);
    proof {
        lemma_add_assoc(a0, first, second);
    }
}

/// Appends the moves of a king on `from`: the eight steps to squares that
/// are empty or hold a piece of the other colour, then the castling moves
/// that are allowed. Castling is allowed if the right is still held, the
/// king stands on its starting square and is not in check, the squares
/// between king and rook are empty, the rook stands on its starting
/// square, and neither the square the king passes nor the one it lands on
/// is attacked.
pub fn generate_king_moves(
    board: &Board,
    from: Square,
    color: Color,
    castling: &CastlingRights,
    moves: &mut Vec<ChessMove>,
)
    requires
        from.wf(),
        board@[from.idx()] is Some,
    ensures
        final(moves)@ == old(moves)@ + king_moves(board@, from, color, *castling),
        all_applicable(board@, old(moves)@, color) ==> all_applicable(
            board@,
            final(moves)@,
            color,
        ),
{
    generate_king_steps(board, from, color, moves);
    generate_castling_moves(board, from, color, castling, moves);
    proof {
        lemma_add_assoc(
            old(moves)@,
            king_steps(board@, from, color),
            castling_moves(board@, from, color, *castling),
        );
    }
}

/// Appends what one pawn advance or capture stands for: the four
/// promotions on the last rank, the move itself elsewhere.
fn push_pawn_entries(
    board: &Board,
    from: Square,
    to: Square,
    color: Color,
    en_passant: bool,
    moves: &mut Vec<ChessMove>,
)
    requires
        from.wf(),
        to.wf(),
        board@[from.idx()] is Some,
        to.rank == from.rank + color.forward() || to.rank == from.rank + 2 * color.forward(),
    ensures
        final(moves)@ == old(moves)@ + pawn_entries(from, to, color, en_passant),
        all_applicable(board@, old(moves)@, color) ==> all_applicable(
            board@,
            final(moves)@,
            color,
        ),
{
    if to.rank == color.promotion_rank() {
        push_move(
            board,
            color,
            moves,
            ChessMove {
                from,
                to,
                promotion: Some(PieceKind::Queen),
                is_castling: false,
                is_en_passant: false,
            },
        );
        push_move(
            board,
            color,
            moves,
            ChessMove {
                from,
                to,
                promotion: Some(PieceKind::Rook),
                is_castling: false,
                is_en_passant: false,
            },
        );
        push_move(
            board,
            color,
            moves,
            ChessMove {
                from,
                to,
                promotion: Some(PieceKind::Bishop),
                is_castling: false,
                is_en_passant: false,
            },
        );
        push_move(
            board,
            color,
            moves,
            ChessMove {
                from,
                to,
                promotion: Some(PieceKind::Knight),
                is_castling: false,
                is_en_passant: false,
            },
        );
    } else {
        push_move(
            board,
            color,
            moves,
            ChessMove { from, to, promotion: None, is_castling: false, is_en_passant: en_passant },
        );
    }
    assert(moves@ =~= old(moves)@ + pawn_entries(from, to, color, en_passant));
}

/// Appends the captures of a pawn towards the file `df` away.
fn generate_pawn_captures(
    board: &Board,
    from: Square,
    color: Color,
    en_passant: Option<Square>,
    df: i8,
    moves: &mut Vec<ChessMove>,
)
    requires
        from.wf(),
        board@[from.idx()] is Some,
    ensures
        final(moves)@ == old(moves)@ + pawn_captures(board@, from, color, en_passant, df as int),
        all_applicable(board@, old(moves)@, color) ==> all_applicable(
            board@,
            final(moves)@,
            color,
        ),
{
    let dir = color.pawn_direction();
    match from.offset(df, dir) {
        Some(to) => {
            let takes = match board.get(to) {
                Some(target) => target.color != color,
                None => false,
            };
            if takes {
                push_pawn_entries(board, from, to, color, false, moves);
            }
            let ghost mid = moves@;
            let passing = match en_passant {
                Some(ep_sq) => to.file == ep_sq.file && to.rank == ep_sq.rank,
                None => false,
            };
            if passing {
                push_pawn_entries(board, from, to, color, true, moves);
            }
            assert(moves@ =~= old(moves)@ + pawn_captures(
                board@,
                from,
                color,
                en_passant,
                df as int,
            ));
        },
        None => {
            assert(moves@ =~= old(moves)@ + Seq::<ChessMove>::empty());
        },
    }
}

/// Appends the advances of a pawn on `from`.
fn generate_pawn_pushes(board: &Board, from: Square, color: Color, moves: &mut Vec<ChessMove>)
    requires
        from.wf(),
        board@[from.idx()] is Some,
    ensures
        final(moves)@ == old(moves)@ + pawn_pushes(board@, from, color),
        all_applicable(board@, old(moves)@, color) ==> all_applicable(
            board@,
            final(moves)@,
            color,
        ),
{
    let ghost a0 = moves@;
    let dir = color.pawn_direction();
    let start_rank = color.pawn_start_rank();
    match from.offset(0, dir) {
        Some(one_ahead) => {
            if board.get(one_ahead).is_none() {
                push_pawn_entries(board, from, one_ahead, color, false, moves);
                let ghost mid = moves@;
                let ghost first = pawn_entries(from, one_ahead, color, false);
                let two: Option<Square> = if from.rank == start_rank {
                    from.offset(0, dir * 2)
                } else {
                    None
                };
                match two {
                    Some(two_ahead) => {
                        if board.get(two_ahead).is_none() {
                            push_pawn_entries(board, from, two_ahead, color, false, moves);
                            proof {
                                lemma_add_assoc(
                                    a0,
                                    first,
                                    pawn_entries(from, two_ahead, color, false),
                                );
                            }
                        } else {
                            proof {
                                lemma_add_empty(first);
                            }
                        }
                    },
                    None => {
                        proof {
                            lemma_add_empty(first);
                        }
                    },
                }
            } else {
                proof {
                    lemma_add_empty(a0);
                }
            }
        },
        None => {
            proof {
                lemma_add_empty(a0);
            }
        },
    }
}

/// Appends the moves of a pawn on `from`: the single step to an empty
/// square, the double step from the home rank over two empty squares, the
/// diagonal captures and the en-passant capture. A move that lands on the
/// last rank stands as four moves, one for each promotion.
pub fn generate_pawn_moves(
    board: &Board,
    from: Square,
    color: Color,
    en_passant: Option<Square>,
    moves: &mut Vec<ChessMove>,
)
    requires
        from.wf(),
        board@[from.idx()] is Some,
    ensures
        final(moves)@ == old(moves)@ + pawn_moves(board@, from, color, en_passant),
        all_applicable(board@, old(moves)@, color) ==> all_applicable(
            board@,
            final(moves)@,
            color,
        ),
{
    generate_pawn_pushes(board, from, color, moves);
    generate_pawn_captures(board, from, color, en_passant, -1, moves);
    generate_pawn_captures(board, from, color, en_passant, 1, moves);
    proof {
        let b = board@;
        let s1 = pawn_pushes(b, from, color);
        let s2 = pawn_captures(b, from, color, en_passant, -1);
        let s3 = pawn_captures(b, from, color, en_passant, 1);
        lemma_add_assoc(old(moves)@, s1, s2);
        lemma_add_assoc(old(moves)@, s1 + s2, s3);
    }
}

/// Generates the pseudo-legal moves of the side to move, piece by piece in
/// index order: exactly the moves that obey the movement rules. Every one
/// of them can be applied to the board.
pub fn generate_pseudo_legal_moves(
    board: &Board,
    turn: Color,
    castling: &CastlingRights,
    en_passant: Option<Square>,
) -> (moves: Vec<ChessMove>)
    ensures
        moves@ == pseudo_legal(board@, turn, *castling, en_passant),
        all_applicable(board@, moves@, turn),
        forall|m: ChessMove|
            moves@.contains(m) <==> crate::movement::obeys_movement(
                board@,
                turn,
                *castling,
                en_passant,
                m,
            ),
{
    proof {
        assert forall|m: ChessMove|
            pseudo_legal(board@, turn, *castling, en_passant).contains(m)
                <==> crate::movement::obeys_movement(board@, turn, *castling, en_passant, m) by {
            crate::movement::lemma_pseudo_legal_iff_obeys(board@, turn, *castling, en_passant, m);
        }
    }
    let mut moves: Vec<ChessMove> = Vec::new();
    let mut i: u8 = 0;
    while i < 64
        invariant
            i <= 64,
            moves@ == pseudo_legal_upto(board@, turn, *castling, en_passant, i as int),
            all_applicable(board@, moves@, turn),
        decreases 64 - i,
    {
        let from = Square { file: i % 8, rank: i / 8 };
        let ghost before = moves@;
        match board.get(from) {
            Some(p) => {
                if p.color == turn {
                    match p.kind {
                        PieceKind::King => generate_king_moves(
                            board,
                            from,
                            turn,
                            castling,
                            &mut moves,
                        ),
                        PieceKind::Queen => generate_sliding_moves(
                            board,
                            from,
                            turn,
                            true,
                            true,
                            &mut moves,
                        ),
                        PieceKind::Rook => generate_sliding_moves(
                            board,
                            from,
                            turn,
                            true,
                            false,
                            &mut moves,
                        ),
                        PieceKind::Bishop => generate_sliding_moves(
                            board,
                            from,
                            turn,
                            false,
                            true,
                            &mut moves,
                        ),
                        PieceKind::Knight => generate_knight_moves(board, from, turn, &mut moves),
                        PieceKind::Pawn => generate_pawn_moves(
                            board,
                            from,
                            turn,
                            en_passant,
                            &mut moves,
                        ),
                    }
                }
            },
            None => {},
        }
        assert(from == Square::at(i as int % 8, i as int / 8));
        assert(moves@ =~= before + piece_moves(board@, from, turn, *castling, en_passant));
        i = i + 1;
    }
    moves
}

// ---------------------------------------------------------------------------
// The legality filter
// ---------------------------------------------------------------------------
/// After the move, the mover's king is not attacked.
pub open spec fn keeps_king_safe(b: Cells, mv: ChessMove, turn: Color) -> bool {
    !in_check(applied(b, mv, turn), turn)
}

/// The moves of a sequence that keep the mover's king safe, in their order.
pub open spec fn safe_moves(b: Cells, turn: Color, s: Seq<ChessMove>) -> Seq<ChessMove>
    decreases s.len(),
{
    if s.len() == 0 {
        Seq::empty()
    } else if keeps_king_safe(b, s.last(), turn) {
        safe_moves(b, turn, s.drop_last()).push(s.last())
    } else {
        safe_moves(b, turn, s.drop_last())
    }
}

/// The legal moves of the side to move: the pseudo-legal moves after which
/// the mover's king is not attacked, in the order of their generation.
pub open spec fn legal_moves(
    b: Cells,
    turn: Color,
    rights: CastlingRights,
    en_passant: Option<Square>,
) -> Seq<ChessMove> {
    safe_moves(b, turn, pseudo_legal(b, turn, rights, en_passant))
}

/// A move is among the safe moves of a sequence exactly if it is in the
/// sequence and keeps the mover's king safe.
pub proof fn lemma_safe_moves_contain(b: Cells, turn: Color, s: Seq<ChessMove>, m: ChessMove)
    ensures
        safe_moves(b, turn, s).contains(m) <==> s.contains(m) && keeps_king_safe(b, m, turn),
    decreases s.len(),
{
    if s.len() > 0 {
        let front = s.drop_last();
        let kept = safe_moves(b, turn, front);
        lemma_safe_moves_contain(b, turn, front, m);
        if s.contains(m) {
            let i = choose|i: int| 0 <= i < s.len() && s[i] == m;
            if i < front.len() {
                assert(front[i] == m);
            }
        }
        if front.contains(m) {
            let i = choose|i: int| 0 <= i < front.len() && front[i] == m;
            assert(s[i] == m);
        }
        if keeps_king_safe(b, s.last(), turn) {
            let all = kept.push(s.last());
            if all.contains(m) {
                let i = choose|i: int| 0 <= i < all.len() && all[i] == m;
                if i < kept.len() {
                    assert(kept[i] == m);
                } else {
                    assert(s[s.len() - 1] == m);
                }
            }
            if kept.contains(m) {
                let i = choose|i: int| 0 <= i < kept.len() && kept[i] == m;
                assert(all[i] == m);
            }
            if m == s.last() {
                assert(all[kept.len() as int] == m);
                assert(s[s.len() - 1] == m);
            }
        } else {
            if m == s.last() {
            }
        }
    }
}

/// A move is legal exactly if it is pseudo-legal and, after it, the
/// mover's king is not attacked.
pub proof fn lemma_legal_iff_safe(
    b: Cells,
    turn: Color,
    rights: CastlingRights,
    en_passant: Option<Square>,
    m: ChessMove,
)
    ensures
        legal_moves(b, turn, rights, en_passant).contains(m) <==> pseudo_legal(
            b,
            turn,
            rights,
            en_passant,
        ).contains(m) && !in_check(applied(b, m, turn), turn),
{
    lemma_safe_moves_contain(b, turn, pseudo_legal(b, turn, rights, en_passant), m);
}

/// Generates all legal moves of the position: exactly the moves that obey
/// the movement rules and do not leave the mover's own king attacked, in
/// the order of their generation, each once unless a piece stands on the
/// en-passant square.
pub fn generate_legal_moves(
    board: &Board,
    turn: Color,
    castling: &CastlingRights,
    en_passant: Option<Square>,
) -> (moves: Vec<ChessMove>)
    ensures
        moves@ == legal_moves(board@, turn, *castling, en_passant),
        all_applicable(board@, moves@, turn),
        forall|m: ChessMove|
            moves@.contains(m) <==> crate::movement::is_legal(
                board@,
                turn,
                *castling,
                en_passant,
                m,
            ),
        (en_passant matches Some(e) ==> cell(board@, e.file as int, e.rank as int) is None)
            ==> moves@.no_duplicates(),
{
    let pseudo = generate_pseudo_legal_moves(board, turn, castling, en_passant);
    proof {
        if en_passant matches Some(e) ==> cell(board@, e.file as int, e.rank as int) is None {
            crate::movement::lemma_moves_distinct(board@, turn, *castling, en_passant);
        }
        assert forall|m: ChessMove|
            legal_moves(board@, turn, *castling, en_passant).contains(m)
                <==> crate::movement::is_legal(board@, turn, *castling, en_passant, m) by {
            crate::movement::lemma_legal_moves_are_the_legal(
                board@,
                turn,
                *castling,
                en_passant,
                m,
            );
        }
    }
    let mut legal: Vec<ChessMove> = Vec::new();
    let mut i: usize = 0;
    while i < pseudo.len()
        invariant
            i <= pseudo.len(),
            all_applicable(board@, pseudo@, turn),
            all_applicable(board@, legal@, turn),
            legal@ == safe_moves(board@, turn, pseudo@.take(i as int)),
        decreases pseudo.len() - i,
    {
        let mv = pseudo[i];
        let mut test_board = *board;
        apply_move_to_board(&mut test_board, &mv, turn);
        assert(pseudo@.take(i + 1).drop_last() =~= pseudo@.take(i as int));
        if !is_in_check(&test_board, turn) {
            legal.push(mv);
        }
        i = i + 1;
    }
    assert(pseudo@.take(i as int) =~= pseudo@);
    legal
}


// ---------------------------------------------------------------------------
// Insufficient material
// ---------------------------------------------------------------------------
/// The cell holds a piece of `color` that is not a king.
pub open spec fn is_other(c: Option<Piece>, color: Color) -> bool {
    c matches Some(p) && p.color == color && p.kind != PieceKind::King
}

/// The number of pieces of `color` other than kings on the first `n` cells.
pub open spec fn count_others(b: Cells, color: Color, n: int) -> int
    decreases n,
{
    if n <= 0 {
        0
    } else {
        count_others(b, color, n - 1) + (if is_other(b[n - 1], color) {
            1int
        } else {
            0int
        })
    }
}

/// The lowest index at or after `i` of a piece of `color` other than a
/// king, or 64 if there is none.
pub open spec fn first_other(b: Cells, color: Color, i: int) -> int
    decreases 64 - i,
{
    if i >= 64 || i < 0 {
        64
    } else if is_other(b[i], color) {
        i
    } else {
        first_other(b, color, i + 1)
    }
}

/// Whether the cell of an index is a dark square.
pub open spec fn shade(i: int) -> int {
    (i % 8 + i / 8) % 2
}

/// A bishop or a knight.
pub open spec fn is_minor(k: PieceKind) -> bool {
    k == PieceKind::Bishop || k == PieceKind::Knight
}

/// Neither side can give mate with what is on the board. Leaving kings
/// aside, that is so when the board holds nothing, or a single bishop or
/// knight, or one bishop of each colour with both on squares of the same
/// shade. Any pawn, rook, queen or richer material is sufficient.
pub open spec fn insufficient_material(b: Cells) -> bool {
    let wc = count_others(b, Color::White, 64);
    let bc = count_others(b, Color::Black, 64);
    let wi = first_other(b, Color::White, 0);
    let bi = first_other(b, Color::Black, 0);
    ||| wc == 0 && bc == 0
    ||| wc == 0 && bc == 1 && is_minor(b[bi].unwrap().kind)
    ||| bc == 0 && wc == 1 && is_minor(b[wi].unwrap().kind)
    ||| wc == 1 && bc == 1 && b[wi].unwrap().kind == PieceKind::Bishop && b[bi].unwrap().kind
        == PieceKind::Bishop && shade(wi) == shade(bi)
}

/// A side with a piece other than its king has a first one.
pub proof fn lemma_first_other(b: Cells, color: Color, i: int)
    requires
        0 <= i <= 64,
    ensures
        i <= first_other(b, color, i) <= 64,
        first_other(b, color, i) < 64 ==> is_other(b[first_other(b, color, i)], color),
        forall|j: int| i <= j < first_other(b, color, i) ==> !is_other(b[j], color),
    decreases 64 - i,
{
    if i < 64 && !is_other(b[i], color) {
        lemma_first_other(b, color, i + 1);
    }
}

/// What the scan of one side's material finds: how many pieces other than
/// the king (counted up to 2), and the kind and index of the first.
struct Material {
    count: u8,
    kind: PieceKind,
    index: u8,
}

/// Scans the board for the pieces of `color` other than its king.
fn scan_material(board: &Board, color: Color) -> (m: Material)
    ensures
        m.count <= 2,
        m.count < 2 ==> m.count == count_others(board@, color, 64),
        m.count == 2 ==> count_others(board@, color, 64) >= 2,
        m.count >= 1 ==> m.index == first_other(board@, color, 0) && m.index < 64
            && board@[m.index as int] == Some(Piece { kind: m.kind, color }),
{
    let mut m = Material { count: 0, kind: PieceKind::Pawn, index: 0 };
    let mut i: u8 = 0;
    while i < 64
        invariant
            i <= 64,
            m.count <= 2,
            m.count < 2 ==> m.count == count_others(board@, color, i as int),
            m.count == 2 ==> count_others(board@, color, i as int) >= 2,
            m.count == 0 ==> first_other(board@, color, 0) == first_other(board@, color, i as int),
            m.count >= 1 ==> m.index == first_other(board@, color, 0) && m.index < 64
                && board@[m.index as int] == Some(Piece { kind: m.kind, color }),
        decreases 64 - i,
    {
        match board.get(Square { file: i % 8, rank: i / 8 }) {
            Some(p) => {
                if p.color == color && p.kind != PieceKind::King {
                    if m.count == 0 {
                        m = Material { count: 1, kind: p.kind, index: i };
                    } else if m.count == 1 {
                        m = Material { count: 2, kind: m.kind, index: m.index };
                    }
                }
            },
            None => {},
        }
        i = i + 1;
    }
    m
}

/// Checks whether the position has insufficient material for checkmate:
/// king against king, king and one bishop or knight against king, or king
/// and bishop against king and bishop with both bishops on squares of the
/// same shade.
pub fn is_insufficient_material(board: &Board) -> (r: bool)
    ensures
        r == insufficient_material(board@),
{
    let w = scan_material(board, Color::White);
    let b = scan_material(board, Color::Black);
    if w.count == 0 && b.count == 0 {
        return true;
    }
    if w.count == 0 && b.count == 1 {
        if b.kind == PieceKind::Bishop || b.kind == PieceKind::Knight {
            return true;
        }
    }
    if b.count == 0 && w.count == 1 {
        if w.kind == PieceKind::Bishop || w.kind == PieceKind::Knight {
            return true;
        }
    }
    if w.count == 1 && b.count == 1 {
        if w.kind == PieceKind::Bishop && b.kind == PieceKind::Bishop {
            let ws: u8 = (w.index % 8 + w.index / 8) % 2;
            let bs: u8 = (b.index % 8 + b.index / 8) % 2;
            if ws == bs {
                return true;
            }
        }
    }
    false
}

// ---------------------------------------------------------------------------
// Matching a submitted move
// ---------------------------------------------------------------------------
/// The move is the one asked for by source, target and promotion.
pub open spec fn answers(m: ChessMove, from: Square, to: Square, promotion: Option<PieceKind>) -> bool {
    m.from == from && m.to == to && m.promotion == promotion
}

/// The first move of the sequence, at or after index `i`, that is the one
/// asked for.
pub open spec fn first_match(
    s: Seq<ChessMove>,
    from: Square,
    to: Square,
    promotion: Option<PieceKind>,
    i: int,
) -> Option<ChessMove>
    decreases s.len() - i,
{
    if i < 0 || i >= s.len() {
        None
    } else if answers(s[i], from, to, promotion) {
        Some(s[i])
    } else {
        first_match(s, from, to, promotion, i + 1)
    }
}

/// The moves of a sequence that start on `from`, in their order.
pub open spec fn moves_from(s: Seq<ChessMove>, from: Square) -> Seq<ChessMove>
    decreases s.len(),
{
    if s.len() == 0 {
        Seq::empty()
    } else if s.last().from == from {
        moves_from(s.drop_last(), from).push(s.last())
    } else {
        moves_from(s.drop_last(), from)
    }
}

/// What a submitted move resolves to in a position. In this order: the
/// source, the target and the promotion must be readable; a piece of the
/// side to move must stand on the source; and the move is the first legal
/// move with that source, target and promotion. If there is none, the
/// error names the piece on the source and lists the legal moves from
/// there.
pub open spec fn resolve(
    b: Cells,
    turn: Color,
    rights: CastlingRights,
    en_passant: Option<Square>,
    t: MoveText,
) -> Result<ChessMove, MoveFault> {
    match ChessMove::read(t) {
        Err(e) => Err(e),
        Ok(asked) => match b[asked.from.idx()] {
            None => Err(MoveFault::NoPiece),
            Some(p) => if p.color != turn {
                Err(MoveFault::WrongColor { turn })
            } else {
                let legal = legal_moves(b, turn, rights, en_passant);
                match first_match(legal, asked.from, asked.to, asked.promotion, 0) {
                    Some(m) => Ok(m),
                    None => Err(
                        MoveFault::Illegal { piece: p, available: moves_from(legal, asked.from) },
                    ),
                }
            },
        },
    }
}

/// What `first_match` finds is a move of the sequence and the one asked
/// for.
pub proof fn lemma_first_match(
    s: Seq<ChessMove>,
    from: Square,
    to: Square,
    promotion: Option<PieceKind>,
    i: int,
)
    requires
        0 <= i <= s.len(),
    ensures
        first_match(s, from, to, promotion, i) matches Some(m) ==> answers(m, from, to, promotion)
            && exists|k: int| i <= k < s.len() && s[k] == m,
        first_match(s, from, to, promotion, i) is None ==> forall|k: int|
            i <= k < s.len() ==> !answers(#[trigger] s[k], from, to, promotion),
    decreases s.len() - i,
{
    if i < s.len() && !answers(s[i], from, to, promotion) {
        lemma_first_match(s, from, to, promotion, i + 1);
    }
}

/// Returns the moves of the list that start on `from`.
fn collect_moves_from(moves: &Vec<ChessMove>, from: Square) -> (r: Vec<ChessMove>)
    ensures
        r@ == moves_from(moves@, from),
{
    let mut out: Vec<ChessMove> = Vec::new();
    let mut i: usize = 0;
    while i < moves.len()
        invariant
            i <= moves.len(),
            out@ == moves_from(moves@.take(i as int), from),
        decreases moves.len() - i,
    {
        let m = moves[i];
        assert(moves@.take(i + 1).drop_last() =~= moves@.take(i as int));
        if m.from.file == from.file && m.from.rank == from.rank {
            out.push(m);
        }
        i = i + 1;
    }
    assert(moves@.take(i as int) =~= moves@);
    out
}

/// Finds the legal move that a submitted move stands for: the legal move
/// with the same source, target and promotion. Castling and en passant
/// need no flag in the submitted move; they are found by their squares.
pub fn find_matching_legal_move(
    board: &Board,
    turn: Color,
    castling: &CastlingRights,
    en_passant: Option<Square>,
    move_json: &MoveJson,
) -> (r: Result<ChessMove, MoveError>)
    ensures
        match r {
            Ok(m) => resolve(board@, turn, *castling, en_passant, move_json@) == Ok::<
                ChessMove,
                MoveFault,
            >(m) && applicable(board@, m, turn),
            Err(e) => resolve(board@, turn, *castling, en_passant, move_json@) == Err::<
                ChessMove,
                MoveFault,
            >(e@),
        },
{
    let asked = match ChessMove::from_json(move_json) {
        Ok(m) => m,
        Err(e) => {
            return Err(e);
        },
    };
    let piece = match board.get(asked.from) {
        None => {
            return Err(MoveError::NoPiece);
        },
        Some(piece) => piece,
    };
    if piece.color != turn {
        return Err(MoveError::WrongColor { turn });
    }
    let legal = generate_legal_moves(board, turn, castling, en_passant);
    let mut i: usize = 0;
    while i < legal.len()
        invariant
            i <= legal.len(),
            all_applicable(board@, legal@, turn),
            resolve(board@, turn, *castling, en_passant, move_json@) == (match first_match(
                legal@,
                asked.from,
                asked.to,
                asked.promotion,
                0,
            ) {
                Some(m) => Ok::<ChessMove, MoveFault>(m),
                None => Err::<ChessMove, MoveFault>(
                    MoveFault::Illegal { piece, available: moves_from(legal@, asked.from) },
                ),
            }),
            first_match(legal@, asked.from, asked.to, asked.promotion, 0) == first_match(
                legal@,
                asked.from,
                asked.to,
                asked.promotion,
                i as int,
            ),
        decreases legal.len() - i,
    {
        let m = legal[i];
        let same_promotion = match (m.promotion, asked.promotion) {
            (None, None) => true,
            (Some(a), Some(b)) => a == b,
            _ => false,
        };
        if m.from.file == asked.from.file && m.from.rank == asked.from.rank && m.to.file
            == asked.to.file && m.to.rank == asked.to.rank && same_promotion {
            assert(m == legal@[i as int]);
            return Ok(m);
        }
        i = i + 1;
    }
    Err(MoveError::Illegal { piece, available: collect_moves_from(&legal, asked.from) })
}

} // verus!
