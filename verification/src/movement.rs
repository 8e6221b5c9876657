//! The movement rules of the pieces, stated move by move, and the proof
//! that move generation produces exactly the moves that obey them.

use crate::movegen::{
    applied, attacked, can_land, castling_move, castling_moves, diagonal_hit, diagonal_moves,
    first_on_ray, in_check, is_direction, king_moves, king_near, king_steps, kingside_allowed,
    knight_moves, knight_near, legal_moves, lemma_first_on_ray_found, lemma_legal_iff_safe,
    lemma_safe_moves_contain, line_piece, pawn_captures, pawn_entries, pawn_moves, pawn_near,
    pawn_pushes, piece_moves, promotion_move, pseudo_legal, pseudo_legal_upto, queenside_allowed,
    ray_cell, ray_moves, room, safe_moves, slide_moves, sliding_moves, step_moves, steps,
    straight_hit, straight_moves,
};
use crate::types::{
    cell, on_board, square_at_index, CastlingRights, Cells, ChessMove, Color, PieceKind, Square,
};
use vstd::prelude::*;

verus! {

/// A move that is no castling, no en-passant capture and no promotion.
pub open spec fn is_plain(m: ChessMove) -> bool {
    !m.is_castling && !m.is_en_passant && m.promotion is None
}

/// The squares at 1 to `k - 1` steps from `(f, r)` along `(df, dr)` are
/// empty.
pub open spec fn clear_before(b: Cells, f: int, r: int, df: int, dr: int, k: int) -> bool {
    forall|j: int| 1 <= j < k ==> (#[trigger] ray_cell(b, f, r, df, dr, j)) is None
}

/// The square `to` lies `k` steps from `from` along the direction
/// `(df, dr)`, with only empty squares between them.
pub open spec fn slides(b: Cells, from: Square, to: Square, df: int, dr: int, k: int) -> bool {
    &&& is_direction(df, dr)
    &&& k >= 1
    &&& to.file == from.file + steps(df, k)
    &&& to.rank == from.rank + steps(dr, k)
    &&& clear_before(b, from.file as int, from.rank as int, df, dr, k)
}

/// A piece that slides along files and ranks reaches `to` from `from`.
pub open spec fn slides_straight(b: Cells, from: Square, to: Square) -> bool {
    exists|df: int, dr: int, k: int|
        #[trigger] slides(b, from, to, df, dr, k) && (df == 0 || dr == 0)
}

/// A piece that slides along diagonals reaches `to` from `from`.
pub open spec fn slides_diagonally(b: Cells, from: Square, to: Square) -> bool {
    exists|df: int, dr: int, k: int|
        #[trigger] slides(b, from, to, df, dr, k) && df != 0 && dr != 0
}

/// A knight's jump.
pub open spec fn knight_jump(df: int, dr: int) -> bool {
    ||| (df == 1 || df == -1) && (dr == 2 || dr == -2)
    ||| (df == 2 || df == -2) && (dr == 1 || dr == -1)
}

/// The rule of a king's move: a step to an adjacent square that is empty
/// or holds a piece of the other colour; or castling, from the king's
/// starting square and out of no check, to the g-file or the c-file where
/// that is allowed.
pub open spec fn king_rule(b: Cells, turn: Color, rights: CastlingRights, m: ChessMove) -> bool {
    let df = m.to.file - m.from.file;
    let dr = m.to.rank - m.from.rank;
    let rank = turn.back_rank();
    ||| is_plain(m) && is_direction(df, dr) && can_land(
        b,
        m.to.file as int,
        m.to.rank as int,
        turn,
    )
    ||| {
        &&& m.is_castling
        &&& !m.is_en_passant
        &&& m.promotion is None
        &&& m.from == Square::at(4, rank)
        &&& !attacked(b, 4, rank, turn.other())
        &&& (m.to == Square::at(6, rank) && kingside_allowed(b, turn, rights)) || (m.to
            == Square::at(2, rank) && queenside_allowed(b, turn, rights))
    }
}

/// The rule of a pawn's move: one square forward to an empty square; two
/// squares forward from the home rank over two empty squares; one square
/// diagonally forward to a square that holds a piece of the other colour,
/// or that is the en-passant square. A move to the last rank is a
/// promotion to a queen, rook, bishop or knight, and no other move is a
/// promotion. Only a capture on the en-passant square is marked as en
/// passant, and it is unless it is a promotion.
pub open spec fn pawn_rule(b: Cells, turn: Color, en_passant: Option<Square>, m: ChessMove) -> bool {
    let dir = turn.forward();
    let f = m.from.file as int;
    let r = m.from.rank as int;
    let tf = m.to.file as int;
    let tr = m.to.rank as int;
    let advance = tf == f && tr == r + dir && cell(b, tf, tr) is None;
    let double = tf == f && tr == r + 2 * dir && r == turn.home_rank() && cell(b, f, r + dir)
         is None && cell(b, tf, tr) is None;
    let diagonal = (tf == f + 1 || tf == f - 1) && tr == r + dir;
    let capture = diagonal && (cell(b, tf, tr) matches Some(p) && p.color != turn);
    let passing = diagonal && en_passant == Some(m.to);
    &&& !m.is_castling
    &&& if tr == turn.last_rank() {
        (m.promotion matches Some(k) && k.is_promotion_target()) && !m.is_en_passant
    } else {
        m.promotion is None
    }
    &&& advance || double || capture || passing
    &&& m.is_en_passant ==> passing
    &&& (!m.is_en_passant && tr != turn.last_rank()) ==> advance || double || capture
}

/// The move obeys the movement rules: it moves a piece of the side to move
/// as that piece moves, onto the board and not onto a piece of its own
/// colour. Whether it leaves the mover's king attacked is not asked.
pub open spec fn obeys_movement(
    b: Cells,
    turn: Color,
    rights: CastlingRights,
    en_passant: Option<Square>,
    m: ChessMove,
) -> bool {
    let df = m.to.file - m.from.file;
    let dr = m.to.rank - m.from.rank;
    let lands = can_land(b, m.to.file as int, m.to.rank as int, turn);
    &&& m.wf()
    &&& match b[m.from.idx()] {
        None => false,
        Some(p) => p.color == turn && match p.kind {
            PieceKind::King => king_rule(b, turn, rights, m),
            PieceKind::Queen => is_plain(m) && lands && (slides_straight(b, m.from, m.to)
                || slides_diagonally(b, m.from, m.to)),
            PieceKind::Rook => is_plain(m) && lands && slides_straight(b, m.from, m.to),
            PieceKind::Bishop => is_plain(m) && lands && slides_diagonally(b, m.from, m.to),
            PieceKind::Knight => is_plain(m) && lands && knight_jump(df, dr),
            PieceKind::Pawn => pawn_rule(b, turn, en_passant, m),
        },
    }
}

// ---------------------------------------------------------------------------
// Generated moves obey the rules
// ---------------------------------------------------------------------------
/// A move is in a sequence of two parts exactly if it is in one of them.
pub proof fn lemma_contains_add(a: Seq<ChessMove>, b: Seq<ChessMove>, m: ChessMove)
    ensures
        (a + b).contains(m) <==> a.contains(m) || b.contains(m),
{
    if a.contains(m) {
        let i = choose|i: int| 0 <= i < a.len() && a[i] == m;
        assert((a + b)[i] == m);
    }
    if b.contains(m) {
        let i = choose|i: int| 0 <= i < b.len() && b[i] == m;
        assert((a + b)[a.len() + i] == m);
    }
    if (a + b).contains(m) {
        let i = choose|i: int| 0 <= i < (a + b).len() && (a + b)[i] == m;
        if i < a.len() {
            assert(a[i] == m);
        } else {
            assert(b[i - a.len()] == m);
        }
    }
}

/// The one move of a sequence of one move.
pub proof fn lemma_contains_one(x: ChessMove, m: ChessMove)
    ensures
        seq![x].contains(m) <==> x == m,
{
    if x == m {
        assert(seq![x][0] == m);
    }
}

/// No move is in the empty sequence.
pub proof fn lemma_contains_none(m: ChessMove)
    ensures
        !Seq::<ChessMove>::empty().contains(m),
{
}

/// A generated step is the plain move to the square that many files and
/// ranks away, which lies on the board and holds no piece of the mover's
/// colour.
pub proof fn lemma_step_member(b: Cells, from: Square, color: Color, df: int, dr: int, m: ChessMove)
    requires
        from.wf(),
    ensures
        step_moves(b, from, color, df, dr).contains(m) <==> m == ChessMove::plain(
            from,
            Square::at(from.file + df, from.rank + dr),
        ) && can_land(b, from.file + df, from.rank + dr, color),
{
    let x = ChessMove::plain(from, Square::at(from.file + df, from.rank + dr));
    lemma_contains_one(x, m);
    lemma_contains_none(m);
}

/// A generated slide from `from`, continued from `(f, r)`, is the plain
/// move to a square some steps further on, with only empty squares between
/// `(f, r)` and it, that holds no piece of the mover's colour.
pub proof fn lemma_slide_member(
    b: Cells,
    from: Square,
    color: Color,
    f: int,
    r: int,
    df: int,
    dr: int,
    m: ChessMove,
) -> (k: int)
    requires
        is_direction(df, dr),
        on_board(f, r),
        slide_moves(b, from, color, f, r, df, dr).contains(m),
    ensures
        k >= 1,
        on_board(f + steps(df, k), r + steps(dr, k)),
        m == ChessMove::plain(from, Square::at(f + steps(df, k), r + steps(dr, k))),
        clear_before(b, f, r, df, dr, k),
        can_land(b, f + steps(df, k), r + steps(dr, k), color),
    decreases room(f, r, df, dr),
{
    lemma_contains_none(m);
    let f1 = f + df;
    let r1 = r + dr;
    let first = ChessMove::plain(from, Square::at(f1, r1));
    lemma_contains_one(first, m);
    match cell(b, f1, r1) {
        None => {
            let rest = slide_moves(b, from, color, f1, r1, df, dr);
            lemma_contains_add(seq![first], rest, m);
            if m == first {
                1
            } else {
                let k1 = lemma_slide_member(b, from, color, f1, r1, df, dr, m);
                assert forall|j: int| 1 <= j < k1 + 1 implies (#[trigger] ray_cell(
                    b,
                    f,
                    r,
                    df,
                    dr,
                    j,
                )) is None by {
                    if j == 1 {
                        assert(ray_cell(b, f, r, df, dr, 1) == cell(b, f1, r1));
                    } else {
                        assert(ray_cell(b, f, r, df, dr, j) == ray_cell(b, f1, r1, df, dr, j - 1));
                    }
                }
                k1 + 1
            }
        },
        Some(p) => { 1 },
    }
}

/// A plain move to a square that is reached by a slide is generated.
pub proof fn lemma_slide_generated(
    b: Cells,
    from: Square,
    color: Color,
    f: int,
    r: int,
    df: int,
    dr: int,
    k: int,
)
    requires
        is_direction(df, dr),
        on_board(f, r),
        k >= 1,
        on_board(f + steps(df, k), r + steps(dr, k)),
        clear_before(b, f, r, df, dr, k),
        can_land(b, f + steps(df, k), r + steps(dr, k), color),
    ensures
        slide_moves(b, from, color, f, r, df, dr).contains(
            ChessMove::plain(from, Square::at(f + steps(df, k), r + steps(dr, k))),
        ),
    decreases k,
{
    let f1 = f + df;
    let r1 = r + dr;
    let m = ChessMove::plain(from, Square::at(f + steps(df, k), r + steps(dr, k)));
    let first = ChessMove::plain(from, Square::at(f1, r1));
    assert(on_board(f1, r1));
    lemma_contains_one(first, m);
    if k == 1 {
        match cell(b, f1, r1) {
            None => {
                lemma_contains_add(seq![first], slide_moves(b, from, color, f1, r1, df, dr), m);
            },
            Some(p) => {},
        }
    } else {
        assert(ray_cell(b, f, r, df, dr, 1) is None);
        assert(cell(b, f1, r1) is None);
        assert forall|j: int| 1 <= j < k - 1 implies (#[trigger] ray_cell(
            b,
            f1,
            r1,
            df,
            dr,
            j,
        )) is None by {
            assert(ray_cell(b, f1, r1, df, dr, j) == ray_cell(b, f, r, df, dr, j + 1));
        }
        lemma_slide_generated(b, from, color, f1, r1, df, dr, k - 1);
        lemma_contains_add(seq![first], slide_moves(b, from, color, f1, r1, df, dr), m);
    }
}

/// A move is generated along one direction exactly if it is the plain move
/// to a square that a slide along that direction reaches and on which the
/// piece may land.
pub proof fn lemma_ray_member(b: Cells, from: Square, color: Color, df: int, dr: int, m: ChessMove)
    requires
        from.wf(),
        is_direction(df, dr),
    ensures
        ray_moves(b, from, color, df, dr).contains(m) <==> m == ChessMove::plain(from, m.to)
            && m.to.wf() && can_land(b, m.to.file as int, m.to.rank as int, color) && exists|
            k: int,
        | #[trigger] slides(b, from, m.to, df, dr, k),
{
    let f = from.file as int;
    let r = from.rank as int;
    if ray_moves(b, from, color, df, dr).contains(m) {
        let k = lemma_slide_member(b, from, color, f, r, df, dr, m);
        assert(slides(b, from, m.to, df, dr, k));
    }
    if m == ChessMove::plain(from, m.to) && m.to.wf() && can_land(
        b,
        m.to.file as int,
        m.to.rank as int,
        color,
    ) && exists|k: int| #[trigger] slides(b, from, m.to, df, dr, k) {
        let k = choose|k: int| #[trigger] slides(b, from, m.to, df, dr, k);
        lemma_slide_generated(b, from, color, f, r, df, dr, k);
        assert(Square::at(f + steps(df, k), r + steps(dr, k)) == m.to);
    }
}


/// The square of a move's target, written out, is the target.
proof fn lemma_square_at(sq: Square)
    requires
        sq.wf(),
    ensures
        Square::at(sq.file as int, sq.rank as int) == sq,
{
}

/// A move is generated for a piece that slides along files and ranks
/// exactly if it is the plain move to a square that such a slide reaches
/// and on which the piece may land.
pub proof fn lemma_straight_member(b: Cells, from: Square, color: Color, m: ChessMove)
    requires
        from.wf(),
    ensures
        straight_moves(b, from, color).contains(m) <==> m == ChessMove::plain(from, m.to)
            && m.to.wf() && can_land(b, m.to.file as int, m.to.rank as int, color)
            && slides_straight(b, from, m.to),
{
    let s1 = ray_moves(b, from, color, -1, 0);
    let s2 = ray_moves(b, from, color, 1, 0);
    let s3 = ray_moves(b, from, color, 0, -1);
    let s4 = ray_moves(b, from, color, 0, 1);
    lemma_contains_add(s1, s2, m);
    lemma_contains_add(s1 + s2, s3, m);
    lemma_contains_add(s1 + s2 + s3, s4, m);
    lemma_ray_member(b, from, color, -1, 0, m);
    lemma_ray_member(b, from, color, 1, 0, m);
    lemma_ray_member(b, from, color, 0, -1, m);
    lemma_ray_member(b, from, color, 0, 1, m);
    if straight_moves(b, from, color).contains(m) {
        if s1.contains(m) {
            let k = choose|k: int| #[trigger] slides(b, from, m.to, -1, 0, k);
            assert(slides(b, from, m.to, -1, 0, k) && (-1 == 0int || 0 == 0int));
        } else if s2.contains(m) {
            let k = choose|k: int| #[trigger] slides(b, from, m.to, 1, 0, k);
            assert(slides(b, from, m.to, 1, 0, k) && (1 == 0int || 0 == 0int));
        } else if s3.contains(m) {
            let k = choose|k: int| #[trigger] slides(b, from, m.to, 0, -1, k);
            assert(slides(b, from, m.to, 0, -1, k) && (0 == 0int || -1 == 0int));
        } else {
            let k = choose|k: int| #[trigger] slides(b, from, m.to, 0, 1, k);
            assert(slides(b, from, m.to, 0, 1, k) && (0 == 0int || 1 == 0int));
        }
    }
    if slides_straight(b, from, m.to) {
        let (df, dr, k) = choose|df: int, dr: int, k: int|
            #[trigger] slides(b, from, m.to, df, dr, k) && (df == 0 || dr == 0);
        assert(slides(b, from, m.to, df, dr, k));
    }
}

/// A move is generated for a piece that slides along diagonals exactly if
/// it is the plain move to a square that such a slide reaches and on which
/// the piece may land.
pub proof fn lemma_diagonal_member(b: Cells, from: Square, color: Color, m: ChessMove)
    requires
        from.wf(),
    ensures
        diagonal_moves(b, from, color).contains(m) <==> m == ChessMove::plain(from, m.to)
            && m.to.wf() && can_land(b, m.to.file as int, m.to.rank as int, color)
            && slides_diagonally(b, from, m.to),
{
    let s1 = ray_moves(b, from, color, -1, -1);
    let s2 = ray_moves(b, from, color, -1, 1);
    let s3 = ray_moves(b, from, color, 1, -1);
    let s4 = ray_moves(b, from, color, 1, 1);
    lemma_contains_add(s1, s2, m);
    lemma_contains_add(s1 + s2, s3, m);
    lemma_contains_add(s1 + s2 + s3, s4, m);
    lemma_ray_member(b, from, color, -1, -1, m);
    lemma_ray_member(b, from, color, -1, 1, m);
    lemma_ray_member(b, from, color, 1, -1, m);
    lemma_ray_member(b, from, color, 1, 1, m);
    if diagonal_moves(b, from, color).contains(m) {
        if s1.contains(m) {
            let k = choose|k: int| #[trigger] slides(b, from, m.to, -1, -1, k);
            assert(slides(b, from, m.to, -1, -1, k) && -1 != 0int && -1 != 0int);
        } else if s2.contains(m) {
            let k = choose|k: int| #[trigger] slides(b, from, m.to, -1, 1, k);
            assert(slides(b, from, m.to, -1, 1, k) && -1 != 0int && 1 != 0int);
        } else if s3.contains(m) {
            let k = choose|k: int| #[trigger] slides(b, from, m.to, 1, -1, k);
            assert(slides(b, from, m.to, 1, -1, k) && 1 != 0int && -1 != 0int);
        } else {
            let k = choose|k: int| #[trigger] slides(b, from, m.to, 1, 1, k);
            assert(slides(b, from, m.to, 1, 1, k) && 1 != 0int && 1 != 0int);
        }
    }
    if slides_diagonally(b, from, m.to) {
        let (df, dr, k) = choose|df: int, dr: int, k: int|
            #[trigger] slides(b, from, m.to, df, dr, k) && df != 0 && dr != 0;
        assert(slides(b, from, m.to, df, dr, k));
    }
}

/// A move is generated for a knight exactly if it is the plain move of a
/// knight's jump to a square on which the knight may land.
pub proof fn lemma_knight_member(b: Cells, from: Square, color: Color, m: ChessMove)
    requires
        from.wf(),
    ensures
        knight_moves(b, from, color).contains(m) <==> m == ChessMove::plain(from, m.to)
            && m.to.wf() && can_land(b, m.to.file as int, m.to.rank as int, color)
            && knight_jump(m.to.file - from.file, m.to.rank - from.rank),
{
    let s1 = step_moves(b, from, color, -2, -1);
    let s2 = s1 + step_moves(b, from, color, -2, 1);
    let s3 = s2 + step_moves(b, from, color, -1, -2);
    let s4 = s3 + step_moves(b, from, color, -1, 2);
    let s5 = s4 + step_moves(b, from, color, 1, -2);
    let s6 = s5 + step_moves(b, from, color, 1, 2);
    let s7 = s6 + step_moves(b, from, color, 2, -1);
    lemma_contains_add(s1, step_moves(b, from, color, -2, 1), m);
    lemma_contains_add(s2, step_moves(b, from, color, -1, -2), m);
    lemma_contains_add(s3, step_moves(b, from, color, -1, 2), m);
    lemma_contains_add(s4, step_moves(b, from, color, 1, -2), m);
    lemma_contains_add(s5, step_moves(b, from, color, 1, 2), m);
    lemma_contains_add(s6, step_moves(b, from, color, 2, -1), m);
    lemma_contains_add(s7, step_moves(b, from, color, 2, 1), m);
    lemma_step_member(b, from, color, -2, -1, m);
    lemma_step_member(b, from, color, -2, 1, m);
    lemma_step_member(b, from, color, -1, -2, m);
    lemma_step_member(b, from, color, -1, 2, m);
    lemma_step_member(b, from, color, 1, -2, m);
    lemma_step_member(b, from, color, 1, 2, m);
    lemma_step_member(b, from, color, 2, -1, m);
    lemma_step_member(b, from, color, 2, 1, m);
    if m.to.wf() {
        lemma_square_at(m.to);
    }
}

/// A move is generated as a king's step exactly if it is the plain move to
/// an adjacent square on which the king may land.
pub proof fn lemma_king_step_member(b: Cells, from: Square, color: Color, m: ChessMove)
    requires
        from.wf(),
    ensures
        king_steps(b, from, color).contains(m) <==> m == ChessMove::plain(from, m.to)
            && m.to.wf() && can_land(b, m.to.file as int, m.to.rank as int, color)
            && is_direction(m.to.file - from.file, m.to.rank - from.rank),
{
    let s1 = step_moves(b, from, color, -1, -1);
    let s2 = s1 + step_moves(b, from, color, -1, 0);
    let s3 = s2 + step_moves(b, from, color, -1, 1);
    let s4 = s3 + step_moves(b, from, color, 0, -1);
    let s5 = s4 + step_moves(b, from, color, 0, 1);
    let s6 = s5 + step_moves(b, from, color, 1, -1);
    let s7 = s6 + step_moves(b, from, color, 1, 0);
    lemma_contains_add(s1, step_moves(b, from, color, -1, 0), m);
    lemma_contains_add(s2, step_moves(b, from, color, -1, 1), m);
    lemma_contains_add(s3, step_moves(b, from, color, 0, -1), m);
    lemma_contains_add(s4, step_moves(b, from, color, 0, 1), m);
    lemma_contains_add(s5, step_moves(b, from, color, 1, -1), m);
    lemma_contains_add(s6, step_moves(b, from, color, 1, 0), m);
    lemma_contains_add(s7, step_moves(b, from, color, 1, 1), m);
    lemma_step_member(b, from, color, -1, -1, m);
    lemma_step_member(b, from, color, -1, 0, m);
    lemma_step_member(b, from, color, -1, 1, m);
    lemma_step_member(b, from, color, 0, -1, m);
    lemma_step_member(b, from, color, 0, 1, m);
    lemma_step_member(b, from, color, 1, -1, m);
    lemma_step_member(b, from, color, 1, 0, m);
    lemma_step_member(b, from, color, 1, 1, m);
    if m.to.wf() {
        lemma_square_at(m.to);
    }
}

/// A move is generated for a king exactly if it starts on the king's
/// square and obeys the king's rule.
pub proof fn lemma_king_member(
    b: Cells,
    from: Square,
    color: Color,
    rights: CastlingRights,
    m: ChessMove,
)
    requires
        from.wf(),
    ensures
        king_moves(b, from, color, rights).contains(m) <==> m.from == from && m.to.wf()
            && king_rule(b, color, rights, m),
{
    let rank = color.back_rank();
    lemma_contains_add(king_steps(b, from, color), castling_moves(b, from, color, rights), m);
    lemma_king_step_member(b, from, color, m);
    lemma_contains_none(m);
    let short = if kingside_allowed(b, color, rights) {
        seq![castling_move(from, 6)]
    } else {
        Seq::empty()
    };
    let long = if queenside_allowed(b, color, rights) {
        seq![castling_move(from, 2)]
    } else {
        Seq::empty()
    };
    lemma_contains_add(short, long, m);
    lemma_contains_one(castling_move(from, 6), m);
    lemma_contains_one(castling_move(from, 2), m);
}

/// A sequence of four moves holds exactly those four.
pub proof fn lemma_contains_four(
    a: ChessMove,
    b: ChessMove,
    c: ChessMove,
    d: ChessMove,
    m: ChessMove,
)
    ensures
        seq![a, b, c, d].contains(m) <==> m == a || m == b || m == c || m == d,
{
    let s = seq![a, b, c, d];
    if m == a {
        assert(s[0] == m);
    }
    if m == b {
        assert(s[1] == m);
    }
    if m == c {
        assert(s[2] == m);
    }
    if m == d {
        assert(s[3] == m);
    }
}

/// A pawn's move has the promotion that its target asks for: a promotion
/// to a queen, rook, bishop or knight on the last rank, where it is not
/// marked as en passant, and none elsewhere.
pub open spec fn promotes_as_due(m: ChessMove, color: Color) -> bool {
    if m.to.rank == color.last_rank() {
        (m.promotion matches Some(k) && k.is_promotion_target()) && !m.is_en_passant
    } else {
        m.promotion is None
    }
}

/// The moves that stand for one pawn advance or capture are those from the
/// source to the target that promote as is due and are marked as en
/// passant as asked, unless they promote.
pub proof fn lemma_entries_member(
    from: Square,
    to: Square,
    color: Color,
    en_passant: bool,
    m: ChessMove,
)
    ensures
        pawn_entries(from, to, color, en_passant).contains(m) <==> m.from == from && m.to == to
            && !m.is_castling && promotes_as_due(m, color) && (to.rank != color.last_rank()
            ==> m.is_en_passant == en_passant),
{
    lemma_contains_four(
        promotion_move(from, to, PieceKind::Queen),
        promotion_move(from, to, PieceKind::Rook),
        promotion_move(from, to, PieceKind::Bishop),
        promotion_move(from, to, PieceKind::Knight),
        m,
    );
    lemma_contains_one(
        ChessMove { from, to, promotion: None, is_castling: false, is_en_passant: en_passant },
        m,
    );
}

/// A move is generated for a pawn exactly if it starts on the pawn's
/// square and obeys the pawn's rule.
pub proof fn lemma_pawn_member(
    b: Cells,
    from: Square,
    color: Color,
    en_passant: Option<Square>,
    m: ChessMove,
)
    requires
        from.wf(),
    ensures
        pawn_moves(b, from, color, en_passant).contains(m) <==> m.from == from && m.to.wf()
            && pawn_rule(b, color, en_passant, m),
{
    let dir = color.forward();
    let f = from.file as int;
    let r = from.rank as int;
    let pushes = pawn_pushes(b, from, color);
    let left = pawn_captures(b, from, color, en_passant, -1);
    let right = pawn_captures(b, from, color, en_passant, 1);
    lemma_contains_add(pushes, left, m);
    lemma_contains_add(pushes + left, right, m);
    lemma_contains_none(m);
    if m.to.wf() {
        lemma_square_at(m.to);
    }
    // advances
    let one = Square::at(f, r + dir);
    let two = Square::at(f, r + 2 * dir);
    lemma_entries_member(from, one, color, false, m);
    lemma_entries_member(from, two, color, false, m);
    lemma_contains_add(
        pawn_entries(from, one, color, false),
        pawn_entries(from, two, color, false),
        m,
    );
    lemma_contains_add(pawn_entries(from, one, color, false), Seq::empty(), m);
    // captures
    let lt = Square::at(f - 1, r + dir);
    let rt = Square::at(f + 1, r + dir);
    lemma_entries_member(from, lt, color, false, m);
    lemma_entries_member(from, lt, color, true, m);
    lemma_entries_member(from, rt, color, false, m);
    lemma_entries_member(from, rt, color, true, m);
    lemma_contains_add(
        pawn_entries(from, lt, color, false),
        pawn_entries(from, lt, color, true),
        m,
    );
    lemma_contains_add(pawn_entries(from, lt, color, false), Seq::empty(), m);
    lemma_contains_add(Seq::empty(), pawn_entries(from, lt, color, true), m);
    lemma_contains_add(Seq::empty(), Seq::empty(), m);
    lemma_contains_add(
        pawn_entries(from, rt, color, false),
        pawn_entries(from, rt, color, true),
        m,
    );
    lemma_contains_add(pawn_entries(from, rt, color, false), Seq::empty(), m);
    lemma_contains_add(Seq::empty(), pawn_entries(from, rt, color, true), m);
}

/// A move is generated for what stands on a square exactly if it starts on
/// that square and obeys the movement rules.
pub proof fn lemma_piece_member(
    b: Cells,
    from: Square,
    turn: Color,
    rights: CastlingRights,
    en_passant: Option<Square>,
    m: ChessMove,
)
    requires
        from.wf(),
    ensures
        piece_moves(b, from, turn, rights, en_passant).contains(m) <==> m.from == from
            && obeys_movement(b, turn, rights, en_passant, m),
{
    lemma_contains_none(m);
    lemma_king_member(b, from, turn, rights, m);
    lemma_pawn_member(b, from, turn, en_passant, m);
    lemma_knight_member(b, from, turn, m);
    lemma_straight_member(b, from, turn, m);
    lemma_diagonal_member(b, from, turn, m);
    lemma_contains_add(straight_moves(b, from, turn), diagonal_moves(b, from, turn), m);
    lemma_contains_add(straight_moves(b, from, turn), Seq::empty(), m);
    lemma_contains_add(Seq::empty(), diagonal_moves(b, from, turn), m);
}

/// A move is generated for the pieces on the first `n` squares exactly if
/// it starts on one of them and obeys the movement rules.
pub proof fn lemma_upto_member(
    b: Cells,
    turn: Color,
    rights: CastlingRights,
    en_passant: Option<Square>,
    n: int,
    m: ChessMove,
)
    requires
        0 <= n <= 64,
    ensures
        pseudo_legal_upto(b, turn, rights, en_passant, n).contains(m) <==> m.from.idx() < n
            && obeys_movement(b, turn, rights, en_passant, m),
    decreases n,
{
    if n == 0 {
        lemma_contains_none(m);
    } else {
        let from = square_at_index(n - 1);
        lemma_upto_member(b, turn, rights, en_passant, n - 1, m);
        lemma_piece_member(b, from, turn, rights, en_passant, m);
        lemma_contains_add(
            pseudo_legal_upto(b, turn, rights, en_passant, n - 1),
            piece_moves(b, from, turn, rights, en_passant),
            m,
        );
        if m.from.wf() && m.from.idx() == n - 1 {
            assert(from == m.from);
        }
    }
}

/// Move generation is sound and complete for the movement rules: a move is
/// pseudo-legal exactly if it obeys them.
pub proof fn lemma_pseudo_legal_iff_obeys(
    b: Cells,
    turn: Color,
    rights: CastlingRights,
    en_passant: Option<Square>,
    m: ChessMove,
)
    ensures
        pseudo_legal(b, turn, rights, en_passant).contains(m) <==> obeys_movement(
            b,
            turn,
            rights,
            en_passant,
            m,
        ),
{
    lemma_upto_member(b, turn, rights, en_passant, 64, m);
}


/// The move is legal: it obeys the movement rules and, after it, the
/// mover's king is not attacked.
pub open spec fn is_legal(
    b: Cells,
    turn: Color,
    rights: CastlingRights,
    en_passant: Option<Square>,
    m: ChessMove,
) -> bool {
    obeys_movement(b, turn, rights, en_passant, m) && !in_check(applied(b, m, turn), turn)
}

/// The legal moves that are generated are exactly the moves that are
/// legal.
pub proof fn lemma_legal_moves_are_the_legal(
    b: Cells,
    turn: Color,
    rights: CastlingRights,
    en_passant: Option<Square>,
    m: ChessMove,
)
    ensures
        legal_moves(b, turn, rights, en_passant).contains(m) <==> is_legal(
            b,
            turn,
            rights,
            en_passant,
            m,
        ),
{
    lemma_legal_iff_safe(b, turn, rights, en_passant, m);
    lemma_pseudo_legal_iff_obeys(b, turn, rights, en_passant, m);
}

/// A piece that slides to a square is the first piece on the ray from that
/// square back along the slide.
pub proof fn lemma_slide_seen_from_target(
    b: Cells,
    from: Square,
    to: Square,
    df: int,
    dr: int,
    k: int,
)
    requires
        from.wf(),
        to.wf(),
        slides(b, from, to, df, dr, k),
        b[from.idx()] is Some,
    ensures
        first_on_ray(b, to.file as int, to.rank as int, -df, -dr) == b[from.idx()],
{
    let f = from.file as int;
    let r = from.rank as int;
    let tf = to.file as int;
    let tr = to.rank as int;
    assert forall|j: int| 1 <= j < k implies (#[trigger] ray_cell(b, tf, tr, -df, -dr, j))
         is None by {
        assert(ray_cell(b, tf, tr, -df, -dr, j) == ray_cell(b, f, r, df, dr, k - j));
    }
    assert(ray_cell(b, tf, tr, -df, -dr, k) == cell(b, f, r));
    lemma_first_on_ray_found(b, tf, tr, -df, -dr, k);
}

/// A move that obeys the movement rules and lands on an occupied square
/// lands on a square that the mover attacks.
pub proof fn lemma_capture_is_attack(
    b: Cells,
    turn: Color,
    rights: CastlingRights,
    en_passant: Option<Square>,
    m: ChessMove,
)
    requires
        obeys_movement(b, turn, rights, en_passant, m),
        b[m.to.idx()] is Some,
    ensures
        attacked(b, m.to.file as int, m.to.rank as int, turn),
{
    let p = b[m.from.idx()].unwrap();
    let f = m.from.file as int;
    let r = m.from.rank as int;
    let tf = m.to.file as int;
    let tr = m.to.rank as int;
    assert(cell(b, f, r) == Some(p));
    assert(cell(b, tf, tr) is Some);
    match p.kind {
        PieceKind::King => {
            assert(king_near(b, tf, tr, turn));
        },
        PieceKind::Knight => {
            assert(knight_near(b, tf, tr, turn));
        },
        PieceKind::Pawn => {
            assert(pawn_near(b, tf, tr, turn));
        },
        PieceKind::Rook => {
            let (df, dr, k) = choose|df: int, dr: int, k: int|
                #[trigger] slides(b, m.from, m.to, df, dr, k) && (df == 0 || dr == 0);
            lemma_slide_seen_from_target(b, m.from, m.to, df, dr, k);
            assert(line_piece(first_on_ray(b, tf, tr, -df, -dr), turn, false));
            assert(straight_hit(b, tf, tr, turn));
        },
        PieceKind::Bishop => {
            let (df, dr, k) = choose|df: int, dr: int, k: int|
                #[trigger] slides(b, m.from, m.to, df, dr, k) && df != 0 && dr != 0;
            lemma_slide_seen_from_target(b, m.from, m.to, df, dr, k);
            assert(line_piece(first_on_ray(b, tf, tr, -df, -dr), turn, true));
            assert(diagonal_hit(b, tf, tr, turn));
        },
        PieceKind::Queen => {
            if slides_straight(b, m.from, m.to) {
                let (df, dr, k) = choose|df: int, dr: int, k: int|
                    #[trigger] slides(b, m.from, m.to, df, dr, k) && (df == 0 || dr == 0);
                lemma_slide_seen_from_target(b, m.from, m.to, df, dr, k);
                assert(line_piece(first_on_ray(b, tf, tr, -df, -dr), turn, false));
                assert(straight_hit(b, tf, tr, turn));
            } else {
                let (df, dr, k) = choose|df: int, dr: int, k: int|
                    #[trigger] slides(b, m.from, m.to, df, dr, k) && df != 0 && dr != 0;
                lemma_slide_seen_from_target(b, m.from, m.to, df, dr, k);
                assert(line_piece(first_on_ray(b, tf, tr, -df, -dr), turn, true));
                assert(diagonal_hit(b, tf, tr, turn));
            }
        },
    }
}


// ---------------------------------------------------------------------------
// No move is generated twice
// ---------------------------------------------------------------------------
/// Two sequences without repetitions that share no move make a sequence
/// without repetitions.
pub proof fn lemma_distinct_add(a: Seq<ChessMove>, b: Seq<ChessMove>)
    requires
        a.no_duplicates(),
        b.no_duplicates(),
        forall|m: ChessMove| !(a.contains(m) && b.contains(m)),
    ensures
        (a + b).no_duplicates(),
{
    assert forall|i: int, j: int| 0 <= i < (a + b).len() && 0 <= j < (a + b).len() && i != j implies (
    a + b)[i] != (a + b)[j] by {
        if i < a.len() && j >= a.len() {
            assert(a.contains(a[i]));
            assert(b.contains(b[j - a.len()]));
        }
        if j < a.len() && i >= a.len() {
            assert(a.contains(a[j]));
            assert(b.contains(b[i - a.len()]));
        }
    }
}

/// The moves of a slide are all different.
pub proof fn lemma_slide_distinct(
    b: Cells,
    from: Square,
    color: Color,
    f: int,
    r: int,
    df: int,
    dr: int,
)
    ensures
        slide_moves(b, from, color, f, r, df, dr).no_duplicates(),
    decreases room(f, r, df, dr),
{
    let f1 = f + df;
    let r1 = r + dr;
    if is_direction(df, dr) && on_board(f, r) && on_board(f1, r1) {
        let first = ChessMove::plain(from, Square::at(f1, r1));
        match cell(b, f1, r1) {
            None => {
                let rest = slide_moves(b, from, color, f1, r1, df, dr);
                lemma_slide_distinct(b, from, color, f1, r1, df, dr);
                assert forall|m: ChessMove| !(seq![first].contains(m) && rest.contains(m)) by {
                    lemma_contains_one(first, m);
                    if rest.contains(m) {
                        let k = lemma_slide_member(b, from, color, f1, r1, df, dr, m);
                    }
                }
                lemma_distinct_add(seq![first], rest);
            },
            Some(p) => {},
        }
    }
}

/// The moves of a piece that slides along files and ranks, and those of a
/// piece that slides along diagonals, are all different.
pub proof fn lemma_lines_distinct(b: Cells, from: Square, color: Color)
    requires
        from.wf(),
    ensures
        straight_moves(b, from, color).no_duplicates(),
        diagonal_moves(b, from, color).no_duplicates(),
        sliding_moves(b, from, color, true, true).no_duplicates(),
{
    let f = from.file as int;
    let r = from.rank as int;
    let s1 = ray_moves(b, from, color, -1, 0);
    let s2 = ray_moves(b, from, color, 1, 0);
    let s3 = ray_moves(b, from, color, 0, -1);
    let s4 = ray_moves(b, from, color, 0, 1);
    let d1 = ray_moves(b, from, color, -1, -1);
    let d2 = ray_moves(b, from, color, -1, 1);
    let d3 = ray_moves(b, from, color, 1, -1);
    let d4 = ray_moves(b, from, color, 1, 1);
    lemma_slide_distinct(b, from, color, f, r, -1, 0);
    lemma_slide_distinct(b, from, color, f, r, 1, 0);
    lemma_slide_distinct(b, from, color, f, r, 0, -1);
    lemma_slide_distinct(b, from, color, f, r, 0, 1);
    lemma_slide_distinct(b, from, color, f, r, -1, -1);
    lemma_slide_distinct(b, from, color, f, r, -1, 1);
    lemma_slide_distinct(b, from, color, f, r, 1, -1);
    lemma_slide_distinct(b, from, color, f, r, 1, 1);
    assert forall|m: ChessMove|
        {
            &&& s1.contains(m) ==> m.to.file < f && m.to.rank == r
            &&& s2.contains(m) ==> m.to.file > f && m.to.rank == r
            &&& s3.contains(m) ==> m.to.file == f && m.to.rank < r
            &&& s4.contains(m) ==> m.to.file == f && m.to.rank > r
            &&& d1.contains(m) ==> m.to.file < f && m.to.rank < r
            &&& d2.contains(m) ==> m.to.file < f && m.to.rank > r
            &&& d3.contains(m) ==> m.to.file > f && m.to.rank < r
            &&& d4.contains(m) ==> m.to.file > f && m.to.rank > r
        } by {
        lemma_ray_member(b, from, color, -1, 0, m);
        lemma_ray_member(b, from, color, 1, 0, m);
        lemma_ray_member(b, from, color, 0, -1, m);
        lemma_ray_member(b, from, color, 0, 1, m);
        lemma_ray_member(b, from, color, -1, -1, m);
        lemma_ray_member(b, from, color, -1, 1, m);
        lemma_ray_member(b, from, color, 1, -1, m);
        lemma_ray_member(b, from, color, 1, 1, m);
    }
    assert forall|m: ChessMove|
        {
            &&& (s1 + s2).contains(m) <==> s1.contains(m) || s2.contains(m)
            &&& (s1 + s2 + s3).contains(m) <==> (s1 + s2).contains(m) || s3.contains(m)
            &&& (s1 + s2 + s3 + s4).contains(m) <==> (s1 + s2 + s3).contains(m) || s4.contains(m)
            &&& (d1 + d2).contains(m) <==> d1.contains(m) || d2.contains(m)
            &&& (d1 + d2 + d3).contains(m) <==> (d1 + d2).contains(m) || d3.contains(m)
            &&& (d1 + d2 + d3 + d4).contains(m) <==> (d1 + d2 + d3).contains(m) || d4.contains(m)
        } by {
        lemma_contains_add(s1, s2, m);
        lemma_contains_add(s1 + s2, s3, m);
        lemma_contains_add(s1 + s2 + s3, s4, m);
        lemma_contains_add(d1, d2, m);
        lemma_contains_add(d1 + d2, d3, m);
        lemma_contains_add(d1 + d2 + d3, d4, m);
    }
    lemma_distinct_add(s1, s2);
    lemma_distinct_add(s1 + s2, s3);
    lemma_distinct_add(s1 + s2 + s3, s4);
    lemma_distinct_add(d1, d2);
    lemma_distinct_add(d1 + d2, d3);
    lemma_distinct_add(d1 + d2 + d3, d4);
    assert forall|m: ChessMove|
        !(straight_moves(b, from, color).contains(m) && diagonal_moves(b, from, color).contains(
            m,
        )) by {
        lemma_contains_add(s1, s2, m);
        lemma_contains_add(s1 + s2, s3, m);
        lemma_contains_add(s1 + s2 + s3, s4, m);
        lemma_contains_add(d1, d2, m);
        lemma_contains_add(d1 + d2, d3, m);
        lemma_contains_add(d1 + d2 + d3, d4, m);
        lemma_ray_member(b, from, color, -1, 0, m);
        lemma_ray_member(b, from, color, 1, 0, m);
        lemma_ray_member(b, from, color, 0, -1, m);
        lemma_ray_member(b, from, color, 0, 1, m);
        lemma_ray_member(b, from, color, -1, -1, m);
        lemma_ray_member(b, from, color, -1, 1, m);
        lemma_ray_member(b, from, color, 1, -1, m);
        lemma_ray_member(b, from, color, 1, 1, m);
    }
    lemma_distinct_add(straight_moves(b, from, color), diagonal_moves(b, from, color));
}

/// The one-square steps to eight different squares are all different.
proof fn lemma_steps_distinct(
    b: Cells,
    from: Square,
    color: Color,
    d: Seq<(int, int)>,
    n: int,
) -> (all: Seq<ChessMove>)
    requires
        from.wf(),
        0 <= n <= d.len(),
        forall|i: int, j: int|
            0 <= i < d.len() && 0 <= j < d.len() && i != j ==> (#[trigger] d[i]) != (#[trigger] d[j]),
        forall|i: int| 0 <= i < d.len() ==> -2 <= (#[trigger] d[i]).0 <= 2 && -2 <= d[i].1 <= 2,
    ensures
        all.no_duplicates(),
        forall|m: ChessMove|
            all.contains(m) <==> exists|i: int|
                0 <= i < n && #[trigger] step_moves(b, from, color, d[i].0, d[i].1).contains(m),
        n == 0 ==> all == Seq::<ChessMove>::empty(),
        n > 0 ==> all == steps_joined(b, from, color, d, n),
    decreases n,
{
    if n == 0 {
        let all = Seq::<ChessMove>::empty();
        assert forall|m: ChessMove| !all.contains(m) by {
            lemma_contains_none(m);
        }
        all
    } else {
        let before = lemma_steps_distinct(b, from, color, d, n - 1);
        let last = step_moves(b, from, color, d[n - 1].0, d[n - 1].1);
        let all = before + last;
        assert forall|m: ChessMove| !(before.contains(m) && last.contains(m)) by {
            if before.contains(m) && last.contains(m) {
                let i = choose|i: int|
                    0 <= i < n - 1 && #[trigger] step_moves(b, from, color, d[i].0, d[i].1).contains(
                        m,
                    );
                lemma_step_member(b, from, color, d[i].0, d[i].1, m);
                lemma_step_member(b, from, color, d[n - 1].0, d[n - 1].1, m);
                assert(d[i] != d[n - 1]);
            }
        }
        lemma_distinct_add(before, last);
        assert forall|m: ChessMove|
            all.contains(m) <==> exists|i: int|
                0 <= i < n && #[trigger] step_moves(b, from, color, d[i].0, d[i].1).contains(
                    m,
                ) by {
            lemma_contains_add(before, last, m);
            if last.contains(m) {
                assert(step_moves(b, from, color, d[n - 1].0, d[n - 1].1).contains(m));
            }
        }
        if n == 1 {
            assert(all =~= last);
        }
        all
    }
}

/// The steps along the first `n` of a list of offsets, joined in order.
pub open spec fn steps_joined(
    b: Cells,
    from: Square,
    color: Color,
    d: Seq<(int, int)>,
    n: int,
) -> Seq<ChessMove>
    decreases n,
{
    if n <= 1 {
        step_moves(b, from, color, d[0].0, d[0].1)
    } else {
        steps_joined(b, from, color, d, n - 1) + step_moves(
            b,
            from,
            color,
            d[n - 1].0,
            d[n - 1].1,
        )
    }
}


/// The offsets of a knight's jumps, in the order of generation.
pub open spec fn knight_offsets() -> Seq<(int, int)> {
    seq![
        (-2int, -1int),
        (-2int, 1int),
        (-1int, -2int),
        (-1int, 2int),
        (1int, -2int),
        (1int, 2int),
        (2int, -1int),
        (2int, 1int),
    ]
}

/// The offsets of a king's steps, in the order of generation.
pub open spec fn king_offsets() -> Seq<(int, int)> {
    seq![
        (-1int, -1int),
        (-1int, 0int),
        (-1int, 1int),
        (0int, -1int),
        (0int, 1int),
        (1int, -1int),
        (1int, 0int),
        (1int, 1int),
    ]
}

/// The moves of a knight, and the steps of a king, are all different.
pub proof fn lemma_jumps_distinct(b: Cells, from: Square, color: Color)
    requires
        from.wf(),
    ensures
        knight_moves(b, from, color).no_duplicates(),
        king_steps(b, from, color).no_duplicates(),
{
    reveal_with_fuel(steps_joined, 9);
    let kn = lemma_steps_distinct(b, from, color, knight_offsets(), 8);
    assert(kn == knight_moves(b, from, color));
    let ki = lemma_steps_distinct(b, from, color, king_offsets(), 8);
    assert(ki == king_steps(b, from, color));
}

/// The moves of a king are all different.
pub proof fn lemma_king_distinct(b: Cells, from: Square, color: Color, rights: CastlingRights)
    requires
        from.wf(),
    ensures
        king_moves(b, from, color, rights).no_duplicates(),
{
    lemma_jumps_distinct(b, from, color);
    let steps = king_steps(b, from, color);
    let castles = castling_moves(b, from, color, rights);
    let short = if kingside_allowed(b, color, rights) {
        seq![castling_move(from, 6)]
    } else {
        Seq::empty()
    };
    let long = if queenside_allowed(b, color, rights) {
        seq![castling_move(from, 2)]
    } else {
        Seq::empty()
    };
    assert forall|m: ChessMove| !(short.contains(m) && long.contains(m)) by {
        lemma_contains_one(castling_move(from, 6), m);
        lemma_contains_one(castling_move(from, 2), m);
        lemma_contains_none(m);
    }
    lemma_distinct_add(short, long);
    assert(castles.no_duplicates());
    assert forall|m: ChessMove| !(steps.contains(m) && castles.contains(m)) by {
        lemma_king_step_member(b, from, color, m);
        lemma_contains_add(short, long, m);
        lemma_contains_one(castling_move(from, 6), m);
        lemma_contains_one(castling_move(from, 2), m);
        lemma_contains_none(m);
    }
    lemma_distinct_add(steps, castles);
}

/// The moves that stand for one pawn advance or capture are all different.
pub proof fn lemma_entries_distinct(from: Square, to: Square, color: Color, en_passant: bool)
    ensures
        pawn_entries(from, to, color, en_passant).no_duplicates(),
{
}

/// The moves of a pawn are all different, if the en-passant square is not
/// occupied.
pub proof fn lemma_pawn_distinct(b: Cells, from: Square, color: Color, en_passant: Option<Square>)
    requires
        from.wf(),
        en_passant matches Some(e) ==> cell(b, e.file as int, e.rank as int) is None,
    ensures
        pawn_moves(b, from, color, en_passant).no_duplicates(),
{
    let dir = color.forward();
    let f = from.file as int;
    let r = from.rank as int;
    let one = Square::at(f, r + dir);
    let two = Square::at(f, r + 2 * dir);
    let lt = Square::at(f - 1, r + dir);
    let rt = Square::at(f + 1, r + dir);
    let pushes = pawn_pushes(b, from, color);
    let left = pawn_captures(b, from, color, en_passant, -1);
    let right = pawn_captures(b, from, color, en_passant, 1);
    lemma_entries_distinct(from, one, color, false);
    lemma_entries_distinct(from, two, color, false);
    lemma_entries_distinct(from, lt, color, false);
    lemma_entries_distinct(from, lt, color, true);
    lemma_entries_distinct(from, rt, color, false);
    lemma_entries_distinct(from, rt, color, true);
    let none = Seq::<ChessMove>::empty();
    assert forall|m: ChessMove|
        {
            &&& !none.contains(m)
            &&& pawn_entries(from, one, color, false).contains(m) ==> m.to == one
            &&& pawn_entries(from, two, color, false).contains(m) ==> m.to == two
            &&& pawn_entries(from, lt, color, false).contains(m) ==> m.to == lt
            &&& pawn_entries(from, lt, color, true).contains(m) ==> m.to == lt
            &&& pawn_entries(from, rt, color, false).contains(m) ==> m.to == rt
            &&& pawn_entries(from, rt, color, true).contains(m) ==> m.to == rt
        } by {
        lemma_contains_none(m);
        lemma_entries_member(from, one, color, false, m);
        lemma_entries_member(from, two, color, false, m);
        lemma_entries_member(from, lt, color, false, m);
        lemma_entries_member(from, lt, color, true, m);
        lemma_entries_member(from, rt, color, false, m);
        lemma_entries_member(from, rt, color, true, m);
    }
    // advances: two different targets
    if on_board(f, r + dir) && on_board(f, r + 2 * dir) {
        assert(one != two);
        lemma_distinct_add(
            pawn_entries(from, one, color, false),
            pawn_entries(from, two, color, false),
        );
    }
    lemma_distinct_add(pawn_entries(from, one, color, false), none);
    assert(pushes.no_duplicates());
    // captures: a capture and the en-passant capture never share a target
    lemma_distinct_add(pawn_entries(from, lt, color, false), none);
    lemma_distinct_add(none, pawn_entries(from, lt, color, true));
    lemma_distinct_add(none, none);
    lemma_distinct_add(pawn_entries(from, rt, color, false), none);
    lemma_distinct_add(none, pawn_entries(from, rt, color, true));
    assert(left.no_duplicates());
    assert(right.no_duplicates());
    assert forall|m: ChessMove|
        {
            &&& pushes.contains(m) ==> m.to.file == f && m.to.wf()
            &&& left.contains(m) ==> m.to.file == f - 1 && m.to.wf()
            &&& right.contains(m) ==> m.to.file == f + 1 && m.to.wf()
            &&& (pushes + left).contains(m) <==> pushes.contains(m) || left.contains(m)
        } by {
        lemma_contains_add(pushes, left, m);
        lemma_contains_add(
            pawn_entries(from, one, color, false),
            pawn_entries(from, two, color, false),
            m,
        );
        lemma_contains_add(pawn_entries(from, one, color, false), none, m);
        lemma_contains_add(
            pawn_entries(from, lt, color, false),
            pawn_entries(from, lt, color, true),
            m,
        );
        lemma_contains_add(pawn_entries(from, lt, color, false), none, m);
        lemma_contains_add(none, pawn_entries(from, lt, color, true), m);
        lemma_contains_add(none, none, m);
        lemma_contains_add(
            pawn_entries(from, rt, color, false),
            pawn_entries(from, rt, color, true),
            m,
        );
        lemma_contains_add(pawn_entries(from, rt, color, false), none, m);
        lemma_contains_add(none, pawn_entries(from, rt, color, true), m);
    }
    lemma_distinct_add(pushes, left);
    lemma_distinct_add(pushes + left, right);
}

/// The moves of what stands on a square are all different, if the
/// en-passant square is not occupied.
pub proof fn lemma_piece_distinct(
    b: Cells,
    from: Square,
    turn: Color,
    rights: CastlingRights,
    en_passant: Option<Square>,
)
    requires
        from.wf(),
        en_passant matches Some(e) ==> cell(b, e.file as int, e.rank as int) is None,
    ensures
        piece_moves(b, from, turn, rights, en_passant).no_duplicates(),
{
    lemma_king_distinct(b, from, turn, rights);
    lemma_pawn_distinct(b, from, turn, en_passant);
    lemma_jumps_distinct(b, from, turn);
    lemma_lines_distinct(b, from, turn);
    let none = Seq::<ChessMove>::empty();
    assert(straight_moves(b, from, turn) + none =~= straight_moves(b, from, turn));
    assert(none + diagonal_moves(b, from, turn) =~= diagonal_moves(b, from, turn));
}

/// The pseudo-legal moves and the legal moves of a position are all
/// different, if the en-passant square is not occupied: no move is
/// generated twice.
pub proof fn lemma_moves_distinct(
    b: Cells,
    turn: Color,
    rights: CastlingRights,
    en_passant: Option<Square>,
)
    requires
        en_passant matches Some(e) ==> cell(b, e.file as int, e.rank as int) is None,
    ensures
        pseudo_legal(b, turn, rights, en_passant).no_duplicates(),
        legal_moves(b, turn, rights, en_passant).no_duplicates(),
{
    lemma_upto_distinct(b, turn, rights, en_passant, 64);
    lemma_safe_distinct(b, turn, pseudo_legal(b, turn, rights, en_passant));
}

/// The moves of the pieces on the first `n` squares are all different.
proof fn lemma_upto_distinct(
    b: Cells,
    turn: Color,
    rights: CastlingRights,
    en_passant: Option<Square>,
    n: int,
)
    requires
        0 <= n <= 64,
        en_passant matches Some(e) ==> cell(b, e.file as int, e.rank as int) is None,
    ensures
        pseudo_legal_upto(b, turn, rights, en_passant, n).no_duplicates(),
    decreases n,
{
    if n > 0 {
        let from = square_at_index(n - 1);
        let before = pseudo_legal_upto(b, turn, rights, en_passant, n - 1);
        let here = piece_moves(b, from, turn, rights, en_passant);
        lemma_upto_distinct(b, turn, rights, en_passant, n - 1);
        lemma_piece_distinct(b, from, turn, rights, en_passant);
        assert forall|m: ChessMove| !(before.contains(m) && here.contains(m)) by {
            lemma_upto_member(b, turn, rights, en_passant, n - 1, m);
            lemma_piece_member(b, from, turn, rights, en_passant, m);
        }
        lemma_distinct_add(before, here);
    }
}

/// The safe moves of a sequence without repetitions are all different.
proof fn lemma_safe_distinct(b: Cells, turn: Color, s: Seq<ChessMove>)
    requires
        s.no_duplicates(),
    ensures
        safe_moves(b, turn, s).no_duplicates(),
    decreases s.len(),
{
    if s.len() > 0 {
        let front = s.drop_last();
        lemma_safe_distinct(b, turn, front);
        lemma_safe_moves_contain(b, turn, front, s.last());
        if front.contains(s.last()) {
            let i = choose|i: int| 0 <= i < front.len() && front[i] == s.last();
            assert(s[i] == s[s.len() - 1]);
        }
        let kept = safe_moves(b, turn, front);
        assert(kept.push(s.last()) =~= kept + seq![s.last()]);
        assert forall|m: ChessMove| !(kept.contains(m) && seq![s.last()].contains(m)) by {
            lemma_contains_one(s.last(), m);
        }
        lemma_distinct_add(kept, seq![s.last()]);
    }
}


/// A submitted move stands for at most one move: two moves that obey the
/// movement rules and have the same source, target and promotion are the
/// same move, if the en-passant square is not occupied.
pub proof fn lemma_match_is_unique(
    b: Cells,
    turn: Color,
    rights: CastlingRights,
    en_passant: Option<Square>,
    m1: ChessMove,
    m2: ChessMove,
)
    requires
        obeys_movement(b, turn, rights, en_passant, m1),
        obeys_movement(b, turn, rights, en_passant, m2),
        m1.from == m2.from,
        m1.to == m2.to,
        m1.promotion == m2.promotion,
        en_passant matches Some(e) ==> cell(b, e.file as int, e.rank as int) is None,
    ensures
        m1 == m2,
{
}

} // verus!
