//! What holds of every position that a game can reach from the starting
//! position: each side has exactly one king, the side that has just moved
//! is not in check, and an en-passant square is the empty square behind a
//! pawn that has just made a double step. And what holds of the games
//! themselves: a game that moves have made is the game of its recorded
//! moves, it ends when a move leaves no reply, a king's move keeps
//! insufficient material insufficient, and no game is long.

use crate::game::{
    en_passant_after, history_limit, lemma_move_keeps_faithful, lemma_move_keeps_wf,
    lemma_no_reply_ends_game, lemma_played_shape, played, resets_clock, GameState, Position,
};
use crate::ident::GameId;
use crate::movegen::{
    applied, attacked, count_others, first_other, in_check, insufficient_material, is_other,
    lemma_first_match, lemma_first_other, pawn_removed, placed_piece, rook_castled,
};
use crate::movement::{
    king_rule, lemma_capture_is_attack, lemma_legal_moves_are_the_legal, lemma_match_is_unique,
    lemma_moves_distinct, obeys_movement, pawn_rule,
};
use crate::types::{
    cell, first_index_of, king_square, lemma_first_index_of, on_board, square_at_index, start_cell,
    start_cells, CastlingRights, Cells, ChessMove, Color, GameEndReason, GameResult, MoveText,
    Piece, PieceKind, Square,
};
use vstd::prelude::*;

verus! {

/// The king of a colour.
pub open spec fn king_of(color: Color) -> Piece {
    Piece { kind: PieceKind::King, color }
}

/// The king of a colour stands on the cell with index `i`.
pub open spec fn king_at(b: Cells, color: Color, i: int) -> bool {
    0 <= i < 64 && b[i] == Some(king_of(color))
}

/// The king of a colour stands on the cell with index `i` and on no other.
pub open spec fn only_king_at(b: Cells, color: Color, i: int) -> bool {
    king_at(b, color, i) && forall|j: int| #[trigger] king_at(b, color, j) ==> j == i
}

/// Exactly one king of a colour stands on the board.
pub open spec fn one_king(b: Cells, color: Color) -> bool {
    exists|i: int| #[trigger] only_king_at(b, color, i)
}

/// The en-passant square, if there is one, is an empty square on the board
/// directly behind a pawn of the side that has just moved.
pub open spec fn passing_square_ok(b: Cells, turn: Color, en_passant: Option<Square>) -> bool {
    en_passant matches Some(e) ==> {
        &&& e.wf()
        &&& cell(b, e.file as int, e.rank as int) is None
        &&& cell(b, e.file as int, e.rank - turn.forward()) == Some(
            Piece { kind: PieceKind::Pawn, color: turn.other() },
        )
    }
}

/// The board has 64 cells with exactly one king of each colour, the side
/// that is not to move is not in check, and the en-passant square is as it
/// has to be.
pub open spec fn sound(b: Cells, turn: Color, en_passant: Option<Square>) -> bool {
    &&& b.len() == 64
    &&& one_king(b, Color::White)
    &&& one_king(b, Color::Black)
    &&& !in_check(b, turn.other())
    &&& passing_square_ok(b, turn, en_passant)
}

/// Where a colour has one king, the king's square is the square of that
/// king.
pub proof fn lemma_king_square(b: Cells, color: Color, i: int)
    requires
        b.len() == 64,
        only_king_at(b, color, i),
    ensures
        king_square(b, color) == Some(square_at_index(i)),
        square_at_index(i).wf(),
        square_at_index(i).idx() == i,
{
    lemma_first_index_of(b, king_of(color), 0);
    let k = first_index_of(b, king_of(color), 0);
    if k < 64 {
        assert(king_at(b, color, k));
    } else {
        assert(b[i] != Some(king_of(color)));
    }
}

/// The starting position is sound.
pub proof fn lemma_start_is_sound()
    ensures
        sound(start_cells(), Color::White, None),
{
    let b = start_cells();
    assert(only_king_at(b, Color::White, 4)) by {
        assert(b[4] == start_cell(4));
        assert forall|j: int| #[trigger] king_at(b, Color::White, j) implies j == 4 by {
            assert(b[j] == start_cell(j));
        }
    }
    assert(only_king_at(b, Color::Black, 60)) by {
        assert(b[60] == start_cell(60));
        assert forall|j: int| #[trigger] king_at(b, Color::Black, j) implies j == 60 by {
            assert(b[j] == start_cell(j));
        }
    }
    lemma_king_square(b, Color::Black, 60);
    assert(square_at_index(60) == Square::at(4, 7));
    assert(!attacked(b, 4, 7, Color::White)) by {
        assert forall|f: int, r: int| on_board(f, r) implies #[trigger] cell(b, f, r)
            == start_cell(r * 8 + f) by {}
        assert(cell(b, 3, 6) == start_cell(51));
        assert(cell(b, 4, 6) == start_cell(52));
        assert(cell(b, 5, 6) == start_cell(53));
        assert(cell(b, 3, 7) == start_cell(59));
        assert(cell(b, 5, 7) == start_cell(61));
        assert(cell(b, 2, 6) == start_cell(50));
        assert(cell(b, 6, 6) == start_cell(54));
        assert(cell(b, 3, 5) == start_cell(43));
        assert(cell(b, 5, 5) == start_cell(45));
    }
}

/// A move that obeys the movement rules in a sound position leaves each
/// side with exactly one king.
pub proof fn lemma_move_keeps_kings(
    b: Cells,
    turn: Color,
    rights: CastlingRights,
    en_passant: Option<Square>,
    m: ChessMove,
)
    requires
        sound(b, turn, en_passant),
        obeys_movement(b, turn, rights, en_passant, m),
    ensures
        applied(b, m, turn).len() == 64,
        one_king(applied(b, m, turn), Color::White),
        one_king(applied(b, m, turn), Color::Black),
{
    let after = applied(b, m, turn);
    let enemy = turn.other();
    let p = b[m.from.idx()].unwrap();
    let from = m.from.idx();
    let to = m.to.idx();
    let own = choose|i: int| #[trigger] only_king_at(b, turn, i);
    let other = choose|i: int| #[trigger] only_king_at(b, enemy, i);
    lemma_king_square(b, enemy, other);

    // the enemy king is not captured: its square is not attacked
    if b[to] == Some(king_of(enemy)) {
        assert(king_at(b, enemy, to));
        lemma_capture_is_attack(b, turn, rights, en_passant, m);
        assert(false);
    }
    assert(cell(b, m.to.file as int, m.to.rank as int) == b[to]);
    assert(cell(b, m.from.file as int, m.from.rank as int) == b[from]);
    let rank = turn.back_rank();
    if m.is_castling {
        assert(p.kind == PieceKind::King);
        assert(cell(b, 7, rank) == b[rank * 8 + 7]);
        assert(cell(b, 0, rank) == b[rank * 8]);
        assert(cell(b, 6, rank) == b[rank * 8 + 6]);
        assert(cell(b, 5, rank) == b[rank * 8 + 5]);
        assert(cell(b, 3, rank) == b[rank * 8 + 3]);
        assert(cell(b, 2, rank) == b[rank * 8 + 2]);
    }
    if m.is_en_passant {
        assert(p.kind == PieceKind::Pawn);
        assert(cell(b, m.to.file as int, m.to.rank - turn.forward()) == b[(m.to.rank
            - turn.forward()) * 8 + m.to.file]);
    }
    if p.kind == PieceKind::King {
        assert(king_at(b, turn, from));
        assert(only_king_at(after, turn, to)) by {
            assert(after[to] == Some(king_of(turn)));
            assert forall|j: int| #[trigger] king_at(after, turn, j) implies j == to by {
                if j != to && j != from {
                    if after[j] == b[j] {
                        assert(king_at(b, turn, j));
                    }
                }
            }
        }
    } else {
        assert(own != from);
        assert(own != to) by {
            if own == to {
                assert(king_at(b, turn, to));
            }
        }
        assert(only_king_at(after, turn, own)) by {
            assert(after[own] == b[own]);
            assert forall|j: int| #[trigger] king_at(after, turn, j) implies j == own by {
                if j != to {
                    if after[j] == b[j] {
                        assert(king_at(b, turn, j));
                    }
                }
            }
        }
    }
    assert(other != from);
    assert(other != to);
    assert(only_king_at(after, enemy, other)) by {
        assert(after[other] == b[other]);
        assert forall|j: int| #[trigger] king_at(after, enemy, j) implies j == other by {
            if j != to {
                if after[j] == b[j] {
                    assert(king_at(b, enemy, j));
                }
            }
        }
    }
    match turn {
        Color::White => {},
        Color::Black => {},
    }
}

/// After a move that obeys the movement rules, the en-passant square is as
/// it has to be: it is set only by a pawn's double step, to the empty
/// square that the pawn has skipped.
pub proof fn lemma_move_sets_passing_square(
    b: Cells,
    turn: Color,
    rights: CastlingRights,
    en_passant: Option<Square>,
    m: ChessMove,
)
    requires
        b.len() == 64,
        obeys_movement(b, turn, rights, en_passant, m),
    ensures
        passing_square_ok(applied(b, m, turn), turn.other(), en_passant_after(b, m)),
        en_passant_after(b, m) is Some <==> (b[m.from.idx()] matches Some(p) && p.kind
            == PieceKind::Pawn && m.to.rank == m.from.rank + 2 * turn.forward()),
{
    let after = applied(b, m, turn);
    match en_passant_after(b, m) {
        Some(e) => {
            let f = m.from.file as int;
            let r = m.from.rank as int;
            let dir = turn.forward();
            assert(pawn_rule(b, turn, en_passant, m));
            assert(m.to.file == f && m.to.rank == r + 2 * dir);
            assert(e == Square::at(f, r + dir));
            assert(cell(b, f, r + dir) == b[(r + dir) * 8 + f]);
            assert(after[(r + dir) * 8 + f] == b[(r + dir) * 8 + f]);
            assert(after[m.to.idx()] == b[m.from.idx()]);
            assert(cell(after, f, r + 2 * dir) == after[m.to.idx()]);
        },
        None => {},
    }
}

/// Every position that moves lead to from the starting position is sound:
/// each side has exactly one king, the side that has just moved is not in
/// check, and the en-passant square, if there is one, is the empty square
/// behind the pawn that has just made a double step.
pub proof fn lemma_played_positions_are_sound(moves: Seq<MoveText>)
    requires
        played(moves) is Some,
    ensures
        sound(
            played(moves).unwrap().board,
            played(moves).unwrap().turn,
            played(moves).unwrap().en_passant,
        ),
    decreases moves.len(),
{
    if moves.len() == 0 {
        lemma_start_is_sound();
    } else {
        lemma_played_positions_are_sound(moves.drop_last());
        let q = played(moves.drop_last()).unwrap();
        let t = moves.last();
        let mv = match q.resolve(t) {
            Ok(m) => m,
            Err(_) => arbitrary(),
        };
        let asked = match ChessMove::read(t) {
            Ok(m) => m,
            Err(_) => arbitrary(),
        };
        lemma_first_match(q.legal(), asked.from, asked.to, asked.promotion, 0);
        assert(q.legal().contains(mv));
        lemma_legal_moves_are_the_legal(q.board, q.turn, q.castling, q.en_passant, mv);
        lemma_move_keeps_kings(q.board, q.turn, q.castling, q.en_passant, mv);
        lemma_move_sets_passing_square(q.board, q.turn, q.castling, q.en_passant, mv);
    }
}

/// A game whose state is the one that its moves lead to has exactly one
/// king of each colour on its board.
pub proof fn lemma_faithful_games_have_kings(g: GameState)
    requires
        g.faithful(),
    ensures
        one_king(g.position.board, Color::White),
        one_king(g.position.board, Color::Black),
        g.position.board.len() == 64,
{
    lemma_played_positions_are_sound(g.position.submitted());
}


/// In a game whose state is the one that its moves lead to, no legal move
/// is listed twice, and a submitted move stands for at most one legal
/// move.
pub proof fn lemma_faithful_games_list_each_move_once(g: GameState, m1: ChessMove, m2: ChessMove)
    requires
        g.faithful(),
    ensures
        g.position.legal().no_duplicates(),
        g.position.legal().contains(m1) && g.position.legal().contains(m2) && m1.from == m2.from
            && m1.to == m2.to && m1.promotion == m2.promotion ==> m1 == m2,
{
    let p = g.position;
    lemma_played_positions_are_sound(p.submitted());
    lemma_moves_distinct(p.board, p.turn, p.castling, p.en_passant);
    lemma_legal_moves_are_the_legal(p.board, p.turn, p.castling, p.en_passant, m1);
    lemma_legal_moves_are_the_legal(p.board, p.turn, p.castling, p.en_passant, m2);
    if p.legal().contains(m1) && p.legal().contains(m2) && m1.from == m2.from && m1.to == m2.to
        && m1.promotion == m2.promotion {
        lemma_match_is_unique(p.board, p.turn, p.castling, p.en_passant, m1, m2);
    }
}

/// The state of a new game with the given identifier and start time: the
/// starting position, no result, no draw offer and no end time.
pub open spec fn new_game(id: GameId, start: u64) -> GameState {
    GameState {
        id,
        position: Position::initial(),
        result: None,
        end_reason: None,
        draw_offered_by: None,
        start_timestamp: start,
        end_timestamp: 0,
    }
}

/// The state that a game reaches from `start` when the moves are submitted
/// in order, the move with index `i` at the time `times[i]`, and each of
/// them is accepted; `None` if one of them is rejected.
pub open spec fn moved(start: GameState, moves: Seq<MoveText>, times: Seq<u64>) -> Option<
    GameState,
>
    decreases moves.len(),
{
    if moves.len() == 0 {
        Some(start)
    } else {
        match moved(start, moves.drop_last(), times.drop_last()) {
            None => None,
            Some(g) => match g.move_outcome(moves.last()) {
                Ok(mv) => Some(g.after_move(mv, moves.last(), times.last())),
                Err(_) => None,
            },
        }
    }
}

/// A move adds one entry to each history and leaves the earlier entries
/// as they were.
pub proof fn lemma_move_extends_histories(s: GameState, mv: ChessMove, t: MoveText, now: u64)
    ensures
        ({
            let n = s.after_move(mv, t, now);
            &&& n.position.move_history.len() == s.position.move_history.len() + 1
            &&& n.position.position_history.len() == s.position.position_history.len() + 1
            &&& n.position.move_history.drop_last() == s.position.move_history
            &&& n.position.position_history.drop_last() == s.position.position_history
            &&& n.position.move_history.last().text == t
        }),
{
    let n = s.after_move(mv, t, now);
    assert(n.position.move_history.drop_last() =~= s.position.move_history);
    assert(n.position.position_history.drop_last() =~= s.position.position_history);
}

/// A game that has been reached from a new game by accepted moves alone is
/// the game of its recorded moves: its state is consistent; its record
/// holds the submitted moves, in order; playing them from the starting
/// position gives its board, side to move, castling rights, en-passant
/// square, clocks and histories; the position history is one longer than
/// the move history and begins with the fingerprint of the starting
/// position; and an end that the rules give its position is its result.
pub proof fn lemma_games_are_their_moves(
    id: GameId,
    start: u64,
    moves: Seq<MoveText>,
    times: Seq<u64>,
)
    requires
        times.len() == moves.len(),
        moved(new_game(id, start), moves, times) is Some,
    ensures
        ({
            let g = moved(new_game(id, start), moves, times).unwrap();
            &&& g.wf()
            &&& g.faithful()
            &&& g.position.submitted() == moves
            &&& played(moves) == Some(g.position)
            &&& g.position.move_history.len() == moves.len()
            &&& g.position.position_history.len() == moves.len() + 1
            &&& g.position.position_history[0] == Position::initial().position_history[0]
        }),
    decreases moves.len(),
{
    let g = moved(new_game(id, start), moves, times).unwrap();
    if moves.len() == 0 {
        assert(g.position.submitted() =~= moves);
    } else {
        let t = moves.last();
        lemma_games_are_their_moves(id, start, moves.drop_last(), times.drop_last());
        let q = moved(new_game(id, start), moves.drop_last(), times.drop_last()).unwrap();
        let mv = match q.move_outcome(t) {
            Ok(m) => m,
            Err(_) => arbitrary(),
        };
        let asked = match ChessMove::read(t) {
            Ok(m) => m,
            Err(_) => arbitrary(),
        };
        let p = q.position;
        lemma_first_match(p.legal(), asked.from, asked.to, asked.promotion, 0);
        assert(p.legal().contains(mv));
        lemma_legal_moves_are_the_legal(p.board, p.turn, p.castling, p.en_passant, mv);
        lemma_move_keeps_wf(q, mv, t, times.last());
        lemma_move_keeps_faithful(q, mv, t, times.last());
        lemma_move_extends_histories(q, mv, t, times.last());
        assert(g.position.submitted() =~= q.position.submitted().push(t));
        assert(moves.drop_last().push(t) =~= moves);
        assert(g.position.position_history[0] == q.position.position_history[0]);
    }
}

/// While a game is reached from a new game by accepted moves alone, every
/// move that leaves the side to move without a legal move ends it: in
/// checkmate, won by the side that has moved, if the side to move is in
/// check, and in stalemate, a draw, if it is not.
pub proof fn lemma_games_end_without_reply(
    id: GameId,
    start: u64,
    moves: Seq<MoveText>,
    times: Seq<u64>,
)
    requires
        moves.len() > 0,
        times.len() == moves.len(),
        moved(new_game(id, start), moves, times) is Some,
    ensures
        ({
            let g = moved(new_game(id, start), moves, times).unwrap();
            let mover = g.position.turn.other();
            g.position.legal().len() == 0 ==> {
                &&& in_check(g.position.board, g.position.turn) ==> g.result == Some(
                    GameResult::win_of(mover),
                ) && g.end_reason == Some(GameEndReason::Checkmate)
                &&& !in_check(g.position.board, g.position.turn) ==> g.result == Some(
                    GameResult::Draw,
                ) && g.end_reason == Some(GameEndReason::Stalemate)
            }
        }),
{
    let q = moved(new_game(id, start), moves.drop_last(), times.drop_last()).unwrap();
    let t = moves.last();
    let mv = match q.move_outcome(t) {
        Ok(m) => m,
        Err(_) => arbitrary(),
    };
    lemma_no_reply_ends_game(q, mv, t, times.last());
    match q.position.turn {
        Color::White => {},
        Color::Black => {},
    }
}

/// The number of a side's pieces other than its king is not negative.
proof fn lemma_count_not_negative(b: Cells, c: Color, n: int)
    ensures
        count_others(b, c, n) >= 0,
    decreases n,
{
    if n > 0 {
        lemma_count_not_negative(b, c, n - 1);
    }
}

/// Two boards that hold a side's pieces other than its king on the same
/// of their first `n` cells hold as many of them there.
proof fn lemma_count_same(a: Cells, b: Cells, c: Color, n: int)
    requires
        forall|i: int| 0 <= i < n ==> is_other(#[trigger] a[i], c) == is_other(b[i], c),
    ensures
        count_others(a, c, n) == count_others(b, c, n),
    decreases n,
{
    if n > 0 {
        lemma_count_same(a, b, c, n - 1);
    }
}

/// A board that lacks one of a side's pieces other than its king, and
/// holds the others on the same cells, holds one fewer.
proof fn lemma_count_without(a: Cells, b: Cells, c: Color, n: int, t: int)
    requires
        0 <= t < n,
        is_other(b[t], c),
        !is_other(a[t], c),
        forall|i: int| 0 <= i < n && i != t ==> is_other(#[trigger] a[i], c) == is_other(b[i], c),
    ensures
        count_others(a, c, n) == count_others(b, c, n) - 1,
    decreases n,
{
    if n - 1 == t {
        lemma_count_same(a, b, c, n - 1);
    } else {
        lemma_count_without(a, b, c, n - 1, t);
    }
}

/// Two boards that hold a side's pieces other than its king on the same
/// cells from `i` on have the first of them on the same cell.
proof fn lemma_first_same(a: Cells, b: Cells, c: Color, i: int)
    requires
        0 <= i <= 64,
        forall|j: int| i <= j < 64 ==> is_other(#[trigger] a[j], c) == is_other(b[j], c),
    ensures
        first_other(a, c, i) == first_other(b, c, i),
    decreases 64 - i,
{
    if i < 64 && !is_other(a[i], c) {
        lemma_first_same(a, b, c, i + 1);
    }
}

/// A side with a piece other than its king on some cell has at least one
/// such piece.
proof fn lemma_counted_once(b: Cells, c: Color, t: int)
    requires
        b.len() == 64,
        0 <= t < 64,
        is_other(b[t], c),
    ensures
        count_others(b, c, 64) >= 1,
        count_others(b.update(t, None), c, 64) == count_others(b, c, 64) - 1,
{
    let a = b.update(t, None);
    assert forall|i: int| 0 <= i < 64 && i != t implies is_other(#[trigger] a[i], c) == is_other(
        b[i],
        c,
    ) by {}
    lemma_count_without(a, b, c, 64, t);
    lemma_count_not_negative(a, c, 64);
}

/// A side's only piece other than its king is the first one that is
/// found.
proof fn lemma_counted_alone(b: Cells, c: Color, t: int)
    requires
        b.len() == 64,
        0 <= t < 64,
        is_other(b[t], c),
        count_others(b, c, 64) == 1,
    ensures
        first_other(b, c, 0) == t,
{
    let f = first_other(b, c, 0);
    lemma_first_other(b, c, 0);
    if f != t {
        assert(f < t);
        let a = b.update(t, None);
        lemma_counted_once(b, c, t);
        assert(is_other(a[f], c));
        lemma_counted_once(a, c, f);
    }
}

/// A side without a piece other than its king on the first `n` cells has
/// none to count there.
proof fn lemma_none_counted(b: Cells, c: Color, n: int)
    requires
        forall|i: int| 0 <= i < n ==> !is_other(#[trigger] b[i], c),
    ensures
        count_others(b, c, n) == 0,
    decreases n,
{
    if n > 0 {
        lemma_none_counted(b, c, n - 1);
    }
}

/// What a plain king move does to a side's material: the pieces other than
/// kings stay where they are, but for one that the king captures.
proof fn lemma_king_step_material(b: Cells, turn: Color, m: ChessMove, c: Color)
    requires
        b.len() == 64,
        m.wf(),
        !m.is_castling,
        !m.is_en_passant,
        m.promotion is None,
        b[m.from.idx()] == Some(king_of(turn)),
    ensures
        ({
            let after = applied(b, m, turn);
            let to = m.to.idx();
            &&& after.len() == 64
            &&& forall|i: int|
                0 <= i < 64 && i != to ==> is_other(#[trigger] after[i], c) == is_other(b[i], c)
            &&& forall|i: int| 0 <= i < 64 && is_other(#[trigger] after[i], c) ==> after[i] == b[i]
            &&& !is_other(after[to], c)
            &&& is_other(b[to], c) ==> count_others(after, c, 64) == count_others(b, c, 64) - 1
            &&& !is_other(b[to], c) ==> count_others(after, c, 64) == count_others(b, c, 64)
                && first_other(after, c, 0) == first_other(b, c, 0)
        }),
{
    let after = applied(b, m, turn);
    let from = m.from.idx();
    let to = m.to.idx();
    assert(0 <= from < 64 && 0 <= to < 64);
    assert(after =~= b.update(from, None).update(to, Some(king_of(turn))));
    assert forall|i: int| 0 <= i < 64 && i != to implies is_other(#[trigger] after[i], c)
        == is_other(b[i], c) by {
        if i != from {
            assert(after[i] == b[i]);
        }
    }
    assert forall|i: int| 0 <= i < 64 && is_other(#[trigger] after[i], c) implies after[i]
        == b[i] by {
        assert(i != to && i != from);
    }
    if is_other(b[to], c) {
        lemma_count_without(after, b, c, 64, to);
    } else {
        lemma_count_same(after, b, c, 64);
        lemma_first_same(after, b, c, 0);
    }
}

/// A side with exactly one piece other than its king has it on the cell
/// where the first is found.
proof fn lemma_one_is_found(b: Cells, c: Color)
    requires
        b.len() == 64,
        count_others(b, c, 64) >= 1,
    ensures
        0 <= first_other(b, c, 0) < 64,
        is_other(b[first_other(b, c, 0)], c),
{
    lemma_first_other(b, c, 0);
    if first_other(b, c, 0) >= 64 {
        lemma_none_counted(b, c, 64);
    }
}

/// A king's move keeps insufficient material insufficient: the king
/// captures at most one piece, no other piece moves, and castling needs a
/// rook, which is sufficient material.
pub proof fn lemma_king_move_keeps_material_insufficient(
    b: Cells,
    turn: Color,
    rights: CastlingRights,
    m: ChessMove,
)
    requires
        b.len() == 64,
        insufficient_material(b),
        m.wf(),
        b[m.from.idx()] == Some(king_of(turn)),
        king_rule(b, turn, rights, m),
    ensures
        insufficient_material(applied(b, m, turn)),
{
    let after = applied(b, m, turn);
    let own = count_others(b, turn, 64);
    let rank = turn.back_rank();
    lemma_count_not_negative(b, Color::White, 64);
    lemma_count_not_negative(b, Color::Black, 64);
    if m.is_castling {
        let corner = if m.to == Square::at(6, rank) {
            rank * 8 + 7
        } else {
            rank * 8
        };
        assert(b[corner] == Some(Piece { kind: PieceKind::Rook, color: turn })) by {
            if m.to == Square::at(6, rank) {
                assert(cell(b, 7, rank) == b[rank * 8 + 7]);
            } else {
                assert(cell(b, 0, rank) == b[rank * 8]);
            }
        }
        assert(is_other(b[corner], turn));
        lemma_counted_once(b, turn, corner);
        if own == 1 {
            lemma_counted_alone(b, turn, corner);
        }
        match turn {
            Color::White => {},
            Color::Black => {},
        }
        assert(false);
    } else {
        let to = m.to.idx();
        lemma_king_step_material(b, turn, m, Color::White);
        lemma_king_step_material(b, turn, m, Color::Black);
        assert(cell(b, m.to.file as int, m.to.rank as int) == b[to]);
        assert(!is_other(b[to], turn));
        let enemy = turn.other();
        if is_other(b[to], enemy) {
            lemma_counted_once(b, enemy, to);
            if own >= 1 {
                lemma_one_is_found(b, turn);
            }
        } else {
            if count_others(b, Color::White, 64) >= 1 {
                lemma_one_is_found(b, Color::White);
            }
            if count_others(b, Color::Black, 64) >= 1 {
                lemma_one_is_found(b, Color::Black);
            }
        }
        match turn {
            Color::White => {},
            Color::Black => {},
        }
    }
}

/// When the board holds insufficient material, as with two kings and one
/// knight, a legal move of the king that leaves the opponent a legal move
/// ends the game in a draw by insufficient material.
pub proof fn lemma_king_move_draws_bare_game(s: GameState, mv: ChessMove, t: MoveText, now: u64)
    requires
        s.position.board.len() == 64,
        insufficient_material(s.position.board),
        mv.wf(),
        s.position.board[mv.from.idx()] == Some(king_of(s.position.turn)),
        s.position.legal().contains(mv),
        s.after_move(mv, t, now).position.legal().len() > 0,
    ensures
        s.after_move(mv, t, now).result == Some(GameResult::Draw),
        s.after_move(mv, t, now).end_reason == Some(GameEndReason::InsufficientMaterial),
{
    let p = s.position;
    lemma_legal_moves_are_the_legal(p.board, p.turn, p.castling, p.en_passant, mv);
    lemma_king_move_keeps_material_insufficient(p.board, p.turn, p.castling, mv);
}

// ---------------------------------------------------------------------------
// The length of games
// ---------------------------------------------------------------------------
/// What the piece on the cell with index `i` can still add to the moves
/// that reset the half-move clock: one for its capture, and for a pawn one
/// more for every rank that lies before it.
pub open spec fn cell_reserve(c: Option<Piece>, i: int) -> int {
    match c {
        None => 0,
        Some(p) => if p.kind == PieceKind::Pawn {
            1 + (match p.color {
                Color::White => 7 - i / 8,
                Color::Black => i / 8,
            })
        } else {
            1
        },
    }
}

/// The sum of what the pieces on the first `n` cells can still add to the
/// moves that reset the half-move clock.
pub open spec fn reserve(b: Cells, n: int) -> int
    decreases n,
{
    if n <= 0 {
        0
    } else {
        reserve(b, n - 1) + cell_reserve(b[n - 1], n - 1)
    }
}

/// The reserve of the first `n` cells lies between 0 and `8 * n`.
proof fn lemma_reserve_bounds(b: Cells, n: int)
    requires
        0 <= n <= 64,
    ensures
        0 <= reserve(b, n) <= 8 * n,
    decreases n,
{
    if n > 0 {
        lemma_reserve_bounds(b, n - 1);
    }
}

/// A change of one cell changes the reserve by what the cell's piece adds
/// to it.
proof fn lemma_reserve_update(b: Cells, n: int, i: int, x: Option<Piece>)
    requires
        0 <= i < b.len(),
        0 <= n <= b.len(),
    ensures
        reserve(b.update(i, x), n) == reserve(b, n) + (if i < n {
            cell_reserve(x, i) - cell_reserve(b[i], i)
        } else {
            0
        }),
    decreases n,
{
    if n > 0 {
        lemma_reserve_update(b, n - 1, i, x);
    }
}

/// A move that obeys the movement rules never adds to the reserve, and a
/// move that resets the half-move clock takes from it: a capture removes a
/// piece, and a pawn's move brings the pawn nearer to its last rank.
pub proof fn lemma_move_spends_reserve(
    b: Cells,
    turn: Color,
    rights: CastlingRights,
    en_passant: Option<Square>,
    m: ChessMove,
)
    requires
        b.len() == 64,
        obeys_movement(b, turn, rights, en_passant, m),
    ensures
        applied(b, m, turn).len() == 64,
        reserve(applied(b, m, turn), 64) <= reserve(b, 64),
        resets_clock(b, m) ==> reserve(applied(b, m, turn), 64) < reserve(b, 64),
{
    let from = m.from.idx();
    let to = m.to.idx();
    let piece = b[from].unwrap();
    let b1 = b.update(from, None);
    let b2 = rook_castled(b1, m);
    let b3 = pawn_removed(b2, m, turn);
    let placed = Some(placed_piece(b, m, turn));
    let after = b3.update(to, placed);
    assert(after == applied(b, m, turn));
    assert(0 <= from < 64 && 0 <= to < 64);
    assert(from / 8 == m.from.rank && to / 8 == m.to.rank);
    assert(cell(b, m.to.file as int, m.to.rank as int) == b[to]);
    lemma_reserve_update(b, 64, from, None);
    let base = m.from.rank * 8;
    if m.is_castling {
        let rank = turn.back_rank();
        assert(piece.kind == PieceKind::King);
        assert(m.from.rank == rank && m.from.file == 4);
        if m.to.file == 6 {
            assert(cell(b, 7, rank) == b[base + 7]);
            assert(cell(b, 5, rank) == b[base + 5]);
            assert(cell(b, 6, rank) == b[base + 6]);
            let c1 = b1.update(base + 7, None);
            lemma_reserve_update(b1, 64, base + 7, None);
            lemma_reserve_update(c1, 64, base + 5, b1[base + 7]);
            assert(b2 == c1.update(base + 5, b1[base + 7]));
        } else {
            assert(m.to.file == 2);
            assert(cell(b, 0, rank) == b[base]);
            assert(cell(b, 3, rank) == b[base + 3]);
            assert(cell(b, 2, rank) == b[base + 2]);
            let c1 = b1.update(base, None);
            lemma_reserve_update(b1, 64, base, None);
            lemma_reserve_update(c1, 64, base + 3, b1[base]);
            assert(b2 == c1.update(base + 3, b1[base]));
        }
        assert(b3 == b2);
        lemma_reserve_update(b3, 64, to, placed);
    } else {
        assert(b2 == b1);
        if m.is_en_passant {
            let taken = (m.to.rank - turn.forward()) * 8 + m.to.file;
            assert(piece.kind == PieceKind::Pawn);
            assert(0 <= taken < 64);
            lemma_reserve_update(b2, 64, taken, None);
            assert(cell_reserve(b2[taken], taken) >= 0);
        } else {
            assert(b3 == b2);
        }
        assert(b3.len() == 64);
        lemma_reserve_update(b3, 64, to, placed);
        assert(cell_reserve(b3[to], to) >= 0);
        if b[to] is Some && to != from {
            assert(b1[to] == b[to]);
            assert(cell_reserve(b[to], to) >= 1);
        }
    }
    match turn {
        Color::White => {},
        Color::Black => {},
    }
}

/// A bound on the half-moves that a game can have, 150 * 512 + 150: at
/// most 150 between two moves that reset the half-move clock, and no more
/// such moves than the largest reserve of a board, 8 for each cell.
pub open spec fn longest_game() -> int {
    76950
}

/// A position that moves have led to from the starting position has taken
/// no more moves than the spent reserve allows: each move that resets the
/// half-move clock spends reserve, and no 150 moves follow each other
/// without one.
pub proof fn lemma_played_games_are_short(moves: Seq<MoveText>)
    requires
        played(moves) is Some,
    ensures
        ({
            let p = played(moves).unwrap();
            &&& p.board.len() == 64
            &&& 0 <= p.halfmove_clock <= 150
            &&& moves.len() + 150 * reserve(p.board, 64) <= 150 * reserve(start_cells(), 64)
                + p.halfmove_clock
            &&& moves.len() <= longest_game()
            &&& p.move_history.len() == moves.len()
        }),
    decreases moves.len(),
{
    let p = played(moves).unwrap();
    lemma_played_positions_are_sound(moves);
    lemma_played_shape(moves);
    lemma_reserve_bounds(p.board, 64);
    lemma_reserve_bounds(start_cells(), 64);
    if moves.len() > 0 {
        lemma_played_games_are_short(moves.drop_last());
        lemma_played_shape(moves.drop_last());
        let q = played(moves.drop_last()).unwrap();
        let t = moves.last();
        let mv = match q.resolve(t) {
            Ok(m) => m,
            Err(_) => arbitrary(),
        };
        let asked = match ChessMove::read(t) {
            Ok(m) => m,
            Err(_) => arbitrary(),
        };
        lemma_first_match(q.legal(), asked.from, asked.to, asked.promotion, 0);
        assert(q.legal().contains(mv));
        lemma_legal_moves_are_the_legal(q.board, q.turn, q.castling, q.en_passant, mv);
        lemma_move_spends_reserve(q.board, q.turn, q.castling, q.en_passant, mv);
        assert(p == q.after(mv, t));
        if q.move_history.len() == 0 {
            assert(moves.drop_last() =~= Seq::<MoveText>::empty());
            assert(q.halfmove_clock == 0);
        } else {
            assert(q.ending() is None);
            assert(q.halfmove_clock < 150);
        }
    }
}

/// A game whose state is the one that its moves lead to is short: its
/// history is far from the largest that the move counters can hold.
pub proof fn lemma_faithful_games_are_short(g: GameState)
    requires
        g.faithful(),
    ensures
        g.position.move_history.len() <= longest_game(),
        longest_game() < history_limit(),
        0 <= g.position.halfmove_clock <= 150,
{
    lemma_played_games_are_short(g.position.submitted());
}

} // verus!
