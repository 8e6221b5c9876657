//! A single game: its position, its histories, its result, and the
//! transitions that moves and special actions make.

use crate::ident::{unix_timestamp, GameId};
use crate::invariants::{lemma_faithful_games_are_short, new_game};
use crate::text::{decimal, push_decimal, same_text};
use crate::movegen::{
    applicable, applied, apply_move_to_board, find_matching_legal_move, generate_legal_moves,
    in_check, insufficient_material, is_in_check, is_insufficient_material, legal_moves, resolve,
};
use crate::types::{
    copy_strings, entry_texts, fingerprint, map_entries, start_cells, ActionJson, Board,
    CastlingRights, Cells, ChessMove, Color, ErrorKind, GameEndReason, GameResult, GameStateJson,
    MoveError, MoveFault, MoveJson, MoveText, PieceKind, SideCastlingRights, Square,
};
use vstd::prelude::*;

verus! {

/// One move of the game's history.
#[derive(Debug, Clone, PartialEq, Eq)]
pub struct MoveRecord {
    /// The full-move number at the time of the move.
    pub move_number: u32,
    /// The side that made the move.
    pub side: Color,
    /// The move's notation, such as `e2e4`.
    pub notation: String,
    /// The move as it was submitted.
    pub move_json: MoveJson,
}

/// A `MoveRecord` as a mathematical value.
pub struct RecordView {
    pub move_number: int,
    pub side: Color,
    pub notation: Seq<char>,
    pub text: MoveText,
}

impl View for MoveRecord {
    type V = RecordView;

    open spec fn view(&self) -> RecordView {
        RecordView {
            move_number: self.move_number as int,
            side: self.side,
            notation: self.notation@,
            text: self.move_json@,
        }
    }
}

/// The part of a game's state that its moves determine.
pub struct Position {
    pub board: Cells,
    pub turn: Color,
    pub castling: CastlingRights,
    pub en_passant: Option<Square>,
    pub halfmove_clock: int,
    pub fullmove_number: int,
    pub position_history: Seq<Seq<char>>,
    pub move_history: Seq<RecordView>,
}

/// A game's state as a mathematical value.
pub struct GameState {
    pub id: GameId,
    pub position: Position,
    pub result: Option<GameResult>,
    pub end_reason: Option<GameEndReason>,
    pub draw_offered_by: Option<Color>,
    pub start_timestamp: u64,
    pub end_timestamp: u64,
}

/// The texts of a list of strings.
pub open spec fn texts(v: Seq<String>) -> Seq<Seq<char>> {
    Seq::new(v.len(), |i: int| v[i]@)
}

/// The values of a list of records.
pub open spec fn records(v: Seq<MoveRecord>) -> Seq<RecordView> {
    Seq::new(v.len(), |i: int| v[i]@)
}

/// The number of times that `x` occurs among the first `n` entries.
pub open spec fn occurrences(h: Seq<Seq<char>>, x: Seq<char>, n: int) -> int
    decreases n,
{
    if n <= 0 {
        0
    } else {
        occurrences(h, x, n - 1) + (if h[n - 1] == x {
            1int
        } else {
            0int
        })
    }
}

/// The number of times that the last fingerprint of a history occurs in it.
pub open spec fn repetitions(h: Seq<Seq<char>>) -> int {
    if h.len() == 0 {
        0
    } else {
        occurrences(h, h.last(), h.len() as int)
    }
}

/// The rights without those of a corner square: a piece that leaves a
/// rook's starting corner, or is captured there, ends the right of that
/// corner.
pub open spec fn corner_cleared(rights: CastlingRights, sq: Square) -> CastlingRights {
    CastlingRights {
        white: SideCastlingRights {
            kingside: rights.white.kingside && !(sq.file == 7 && sq.rank == 0),
            queenside: rights.white.queenside && !(sq.file == 0 && sq.rank == 0),
        },
        black: SideCastlingRights {
            kingside: rights.black.kingside && !(sq.file == 7 && sq.rank == 7),
            queenside: rights.black.queenside && !(sq.file == 0 && sq.rank == 7),
        },
    }
}

/// The castling rights after a move, given the board after it: a king that
/// has moved ends both rights of its colour, and the move's source and
/// target end the rights of the corners they are.
pub open spec fn rights_after(rights: CastlingRights, after: Cells, mv: ChessMove) -> CastlingRights {
    let kept = match after[mv.to.idx()] {
        Some(p) => if p.kind == PieceKind::King {
            rights.with_side(p.color, SideCastlingRights { kingside: false, queenside: false })
        } else {
            rights
        },
        None => rights,
    };
    corner_cleared(corner_cleared(kept, mv.from), mv.to)
}

/// The en-passant square after a move: the square that a pawn has skipped
/// over in a double step, and none after any other move.
pub open spec fn en_passant_after(before: Cells, mv: ChessMove) -> Option<Square> {
    if before[mv.from.idx()] matches Some(p) && p.kind == PieceKind::Pawn && (mv.to.rank
        == mv.from.rank + 2 || mv.from.rank == mv.to.rank + 2) {
        Some(Square::at(mv.from.file as int, (mv.from.rank + mv.to.rank) / 2))
    } else {
        None
    }
}

/// Whether a move resets the half-move clock: a pawn's move, or a capture,
/// en passant included. Both are judged on the board before the move.
pub open spec fn resets_clock(before: Cells, mv: ChessMove) -> bool {
    ||| (before[mv.from.idx()] matches Some(p) && p.kind == PieceKind::Pawn)
    ||| before[mv.to.idx()] is Some
    ||| mv.is_en_passant
}

impl Position {
    /// The starting position, before any move.
    pub open spec fn initial() -> Position {
        Position {
            board: start_cells(),
            turn: Color::White,
            castling: CastlingRights::full(),
            en_passant: None,
            halfmove_clock: 0,
            fullmove_number: 1,
            position_history: seq![
                fingerprint(start_cells(), Color::White, CastlingRights::full(), None),
            ],
            move_history: Seq::empty(),
        }
    }

    /// The legal moves of the side to move.
    pub open spec fn legal(self) -> Seq<ChessMove> {
        legal_moves(self.board, self.turn, self.castling, self.en_passant)
    }

    /// The end that the rules give the game in this position without any
    /// claim, if any. In this order: no legal move is checkmate, won by the
    /// side that is not to move, if the side to move is in check, and
    /// stalemate if it is not; insufficient material is a draw; the fifth
    /// occurrence of the current fingerprint is a draw; a half-move clock
    /// of 150 is a draw.
    pub open spec fn ending(self) -> Option<(GameResult, GameEndReason)> {
        if self.legal().len() == 0 {
            if in_check(self.board, self.turn) {
                Some((GameResult::win_of(self.turn.other()), GameEndReason::Checkmate))
            } else {
                Some((GameResult::Draw, GameEndReason::Stalemate))
            }
        } else if insufficient_material(self.board) {
            Some((GameResult::Draw, GameEndReason::InsufficientMaterial))
        } else if repetitions(self.position_history) >= 5 {
            Some((GameResult::Draw, GameEndReason::FivefoldRepetition))
        } else if self.halfmove_clock >= 150 {
            Some((GameResult::Draw, GameEndReason::SeventyFiveMoveRule))
        } else {
            None
        }
    }

    /// What a submitted move resolves to in this position.
    pub open spec fn resolve(self, t: MoveText) -> Result<ChessMove, MoveFault> {
        resolve(self.board, self.turn, self.castling, self.en_passant, t)
    }

    /// The position after the legal move `mv`, submitted as `t`.
    pub open spec fn after(self, mv: ChessMove, t: MoveText) -> Position {
        let board = applied(self.board, mv, self.turn);
        let castling = rights_after(self.castling, board, mv);
        let en_passant = en_passant_after(self.board, mv);
        let turn = self.turn.other();
        Position {
            board,
            turn,
            castling,
            en_passant,
            halfmove_clock: if resets_clock(self.board, mv) {
                0
            } else {
                self.halfmove_clock + 1
            },
            fullmove_number: if turn == Color::White {
                self.fullmove_number + 1
            } else {
                self.fullmove_number
            },
            position_history: self.position_history.push(
                fingerprint(board, turn, castling, en_passant),
            ),
            move_history: self.move_history.push(
                RecordView {
                    move_number: self.fullmove_number,
                    side: self.turn,
                    notation: mv.notation(),
                    text: t,
                },
            ),
        }
    }

    /// The position after a submitted move, if the game has not ended by
    /// the rules and the move resolves to a legal one.
    pub open spec fn play(self, t: MoveText) -> Option<Position> {
        if self.move_history.len() > 0 && self.ending() is Some {
            None
        } else {
            match self.resolve(t) {
                Ok(mv) => Some(self.after(mv, t)),
                Err(_) => None,
            }
        }
    }

    /// The submitted moves of the history, in order.
    pub open spec fn submitted(self) -> Seq<MoveText> {
        Seq::new(self.move_history.len(), |i: int| self.move_history[i].text)
    }
}

/// The position that a sequence of submitted moves leads to from the
/// starting position, if each of them can be played in turn.
pub open spec fn played(moves: Seq<MoveText>) -> Option<Position>
    decreases moves.len(),
{
    if moves.len() == 0 {
        Some(Position::initial())
    } else {
        match played(moves.drop_last()) {
            Some(p) => p.play(moves.last()),
            None => None,
        }
    }
}

/// The position that the first `k` of a sequence of submitted moves lead
/// to.
pub open spec fn played_upto(moves: Seq<MoveText>, k: int) -> Option<Position> {
    played(moves.take(k))
}

/// A game of chess with its full state and history.
#[derive(Debug, Clone)]
pub struct Game {
    /// The game's identifier.
    pub id: GameId,
    /// The current board.
    pub board: Board,
    /// The side to move.
    pub turn: Color,
    /// The castling rights.
    pub castling: CastlingRights,
    /// The square a pawn has just skipped over in a double step, if any.
    pub en_passant: Option<Square>,
    /// Half-moves since the last pawn move or capture.
    pub halfmove_clock: u32,
    /// Starts at 1 and grows after each move of Black.
    pub fullmove_number: u32,
    /// The fingerprints of all positions so far, the starting position's
    /// first.
    pub position_history: Vec<String>,
    /// The moves made so far.
    pub move_history: Vec<MoveRecord>,
    /// The result, once the game has ended.
    pub result: Option<GameResult>,
    /// Why the game ended, once it has.
    pub end_reason: Option<GameEndReason>,
    /// The side whose draw offer stands, if one does.
    pub draw_offered_by: Option<Color>,
    /// Unix time at which the game was created.
    pub start_timestamp: u64,
    /// Unix time at which the game ended; 0 while it has not.
    pub end_timestamp: u64,
}

impl View for Game {
    type V = GameState;

    open spec fn view(&self) -> GameState {
        GameState {
            id: self.id,
            position: Position {
                board: self.board@,
                turn: self.turn,
                castling: self.castling,
                en_passant: self.en_passant,
                halfmove_clock: self.halfmove_clock as int,
                fullmove_number: self.fullmove_number as int,
                position_history: texts(self.position_history@),
                move_history: records(self.move_history@),
            },
            result: self.result,
            end_reason: self.end_reason,
            draw_offered_by: self.draw_offered_by,
            start_timestamp: self.start_timestamp,
            end_timestamp: self.end_timestamp,
        }
    }
}

/// The largest number of half-moves that a game's history can hold for
/// another move to be made: the move counters are 32-bit numbers.
pub open spec fn history_limit() -> int {
    0xFFFF_FFF0
}

impl GameState {
    /// The state is consistent: the position history is one longer than the
    /// move history; result and reason are set together; the en-passant
    /// square lies on the board; and while the game has no result the
    /// half-move clock is below 150 and the full-move number at most one
    /// more than the number of moves.
    pub open spec fn wf(self) -> bool {
        &&& self.position.position_history.len() == self.position.move_history.len() + 1
        &&& self.result is Some <==> self.end_reason is Some
        &&& self.position.en_passant matches Some(sq) ==> sq.wf()
        &&& self.result is None ==> 0 <= self.position.halfmove_clock < 150
        &&& 1 <= self.position.fullmove_number <= self.position.move_history.len() + 1
    }

    /// The state is the one that its recorded moves lead to: playing them
    /// from the starting position gives the current board, side to move,
    /// castling rights, en-passant square, clocks and histories; and an end
    /// that the rules give the position is the game's result.
    pub open spec fn faithful(self) -> bool {
        &&& played(self.position.submitted()) == Some(self.position)
        &&& (self.position.move_history.len() > 0 && self.position.ending() is Some) ==> {
            &&& self.result == Some(self.position.ending().unwrap().0)
            &&& self.end_reason == Some(self.position.ending().unwrap().1)
        }
    }

    /// What a submitted move comes to: an error if the game has a result,
    /// else what the move resolves to in the position.
    pub open spec fn move_outcome(self, t: MoveText) -> Result<ChessMove, MoveFault> {
        if self.result is Some {
            Err(MoveFault::GameOver)
        } else {
            self.position.resolve(t)
        }
    }

    /// The state after the legal move `mv`, submitted as `t` at time `now`:
    /// the position after the move; a draw offer is gone; an end that the
    /// rules give the new position becomes the result, and the end time is
    /// then set to `now` unless it was set before.
    pub open spec fn after_move(self, mv: ChessMove, t: MoveText, now: u64) -> GameState {
        let position = self.position.after(mv, t);
        GameState {
            id: self.id,
            position,
            result: match position.ending() {
                Some(e) => Some(e.0),
                None => None,
            },
            end_reason: match position.ending() {
                Some(e) => Some(e.1),
                None => None,
            },
            draw_offered_by: None,
            start_timestamp: self.start_timestamp,
            end_timestamp: if position.ending() is Some && self.end_timestamp == 0 {
                now
            } else {
                self.end_timestamp
            },
        }
    }
}

/// A legal move keeps the state consistent.
pub proof fn lemma_move_keeps_wf(s: GameState, mv: ChessMove, t: MoveText, now: u64)
    requires
        s.wf(),
        s.result is None,
        mv.wf(),
    ensures
        s.after_move(mv, t, now).wf(),
{
    let p = s.position.after(mv, t);
    assert(p.position_history.len() == p.move_history.len() + 1);
    assert(p.en_passant matches Some(sq) ==> sq.wf());
    assert(p.ending() is None ==> 0 <= p.halfmove_clock < 150);
    assert(1 <= p.fullmove_number <= p.move_history.len() + 1);
}

/// After a legal move the state is still the one that its recorded moves
/// lead to.
pub proof fn lemma_move_keeps_faithful(s: GameState, mv: ChessMove, t: MoveText, now: u64)
    requires
        s.faithful(),
        s.result is None,
        s.end_reason is None,
        s.position.resolve(t) == Ok::<ChessMove, MoveFault>(mv),
    ensures
        s.after_move(mv, t, now).faithful(),
{
    let p = s.position.after(mv, t);
    let moves = p.submitted();
    assert(moves.drop_last() =~= s.position.submitted());
    assert(moves.last() == t);
    assert(s.position.play(t) == Some(p));
    assert(played(moves) == Some(p));
}

/// A move that leaves the side to move without a legal move ends the game:
/// in checkmate, won by the side that has moved, if the side to move is in
/// check, and in stalemate, a draw, if it is not.
pub proof fn lemma_no_reply_ends_game(s: GameState, mv: ChessMove, t: MoveText, now: u64)
    ensures
        ({
            let n = s.after_move(mv, t, now);
            n.position.legal().len() == 0 ==> {
                &&& in_check(n.position.board, n.position.turn) ==> n.result == Some(
                    GameResult::win_of(s.position.turn),
                ) && n.end_reason == Some(GameEndReason::Checkmate)
                &&& !in_check(n.position.board, n.position.turn) ==> n.result == Some(
                    GameResult::Draw,
                ) && n.end_reason == Some(GameEndReason::Stalemate)
            }
        }),
{
}

/// A move never gives a castling right back.
pub proof fn lemma_rights_never_grow(rights: CastlingRights, after: Cells, mv: ChessMove)
    ensures
        rights_after(rights, after, mv).within(rights),
{
}

/// The position history of a consistent game is one longer than its move
/// history, and a move adds one to each.
pub proof fn lemma_histories_in_step(s: GameState, mv: ChessMove, t: MoveText, now: u64)
    requires
        s.wf(),
    ensures
        s.position.position_history.len() == s.position.move_history.len() + 1,
        s.after_move(mv, t, now).position.position_history.len() == s.after_move(
            mv,
            t,
            now,
        ).position.move_history.len() + 1,
{
}

/// The position that a sequence of moves leads to has one record for
/// every move and one fingerprint more; White is to move after an even
/// number of moves and Black after an odd number; and the full-move number
/// is one more than the number of moves that Black has made.
pub proof fn lemma_played_shape(moves: Seq<MoveText>)
    requires
        played(moves) is Some,
    ensures
        ({
            let p = played(moves).unwrap();
            &&& p.move_history.len() == moves.len()
            &&& p.submitted() == moves
            &&& p.position_history.len() == moves.len() + 1
            &&& p.turn == (if moves.len() % 2 == 0 {
                Color::White
            } else {
                Color::Black
            })
            &&& p.fullmove_number == 1 + moves.len() / 2
            &&& p.halfmove_clock >= 0
        }),
    decreases moves.len(),
{
    let p = played(moves).unwrap();
    if moves.len() > 0 {
        lemma_played_shape(moves.drop_last());
        let q = played(moves.drop_last()).unwrap();
        assert(p.submitted() =~= q.submitted().push(moves.last()));
        assert(q.submitted().push(moves.last()) =~= moves);
    } else {
        assert(p.submitted() =~= moves);
    }
}

/// In a position that moves have led to, the side that has just moved is
/// not in check: a legal move never leaves the mover's own king attacked.
pub proof fn lemma_mover_not_in_check(moves: Seq<MoveText>)
    requires
        moves.len() > 0,
        played(moves) is Some,
    ensures
        !in_check(played(moves).unwrap().board, played(moves).unwrap().turn.other()),
{
    let q = played(moves.drop_last()).unwrap();
    let t = moves.last();
    let mv = match q.resolve(t) {
        Ok(m) => m,
        Err(_) => arbitrary(),
    };
    let legal = q.legal();
    let asked = match ChessMove::read(t) {
        Ok(m) => m,
        Err(_) => arbitrary(),
    };
    crate::movegen::lemma_first_match(legal, asked.from, asked.to, asked.promotion, 0);
    assert(legal.contains(mv));
    crate::movegen::lemma_legal_iff_safe(q.board, q.turn, q.castling, q.en_passant, mv);
}

/// A special action as a mathematical value.
pub struct ActionText {
    pub action: Seq<char>,
    pub reason: Option<Seq<char>>,
}

impl View for ActionJson {
    type V = ActionText;

    open spec fn view(&self) -> ActionText {
        ActionText {
            action: self.action@,
            reason: match self.reason {
                Some(r) => Some(r@),
                None => None,
            },
        }
    }
}

/// Why a special action was not carried out.
#[derive(Debug, Clone, Copy, PartialEq, Eq, Structural)]
pub enum ActionError {
    /// The game already has a result.
    GameOver,
    /// A draw was accepted that the opponent has not offered.
    NoDrawOffer,
    /// A draw was claimed by repetition, but the current position has not
    /// occurred three times.
    NoThreefoldRepetition,
    /// A draw was claimed by the fifty-move rule, but the half-move clock,
    /// which is given, is below 100.
    NoFiftyMoves { clock: u32 },
    /// A draw was claimed without a reason, or with an unknown one.
    InvalidDrawReason,
    /// The action is none of those that exist.
    UnknownAction,
}

impl ActionError {
    /// The kind of error under which this error is reported.
    pub open spec fn error_kind(self) -> ErrorKind {
        ErrorKind::IllegalAction
    }

    /// Returns the kind of error under which this error is reported.
    pub fn kind(&self) -> (k: ErrorKind)
        ensures
            k == self.error_kind(),
    {
        ErrorKind::IllegalAction
    }

    /// The message that reports this error of the submitted action `a`.
    /// It names the half-move clock where the clock is too low, and the
    /// reason or the action where the game does not know them.
    pub open spec fn message_text(self, a: ActionText) -> Seq<char> {
        match self {
            ActionError::GameOver => "Game is already over"@,
            ActionError::NoDrawOffer => "No draw offer from the opponent to accept"@,
            ActionError::NoThreefoldRepetition =>
                "The position has not occurred three times"@,
            ActionError::NoFiftyMoves { clock } => "The half-move clock is at "@ + decimal(
                clock as nat,
            ) + ", below 100"@,
            ActionError::InvalidDrawReason => "Invalid draw reason: '"@ + (match a.reason {
                Some(r) => r,
                None => Seq::empty(),
            }) + "'"@,
            ActionError::UnknownAction => "Unknown action: '"@ + a.action + "'"@,
        }
    }

    /// Writes the message that reports this error of the submitted action.
    pub fn message(&self, action: &ActionJson) -> (r: String)
        ensures
            r@ == self.message_text(action@),
    {
        match self {
            ActionError::GameOver => "Game is already over".to_owned(),
            ActionError::NoDrawOffer => "No draw offer from the opponent to accept".to_owned(),
            ActionError::NoThreefoldRepetition =>
                "The position has not occurred three times".to_owned(),
            ActionError::NoFiftyMoves { clock } => {
                let mut out = "The half-move clock is at ".to_owned();
                push_decimal(&mut out, *clock as u64);
                out.append(", below 100");
                out
            },
            ActionError::InvalidDrawReason => {
                let mut out = "Invalid draw reason: '".to_owned();
                match &action.reason {
                    Some(r) => {
                        out.append(r.as_str());
                    },
                    None => {
                        assert(out@ =~= "Invalid draw reason: '"@ + Seq::<char>::empty());
                    },
                }
                out.append("'");
                out
            },
            ActionError::UnknownAction => {
                let mut out = "Unknown action: '".to_owned();
                out.append(action.action.as_str());
                out.append("'");
                out
            },
        }
    }
}

impl GameState {
    /// The state after the game has ended with a result at time `now`.
    pub open spec fn ended(self, result: GameResult, reason: GameEndReason, now: u64) -> GameState {
        GameState {
            result: Some(result),
            end_reason: Some(reason),
            end_timestamp: now,
            ..self
        }
    }

    /// What a special action comes to at time `now`. No action succeeds
    /// once the game has a result. `resign` gives the win to the opponent
    /// of the side to move. `offer_draw` records the side to move as the
    /// one that offers. `accept_draw` ends the game in a draw if the
    /// opponent's offer stands. `claim_draw` ends it in a draw if the
    /// reason is `threefold_repetition` and the current fingerprint has
    /// occurred three times, or `fifty_move_rule` and the half-move clock
    /// has reached 100.
    pub open spec fn after_action(self, a: ActionText, now: u64) -> Result<GameState, ActionError> {
        if self.result is Some {
            Err(ActionError::GameOver)
        } else if a.action == "resign"@ {
            Ok(
                self.ended(
                    GameResult::win_of(self.position.turn.other()),
                    GameEndReason::Resignation,
                    now,
                ),
            )
        } else if a.action == "offer_draw"@ {
            Ok(GameState { draw_offered_by: Some(self.position.turn), ..self })
        } else if a.action == "accept_draw"@ {
            if self.draw_offered_by == Some(self.position.turn.other()) {
                Ok(self.ended(GameResult::Draw, GameEndReason::DrawAgreement, now))
            } else {
                Err(ActionError::NoDrawOffer)
            }
        } else if a.action == "claim_draw"@ {
            if a.reason == Some("threefold_repetition"@) {
                if repetitions(self.position.position_history) >= 3 {
                    Ok(self.ended(GameResult::Draw, GameEndReason::ThreefoldRepetition, now))
                } else {
                    Err(ActionError::NoThreefoldRepetition)
                }
            } else if a.reason == Some("fifty_move_rule"@) {
                if self.position.halfmove_clock >= 100 {
                    Ok(self.ended(GameResult::Draw, GameEndReason::FiftyMoveRule, now))
                } else {
                    Err(ActionError::NoFiftyMoves { clock: self.position.halfmove_clock as u32 })
                }
            } else {
                Err(ActionError::InvalidDrawReason)
            }
        } else {
            Err(ActionError::UnknownAction)
        }
    }
}

/// The views of a list of records with one more record are the views of
/// the list with the view of the record.
proof fn lemma_push_record(v: Seq<MoveRecord>, r: MoveRecord)
    ensures
        records(v.push(r)) == records(v).push(r@),
{
    assert(records(v.push(r)) =~= records(v).push(r@));
}

/// The texts of a list of strings with one more string are the texts of
/// the list with the text of the string.
proof fn lemma_push_text(v: Seq<String>, s: String)
    ensures
        texts(v.push(s)) == texts(v).push(s@),
{
    assert(texts(v.push(s)) =~= texts(v).push(s@));
}

/// Tells whether a move resets the half-move clock, on the board before
/// the move.
fn moves_reset_clock(board: &Board, mv: &ChessMove) -> (r: bool)
    requires
        mv.wf(),
    ensures
        r == resets_clock(board@, *mv),
{
    let is_pawn_move = match board.get(mv.from) {
        Some(p) => p.kind == PieceKind::Pawn,
        None => false,
    };
    let is_capture = board.get(mv.to).is_some() || mv.is_en_passant;
    is_pawn_move || is_capture
}

/// Returns the en-passant square after a move, on the board before the
/// move.
fn en_passant_square(board: &Board, mv: &ChessMove) -> (r: Option<Square>)
    requires
        mv.wf(),
    ensures
        r == en_passant_after(board@, *mv),
        r matches Some(sq) ==> sq.wf(),
{
    let is_pawn_move = match board.get(mv.from) {
        Some(p) => p.kind == PieceKind::Pawn,
        None => false,
    };
    if is_pawn_move && (mv.to.rank == mv.from.rank + 2 || mv.from.rank == mv.to.rank + 2) {
        let ep_rank: u8 = (mv.from.rank + mv.to.rank) / 2;
        Some(Square { file: mv.from.file, rank: ep_rank })
    } else {
        None
    }
}

/// Returns the castling rights after a move, given the board after it.
fn update_castling_rights(rights: CastlingRights, after: &Board, mv: &ChessMove) -> (r:
    CastlingRights)
    requires
        mv.wf(),
    ensures
        r == rights_after(rights, after@, *mv),
{
    let mut r = rights;
    match after.get(mv.to) {
        Some(piece) => {
            if piece.kind == PieceKind::King {
                match piece.color {
                    Color::White => {
                        r.white = SideCastlingRights { kingside: false, queenside: false };
                    },
                    Color::Black => {
                        r.black = SideCastlingRights { kingside: false, queenside: false };
                    },
                }
            }
        },
        None => {},
    }
    if (mv.from.file == 7 && mv.from.rank == 0) || (mv.to.file == 7 && mv.to.rank == 0) {
        r.white.kingside = false;
    }
    if (mv.from.file == 0 && mv.from.rank == 0) || (mv.to.file == 0 && mv.to.rank == 0) {
        r.white.queenside = false;
    }
    if (mv.from.file == 7 && mv.from.rank == 7) || (mv.to.file == 7 && mv.to.rank == 7) {
        r.black.kingside = false;
    }
    if (mv.from.file == 0 && mv.from.rank == 7) || (mv.to.file == 0 && mv.to.rank == 7) {
        r.black.queenside = false;
    }
    r
}

impl Game {
    /// Creates a game in the starting position with the given identifier
    /// and times: White to move, all castling rights, no en-passant square,
    /// clocks at 0 and 1, and the starting position's fingerprint as the
    /// whole position history.
    pub fn new_with_id_and_timestamps(id: GameId, start_ts: u64, end_ts: u64) -> (g: Game)
        ensures
            g@ == (GameState {
                id,
                position: Position::initial(),
                result: None,
                end_reason: None,
                draw_offered_by: None,
                start_timestamp: start_ts,
                end_timestamp: end_ts,
            }),
            g@.wf(),
            g@.faithful(),
    {
        let board = Board::starting_position();
        let castling = CastlingRights::default();
        let initial_fen = board.to_position_fen(Color::White, &castling, None);
        let mut position_history: Vec<String> = Vec::new();
        position_history.push(initial_fen);
        let g = Game {
            id,
            board,
            turn: Color::White,
            castling,
            en_passant: None,
            halfmove_clock: 0,
            fullmove_number: 1,
            position_history,
            move_history: Vec::new(),
            result: None,
            end_reason: None,
            draw_offered_by: None,
            start_timestamp: start_ts,
            end_timestamp: end_ts,
        };
        proof {
            assert(g@.position.position_history =~= Position::initial().position_history);
            assert(g@.position.move_history =~= Position::initial().move_history);
            assert(g@.position.submitted() =~= Seq::<MoveText>::empty());
        }
        g
    }

    /// Creates a game in the starting position, with a fresh identifier and
    /// the current time as its start.
    pub fn new() -> (g: Game)
        ensures
            g@.position == Position::initial(),
            g@.result is None,
            g@.end_reason is None,
            g@.draw_offered_by is None,
            g@.end_timestamp == 0,
            g@ == new_game(g@.id, g@.start_timestamp),
            g@.id.is_random(),
            g@.wf(),
            g@.faithful(),
    {
        Game::new_with_id_and_timestamps(GameId::random(), unix_timestamp(), 0)
    }

    /// Returns the state as it is sent to an agent: the occupied squares,
    /// the side to move, the castling rights, the en-passant square's
    /// name, the clocks and the position history.
    pub fn to_game_state_json(&self) -> (r: GameStateJson)
        requires
            self@.wf(),
        ensures
            entry_texts(r.board@) == map_entries(self@.position.board, 64),
            r.turn == self@.position.turn,
            r.castling == self@.position.castling,
            match r.en_passant {
                Some(name) => self@.position.en_passant matches Some(sq) && name@
                    == sq.algebraic(),
                None => self@.position.en_passant is None,
            },
            r.halfmove_clock == self@.position.halfmove_clock,
            r.fullmove_number == self@.position.fullmove_number,
            texts(r.position_history@) == self@.position.position_history,
    {
        let en_passant = match self.en_passant {
            Some(sq) => Some(sq.to_algebraic()),
            None => None,
        };
        let position_history = copy_strings(&self.position_history);
        assert(texts(position_history@) =~= texts(self.position_history@));
        GameStateJson {
            board: self.board.to_map(),
            turn: self.turn,
            castling: self.castling,
            en_passant,
            halfmove_clock: self.halfmove_clock,
            fullmove_number: self.fullmove_number,
            position_history,
        }
    }

    /// Tells whether the game's state is consistent, as every game is
    /// that was made and changed by the functions of this library alone.
    pub fn is_well_formed(&self) -> (r: bool)
        ensures
            r == self@.wf(),
    {
        let ep_ok = match self.en_passant {
            Some(sq) => sq.file < 8 && sq.rank < 8,
            None => true,
        };
        let moves = self.move_history.len();
        let positions = self.position_history.len();
        assert(self@.position.move_history.len() == moves);
        assert(self@.position.position_history.len() == positions);
        if moves == usize::MAX {
            return false;
        }
        let counted = self.fullmove_number as usize;
        positions == moves + 1 && self.result.is_some() == self.end_reason.is_some() && ep_ok && (
        self.result.is_some() || self.halfmove_clock < 150) && 1 <= counted && counted <= moves
            + 1
    }

    /// Returns `true` if the game has ended.
    pub fn is_over(&self) -> (r: bool)
        ensures
            r == self@.result is Some,
    {
        self.result.is_some()
    }

    /// Generates the legal moves of the side to move.
    pub fn legal_moves(&self) -> (r: Vec<ChessMove>)
        ensures
            r@ == self@.position.legal(),
    {
        generate_legal_moves(&self.board, self.turn, &self.castling, self.en_passant)
    }

    /// Counts how often the current position's fingerprint occurs in the
    /// position history.
    pub fn count_position_repetitions(&self) -> (r: usize)
        ensures
            r == repetitions(self@.position.position_history),
    {
        let n = self.position_history.len();
        if n == 0 {
            return 0;
        }
        let ghost h = texts(self.position_history@);
        let mut count: usize = 0;
        let mut i: usize = 0;
        while i < n
            invariant
                i <= n,
                n == self.position_history.len(),
                n > 0,
                h == texts(self.position_history@),
                count <= i,
                count == occurrences(h, h.last(), i as int),
            decreases n - i,
        {
            if same_text(self.position_history[i].as_str(), self.position_history[n - 1].as_str()) {
                count = count + 1;
            }
            i = i + 1;
        }
        count
    }

    /// Ends the game if the rules end it in the current position.
    fn check_game_end_conditions(&mut self)
        requires
            old(self)@.result is None,
            old(self)@.end_reason is None,
        ensures
            final(self)@ == (GameState {
                result: match old(self)@.position.ending() {
                    Some(e) => Some(e.0),
                    None => None,
                },
                end_reason: match old(self)@.position.ending() {
                    Some(e) => Some(e.1),
                    None => None,
                },
                ..old(self)@
            }),
    {
        let legal = self.legal_moves();
        if legal.len() == 0 {
            if is_in_check(&self.board, self.turn) {
                self.result = Some(
                    match self.turn {
                        Color::White => GameResult::BlackWins,
                        Color::Black => GameResult::WhiteWins,
                    },
                );
                self.end_reason = Some(GameEndReason::Checkmate);
            } else {
                self.result = Some(GameResult::Draw);
                self.end_reason = Some(GameEndReason::Stalemate);
            }
            return ;
        }
        if is_insufficient_material(&self.board) {
            self.result = Some(GameResult::Draw);
            self.end_reason = Some(GameEndReason::InsufficientMaterial);
            return ;
        }
        if self.count_position_repetitions() >= 5 {
            self.result = Some(GameResult::Draw);
            self.end_reason = Some(GameEndReason::FivefoldRepetition);
            return ;
        }
        if self.halfmove_clock >= 150 {
            self.result = Some(GameResult::Draw);
            self.end_reason = Some(GameEndReason::SeventyFiveMoveRule);
        }
    }

    /// Records a legal move and moves the position on: board, castling
    /// rights, en-passant square, clocks, side to move and both histories.
    /// A draw offer is gone.
    fn advance(&mut self, mv: &ChessMove, move_json: &MoveJson)
        requires
            old(self)@.wf(),
            old(self)@.result is None,
            old(self)@.position.move_history.len() < history_limit(),
            applicable(old(self)@.position.board, *mv, old(self)@.position.turn),
        ensures
            final(self)@ == (GameState {
                position: old(self)@.position.after(*mv, move_json@),
                draw_offered_by: None,
                ..old(self)@
            }),
    {
        let record = MoveRecord {
            move_number: self.fullmove_number,
            side: self.turn,
            notation: mv.to_string(),
            move_json: move_json.duplicate(),
        };
        let resets = moves_reset_clock(&self.board, mv);
        let en_passant = en_passant_square(&self.board, mv);
        let mut board = self.board;
        apply_move_to_board(&mut board, mv, self.turn);
        let castling = update_castling_rights(self.castling, &board, mv);
        let turn = self.turn.opponent();
        let fen = board.to_position_fen(turn, &castling, en_passant);

        proof {
            lemma_push_record(self.move_history@, record);
            lemma_push_text(self.position_history@, fen);
        }
        self.move_history.push(record);
        self.position_history.push(fen);
        self.board = board;
        self.castling = castling;
        self.en_passant = en_passant;
        if resets {
            self.halfmove_clock = 0;
        } else {
            self.halfmove_clock = self.halfmove_clock + 1;
        }
        self.turn = turn;
        if turn == Color::White {
            self.fullmove_number = self.fullmove_number + 1;
        }
        self.draw_offered_by = None;
    }

    /// Processes a submitted move at the time `now`. An illegal or
    /// unreadable move, or any move once the game has a result, is
    /// rejected and leaves the game as it was. A legal move is recorded and
    /// applied: board, castling rights, en-passant square, clocks, side to
    /// move and position history move on, a draw offer is gone, and the
    /// game ends if the rules end it in the new position.
    ///
    /// A game that has come from a new game by moves and actions alone can
    /// always take this call: such a game is short. Only a game that was
    /// put together by hand must keep its history below the limit of the
    /// 32-bit move counters.
    pub fn make_move_at(&mut self, move_json: &MoveJson, now: u64) -> (r: Result<(), MoveError>)
        requires
            old(self)@.wf(),
            old(self)@.faithful() || old(self)@.position.move_history.len() < history_limit(),
        ensures
            match r {
                Ok(_) => old(self)@.move_outcome(move_json@) matches Ok(mv) && final(self)@ == old(
                    self,
                )@.after_move(mv, move_json@, now),
                Err(e) => old(self)@.move_outcome(move_json@) == Err::<ChessMove, MoveFault>(e@)
                    && *final(self) == *old(self),
            },
            final(self)@.wf(),
            old(self)@.faithful() ==> final(self)@.faithful(),
    {
        if self.is_over() {
            return Err(MoveError::GameOver);
        }
        let chess_move = match find_matching_legal_move(
            &self.board,
            self.turn,
            &self.castling,
            self.en_passant,
            move_json,
        ) {
            Ok(m) => m,
            Err(e) => {
                return Err(e);
            },
        };
        let ghost before = self@;
        proof {
            if before.faithful() {
                lemma_faithful_games_are_short(before);
            }
        }
        self.advance(&chess_move, move_json);
        self.check_game_end_conditions();
        if self.is_over() && self.end_timestamp == 0 {
            self.end_timestamp = now;
        }
        proof {
            assert(self@ == before.after_move(chess_move, move_json@, now));
            lemma_move_keeps_wf(before, chess_move, move_json@, now);
            if before.faithful() {
                lemma_move_keeps_faithful(before, chess_move, move_json@, now);
            }
        }
        Ok(())
    }

    /// Processes a submitted move now: as `make_move_at`, with the end time
    /// taken from the clock. Whatever the clock says, the outcome is that
    /// of `make_move_at` at some time.
    pub fn make_move(&mut self, move_json: &MoveJson) -> (r: Result<(), MoveError>)
        requires
            old(self)@.wf(),
            old(self)@.faithful() || old(self)@.position.move_history.len() < history_limit(),
        ensures
            match r {
                Ok(_) => old(self)@.move_outcome(move_json@) matches Ok(mv) && exists|now: u64|
                    final(self)@ == #[trigger] old(self)@.after_move(mv, move_json@, now),
                Err(e) => old(self)@.move_outcome(move_json@) == Err::<ChessMove, MoveFault>(e@)
                    && *final(self) == *old(self),
            },
            final(self)@.wf(),
            old(self)@.faithful() ==> final(self)@.faithful(),
    {
        let now = unix_timestamp();
        self.make_move_at(move_json, now)
    }

    /// Processes a special action (resignation, draw offer, acceptance or
    /// claim) at the time `now`. A rejected action leaves the game as it
    /// was.
    pub fn process_action_at(&mut self, action: &ActionJson, now: u64) -> (r: Result<
        (),
        ActionError,
    >)
        requires
            old(self)@.wf(),
        ensures
            match r {
                Ok(_) => old(self)@.after_action(action@, now) == Ok::<GameState, ActionError>(
                    final(self)@,
                ),
                Err(e) => old(self)@.after_action(action@, now) == Err::<GameState, ActionError>(e)
                    && *final(self) == *old(self),
            },
            final(self)@.wf(),
            final(self)@.position == old(self)@.position,
            old(self)@.faithful() ==> final(self)@.faithful(),
    {
        if self.is_over() {
            return Err(ActionError::GameOver);
        }
        let name = action.action.as_str();
        if same_text(name, "resign") {
            self.result = Some(
                match self.turn {
                    Color::White => GameResult::BlackWins,
                    Color::Black => GameResult::WhiteWins,
                },
            );
            self.end_reason = Some(GameEndReason::Resignation);
            self.end_timestamp = now;
            Ok(())
        } else if same_text(name, "offer_draw") {
            self.draw_offered_by = Some(self.turn);
            Ok(())
        } else if same_text(name, "accept_draw") {
            let offered = match self.draw_offered_by {
                Some(c) => c == self.turn.opponent(),
                None => false,
            };
            if offered {
                self.result = Some(GameResult::Draw);
                self.end_reason = Some(GameEndReason::DrawAgreement);
                self.end_timestamp = now;
                Ok(())
            } else {
                Err(ActionError::NoDrawOffer)
            }
        } else if same_text(name, "claim_draw") {
            let threefold = match &action.reason {
                Some(r) => same_text(r.as_str(), "threefold_repetition"),
                None => false,
            };
            let fifty = match &action.reason {
                Some(r) => same_text(r.as_str(), "fifty_move_rule"),
                None => false,
            };
            if threefold {
                if self.count_position_repetitions() >= 3 {
                    self.result = Some(GameResult::Draw);
                    self.end_reason = Some(GameEndReason::ThreefoldRepetition);
                    self.end_timestamp = now;
                    Ok(())
                } else {
                    Err(ActionError::NoThreefoldRepetition)
                }
            } else if fifty {
                if self.halfmove_clock >= 100 {
                    self.result = Some(GameResult::Draw);
                    self.end_reason = Some(GameEndReason::FiftyMoveRule);
                    self.end_timestamp = now;
                    Ok(())
                } else {
                    Err(ActionError::NoFiftyMoves { clock: self.halfmove_clock })
                }
            } else {
                Err(ActionError::InvalidDrawReason)
            }
        } else {
            Err(ActionError::UnknownAction)
        }
    }

    /// Processes a special action now: as `process_action_at`, with the end
    /// time taken from the clock.
    pub fn process_action(&mut self, action: &ActionJson) -> (r: Result<(), ActionError>)
        requires
            old(self)@.wf(),
        ensures
            match r {
                Ok(_) => exists|now: u64| #[trigger]
                    old(self)@.after_action(action@, now) == Ok::<GameState, ActionError>(
                        final(self)@,
                    ),
                Err(e) => (forall|now: u64| #[trigger]
                    old(self)@.after_action(action@, now) == Err::<GameState, ActionError>(e))
                    && *final(self) == *old(self),
            },
            final(self)@.wf(),
            final(self)@.position == old(self)@.position,
            old(self)@.faithful() ==> final(self)@.faithful(),
    {
        let now = unix_timestamp();
        self.process_action_at(action, now)
    }
}

impl Default for Game {
    /// A new game, as `Game::new` makes it.
    fn default() -> (g: Game)
        ensures
            g@.position == Position::initial(),
            g@.result is None,
            g@.wf(),
    {
        Game::new()
    }
}

} // verus!
