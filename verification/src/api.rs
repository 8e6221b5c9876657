//! What the request handlers answer: the board as text, and the answers'
//! contents, computed from games and archives.

use crate::game::{records, texts, Game, MoveRecord};
use crate::movegen::{in_check, is_in_check, legal_moves};
use crate::storage::GameArchive;
use crate::text::digit_char;
use crate::types::{
    cell, entry_texts, map_entries, ActionJson, Board, Cells, Color, GameEndReason, GameResult,
    GameStateJson, MoveJson, MoveText, Square,
};
use vstd::prelude::*;

verus! {

/// The line between the ranks of a board diagram.
pub open spec fn rule_line() -> Seq<char> {
    "  +---+---+---+---+---+---+---+---+\n"@
}

/// The first `n` squares of a rank in a board diagram.
pub open spec fn ascii_squares(b: Cells, rank: int, n: int) -> Seq<char>
    decreases n,
{
    if n <= 0 {
        Seq::empty()
    } else {
        ascii_squares(b, rank, n - 1) + seq![
            '|',
            ' ',
            match cell(b, n - 1, rank) {
                Some(p) => p.symbol(),
                None => ' ',
            },
            ' ',
        ]
    }
}

/// The `n` highest ranks of a board diagram, each with its number in front
/// and a rule below.
pub open spec fn ascii_ranks(b: Cells, n: int) -> Seq<char>
    decreases n,
{
    if n <= 0 {
        Seq::empty()
    } else {
        ascii_ranks(b, n - 1) + seq![digit_char(9 - n), ' '] + ascii_squares(b, 8 - n, 8) + "|\n"@
            + rule_line()
    }
}

/// The diagram of a board: the ranks from the eighth to the first between
/// rules, the files' letters, and the side to move.
pub open spec fn board_ascii(b: Cells, turn: Color) -> Seq<char> {
    rule_line() + ascii_ranks(b, 8) + "    a   b   c   d   e   f   g   h\n"@ + "\n  "@
        + turn.name() + " to move \n"@
}

/// Renders the board as a diagram in text.
pub fn board_to_ascii(board: &Board, turn: Color) -> (r: String)
    ensures
        r@ == board_ascii(board@, turn),
{
    let mut s = String::new();
    s.append("  +---+---+---+---+---+---+---+---+\n");
    let mut done: u8 = 0;
    assert(s@ =~= rule_line() + ascii_ranks(board@, 0));
    while done < 8
        invariant
            done <= 8,
            s@ == rule_line() + ascii_ranks(board@, done as int),
        decreases 8 - done,
    {
        let ghost before = ascii_ranks(board@, done as int);
        let rank: u8 = 7 - done;
        s.push(crate::text::digit_to_char(rank + 1));
        s.push(' ');
        let ghost lead = s@;
        let mut file: u8 = 0;
        assert(s@ =~= lead + ascii_squares(board@, rank as int, 0));
        while file < 8
            invariant
                file <= 8,
                rank < 8,
                s@ == lead + ascii_squares(board@, rank as int, file as int),
            decreases 8 - file,
        {
            let ghost had = ascii_squares(board@, rank as int, file as int);
            let ch = match board.get(Square { file, rank }) {
                Some(piece) => piece.to_fen_char(),
                None => ' ',
            };
            s.push('|');
            s.push(' ');
            s.push(ch);
            s.push(' ');
            assert(s@ =~= lead + (had + seq!['|', ' ', ch, ' ']));
            file = file + 1;
        }
        s.append("|\n");
        s.append("  +---+---+---+---+---+---+---+---+\n");
        done = done + 1;
        assert(s@ =~= rule_line() + (before + seq![digit_char(9 - done), ' '] + ascii_squares(
            board@,
            8 - done,
            8,
        ) + "|\n"@ + rule_line()));
    }
    s.append("    a   b   c   d   e   f   g   h\n");
    s.append("\n  ");
    let name = turn.to_string();
    s.append(name.as_str());
    s.append(" to move \n");
    assert(s@ =~= board_ascii(board@, turn));
    s
}

/// The summary of a game in a list of games.
#[derive(Debug, Clone, PartialEq, Eq)]
pub struct GameSummary {
    /// The game's identifier.
    pub game_id: String,
    /// The side to move.
    pub turn: Color,
    /// The full-move number.
    pub fullmove_number: u32,
    /// Whether the game has ended.
    pub is_over: bool,
    /// The result, if the game has ended.
    pub result: Option<GameResult>,
}

impl GameSummary {
    /// Summarises a game.
    pub fn of(game: &Game) -> (r: GameSummary)
        ensures
            r.game_id@ == game@.id.text(),
            r.turn == game@.position.turn,
            r.fullmove_number == game@.position.fullmove_number,
            r.is_over == game@.result is Some,
            r.result == game@.result,
    {
        GameSummary {
            game_id: game.id.to_string(),
            turn: game.turn,
            fullmove_number: game.fullmove_number,
            is_over: game.is_over(),
            result: game.result,
        }
    }
}

/// The list of all live games.
#[derive(Debug, Clone, PartialEq, Eq)]
pub struct GameListResponse {
    /// The games' summaries.
    pub games: Vec<GameSummary>,
    /// Their number.
    pub total: usize,
}

impl GameListResponse {
    /// Makes the list of the given summaries.
    pub fn of(games: Vec<GameSummary>) -> (r: GameListResponse)
        ensures
            r.games == games,
            r.total == games@.len(),
    {
        let total = games.len();
        GameListResponse { games, total }
    }
}

/// The answer to the creation of a game.
#[derive(Debug, Clone, PartialEq, Eq)]
pub struct CreateGameResponse {
    /// The new game's identifier.
    pub game_id: String,
    /// A message that confirms the creation.
    pub message: String,
}

/// The answer to a failed request.
#[derive(Debug, Clone, PartialEq, Eq)]
pub struct ErrorResponse {
    /// What went wrong.
    pub error: String,
}

/// The body of a request that submits a move.
#[derive(Debug, Clone, PartialEq, Eq)]
pub struct SubmitMoveRequest {
    /// Name of the square the piece leaves.
    pub from: String,
    /// Name of the square the piece reaches.
    pub to: String,
    /// For a promotion, `Q`, `R`, `B` or `N`.
    pub promotion: Option<String>,
}

impl SubmitMoveRequest {
    /// Returns the move that the request submits.
    pub fn to_move_json(&self) -> (r: MoveJson)
        ensures
            r@ == (MoveText {
                from: self.from@,
                to: self.to@,
                promotion: match self.promotion {
                    Some(p) => Some(p@),
                    None => None,
                },
            }),
    {
        MoveJson {
            from: self.from.clone(),
            to: self.to.clone(),
            promotion: match &self.promotion {
                Some(p) => Some(p.clone()),
                None => None,
            },
        }
    }
}

/// The body of a request that submits a special action.
#[derive(Debug, Clone, PartialEq, Eq)]
pub struct SubmitActionRequest {
    /// The action's name.
    pub action: String,
    /// For a draw claim, its reason.
    pub reason: Option<String>,
}

impl SubmitActionRequest {
    /// Returns the action that the request submits.
    pub fn to_action_json(&self) -> (r: ActionJson)
        ensures
            r.action@ == self.action@,
            match r.reason {
                Some(x) => self.reason matches Some(y) && x@ == y@,
                None => self.reason is None,
            },
    {
        ActionJson {
            action: self.action.clone(),
            reason: match &self.reason {
                Some(p) => Some(p.clone()),
                None => None,
            },
        }
    }
}

/// Returns a copy of a move history.
pub fn copy_records(v: &Vec<MoveRecord>) -> (r: Vec<MoveRecord>)
    ensures
        records(r@) == records(v@),
{
    let mut out: Vec<MoveRecord> = Vec::new();
    let mut i: usize = 0;
    while i < v.len()
        invariant
            i <= v.len(),
            out@.len() == i,
            forall|j: int| 0 <= j < i ==> (#[trigger] out@[j])@ == v@[j]@,
        decreases v.len() - i,
    {
        let rec = &v[i];
        out.push(
            MoveRecord {
                move_number: rec.move_number,
                side: rec.side,
                notation: rec.notation.clone(),
                move_json: rec.move_json.duplicate(),
            },
        );
        i = i + 1;
    }
    assert(records(out@) =~= records(v@));
    out
}

/// The full state of a game.
#[derive(Debug, Clone, PartialEq, Eq)]
pub struct GameInfoResponse {
    /// The game's identifier.
    pub game_id: String,
    /// The state as it is sent to an agent.
    pub state: GameStateJson,
    /// Whether the game has ended.
    pub is_over: bool,
    /// The result, if the game has ended.
    pub result: Option<GameResult>,
    /// Why the game ended, if it has.
    pub end_reason: Option<GameEndReason>,
    /// Whether the side to move is in check.
    pub is_check: bool,
    /// The number of legal moves of the side to move.
    pub legal_move_count: usize,
    /// The moves made so far.
    pub move_history: Vec<MoveRecord>,
}

/// The state that is sent to an agent is that of the game.
pub open spec fn state_of(state: GameStateJson, game: Game) -> bool {
    &&& entry_texts(state.board@) == map_entries(game@.position.board, 64)
    &&& state.turn == game@.position.turn
    &&& state.castling == game@.position.castling
    &&& match state.en_passant {
        Some(name) => game@.position.en_passant matches Some(sq) && name@ == sq.algebraic(),
        None => game@.position.en_passant is None,
    }
    &&& state.halfmove_clock == game@.position.halfmove_clock
    &&& state.fullmove_number == game@.position.fullmove_number
    &&& texts(state.position_history@) == game@.position.position_history
}

impl GameInfoResponse {
    /// Describes a game in full: its state, whether it has ended and how,
    /// whether the side to move is in check, how many legal moves it has,
    /// and the moves made so far.
    pub fn of(game: &Game) -> (r: GameInfoResponse)
        requires
            game@.wf(),
        ensures
            r.game_id@ == game@.id.text(),
            state_of(r.state, *game),
            r.is_over == game@.result is Some,
            r.result == game@.result,
            r.end_reason == game@.end_reason,
            r.is_check == in_check(game@.position.board, game@.position.turn),
            r.legal_move_count == game@.position.legal().len(),
            records(r.move_history@) == game@.position.move_history,
    {
        let legal = game.legal_moves();
        GameInfoResponse {
            game_id: game.id.to_string(),
            state: game.to_game_state_json(),
            is_over: game.is_over(),
            result: game.result,
            end_reason: game.end_reason,
            is_check: is_in_check(&game.board, game.turn),
            legal_move_count: legal.len(),
            move_history: copy_records(&game.move_history),
        }
    }
}

/// The answer to an accepted move or action.
#[derive(Debug, Clone, PartialEq, Eq)]
pub struct MoveResponse {
    /// Whether the move or action was accepted.
    pub success: bool,
    /// A message for the reader.
    pub message: String,
    /// The state after the move or action.
    pub state: GameStateJson,
    /// Whether the game has ended.
    pub is_over: bool,
    /// The result, if the game has ended.
    pub result: Option<GameResult>,
    /// Why the game ended, if it has.
    pub end_reason: Option<GameEndReason>,
    /// Whether the side to move is in check.
    pub is_check: bool,
}

/// The message after an accepted move: the result and the reason if the
/// game has ended, else the side to move, and that it is in check if it
/// is.
pub open spec fn move_message(
    turn: Color,
    ending: Option<(GameResult, GameEndReason)>,
    check: bool,
) -> Seq<char> {
    match ending {
        Some((result, reason)) => "Game over: "@ + result.text() + " by "@ + reason.text(),
        None => turn.name() + " to move"@ + (if check {
            " (check)"@
        } else {
            Seq::empty()
        }),
    }
}

impl MoveResponse {
    /// Describes a game after an accepted move: the complete state, so that
    /// no further query is needed, and a message.
    pub fn of(game: &Game) -> (r: MoveResponse)
        requires
            game@.wf(),
        ensures
            r.success,
            state_of(r.state, *game),
            r.is_over == game@.result is Some,
            r.result == game@.result,
            r.end_reason == game@.end_reason,
            r.is_check == in_check(game@.position.board, game@.position.turn),
            r.message@ == move_message(
                game@.position.turn,
                match (game@.result, game@.end_reason) {
                    (Some(a), Some(b)) => Some((a, b)),
                    _ => None,
                },
                r.is_check,
            ),
    {
        let is_check = is_in_check(&game.board, game.turn);
        let mut message = String::new();
        match (game.result, game.end_reason) {
            (Some(result), Some(reason)) => {
                message.append("Game over: ");
                let a = result.to_string();
                message.append(a.as_str());
                message.append(" by ");
                let b = reason.to_string();
                message.append(b.as_str());
                assert(message@ =~= "Game over: "@ + result.text() + " by "@ + reason.text());
            },
            _ => {
                let name = game.turn.to_string();
                message.append(name.as_str());
                message.append(" to move");
                if is_check {
                    message.append(" (check)");
                }
                assert(message@ =~= game.turn.name() + " to move"@ + (if is_check {
                    " (check)"@
                } else {
                    Seq::empty()
                }));
            },
        }
        MoveResponse {
            success: true,
            message,
            state: game.to_game_state_json(),
            is_over: game.is_over(),
            result: game.result,
            end_reason: game.end_reason,
            is_check,
        }
    }
}

/// The legal moves of a game's position.
#[derive(Debug, Clone, PartialEq, Eq)]
pub struct LegalMovesResponse {
    /// The side to move.
    pub turn: Color,
    /// The legal moves, as they are submitted.
    pub moves: Vec<MoveJson>,
    /// Their number.
    pub count: usize,
}

impl LegalMovesResponse {
    /// Lists the legal moves of a game's position in the form in which
    /// moves are submitted.
    pub fn of(game: &Game) -> (r: LegalMovesResponse)
        ensures
            r.turn == game@.position.turn,
            r.count == game@.position.legal().len(),
            r.moves@.len() == r.count,
            forall|i: int|
                0 <= i < r.moves@.len() ==> (#[trigger] r.moves@[i])@
                    == game@.position.legal()[i].text(),
    {
        let legal = crate::movegen::generate_legal_moves(
            &game.board,
            game.turn,
            &game.castling,
            game.en_passant,
        );
        let mut moves: Vec<MoveJson> = Vec::new();
        let mut i: usize = 0;
        while i < legal.len()
            invariant
                i <= legal.len(),
                crate::movegen::all_applicable(game.board@, legal@, game.turn),
                moves@.len() == i,
                forall|j: int| 0 <= j < i ==> (#[trigger] moves@[j])@ == legal@[j].text(),
            decreases legal.len() - i,
        {
            let m = legal[i];
            assert(crate::movegen::applicable(game.board@, legal@[i as int], game.turn));
            moves.push(m.to_json());
            i = i + 1;
        }
        let count = moves.len();
        LegalMovesResponse { turn: game.turn, moves, count }
    }
}

/// The query of a replay request.
#[derive(Debug, Clone, Copy, PartialEq, Eq, Structural)]
pub struct ReplayQuery {
    /// The number of half-moves to replay; all if it is left out.
    pub move_number: Option<usize>,
}

impl ReplayQuery {
    /// Returns the number of half-moves that are replayed of `total`: the
    /// number asked for, but at most all; all if no number is asked for.
    pub fn target(&self, total: usize) -> (n: usize)
        ensures
            n == (match self.move_number {
                Some(k) => if k <= total {
                    k
                } else {
                    total
                },
                None => total,
            }),
    {
        match self.move_number {
            Some(k) => if k <= total {
                k
            } else {
                total
            },
            None => total,
        }
    }
}

/// The state of an archived game at some half-move.
#[derive(Debug, Clone, PartialEq, Eq)]
pub struct ReplayResponse {
    /// The game's identifier.
    pub game_id: String,
    /// The half-move to which the game was replayed.
    pub at_move: usize,
    /// The number of half-moves of the game.
    pub total_moves: usize,
    /// The state at that half-move.
    pub state: GameStateJson,
    /// Whether the game was over at that half-move.
    pub is_over: bool,
    /// The result at that half-move.
    pub result: Option<GameResult>,
    /// Whether the side to move is in check at that half-move.
    pub is_check: bool,
}

impl ReplayResponse {
    /// Describes an archived game at the half-move to which it was
    /// replayed.
    pub fn of(archive: &GameArchive, game: &Game, at_move: usize) -> (r: ReplayResponse)
        requires
            game@.wf(),
        ensures
            r.game_id@ == archive@.game_id.text(),
            r.at_move == at_move,
            r.total_moves == archive@.moves.len(),
            state_of(r.state, *game),
            r.is_over == game@.result is Some,
            r.result == game@.result,
            r.is_check == in_check(game@.position.board, game@.position.turn),
    {
        ReplayResponse {
            game_id: archive.game_id.to_string(),
            at_move,
            total_moves: archive.move_count(),
            state: game.to_game_state_json(),
            is_over: game.is_over(),
            result: game.result,
            is_check: is_in_check(&game.board, game.turn),
        }
    }
}

} // verus!
