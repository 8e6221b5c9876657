//! Reading a move as it is typed at a terminal, and the symbols under
//! which pieces are shown there.

use crate::text::{chars_of, lower_string, lowered, push_chars, same_text, trim_bounds, trimmed};
use crate::game::{repetitions, Game};
use crate::types::{ActionJson, Color, MoveJson, MoveText, Piece, PieceKind, Square};
use vstd::prelude::*;

verus! {

/// The text without its space characters.
pub open spec fn without_spaces(s: Seq<char>) -> Seq<char>
    decreases s.len(),
{
    if s.len() == 0 {
        Seq::empty()
    } else if s.last() == ' ' {
        without_spaces(s.drop_last())
    } else {
        without_spaces(s.drop_last()).push(s.last())
    }
}

/// The promotion letter that a typed character stands for: `Q`, `R`, `B`
/// or `N`, typed in either case.
pub open spec fn typed_promotion(c: char) -> Option<char> {
    if c == 'q' || c == 'Q' {
        Some('Q')
    } else if c == 'r' || c == 'R' {
        Some('R')
    } else if c == 'b' || c == 'B' {
        Some('B')
    } else if c == 'n' || c == 'N' {
        Some('N')
    } else {
        None
    }
}

/// The move that a typed text stands for. Spaces are left out, and white
/// space at both ends. What is left must be the names of two squares,
/// followed or not by a promotion letter.
pub open spec fn typed_move(input: Seq<char>) -> Option<MoveText> {
    let t = trimmed(without_spaces(input));
    if t.len() != 4 && t.len() != 5 {
        None
    } else if Square::parse(t.subrange(0, 2)) is None || Square::parse(t.subrange(2, 4)) is None {
        None
    } else if t.len() == 4 {
        Some(MoveText { from: t.subrange(0, 2), to: t.subrange(2, 4), promotion: None })
    } else {
        match typed_promotion(t[4]) {
            Some(c) => Some(
                MoveText { from: t.subrange(0, 2), to: t.subrange(2, 4), promotion: Some(seq![c]) },
            ),
            None => None,
        }
    }
}

/// Returns the characters of a text that are not spaces.
fn strip_spaces(chars: &Vec<char>) -> (r: Vec<char>)
    ensures
        r@ == without_spaces(chars@),
{
    let mut out: Vec<char> = Vec::new();
    let mut i: usize = 0;
    while i < chars.len()
        invariant
            i <= chars.len(),
            out@ == without_spaces(chars@.take(i as int)),
        decreases chars.len() - i,
    {
        assert(chars@.take(i + 1).drop_last() =~= chars@.take(i as int));
        if chars[i] != ' ' {
            out.push(chars[i]);
        }
        i = i + 1;
    }
    assert(chars@.take(i as int) =~= chars@);
    out
}

/// Parses a move as it is typed, such as `e2e4`, `e7e8q` or `e2 e4`.
/// Returns `None` for anything else.
pub fn parse_move_input(input: &str) -> (r: Option<MoveJson>)
    ensures
        match r {
            Some(m) => typed_move(input@) == Some(m@),
            None => typed_move(input@) is None,
        },
{
    let all = chars_of(input);
    let chars = strip_spaces(&all);
    let (from, to) = trim_bounds(&chars, 0, chars.len());
    assert(chars@.subrange(0, chars@.len() as int) =~= chars@);
    if from >= to {
        return None;
    }
    let ghost t = chars@.subrange(from as int, to as int);
    assert(t =~= trimmed(without_spaces(input@)));
    let len = to - from;
    if len != 4 && len != 5 {
        return None;
    }
    let mut from_name = String::new();
    push_chars(&mut from_name, &chars, from, from + 2);
    let mut to_name = String::new();
    push_chars(&mut to_name, &chars, from + 2, from + 4);
    assert(from_name@ =~= t.subrange(0, 2));
    assert(to_name@ =~= t.subrange(2, 4));
    if Square::from_algebraic(from_name.as_str()).is_none() || Square::from_algebraic(
        to_name.as_str(),
    ).is_none() {
        return None;
    }
    let promotion = if len == 5 {
        let c = chars[from + 4];
        assert(c == t[4]);
        let letter = if c == 'q' || c == 'Q' {
            'Q'
        } else if c == 'r' || c == 'R' {
            'R'
        } else if c == 'b' || c == 'B' {
            'B'
        } else if c == 'n' || c == 'N' {
            'N'
        } else {
            return None;
        };
        let mut p = String::new();
        p.push(letter);
        assert(p@ =~= seq![letter]);
        Some(p)
    } else {
        None
    };
    Some(MoveJson { from: from_name, to: to_name, promotion })
}

/// Returns the symbol under which a piece is shown: its letter, in upper
/// case for White and in lower case for Black.
pub fn piece_to_unicode(piece: Piece) -> (r: &'static str)
    ensures
        r@ == seq![piece.symbol()],
{
    proof {
        reveal_strlit("K");
        reveal_strlit("Q");
        reveal_strlit("R");
        reveal_strlit("B");
        reveal_strlit("N");
        reveal_strlit("P");
        reveal_strlit("k");
        reveal_strlit("q");
        reveal_strlit("r");
        reveal_strlit("b");
        reveal_strlit("n");
        reveal_strlit("p");
    }
    let r = match piece.color {
        Color::White => match piece.kind {
            PieceKind::King => "K",
            PieceKind::Queen => "Q",
            PieceKind::Rook => "R",
            PieceKind::Bishop => "B",
            PieceKind::Knight => "N",
            PieceKind::Pawn => "P",
        },
        Color::Black => match piece.kind {
            PieceKind::King => "k",
            PieceKind::Queen => "q",
            PieceKind::Rook => "r",
            PieceKind::Bishop => "b",
            PieceKind::Knight => "n",
            PieceKind::Pawn => "p",
        },
    };
    assert(r@ =~= seq![piece.symbol()]);
    r
}


/// What a player asks for at the terminal.
#[derive(Debug, Clone, PartialEq, Eq)]
pub enum Command {
    /// Nothing was entered.
    Empty,
    /// Leave the game.
    Quit,
    /// Show the commands.
    Help,
    /// Show the board.
    Board,
    /// List the legal moves.
    Moves,
    /// Resign.
    Resign,
    /// Claim a draw.
    Draw,
    /// Show the moves so far.
    History,
    /// Show the state as JSON.
    Json,
    /// Make a move.
    Move(MoveJson),
    /// Anything else.
    Unknown,
}

/// A `Command` as a mathematical value.
pub enum CommandView {
    Empty,
    Quit,
    Help,
    Board,
    Moves,
    Resign,
    Draw,
    History,
    Json,
    Move(MoveText),
    Unknown,
}

impl View for Command {
    type V = CommandView;

    open spec fn view(&self) -> CommandView {
        match self {
            Command::Empty => CommandView::Empty,
            Command::Quit => CommandView::Quit,
            Command::Help => CommandView::Help,
            Command::Board => CommandView::Board,
            Command::Moves => CommandView::Moves,
            Command::Resign => CommandView::Resign,
            Command::Draw => CommandView::Draw,
            Command::History => CommandView::History,
            Command::Json => CommandView::Json,
            Command::Move(m) => CommandView::Move(m@),
            Command::Unknown => CommandView::Unknown,
        }
    }
}

/// The command that an entered line stands for. The line is trimmed and
/// read in lower case; what is no command word is read as a move.
pub open spec fn command_of(line: Seq<char>) -> CommandView {
    let t = lowered(trimmed(line));
    if t.len() == 0 {
        CommandView::Empty
    } else if t == "quit"@ || t == "exit"@ || t == "q"@ {
        CommandView::Quit
    } else if t == "help"@ || t == "h"@ || t == "?"@ {
        CommandView::Help
    } else if t == "board"@ || t == "b"@ {
        CommandView::Board
    } else if t == "moves"@ || t == "m"@ {
        CommandView::Moves
    } else if t == "resign"@ || t == "r"@ {
        CommandView::Resign
    } else if t == "draw"@ || t == "d"@ {
        CommandView::Draw
    } else if t == "history"@ {
        CommandView::History
    } else if t == "json"@ || t == "j"@ {
        CommandView::Json
    } else {
        match typed_move(t) {
            Some(m) => CommandView::Move(m),
            None => CommandView::Unknown,
        }
    }
}

/// Reads the command that a player has entered.
pub fn parse_command(line: &str) -> (r: Command)
    ensures
        r@ == command_of(line@),
{
    let chars = chars_of(line);
    let (from, to) = trim_bounds(&chars, 0, chars.len());
    assert(chars@.subrange(0, chars@.len() as int) =~= line@);
    let lower = lower_string(&chars, from, to);
    let t = lower.as_str();
    if t.unicode_len() == 0 {
        Command::Empty
    } else if same_text(t, "quit") || same_text(t, "exit") || same_text(t, "q") {
        Command::Quit
    } else if same_text(t, "help") || same_text(t, "h") || same_text(t, "?") {
        Command::Help
    } else if same_text(t, "board") || same_text(t, "b") {
        Command::Board
    } else if same_text(t, "moves") || same_text(t, "m") {
        Command::Moves
    } else if same_text(t, "resign") || same_text(t, "r") {
        Command::Resign
    } else if same_text(t, "draw") || same_text(t, "d") {
        Command::Draw
    } else if same_text(t, "history") {
        Command::History
    } else if same_text(t, "json") || same_text(t, "j") {
        Command::Json
    } else {
        match parse_move_input(t) {
            Some(m) => Command::Move(m),
            None => Command::Unknown,
        }
    }
}

/// Returns the draw claim that a player can make in a game: by repetition
/// if the current position has occurred three times, else by the
/// fifty-move rule if the half-move clock has reached 100, else none.
pub fn claimable_draw(game: &Game) -> (r: Option<ActionJson>)
    ensures
        match r {
            Some(a) => a.action@ == "claim_draw"@ && (match a.reason {
                Some(reason) => reason@ == (if repetitions(game@.position.position_history) >= 3 {
                    "threefold_repetition"@
                } else {
                    "fifty_move_rule"@
                }),
                None => false,
            }) && (repetitions(game@.position.position_history) >= 3
                || game@.position.halfmove_clock >= 100),
            None => repetitions(game@.position.position_history) < 3
                && game@.position.halfmove_clock < 100,
        },
{
    if game.count_position_repetitions() >= 3 {
        Some(
            ActionJson {
                action: "claim_draw".to_owned(),
                reason: Some("threefold_repetition".to_owned()),
            },
        )
    } else if game.halfmove_clock >= 100 {
        Some(
            ActionJson {
                action: "claim_draw".to_owned(),
                reason: Some("fifty_move_rule".to_owned()),
            },
        )
    } else {
        None
    }
}

} // verus!
