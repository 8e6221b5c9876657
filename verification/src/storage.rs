//! The game archive: the compact binary format of a game, its compressed
//! form, and the replay that rebuilds a game from an archive.
//!
//! A raw archive is a header of 41 bytes and two bytes for every move:
//!
//! ```text
//!  0..4   magic "CKAI"
//!  4      version, 1
//!  5..21  game identifier, 16 bytes, most significant first
//! 21..29  start time, 64 bits, most significant byte first
//! 29..37  end time, 64 bits, most significant byte first (0 if ongoing)
//! 37      result: 0 ongoing, 1 White wins, 2 Black wins, 3 draw
//! 38      end reason: 0 none, 1..9 as in `reason_byte`
//! 39..41  number of moves, 16 bits, most significant byte first
//! 41..    one 16-bit word for every move, least significant byte first:
//!           bits  0..6   index of the source square
//!           bits  6..12  index of the target square
//!           bits 12..15  promotion: 0 none, 1 Q, 2 R, 3 B, 4 N
//!           bit  15      reserved, 0
//! ```

use crate::game::{played, Game, GameState, Position};
use crate::ident::GameId;
use crate::types::{
    promotion_letter, promotion_string, square_at_index, ChessMove, ErrorKind, GameEndReason,
    GameResult, MoveError, MoveFault, MoveJson, MoveText, PieceKind, Square,
};
use crate::text::{chars_of, push_chars};
use vstd::prelude::*;

verus! {

// ---------------------------------------------------------------------------
// Moves
// ---------------------------------------------------------------------------
/// The three promotion bits of a move.
pub open spec fn promotion_bits(k: Option<PieceKind>) -> int {
    match k {
        Some(PieceKind::Queen) => 1,
        Some(PieceKind::Rook) => 2,
        Some(PieceKind::Bishop) => 3,
        Some(PieceKind::Knight) => 4,
        _ => 0,
    }
}

/// The 16-bit word of a move: the source square's index in bits 0 to 5,
/// the target square's in bits 6 to 11, the promotion in bits 12 to 14.
pub open spec fn move_word(m: ChessMove) -> int {
    m.from.idx() + 64 * m.to.idx() + 4096 * promotion_bits(m.promotion)
}

/// The 16-bit word of a submitted move, if its squares and promotion can
/// be read.
pub open spec fn encoded(t: MoveText) -> Option<int> {
    match ChessMove::read(t) {
        Ok(m) => Some(move_word(m)),
        Err(_) => None,
    }
}

/// The promotion letter that three promotion bits stand for; none for 0
/// and for the values 5 to 7, which no move has.
pub open spec fn promotion_of_bits(bits: int) -> Option<Seq<char>> {
    if bits == 1 {
        Some(promotion_letter(PieceKind::Queen))
    } else if bits == 2 {
        Some(promotion_letter(PieceKind::Rook))
    } else if bits == 3 {
        Some(promotion_letter(PieceKind::Bishop))
    } else if bits == 4 {
        Some(promotion_letter(PieceKind::Knight))
    } else {
        None
    }
}

/// The submitted move that a 16-bit word stands for.
pub open spec fn decoded(w: int) -> MoveText {
    MoveText {
        from: square_at_index(w % 64).algebraic(),
        to: square_at_index((w / 64) % 64).algebraic(),
        promotion: promotion_of_bits((w / 4096) % 8),
    }
}

/// The promotion bits of a word are among those that a move can have.
pub open spec fn valid_word(w: int) -> bool {
    (w / 4096) % 8 <= 4
}

/// The square with the index of a square on the board is that square.
pub proof fn lemma_square_of_index(sq: Square)
    requires
        sq.wf(),
    ensures
        square_at_index(sq.idx()) == sq,
{
}

/// The fields of a move's word are the move's indices and promotion bits.
pub proof fn lemma_word_fields(f: int, t: int, p: int)
    requires
        0 <= f < 64,
        0 <= t < 64,
        0 <= p <= 4,
    ensures
        0 <= f + 64 * t + 4096 * p < 0x8000,
        (f + 64 * t + 4096 * p) % 64 == f,
        ((f + 64 * t + 4096 * p) / 64) % 64 == t,
        ((f + 64 * t + 4096 * p) / 4096) % 8 == p,
{
}

/// Decoding the word of a readable move gives the move back.
pub proof fn lemma_decode_encode(t: MoveText)
    requires
        t.well_formed(),
    ensures
        encoded(t) matches Some(w) && 0 <= w < 0x8000 && valid_word(w) && decoded(w) == t,
{
    let m = match ChessMove::read(t) {
        Ok(m) => m,
        Err(_) => arbitrary(),
    };
    let w = move_word(m);
    Square::lemma_algebraic_parse(t.from);
    Square::lemma_algebraic_parse(t.to);
    lemma_word_fields(m.from.idx(), m.to.idx(), promotion_bits(m.promotion));
    lemma_square_of_index(m.from);
    lemma_square_of_index(m.to);
    assert(decoded(w).from == t.from);
    assert(decoded(w).to == t.to);
    match t.promotion {
        Some(p) => {
            assert(promotion_letter(m.promotion.unwrap()) =~= p);
            assert(decoded(w).promotion == t.promotion);
        },
        None => {
            assert(decoded(w).promotion == t.promotion);
        },
    }
}

/// Encodes a submitted move in 16 bits. Fails where the source, the target
/// or the promotion cannot be read, with the error that reading gives.
pub fn encode_move(mv: &MoveJson) -> (r: Result<u16, MoveError>)
    ensures
        match r {
            Ok(w) => encoded(mv@) == Some(w as int) && w < 0x8000 && valid_word(w as int)
                && decoded(w as int) == mv@,
            Err(e) => ChessMove::read(mv@) == Err::<ChessMove, MoveFault>(e@),
        },
{
    let m = match ChessMove::from_json(mv) {
        Ok(m) => m,
        Err(e) => {
            return Err(e);
        },
    };
    let from_idx: u16 = m.from.index() as u16;
    let to_idx: u16 = m.to.index() as u16;
    let promo_bits: u16 = match m.promotion {
        None => 0,
        Some(PieceKind::Queen) => 1,
        Some(PieceKind::Rook) => 2,
        Some(PieceKind::Bishop) => 3,
        Some(PieceKind::Knight) => 4,
        Some(_) => 0,
    };
    proof {
        lemma_decode_encode(mv@);
    }
    Ok(from_idx + to_idx * 64 + promo_bits * 4096)
}

/// Decodes a 16-bit word to a submitted move. The reserved bit is ignored;
/// promotion bits that no move has decode to no promotion.
pub fn decode_move(encoded: u16) -> (r: MoveJson)
    ensures
        r@ == decoded(encoded as int),
        ChessMove::read(r@) is Ok,
{
    let from_idx: u16 = encoded % 64;
    let to_idx: u16 = (encoded / 64) % 64;
    let promo: u16 = (encoded / 4096) % 8;
    let from_sq = Square::new((from_idx % 8) as u8, (from_idx / 8) as u8);
    let to_sq = Square::new((to_idx % 8) as u8, (to_idx / 8) as u8);
    let promotion = if promo == 1 {
        Some(promotion_string(PieceKind::Queen))
    } else if promo == 2 {
        Some(promotion_string(PieceKind::Rook))
    } else if promo == 3 {
        Some(promotion_string(PieceKind::Bishop))
    } else if promo == 4 {
        Some(promotion_string(PieceKind::Knight))
    } else {
        None
    };
    MoveJson { from: from_sq.to_algebraic(), to: to_sq.to_algebraic(), promotion }
}

// ---------------------------------------------------------------------------
// Result and reason
// ---------------------------------------------------------------------------
/// The byte of a result.
pub open spec fn result_byte(r: Option<GameResult>) -> u8 {
    match r {
        None => 0,
        Some(GameResult::WhiteWins) => 1,
        Some(GameResult::BlackWins) => 2,
        Some(GameResult::Draw) => 3,
    }
}

/// The result that a byte stands for; none for any byte but 1, 2 and 3.
pub open spec fn result_of_byte(b: u8) -> Option<GameResult> {
    if b == 1 {
        Some(GameResult::WhiteWins)
    } else if b == 2 {
        Some(GameResult::BlackWins)
    } else if b == 3 {
        Some(GameResult::Draw)
    } else {
        None
    }
}

/// The byte of an end reason.
pub open spec fn reason_byte(r: Option<GameEndReason>) -> u8 {
    match r {
        None => 0,
        Some(GameEndReason::Checkmate) => 1,
        Some(GameEndReason::Stalemate) => 2,
        Some(GameEndReason::ThreefoldRepetition) => 3,
        Some(GameEndReason::FivefoldRepetition) => 4,
        Some(GameEndReason::FiftyMoveRule) => 5,
        Some(GameEndReason::SeventyFiveMoveRule) => 6,
        Some(GameEndReason::InsufficientMaterial) => 7,
        Some(GameEndReason::Resignation) => 8,
        Some(GameEndReason::DrawAgreement) => 9,
    }
}

/// The end reason that a byte stands for; none for any byte but 1 to 9.
pub open spec fn reason_of_byte(b: u8) -> Option<GameEndReason> {
    if b == 1 {
        Some(GameEndReason::Checkmate)
    } else if b == 2 {
        Some(GameEndReason::Stalemate)
    } else if b == 3 {
        Some(GameEndReason::ThreefoldRepetition)
    } else if b == 4 {
        Some(GameEndReason::FivefoldRepetition)
    } else if b == 5 {
        Some(GameEndReason::FiftyMoveRule)
    } else if b == 6 {
        Some(GameEndReason::SeventyFiveMoveRule)
    } else if b == 7 {
        Some(GameEndReason::InsufficientMaterial)
    } else if b == 8 {
        Some(GameEndReason::Resignation)
    } else if b == 9 {
        Some(GameEndReason::DrawAgreement)
    } else {
        None
    }
}

/// Encodes a result in one byte.
pub fn encode_result(result: Option<&GameResult>) -> (b: u8)
    ensures
        b == result_byte(
            match result {
                Some(r) => Some(*r),
                None => None,
            },
        ),
        result_of_byte(b) == (match result {
            Some(r) => Some(*r),
            None => None,
        }),
{
    match result {
        None => 0,
        Some(GameResult::WhiteWins) => 1,
        Some(GameResult::BlackWins) => 2,
        Some(GameResult::Draw) => 3,
    }
}

/// Decodes a byte to a result.
pub fn decode_result(byte: u8) -> (r: Option<GameResult>)
    ensures
        r == result_of_byte(byte),
{
    if byte == 1 {
        Some(GameResult::WhiteWins)
    } else if byte == 2 {
        Some(GameResult::BlackWins)
    } else if byte == 3 {
        Some(GameResult::Draw)
    } else {
        None
    }
}

/// Encodes an end reason in one byte.
pub fn encode_end_reason(reason: Option<&GameEndReason>) -> (b: u8)
    ensures
        b == reason_byte(
            match reason {
                Some(r) => Some(*r),
                None => None,
            },
        ),
        reason_of_byte(b) == (match reason {
            Some(r) => Some(*r),
            None => None,
        }),
{
    match reason {
        None => 0,
        Some(GameEndReason::Checkmate) => 1,
        Some(GameEndReason::Stalemate) => 2,
        Some(GameEndReason::ThreefoldRepetition) => 3,
        Some(GameEndReason::FivefoldRepetition) => 4,
        Some(GameEndReason::FiftyMoveRule) => 5,
        Some(GameEndReason::SeventyFiveMoveRule) => 6,
        Some(GameEndReason::InsufficientMaterial) => 7,
        Some(GameEndReason::Resignation) => 8,
        Some(GameEndReason::DrawAgreement) => 9,
    }
}

/// Decodes a byte to an end reason.
pub fn decode_end_reason(byte: u8) -> (r: Option<GameEndReason>)
    ensures
        r == reason_of_byte(byte),
{
    if byte == 1 {
        Some(GameEndReason::Checkmate)
    } else if byte == 2 {
        Some(GameEndReason::Stalemate)
    } else if byte == 3 {
        Some(GameEndReason::ThreefoldRepetition)
    } else if byte == 4 {
        Some(GameEndReason::FivefoldRepetition)
    } else if byte == 5 {
        Some(GameEndReason::FiftyMoveRule)
    } else if byte == 6 {
        Some(GameEndReason::SeventyFiveMoveRule)
    } else if byte == 7 {
        Some(GameEndReason::InsufficientMaterial)
    } else if byte == 8 {
        Some(GameEndReason::Resignation)
    } else if byte == 9 {
        Some(GameEndReason::DrawAgreement)
    } else {
        None
    }
}

// ---------------------------------------------------------------------------
// Numbers
// ---------------------------------------------------------------------------
/// The eight bytes of a 64-bit number, most significant first.
pub open spec fn bytes64(x: u64) -> Seq<u8> {
    let q1 = x / 256;
    let q2 = q1 / 256;
    let q3 = q2 / 256;
    let q4 = q3 / 256;
    let q5 = q4 / 256;
    let q6 = q5 / 256;
    let q7 = q6 / 256;
    seq![
        q7 as u8,
        (q6 % 256) as u8,
        (q5 % 256) as u8,
        (q4 % 256) as u8,
        (q3 % 256) as u8,
        (q2 % 256) as u8,
        (q1 % 256) as u8,
        (x % 256) as u8,
    ]
}

/// The 64-bit number whose eight bytes, most significant first, start at
/// `at`.
pub open spec fn number64(s: Seq<u8>, at: int) -> int {
    ((((((s[at] * 256 + s[at + 1]) * 256 + s[at + 2]) * 256 + s[at + 3]) * 256 + s[at + 4]) * 256
        + s[at + 5]) * 256 + s[at + 6]) * 256 + s[at + 7]
}

/// The sixteen bytes of an identifier, most significant first.
pub open spec fn id_bytes(id: GameId) -> Seq<u8> {
    bytes64((id.value / 0x1_0000_0000_0000_0000) as u64) + bytes64(
        (id.value % 0x1_0000_0000_0000_0000) as u64,
    )
}

/// The identifier whose sixteen bytes start at `at`.
pub open spec fn id_of_bytes(s: Seq<u8>, at: int) -> GameId {
    GameId { value: (number64(s, at) * 0x1_0000_0000_0000_0000 + number64(s, at + 8)) as u128 }
}

/// Reading the bytes of a 64-bit number gives the number back.
pub proof fn lemma_number64_bytes64(x: u64)
    ensures
        number64(bytes64(x), 0) == x,
{
    let q1 = x / 256;
    let q2 = q1 / 256;
    let q3 = q2 / 256;
    let q4 = q3 / 256;
    let q5 = q4 / 256;
    let q6 = q5 / 256;
    let q7 = q6 / 256;
    let s = bytes64(x);
    assert(q7 < 256);
    assert(s[0] == q7);
    assert(s[0] * 256 + s[1] == q6);
    assert(q6 * 256 + s[2] == q5);
    assert(q5 * 256 + s[3] == q4);
    assert(q4 * 256 + s[4] == q3);
    assert(q3 * 256 + s[5] == q2);
    assert(q2 * 256 + s[6] == q1);
    assert(q1 * 256 + s[7] == x);
}

/// Appends the eight bytes of a number, most significant first.
fn push_u64(buf: &mut Vec<u8>, x: u64)
    ensures
        final(buf)@ == old(buf)@ + bytes64(x),
{
    let q1: u64 = x / 256;
    let q2: u64 = q1 / 256;
    let q3: u64 = q2 / 256;
    let q4: u64 = q3 / 256;
    let q5: u64 = q4 / 256;
    let q6: u64 = q5 / 256;
    let q7: u64 = q6 / 256;
    buf.push(q7 as u8);
    buf.push((q6 % 256) as u8);
    buf.push((q5 % 256) as u8);
    buf.push((q4 % 256) as u8);
    buf.push((q3 % 256) as u8);
    buf.push((q2 % 256) as u8);
    buf.push((q1 % 256) as u8);
    buf.push((x % 256) as u8);
    assert(buf@ =~= old(buf)@ + bytes64(x));
}

/// Reads the 64-bit number whose bytes start at `at`.
fn read_u64(data: &[u8], at: usize) -> (x: u64)
    requires
        at + 8 <= data@.len(),
    ensures
        x == number64(data@, at as int),
{
    let a0: u64 = data[at] as u64;
    let a1: u64 = a0 * 256 + data[at + 1] as u64;
    let a2: u64 = a1 * 256 + data[at + 2] as u64;
    let a3: u64 = a2 * 256 + data[at + 3] as u64;
    let a4: u64 = a3 * 256 + data[at + 4] as u64;
    let a5: u64 = a4 * 256 + data[at + 5] as u64;
    let a6: u64 = a5 * 256 + data[at + 6] as u64;
    a6 * 256 + data[at + 7] as u64
}

// ---------------------------------------------------------------------------
// Errors
// ---------------------------------------------------------------------------
/// Why a game was not written to an archive, or an archive not read.
#[derive(Debug, Clone, Copy, PartialEq, Eq, Structural)]
pub enum ArchiveError {
    /// The game has more than 65535 moves.
    TooManyMoves,
    /// The move with this index in the history cannot be encoded.
    UnencodableMove { index: usize },
    /// The data is shorter than a header.
    HeaderTooShort,
    /// The data does not start with the magic bytes.
    InvalidMagic,
    /// The data has a version other than 1.
    UnsupportedVersion { version: u8 },
    /// The data holds fewer moves than its header declares.
    DataTooShort { expected: usize, got: usize },
    /// The move with this index has promotion bits that no move has.
    InvalidPromotionBits { index: usize },
    /// The compressor failed.
    CompressionFailed,
    /// The data is not what the compressor has written.
    DecompressionFailed,
}

impl ArchiveError {
    /// The kind of error under which this error is reported: a failure of
    /// the compressor and a game that cannot be written are storage
    /// errors, an archive that fails its validation is a schema error.
    pub open spec fn error_kind(self) -> ErrorKind {
        match self {
            ArchiveError::TooManyMoves => ErrorKind::StorageError,
            ArchiveError::UnencodableMove { .. } => ErrorKind::StorageError,
            ArchiveError::CompressionFailed => ErrorKind::StorageError,
            ArchiveError::DecompressionFailed => ErrorKind::StorageError,
            _ => ErrorKind::SchemaError,
        }
    }

    /// Returns the kind of error under which this error is reported.
    pub fn kind(&self) -> (k: ErrorKind)
        ensures
            k == self.error_kind(),
    {
        match self {
            ArchiveError::TooManyMoves => ErrorKind::StorageError,
            ArchiveError::UnencodableMove { .. } => ErrorKind::StorageError,
            ArchiveError::CompressionFailed => ErrorKind::StorageError,
            ArchiveError::DecompressionFailed => ErrorKind::StorageError,
            _ => ErrorKind::SchemaError,
        }
    }
}

// ---------------------------------------------------------------------------
// The archive
// ---------------------------------------------------------------------------
/// A decoded archive: a game's identifier, times, result and moves.
#[derive(Debug, Clone)]
pub struct GameArchive {
    /// The game's identifier.
    pub game_id: GameId,
    /// Unix time at which the game started.
    pub start_timestamp: u64,
    /// Unix time at which the game ended; 0 if it has not.
    pub end_timestamp: u64,
    /// The result, if the game has ended.
    pub result: Option<GameResult>,
    /// Why the game ended, if it has.
    pub end_reason: Option<GameEndReason>,
    /// All moves in order.
    pub moves: Vec<MoveJson>,
}

/// A `GameArchive` as a mathematical value.
pub struct ArchiveView {
    pub game_id: GameId,
    pub start_timestamp: u64,
    pub end_timestamp: u64,
    pub result: Option<GameResult>,
    pub end_reason: Option<GameEndReason>,
    pub moves: Seq<MoveText>,
}

/// The texts of a list of submitted moves.
pub open spec fn move_texts(v: Seq<MoveJson>) -> Seq<MoveText> {
    Seq::new(v.len(), |i: int| v[i]@)
}

impl View for GameArchive {
    type V = ArchiveView;

    open spec fn view(&self) -> ArchiveView {
        ArchiveView {
            game_id: self.game_id,
            start_timestamp: self.start_timestamp,
            end_timestamp: self.end_timestamp,
            result: self.result,
            end_reason: self.end_reason,
            moves: move_texts(self.moves@),
        }
    }
}

/// The 41 bytes of a header.
pub open spec fn header_bytes(
    id: GameId,
    start: u64,
    end: u64,
    result: Option<GameResult>,
    reason: Option<GameEndReason>,
    count: int,
) -> Seq<u8> {
    seq![67u8, 75u8, 65u8, 73u8, 1u8] + id_bytes(id) + bytes64(start) + bytes64(end) + seq![
        result_byte(result),
        reason_byte(reason),
        (count / 256) as u8,
        (count % 256) as u8,
    ]
}

/// The two bytes of a move's word, least significant first.
pub open spec fn word_bytes(w: int) -> Seq<u8> {
    seq![(w % 256) as u8, (w / 256) as u8]
}

/// The bytes of the words of a sequence of readable moves.
pub open spec fn moves_bytes(moves: Seq<MoveText>) -> Seq<u8>
    decreases moves.len(),
{
    if moves.len() == 0 {
        Seq::empty()
    } else {
        moves_bytes(moves.drop_last()) + word_bytes(encoded(moves.last()).unwrap())
    }
}

/// The index of the first move at or after `i` that cannot be encoded, or
/// the number of moves if there is none.
pub open spec fn first_unreadable(moves: Seq<MoveText>, i: int) -> int
    decreases moves.len() - i,
{
    if i < 0 || i >= moves.len() {
        moves.len() as int
    } else if !moves[i].well_formed() {
        i
    } else {
        first_unreadable(moves, i + 1)
    }
}

/// The raw archive of a game: the header and the words of its moves. There
/// is none for a game of more than 65535 moves, nor for one with a move
/// that cannot be encoded.
pub open spec fn archive_bytes(g: GameState) -> Result<Seq<u8>, ArchiveError> {
    let moves = g.position.submitted();
    if moves.len() > 65535 {
        Err(ArchiveError::TooManyMoves)
    } else if first_unreadable(moves, 0) < moves.len() {
        Err(ArchiveError::UnencodableMove { index: first_unreadable(moves, 0) as usize })
    } else {
        Ok(
            header_bytes(
                g.id,
                g.start_timestamp,
                g.end_timestamp,
                g.result,
                g.end_reason,
                moves.len() as int,
            ) + moves_bytes(moves),
        )
    }
}

/// The word of the move with index `i` in a raw archive.
pub open spec fn word_at(data: Seq<u8>, i: int) -> int {
    data[41 + 2 * i] + 256 * data[41 + 2 * i + 1]
}

/// The number of moves that a header declares.
pub open spec fn declared_count(data: Seq<u8>) -> int {
    data[39] * 256 + data[40]
}

/// The index of the first of the first `n` words, at or after `i`, whose
/// promotion bits no move has, or `n` if there is none.
pub open spec fn first_invalid_word(data: Seq<u8>, n: int, i: int) -> int
    decreases n - i,
{
    if i < 0 || i >= n {
        n
    } else if !valid_word(word_at(data, i)) {
        i
    } else {
        first_invalid_word(data, n, i + 1)
    }
}

/// What reading a raw archive gives. In this order, the data is rejected
/// if it is shorter than 41 bytes, if it does not start with `CKAI`, if
/// its version is not 1, if it is shorter than the header and the declared
/// number of moves, or if a move has promotion bits 5 to 7. Bytes after
/// the declared moves are ignored.
pub open spec fn parsed_archive(data: Seq<u8>) -> Result<ArchiveView, ArchiveError> {
    let n = declared_count(data);
    if data.len() < 41 {
        Err(ArchiveError::HeaderTooShort)
    } else if !(data[0] == 67 && data[1] == 75 && data[2] == 65 && data[3] == 73) {
        Err(ArchiveError::InvalidMagic)
    } else if data[4] != 1 {
        Err(ArchiveError::UnsupportedVersion { version: data[4] })
    } else if data.len() < 41 + 2 * n {
        Err(ArchiveError::DataTooShort { expected: (41 + 2 * n) as usize, got: data.len() as usize })
    } else if first_invalid_word(data, n, 0) < n {
        Err(ArchiveError::InvalidPromotionBits { index: first_invalid_word(data, n, 0) as usize })
    } else {
        Ok(
            ArchiveView {
                game_id: id_of_bytes(data, 5),
                start_timestamp: number64(data, 21) as u64,
                end_timestamp: number64(data, 29) as u64,
                result: result_of_byte(data[37]),
                end_reason: reason_of_byte(data[38]),
                moves: Seq::new(n as nat, |i: int| decoded(word_at(data, i))),
            },
        )
    }
}

/// Appending bytes is associative.
proof fn lemma_bytes_assoc(a: Seq<u8>, b: Seq<u8>, c: Seq<u8>)
    ensures
        (a + b) + c == a + (b + c),
{
    assert((a + b) + c =~= a + (b + c));
}

/// Four bytes pushed one by one are four bytes appended.
proof fn lemma_push_four(a: Seq<u8>, w: u8, x: u8, y: u8, z: u8)
    ensures
        a.push(w).push(x).push(y).push(z) == a + seq![w, x, y, z],
{
    assert(a.push(w).push(x).push(y).push(z) =~= a + seq![w, x, y, z]);
}

/// A 64-bit number has eight bytes.
proof fn lemma_bytes64_len(x: u64)
    ensures
        bytes64(x).len() == 8,
{
}

/// Appends the sixteen bytes of an identifier, most significant first.
fn push_id(buf: &mut Vec<u8>, id: GameId)
    ensures
        final(buf)@ == old(buf)@ + id_bytes(id),
        id_bytes(id).len() == 16,
{
    let hi: u64 = (id.value / 0x1_0000_0000_0000_0000) as u64;
    let lo: u64 = (id.value % 0x1_0000_0000_0000_0000) as u64;
    push_u64(buf, hi);
    push_u64(buf, lo);
    proof {
        lemma_bytes_assoc(old(buf)@, bytes64(hi), bytes64(lo));
        lemma_bytes64_len(hi);
        lemma_bytes64_len(lo);
    }
}

/// Returns the magic bytes and the version.
fn magic_bytes() -> (buf: Vec<u8>)
    ensures
        buf@ == seq![67u8, 75u8, 65u8, 73u8, 1u8],
{
    let mut buf: Vec<u8> = Vec::new();
    buf.push(67);
    buf.push(75);
    buf.push(65);
    buf.push(73);
    buf.push(1);
    assert(buf@ =~= seq![67u8, 75u8, 65u8, 73u8, 1u8]);
    buf
}

/// Writes the header of a game's archive.
fn write_header(game: &Game, move_count: usize) -> (buf: Vec<u8>)
    requires
        move_count <= 65535,
    ensures
        buf@ == header_bytes(
            game.id,
            game.start_timestamp,
            game.end_timestamp,
            game.result,
            game.end_reason,
            move_count as int,
        ),
        buf@.len() == 41,
{
    let mut buf = magic_bytes();
    push_id(&mut buf, game.id);
    push_u64(&mut buf, game.start_timestamp);
    push_u64(&mut buf, game.end_timestamp);
    let ghost timed = buf@;
    let rb = encode_result(game.result.as_ref());
    let eb = encode_end_reason(game.end_reason.as_ref());
    let c1: u8 = (move_count / 256) as u8;
    let c2: u8 = (move_count % 256) as u8;
    buf.push(rb);
    buf.push(eb);
    buf.push(c1);
    buf.push(c2);
    proof {
        lemma_push_four(timed, rb, eb, c1, c2);
        lemma_bytes64_len(game.start_timestamp);
        lemma_bytes64_len(game.end_timestamp);
    }
    buf
}

/// Serialises a game into its raw archive.
pub fn serialize_game(game: &Game) -> (r: Result<Vec<u8>, ArchiveError>)
    ensures
        match r {
            Ok(bytes) => archive_bytes(game@) == Ok::<Seq<u8>, ArchiveError>(bytes@)
                && bytes@.len() == 41 + 2 * game@.position.move_history.len(),
            Err(e) => archive_bytes(game@) == Err::<Seq<u8>, ArchiveError>(e),
        },
{
    let move_count = game.move_history.len();
    if move_count > 65535 {
        return Err(ArchiveError::TooManyMoves);
    }
    let ghost moves = game@.position.submitted();
    let mut buf = write_header(game, move_count);
    let ghost header = buf@;
    assert(buf@ =~= header + moves_bytes(moves.take(0)));
    let mut i: usize = 0;
    while i < move_count
        invariant
            i <= move_count,
            move_count <= 65535,
            move_count == game.move_history.len(),
            moves == game@.position.submitted(),
            moves.len() == move_count,
            header.len() == 41,
            buf@ == header + moves_bytes(moves.take(i as int)),
            buf@.len() == 41 + 2 * i,
            first_unreadable(moves, 0) == first_unreadable(moves, i as int),
        decreases move_count - i,
    {
        assert(moves[i as int] == game.move_history[i as int].move_json@);
        let w = match encode_move(&game.move_history[i].move_json) {
            Ok(w) => w,
            Err(_) => {
                assert(!moves[i as int].well_formed());
                assert(first_unreadable(moves, i as int) == i);
                return Err(ArchiveError::UnencodableMove { index: i });
            },
        };
        assert(moves[i as int].well_formed());
        assert(first_unreadable(moves, i as int) == first_unreadable(moves, i + 1));
        let ghost before = buf@;
        buf.push((w % 256) as u8);
        buf.push((w / 256) as u8);
        proof {
            assert(moves.take(i + 1).drop_last() =~= moves.take(i as int));
            assert(moves.take(i + 1).last() == moves[i as int]);
            assert(buf@ =~= before + word_bytes(w as int));
            assert(buf@ =~= header + (moves_bytes(moves.take(i as int)) + word_bytes(w as int)));
        }
        i = i + 1;
    }
    assert(moves.take(i as int) =~= moves);
    assert(first_unreadable(moves, i as int) == moves.len());
    Ok(buf)
}

/// Deserialises a raw archive. Use `GameArchive::replay` to rebuild the
/// game from it.
pub fn deserialize_game(data: &[u8]) -> (r: Result<GameArchive, ArchiveError>)
    ensures
        match r {
            Ok(a) => parsed_archive(data@) == Ok::<ArchiveView, ArchiveError>(a@),
            Err(e) => parsed_archive(data@) == Err::<ArchiveView, ArchiveError>(e),
        },
{
    if data.len() < 41 {
        return Err(ArchiveError::HeaderTooShort);
    }
    if !(data[0] == 67 && data[1] == 75 && data[2] == 65 && data[3] == 73) {
        return Err(ArchiveError::InvalidMagic);
    }
    let version = data[4];
    if version != 1 {
        return Err(ArchiveError::UnsupportedVersion { version });
    }
    let hi = read_u64(data, 5);
    let lo = read_u64(data, 13);
    let game_id = GameId { value: (hi as u128) * 0x1_0000_0000_0000_0000 + (lo as u128) };
    let start_ts = read_u64(data, 21);
    let end_ts = read_u64(data, 29);
    let result = decode_result(data[37]);
    let end_reason = decode_end_reason(data[38]);
    let move_count: usize = (data[39] as usize) * 256 + (data[40] as usize);
    let expected_len: usize = 41 + move_count * 2;
    if data.len() < expected_len {
        return Err(ArchiveError::DataTooShort { expected: expected_len, got: data.len() });
    }
    let mut moves: Vec<MoveJson> = Vec::new();
    let mut i: usize = 0;
    while i < move_count
        invariant
            i <= move_count,
            move_count == declared_count(data@),
            41 + 2 * move_count <= data@.len(),
            data@[0] == 67 && data@[1] == 75 && data@[2] == 65 && data@[3] == 73,
            data@[4] == 1,
            moves@.len() == i,
            forall|j: int| 0 <= j < i ==> (#[trigger] moves@[j])@ == decoded(word_at(data@, j)),
            first_invalid_word(data@, move_count as int, 0) == first_invalid_word(
                data@,
                move_count as int,
                i as int,
            ),
        decreases move_count - i,
    {
        let offset: usize = 41 + i * 2;
        let w: u16 = (data[offset] as u16) + 256 * (data[offset + 1] as u16);
        assert(w == word_at(data@, i as int));
        if (w / 4096) % 8 > 4 {
            assert(first_invalid_word(data@, move_count as int, i as int) == i);
            return Err(ArchiveError::InvalidPromotionBits { index: i });
        }
        assert(first_invalid_word(data@, move_count as int, i as int) == first_invalid_word(
            data@,
            move_count as int,
            i + 1,
        ));
        moves.push(decode_move(w));
        i = i + 1;
    }
    let archive = GameArchive {
        game_id,
        start_timestamp: start_ts,
        end_timestamp: end_ts,
        result,
        end_reason,
        moves,
    };
    assert(archive@.moves =~= Seq::new(move_count as nat, |i: int| decoded(word_at(data@, i))));
    assert(first_invalid_word(data@, move_count as int, i as int) == move_count);
    Ok(archive)
}


// ---------------------------------------------------------------------------
// Replay
// ---------------------------------------------------------------------------
/// Why an archive could not be replayed: the number of the move (from 1)
/// that was rejected, and why it was.
#[derive(Debug, Clone, PartialEq, Eq)]
pub struct ReplayError {
    pub move_number: usize,
    pub error: MoveError,
}

/// A `ReplayError` as a mathematical value.
pub struct ReplayFault {
    pub move_number: int,
    pub fault: MoveFault,
}

impl View for ReplayError {
    type V = ReplayFault;

    open spec fn view(&self) -> ReplayFault {
        ReplayFault { move_number: self.move_number as int, fault: self.error@ }
    }
}

impl ArchiveView {
    /// The game from which a replay starts: the starting position under
    /// the archive's identifier and times, without a result.
    pub open spec fn start(self) -> GameState {
        GameState {
            id: self.game_id,
            position: Position::initial(),
            result: None,
            end_reason: None,
            draw_offered_by: None,
            start_timestamp: self.start_timestamp,
            end_timestamp: self.end_timestamp,
        }
    }

    /// The game after the first `k` moves of the archive, or the first
    /// move that is rejected. A replay takes no time from the clock: a game
    /// that ends in it keeps the archive's end time.
    pub open spec fn replayed(self, k: int) -> Result<GameState, ReplayFault>
        decreases k,
    {
        if k <= 0 {
            Ok(self.start())
        } else {
            match self.replayed(k - 1) {
                Err(e) => Err(e),
                Ok(s) => match s.move_outcome(self.moves[k - 1]) {
                    Ok(mv) => Ok(s.after_move(mv, self.moves[k - 1], self.end_timestamp)),
                    Err(f) => Err(ReplayFault { move_number: k, fault: f }),
                },
            }
        }
    }
}

/// A replay that has been rejected at some move stays rejected at that
/// move, however many moves are asked for.
pub proof fn lemma_replay_error_stays(a: ArchiveView, j: int, k: int)
    requires
        j <= k,
        a.replayed(j) is Err,
    ensures
        a.replayed(k) == a.replayed(j),
    decreases k - j,
{
    if j < k {
        lemma_replay_error_stays(a, j, k - 1);
    }
}

impl GameArchive {
    /// Returns the number of half-moves in the archive.
    pub fn move_count(&self) -> (n: usize)
        ensures
            n == self@.moves.len(),
    {
        self.moves.len()
    }

    /// Returns the size in bytes of the raw archive: 41 and two for every
    /// move.
    pub fn raw_size(&self) -> (n: usize)
        requires
            41 + 2 * self@.moves.len() <= usize::MAX,
        ensures
            n == 41 + 2 * self@.moves.len(),
    {
        41 + self.moves.len() * 2
    }

    /// Replays the first `up_to_move` half-moves of the archive, or all of
    /// them if there are fewer, through the rules engine, and returns the
    /// game at that point (0 gives the starting position). The result
    /// depends on the archive and the number alone.
    pub fn replay(&self, up_to_move: usize) -> (r: Result<Game, ReplayError>)
        ensures
            match r {
                Ok(g) => self@.replayed(
                    if up_to_move <= self@.moves.len() {
                        up_to_move as int
                    } else {
                        self@.moves.len() as int
                    },
                ) == Ok::<GameState, ReplayFault>(g@) && g@.wf() && g@.faithful()
                    && g@.position.move_history.len() == (if up_to_move <= self@.moves.len() {
                    up_to_move as int
                } else {
                    self@.moves.len() as int
                }),
                Err(e) => self@.replayed(
                    if up_to_move <= self@.moves.len() {
                        up_to_move as int
                    } else {
                        self@.moves.len() as int
                    },
                ) == Err::<GameState, ReplayFault>(e@),
            },
    {
        let mut game = Game::new_with_id_and_timestamps(
            self.game_id,
            self.start_timestamp,
            self.end_timestamp,
        );
        let limit = if up_to_move <= self.moves.len() {
            up_to_move
        } else {
            self.moves.len()
        };
        let mut i: usize = 0;
        while i < limit
            invariant
                i <= limit,
                limit <= self.moves.len(),
                limit == (if up_to_move <= self@.moves.len() {
                    up_to_move as int
                } else {
                    self@.moves.len() as int
                }),
                self@.replayed(i as int) == Ok::<GameState, ReplayFault>(game@),
                game@.wf(),
                game@.faithful(),
                game@.position.move_history.len() == i,
            decreases limit - i,
        {
            assert(self@.moves[i as int] == self.moves[i as int]@);
            match game.make_move_at(&self.moves[i], self.end_timestamp) {
                Ok(_) => {},
                Err(e) => {
                    proof {
                        assert(self@.replayed(i + 1) == Err::<GameState, ReplayFault>(
                            ReplayFault { move_number: i + 1, fault: e@ },
                        ));
                        lemma_replay_error_stays(self@, i + 1, limit as int);
                    }
                    return Err(ReplayError { move_number: i + 1, error: e });
                },
            }
            i = i + 1;
        }
        Ok(game)
    }

    /// Replays the whole archive.
    pub fn replay_full(&self) -> (r: Result<Game, ReplayError>)
        ensures
            match r {
                Ok(g) => self@.replayed(self@.moves.len() as int) == Ok::<GameState, ReplayFault>(
                    g@,
                ) && g@.wf() && g@.faithful() && g@.position.move_history.len()
                    == self@.moves.len(),
                Err(e) => self@.replayed(self@.moves.len() as int) == Err::<
                    GameState,
                    ReplayFault,
                >(e@),
            },
    {
        self.replay(self.moves.len())
    }
}

// ---------------------------------------------------------------------------
// Compression
// ---------------------------------------------------------------------------
/// The data that `zstd::decode_all` reads from compressed data, if it
/// accepts it.
pub uninterp spec fn zstd_decoded(data: Seq<u8>) -> Option<Seq<u8>>;

/// The compression level of archives.
pub const ZSTD_COMPRESSION_LEVEL: i32 = 19;

/// The data that `zstd::encode_all` writes for data at a compression
/// level, if the compressor reports no error.
pub uninterp spec fn zstd_encoded(data: Seq<u8>, level: i32) -> Option<Seq<u8>>;

/// Calls `zstd::encode_all`: gives the zstd frame that the compressor
/// writes for the data at the level, from which `zstd::decode_all` reads
/// the data back, or `None` where the compressor reports an error.
#[verifier::external_body]
fn zstd_encode(data: &[u8], level: i32) -> (r: Option<Vec<u8>>)
    ensures
        match r {
            Some(c) => zstd_encoded(data@, level) == Some(c@) && zstd_decoded(c@) == Some(data@),
            None => zstd_encoded(data@, level) is None,
        },
{
    match zstd::encode_all(data, level) {
        Ok(c) => Some(c),
        Err(_) => None,
    }
}

/// Calls `zstd::decode_all`: gives the data of the frames, or `None` where
/// the input is not in the zstd frame format.
#[verifier::external_body]
fn zstd_decode(data: &[u8]) -> (r: Option<Vec<u8>>)
    ensures
        match r {
            Some(raw) => zstd_decoded(data@) == Some(raw@),
            None => zstd_decoded(data@) is None,
        },
{
    match zstd::decode_all(data) {
        Ok(raw) => Some(raw),
        Err(_) => None,
    }
}

/// The compressed archive of a game: the error of its raw archive where it
/// has none; else what the compressor writes for the raw archive at the
/// level of archives, or the error of a failed compressor.
pub open spec fn compressed_archive(g: GameState) -> Result<Seq<u8>, ArchiveError> {
    match archive_bytes(g) {
        Err(e) => Err(e),
        Ok(raw) => match zstd_encoded(raw, ZSTD_COMPRESSION_LEVEL) {
            Some(c) => Ok(c),
            None => Err(ArchiveError::CompressionFailed),
        },
    }
}

/// Writes the compressed archive of a game: its raw archive, compressed at
/// the level of archives. A game without a raw archive fails with the
/// error of `serialize_game`, and a failed compressor with its own error.
/// From the data written `decompress_archive` reads the raw archive back.
pub fn compress_game(game: &Game) -> (r: Result<Vec<u8>, ArchiveError>)
    ensures
        match compressed_archive(game@) {
            Ok(c) => (r matches Ok(v) && v@ == c) && (archive_bytes(game@) matches Ok(raw)
                && zstd_decoded(c) == Some(raw)),
            Err(e) => r == Err::<Vec<u8>, ArchiveError>(e),
        },
{
    let raw = match serialize_game(game) {
        Ok(raw) => raw,
        Err(e) => {
            return Err(e);
        },
    };
    match zstd_encode(raw.as_slice(), ZSTD_COMPRESSION_LEVEL) {
        Some(c) => Ok(c),
        None => Err(ArchiveError::CompressionFailed),
    }
}

/// What reading a compressed archive gives: the error of failed
/// decompression where the data is no zstd frame, else what reading the
/// decompressed data as a raw archive gives.
pub open spec fn parsed_compressed(data: Seq<u8>) -> Result<ArchiveView, ArchiveError> {
    match zstd_decoded(data) {
        None => Err(ArchiveError::DecompressionFailed),
        Some(raw) => parsed_archive(raw),
    }
}

/// Reads a compressed archive: decompresses it, whatever level it was
/// compressed at, and reads the result as a raw archive.
pub fn decompress_archive(data: &[u8]) -> (r: Result<GameArchive, ArchiveError>)
    ensures
        match r {
            Ok(a) => parsed_compressed(data@) == Ok::<ArchiveView, ArchiveError>(a@),
            Err(e) => parsed_compressed(data@) == Err::<ArchiveView, ArchiveError>(e),
        },
{
    match zstd_decode(data) {
        Some(raw) => deserialize_game(raw.as_slice()),
        None => Err(ArchiveError::DecompressionFailed),
    }
}


// ---------------------------------------------------------------------------
// Laws of the archive
// ---------------------------------------------------------------------------
/// Every move of a sequence that can be played can be read.
pub proof fn lemma_played_moves_readable(moves: Seq<MoveText>)
    requires
        played(moves) is Some,
    ensures
        forall|i: int| 0 <= i < moves.len() ==> (#[trigger] moves[i]).well_formed(),
    decreases moves.len(),
{
    if moves.len() > 0 {
        lemma_played_moves_readable(moves.drop_last());
        assert(moves.last().well_formed());
        assert forall|i: int| 0 <= i < moves.len() implies (#[trigger] moves[i]).well_formed() by {
            if i < moves.len() - 1 {
                assert(moves[i] == moves.drop_last()[i]);
            }
        }
    }
}

/// Where every move can be read, none is the first that cannot.
pub proof fn lemma_all_readable(moves: Seq<MoveText>, i: int)
    requires
        0 <= i <= moves.len(),
        forall|j: int| 0 <= j < moves.len() ==> (#[trigger] moves[j]).well_formed(),
    ensures
        first_unreadable(moves, i) == moves.len(),
    decreases moves.len() - i,
{
    if i < moves.len() {
        lemma_all_readable(moves, i + 1);
    }
}

/// The bytes of a sequence of moves are two for each move.
pub proof fn lemma_moves_bytes_len(moves: Seq<MoveText>)
    ensures
        moves_bytes(moves).len() == 2 * moves.len(),
    decreases moves.len(),
{
    if moves.len() > 0 {
        lemma_moves_bytes_len(moves.drop_last());
    }
}

/// The bytes of a sequence of moves hold the word of a readable move at
/// its place.
pub proof fn lemma_moves_bytes_at(moves: Seq<MoveText>, i: int)
    requires
        0 <= i < moves.len(),
        moves[i].well_formed(),
    ensures
        2 * i + 1 < moves_bytes(moves).len(),
        encoded(moves[i]) == Some(
            moves_bytes(moves)[2 * i] + 256 * moves_bytes(moves)[2 * i + 1],
        ),
    decreases moves.len(),
{
    let front = moves.drop_last();
    lemma_moves_bytes_len(moves);
    lemma_moves_bytes_len(front);
    if i < front.len() {
        assert(front[i] == moves[i]);
        lemma_moves_bytes_at(front, i);
    } else {
        lemma_decode_encode(moves[i]);
        let w = match encoded(moves[i]) {
            Some(w) => w,
            None => arbitrary(),
        };
        let pair = word_bytes(w);
        assert(pair[0] + 256 * pair[1] == w);
        assert(moves_bytes(moves)[2 * i] == pair[0]);
        assert(moves_bytes(moves)[2 * i + 1] == pair[1]);
    }
}

/// Reading the identifier's bytes gives the identifier back.
pub proof fn lemma_id_of_bytes(id: GameId, before: Seq<u8>, after: Seq<u8>)
    ensures
        id_of_bytes(before + id_bytes(id) + after, before.len() as int) == id,
{
    let hi = (id.value / 0x1_0000_0000_0000_0000) as u64;
    let lo = (id.value % 0x1_0000_0000_0000_0000) as u64;
    let data = before + id_bytes(id) + after;
    let at = before.len() as int;
    lemma_number64_bytes64(hi);
    lemma_number64_bytes64(lo);
    assert(id_bytes(id).len() == 16);
    assert forall|j: int| 0 <= j < 8 implies data[at + j] == bytes64(hi)[j] by {
        assert(data[at + j] == id_bytes(id)[j]);
    }
    assert forall|j: int| 0 <= j < 8 implies data[at + 8 + j] == bytes64(lo)[j] by {
        assert(data[at + 8 + j] == id_bytes(id)[8 + j]);
    }
    assert(number64(data, at) == number64(bytes64(hi), 0));
    assert(number64(data, at + 8) == number64(bytes64(lo), 0));
}

/// Reading a number's bytes at their place gives the number back.
pub proof fn lemma_number64_at(x: u64, before: Seq<u8>, after: Seq<u8>)
    ensures
        number64(before + bytes64(x) + after, before.len() as int) == x,
{
    let data = before + bytes64(x) + after;
    let at = before.len() as int;
    lemma_number64_bytes64(x);
    assert forall|j: int| 0 <= j < 8 implies data[at + j] == bytes64(x)[j] by {}
    assert(number64(data, at) == number64(bytes64(x), 0));
}

/// A header followed by any bytes reads as what was written.
pub proof fn lemma_header_fields(
    id: GameId,
    start: u64,
    end: u64,
    result: Option<GameResult>,
    reason: Option<GameEndReason>,
    count: int,
    rest: Seq<u8>,
)
    requires
        0 <= count <= 65535,
    ensures
        ({
            let data = header_bytes(id, start, end, result, reason, count) + rest;
            &&& data.len() == 41 + rest.len()
            &&& data[0] == 67 && data[1] == 75 && data[2] == 65 && data[3] == 73 && data[4] == 1
            &&& id_of_bytes(data, 5) == id
            &&& number64(data, 21) == start
            &&& number64(data, 29) == end
            &&& result_of_byte(data[37]) == result
            &&& reason_of_byte(data[38]) == reason
            &&& declared_count(data) == count
            &&& forall|j: int| 0 <= j < rest.len() ==> data[41 + j] == rest[j]
        }),
{
    let magic = seq![67u8, 75u8, 65u8, 73u8, 1u8];
    let tail = seq![result_byte(result), reason_byte(reason), (count / 256) as u8, (count % 256) as u8];
    let data = header_bytes(id, start, end, result, reason, count) + rest;
    assert(id_bytes(id).len() == 16);
    assert(bytes64(start).len() == 8);
    assert(bytes64(end).len() == 8);
    assert(data.len() == 41 + rest.len());
    assert(data =~= magic + id_bytes(id) + (bytes64(start) + bytes64(end) + tail + rest));
    lemma_id_of_bytes(id, magic, bytes64(start) + bytes64(end) + tail + rest);
    assert(data =~= (magic + id_bytes(id)) + bytes64(start) + (bytes64(end) + tail + rest));
    lemma_number64_at(start, magic + id_bytes(id), bytes64(end) + tail + rest);
    assert(data =~= (magic + id_bytes(id) + bytes64(start)) + bytes64(end) + (tail + rest));
    lemma_number64_at(end, magic + id_bytes(id) + bytes64(start), tail + rest);
    assert(data[37] == tail[0]);
    assert(data[38] == tail[1]);
    assert(data[39] == tail[2]);
    assert(data[40] == tail[3]);
}

/// Where each of the first `n` words is valid, none is the first invalid
/// one.
pub proof fn lemma_no_invalid_word(data: Seq<u8>, n: int, i: int)
    requires
        0 <= i <= n,
        forall|j: int| 0 <= j < n ==> valid_word(#[trigger] word_at(data, j)),
    ensures
        first_invalid_word(data, n, i) == n,
    decreases n - i,
{
    if i < n {
        lemma_no_invalid_word(data, n, i + 1);
    }
}

/// A replay follows the play of the archive's moves from the starting
/// position: where the first `k` moves can be played, the replay gives a
/// game in the position they lead to, with a result exactly if the rules
/// end the game there; where they cannot, the replay fails.
pub proof fn lemma_replay_follows_play(a: ArchiveView, k: int)
    requires
        0 <= k <= a.moves.len(),
    ensures
        match played(a.moves.take(k)) {
            Some(p) => a.replayed(k) matches Ok(s) && s.position == p && p.move_history.len() == k
                && (s.result is Some <==> (k > 0 && p.ending() is Some)) && (s.result is Some
                <==> s.end_reason is Some),
            None => a.replayed(k) is Err,
        },
    decreases k,
{
    if k > 0 {
        lemma_replay_follows_play(a, k - 1);
        assert(a.moves.take(k).drop_last() =~= a.moves.take(k - 1));
        assert(a.moves.take(k).last() == a.moves[k - 1]);
    } else {
        assert(a.moves.take(0) =~= Seq::<MoveText>::empty());
    }
}

/// Writing a game to a raw archive and reading it back gives the game's
/// identifier, times, result, reason and moves; and for a game whose state
/// is the one that its moves lead to, replaying that archive in full gives
/// the game's position: board, side to move, castling rights, en-passant
/// square, clocks and histories.
pub proof fn lemma_archive_round_trip(g: GameState)
    requires
        g.faithful(),
        g.position.move_history.len() <= 65535,
    ensures
        match archive_bytes(g) {
            Ok(bytes) => match parsed_archive(bytes) {
                Ok(a) => {
                    &&& a.game_id == g.id
                    &&& a.start_timestamp == g.start_timestamp
                    &&& a.end_timestamp == g.end_timestamp
                    &&& a.result == g.result
                    &&& a.end_reason == g.end_reason
                    &&& a.moves == g.position.submitted()
                    &&& match a.replayed(a.moves.len() as int) {
                        Ok(s) => s.position == g.position,
                        Err(_) => false,
                    }
                },
                Err(_) => false,
            },
            Err(_) => false,
        },
{
    let moves = g.position.submitted();
    let n = moves.len() as int;
    lemma_played_moves_readable(moves);
    lemma_all_readable(moves, 0);
    lemma_moves_bytes_len(moves);
    let rest = moves_bytes(moves);
    let bytes = header_bytes(
        g.id,
        g.start_timestamp,
        g.end_timestamp,
        g.result,
        g.end_reason,
        n,
    ) + rest;
    assert(archive_bytes(g) == Ok::<Seq<u8>, ArchiveError>(bytes));
    lemma_header_fields(
        g.id,
        g.start_timestamp,
        g.end_timestamp,
        g.result,
        g.end_reason,
        n,
        rest,
    );
    assert forall|i: int| 0 <= i < n implies valid_word(#[trigger] word_at(bytes, i)) && decoded(
        word_at(bytes, i),
    ) == moves[i] by {
        lemma_moves_bytes_at(moves, i);
        assert(bytes[41 + 2 * i] == rest[2 * i]);
        assert(bytes[41 + 2 * i + 1] == rest[2 * i + 1]);
        lemma_decode_encode(moves[i]);
    }
    lemma_no_invalid_word(bytes, n, 0);
    let read_moves = Seq::new(n as nat, |i: int| decoded(word_at(bytes, i)));
    assert(read_moves =~= moves);
    let a = ArchiveView {
        game_id: g.id,
        start_timestamp: g.start_timestamp,
        end_timestamp: g.end_timestamp,
        result: g.result,
        end_reason: g.end_reason,
        moves,
    };
    assert(parsed_archive(bytes) == Ok::<ArchiveView, ArchiveError>(a));
    lemma_replay_follows_play(a, n);
    assert(a.moves.take(n) =~= moves);
}

/// Reading what `compress_game` has written gives what reading the game's
/// raw archive gives.
pub proof fn lemma_compressed_round_trip(g: GameState, compressed: Seq<u8>)
    requires
        archive_bytes(g) matches Ok(raw) && zstd_decoded(compressed) == Some(raw),
    ensures
        archive_bytes(g) matches Ok(raw) && parsed_compressed(compressed) == parsed_archive(raw),
{
}

/// A replay depends on the archive and the number of moves alone: equal
/// archives replay to equal games.
pub proof fn lemma_replay_deterministic(a: ArchiveView, b: ArchiveView, k: int)
    requires
        a == b,
    ensures
        a.replayed(k) == b.replayed(k),
{
}


// ---------------------------------------------------------------------------
// Files
// ---------------------------------------------------------------------------
/// The sum of the first `n` sizes.
pub open spec fn total_size(sizes: Seq<u64>, n: int) -> int
    decreases n,
{
    if n <= 0 {
        0
    } else {
        total_size(sizes, n - 1) + sizes[n - 1]
    }
}

/// Counts and sizes of the stored games.
#[derive(Debug, Clone, Copy, PartialEq, Eq, Structural)]
pub struct StorageStats {
    /// Number of active games on disk.
    pub active_count: usize,
    /// Number of archived games.
    pub archived_count: usize,
    /// Bytes of all active files.
    pub active_bytes: u64,
    /// Bytes of all archive files.
    pub archive_bytes: u64,
    /// Bytes of all files.
    pub total_bytes: u64,
}

/// Adds up file sizes.
fn sum_sizes(sizes: &Vec<u64>) -> (r: u64)
    requires
        total_size(sizes@, sizes@.len() as int) <= u64::MAX,
    ensures
        r == total_size(sizes@, sizes@.len() as int),
{
    let mut sum: u64 = 0;
    let mut i: usize = 0;
    while i < sizes.len()
        invariant
            i <= sizes.len(),
            sum == total_size(sizes@, i as int),
            total_size(sizes@, sizes@.len() as int) <= u64::MAX,
        decreases sizes.len() - i,
    {
        proof {
            lemma_total_size_grows(sizes@, i + 1, sizes@.len() as int);
        }
        sum = sum + sizes[i];
        i = i + 1;
    }
    sum
}

/// The sum of more sizes is no smaller.
pub proof fn lemma_total_size_grows(sizes: Seq<u64>, j: int, n: int)
    requires
        0 <= j <= n <= sizes.len(),
    ensures
        0 <= total_size(sizes, j) <= total_size(sizes, n),
    decreases n,
{
    if j < n {
        lemma_total_size_grows(sizes, j, n - 1);
    } else if n > 0 {
        lemma_total_size_grows(sizes, j - 1, n - 1);
    }
}

impl StorageStats {
    /// Computes the statistics from the sizes of the active files and of
    /// the archive files.
    pub fn of(active_sizes: &Vec<u64>, archive_sizes: &Vec<u64>) -> (r: StorageStats)
        requires
            total_size(active_sizes@, active_sizes@.len() as int) + total_size(
                archive_sizes@,
                archive_sizes@.len() as int,
            ) <= u64::MAX,
        ensures
            r.active_count == active_sizes@.len(),
            r.archived_count == archive_sizes@.len(),
            r.active_bytes == total_size(active_sizes@, active_sizes@.len() as int),
            r.archive_bytes == total_size(archive_sizes@, archive_sizes@.len() as int),
            r.total_bytes == r.active_bytes + r.archive_bytes,
    {
        proof {
            lemma_total_size_grows(active_sizes@, 0, active_sizes@.len() as int);
            lemma_total_size_grows(archive_sizes@, 0, archive_sizes@.len() as int);
        }
        let active_bytes = sum_sizes(active_sizes);
        let archive_bytes = sum_sizes(archive_sizes);
        StorageStats {
            active_count: active_sizes.len(),
            archived_count: archive_sizes.len(),
            active_bytes,
            archive_bytes,
            total_bytes: active_bytes + archive_bytes,
        }
    }
}

/// The summary of an archived game.
#[derive(Debug, Clone, PartialEq, Eq)]
pub struct ArchiveSummary {
    /// The game's identifier.
    pub game_id: String,
    /// The number of half-moves.
    pub move_count: usize,
    /// The result.
    pub result: Option<GameResult>,
    /// Why the game ended.
    pub end_reason: Option<GameEndReason>,
    /// Unix time at which the game started.
    pub start_timestamp: u64,
    /// Unix time at which the game ended.
    pub end_timestamp: u64,
    /// Size of the compressed file in bytes.
    pub compressed_bytes: u64,
    /// Size of the raw archive in bytes.
    pub raw_bytes: usize,
}

impl ArchiveSummary {
    /// Summarises an archive whose compressed file has the given size.
    pub fn of(archive: &GameArchive, compressed_bytes: u64) -> (r: ArchiveSummary)
        requires
            41 + 2 * archive@.moves.len() <= usize::MAX,
        ensures
            r.game_id@ == archive@.game_id.text(),
            r.move_count == archive@.moves.len(),
            r.result == archive@.result,
            r.end_reason == archive@.end_reason,
            r.start_timestamp == archive@.start_timestamp,
            r.end_timestamp == archive@.end_timestamp,
            r.compressed_bytes == compressed_bytes,
            r.raw_bytes == 41 + 2 * archive@.moves.len(),
    {
        ArchiveSummary {
            game_id: archive.game_id.to_string(),
            move_count: archive.move_count(),
            result: archive.result,
            end_reason: archive.end_reason,
            start_timestamp: archive.start_timestamp,
            end_timestamp: archive.end_timestamp,
            compressed_bytes,
            raw_bytes: archive.raw_size(),
        }
    }
}

/// The list of archived games.
#[derive(Debug, Clone, PartialEq, Eq)]
pub struct ArchiveListResponse {
    /// The games' summaries.
    pub games: Vec<ArchiveSummary>,
    /// Their number.
    pub total: usize,
    /// The statistics of the storage.
    pub storage: StorageStats,
}

impl ArchiveListResponse {
    /// Makes the list of the given summaries.
    pub fn of(games: Vec<ArchiveSummary>, storage: StorageStats) -> (r: ArchiveListResponse)
        ensures
            r.games == games,
            r.total == games@.len(),
            r.storage == storage,
    {
        let total = games.len();
        ArchiveListResponse { games, total, storage }
    }
}

/// Where a stored game was found.
#[derive(Debug, Clone, Copy, PartialEq, Eq, Structural)]
pub enum StoredAs {
    /// As a raw file among the active games.
    Active,
    /// As a compressed file in the archive.
    Archived,
}

/// The identifier in a file name that ends in a suffix: what stands before
/// the suffix, if that is a UUID.
pub open spec fn id_before_suffix(name: Seq<char>, suffix: Seq<char>) -> Option<GameId> {
    if name.len() >= suffix.len() && name.subrange(name.len() - suffix.len(), name.len() as int)
        == suffix {
        GameId::parsed(name.subrange(0, name.len() - suffix.len()))
    } else {
        None
    }
}

/// Reads the identifier from a file name with the given suffix.
fn id_with_suffix(name: &str, suffix: &str) -> (r: Option<GameId>)
    ensures
        r == id_before_suffix(name@, suffix@),
{
    let chars = chars_of(name);
    let tail = chars_of(suffix);
    if chars.len() < tail.len() {
        return None;
    }
    let cut = chars.len() - tail.len();
    let mut i: usize = 0;
    while i < tail.len()
        invariant
            i <= tail.len(),
            chars@ == name@,
            tail@ == suffix@,
            cut + tail.len() == chars.len(),
            forall|j: int| 0 <= j < i ==> chars@[cut + j] == tail@[j],
        decreases tail.len() - i,
    {
        if chars[cut + i] != tail[i] {
            assert(name@.subrange(cut as int, name@.len() as int)[i as int] != suffix@[i as int]);
            return None;
        }
        i = i + 1;
    }
    assert(name@.subrange(cut as int, name@.len() as int) =~= suffix@);
    let mut stem = String::new();
    push_chars(&mut stem, &chars, 0, cut);
    assert(stem@ =~= name@.subrange(0, cut as int));
    GameId::parse(stem.as_str())
}

/// One step of writing a game to disk. The steps of a plan are carried out
/// in order, and a plan ends at the first step that fails.
#[derive(Debug, Clone, PartialEq, Eq)]
pub enum FileOp {
    /// Write the data to the file, which is made or replaced.
    Write { path: String, data: Vec<u8> },
    /// Rename the file, replacing the target if it exists.
    Rename { from: String, to: String },
    /// Remove the file if it exists.
    RemoveIfExists { path: String },
}

/// A `FileOp` as a mathematical value.
pub enum FileStep {
    Write { path: Seq<char>, data: Seq<u8> },
    Rename { from: Seq<char>, to: Seq<char> },
    RemoveIfExists { path: Seq<char> },
}

impl View for FileOp {
    type V = FileStep;

    open spec fn view(&self) -> FileStep {
        match self {
            FileOp::Write { path, data } => FileStep::Write { path: path@, data: data@ },
            FileOp::Rename { from, to } => FileStep::Rename { from: from@, to: to@ },
            FileOp::RemoveIfExists { path } => FileStep::RemoveIfExists { path: path@ },
        }
    }
}

/// The steps of a plan as mathematical values.
pub open spec fn file_steps(ops: Seq<FileOp>) -> Seq<FileStep> {
    Seq::new(ops.len(), |i: int| ops[i]@)
}

/// The steps of a plan that are carried out if its first `done` steps
/// succeed and the next one, if there is one, fails: those steps and the
/// failing one.
pub open spec fn attempted(steps: Seq<FileStep>, done: int) -> Seq<FileStep> {
    if done >= steps.len() {
        steps
    } else {
        steps.take(done + 1)
    }
}

/// The layout of the stored games under a base directory: active games as
/// `active/<id>.cai`, archived games as `archive/<id>.cai.zst`.
#[derive(Debug, Clone, PartialEq, Eq)]
pub struct GameStorage {
    base_dir: String,
}

impl GameStorage {
    /// The base directory.
    pub closed spec fn base(&self) -> Seq<char> {
        self.base_dir@
    }

    /// Creates the layout under a base directory.
    pub fn new(base_dir: &str) -> (r: GameStorage)
        ensures
            r.base() == base_dir@,
    {
        GameStorage { base_dir: base_dir.to_owned() }
    }

    /// Returns the base directory.
    pub fn base_dir(&self) -> (r: &str)
        ensures
            r@ == self.base(),
    {
        self.base_dir.as_str()
    }

    /// Returns the directory of the active games.
    pub fn active_dir(&self) -> (r: String)
        ensures
            r@ == self.base() + "/active"@,
    {
        let mut p = self.base_dir.clone();
        p.append("/active");
        p
    }

    /// Returns the directory of the archived games.
    pub fn archive_dir(&self) -> (r: String)
        ensures
            r@ == self.base() + "/archive"@,
    {
        let mut p = self.base_dir.clone();
        p.append("/archive");
        p
    }

    /// Returns the path of an active game's file.
    pub fn active_path(&self, game_id: &GameId) -> (r: String)
        ensures
            r@ == self.base() + "/active/"@ + game_id.text() + ".cai"@,
    {
        let mut p = self.base_dir.clone();
        p.append("/active/");
        let id = game_id.to_string();
        p.append(id.as_str());
        p.append(".cai");
        p
    }

    /// Returns the path of the file to which an active game is written
    /// before it replaces the game's file.
    pub fn temp_path(&self, game_id: &GameId) -> (r: String)
        ensures
            r@ == self.base() + "/active/"@ + game_id.text() + ".cai.tmp"@,
    {
        let mut p = self.base_dir.clone();
        p.append("/active/");
        let id = game_id.to_string();
        p.append(id.as_str());
        p.append(".cai.tmp");
        p
    }

    /// Returns the path of an archived game's file.
    pub fn archive_path(&self, game_id: &GameId) -> (r: String)
        ensures
            r@ == self.base() + "/archive/"@ + game_id.text() + ".cai.zst"@,
    {
        let mut p = self.base_dir.clone();
        p.append("/archive/");
        let id = game_id.to_string();
        p.append(id.as_str());
        p.append(".cai.zst");
        p
    }

    /// The path of an active game's file.
    pub open spec fn active_file(&self, id: GameId) -> Seq<char> {
        self.base() + "/active/"@ + id.text() + ".cai"@
    }

    /// The path of the file to which an active game is written first.
    pub open spec fn temp_file(&self, id: GameId) -> Seq<char> {
        self.base() + "/active/"@ + id.text() + ".cai.tmp"@
    }

    /// The path of an archived game's file.
    pub open spec fn archive_file(&self, id: GameId) -> Seq<char> {
        self.base() + "/archive/"@ + id.text() + ".cai.zst"@
    }

    /// The steps that save an active game: its raw archive is written to a
    /// temporary file, which then replaces the game's file.
    pub open spec fn save_steps(&self, id: GameId, raw: Seq<u8>) -> Seq<FileStep> {
        seq![
            FileStep::Write { path: self.temp_file(id), data: raw },
            FileStep::Rename { from: self.temp_file(id), to: self.active_file(id) },
        ]
    }

    /// The steps that archive a finished game: its compressed archive is
    /// written to a temporary file, which then becomes the archive file;
    /// the active file is removed last.
    pub open spec fn archive_steps(&self, id: GameId, compressed: Seq<u8>) -> Seq<FileStep> {
        seq![
            FileStep::Write { path: self.archive_file(id) + ".tmp"@, data: compressed },
            FileStep::Rename { from: self.archive_file(id) + ".tmp"@, to: self.archive_file(id) },
            FileStep::RemoveIfExists { path: self.active_file(id) },
        ]
    }

    /// Plans the saving of an active game whose raw archive is given. A
    /// write that fails half-way never replaces a good file.
    pub fn save_active_ops(&self, game_id: &GameId, raw: Vec<u8>) -> (ops: Vec<FileOp>)
        ensures
            file_steps(ops@) == self.save_steps(*game_id, raw@),
    {
        let mut ops: Vec<FileOp> = Vec::new();
        ops.push(FileOp::Write { path: self.temp_path(game_id), data: raw });
        ops.push(FileOp::Rename { from: self.temp_path(game_id), to: self.active_path(game_id) });
        assert(file_steps(ops@) =~= self.save_steps(*game_id, raw@));
        ops
    }

    /// Plans the archiving of a finished game whose compressed archive is
    /// given. The active file is removed only after the archive file has
    /// been written and put in its place.
    pub fn archive_ops(&self, game_id: &GameId, compressed: Vec<u8>) -> (ops: Vec<FileOp>)
        ensures
            file_steps(ops@) == self.archive_steps(*game_id, compressed@),
    {
        let mut temp = self.archive_path(game_id);
        temp.append(".tmp");
        let mut again = self.archive_path(game_id);
        again.append(".tmp");
        let mut ops: Vec<FileOp> = Vec::new();
        ops.push(FileOp::Write { path: temp, data: compressed });
        ops.push(FileOp::Rename { from: again, to: self.archive_path(game_id) });
        ops.push(FileOp::RemoveIfExists { path: self.active_path(game_id) });
        assert(file_steps(ops@) =~= self.archive_steps(*game_id, compressed@));
        ops
    }

    /// Reads the identifier of an active game from the name of its file.
    /// `None` for a name that does not end in `.cai` or does not start
    /// with a UUID: such files are ignored.
    pub fn active_id(file_name: &str) -> (r: Option<GameId>)
        ensures
            r == id_before_suffix(file_name@, ".cai"@),
    {
        id_with_suffix(file_name, ".cai")
    }

    /// Reads the identifier of an archived game from the name of its file.
    /// `None` for a name that does not end in `.cai.zst` or does not start
    /// with a UUID: such files are ignored.
    pub fn archived_id(file_name: &str) -> (r: Option<GameId>)
        ensures
            r == id_before_suffix(file_name@, ".cai.zst"@),
    {
        id_with_suffix(file_name, ".cai.zst")
    }

    /// Says where a game is loaded from: from its active file if there is
    /// one, else from its archive file, else from nowhere.
    pub fn load_source(active_exists: bool, archive_exists: bool) -> (r: Option<StoredAs>)
        ensures
            r == (if active_exists {
                Some(StoredAs::Active)
            } else if archive_exists {
                Some(StoredAs::Archived)
            } else {
                None::<StoredAs>
            }),
    {
        if active_exists {
            Some(StoredAs::Active)
        } else if archive_exists {
            Some(StoredAs::Archived)
        } else {
            None
        }
    }

    /// Reads a stored game from the data of its file, raw for an active
    /// game and compressed for an archived one, and says whether the data
    /// was compressed.
    pub fn load_from(source: StoredAs, data: &[u8]) -> (r: Result<(GameArchive, bool), ArchiveError>)
        ensures
            match r {
                Ok((a, compressed)) => compressed == (source == StoredAs::Archived) && (if compressed {
                    parsed_compressed(data@)
                } else {
                    parsed_archive(data@)
                }) == Ok::<ArchiveView, ArchiveError>(a@),
                Err(e) => (if source == StoredAs::Archived {
                    parsed_compressed(data@)
                } else {
                    parsed_archive(data@)
                }) == Err::<ArchiveView, ArchiveError>(e),
            },
    {
        match source {
            StoredAs::Active => match deserialize_game(data) {
                Ok(a) => Ok((a, false)),
                Err(e) => Err(e),
            },
            StoredAs::Archived => match decompress_archive(data) {
                Ok(a) => Ok((a, true)),
                Err(e) => Err(e),
            },
        }
    }
}


/// Archiving removes the active file exactly if the archive file has been
/// written and put in its place: of the steps that are attempted, one
/// removes the active file exactly if both earlier steps have succeeded.
pub proof fn lemma_archive_removes_active_last(
    storage: GameStorage,
    id: GameId,
    compressed: Seq<u8>,
    done: int,
)
    requires
        0 <= done,
    ensures
        attempted(storage.archive_steps(id, compressed), done).contains(
            FileStep::RemoveIfExists { path: storage.active_file(id) },
        ) <==> done >= 2,
{
    let steps = storage.archive_steps(id, compressed);
    let removal = FileStep::RemoveIfExists { path: storage.active_file(id) };
    let tried = attempted(steps, done);
    if done >= 2 {
        assert(tried[2] == removal);
    } else {
        assert forall|i: int| 0 <= i < tried.len() implies tried[i] != removal by {
            assert(tried[i] == steps[i]);
        }
    }
}

// ---------------------------------------------------------------------------
// The effect of a plan on the stored files
// ---------------------------------------------------------------------------
/// The stored files: the data of each file, under its path.
pub type Files = Map<Seq<char>, Seq<u8>>;

/// Two sets of files hold the same under a path: a file stands there in
/// both or in neither, and with the same data.
pub open spec fn same_at(a: Files, b: Files, path: Seq<char>) -> bool {
    a.contains_key(path) == b.contains_key(path) && (a.contains_key(path) ==> a[path] == b[path])
}

impl FileStep {
    /// The files after the step has succeeded. A write makes or replaces
    /// the file; a rename moves the file's data to the target, which it
    /// replaces (and changes nothing where the file is not there); a
    /// removal leaves no file under the path.
    pub open spec fn done(self, files: Files) -> Files {
        match self {
            FileStep::Write { path, data } => files.insert(path, data),
            FileStep::Rename { from, to } => if files.contains_key(from) {
                files.remove(from).insert(to, files[from])
            } else {
                files
            },
            FileStep::RemoveIfExists { path } => files.remove(path),
        }
    }

    /// Whether `after` can be the files after the step has failed on
    /// `before`. A failed write may leave any data, or none, under its
    /// path, and changes no other file; a failed rename or removal changes
    /// nothing.
    pub open spec fn failed(self, before: Files, after: Files) -> bool {
        match self {
            FileStep::Write { path, data } => forall|p: Seq<char>|
                p != path ==> #[trigger] same_at(after, before, p),
            FileStep::Rename { from, to } => after == before,
            FileStep::RemoveIfExists { path } => after == before,
        }
    }
}

/// The files after the first `k` steps of a plan have succeeded.
pub open spec fn files_after(steps: Seq<FileStep>, k: int, files: Files) -> Files
    decreases k,
{
    if k <= 0 || k > steps.len() {
        files
    } else {
        steps[k - 1].done(files_after(steps, k - 1, files))
    }
}

/// Whether `after` can be the files after a plan has been carried out on
/// `before`, its first `done` steps with success and the next one, if
/// there is one, without.
pub open spec fn carried_out(steps: Seq<FileStep>, done: int, before: Files, after: Files) -> bool {
    if done >= steps.len() {
        after == files_after(steps, steps.len() as int, before)
    } else {
        0 <= done && steps[done].failed(files_after(steps, done, before), after)
    }
}

/// The three paths of the archiving of a game differ from each other.
proof fn lemma_archive_paths_differ(storage: GameStorage, id: GameId)
    ensures
        storage.archive_file(id) != storage.archive_file(id) + ".tmp"@,
        storage.active_file(id) != storage.archive_file(id),
        storage.active_file(id) != storage.archive_file(id) + ".tmp"@,
{
    reveal_strlit("/active/");
    reveal_strlit("/archive/");
    reveal_strlit(".cai");
    reveal_strlit(".cai.zst");
    reveal_strlit(".tmp");
    let n = storage.base().len() + id.text().len();
    assert(storage.active_file(id).len() == n + 12);
    assert(storage.archive_file(id).len() == n + 17);
    assert((storage.archive_file(id) + ".tmp"@).len() == n + 21);
}

/// Archiving that succeeds leaves the compressed archive in the game's
/// archive file and no active file of the game; the temporary file is
/// gone, and every other file is as it was.
pub proof fn lemma_archiving_moves_the_game(
    storage: GameStorage,
    id: GameId,
    compressed: Seq<u8>,
    before: Files,
    after: Files,
)
    requires
        carried_out(storage.archive_steps(id, compressed), 3, before, after),
    ensures
        after.contains_key(storage.archive_file(id)),
        after[storage.archive_file(id)] == compressed,
        !after.contains_key(storage.active_file(id)),
        !after.contains_key(storage.archive_file(id) + ".tmp"@),
        forall|p: Seq<char>|
            p != storage.archive_file(id) && p != storage.active_file(id) && p
                != storage.archive_file(id) + ".tmp"@ ==> #[trigger] same_at(after, before, p),
{
    let steps = storage.archive_steps(id, compressed);
    lemma_archive_paths_differ(storage, id);
    reveal_with_fuel(files_after, 4);
    let f1 = files_after(steps, 1, before);
    let f2 = files_after(steps, 2, before);
    assert(f1 == steps[0].done(before));
    assert(f2 == steps[1].done(f1));
    assert(after == steps[2].done(f2));
    assert forall|p: Seq<char>|
        p != storage.archive_file(id) && p != storage.active_file(id) && p != storage.archive_file(
            id,
        ) + ".tmp"@ implies #[trigger] same_at(after, before, p) by {
        assert(same_at(f1, before, p));
        assert(same_at(f2, f1, p));
    }
}

/// Archiving that fails leaves the game's active file as it was: there or
/// not there as before, and with the same data. Every file but the game's
/// archive file and the temporary file is as it was.
pub proof fn lemma_failed_archiving_keeps_the_active_file(
    storage: GameStorage,
    id: GameId,
    compressed: Seq<u8>,
    done: int,
    before: Files,
    after: Files,
)
    requires
        0 <= done < 3,
        carried_out(storage.archive_steps(id, compressed), done, before, after),
    ensures
        same_at(after, before, storage.active_file(id)),
        forall|p: Seq<char>|
            p != storage.archive_file(id) && p != storage.archive_file(id) + ".tmp"@
                ==> #[trigger] same_at(after, before, p),
        done < 2 ==> same_at(after, before, storage.archive_file(id)),
{
    let steps = storage.archive_steps(id, compressed);
    lemma_archive_paths_differ(storage, id);
    reveal_with_fuel(files_after, 4);
    let f1 = files_after(steps, 1, before);
    let f2 = files_after(steps, 2, before);
    assert(f1 == steps[0].done(before));
    assert(f2 == steps[1].done(f1));
    assert forall|p: Seq<char>|
        p != storage.archive_file(id) && p != storage.archive_file(id) + ".tmp"@ implies #[trigger] same_at(
        after,
        before,
        p,
    ) by {
        assert(same_at(f1, before, p));
        assert(same_at(f2, f1, p));
        if done == 0 {
            assert(same_at(after, before, p));
        } else if done == 1 {
            assert(after == f1);
        } else {
            assert(after == f2);
        }
    }
    if done == 0 {
        assert(same_at(after, before, storage.archive_file(id)));
    } else if done == 1 {
        assert(after == f1);
        assert(same_at(f1, before, storage.archive_file(id)));
    }
}

/// Saving an active game that succeeds leaves the raw archive in the
/// game's active file and no temporary file; saving that fails leaves the
/// active file as it was. Either way every other file is as it was.
pub proof fn lemma_saving_replaces_the_active_file(
    storage: GameStorage,
    id: GameId,
    raw: Seq<u8>,
    done: int,
    before: Files,
    after: Files,
)
    requires
        0 <= done,
        carried_out(storage.save_steps(id, raw), done, before, after),
    ensures
        done >= 2 ==> after.contains_key(storage.active_file(id)) && after[storage.active_file(id)]
            == raw && !after.contains_key(storage.temp_file(id)),
        done < 2 ==> same_at(after, before, storage.active_file(id)),
        forall|p: Seq<char>|
            p != storage.active_file(id) && p != storage.temp_file(id) ==> #[trigger] same_at(
                after,
                before,
                p,
            ),
{
    let steps = storage.save_steps(id, raw);
    reveal_strlit(".cai");
    reveal_strlit(".cai.tmp");
    let n = (storage.base() + "/active/"@ + id.text()).len();
    assert(storage.active_file(id).len() == n + 4);
    assert(storage.temp_file(id).len() == n + 8);
    reveal_with_fuel(files_after, 3);
    let f1 = files_after(steps, 1, before);
    assert(f1 == steps[0].done(before));
    assert forall|p: Seq<char>|
        p != storage.active_file(id) && p != storage.temp_file(id) implies #[trigger] same_at(
        after,
        before,
        p,
    ) by {
        assert(same_at(f1, before, p));
        if done >= 2 {
            assert(after == steps[1].done(f1));
        } else if done == 1 {
            assert(after == f1);
        }
    }
    if done >= 2 {
        assert(after == steps[1].done(f1));
    } else if done == 1 {
        assert(after == f1);
        assert(same_at(f1, before, storage.active_file(id)));
    }
}

} // verus!
