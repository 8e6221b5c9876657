//! Primitive chess types: colours, pieces, squares, castling rights, the
//! board and the engine's move descriptor.

use vstd::prelude::*;
use vstd::array::array_fill_for_copy_types;
use crate::text::digit_char;

verus! {

/// The side a piece or a player belongs to.
#[derive(Debug, Clone, Copy, PartialEq, Eq, Hash, Structural)]
pub enum Color {
    White,
    Black,
}

impl Color {
    /// The other side.
    pub open spec fn other(self) -> Color {
        match self {
            Color::White => Color::Black,
            Color::Black => Color::White,
        }
    }

    /// Forward direction of this side's pawns along the ranks.
    pub open spec fn forward(self) -> int {
        match self {
            Color::White => 1,
            Color::Black => -1,
        }
    }

    /// Rank index on which this side's pawns start.
    pub open spec fn home_rank(self) -> int {
        match self {
            Color::White => 1,
            Color::Black => 6,
        }
    }

    /// Rank index on which this side's pawns promote.
    pub open spec fn last_rank(self) -> int {
        match self {
            Color::White => 7,
            Color::Black => 0,
        }
    }

    /// Rank index on which this side's king and rooks start.
    pub open spec fn back_rank(self) -> int {
        match self {
            Color::White => 0,
            Color::Black => 7,
        }
    }

    /// Returns the opposite colour.
    pub fn opponent(self) -> (r: Color)
        ensures
            r == self.other(),
    {
        match self {
            Color::White => Color::Black,
            Color::Black => Color::White,
        }
    }

    /// Returns the home rank index (0-based) of this colour's pawns.
    pub fn pawn_start_rank(self) -> (r: u8)
        ensures
            r == self.home_rank(),
    {
        match self {
            Color::White => 1,
            Color::Black => 6,
        }
    }

    /// Returns the rank index (0-based) on which this colour's pawns promote.
    pub fn promotion_rank(self) -> (r: u8)
        ensures
            r == self.last_rank(),
    {
        match self {
            Color::White => 7,
            Color::Black => 0,
        }
    }

    /// Returns the direction pawns move: +1 for White, -1 for Black.
    pub fn pawn_direction(self) -> (r: i8)
        ensures
            r == self.forward(),
    {
        match self {
            Color::White => 1,
            Color::Black => -1,
        }
    }

    /// The English name of the colour with a capital letter.
    pub open spec fn title(self) -> Seq<char> {
        match self {
            Color::White => "White"@,
            Color::Black => "Black"@,
        }
    }

    /// Returns `"White"` or `"Black"`.
    pub fn title_str(self) -> (r: &'static str)
        ensures
            r@ == self.title(),
    {
        match self {
            Color::White => "White",
            Color::Black => "Black",
        }
    }

    /// The lower-case English name of the colour.
    pub open spec fn name(self) -> Seq<char> {
        match self {
            Color::White => seq!['w', 'h', 'i', 't', 'e'],
            Color::Black => seq!['b', 'l', 'a', 'c', 'k'],
        }
    }

    /// Returns `"white"` or `"black"`.
    pub fn to_string(&self) -> (r: String)
        ensures
            r@ == self.name(),
    {
        match self {
            Color::White => {
                proof {
                    reveal_strlit("white");
                }
                let s = "white".to_owned();
                assert(s@ =~= self.name());
                s
            },
            Color::Black => {
                proof {
                    reveal_strlit("black");
                }
                let s = "black".to_owned();
                assert(s@ =~= self.name());
                s
            },
        }
    }
}

/// A kind of chess piece, without its colour.
#[derive(Debug, Clone, Copy, PartialEq, Eq, Hash, Structural)]
pub enum PieceKind {
    King,
    Queen,
    Rook,
    Bishop,
    Knight,
    Pawn,
}

impl PieceKind {
    /// The upper-case letter that stands for this kind.
    pub open spec fn letter(self) -> char {
        match self {
            PieceKind::King => 'K',
            PieceKind::Queen => 'Q',
            PieceKind::Rook => 'R',
            PieceKind::Bishop => 'B',
            PieceKind::Knight => 'N',
            PieceKind::Pawn => 'P',
        }
    }

    /// The lower-case letter that stands for this kind.
    pub open spec fn small_letter(self) -> char {
        match self {
            PieceKind::King => 'k',
            PieceKind::Queen => 'q',
            PieceKind::Rook => 'r',
            PieceKind::Bishop => 'b',
            PieceKind::Knight => 'n',
            PieceKind::Pawn => 'p',
        }
    }

    /// Whether a pawn may promote to this kind.
    pub open spec fn is_promotion_target(self) -> bool {
        self == PieceKind::Queen || self == PieceKind::Rook || self == PieceKind::Bishop || self
            == PieceKind::Knight
    }
}

/// A chess piece: a kind and a colour.
#[derive(Debug, Clone, Copy, PartialEq, Eq, Hash, Structural)]
pub struct Piece {
    pub kind: PieceKind,
    pub color: Color,
}

impl Piece {
    /// The character that stands for this piece: upper case for White,
    /// lower case for Black.
    pub open spec fn symbol(self) -> char {
        match self.color {
            Color::White => self.kind.letter(),
            Color::Black => self.kind.small_letter(),
        }
    }

    /// The piece that a character stands for, if any.
    pub open spec fn of_symbol(c: char) -> Option<Piece> {
        if c == 'K' {
            Some(Piece { kind: PieceKind::King, color: Color::White })
        } else if c == 'Q' {
            Some(Piece { kind: PieceKind::Queen, color: Color::White })
        } else if c == 'R' {
            Some(Piece { kind: PieceKind::Rook, color: Color::White })
        } else if c == 'B' {
            Some(Piece { kind: PieceKind::Bishop, color: Color::White })
        } else if c == 'N' {
            Some(Piece { kind: PieceKind::Knight, color: Color::White })
        } else if c == 'P' {
            Some(Piece { kind: PieceKind::Pawn, color: Color::White })
        } else if c == 'k' {
            Some(Piece { kind: PieceKind::King, color: Color::Black })
        } else if c == 'q' {
            Some(Piece { kind: PieceKind::Queen, color: Color::Black })
        } else if c == 'r' {
            Some(Piece { kind: PieceKind::Rook, color: Color::Black })
        } else if c == 'b' {
            Some(Piece { kind: PieceKind::Bishop, color: Color::Black })
        } else if c == 'n' {
            Some(Piece { kind: PieceKind::Knight, color: Color::Black })
        } else if c == 'p' {
            Some(Piece { kind: PieceKind::Pawn, color: Color::Black })
        } else {
            None
        }
    }

    /// Creates a piece.
    pub fn new(kind: PieceKind, color: Color) -> (r: Piece)
        ensures
            r == (Piece { kind, color }),
    {
        Piece { kind, color }
    }

    /// Converts the piece to its character: upper case for White, lower
    /// case for Black.
    pub fn to_fen_char(self) -> (c: char)
        ensures
            c == self.symbol(),
            Piece::of_symbol(c) == Some(self),
    {
        match self.color {
            Color::White => match self.kind {
                PieceKind::King => 'K',
                PieceKind::Queen => 'Q',
                PieceKind::Rook => 'R',
                PieceKind::Bishop => 'B',
                PieceKind::Knight => 'N',
                PieceKind::Pawn => 'P',
            },
            Color::Black => match self.kind {
                PieceKind::King => 'k',
                PieceKind::Queen => 'q',
                PieceKind::Rook => 'r',
                PieceKind::Bishop => 'b',
                PieceKind::Knight => 'n',
                PieceKind::Pawn => 'p',
            },
        }
    }

    /// Reads a piece from its character; `None` for any other character.
    pub fn from_fen_char(c: char) -> (r: Option<Piece>)
        ensures
            r == Piece::of_symbol(c),
            r matches Some(p) ==> p.symbol() == c,
            r is None ==> forall|p: Piece| p.symbol() != c,
    {
        let r = if c == 'K' {
            Some(Piece { kind: PieceKind::King, color: Color::White })
        } else if c == 'Q' {
            Some(Piece { kind: PieceKind::Queen, color: Color::White })
        } else if c == 'R' {
            Some(Piece { kind: PieceKind::Rook, color: Color::White })
        } else if c == 'B' {
            Some(Piece { kind: PieceKind::Bishop, color: Color::White })
        } else if c == 'N' {
            Some(Piece { kind: PieceKind::Knight, color: Color::White })
        } else if c == 'P' {
            Some(Piece { kind: PieceKind::Pawn, color: Color::White })
        } else if c == 'k' {
            Some(Piece { kind: PieceKind::King, color: Color::Black })
        } else if c == 'q' {
            Some(Piece { kind: PieceKind::Queen, color: Color::Black })
        } else if c == 'r' {
            Some(Piece { kind: PieceKind::Rook, color: Color::Black })
        } else if c == 'b' {
            Some(Piece { kind: PieceKind::Bishop, color: Color::Black })
        } else if c == 'n' {
            Some(Piece { kind: PieceKind::Knight, color: Color::Black })
        } else if c == 'p' {
            Some(Piece { kind: PieceKind::Pawn, color: Color::Black })
        } else {
            None
        };
        r
    }
}


/// Whether a file and a rank lie on the board.
pub open spec fn on_board(f: int, r: int) -> bool {
    0 <= f < 8 && 0 <= r < 8
}

/// The letter of a file, `a` to `h`.
pub open spec fn file_char(f: int) -> char {
    if f == 0 {
        'a'
    } else if f == 1 {
        'b'
    } else if f == 2 {
        'c'
    } else if f == 3 {
        'd'
    } else if f == 4 {
        'e'
    } else if f == 5 {
        'f'
    } else if f == 6 {
        'g'
    } else {
        'h'
    }
}

/// The file that a letter stands for, or 8 if it stands for none.
pub open spec fn file_of_char(c: char) -> int {
    if c == 'a' {
        0
    } else if c == 'b' {
        1
    } else if c == 'c' {
        2
    } else if c == 'd' {
        3
    } else if c == 'e' {
        4
    } else if c == 'f' {
        5
    } else if c == 'g' {
        6
    } else if c == 'h' {
        7
    } else {
        8
    }
}

/// The rank that a digit stands for, or 8 if it stands for none.
pub open spec fn rank_of_char(c: char) -> int {
    if c == '1' {
        0
    } else if c == '2' {
        1
    } else if c == '3' {
        2
    } else if c == '4' {
        3
    } else if c == '5' {
        4
    } else if c == '6' {
        5
    } else if c == '7' {
        6
    } else if c == '8' {
        7
    } else {
        8
    }
}

/// A square of the board: a file `0..8` (a to h) and a rank `0..8` (1 to 8).
#[derive(Debug, Clone, Copy, PartialEq, Eq, Hash, Structural)]
pub struct Square {
    pub file: u8,
    pub rank: u8,
}

impl Square {
    /// A square is well formed when it lies on the board.
    pub open spec fn wf(self) -> bool {
        self.file < 8 && self.rank < 8
    }

    /// The flat index of the square, `rank * 8 + file`.
    pub open spec fn idx(self) -> int {
        self.rank * 8 + self.file
    }

    /// The square at a file and a rank.
    pub open spec fn at(f: int, r: int) -> Square {
        Square { file: f as u8, rank: r as u8 }
    }

    /// The square `(df, dr)` away, if it lies on the board.
    pub open spec fn shifted(self, df: int, dr: int) -> Option<Square> {
        if on_board(self.file + df, self.rank + dr) {
            Some(Square::at(self.file + df, self.rank + dr))
        } else {
            None
        }
    }

    /// The two characters of the square's name, such as `e4`.
    pub open spec fn algebraic(self) -> Seq<char> {
        seq![file_char(self.file as int), digit_char(self.rank + 1)]
    }

    /// The square that a name stands for, if it is the name of a square.
    pub open spec fn parse(s: Seq<char>) -> Option<Square> {
        if s.len() == 2 && file_of_char(s[0]) < 8 && rank_of_char(s[1]) < 8 {
            Some(Square::at(file_of_char(s[0]), rank_of_char(s[1])))
        } else {
            None
        }
    }

    /// Reading a square's name gives the square back.
    pub proof fn lemma_parse_algebraic(self)
        requires
            self.wf(),
        ensures
            Square::parse(self.algebraic()) == Some(self),
    {
    }

    /// Writing the square that a name stands for gives the name back.
    pub proof fn lemma_algebraic_parse(s: Seq<char>)
        requires
            Square::parse(s) is Some,
        ensures
            Square::parse(s).unwrap().wf(),
            Square::parse(s).unwrap().algebraic() == s,
    {
        assert(Square::parse(s).unwrap().algebraic() =~= s);
    }

    /// Creates a square from a 0-based file and rank on the board.
    pub fn new(file: u8, rank: u8) -> (r: Square)
        requires
            file < 8,
            rank < 8,
        ensures
            r == (Square { file, rank }),
            r.wf(),
    {
        Square { file, rank }
    }

    /// Parses a square's name (such as `"e4"`). Returns `None` for any
    /// other text.
    pub fn from_algebraic(s: &str) -> (r: Option<Square>)
        ensures
            r == Square::parse(s@),
            r matches Some(q) ==> q.wf() && q.algebraic() == s@,
    {
        if s.unicode_len() != 2 {
            return None;
        }
        let fc = s.get_char(0);
        let rc = s.get_char(1);
        let file: u8 = if fc == 'a' {
            0
        } else if fc == 'b' {
            1
        } else if fc == 'c' {
            2
        } else if fc == 'd' {
            3
        } else if fc == 'e' {
            4
        } else if fc == 'f' {
            5
        } else if fc == 'g' {
            6
        } else if fc == 'h' {
            7
        } else {
            8
        };
        let rank: u8 = if rc == '1' {
            0
        } else if rc == '2' {
            1
        } else if rc == '3' {
            2
        } else if rc == '4' {
            3
        } else if rc == '5' {
            4
        } else if rc == '6' {
            5
        } else if rc == '7' {
            6
        } else if rc == '8' {
            7
        } else {
            8
        };
        if file < 8 && rank < 8 {
            proof {
                Square::lemma_algebraic_parse(s@);
            }
            Some(Square { file, rank })
        } else {
            None
        }
    }

    /// Writes the square's name, such as `"e4"`.
    pub fn to_algebraic(self) -> (r: String)
        requires
            self.wf(),
        ensures
            r@ == self.algebraic(),
            Square::parse(r@) == Some(self),
    {
        let fc = if self.file == 0 {
            'a'
        } else if self.file == 1 {
            'b'
        } else if self.file == 2 {
            'c'
        } else if self.file == 3 {
            'd'
        } else if self.file == 4 {
            'e'
        } else if self.file == 5 {
            'f'
        } else if self.file == 6 {
            'g'
        } else {
            'h'
        };
        let mut s = String::new();
        s.push(fc);
        s.push(crate::text::digit_to_char(self.rank + 1));
        assert(s@ =~= self.algebraic());
        s
    }

    /// Returns the square `(df, dr)` away, or `None` if that is off the
    /// board.
    pub fn offset(self, df: i8, dr: i8) -> (r: Option<Square>)
        requires
            self.wf(),
        ensures
            r == self.shifted(df as int, dr as int),
            r matches Some(q) ==> q.wf(),
    {
        let f: i16 = self.file as i16 + df as i16;
        let k: i16 = self.rank as i16 + dr as i16;
        if 0 <= f && f < 8 && 0 <= k && k < 8 {
            Some(Square { file: f as u8, rank: k as u8 })
        } else {
            None
        }
    }

    /// Returns the flat index (`0..64`) of the square.
    pub fn index(self) -> (r: usize)
        requires
            self.wf(),
        ensures
            r == self.idx(),
            r < 64,
    {
        (self.rank as usize) * 8 + self.file as usize
    }
}

/// Castling rights of one side.
#[derive(Debug, Clone, Copy, PartialEq, Eq, Hash, Structural)]
pub struct SideCastlingRights {
    /// Whether castling on the king's side is still available.
    pub kingside: bool,
    /// Whether castling on the queen's side is still available.
    pub queenside: bool,
}

impl Default for SideCastlingRights {
    /// Both rights are available.
    fn default() -> (r: Self)
        ensures
            r == (SideCastlingRights { kingside: true, queenside: true }),
    {
        SideCastlingRights { kingside: true, queenside: true }
    }
}

/// Castling rights of both sides.
#[derive(Debug, Clone, Copy, PartialEq, Eq, Hash, Structural)]
pub struct CastlingRights {
    pub white: SideCastlingRights,
    pub black: SideCastlingRights,
}

impl Default for CastlingRights {
    /// All four rights are available.
    fn default() -> (r: Self)
        ensures
            r == CastlingRights::full(),
    {
        CastlingRights {
            white: SideCastlingRights { kingside: true, queenside: true },
            black: SideCastlingRights { kingside: true, queenside: true },
        }
    }
}

impl CastlingRights {
    /// All four rights.
    pub open spec fn full() -> CastlingRights {
        CastlingRights {
            white: SideCastlingRights { kingside: true, queenside: true },
            black: SideCastlingRights { kingside: true, queenside: true },
        }
    }

    /// The rights of one side.
    pub open spec fn side(self, color: Color) -> SideCastlingRights {
        match color {
            Color::White => self.white,
            Color::Black => self.black,
        }
    }

    /// These rights with one side's rights replaced.
    pub open spec fn with_side(self, color: Color, rights: SideCastlingRights) -> CastlingRights {
        match color {
            Color::White => CastlingRights { white: rights, black: self.black },
            Color::Black => CastlingRights { white: self.white, black: rights },
        }
    }

    /// Every right held here is also held in `earlier`.
    pub open spec fn within(self, earlier: CastlingRights) -> bool {
        &&& self.white.kingside ==> earlier.white.kingside
        &&& self.white.queenside ==> earlier.white.queenside
        &&& self.black.kingside ==> earlier.black.kingside
        &&& self.black.queenside ==> earlier.black.queenside
    }

    /// The castling field of a position's fingerprint: the letters of the
    /// rights that are held, in the order `KQkq`, or `-` if none is.
    pub open spec fn fen(self) -> Seq<char> {
        let s = (if self.white.kingside {
            seq!['K']
        } else {
            Seq::<char>::empty()
        }) + (if self.white.queenside {
            seq!['Q']
        } else {
            Seq::<char>::empty()
        }) + (if self.black.kingside {
            seq!['k']
        } else {
            Seq::<char>::empty()
        }) + (if self.black.queenside {
            seq!['q']
        } else {
            Seq::<char>::empty()
        });
        if s.len() == 0 {
            seq!['-']
        } else {
            s
        }
    }

    /// Returns the castling rights of the given colour.
    pub fn for_color(&self, color: Color) -> (r: &SideCastlingRights)
        ensures
            *r == self.side(color),
    {
        match color {
            Color::White => &self.white,
            Color::Black => &self.black,
        }
    }

    /// Returns a mutable reference to the castling rights of the given
    /// colour; the other colour's rights stay as they are.
    pub fn for_color_mut(&mut self, color: Color) -> (r: &mut SideCastlingRights)
        ensures
            *r == old(self).side(color),
            *final(self) == old(self).with_side(color, *final(r)),
    {
        match color {
            Color::White => &mut self.white,
            Color::Black => &mut self.black,
        }
    }

    /// Writes the castling field of a fingerprint (such as `"KQkq"` or
    /// `"-"`).
    pub fn to_fen(&self) -> (r: String)
        ensures
            r@ == self.fen(),
    {
        let mut s = String::new();
        if self.white.kingside {
            s.push('K');
        }
        if self.white.queenside {
            s.push('Q');
        }
        if self.black.kingside {
            s.push('k');
        }
        if self.black.queenside {
            s.push('q');
        }
        if !self.white.kingside && !self.white.queenside && !self.black.kingside
            && !self.black.queenside {
            s.push('-');
        }
        assert(s@ =~= self.fen());
        s
    }
}

/// The 64 cells of a board, indexed by `rank * 8 + file`.
pub type Cells = Seq<Option<Piece>>;

/// What stands on a file and rank; nothing stands off the board.
pub open spec fn cell(b: Cells, f: int, r: int) -> Option<Piece> {
    if on_board(f, r) {
        b[r * 8 + f]
    } else {
        None
    }
}

/// The piece that starts on a cell.
pub open spec fn start_cell(i: int) -> Option<Piece> {
    let f = i % 8;
    let r = i / 8;
    let kind = if f == 0 || f == 7 {
        PieceKind::Rook
    } else if f == 1 || f == 6 {
        PieceKind::Knight
    } else if f == 2 || f == 5 {
        PieceKind::Bishop
    } else if f == 3 {
        PieceKind::Queen
    } else {
        PieceKind::King
    };
    if r == 0 {
        Some(Piece { kind, color: Color::White })
    } else if r == 1 {
        Some(Piece { kind: PieceKind::Pawn, color: Color::White })
    } else if r == 6 {
        Some(Piece { kind: PieceKind::Pawn, color: Color::Black })
    } else if r == 7 {
        Some(Piece { kind, color: Color::Black })
    } else {
        None
    }
}

/// The cells of the standard starting position.
pub open spec fn start_cells() -> Cells {
    Seq::new(64, |i: int| start_cell(i))
}

/// The cells of an empty board.
pub open spec fn empty_cells() -> Cells {
    Seq::new(64, |i: int| None::<Piece>)
}

/// The lowest index at or after `i` of a cell that holds `p`, or 64 if there
/// is none.
pub open spec fn first_index_of(b: Cells, p: Piece, i: int) -> int
    decreases 64 - i,
{
    if i >= 64 || i < 0 {
        64
    } else if b[i] == Some(p) {
        i
    } else {
        first_index_of(b, p, i + 1)
    }
}

/// The square of the king of a colour: of the first one in index order, if
/// there are several.
pub open spec fn king_square(b: Cells, color: Color) -> Option<Square> {
    let i = first_index_of(b, Piece { kind: PieceKind::King, color }, 0);
    if i < 64 {
        Some(Square::at(i % 8, i / 8))
    } else {
        None
    }
}

/// What `first_index_of` finds holds the piece, and no earlier cell does.
pub proof fn lemma_first_index_of(b: Cells, p: Piece, i: int)
    requires
        0 <= i <= 64,
    ensures
        i <= first_index_of(b, p, i) <= 64,
        first_index_of(b, p, i) < 64 ==> b[first_index_of(b, p, i)] == Some(p),
        forall|j: int| i <= j < first_index_of(b, p, i) ==> b[j] != Some(p),
    decreases 64 - i,
{
    if i < 64 && b[i] != Some(p) {
        lemma_first_index_of(b, p, i + 1);
    }
}

/// The digit that closes a run of `run` empty squares, if there is a run.
pub open spec fn run_text(run: int) -> Seq<char> {
    if run > 0 {
        seq![digit_char(run)]
    } else {
        Seq::empty()
    }
}

/// The number of empty squares at the end of the first `n` files of a rank.
pub open spec fn run_after(b: Cells, rank: int, n: int) -> int
    decreases n,
{
    if n <= 0 {
        0
    } else if cell(b, n - 1, rank) is None {
        run_after(b, rank, n - 1) + 1
    } else {
        0
    }
}

/// The text of the first `n` files of a rank, up to the last piece among
/// them: every piece by its character, every run of empty squares before a
/// piece by its length.
pub open spec fn text_after(b: Cells, rank: int, n: int) -> Seq<char>
    decreases n,
{
    if n <= 0 {
        Seq::empty()
    } else {
        match cell(b, n - 1, rank) {
            Some(p) => text_after(b, rank, n - 1) + run_text(run_after(b, rank, n - 1)) + seq![
                p.symbol(),
            ],
            None => text_after(b, rank, n - 1),
        }
    }
}

/// The text of a rank: pieces by their characters, runs of empty squares by
/// their lengths, from the a-file to the h-file.
pub open spec fn rank_text(b: Cells, rank: int) -> Seq<char> {
    text_after(b, rank, 8) + run_text(run_after(b, rank, 8))
}

/// The text of the `n` highest ranks, from the eighth rank down, each but
/// the first rank followed by `/`.
pub open spec fn placement_text(b: Cells, n: int) -> Seq<char>
    decreases n,
{
    if n <= 0 {
        Seq::empty()
    } else {
        placement_text(b, n - 1) + rank_text(b, 8 - n) + (if n < 8 {
            seq!['/']
        } else {
            Seq::empty()
        })
    }
}

/// The fingerprint of a position: placement, side to move, castling rights
/// and en-passant square, separated by spaces. It leaves out the clocks and
/// the move number.
pub open spec fn fingerprint(
    b: Cells,
    turn: Color,
    rights: CastlingRights,
    en_passant: Option<Square>,
) -> Seq<char> {
    placement_text(b, 8) + seq![' '] + seq![
        match turn {
            Color::White => 'w',
            Color::Black => 'b',
        },
    ] + seq![' '] + rights.fen() + seq![' '] + (match en_passant {
        Some(sq) => sq.algebraic(),
        None => seq!['-'],
    })
}

/// A chess board: 64 cells, each empty or holding a piece.
#[derive(Debug, Clone, Copy, PartialEq, Eq)]
pub struct Board {
    pub squares: [Option<Piece>; 64],
}

impl View for Board {
    type V = Cells;

    open spec fn view(&self) -> Cells {
        self.squares@
    }
}

impl Default for Board {
    /// The empty board.
    fn default() -> (r: Self)
        ensures
            r@ == empty_cells(),
    {
        let b = Board { squares: array_fill_for_copy_types(None) };
        assert(b@ =~= empty_cells());
        b
    }
}

impl Board {
    /// Returns the piece on the given square, if any.
    pub fn get(&self, sq: Square) -> (r: Option<Piece>)
        requires
            sq.wf(),
        ensures
            r == self@[sq.idx()],
            r == cell(self@, sq.file as int, sq.rank as int),
    {
        self.squares[sq.index()]
    }

    /// Sets or clears the given square; every other square stays as it is.
    pub fn set(&mut self, sq: Square, piece: Option<Piece>)
        requires
            sq.wf(),
        ensures
            final(self)@ == old(self)@.update(sq.idx(), piece),
    {
        let i = sq.index();
        self.squares[i] = piece;
        assert(self@ =~= old(self)@.update(sq.idx(), piece));
    }

    /// Creates the standard starting position.
    pub fn starting_position() -> (r: Board)
        ensures
            r@ == start_cells(),
    {
        let mut board = Board::default();
        let mut i: u8 = 0;
        while i < 64
            invariant
                i <= 64,
                board@.len() == 64,
                forall|j: int| 0 <= j < i ==> board@[j] == start_cell(j),
            decreases 64 - i,
        {
            let f: u8 = i % 8;
            let r: u8 = i / 8;
            let kind = if f == 0 || f == 7 {
                PieceKind::Rook
            } else if f == 1 || f == 6 {
                PieceKind::Knight
            } else if f == 2 || f == 5 {
                PieceKind::Bishop
            } else if f == 3 {
                PieceKind::Queen
            } else {
                PieceKind::King
            };
            let piece = if r == 0 {
                Some(Piece { kind, color: Color::White })
            } else if r == 1 {
                Some(Piece { kind: PieceKind::Pawn, color: Color::White })
            } else if r == 6 {
                Some(Piece { kind: PieceKind::Pawn, color: Color::Black })
            } else if r == 7 {
                Some(Piece { kind, color: Color::Black })
            } else {
                None
            };
            board.set(Square { file: f, rank: r }, piece);
            i = i + 1;
        }
        assert(board@ =~= start_cells());
        board
    }

    /// Appends the text of one rank to `fen`.
    fn push_rank_text(&self, rank: u8, fen: &mut String)
        requires
            rank < 8,
        ensures
            final(fen)@ == old(fen)@ + rank_text(self@, rank as int),
    {
        let mut empty_count: u8 = 0;
        let mut file: u8 = 0;
        while file < 8
            invariant
                file <= 8,
                rank < 8,
                empty_count == run_after(self@, rank as int, file as int),
                empty_count <= file,
                fen@ == old(fen)@ + text_after(self@, rank as int, file as int),
            decreases 8 - file,
        {
            let ghost before = text_after(self@, rank as int, file as int);
            match self.get(Square { file, rank }) {
                Some(piece) => {
                    if empty_count > 0 {
                        fen.push(crate::text::digit_to_char(empty_count));
                        empty_count = 0;
                    }
                    fen.push(piece.to_fen_char());
                    assert(fen@ =~= old(fen)@ + (before + run_text(
                        run_after(self@, rank as int, file as int),
                    ) + seq![piece.symbol()]));
                },
                None => {
                    empty_count = empty_count + 1;
                },
            }
            file = file + 1;
        }
        if empty_count > 0 {
            fen.push(crate::text::digit_to_char(empty_count));
        }
        assert(fen@ =~= old(fen)@ + rank_text(self@, rank as int));
    }

    /// Writes the position's fingerprint: placement, side to move, castling
    /// rights and en-passant square. Two positions with the same
    /// fingerprint count as the same position for the repetition rules.
    pub fn to_position_fen(
        &self,
        turn: Color,
        castling: &CastlingRights,
        en_passant: Option<Square>,
    ) -> (r: String)
        requires
            en_passant matches Some(sq) ==> sq.wf(),
        ensures
            r@ == fingerprint(self@, turn, *castling, en_passant),
    {
        let mut fen = String::new();
        let mut done: u8 = 0;
        while done < 8
            invariant
                done <= 8,
                fen@ == placement_text(self@, done as int),
            decreases 8 - done,
        {
            let ghost before = fen@;
            let rank: u8 = 7 - done;
            self.push_rank_text(rank, &mut fen);
            if rank > 0 {
                fen.push('/');
            }
            done = done + 1;
            assert(fen@ =~= before + rank_text(self@, 8 - done) + (if done < 8 {
                seq!['/']
            } else {
                Seq::empty()
            }));
        }
        let ghost placement = fen@;
        fen.push(' ');
        fen.push(
            match turn {
                Color::White => 'w',
                Color::Black => 'b',
            },
        );
        fen.push(' ');
        let rights = castling.to_fen();
        fen.append(rights.as_str());
        fen.push(' ');
        match en_passant {
            Some(sq) => {
                let name = sq.to_algebraic();
                fen.append(name.as_str());
            },
            None => {
                fen.push('-');
            },
        }
        assert(fen@ =~= fingerprint(self@, turn, *castling, en_passant));
        fen
    }

    /// Finds the square of the king of the given colour: the first in index
    /// order, or `None` if there is no such king on the board.
    pub fn find_king(&self, color: Color) -> (r: Option<Square>)
        ensures
            r == king_square(self@, color),
            r matches Some(sq) ==> sq.wf() && self@[sq.idx()] == Some(
                Piece { kind: PieceKind::King, color },
            ),
            r is None ==> forall|j: int|
                0 <= j < 64 ==> self@[j] != Some(Piece { kind: PieceKind::King, color }),
    {
        let ghost king = Piece { kind: PieceKind::King, color };
        let mut i: u8 = 0;
        while i < 64
            invariant
                i <= 64,
                self@.len() == 64,
                king == (Piece { kind: PieceKind::King, color }),
                first_index_of(self@, king, 0) == first_index_of(self@, king, i as int),
                forall|j: int| 0 <= j < i ==> self@[j] != Some(king),
            decreases 64 - i,
        {
            let sq = Square { file: i % 8, rank: i / 8 };
            match self.get(sq) {
                Some(p) => {
                    if p.kind == PieceKind::King && p.color == color {
                        return Some(sq);
                    }
                },
                None => {},
            }
            i = i + 1;
        }
        None
    }
}

/// The engine's description of a move.
#[derive(Debug, Clone, Copy, PartialEq, Eq, Structural)]
pub struct ChessMove {
    pub from: Square,
    pub to: Square,
    pub promotion: Option<PieceKind>,
    pub is_castling: bool,
    pub is_en_passant: bool,
}

/// The letter of a promotion target in a submitted move.
pub open spec fn promotion_letter(k: PieceKind) -> Seq<char> {
    seq![k.letter()]
}

/// The promotion target that a submitted letter stands for, if any.
pub open spec fn promotion_of(s: Seq<char>) -> Option<PieceKind> {
    if s.len() != 1 {
        None
    } else if s[0] == 'Q' {
        Some(PieceKind::Queen)
    } else if s[0] == 'R' {
        Some(PieceKind::Rook)
    } else if s[0] == 'B' {
        Some(PieceKind::Bishop)
    } else if s[0] == 'N' {
        Some(PieceKind::Knight)
    } else {
        None
    }
}

/// Reads a promotion letter (`"Q"`, `"R"`, `"B"` or `"N"`).
pub fn parse_promotion(s: &str) -> (r: Option<PieceKind>)
    ensures
        r == promotion_of(s@),
        r matches Some(k) ==> k.is_promotion_target() && promotion_letter(k) == s@,
{
    if s.unicode_len() != 1 {
        return None;
    }
    let c = s.get_char(0);
    let r = if c == 'Q' {
        Some(PieceKind::Queen)
    } else if c == 'R' {
        Some(PieceKind::Rook)
    } else if c == 'B' {
        Some(PieceKind::Bishop)
    } else if c == 'N' {
        Some(PieceKind::Knight)
    } else {
        None
    };
    proof {
        if let Some(k) = r {
            assert(promotion_letter(k) =~= s@);
        }
    }
    r
}

/// Writes the letter of a promotion target.
pub fn promotion_string(k: PieceKind) -> (r: String)
    requires
        k.is_promotion_target(),
    ensures
        r@ == promotion_letter(k),
        promotion_of(r@) == Some(k),
{
    let c = match k {
        PieceKind::Queen => 'Q',
        PieceKind::Rook => 'R',
        PieceKind::Bishop => 'B',
        _ => 'N',
    };
    let mut s = String::new();
    s.push(c);
    assert(s@ =~= promotion_letter(k));
    s
}

/// A move as it is submitted: the names of two squares and, for a
/// promotion, the letter of the new piece.
#[derive(Debug, Clone, PartialEq, Eq)]
pub struct MoveJson {
    /// Name of the square the piece leaves, such as `"e2"`.
    pub from: String,
    /// Name of the square the piece reaches, such as `"e4"`.
    pub to: String,
    /// For a promotion, `"Q"`, `"R"`, `"B"` or `"N"`.
    pub promotion: Option<String>,
}

/// The text of a submitted move.
pub struct MoveText {
    pub from: Seq<char>,
    pub to: Seq<char>,
    pub promotion: Option<Seq<char>>,
}

impl View for MoveJson {
    type V = MoveText;

    open spec fn view(&self) -> MoveText {
        MoveText {
            from: self.from@,
            to: self.to@,
            promotion: match self.promotion {
                Some(p) => Some(p@),
                None => None,
            },
        }
    }
}

impl MoveText {
    /// The promotion that the text asks for: `Some(None)` for no promotion,
    /// `Some(Some(k))` for a promotion to `k`, `None` for an unknown letter.
    pub open spec fn promotion_kind(self) -> Option<Option<PieceKind>> {
        match self.promotion {
            None => Some(None),
            Some(p) => match promotion_of(p) {
                Some(k) => Some(Some(k)),
                None => None,
            },
        }
    }

    /// The text names two squares and no unknown promotion letter.
    pub open spec fn well_formed(self) -> bool {
        &&& Square::parse(self.from) is Some
        &&& Square::parse(self.to) is Some
        &&& self.promotion_kind() is Some
    }
}

impl MoveJson {
    /// Returns a copy with the same text.
    pub fn duplicate(&self) -> (r: MoveJson)
        ensures
            r@ == self@,
    {
        let promotion = match &self.promotion {
            Some(p) => Some(p.clone()),
            None => None,
        };
        MoveJson { from: self.from.clone(), to: self.to.clone(), promotion }
    }
}

/// Why a submitted move was not read or not played.
#[derive(Debug, Clone, PartialEq, Eq)]
pub enum MoveError {
    /// The game already has a result.
    GameOver,
    /// The source is not the name of a square.
    InvalidFrom,
    /// The target is not the name of a square.
    InvalidTo,
    /// The promotion is none of `Q`, `R`, `B`, `N`.
    InvalidPromotion,
    /// No piece stands on the source square.
    NoPiece,
    /// The piece on the source square belongs to the side that is not to
    /// move; `turn` is the side to move.
    WrongColor { turn: Color },
    /// No legal move matches; `piece` is the piece on the source square,
    /// and `available` lists the legal moves from that square, in the
    /// order in which they are generated.
    Illegal { piece: Piece, available: Vec<ChessMove> },
}

/// A `MoveError` as a mathematical value.
pub enum MoveFault {
    GameOver,
    InvalidFrom,
    InvalidTo,
    InvalidPromotion,
    NoPiece,
    WrongColor { turn: Color },
    Illegal { piece: Piece, available: Seq<ChessMove> },
}

impl View for MoveError {
    type V = MoveFault;

    open spec fn view(&self) -> MoveFault {
        match self {
            MoveError::GameOver => MoveFault::GameOver,
            MoveError::InvalidFrom => MoveFault::InvalidFrom,
            MoveError::InvalidTo => MoveFault::InvalidTo,
            MoveError::InvalidPromotion => MoveFault::InvalidPromotion,
            MoveError::NoPiece => MoveFault::NoPiece,
            MoveError::WrongColor { turn } => MoveFault::WrongColor { turn: *turn },
            MoveError::Illegal { piece, available } => MoveFault::Illegal {
                piece: *piece,
                available: available@,
            },
        }
    }
}

/// The kinds of error that a request can end in.
#[derive(Debug, Clone, Copy, PartialEq, Eq, Structural)]
pub enum ErrorKind {
    /// A malformed identifier, an unreadable square, an unknown promotion
    /// piece, a missing field.
    BadRequest,
    /// No live or archived game has the identifier.
    NotFound,
    /// The input was well formed but the move is not legal.
    IllegalMove,
    /// An unsupported action, an acceptance without an offer, a draw claim
    /// whose condition is not met, or any move or action after the game is
    /// over.
    IllegalAction,
    /// An archive that fails its validation.
    SchemaError,
    /// A failure of storage or compression.
    StorageError,
}

impl MoveFault {
    /// The kind of error under which the fault is reported.
    pub open spec fn kind(self) -> ErrorKind {
        match self {
            MoveFault::GameOver => ErrorKind::IllegalAction,
            MoveFault::InvalidFrom => ErrorKind::BadRequest,
            MoveFault::InvalidTo => ErrorKind::BadRequest,
            MoveFault::InvalidPromotion => ErrorKind::BadRequest,
            MoveFault::NoPiece => ErrorKind::IllegalMove,
            MoveFault::WrongColor { .. } => ErrorKind::IllegalMove,
            MoveFault::Illegal { .. } => ErrorKind::IllegalMove,
        }
    }
}

impl MoveError {
    /// Returns the kind of error under which this error is reported.
    pub fn kind(&self) -> (k: ErrorKind)
        ensures
            k == self@.kind(),
    {
        match self {
            MoveError::GameOver => ErrorKind::IllegalAction,
            MoveError::InvalidFrom => ErrorKind::BadRequest,
            MoveError::InvalidTo => ErrorKind::BadRequest,
            MoveError::InvalidPromotion => ErrorKind::BadRequest,
            MoveError::NoPiece => ErrorKind::IllegalMove,
            MoveError::WrongColor { .. } => ErrorKind::IllegalMove,
            MoveError::Illegal { .. } => ErrorKind::IllegalMove,
        }
    }
}

impl ChessMove {
    /// Both squares lie on the board.
    pub open spec fn wf(self) -> bool {
        self.from.wf() && self.to.wf()
    }

    /// The plain move between two squares.
    pub open spec fn plain(from: Square, to: Square) -> ChessMove {
        ChessMove { from, to, promotion: None, is_castling: false, is_en_passant: false }
    }

    /// The text under which this move is submitted.
    pub open spec fn text(self) -> MoveText {
        MoveText {
            from: self.from.algebraic(),
            to: self.to.algebraic(),
            promotion: match self.promotion {
                Some(k) => Some(promotion_letter(k)),
                None => None,
            },
        }
    }

    /// The move's notation: the two squares' names and, for a promotion,
    /// `=` and the letter of the new piece (`?` if that is no promotion
    /// target).
    pub open spec fn notation(self) -> Seq<char> {
        self.from.algebraic() + self.to.algebraic() + match self.promotion {
            None => Seq::<char>::empty(),
            Some(k) => seq!['=', if k.is_promotion_target() { k.letter() } else { '?' }],
        }
    }

    /// Creates a plain move (no promotion, no castling, no en passant).
    pub fn simple(from: Square, to: Square) -> (r: ChessMove)
        ensures
            r == ChessMove::plain(from, to),
    {
        ChessMove { from, to, promotion: None, is_castling: false, is_en_passant: false }
    }

    /// Converts the move to the form in which moves are submitted.
    pub fn to_json(&self) -> (r: MoveJson)
        requires
            self.wf(),
            self.promotion matches Some(k) ==> k.is_promotion_target(),
        ensures
            r@ == self.text(),
            Square::parse(r@.from) == Some(self.from),
            Square::parse(r@.to) == Some(self.to),
            r@.promotion_kind() == Some(self.promotion),
    {
        let promotion = match self.promotion {
            Some(k) => Some(promotion_string(k)),
            None => None,
        };
        MoveJson { from: self.from.to_algebraic(), to: self.to.to_algebraic(), promotion }
    }

    /// What reading a submitted move gives: the error for the first of
    /// source, target and promotion that cannot be read, else the move with
    /// the castling and en-passant flags unset.
    pub open spec fn read(t: MoveText) -> Result<ChessMove, MoveFault> {
        if Square::parse(t.from) is None {
            Err(MoveFault::InvalidFrom)
        } else if Square::parse(t.to) is None {
            Err(MoveFault::InvalidTo)
        } else if t.promotion_kind() is None {
            Err(MoveFault::InvalidPromotion)
        } else {
            Ok(
                ChessMove {
                    from: Square::parse(t.from).unwrap(),
                    to: Square::parse(t.to).unwrap(),
                    promotion: t.promotion_kind().unwrap(),
                    is_castling: false,
                    is_en_passant: false,
                },
            )
        }
    }

    /// Reads a submitted move. The castling and en-passant flags are not
    /// part of the text and are left unset.
    pub fn from_json(mj: &MoveJson) -> (r: Result<ChessMove, MoveError>)
        ensures
            match r {
                Ok(m) => ChessMove::read(mj@) == Ok::<ChessMove, MoveFault>(m) && m.wf(),
                Err(e) => ChessMove::read(mj@) == Err::<ChessMove, MoveFault>(e@),
            },
    {
        let from = match Square::from_algebraic(mj.from.as_str()) {
            Some(sq) => sq,
            None => {
                return Err(MoveError::InvalidFrom);
            },
        };
        let to = match Square::from_algebraic(mj.to.as_str()) {
            Some(sq) => sq,
            None => {
                return Err(MoveError::InvalidTo);
            },
        };
        let promotion = match &mj.promotion {
            Some(p) => match parse_promotion(p.as_str()) {
                Some(k) => Some(k),
                None => {
                    return Err(MoveError::InvalidPromotion);
                },
            },
            None => None,
        };
        Ok(ChessMove { from, to, promotion, is_castling: false, is_en_passant: false })
    }

    /// Writes the move's notation, such as `"e2e4"` or `"e7e8=Q"`.
    pub fn to_string(&self) -> (r: String)
        requires
            self.wf(),
        ensures
            r@ == self.notation(),
    {
        let mut s = self.from.to_algebraic();
        let t = self.to.to_algebraic();
        s.append(t.as_str());
        match self.promotion {
            Some(k) => {
                let c = match k {
                    PieceKind::Queen => 'Q',
                    PieceKind::Rook => 'R',
                    PieceKind::Bishop => 'B',
                    PieceKind::Knight => 'N',
                    _ => '?',
                };
                s.push('=');
                s.push(c);
            },
            None => {},
        }
        assert(s@ =~= self.notation());
        s
    }
}

/// A special action, as it is submitted.
#[derive(Debug, Clone, PartialEq, Eq)]
pub struct ActionJson {
    /// `"resign"`, `"offer_draw"`, `"accept_draw"` or `"claim_draw"`.
    pub action: String,
    /// For a draw claim, `"threefold_repetition"` or `"fifty_move_rule"`.
    pub reason: Option<String>,
}

/// What an agent answers: a move or a special action.
#[derive(Debug, Clone, PartialEq, Eq)]
pub enum AgentResponse {
    /// A move.
    Move(MoveJson),
    /// A special action.
    Action(ActionJson),
}

/// The result of a finished game.
#[derive(Debug, Clone, Copy, PartialEq, Eq, Structural)]
pub enum GameResult {
    WhiteWins,
    BlackWins,
    Draw,
}

impl GameResult {
    /// The win of a side.
    pub open spec fn win_of(color: Color) -> GameResult {
        match color {
            Color::White => GameResult::WhiteWins,
            Color::Black => GameResult::BlackWins,
        }
    }

    /// The result in words.
    pub open spec fn text(self) -> Seq<char> {
        match self {
            GameResult::WhiteWins => "1-0 (White wins)"@,
            GameResult::BlackWins => "0-1 (Black wins)"@,
            GameResult::Draw => "1/2-1/2 (Draw)"@,
        }
    }

    /// Writes the result in words.
    pub fn to_string(&self) -> (r: String)
        ensures
            r@ == self.text(),
    {
        match self {
            GameResult::WhiteWins => "1-0 (White wins)".to_owned(),
            GameResult::BlackWins => "0-1 (Black wins)".to_owned(),
            GameResult::Draw => "1/2-1/2 (Draw)".to_owned(),
        }
    }
}

/// Why a game ended.
#[derive(Debug, Clone, Copy, PartialEq, Eq, Structural)]
pub enum GameEndReason {
    Checkmate,
    Stalemate,
    ThreefoldRepetition,
    FivefoldRepetition,
    FiftyMoveRule,
    SeventyFiveMoveRule,
    InsufficientMaterial,
    Resignation,
    DrawAgreement,
}

impl GameEndReason {
    /// The reason in words.
    pub open spec fn text(self) -> Seq<char> {
        match self {
            GameEndReason::Checkmate => "Checkmate"@,
            GameEndReason::Stalemate => "Stalemate"@,
            GameEndReason::ThreefoldRepetition => "Threefold repetition"@,
            GameEndReason::FivefoldRepetition => "Fivefold repetition"@,
            GameEndReason::FiftyMoveRule => "50-move rule"@,
            GameEndReason::SeventyFiveMoveRule => "75-move rule"@,
            GameEndReason::InsufficientMaterial => "Insufficient material"@,
            GameEndReason::Resignation => "Resignation"@,
            GameEndReason::DrawAgreement => "Draw by agreement"@,
        }
    }

    /// Writes the reason in words.
    pub fn to_string(&self) -> (r: String)
        ensures
            r@ == self.text(),
    {
        match self {
            GameEndReason::Checkmate => "Checkmate".to_owned(),
            GameEndReason::Stalemate => "Stalemate".to_owned(),
            GameEndReason::ThreefoldRepetition => "Threefold repetition".to_owned(),
            GameEndReason::FivefoldRepetition => "Fivefold repetition".to_owned(),
            GameEndReason::FiftyMoveRule => "50-move rule".to_owned(),
            GameEndReason::SeventyFiveMoveRule => "75-move rule".to_owned(),
            GameEndReason::InsufficientMaterial => "Insufficient material".to_owned(),
            GameEndReason::Resignation => "Resignation".to_owned(),
            GameEndReason::DrawAgreement => "Draw by agreement".to_owned(),
        }
    }
}


/// A move's notation, or `?` for a move whose squares do not lie on the
/// board.
pub open spec fn shown(m: ChessMove) -> Seq<char> {
    if m.wf() {
        m.notation()
    } else {
        "?"@
    }
}

/// The notations of a sequence of moves, separated by a comma and a space.
pub open spec fn listed(moves: Seq<ChessMove>) -> Seq<char>
    decreases moves.len(),
{
    if moves.len() == 0 {
        Seq::empty()
    } else if moves.len() == 1 {
        shown(moves[0])
    } else {
        listed(moves.drop_last()) + ", "@ + shown(moves.last())
    }
}

/// The text of a submitted move's optional promotion.
pub open spec fn promotion_text(p: Option<Seq<char>>) -> Seq<char> {
    match p {
        Some(s) => s,
        None => Seq::empty(),
    }
}

impl MoveFault {
    /// The message that reports the fault of the submitted move `t`. The
    /// message of an illegal move lists the legal moves from the move's
    /// source square.
    pub open spec fn message(self, t: MoveText) -> Seq<char> {
        match self {
            MoveFault::GameOver => "Game is already over"@,
            MoveFault::InvalidFrom => "Invalid from square: "@ + t.from,
            MoveFault::InvalidTo => "Invalid to square: "@ + t.to,
            MoveFault::InvalidPromotion => "Invalid promotion piece: "@ + promotion_text(
                t.promotion,
            ),
            MoveFault::NoPiece => "No piece on square "@ + t.from,
            MoveFault::WrongColor { turn } => "Piece on "@ + t.from + " belongs to "@
                + turn.other().title() + ", but it is "@ + turn.title() + "'s turn"@,
            MoveFault::Illegal { piece, available } => if available.len() == 0 {
                "Illegal move: "@ + t.from + " ("@ + seq![piece.symbol()]
                    + ") has no legal moves"@
            } else {
                "Illegal move: "@ + t.from + t.to + promotion_text(t.promotion)
                    + " is not legal. Legal moves from "@ + t.from + ": "@ + listed(available)
            },
        }
    }
}

/// Appends the notations of a list of moves, separated by a comma and a
/// space.
fn push_listed(out: &mut String, moves: &Vec<ChessMove>)
    ensures
        final(out)@ == old(out)@ + listed(moves@),
{
    let mut i: usize = 0;
    assert(moves@.take(0) =~= Seq::<ChessMove>::empty());
    assert(out@ =~= old(out)@ + listed(moves@.take(0)));
    while i < moves.len()
        invariant
            i <= moves.len(),
            out@ == old(out)@ + listed(moves@.take(i as int)),
        decreases moves.len() - i,
    {
        let ghost before = out@;
        let ghost done = listed(moves@.take(i as int));
        if i > 0 {
            out.append(", ");
        }
        let m = moves[i];
        if m.from.file < 8 && m.from.rank < 8 && m.to.file < 8 && m.to.rank < 8 {
            let text = m.to_string();
            out.append(text.as_str());
        } else {
            out.append("?");
        }
        proof {
            let now = moves@.take(i + 1);
            assert(now.drop_last() =~= moves@.take(i as int));
            assert(now.last() == m);
            if i == 0 {
                assert(done =~= Seq::<char>::empty());
                assert(out@ =~= old(out)@ + shown(m));
            } else {
                assert(out@ =~= old(out)@ + (done + ", "@ + shown(m)));
            }
        }
        i = i + 1;
    }
    assert(moves@.take(i as int) =~= moves@);
}

impl MoveError {
    /// Writes the message that reports this error of the submitted move.
    /// For an illegal move it lists the legal moves from the source
    /// square.
    pub fn message(&self, move_json: &MoveJson) -> (r: String)
        ensures
            r@ == self@.message(move_json@),
    {
        let mut out = String::new();
        match self {
            MoveError::GameOver => {
                out.append("Game is already over");
            },
            MoveError::InvalidFrom => {
                out.append("Invalid from square: ");
                out.append(move_json.from.as_str());
            },
            MoveError::InvalidTo => {
                out.append("Invalid to square: ");
                out.append(move_json.to.as_str());
            },
            MoveError::InvalidPromotion => {
                out.append("Invalid promotion piece: ");
                match &move_json.promotion {
                    Some(p) => {
                        out.append(p.as_str());
                    },
                    None => {},
                }
            },
            MoveError::NoPiece => {
                out.append("No piece on square ");
                out.append(move_json.from.as_str());
            },
            MoveError::WrongColor { turn } => {
                out.append("Piece on ");
                out.append(move_json.from.as_str());
                out.append(" belongs to ");
                out.append(turn.opponent().title_str());
                out.append(", but it is ");
                out.append(turn.title_str());
                out.append("'s turn");
            },
            MoveError::Illegal { piece, available } => {
                out.append("Illegal move: ");
                out.append(move_json.from.as_str());
                if available.len() == 0 {
                    out.append(" (");
                    out.push(piece.to_fen_char());
                    out.append(") has no legal moves");
                } else {
                    out.append(move_json.to.as_str());
                    match &move_json.promotion {
                        Some(p) => {
                            out.append(p.as_str());
                        },
                        None => {},
                    }
                    out.append(" is not legal. Legal moves from ");
                    out.append(move_json.from.as_str());
                    out.append(": ");
                    push_listed(&mut out, available);
                }
            },
        }
        assert(out@ =~= self@.message(move_json@));
        out
    }
}


/// The square with a flat index.
pub open spec fn square_at_index(i: int) -> Square {
    Square::at(i % 8, i / 8)
}

/// The board's occupied squares among the first `n`, in index order, each
/// as the square's name and the piece's character.
pub open spec fn map_entries(b: Cells, n: int) -> Seq<(Seq<char>, Seq<char>)>
    decreases n,
{
    if n <= 0 {
        Seq::empty()
    } else {
        match b[n - 1] {
            Some(p) => map_entries(b, n - 1).push(
                (square_at_index(n - 1).algebraic(), seq![p.symbol()]),
            ),
            None => map_entries(b, n - 1),
        }
    }
}

/// The texts of a list of pairs of strings.
pub open spec fn entry_texts(v: Seq<(String, String)>) -> Seq<(Seq<char>, Seq<char>)> {
    Seq::new(v.len(), |i: int| (v[i].0@, v[i].1@))
}

/// Why a list of squares and pieces is no board.
#[derive(Debug, Clone, Copy, PartialEq, Eq, Structural)]
pub enum BoardMapError {
    /// The entry with this index does not name a square.
    InvalidSquare { index: usize },
    /// The entry with this index has an empty piece text.
    EmptyPiece { index: usize },
    /// The entry with this index has a piece text that starts with no
    /// piece's character.
    InvalidPiece { index: usize },
}

/// The board that the first `n` entries of a list describe: every entry
/// puts the piece that its text starts with on the square it names, a later
/// entry replacing an earlier one on the same square. The first entry that
/// cannot be read is the error.
pub open spec fn board_of_entries(entries: Seq<(Seq<char>, Seq<char>)>, n: int) -> Result<
    Cells,
    BoardMapError,
>
    decreases n,
{
    if n <= 0 {
        Ok(empty_cells())
    } else {
        match board_of_entries(entries, n - 1) {
            Err(e) => Err(e),
            Ok(b) => {
                let (name, piece) = entries[n - 1];
                if Square::parse(name) is None {
                    Err(BoardMapError::InvalidSquare { index: (n - 1) as usize })
                } else if piece.len() == 0 {
                    Err(BoardMapError::EmptyPiece { index: (n - 1) as usize })
                } else if Piece::of_symbol(piece[0]) is None {
                    Err(BoardMapError::InvalidPiece { index: (n - 1) as usize })
                } else {
                    Ok(b.update(Square::parse(name).unwrap().idx(), Piece::of_symbol(piece[0])))
                }
            },
        }
    }
}

/// An error among the first entries is the error of the whole list.
pub proof fn lemma_board_error_stays(entries: Seq<(Seq<char>, Seq<char>)>, j: int, n: int)
    requires
        j <= n,
        board_of_entries(entries, j) is Err,
    ensures
        board_of_entries(entries, n) == board_of_entries(entries, j),
    decreases n - j,
{
    if j < n {
        lemma_board_error_stays(entries, j, n - 1);
    }
}

/// The board that a list describes depends on the entries that are read
/// alone.
pub proof fn lemma_board_of_prefix(
    a: Seq<(Seq<char>, Seq<char>)>,
    b: Seq<(Seq<char>, Seq<char>)>,
    n: int,
)
    requires
        n <= a.len(),
        n <= b.len(),
        forall|i: int| 0 <= i < n ==> a[i] == b[i],
    ensures
        board_of_entries(a, n) == board_of_entries(b, n),
    decreases n,
{
    if n > 0 {
        lemma_board_of_prefix(a, b, n - 1);
    }
}

/// The cells of a board up to the `n`-th, and nothing on the others.
pub open spec fn first_cells(b: Cells, n: int) -> Cells {
    Seq::new(64, |i: int| if i < n {
        b[i]
    } else {
        None
    })
}

/// The list of a board's first `n` squares describes those squares.
pub proof fn lemma_entries_describe(b: Cells, n: int)
    requires
        b.len() == 64,
        0 <= n <= 64,
    ensures
        board_of_entries(map_entries(b, n), map_entries(b, n).len() as int) == Ok::<
            Cells,
            BoardMapError,
        >(first_cells(b, n)),
    decreases n,
{
    if n == 0 {
        assert(first_cells(b, 0) =~= empty_cells());
    } else {
        lemma_entries_describe(b, n - 1);
        let before = map_entries(b, n - 1);
        match b[n - 1] {
            Some(p) => {
                let sq = square_at_index(n - 1);
                let all = map_entries(b, n);
                assert(all == before.push((sq.algebraic(), seq![p.symbol()])));
                lemma_board_of_prefix(all, before, before.len() as int);
                sq.lemma_parse_algebraic();
                assert(sq.idx() == n - 1);
                assert(Piece::of_symbol(p.symbol()) == Some(p));
                assert(first_cells(b, n - 1).update(n - 1, Some(p)) =~= first_cells(b, n));
            },
            None => {
                assert(first_cells(b, n - 1) =~= first_cells(b, n));
            },
        }
    }
}

/// Building a board from the list of a board's occupied squares gives the
/// board back.
pub proof fn lemma_from_map_to_map(b: Cells)
    requires
        b.len() == 64,
    ensures
        board_of_entries(map_entries(b, 64), map_entries(b, 64).len() as int) == Ok::<
            Cells,
            BoardMapError,
        >(b),
{
    lemma_entries_describe(b, 64);
    assert(first_cells(b, 64) =~= b);
}

impl Board {
    /// Lists the occupied squares in index order, each as the square's
    /// name and the piece's character. Empty squares are not listed.
    pub fn to_map(&self) -> (r: Vec<(String, String)>)
        ensures
            entry_texts(r@) == map_entries(self@, 64),
    {
        let mut out: Vec<(String, String)> = Vec::new();
        let mut i: u8 = 0;
        assert(entry_texts(out@) =~= map_entries(self@, 0));
        while i < 64
            invariant
                i <= 64,
                entry_texts(out@) == map_entries(self@, i as int),
            decreases 64 - i,
        {
            let sq = Square { file: i % 8, rank: i / 8 };
            match self.get(sq) {
                Some(piece) => {
                    let ghost before = entry_texts(out@);
                    let mut symbol = String::new();
                    symbol.push(piece.to_fen_char());
                    assert(symbol@ =~= seq![piece.symbol()]);
                    let name = sq.to_algebraic();
                    out.push((name, symbol));
                    assert(entry_texts(out@) =~= before.push(
                        (sq.algebraic(), seq![piece.symbol()]),
                    ));
                },
                None => {},
            }
            i = i + 1;
        }
        out
    }

    /// Builds a board from a list of squares' names and pieces' characters.
    pub fn from_map(map: &Vec<(String, String)>) -> (r: Result<Board, BoardMapError>)
        ensures
            match r {
                Ok(b) => board_of_entries(entry_texts(map@), map@.len() as int) == Ok::<
                    Cells,
                    BoardMapError,
                >(b@),
                Err(e) => board_of_entries(entry_texts(map@), map@.len() as int) == Err::<
                    Cells,
                    BoardMapError,
                >(e),
            },
    {
        let mut board = Board::default();
        let ghost entries = entry_texts(map@);
        let mut i: usize = 0;
        while i < map.len()
            invariant
                i <= map.len(),
                entries == entry_texts(map@),
                board_of_entries(entries, i as int) == Ok::<Cells, BoardMapError>(board@),
            decreases map.len() - i,
        {
            let entry = &map[i];
            assert(entries[i as int] == (entry.0@, entry.1@));
            let sq = match Square::from_algebraic(entry.0.as_str()) {
                Some(sq) => sq,
                None => {
                    proof {
                        lemma_board_error_stays(entries, i + 1, map@.len() as int);
                    }
                    return Err(BoardMapError::InvalidSquare { index: i });
                },
            };
            if entry.1.as_str().unicode_len() == 0 {
                proof {
                    lemma_board_error_stays(entries, i + 1, map@.len() as int);
                }
                return Err(BoardMapError::EmptyPiece { index: i });
            }
            let ch = entry.1.as_str().get_char(0);
            let piece = match Piece::from_fen_char(ch) {
                Some(p) => p,
                None => {
                    proof {
                        lemma_board_error_stays(entries, i + 1, map@.len() as int);
                    }
                    return Err(BoardMapError::InvalidPiece { index: i });
                },
            };
            board.set(sq, Some(piece));
            i = i + 1;
        }
        Ok(board)
    }
}

/// The state of a game as it is sent to an agent.
#[derive(Debug, Clone, PartialEq, Eq)]
pub struct GameStateJson {
    /// The occupied squares: square name and piece character.
    pub board: Vec<(String, String)>,
    /// The side to move.
    pub turn: Color,
    /// The castling rights.
    pub castling: CastlingRights,
    /// The name of the en-passant square, if there is one.
    pub en_passant: Option<String>,
    /// Half-moves since the last pawn move or capture.
    pub halfmove_clock: u32,
    /// The full-move number.
    pub fullmove_number: u32,
    /// The fingerprints of all positions so far.
    pub position_history: Vec<String>,
}

/// Returns a copy of a list of strings.
pub fn copy_strings(v: &Vec<String>) -> (r: Vec<String>)
    ensures
        r@.len() == v@.len(),
        forall|i: int| 0 <= i < v@.len() ==> (#[trigger] r@[i])@ == v@[i]@,
{
    let mut out: Vec<String> = Vec::new();
    let mut i: usize = 0;
    while i < v.len()
        invariant
            i <= v.len(),
            out@.len() == i,
            forall|j: int| 0 <= j < i ==> (#[trigger] out@[j])@ == v@[j]@,
        decreases v.len() - i,
    {
        out.push(v[i].clone());
        i = i + 1;
    }
    out
}

} // verus!
