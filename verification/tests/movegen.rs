use checkai::movegen::{generate_legal_moves, is_in_check, is_insufficient_material};
use checkai::types::{
    Board, CastlingRights, ChessMove, Color, Piece, PieceKind, SideCastlingRights, Square,
};

#[test]
fn test_starting_position_has_20_moves() {
    let board = Board::starting_position();
    let castling = CastlingRights::default();
    let moves = generate_legal_moves(&board, Color::White, &castling, None);
    assert_eq!(moves.len(), 20, "White should have 20 legal moves in starting position");
}

#[test]
fn test_starting_position_not_in_check() {
    let board = Board::starting_position();
    assert!(!is_in_check(&board, Color::White));
    assert!(!is_in_check(&board, Color::Black));
}

#[test]
fn test_insufficient_material_k_vs_k() {
    let mut board = Board::default();
    board.set(Square::new(4, 0), Some(Piece::new(PieceKind::King, Color::White)));
    board.set(Square::new(4, 7), Some(Piece::new(PieceKind::King, Color::Black)));
    assert!(is_insufficient_material(&board));
}

#[test]
fn test_insufficient_material_kb_vs_k() {
    let mut board = Board::default();
    board.set(Square::new(4, 0), Some(Piece::new(PieceKind::King, Color::White)));
    board.set(Square::new(2, 2), Some(Piece::new(PieceKind::Bishop, Color::White)));
    board.set(Square::new(4, 7), Some(Piece::new(PieceKind::King, Color::Black)));
    assert!(is_insufficient_material(&board));
}

#[test]
fn test_not_insufficient_with_rook() {
    let mut board = Board::default();
    board.set(Square::new(4, 0), Some(Piece::new(PieceKind::King, Color::White)));
    board.set(Square::new(0, 0), Some(Piece::new(PieceKind::Rook, Color::White)));
    board.set(Square::new(4, 7), Some(Piece::new(PieceKind::King, Color::Black)));
    assert!(!is_insufficient_material(&board));
}

#[test]
fn test_en_passant_move_generated() {
    let mut board = Board::default();
    board.set(Square::new(4, 0), Some(Piece::new(PieceKind::King, Color::White)));
    board.set(Square::new(4, 7), Some(Piece::new(PieceKind::King, Color::Black)));
    board.set(Square::new(4, 4), Some(Piece::new(PieceKind::Pawn, Color::White)));
    board.set(Square::new(3, 4), Some(Piece::new(PieceKind::Pawn, Color::Black)));

    let castling = CastlingRights {
        white: SideCastlingRights { kingside: false, queenside: false },
        black: SideCastlingRights { kingside: false, queenside: false },
    };
    let ep = Some(Square::new(3, 5)); // d6
    let moves = generate_legal_moves(&board, Color::White, &castling, ep);

    let ep_moves: Vec<_> = moves.iter().filter(|m| m.is_en_passant).collect();
    assert_eq!(ep_moves.len(), 1, "Should have exactly one en passant move");
    assert_eq!(ep_moves[0].from, Square::new(4, 4)); // e5
    assert_eq!(ep_moves[0].to, Square::new(3, 5)); // d6
}

#[test]
fn test_castling_available_in_clear_position() {
    let mut board = Board::default();
    board.set(Square::new(4, 0), Some(Piece::new(PieceKind::King, Color::White)));
    board.set(Square::new(7, 0), Some(Piece::new(PieceKind::Rook, Color::White)));
    board.set(Square::new(0, 0), Some(Piece::new(PieceKind::Rook, Color::White)));
    board.set(Square::new(4, 7), Some(Piece::new(PieceKind::King, Color::Black)));

    let castling = CastlingRights {
        white: SideCastlingRights { kingside: true, queenside: true },
        black: SideCastlingRights { kingside: false, queenside: false },
    };

    let moves = generate_legal_moves(&board, Color::White, &castling, None);
    let castling_moves: Vec<_> = moves.iter().filter(|m| m.is_castling).collect();
    assert_eq!(castling_moves.len(), 2, "Should have both kingside and queenside castling");
}

#[test]
fn starting_position_has_20_moves_for_black() {
    let board = Board::starting_position();
    let castling = CastlingRights::default();
    let moves = generate_legal_moves(&board, Color::Black, &castling, None);
    assert_eq!(moves.len(), 20);
    let mut distinct: Vec<ChessMove> = Vec::new();
    for m in moves.iter() {
        if !distinct.contains(m) {
            distinct.push(*m);
        }
    }
    assert_eq!(distinct.len(), 20);
}
