use checkai::api::{
    board_to_ascii, GameInfoResponse, GameListResponse, GameSummary, LegalMovesResponse,
    MoveResponse, ReplayQuery, ReplayResponse, SubmitActionRequest, SubmitMoveRequest,
};
use checkai::game::Game;
use checkai::ident::GameId;
use checkai::movegen::{
    apply_move_to_board, find_matching_legal_move, generate_legal_moves,
    generate_pseudo_legal_moves, is_square_attacked,
};
use checkai::storage::{deserialize_game, serialize_game};
use checkai::types::{
    Board, BoardMapError, CastlingRights, ChessMove, Color, GameEndReason, GameResult, MoveError,
    MoveJson, Piece, PieceKind, SideCastlingRights, Square,
};

fn board_with(pieces: &[(u8, u8, PieceKind, Color)]) -> Board {
    let mut board = Board::default();
    for (file, rank, kind, color) in pieces {
        board.set(Square::new(*file, *rank), Some(Piece::new(*kind, *color)));
    }
    board
}

fn no_rights() -> CastlingRights {
    CastlingRights {
        white: SideCastlingRights { kingside: false, queenside: false },
        black: SideCastlingRights { kingside: false, queenside: false },
    }
}

#[test]
fn colors_and_pieces() {
    assert_eq!(Color::White.opponent(), Color::Black);
    assert_eq!(Color::Black.opponent(), Color::White);
    assert_eq!(Color::White.pawn_start_rank(), 1);
    assert_eq!(Color::Black.pawn_start_rank(), 6);
    assert_eq!(Color::White.promotion_rank(), 7);
    assert_eq!(Color::Black.promotion_rank(), 0);
    assert_eq!(Color::White.pawn_direction(), 1);
    assert_eq!(Color::Black.pawn_direction(), -1);
    assert_eq!(Color::White.to_string(), "white");
    assert_eq!(Color::Black.to_string(), "black");
    for kind in [
        PieceKind::King,
        PieceKind::Queen,
        PieceKind::Rook,
        PieceKind::Bishop,
        PieceKind::Knight,
        PieceKind::Pawn,
    ] {
        for color in [Color::White, Color::Black] {
            let piece = Piece::new(kind, color);
            assert_eq!(Piece::from_fen_char(piece.to_fen_char()), Some(piece));
        }
    }
    assert_eq!(Piece::new(PieceKind::Knight, Color::White).to_fen_char(), 'N');
    assert_eq!(Piece::new(PieceKind::Knight, Color::Black).to_fen_char(), 'n');
    assert_eq!(Piece::from_fen_char('x'), None);
    assert_eq!(Piece::from_fen_char('1'), None);
    assert_eq!(GameResult::WhiteWins.to_string(), "1-0 (White wins)");
    assert_eq!(GameResult::Draw.to_string(), "1/2-1/2 (Draw)");
    assert_eq!(GameEndReason::FiftyMoveRule.to_string(), "50-move rule");
    assert_eq!(GameEndReason::DrawAgreement.to_string(), "Draw by agreement");
}

#[test]
fn squares() {
    assert_eq!(Square::from_algebraic("e4"), Some(Square::new(4, 3)));
    assert_eq!(Square::from_algebraic("a1"), Some(Square::new(0, 0)));
    assert_eq!(Square::from_algebraic("h8"), Some(Square::new(7, 7)));
    for bad in ["", "e", "e44", "i1", "a9", "a0", "E4", "4e", "é1"] {
        assert_eq!(Square::from_algebraic(bad), None, "{}", bad);
    }
    for file in 0..8 {
        for rank in 0..8 {
            let sq = Square::new(file, rank);
            assert_eq!(Square::from_algebraic(&sq.to_algebraic()), Some(sq));
            assert_eq!(sq.index(), rank as usize * 8 + file as usize);
        }
    }
    assert_eq!(Square::new(4, 3).to_algebraic(), "e4");
    assert_eq!(Square::new(0, 0).offset(-1, 0), None);
    assert_eq!(Square::new(0, 0).offset(0, -1), None);
    assert_eq!(Square::new(7, 7).offset(1, 0), None);
    assert_eq!(Square::new(7, 7).offset(0, 1), None);
    assert_eq!(Square::new(3, 3).offset(-2, 1), Some(Square::new(1, 4)));
    assert_eq!(Square::new(3, 3).offset(127, 127), None);
    assert_eq!(Square::new(3, 3).offset(-128, 0), None);
}

#[test]
fn castling_rights() {
    let mut rights = CastlingRights::default();
    assert_eq!(rights.to_fen(), "KQkq");
    assert_eq!(*rights.for_color(Color::White), SideCastlingRights::default());
    rights.for_color_mut(Color::White).kingside = false;
    assert_eq!(rights.to_fen(), "Qkq");
    assert!(rights.black.kingside);
    rights.for_color_mut(Color::Black).queenside = false;
    assert_eq!(rights.to_fen(), "Qk");
    assert_eq!(no_rights().to_fen(), "-");
}

#[test]
fn boards() {
    let start = Board::starting_position();
    assert_eq!(start.get(Square::new(4, 0)), Some(Piece::new(PieceKind::King, Color::White)));
    assert_eq!(start.get(Square::new(3, 7)), Some(Piece::new(PieceKind::Queen, Color::Black)));
    assert_eq!(start.get(Square::new(0, 1)), Some(Piece::new(PieceKind::Pawn, Color::White)));
    assert_eq!(start.get(Square::new(4, 4)), None);
    assert_eq!(start.find_king(Color::White), Some(Square::new(4, 0)));
    assert_eq!(start.find_king(Color::Black), Some(Square::new(4, 7)));
    assert_eq!(Board::default().find_king(Color::White), None);
    assert_eq!(
        start.to_position_fen(Color::White, &CastlingRights::default(), None),
        "rnbqkbnr/pppppppp/8/8/8/8/PPPPPPPP/RNBQKBNR w KQkq -"
    );
    assert_eq!(
        Board::default().to_position_fen(Color::Black, &no_rights(), Some(Square::new(0, 5))),
        "8/8/8/8/8/8/8/8 b - a6"
    );
    let board = board_with(&[
        (0, 0, PieceKind::King, Color::White),
        (7, 0, PieceKind::Rook, Color::White),
        (3, 3, PieceKind::Pawn, Color::Black),
        (4, 3, PieceKind::Pawn, Color::White),
        (7, 7, PieceKind::King, Color::Black),
    ]);
    assert_eq!(
        board.to_position_fen(Color::White, &no_rights(), None),
        "7k/8/8/8/3pP3/8/8/K6R w - -"
    );
    let map = board.to_map();
    assert_eq!(
        map,
        vec![
            ("a1".to_string(), "K".to_string()),
            ("h1".to_string(), "R".to_string()),
            ("d4".to_string(), "p".to_string()),
            ("e4".to_string(), "P".to_string()),
            ("h8".to_string(), "k".to_string()),
        ]
    );
    assert_eq!(Board::from_map(&map), Ok(board));
    assert_eq!(
        Board::from_map(&vec![("a1".into(), "K".into()), ("j1".into(), "K".into())]),
        Err(BoardMapError::InvalidSquare { index: 1 })
    );
    assert_eq!(
        Board::from_map(&vec![("a1".into(), "".into())]),
        Err(BoardMapError::EmptyPiece { index: 0 })
    );
    assert_eq!(
        Board::from_map(&vec![("a1".into(), "x".into())]),
        Err(BoardMapError::InvalidPiece { index: 0 })
    );
    assert_eq!(
        Board::from_map(&vec![("a1".into(), "Kq".into()), ("a1".into(), "q".into())]),
        Ok(board_with(&[(0, 0, PieceKind::Queen, Color::Black)]))
    );
}

#[test]
fn chess_moves() {
    let m = ChessMove::simple(Square::new(4, 1), Square::new(4, 3));
    assert_eq!(m.promotion, None);
    assert!(!m.is_castling && !m.is_en_passant);
    assert_eq!(m.to_string(), "e2e4");
    let json = m.to_json();
    assert_eq!(json, MoveJson { from: "e2".into(), to: "e4".into(), promotion: None });
    assert_eq!(ChessMove::from_json(&json), Ok(m));
    let p = ChessMove {
        from: Square::new(0, 6),
        to: Square::new(0, 7),
        promotion: Some(PieceKind::Rook),
        is_castling: false,
        is_en_passant: false,
    };
    assert_eq!(p.to_string(), "a7a8=R");
    assert_eq!(p.to_json().promotion, Some("R".to_string()));
    assert_eq!(ChessMove::from_json(&p.to_json()), Ok(p));
    let bad = MoveJson { from: "e2".into(), to: "e4".into(), promotion: Some("QQ".into()) };
    assert_eq!(ChessMove::from_json(&bad), Err(MoveError::InvalidPromotion));
}

#[test]
fn attacks() {
    let board = board_with(&[
        (3, 3, PieceKind::Rook, Color::White),
        (3, 5, PieceKind::Pawn, Color::Black),
        (6, 6, PieceKind::Bishop, Color::Black),
        (1, 0, PieceKind::Knight, Color::White),
        (7, 0, PieceKind::King, Color::Black),
    ]);
    // the rook along its file and rank, up to the first piece
    assert!(is_square_attacked(&board, Square::new(3, 4), Color::White));
    assert!(is_square_attacked(&board, Square::new(3, 5), Color::White));
    assert!(!is_square_attacked(&board, Square::new(3, 6), Color::White));
    assert!(is_square_attacked(&board, Square::new(0, 3), Color::White));
    assert!(is_square_attacked(&board, Square::new(7, 3), Color::White));
    assert!(!is_square_attacked(&board, Square::new(4, 4), Color::White));
    // the knight
    assert!(is_square_attacked(&board, Square::new(2, 2), Color::White));
    assert!(is_square_attacked(&board, Square::new(0, 2), Color::White));
    assert!(!is_square_attacked(&board, Square::new(1, 2), Color::White));
    // the black pawn attacks downwards
    assert!(is_square_attacked(&board, Square::new(2, 4), Color::Black));
    assert!(is_square_attacked(&board, Square::new(4, 4), Color::Black));
    assert!(!is_square_attacked(&board, Square::new(2, 6), Color::Black));
    // the bishop, blocked by nothing on its long diagonal until the rook
    assert!(is_square_attacked(&board, Square::new(4, 4), Color::Black));
    assert!(is_square_attacked(&board, Square::new(3, 3), Color::Black));
    assert!(!is_square_attacked(&board, Square::new(2, 2), Color::Black));
    // the king
    assert!(is_square_attacked(&board, Square::new(6, 1), Color::Black));
    assert!(!is_square_attacked(&board, Square::new(5, 1), Color::Black));
}

#[test]
fn moves_and_the_mutator() {
    let start = Board::starting_position();
    let rights = CastlingRights::default();
    let pseudo = generate_pseudo_legal_moves(&start, Color::White, &rights, None);
    assert_eq!(pseudo.len(), 20);
    assert_eq!(pseudo[0], ChessMove::simple(Square::new(1, 0), Square::new(0, 2)));

    // a pinned knight has pseudo-legal moves but no legal ones
    let board = board_with(&[
        (4, 0, PieceKind::King, Color::White),
        (4, 1, PieceKind::Knight, Color::White),
        (4, 7, PieceKind::Rook, Color::Black),
        (0, 7, PieceKind::King, Color::Black),
    ]);
    let pseudo = generate_pseudo_legal_moves(&board, Color::White, &no_rights(), None);
    let legal = generate_legal_moves(&board, Color::White, &no_rights(), None);
    assert!(pseudo.iter().any(|m| m.from == Square::new(4, 1)));
    assert!(!legal.iter().any(|m| m.from == Square::new(4, 1)));
    assert_eq!(legal.len(), 4);

    let mut board = board_with(&[
        (4, 4, PieceKind::Pawn, Color::White),
        (3, 4, PieceKind::Pawn, Color::Black),
    ]);
    let ep = ChessMove {
        from: Square::new(4, 4),
        to: Square::new(3, 5),
        promotion: None,
        is_castling: false,
        is_en_passant: true,
    };
    apply_move_to_board(&mut board, &ep, Color::White);
    assert_eq!(board, board_with(&[(3, 5, PieceKind::Pawn, Color::White)]));

    let json = MoveJson { from: "g1".into(), to: "f3".into(), promotion: None };
    assert_eq!(
        find_matching_legal_move(&start, Color::White, &rights, None, &json),
        Ok(ChessMove::simple(Square::new(6, 0), Square::new(5, 2)))
    );
}

#[test]
fn board_diagram() {
    let text = board_to_ascii(&Board::starting_position(), Color::White);
    let expected = "  +---+---+---+---+---+---+---+---+\n\
8 | r | n | b | q | k | b | n | r |\n  +---+---+---+---+---+---+---+---+\n\
7 | p | p | p | p | p | p | p | p |\n  +---+---+---+---+---+---+---+---+\n\
6 |   |   |   |   |   |   |   |   |\n  +---+---+---+---+---+---+---+---+\n\
5 |   |   |   |   |   |   |   |   |\n  +---+---+---+---+---+---+---+---+\n\
4 |   |   |   |   |   |   |   |   |\n  +---+---+---+---+---+---+---+---+\n\
3 |   |   |   |   |   |   |   |   |\n  +---+---+---+---+---+---+---+---+\n\
2 | P | P | P | P | P | P | P | P |\n  +---+---+---+---+---+---+---+---+\n\
1 | R | N | B | Q | K | B | N | R |\n  +---+---+---+---+---+---+---+---+\n    a   b   c   d   e   f   g   h\n\n  white to move \n";
    assert_eq!(text, expected);
}

#[test]
fn answers() {
    let mut game = Game::new_with_id_and_timestamps(
        GameId { value: 0x550e8400e29b41d4a716446655440000 },
        1,
        0,
    );
    let e4 = SubmitMoveRequest { from: "e2".into(), to: "e4".into(), promotion: None };
    game.make_move(&e4.to_move_json()).unwrap();
    let summary = GameSummary::of(&game);
    assert_eq!(summary.game_id, "550e8400-e29b-41d4-a716-446655440000");
    assert_eq!(summary.turn, Color::Black);
    assert_eq!(summary.fullmove_number, 1);
    assert!(!summary.is_over);
    let list = GameListResponse::of(vec![summary.clone(), summary]);
    assert_eq!(list.total, 2);

    let info = GameInfoResponse::of(&game);
    assert_eq!(info.legal_move_count, 20);
    assert!(!info.is_check);
    assert_eq!(info.move_history, game.move_history);
    assert_eq!(info.state, game.to_game_state_json());

    let response = MoveResponse::of(&game);
    assert!(response.success);
    assert_eq!(response.message, "black to move");
    let moves = LegalMovesResponse::of(&game);
    assert_eq!(moves.count, 20);
    assert_eq!(moves.moves[0], MoveJson { from: "a7".into(), to: "a6".into(), promotion: None });

    for (from, to) in [("f7", "f6"), ("d1", "h5")] {
        game.make_move(&MoveJson { from: from.into(), to: to.into(), promotion: None }).unwrap();
    }
    assert_eq!(MoveResponse::of(&game).message, "black to move (check)");
    assert!(MoveResponse::of(&game).is_check);
    let resign = SubmitActionRequest { action: "resign".into(), reason: None };
    game.process_action(&resign.to_action_json()).unwrap();
    assert_eq!(MoveResponse::of(&game).message, "Game over: 1-0 (White wins) by Resignation");

    let archive = deserialize_game(&serialize_game(&game).unwrap()).unwrap();
    assert_eq!(ReplayQuery { move_number: None }.target(3), 3);
    assert_eq!(ReplayQuery { move_number: Some(1) }.target(3), 1);
    assert_eq!(ReplayQuery { move_number: Some(9) }.target(3), 3);
    let replayed = archive.replay(1).unwrap();
    let answer = ReplayResponse::of(&archive, &replayed, 1);
    assert_eq!(answer.at_move, 1);
    assert_eq!(answer.total_moves, 3);
    assert!(!answer.is_over);
    assert_eq!(answer.state.turn, Color::Black);
}

#[test]
fn identifiers() {
    let id = GameId::parse("550e8400-e29b-41d4-a716-446655440000").unwrap();
    assert_eq!(id.value, 0x550e8400e29b41d4a716446655440000);
    assert_eq!(id.to_string(), "550e8400-e29b-41d4-a716-446655440000");
    assert_eq!(GameId::parse("550E8400E29B41D4A716446655440000"), Some(id));
    assert_eq!(GameId::parse("not a uuid"), None);
    assert_eq!(GameId::parse(""), None);
    assert!(checkai::ident::unix_timestamp() > 1_600_000_000);
    let a = GameId::random();
    let b = GameId::random();
    assert_ne!(a, b);
    assert_eq!(GameId::parse(&a.to_string()), Some(a));
}

#[test]
fn random_identifiers_are_version_four() {
    for _ in 0..64 {
        let id = GameId::random();
        assert_eq!((id.value >> 76) & 0xf, 4);
        assert_eq!((id.value >> 62) & 0x3, 2);
        assert_eq!(
            id.value & 0x0000_0000_0000_f000_c000_0000_0000_0000,
            0x0000_0000_0000_4000_8000_0000_0000_0000
        );
        let text = id.to_string();
        assert_eq!(text.as_bytes()[14], b'4');
        assert!(matches!(text.as_bytes()[19], b'8' | b'9' | b'a' | b'b'));
    }
}
