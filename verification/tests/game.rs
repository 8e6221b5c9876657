use checkai::game::{ActionError, Game};
use checkai::ident::GameId;
use checkai::movegen::is_in_check;
use checkai::types::{
    ActionJson, Board, CastlingRights, Color, ErrorKind, GameEndReason, GameResult, MoveError,
    MoveJson, Piece, PieceKind, SideCastlingRights, Square,
};

fn mv(from: &str, to: &str) -> MoveJson {
    MoveJson { from: from.into(), to: to.into(), promotion: None }
}

fn promo(from: &str, to: &str, p: &str) -> MoveJson {
    MoveJson { from: from.into(), to: to.into(), promotion: Some(p.into()) }
}

fn action(name: &str, reason: Option<&str>) -> ActionJson {
    ActionJson { action: name.into(), reason: reason.map(|r| r.to_string()) }
}

fn play(game: &mut Game, moves: &[(&str, &str)]) {
    for (from, to) in moves {
        game.make_move(&mv(from, to)).unwrap();
    }
}

fn no_rights() -> CastlingRights {
    CastlingRights {
        white: SideCastlingRights { kingside: false, queenside: false },
        black: SideCastlingRights { kingside: false, queenside: false },
    }
}

fn custom_game(pieces: &[(u8, u8, PieceKind, Color)], turn: Color, castling: CastlingRights) -> Game {
    let mut board = Board::default();
    for (file, rank, kind, color) in pieces {
        board.set(Square::new(*file, *rank), Some(Piece::new(*kind, *color)));
    }
    let mut game = Game::new_with_id_and_timestamps(GameId { value: 7 }, 1000, 0);
    game.board = board;
    game.turn = turn;
    game.castling = castling;
    game.position_history = vec![game.board.to_position_fen(turn, &castling, None)];
    game
}

#[test]
fn new_game_starts_in_the_starting_position() {
    let game = Game::new();
    assert_eq!(game.board, Board::starting_position());
    assert_eq!(game.turn, Color::White);
    assert_eq!(game.castling, CastlingRights::default());
    assert_eq!(game.en_passant, None);
    assert_eq!(game.halfmove_clock, 0);
    assert_eq!(game.fullmove_number, 1);
    assert_eq!(
        game.position_history,
        vec!["rnbqkbnr/pppppppp/8/8/8/8/PPPPPPPP/RNBQKBNR w KQkq -".to_string()]
    );
    assert!(game.move_history.is_empty());
    assert!(!game.is_over());
    assert_eq!(game.end_timestamp, 0);
    assert_eq!(game.legal_moves().len(), 20);
}

#[test]
fn fools_mate_is_checkmate_for_black() {
    let mut game = Game::new();
    play(&mut game, &[("f2", "f3"), ("e7", "e5"), ("g2", "g4"), ("d8", "h4")]);
    assert_eq!(game.result, Some(GameResult::BlackWins));
    assert_eq!(game.end_reason, Some(GameEndReason::Checkmate));
    assert!(game.is_over());
    assert!(is_in_check(&game.board, Color::White));
    assert_eq!(game.halfmove_clock, 1);
    assert_eq!(game.turn, Color::White);
    assert!(game.legal_moves().is_empty());
    assert_eq!(game.make_move(&mv("a2", "a3")), Err(MoveError::GameOver));
    assert_eq!(game.process_action(&action("resign", None)), Err(ActionError::GameOver));
}

#[test]
fn histories_stay_in_step() {
    let mut game = Game::new();
    assert_eq!(game.position_history.len(), game.move_history.len() + 1);
    play(&mut game, &[("e2", "e4"), ("e7", "e5"), ("g1", "f3")]);
    assert_eq!(game.move_history.len(), 3);
    assert_eq!(game.position_history.len(), 4);
    assert_eq!(game.move_history[0].move_number, 1);
    assert_eq!(game.move_history[0].side, Color::White);
    assert_eq!(game.move_history[0].notation, "e2e4");
    assert_eq!(game.move_history[1].move_number, 1);
    assert_eq!(game.move_history[1].side, Color::Black);
    assert_eq!(game.move_history[2].move_number, 2);
    assert_eq!(game.fullmove_number, 2);
    assert_eq!(
        game.position_history[1],
        "rnbqkbnr/pppppppp/8/8/4P3/8/PPPP1PPP/RNBQKBNR b KQkq e3"
    );
    assert_eq!(
        game.position_history[3],
        "rnbqkbnr/pppp1ppp/8/4p3/4P3/5N2/PPPP1PPP/RNBQKB1R b KQkq -"
    );
}

#[test]
fn insufficient_material_after_the_last_capture() {
    let mut game = custom_game(
        &[
            (4, 3, PieceKind::King, Color::White),
            (6, 0, PieceKind::Knight, Color::White),
            (0, 7, PieceKind::King, Color::Black),
            (4, 4, PieceKind::Pawn, Color::Black),
        ],
        Color::White,
        no_rights(),
    );
    game.make_move(&mv("e4", "e5")).unwrap();
    assert_eq!(game.result, Some(GameResult::Draw));
    assert_eq!(game.end_reason, Some(GameEndReason::InsufficientMaterial));
    assert_eq!(game.halfmove_clock, 0);
}

#[test]
fn kingside_castling_moves_king_and_rook() {
    let mut game = custom_game(
        &[
            (4, 0, PieceKind::King, Color::White),
            (7, 0, PieceKind::Rook, Color::White),
            (0, 0, PieceKind::Rook, Color::White),
            (4, 7, PieceKind::King, Color::Black),
            (0, 6, PieceKind::Pawn, Color::Black),
        ],
        Color::White,
        CastlingRights {
            white: SideCastlingRights { kingside: true, queenside: true },
            black: SideCastlingRights { kingside: false, queenside: false },
        },
    );
    game.make_move(&mv("e1", "g1")).unwrap();
    assert_eq!(game.board.get(Square::new(6, 0)), Some(Piece::new(PieceKind::King, Color::White)));
    assert_eq!(game.board.get(Square::new(5, 0)), Some(Piece::new(PieceKind::Rook, Color::White)));
    assert_eq!(game.board.get(Square::new(4, 0)), None);
    assert_eq!(game.board.get(Square::new(7, 0)), None);
    assert!(!game.castling.white.kingside);
    assert!(!game.castling.white.queenside);
    assert_eq!(game.move_history[0].notation, "e1g1");
}

#[test]
fn queenside_castling_moves_king_and_rook() {
    let mut game = custom_game(
        &[
            (4, 7, PieceKind::King, Color::Black),
            (0, 7, PieceKind::Rook, Color::Black),
            (4, 0, PieceKind::King, Color::White),
            (0, 1, PieceKind::Pawn, Color::White),
        ],
        Color::Black,
        CastlingRights {
            white: SideCastlingRights { kingside: false, queenside: false },
            black: SideCastlingRights { kingside: true, queenside: true },
        },
    );
    game.make_move(&mv("e8", "c8")).unwrap();
    assert_eq!(game.board.get(Square::new(2, 7)), Some(Piece::new(PieceKind::King, Color::Black)));
    assert_eq!(game.board.get(Square::new(3, 7)), Some(Piece::new(PieceKind::Rook, Color::Black)));
    assert_eq!(game.board.get(Square::new(0, 7)), None);
    assert!(!game.castling.black.kingside);
    assert!(!game.castling.black.queenside);
    assert_eq!(game.fullmove_number, 2);
}

#[test]
fn castling_through_check_is_forbidden() {
    let mut game = custom_game(
        &[
            (4, 0, PieceKind::King, Color::White),
            (7, 0, PieceKind::Rook, Color::White),
            (0, 0, PieceKind::Rook, Color::White),
            (4, 7, PieceKind::King, Color::Black),
            (5, 7, PieceKind::Rook, Color::Black),
        ],
        Color::White,
        CastlingRights {
            white: SideCastlingRights { kingside: true, queenside: true },
            black: SideCastlingRights { kingside: false, queenside: false },
        },
    );
    let castles: Vec<_> = game.legal_moves().into_iter().filter(|m| m.is_castling).collect();
    assert_eq!(castles.len(), 1);
    assert_eq!(castles[0].to, Square::new(2, 0));
    match game.make_move(&mv("e1", "g1")) {
        Err(MoveError::Illegal { piece, available }) => {
            assert_eq!(piece, Piece { kind: PieceKind::King, color: Color::White });
            assert!(available.iter().all(|m| m.from == Square::new(4, 0)));
            assert!(available.iter().any(|m| m.to == Square::new(2, 0)));
            assert!(!available.iter().any(|m| m.to == Square::new(6, 0)));
        }
        other => panic!("unexpected {:?}", other),
    }
    assert!(game.move_history.is_empty());
}

#[test]
fn rook_moves_and_captures_end_castling_rights() {
    let mut game = custom_game(
        &[
            (4, 0, PieceKind::King, Color::White),
            (7, 0, PieceKind::Rook, Color::White),
            (0, 0, PieceKind::Rook, Color::White),
            (4, 7, PieceKind::King, Color::Black),
            (0, 7, PieceKind::Rook, Color::Black),
            (7, 7, PieceKind::Rook, Color::Black),
        ],
        Color::White,
        CastlingRights::default(),
    );
    game.make_move(&mv("h1", "h7")).unwrap();
    assert!(!game.castling.white.kingside);
    assert!(game.castling.white.queenside);
    assert!(game.castling.black.kingside);
    game.make_move(&mv("a8", "a1")).unwrap();
    assert!(!game.castling.white.queenside);
    assert!(!game.castling.black.queenside);
    assert!(game.castling.black.kingside);
    assert_eq!(game.halfmove_clock, 0);
}

#[test]
fn en_passant_capture_removes_the_pawn() {
    let mut game = Game::new();
    play(&mut game, &[("e2", "e4"), ("a7", "a6"), ("e4", "e5"), ("d7", "d5")]);
    assert_eq!(game.en_passant, Some(Square::new(3, 5)));
    game.make_move(&mv("e5", "d6")).unwrap();
    assert_eq!(game.board.get(Square::new(3, 5)), Some(Piece::new(PieceKind::Pawn, Color::White)));
    assert_eq!(game.board.get(Square::new(3, 4)), None);
    assert_eq!(game.board.get(Square::new(4, 4)), None);
    assert_eq!(game.en_passant, None);
    assert_eq!(game.halfmove_clock, 0);
}

#[test]
fn en_passant_target_is_cleared_on_the_next_half_move() {
    let mut game = Game::new();
    game.make_move(&mv("e2", "e4")).unwrap();
    assert_eq!(game.en_passant, Some(Square::new(4, 2)));
    game.make_move(&mv("g8", "f6")).unwrap();
    assert_eq!(game.en_passant, None);
    assert_eq!(game.halfmove_clock, 1);
    game.make_move(&mv("d2", "d3")).unwrap();
    assert_eq!(game.en_passant, None);
    assert_eq!(game.halfmove_clock, 0);
}

#[test]
fn threefold_repetition_can_be_claimed() {
    let mut game = Game::new();
    let shuffle = [("g1", "f3"), ("g8", "f6"), ("f3", "g1"), ("f6", "g8")];
    play(&mut game, &shuffle);
    assert_eq!(
        game.process_action(&action("claim_draw", Some("threefold_repetition"))),
        Err(ActionError::NoThreefoldRepetition)
    );
    play(&mut game, &shuffle);
    assert!(!game.is_over());
    assert_eq!(game.count_position_repetitions(), 3);
    game.process_action(&action("claim_draw", Some("threefold_repetition"))).unwrap();
    assert_eq!(game.result, Some(GameResult::Draw));
    assert_eq!(game.end_reason, Some(GameEndReason::ThreefoldRepetition));
}

#[test]
fn without_a_claim_the_game_goes_on_until_the_fifth_repetition() {
    let mut game = Game::new();
    let shuffle = [("g1", "f3"), ("g8", "f6"), ("f3", "g1"), ("f6", "g8")];
    play(&mut game, &shuffle);
    play(&mut game, &shuffle);
    play(&mut game, &shuffle);
    assert!(!game.is_over());
    assert_eq!(game.count_position_repetitions(), 4);
    play(&mut game, &shuffle);
    assert_eq!(game.result, Some(GameResult::Draw));
    assert_eq!(game.end_reason, Some(GameEndReason::FivefoldRepetition));
    assert_eq!(game.move_history.len(), 16);
}

#[test]
fn fifty_move_claim_needs_a_clock_of_100() {
    let mut game = Game::new();
    game.halfmove_clock = 99;
    assert_eq!(
        game.process_action(&action("claim_draw", Some("fifty_move_rule"))),
        Err(ActionError::NoFiftyMoves { clock: 99 })
    );
    assert!(!game.is_over());
    game.halfmove_clock = 100;
    game.process_action(&action("claim_draw", Some("fifty_move_rule"))).unwrap();
    assert_eq!(game.result, Some(GameResult::Draw));
    assert_eq!(game.end_reason, Some(GameEndReason::FiftyMoveRule));
}

#[test]
fn seventy_five_move_rule_ends_the_game_at_150() {
    let mut game = Game::new();
    game.halfmove_clock = 148;
    game.make_move(&mv("g1", "f3")).unwrap();
    assert_eq!(game.halfmove_clock, 149);
    assert!(!game.is_over());
    game.make_move(&mv("g8", "f6")).unwrap();
    assert_eq!(game.halfmove_clock, 150);
    assert_eq!(game.result, Some(GameResult::Draw));
    assert_eq!(game.end_reason, Some(GameEndReason::SeventyFiveMoveRule));
}

#[test]
fn stalemate_is_a_draw() {
    let mut game = custom_game(
        &[
            (5, 6, PieceKind::King, Color::White),
            (6, 4, PieceKind::Queen, Color::White),
            (7, 7, PieceKind::King, Color::Black),
            (0, 1, PieceKind::Pawn, Color::White),
        ],
        Color::White,
        no_rights(),
    );
    game.make_move(&mv("g5", "g6")).unwrap();
    assert_eq!(game.result, Some(GameResult::Draw));
    assert_eq!(game.end_reason, Some(GameEndReason::Stalemate));
    assert!(!is_in_check(&game.board, Color::Black));
}

#[test]
fn promotion_has_exactly_four_completions() {
    let mut game = custom_game(
        &[
            (4, 0, PieceKind::King, Color::White),
            (0, 6, PieceKind::Pawn, Color::White),
            (4, 7, PieceKind::King, Color::Black),
            (7, 6, PieceKind::Pawn, Color::Black),
        ],
        Color::White,
        no_rights(),
    );
    let promotions: Vec<_> =
        game.legal_moves().into_iter().filter(|m| m.from == Square::new(0, 6)).collect();
    assert_eq!(promotions.len(), 4);
    assert_eq!(
        promotions.iter().map(|m| m.promotion).collect::<Vec<_>>(),
        vec![
            Some(PieceKind::Queen),
            Some(PieceKind::Rook),
            Some(PieceKind::Bishop),
            Some(PieceKind::Knight)
        ]
    );
    assert!(matches!(game.make_move(&mv("a7", "a8")), Err(MoveError::Illegal { .. })));
    game.make_move(&promo("a7", "a8", "N")).unwrap();
    assert_eq!(
        game.board.get(Square::new(0, 7)),
        Some(Piece::new(PieceKind::Knight, Color::White))
    );
    assert_eq!(game.move_history[0].notation, "a7a8=N");
    assert_eq!(game.halfmove_clock, 0);
}

#[test]
fn every_move_error_has_its_input() {
    let mut game = Game::new();
    assert_eq!(game.make_move(&mv("z9", "e4")), Err(MoveError::InvalidFrom));
    assert_eq!(game.make_move(&mv("e2", "e9")), Err(MoveError::InvalidTo));
    assert_eq!(game.make_move(&promo("e2", "e4", "K")), Err(MoveError::InvalidPromotion));
    assert_eq!(game.make_move(&mv("e4", "e5")), Err(MoveError::NoPiece));
    assert_eq!(
        game.make_move(&mv("e7", "e5")),
        Err(MoveError::WrongColor { turn: Color::White })
    );
    assert_eq!(
        MoveError::WrongColor { turn: Color::White }.message(&mv("e7", "e5")),
        "Piece on e7 belongs to Black, but it is White's turn"
    );
    assert_eq!(
        MoveError::WrongColor { turn: Color::Black }.message(&mv("e2", "e4")),
        "Piece on e2 belongs to White, but it is Black's turn"
    );
    match game.make_move(&mv("e2", "e5")) {
        Err(e) => {
            assert_eq!(e.kind(), ErrorKind::IllegalMove);
            assert_eq!(
                e.message(&mv("e2", "e5")),
                "Illegal move: e2e5 is not legal. Legal moves from e2: e2e3, e2e4"
            );
        }
        Ok(()) => panic!("e2e5 was accepted"),
    }
    match game.make_move(&mv("a1", "a3")) {
        Err(e) => {
            assert_eq!(e.message(&mv("a1", "a3")), "Illegal move: a1 (R) has no legal moves");
            assert_eq!(
                e,
                MoveError::Illegal {
                    piece: Piece { kind: PieceKind::Rook, color: Color::White },
                    available: vec![],
                }
            );
        }
        Ok(()) => panic!("a1a3 was accepted"),
    }
    assert_eq!(MoveError::InvalidFrom.kind(), ErrorKind::BadRequest);
    assert_eq!(MoveError::InvalidFrom.message(&mv("z9", "e4")), "Invalid from square: z9");
    assert_eq!(MoveError::GameOver.kind(), ErrorKind::IllegalAction);
    assert!(game.move_history.is_empty());
    assert_eq!(game.board, Board::starting_position());
}

#[test]
fn actions_resign_offer_accept() {
    let mut game = Game::new();
    assert_eq!(game.process_action(&action("accept_draw", None)), Err(ActionError::NoDrawOffer));
    game.process_action(&action("offer_draw", None)).unwrap();
    assert_eq!(game.draw_offered_by, Some(Color::White));
    assert!(!game.is_over());
    assert_eq!(game.process_action(&action("accept_draw", None)), Err(ActionError::NoDrawOffer));
    game.make_move(&mv("e2", "e4")).unwrap();
    assert_eq!(game.draw_offered_by, None);
    game.draw_offered_by = Some(Color::White);
    game.process_action(&action("accept_draw", None)).unwrap();
    assert_eq!(game.result, Some(GameResult::Draw));
    assert_eq!(game.end_reason, Some(GameEndReason::DrawAgreement));

    let mut game = Game::new();
    game.make_move(&mv("e2", "e4")).unwrap();
    game.process_action(&action("resign", None)).unwrap();
    assert_eq!(game.result, Some(GameResult::WhiteWins));
    assert_eq!(game.end_reason, Some(GameEndReason::Resignation));

    let mut game = Game::new();
    assert_eq!(
        game.process_action(&action("claim_draw", None)),
        Err(ActionError::InvalidDrawReason)
    );
    assert_eq!(
        game.process_action(&action("claim_draw", Some("boredom"))),
        Err(ActionError::InvalidDrawReason)
    );
    assert_eq!(game.process_action(&action("dance", None)), Err(ActionError::UnknownAction));
    assert_eq!(ActionError::UnknownAction.kind(), ErrorKind::IllegalAction);
    assert!(!game.is_over());
}

#[test]
fn end_time_is_set_when_the_game_ends() {
    let mut game = Game::new_with_id_and_timestamps(GameId { value: 1 }, 10, 0);
    game.process_action_at(&action("resign", None), 77).unwrap();
    assert_eq!(game.end_timestamp, 77);
    assert_eq!(game.result, Some(GameResult::BlackWins));

    let mut game = Game::new_with_id_and_timestamps(GameId { value: 1 }, 10, 0);
    for (from, to) in [("f2", "f3"), ("e7", "e5"), ("g2", "g4")] {
        game.make_move_at(&mv(from, to), 50).unwrap();
        assert_eq!(game.end_timestamp, 0);
    }
    game.make_move_at(&mv("d8", "h4"), 99).unwrap();
    assert_eq!(game.end_timestamp, 99);
}

#[test]
fn state_for_agents_lists_the_board() {
    let mut game = Game::new();
    game.make_move(&mv("e2", "e4")).unwrap();
    let state = game.to_game_state_json();
    assert_eq!(state.board.len(), 32);
    assert_eq!(state.board[0], ("a1".to_string(), "R".to_string()));
    assert!(state.board.contains(&("e4".to_string(), "P".to_string())));
    assert!(state.board.contains(&("e8".to_string(), "k".to_string())));
    assert_eq!(state.turn, Color::Black);
    assert_eq!(state.en_passant, Some("e3".to_string()));
    assert_eq!(state.halfmove_clock, 0);
    assert_eq!(state.fullmove_number, 1);
    assert_eq!(state.position_history, game.position_history);
    assert_eq!(Board::from_map(&state.board), Ok(game.board));
}

#[test]
fn queenside_castling_needs_an_empty_but_not_a_safe_b_file() {
    let rights = CastlingRights {
        white: SideCastlingRights { kingside: false, queenside: true },
        black: SideCastlingRights { kingside: false, queenside: false },
    };
    // a black rook attacks b1: castling is still allowed
    let mut game = custom_game(
        &[
            (4, 0, PieceKind::King, Color::White),
            (0, 0, PieceKind::Rook, Color::White),
            (4, 7, PieceKind::King, Color::Black),
            (1, 7, PieceKind::Rook, Color::Black),
        ],
        Color::White,
        rights,
    );
    game.make_move(&mv("e1", "c1")).unwrap();
    assert_eq!(game.board.get(Square::new(2, 0)), Some(Piece::new(PieceKind::King, Color::White)));
    assert_eq!(game.board.get(Square::new(3, 0)), Some(Piece::new(PieceKind::Rook, Color::White)));

    // a knight stands on b1: castling is not allowed
    let mut game = custom_game(
        &[
            (4, 0, PieceKind::King, Color::White),
            (0, 0, PieceKind::Rook, Color::White),
            (1, 0, PieceKind::Knight, Color::White),
            (4, 7, PieceKind::King, Color::Black),
        ],
        Color::White,
        rights,
    );
    assert!(matches!(game.make_move(&mv("e1", "c1")), Err(MoveError::Illegal { .. })));

    // a black rook attacks d1: castling is not allowed
    let mut game = custom_game(
        &[
            (4, 0, PieceKind::King, Color::White),
            (0, 0, PieceKind::Rook, Color::White),
            (4, 7, PieceKind::King, Color::Black),
            (3, 7, PieceKind::Rook, Color::Black),
        ],
        Color::White,
        rights,
    );
    assert!(matches!(game.make_move(&mv("e1", "c1")), Err(MoveError::Illegal { .. })));

    // the king is in check: castling is not allowed
    let mut game = custom_game(
        &[
            (4, 0, PieceKind::King, Color::White),
            (0, 0, PieceKind::Rook, Color::White),
            (0, 7, PieceKind::King, Color::Black),
            (4, 7, PieceKind::Rook, Color::Black),
        ],
        Color::White,
        rights,
    );
    assert!(matches!(game.make_move(&mv("e1", "c1")), Err(MoveError::Illegal { .. })));
}

#[test]
fn legal_moves_are_distinct_and_leave_the_king_safe() {
    let mut game = Game::new();
    play(
        &mut game,
        &[("e2", "e4"), ("d7", "d5"), ("e4", "d5"), ("d8", "d5"), ("b1", "c3"), ("d5", "e5")],
    );
    assert!(is_in_check(&game.board, Color::White));
    let moves = game.legal_moves();
    for (i, a) in moves.iter().enumerate() {
        for b in moves.iter().skip(i + 1) {
            assert_ne!(a, b);
        }
        let mut board = game.board;
        checkai::movegen::apply_move_to_board(&mut board, a, Color::White);
        assert!(!is_in_check(&board, Color::White));
    }
    assert_eq!(moves.len(), 5);
}

#[test]
fn action_errors_have_messages() {
    let resign = action("resign", None);
    assert_eq!(ActionError::GameOver.message(&resign), "Game is already over");
    assert_eq!(
        ActionError::NoDrawOffer.message(&action("accept_draw", None)),
        "No draw offer from the opponent to accept"
    );
    assert_eq!(
        ActionError::NoThreefoldRepetition
            .message(&action("claim_draw", Some("threefold_repetition"))),
        "The position has not occurred three times"
    );
    assert_eq!(
        ActionError::NoFiftyMoves { clock: 37 }
            .message(&action("claim_draw", Some("fifty_move_rule"))),
        "The half-move clock is at 37, below 100"
    );
    assert_eq!(
        ActionError::InvalidDrawReason.message(&action("claim_draw", Some("boredom"))),
        "Invalid draw reason: 'boredom'"
    );
    assert_eq!(
        ActionError::InvalidDrawReason.message(&action("claim_draw", None)),
        "Invalid draw reason: ''"
    );
    assert_eq!(
        ActionError::UnknownAction.message(&action("dance", None)),
        "Unknown action: 'dance'"
    );

    let mut game = Game::new();
    let claim = action("claim_draw", Some("fifty_move_rule"));
    let error = game.process_action(&claim).unwrap_err();
    assert_eq!(error, ActionError::NoFiftyMoves { clock: 0 });
    assert_eq!(error.message(&claim), "The half-move clock is at 0, below 100");
}

#[test]
fn new_games_have_random_identifiers() {
    let game = Game::new();
    assert_eq!((game.id.value >> 76) & 0xf, 4);
    assert_eq!((game.id.value >> 62) & 0x3, 2);
}

#[test]
fn king_move_with_king_and_knight_is_a_draw() {
    let mut game = custom_game(
        &[
            (4, 3, PieceKind::King, Color::White),
            (6, 0, PieceKind::Knight, Color::White),
            (0, 7, PieceKind::King, Color::Black),
        ],
        Color::White,
        no_rights(),
    );
    assert!(!game.is_over());
    game.make_move(&mv("e4", "e5")).unwrap();
    assert!(game.is_over());
    assert_eq!(game.result, Some(GameResult::Draw));
    assert_eq!(game.end_reason, Some(GameEndReason::InsufficientMaterial));
    assert_eq!(game.halfmove_clock, 1);

    // the king takes the last piece of the other side
    let mut game = custom_game(
        &[
            (4, 3, PieceKind::King, Color::White),
            (4, 4, PieceKind::Knight, Color::Black),
            (0, 7, PieceKind::King, Color::Black),
        ],
        Color::White,
        no_rights(),
    );
    game.make_move(&mv("e4", "e5")).unwrap();
    assert_eq!(game.result, Some(GameResult::Draw));
    assert_eq!(game.end_reason, Some(GameEndReason::InsufficientMaterial));
    assert_eq!(game.halfmove_clock, 0);
}
