use checkai::i18n::normalize_locale;
use checkai::game::Game;
use checkai::terminal::{claimable_draw, parse_command, parse_move_input, piece_to_unicode, Command};
use checkai::types::{ActionJson, MoveJson};
use checkai::types::{Color, Piece, PieceKind};

#[test]
fn test_parse_move_normal() {
    let m = parse_move_input("e2e4").unwrap();
    assert_eq!(m.from, "e2");
    assert_eq!(m.to, "e4");
    assert_eq!(m.promotion, None);
}

#[test]
fn test_parse_move_promotion() {
    let m = parse_move_input("e7e8q").unwrap();
    assert_eq!(m.from, "e7");
    assert_eq!(m.to, "e8");
    assert_eq!(m.promotion, Some("Q".to_string()));
}

#[test]
fn test_parse_move_with_space() {
    let m = parse_move_input("e2 e4").unwrap();
    assert_eq!(m.from, "e2");
    assert_eq!(m.to, "e4");
}

#[test]
fn test_parse_invalid() {
    assert!(parse_move_input("abc").is_none());
    assert!(parse_move_input("z9z9").is_none());
    assert!(parse_move_input("e2e4x").is_none());
}

#[test]
fn parse_move_input_trims_and_reads_every_promotion() {
    let m = parse_move_input("\t a7 a8 N \n").unwrap();
    assert_eq!(m.from, "a7");
    assert_eq!(m.to, "a8");
    assert_eq!(m.promotion, Some("N".to_string()));
    assert_eq!(parse_move_input("b7b8r").unwrap().promotion, Some("R".to_string()));
    assert_eq!(parse_move_input("b7b8B").unwrap().promotion, Some("B".to_string()));
    assert!(parse_move_input("").is_none());
    assert!(parse_move_input("   ").is_none());
    assert!(parse_move_input("e2\te4").is_none());
    assert!(parse_move_input("e2e4qq").is_none());
    assert!(parse_move_input("é2e4").is_none());
}

#[test]
fn piece_to_unicode_gives_the_letter() {
    assert_eq!(piece_to_unicode(Piece::new(PieceKind::King, Color::White)), "K");
    assert_eq!(piece_to_unicode(Piece::new(PieceKind::Knight, Color::White)), "N");
    assert_eq!(piece_to_unicode(Piece::new(PieceKind::Queen, Color::Black)), "q");
    assert_eq!(piece_to_unicode(Piece::new(PieceKind::Pawn, Color::Black)), "p");
}

#[test]
fn normalize_locale_reads_language_tags() {
    assert_eq!(normalize_locale("en-US"), Some("en".to_string()));
    assert_eq!(normalize_locale("de_DE.UTF-8"), Some("de".to_string()));
    assert_eq!(normalize_locale("zh-TW"), Some("zh-CN".to_string()));
    assert_eq!(normalize_locale("JA"), Some("ja".to_string()));
    assert_eq!(normalize_locale("fr"), Some("fr".to_string()));
    assert_eq!(normalize_locale("es_ES"), Some("es".to_string()));
    assert_eq!(normalize_locale("pt-BR"), Some("pt".to_string()));
    assert_eq!(normalize_locale("ru"), Some("ru".to_string()));
    assert_eq!(normalize_locale("it"), None);
    assert_eq!(normalize_locale("e"), None);
    assert_eq!(normalize_locale(""), None);
    assert_eq!(normalize_locale("e.n"), None);
}

#[test]
fn parse_command_reads_words_and_moves() {
    assert_eq!(parse_command(""), Command::Empty);
    assert_eq!(parse_command("  \n"), Command::Empty);
    assert_eq!(parse_command("quit"), Command::Quit);
    assert_eq!(parse_command(" EXIT \n"), Command::Quit);
    assert_eq!(parse_command("q"), Command::Quit);
    assert_eq!(parse_command("?"), Command::Help);
    assert_eq!(parse_command("Help"), Command::Help);
    assert_eq!(parse_command("b"), Command::Board);
    assert_eq!(parse_command("moves"), Command::Moves);
    assert_eq!(parse_command("r"), Command::Resign);
    assert_eq!(parse_command("draw"), Command::Draw);
    assert_eq!(parse_command("history"), Command::History);
    assert_eq!(parse_command("J"), Command::Json);
    assert_eq!(
        parse_command("E2E4\n"),
        Command::Move(MoveJson { from: "e2".into(), to: "e4".into(), promotion: None })
    );
    assert_eq!(
        parse_command("e7 e8 Q"),
        Command::Move(MoveJson { from: "e7".into(), to: "e8".into(), promotion: Some("Q".into()) })
    );
    assert_eq!(parse_command("castle"), Command::Unknown);
    assert_eq!(parse_command("hist"), Command::Unknown);
}

#[test]
fn claimable_draw_prefers_repetition() {
    let mut game = Game::new();
    assert_eq!(claimable_draw(&game), None);
    game.halfmove_clock = 100;
    assert_eq!(
        claimable_draw(&game),
        Some(ActionJson { action: "claim_draw".into(), reason: Some("fifty_move_rule".into()) })
    );
    let fen = game.position_history[0].clone();
    game.position_history = vec![fen.clone(), fen.clone(), fen];
    assert_eq!(
        claimable_draw(&game),
        Some(ActionJson {
            action: "claim_draw".into(),
            reason: Some("threefold_repetition".into())
        })
    );
}
