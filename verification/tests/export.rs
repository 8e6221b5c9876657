use checkai::export::{
    combine_exports, days_to_date, format_duration, format_game, format_json,
    format_move_notation, format_pgn, format_text, format_timestamp, wrap_pgn_text, ExportError,
    ExportFormat,
};
use checkai::game::Game;
use checkai::ident::GameId;
use checkai::storage::GameArchive;
use checkai::types::{GameEndReason, GameResult, MoveJson};

fn make_sample_game() -> GameArchive {
    let mut game = Game::new();
    let moves = vec![
        ("e2", "e4"),
        ("e7", "e5"),
        ("g1", "f3"),
        ("b8", "c6"),
        ("f1", "b5"),
        ("a7", "a6"),
    ];
    for (from, to) in moves {
        game.make_move(&MoveJson { from: from.into(), to: to.into(), promotion: None }).unwrap();
    }

    GameArchive {
        game_id: game.id,
        start_timestamp: 1740000000, // 2025-02-19 ~16:00 UTC
        end_timestamp: 1740000300,   // 5 minutes later
        result: Some(GameResult::WhiteWins),
        end_reason: Some(GameEndReason::Resignation),
        moves: game.move_history.iter().map(|r| r.move_json.clone()).collect(),
    }
}

#[test]
fn test_format_pgn_valid() {
    let archive = make_sample_game();
    let pgn = format_pgn(&archive).unwrap();

    assert!(pgn.contains("[Event \"CheckAI Game\"]"));
    assert!(pgn.contains("[Result \"1-0\"]"));
    assert!(pgn.contains("1. e2e4 e7e5"));
    assert!(pgn.contains("2. g1f3 b8c6"));
    assert!(pgn.contains("1-0"));
}

#[test]
fn format_pgn_is_exact() {
    let mut archive = make_sample_game();
    archive.game_id = GameId { value: 0x550e8400e29b41d4a716446655440000 };
    assert_eq!(
        format_pgn(&archive).unwrap(),
        "[Event \"CheckAI Game\"]\n[Site \"CheckAI Server\"]\n[Date \"2025.02.19\"]\n\
[Round \"1\"]\n[White \"Agent White\"]\n[Black \"Agent Black\"]\n[Result \"1-0\"]\n\
[GameId \"550e8400-e29b-41d4-a716-446655440000\"]\n[Termination \"Resignation\"]\n\n\
1. e2e4 e7e5 2. g1f3 b8c6 3. f1b5 a7a6 1-0\n"
    );
    let empty = GameArchive {
        game_id: GameId { value: 0 },
        start_timestamp: 0,
        end_timestamp: 0,
        result: None,
        end_reason: None,
        moves: vec![],
    };
    assert_eq!(
        format_pgn(&empty).unwrap(),
        "[Event \"CheckAI Game\"]\n[Site \"CheckAI Server\"]\n[Date \"????.??.??\"]\n\
[Round \"1\"]\n[White \"Agent White\"]\n[Black \"Agent Black\"]\n[Result \"*\"]\n\
[GameId \"00000000-0000-0000-0000-000000000000\"]\n\n*\n"
    );
}

#[test]
fn test_format_timestamp() {
    let ts = format_timestamp(0);
    assert_eq!(ts, "—");

    let ts = format_timestamp(1740000000);
    assert!(ts.contains("2025"));
    assert!(ts.contains("UTC"));
}

#[test]
fn test_format_duration() {
    assert_eq!(format_duration(45), "45s");
    assert_eq!(format_duration(90), "1m 30s");
    assert_eq!(format_duration(3661), "1h 1m 1s");
}

#[test]
fn test_wrap_pgn_text() {
    let long = "1. e2e4 e7e5 2. g1f3 b8c6 3. f1b5 a7a6 4. b5a4 g8f6 5. e1g1 f8e7";
    let wrapped = wrap_pgn_text(long, 40);
    for line in wrapped.lines() {
        assert!(line.len() <= 40, "Line too long: {}", line);
    }
}

#[test]
fn format_timestamp_is_exact() {
    assert_eq!(format_timestamp(1740000000), "2025-02-19 21:20:00 UTC");
    assert_eq!(format_timestamp(1), "1970-01-01 00:00:01 UTC");
    assert_eq!(format_timestamp(951782400), "2000-02-29 00:00:00 UTC");
    assert_eq!(format_timestamp(4102444799), "2099-12-31 23:59:59 UTC");
}

#[test]
fn days_to_date_known_days() {
    assert_eq!(days_to_date(0), (1970, 1, 1));
    assert_eq!(days_to_date(59), (1970, 3, 1));
    assert_eq!(days_to_date(11016), (2000, 2, 29));
    assert_eq!(days_to_date(11017), (2000, 3, 1));
    assert_eq!(days_to_date(20138), (2025, 2, 19));
}

#[test]
fn format_duration_boundaries() {
    assert_eq!(format_duration(0), "0s");
    assert_eq!(format_duration(59), "59s");
    assert_eq!(format_duration(60), "1m 0s");
    assert_eq!(format_duration(3599), "59m 59s");
    assert_eq!(format_duration(3600), "1h 0m 0s");
    assert_eq!(format_duration(360000), "100h 0m 0s");
}

#[test]
fn wrap_pgn_text_is_exact() {
    assert_eq!(wrap_pgn_text("", 10), "");
    assert_eq!(wrap_pgn_text("  a   b \n c ", 80), "a b c");
    assert_eq!(wrap_pgn_text("1. e2e4 e7e5 2. g1f3", 12), "1. e2e4 e7e5\n2. g1f3");
    assert_eq!(wrap_pgn_text("1. e2e4 e7e5 2. g1f3", 11), "1. e2e4\ne7e5 2.\ng1f3");
    assert_eq!(wrap_pgn_text("abcdefghij kl", 4), "abcdefghij\nkl");
    assert_eq!(wrap_pgn_text("aa bb", 0), "aa\nbb");
}

#[test]
fn format_move_notation_with_and_without_promotion() {
    let plain = MoveJson { from: "e2".into(), to: "e4".into(), promotion: None };
    assert_eq!(format_move_notation(&plain), "e2→e4");
    let promo = MoveJson { from: "e7".into(), to: "e8".into(), promotion: Some("Q".into()) };
    assert_eq!(format_move_notation(&promo), "e7→e8=Q");
}

#[test]
fn export_format_from_str_reads_names_in_any_case() {
    assert_eq!(ExportFormat::from_str("text"), Ok(ExportFormat::Text));
    assert_eq!(ExportFormat::from_str("TXT"), Ok(ExportFormat::Text));
    assert_eq!(ExportFormat::from_str("Pgn"), Ok(ExportFormat::Pgn));
    assert_eq!(ExportFormat::from_str("JSON"), Ok(ExportFormat::Json));
    assert_eq!(
        ExportFormat::from_str("xml"),
        Err("Unknown export format 'xml'. Valid: text, pgn, json".to_string())
    );
}

#[test]
fn test_format_text_produces_output() {
    let archive = make_sample_game();
    let text = format_text(&archive, Some(150), "113.2").unwrap();

    assert!(text.contains("CHECKAI GAME EXPORT"));
    assert!(text.contains(&archive.game_id.to_string()));
    assert!(text.contains("e2→e4"));
    assert!(text.contains("e7→e5"));
    assert!(text.contains("MOVE LIST"));
    assert!(text.contains("Final Position"));
    assert!(text.contains("Resignation"));
}

#[test]
fn test_format_json_parseable() {
    let archive = make_sample_game();
    let json = format_json(&archive).unwrap();

    let parsed: serde_json::Value = serde_json::from_str(&json).unwrap();
    assert_eq!(parsed["move_count"], 6);
    assert_eq!(parsed["moves"].as_array().unwrap().len(), 6);
    assert!(parsed["game_id"].is_string());
    assert!(parsed["final_position"].is_object());
}

#[test]
fn format_json_holds_the_documented_members() {
    let mut archive = make_sample_game();
    archive.game_id = GameId { value: 0x550e8400e29b41d4a716446655440000 };
    let json = format_json(&archive).unwrap();
    assert!(json.starts_with("{\n  \"end_reason\": \"Resignation\",\n  \"end_time\": \"2025-02-19 21:25:00 UTC\",\n"));
    let parsed: serde_json::Value = serde_json::from_str(&json).unwrap();
    assert_eq!(parsed["game_id"], "550e8400-e29b-41d4-a716-446655440000");
    assert_eq!(parsed["start_timestamp"], 1740000000u64);
    assert_eq!(parsed["end_timestamp"], 1740000300u64);
    assert_eq!(parsed["start_time"], "2025-02-19 21:20:00 UTC");
    assert_eq!(parsed["result"], "1-0 (White wins)");
    assert_eq!(parsed["fullmove_count"], 3);
    assert_eq!(parsed["final_turn"], "white");
    assert_eq!(parsed["final_position"]["b5"], "B");
    assert_eq!(parsed["final_position"]["a6"], "p");
    assert_eq!(parsed["final_position"].as_object().unwrap().len(), 32);
    let third = &parsed["moves"][2];
    assert_eq!(third["half_move"], 3);
    assert_eq!(third["move_number"], 2);
    assert_eq!(third["side"], "White");
    assert_eq!(third["from"], "g1");
    assert_eq!(third["to"], "f3");
    assert!(third["promotion"].is_null());
    assert_eq!(third["notation"], "g1→f3");
    assert_eq!(parsed["moves"][3]["side"], "Black");
}

#[test]
fn format_text_is_exact() {
    let archive = GameArchive {
        game_id: GameId { value: 0x550e8400e29b41d4a716446655440000 },
        start_timestamp: 1740000000,
        end_timestamp: 1740000090,
        result: Some(GameResult::BlackWins),
        end_reason: Some(GameEndReason::Checkmate),
        moves: vec![
            MoveJson { from: "f2".into(), to: "f3".into(), promotion: None },
            MoveJson { from: "e7".into(), to: "e5".into(), promotion: None },
            MoveJson { from: "g2".into(), to: "g4".into(), promotion: None },
            MoveJson { from: "d8".into(), to: "h4".into(), promotion: None },
        ],
    };
    let text = format_text(&archive, Some(40), "81.6").unwrap();
    let expected = "\
╔══════════════════════════════════════════════════════════╗
║                    CHECKAI GAME EXPORT                  ║
╚══════════════════════════════════════════════════════════╝

  Game ID:    550e8400-e29b-41d4-a716-446655440000
  Started:    2025-02-19 21:20:00 UTC
  Ended:      2025-02-19 21:21:30 UTC
  Duration:   1m 30s
  Moves:      4 half-moves (2 full moves)
  Result:     0-1 (Black wins)
  Reason:     Checkmate
  Raw size:   49 bytes
  Compressed: 40 bytes (81.6%)

┌──────────────────────────────────┐
│           MOVE LIST              │
├─────┬─────────────┬──────────────┤
│  #  │    White    │    Black     │
├─────┼─────────────┼──────────────┤
│   1 │       f2→f3 │        e7→e5 │
│   2 │       g2→g4 │        d8→h4 │
└─────┴─────────────┴──────────────┘

  Final Position:

    +---+---+---+---+---+---+---+---+
  8 | r | n | b |   | k | b | n | r |
    +---+---+---+---+---+---+---+---+
  7 | p | p | p | p |   | p | p | p |
    +---+---+---+---+---+---+---+---+
  6 |   |   |   |   |   |   |   |   |
    +---+---+---+---+---+---+---+---+
  5 |   |   |   |   | p |   |   |   |
    +---+---+---+---+---+---+---+---+
  4 |   |   |   |   |   |   | P | q |
    +---+---+---+---+---+---+---+---+
  3 |   |   |   |   |   | P |   |   |
    +---+---+---+---+---+---+---+---+
  2 | P | P | P | P | P |   |   | P |
    +---+---+---+---+---+---+---+---+
  1 | R | N | B | Q | K | B | N | R |
    +---+---+---+---+---+---+---+---+
      a   b   c   d   e   f   g   h
  
    white to move 

  Game ended by: Checkmate
";
    assert_eq!(text, expected);

    let odd = GameArchive {
        game_id: GameId { value: 1 },
        start_timestamp: 0,
        end_timestamp: 0,
        result: None,
        end_reason: None,
        moves: vec![MoveJson { from: "e2".into(), to: "e4".into(), promotion: None }],
    };
    let text = format_text(&odd, None, "").unwrap();
    assert!(text.contains("  Started:    —\n  Ended:      —\n  Moves:      1 half-moves (1 full moves)\n  Result:     In progress\n  Raw size:   43 bytes\n\n┌"));
    assert!(text.contains("│   1 │       e2→e4 │              │\n└"));
    assert!(!text.contains("Compressed"));
    assert!(!text.contains("Game ended by"));
}

#[test]
fn combine_exports_joins_by_format() {
    let texts = vec!["a".to_string(), "b".to_string(), "c".to_string()];
    assert_eq!(combine_exports(ExportFormat::Pgn, &texts), "a\n\nb\n\nc");
    assert_eq!(combine_exports(ExportFormat::Json, &texts), "[\na\n,\nb\n,\nc\n]\n");
    assert_eq!(
        combine_exports(ExportFormat::Text, &texts[..2].to_vec()),
        "a\n\n━━━━━━━━━━━━━━━━━━━━━━━━━━━━━━━━━━━━━━━━━━━━━━━━━━━━━━━━━━\n\nb"
    );
    assert_eq!(combine_exports(ExportFormat::Json, &vec![]), "[\n\n]\n");
    assert_eq!(combine_exports(ExportFormat::Text, &vec![]), "");
}

#[test]
fn format_game_follows_the_format() {
    let archive = make_sample_game();
    let text = format_game(&archive, Some(150), "113.2", ExportFormat::Text).unwrap();
    assert_eq!(text, format_text(&archive, Some(150), "113.2").unwrap());
    let pgn = format_game(&archive, None, "0.0", ExportFormat::Pgn).unwrap();
    assert_eq!(pgn, format_pgn(&archive).unwrap());
    let json = format_game(&archive, None, "0.0", ExportFormat::Json).unwrap();
    assert_eq!(json, format_json(&archive).unwrap());
    assert_ne!(text, pgn);
    assert_ne!(pgn, json);
}

#[test]
fn format_game_reports_a_failed_replay() {
    let mut archive = make_sample_game();
    archive.moves.push(MoveJson { from: "a1".to_string(), to: "a8".to_string(), promotion: None });
    let count = archive.moves.len();
    for format in [ExportFormat::Text, ExportFormat::Json] {
        match format_game(&archive, None, "0.0", format) {
            Err(ExportError::Replay(e)) => assert_eq!(e.move_number, count),
            other => panic!("unexpected: {:?}", other),
        }
    }
    assert!(format_game(&archive, None, "0.0", ExportFormat::Pgn).is_ok());
}
