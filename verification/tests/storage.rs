use checkai::game::Game;
use checkai::storage::{
    decode_move, deserialize_game, encode_move, serialize_game, ZSTD_COMPRESSION_LEVEL,
};
use checkai::types::{Color, MoveJson};

#[test]
fn test_move_encode_decode_roundtrip() {
    let moves = vec![
        MoveJson { from: "e2".into(), to: "e4".into(), promotion: None },
        MoveJson { from: "g1".into(), to: "f3".into(), promotion: None },
        MoveJson { from: "e7".into(), to: "e8".into(), promotion: Some("Q".into()) },
        MoveJson { from: "a7".into(), to: "a8".into(), promotion: Some("N".into()) },
        MoveJson { from: "a1".into(), to: "h8".into(), promotion: None },
    ];

    for mv in &moves {
        let encoded = encode_move(mv).unwrap();
        let decoded = decode_move(encoded);
        assert_eq!(mv.from, decoded.from, "from mismatch for {:?}", mv);
        assert_eq!(mv.to, decoded.to, "to mismatch for {:?}", mv);
        assert_eq!(mv.promotion, decoded.promotion, "promotion mismatch for {:?}", mv);
    }
}

#[test]
fn test_encode_move_size() {
    // Every move must fit in 2 bytes (u16)
    let encoded = encode_move(&MoveJson {
        from: "h8".into(),
        to: "a1".into(),
        promotion: Some("N".into()),
    })
    .unwrap();
    assert!(encoded <= u16::MAX);
}

#[test]
fn test_serialize_deserialize_roundtrip() {
    let mut game = Game::new();
    // Play 1. e4 e5
    game.make_move(&MoveJson { from: "e2".into(), to: "e4".into(), promotion: None }).unwrap();
    game.make_move(&MoveJson { from: "e7".into(), to: "e5".into(), promotion: None }).unwrap();

    let data = serialize_game(&game).unwrap();
    assert_eq!(data.len(), 41 + 4); // header + 2 moves × 2 bytes

    let archive = deserialize_game(&data).unwrap();
    assert_eq!(archive.game_id, game.id);
    assert_eq!(archive.moves.len(), 2);
    assert_eq!(archive.moves[0].from, "e2");
    assert_eq!(archive.moves[0].to, "e4");
    assert_eq!(archive.moves[1].from, "e7");
    assert_eq!(archive.moves[1].to, "e5");
}

#[test]
fn test_replay_position() {
    let mut game = Game::new();
    game.make_move(&MoveJson { from: "e2".into(), to: "e4".into(), promotion: None }).unwrap();
    game.make_move(&MoveJson { from: "e7".into(), to: "e5".into(), promotion: None }).unwrap();
    game.make_move(&MoveJson { from: "g1".into(), to: "f3".into(), promotion: None }).unwrap();

    let data = serialize_game(&game).unwrap();
    let archive = deserialize_game(&data).unwrap();

    // Replay to move 0 = starting position
    let g0 = archive.replay(0).unwrap();
    assert_eq!(g0.fullmove_number, 1);
    assert_eq!(g0.turn, Color::White);

    // Replay to move 2 = after 1. e4 e5
    let g2 = archive.replay(2).unwrap();
    assert_eq!(g2.fullmove_number, 2);
    assert_eq!(g2.turn, Color::White);

    // Replay all 3 moves
    let g3 = archive.replay(3).unwrap();
    assert_eq!(g3.turn, Color::Black);
    assert_eq!(g3.move_history.len(), 3);
}

#[test]
fn test_compression_ratio() {
    let mut game = Game::new();
    // Play a few moves
    let moves = vec![
        ("e2", "e4"),
        ("e7", "e5"),
        ("g1", "f3"),
        ("b8", "c6"),
        ("f1", "b5"),
        ("a7", "a6"),
    ];
    for (from, to) in moves {
        game.make_move(&MoveJson { from: from.into(), to: to.into(), promotion: None }).unwrap();
    }

    let raw = serialize_game(&game).unwrap();
    let compressed = zstd::encode_all(raw.as_slice(), ZSTD_COMPRESSION_LEVEL).unwrap();

    println!(
        "Raw: {} bytes, Compressed: {} bytes, Ratio: {:.1}%",
        raw.len(),
        compressed.len(),
        (compressed.len() as f64 / raw.len() as f64) * 100.0
    );

    // Verify we can decompress and replay
    let decompressed = zstd::decode_all(compressed.as_slice()).unwrap();
    assert_eq!(raw, decompressed);
}
