use checkai::game::{Game, MoveRecord};
use checkai::ident::GameId;
use checkai::storage::{
    compress_game, decode_end_reason, decode_move, decode_result, decompress_archive,
    deserialize_game, encode_end_reason, encode_move, encode_result, serialize_game,
    ArchiveError, ArchiveSummary, FileOp, GameStorage, ReplayError, StorageStats, StoredAs,
};
use checkai::types::{
    Board, Color, ErrorKind, GameEndReason, GameResult, MoveError, MoveJson,
};

fn mv(from: &str, to: &str) -> MoveJson {
    MoveJson { from: from.into(), to: to.into(), promotion: None }
}

fn sample_game() -> Game {
    let mut game =
        Game::new_with_id_and_timestamps(GameId { value: 0x0102030405060708090a0b0c0d0e0f10 }, 1, 0);
    for (from, to) in [("e2", "e4"), ("e7", "e5"), ("g1", "f3")] {
        game.make_move_at(&mv(from, to), 5).unwrap();
    }
    game
}

#[test]
fn archive_round_trip_of_three_moves() {
    let mut game = Game::new();
    for (from, to) in [("e2", "e4"), ("e7", "e5"), ("g1", "f3")] {
        game.make_move(&mv(from, to)).unwrap();
    }
    let data = serialize_game(&game).unwrap();
    assert_eq!(data.len(), 47);
    let archive = deserialize_game(&data).unwrap();
    let g0 = archive.replay(0).unwrap();
    assert_eq!(g0.board, Board::starting_position());
    assert_eq!(g0.turn, Color::White);
    assert_eq!(g0.fullmove_number, 1);
    let g2 = archive.replay(2).unwrap();
    assert_eq!(g2.turn, Color::White);
    assert_eq!(g2.fullmove_number, 2);
    let g3 = archive.replay(3).unwrap();
    assert_eq!(g3.turn, Color::Black);
    assert_eq!(g3.move_history.len(), 3);
    let full = archive.replay_full().unwrap();
    assert_eq!(full.board, game.board);
    assert_eq!(full.turn, game.turn);
    assert_eq!(full.castling, game.castling);
    assert_eq!(full.en_passant, game.en_passant);
    assert_eq!(full.halfmove_clock, game.halfmove_clock);
    assert_eq!(full.fullmove_number, game.fullmove_number);
    assert_eq!(full.position_history, game.position_history);
    assert_eq!(full.move_history, game.move_history);
    assert_eq!(full.id, game.id);
    let beyond = archive.replay(100).unwrap();
    assert_eq!(beyond.move_history, game.move_history);
}

#[test]
fn raw_archive_has_the_documented_bytes() {
    let mut game = sample_game();
    game.process_action_at(
        &checkai::types::ActionJson { action: "resign".into(), reason: None },
        0x0000_0001_0000_0002,
    )
    .unwrap();
    let data = serialize_game(&game).unwrap();
    let mut expected: Vec<u8> = Vec::new();
    expected.extend_from_slice(b"CKAI");
    expected.push(1);
    expected.extend_from_slice(&[1, 2, 3, 4, 5, 6, 7, 8, 9, 10, 11, 12, 13, 14, 15, 16]);
    expected.extend_from_slice(&[0, 0, 0, 0, 0, 0, 0, 1]);
    expected.extend_from_slice(&[0, 0, 0, 1, 0, 0, 0, 2]);
    expected.push(1);
    expected.push(8);
    expected.extend_from_slice(&[0, 3]);
    // e2 = 12, e4 = 28: 12 | 28 << 6 = 1804 = 0x070c
    expected.extend_from_slice(&[0x0c, 0x07]);
    // e7 = 52, e5 = 36: 52 | 36 << 6 = 2356 = 0x0934
    expected.extend_from_slice(&[0x34, 0x09]);
    // g1 = 6, f3 = 21: 6 | 21 << 6 = 1350 = 0x0546
    expected.extend_from_slice(&[0x46, 0x05]);
    assert_eq!(data, expected);

    let archive = deserialize_game(&data).unwrap();
    assert_eq!(archive.game_id, game.id);
    assert_eq!(archive.start_timestamp, 1);
    assert_eq!(archive.end_timestamp, 0x0000_0001_0000_0002);
    assert_eq!(archive.result, Some(GameResult::WhiteWins));
    assert_eq!(archive.end_reason, Some(GameEndReason::Resignation));
    assert_eq!(archive.move_count(), 3);
    assert_eq!(archive.raw_size(), 47);
    assert_eq!(archive.moves[2], mv("g1", "f3"));
}

#[test]
fn move_words_are_exact() {
    assert_eq!(encode_move(&mv("a1", "a1")), Ok(0));
    assert_eq!(encode_move(&mv("h8", "a1")), Ok(63));
    assert_eq!(encode_move(&mv("a1", "h8")), Ok(63 << 6));
    let promo = MoveJson { from: "e7".into(), to: "e8".into(), promotion: Some("N".into()) };
    assert_eq!(encode_move(&promo), Ok(52 | (60 << 6) | (4 << 12)));
    assert_eq!(decode_move(52 | (60 << 6) | (3 << 12)).promotion, Some("B".to_string()));
    assert_eq!(decode_move(1 << 15), mv("a1", "a1"));
    assert_eq!(encode_move(&mv("i1", "a1")), Err(MoveError::InvalidFrom));
    assert_eq!(encode_move(&mv("a1", "a0")), Err(MoveError::InvalidTo));
    let bad = MoveJson { from: "e7".into(), to: "e8".into(), promotion: Some("q".into()) };
    assert_eq!(encode_move(&bad), Err(MoveError::InvalidPromotion));
}

#[test]
fn every_legal_move_survives_encoding() {
    let game = sample_game();
    for m in game.legal_moves() {
        let json = m.to_json();
        assert_eq!(decode_move(encode_move(&json).unwrap()), json);
    }
}

#[test]
fn result_and_reason_bytes() {
    assert_eq!(encode_result(None), 0);
    assert_eq!(encode_result(Some(&GameResult::WhiteWins)), 1);
    assert_eq!(encode_result(Some(&GameResult::BlackWins)), 2);
    assert_eq!(encode_result(Some(&GameResult::Draw)), 3);
    assert_eq!(decode_result(0), None);
    assert_eq!(decode_result(2), Some(GameResult::BlackWins));
    assert_eq!(decode_result(4), None);
    let reasons = [
        GameEndReason::Checkmate,
        GameEndReason::Stalemate,
        GameEndReason::ThreefoldRepetition,
        GameEndReason::FivefoldRepetition,
        GameEndReason::FiftyMoveRule,
        GameEndReason::SeventyFiveMoveRule,
        GameEndReason::InsufficientMaterial,
        GameEndReason::Resignation,
        GameEndReason::DrawAgreement,
    ];
    assert_eq!(encode_end_reason(None), 0);
    for (i, r) in reasons.iter().enumerate() {
        assert_eq!(encode_end_reason(Some(r)), i as u8 + 1);
        assert_eq!(decode_end_reason(i as u8 + 1), Some(*r));
    }
    assert_eq!(decode_end_reason(0), None);
    assert_eq!(decode_end_reason(10), None);
}

#[test]
fn every_archive_error_has_its_input() {
    let good = serialize_game(&sample_game()).unwrap();
    assert_eq!(deserialize_game(&good[..40]).unwrap_err(), ArchiveError::HeaderTooShort);
    assert_eq!(deserialize_game(&[]).unwrap_err(), ArchiveError::HeaderTooShort);
    let mut bad = good.clone();
    bad[3] = b'X';
    assert_eq!(deserialize_game(&bad).unwrap_err(), ArchiveError::InvalidMagic);
    let mut bad = good.clone();
    bad[4] = 2;
    assert_eq!(
        deserialize_game(&bad).unwrap_err(),
        ArchiveError::UnsupportedVersion { version: 2 }
    );
    assert_eq!(
        deserialize_game(&good[..46]).unwrap_err(),
        ArchiveError::DataTooShort { expected: 47, got: 46 }
    );
    let mut bad = good.clone();
    bad[44] |= 0x50;
    assert_eq!(
        deserialize_game(&bad).unwrap_err(),
        ArchiveError::InvalidPromotionBits { index: 1 }
    );
    assert_eq!(ArchiveError::InvalidMagic.kind(), ErrorKind::SchemaError);
    assert_eq!(ArchiveError::CompressionFailed.kind(), ErrorKind::StorageError);

    let mut long = good.clone();
    long.extend_from_slice(&[9, 9, 9]);
    assert_eq!(deserialize_game(&long).unwrap().moves.len(), 3);

    let mut game = sample_game();
    game.move_history.push(MoveRecord {
        move_number: 2,
        side: Color::Black,
        notation: "??".into(),
        move_json: mv("x1", "a1"),
    });
    assert_eq!(serialize_game(&game).unwrap_err(), ArchiveError::UnencodableMove { index: 3 });
    let many = game.move_history[0].clone();
    game.move_history = vec![many; 65536];
    assert_eq!(serialize_game(&game).unwrap_err(), ArchiveError::TooManyMoves);
}

#[test]
fn replay_reports_the_move_that_fails() {
    let mut archive = deserialize_game(&serialize_game(&sample_game()).unwrap()).unwrap();
    archive.moves[1] = mv("e7", "e4");
    assert_eq!(archive.replay(1).unwrap().move_history.len(), 1);
    match archive.replay_full() {
        Err(ReplayError { move_number, error: MoveError::Illegal { .. } }) => {
            assert_eq!(move_number, 2)
        }
        other => panic!("unexpected {:?}", other.map(|g| g.move_history.len())),
    }
}

#[test]
fn replay_gives_the_same_game_each_time() {
    let mut game = Game::new_with_id_and_timestamps(GameId { value: 3 }, 10, 0);
    for (from, to) in [("f2", "f3"), ("e7", "e5"), ("g2", "g4"), ("d8", "h4")] {
        game.make_move_at(&mv(from, to), 0).unwrap();
    }
    let archive = deserialize_game(&serialize_game(&game).unwrap()).unwrap();
    let a = archive.replay_full().unwrap();
    let b = archive.replay_full().unwrap();
    assert_eq!(a.board, b.board);
    assert_eq!(a.result, b.result);
    assert_eq!(a.end_timestamp, b.end_timestamp);
    assert_eq!(a.position_history, b.position_history);
    assert_eq!(a.result, Some(GameResult::BlackWins));
    assert_eq!(a.end_reason, Some(GameEndReason::Checkmate));
}

#[test]
fn compressed_archive_round_trip() {
    let game = sample_game();
    let raw = serialize_game(&game).unwrap();
    let compressed = compress_game(&game).unwrap();
    assert_ne!(compressed, raw);
    assert_eq!(compressed, zstd::encode_all(raw.as_slice(), 19).unwrap());
    assert_eq!(compress_game(&game).unwrap(), compressed);
    assert_eq!(zstd::decode_all(compressed.as_slice()).unwrap(), raw);
    let archive = decompress_archive(&compressed).unwrap();
    assert_eq!(archive.game_id, game.id);
    assert_eq!(archive.moves, vec![mv("e2", "e4"), mv("e7", "e5"), mv("g1", "f3")]);
    let other_level = zstd::encode_all(raw.as_slice(), 1).unwrap();
    assert_eq!(decompress_archive(&other_level).unwrap().moves.len(), 3);
    assert_eq!(decompress_archive(&raw).unwrap_err(), ArchiveError::DecompressionFailed);
    let (loaded, was_compressed) = GameStorage::load_from(StoredAs::Archived, &compressed).unwrap();
    assert!(was_compressed);
    assert_eq!(loaded.moves.len(), 3);
    let (loaded, was_compressed) = GameStorage::load_from(StoredAs::Active, &raw).unwrap();
    assert!(!was_compressed);
    assert_eq!(loaded.moves.len(), 3);
}

#[test]
fn storage_layout_and_file_names() {
    let storage = GameStorage::new("data");
    let id = GameId { value: 0x550e8400e29b41d4a716446655440000 };
    assert_eq!(storage.base_dir(), "data");
    assert_eq!(storage.active_dir(), "data/active");
    assert_eq!(storage.archive_dir(), "data/archive");
    assert_eq!(storage.active_path(&id), "data/active/550e8400-e29b-41d4-a716-446655440000.cai");
    assert_eq!(
        storage.temp_path(&id),
        "data/active/550e8400-e29b-41d4-a716-446655440000.cai.tmp"
    );
    assert_eq!(
        storage.archive_path(&id),
        "data/archive/550e8400-e29b-41d4-a716-446655440000.cai.zst"
    );
    assert_eq!(GameStorage::active_id("550e8400-e29b-41d4-a716-446655440000.cai"), Some(id));
    assert_eq!(GameStorage::active_id("550e8400-e29b-41d4-a716-446655440000.cai.zst"), None);
    assert_eq!(GameStorage::active_id("550e8400-e29b-41d4-a716-446655440000.cai.tmp"), None);
    assert_eq!(GameStorage::active_id("notes.cai"), None);
    assert_eq!(GameStorage::active_id("cai"), None);
    assert_eq!(
        GameStorage::archived_id("550e8400-e29b-41d4-a716-446655440000.cai.zst"),
        Some(id)
    );
    assert_eq!(GameStorage::archived_id("550e8400-e29b-41d4-a716-446655440000.cai"), None);
    assert_eq!(GameStorage::load_source(true, true), Some(StoredAs::Active));
    assert_eq!(GameStorage::load_source(true, false), Some(StoredAs::Active));
    assert_eq!(GameStorage::load_source(false, true), Some(StoredAs::Archived));
    assert_eq!(GameStorage::load_source(false, false), None);
}

#[test]
fn storage_stats_and_summaries() {
    let stats = StorageStats::of(&vec![47, 100], &vec![60, 70, 80]);
    assert_eq!(stats.active_count, 2);
    assert_eq!(stats.archived_count, 3);
    assert_eq!(stats.active_bytes, 147);
    assert_eq!(stats.archive_bytes, 210);
    assert_eq!(stats.total_bytes, 357);
    let empty = StorageStats::of(&vec![], &vec![]);
    assert_eq!(empty.total_bytes, 0);

    let archive = deserialize_game(&serialize_game(&sample_game()).unwrap()).unwrap();
    let summary = ArchiveSummary::of(&archive, 55);
    assert_eq!(summary.game_id, "01020304-0506-0708-090a-0b0c0d0e0f10");
    assert_eq!(summary.move_count, 3);
    assert_eq!(summary.raw_bytes, 47);
    assert_eq!(summary.compressed_bytes, 55);
    assert_eq!(summary.result, None);
}

#[test]
fn plans_write_before_they_replace_or_remove() {
    let storage = GameStorage::new("data");
    let id = GameId { value: 0x550e8400e29b41d4a716446655440000 };
    assert_eq!(
        storage.save_active_ops(&id, vec![1, 2, 3]),
        vec![
            FileOp::Write {
                path: "data/active/550e8400-e29b-41d4-a716-446655440000.cai.tmp".into(),
                data: vec![1, 2, 3],
            },
            FileOp::Rename {
                from: "data/active/550e8400-e29b-41d4-a716-446655440000.cai.tmp".into(),
                to: "data/active/550e8400-e29b-41d4-a716-446655440000.cai".into(),
            },
        ]
    );
    assert_eq!(
        storage.archive_ops(&id, vec![9]),
        vec![
            FileOp::Write {
                path: "data/archive/550e8400-e29b-41d4-a716-446655440000.cai.zst.tmp".into(),
                data: vec![9],
            },
            FileOp::Rename {
                from: "data/archive/550e8400-e29b-41d4-a716-446655440000.cai.zst.tmp".into(),
                to: "data/archive/550e8400-e29b-41d4-a716-446655440000.cai.zst".into(),
            },
            FileOp::RemoveIfExists {
                path: "data/active/550e8400-e29b-41d4-a716-446655440000.cai".into(),
            },
        ]
    );
}
