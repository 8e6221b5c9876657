use checkai::game::Game;
use checkai::hub::{
    build_error_response, build_event_json, build_response, BroadcastEvent, Connect, Disconnect, GameBroadcaster, SessionId, Subscribe,
    Unsubscribe,
};
use checkai::ident::GameId;
use checkai::manager::{GameManager, ManagerError, PersistStep, RestoreError};
use checkai::storage::{deserialize_game, serialize_game, ArchiveError};
use checkai::types::{ActionJson, ErrorKind, MoveError, MoveJson};

fn event(game: u128) -> BroadcastEvent {
    BroadcastEvent {
        game_id: GameId { value: game },
        event: "game_updated".into(),
        payload: "{ \"b\": [1, 2],  \"a\": \"x\" }".into(),
    }
}

fn recipients(hub: &GameBroadcaster, game: u128) -> Vec<u128> {
    let mut ids: Vec<u128> =
        hub.broadcast(&event(game)).into_iter().map(|d| d.session_id.value).collect();
    ids.sort();
    ids
}

#[test]
fn event_frame_is_exact() {
    let id = GameId { value: 0x550e8400e29b41d4a716446655440000 };
    assert_eq!(
        build_event_json("game_updated", &id, "{ \"b\": [1, 2],  \"a\": \"x\" }"),
        "{\"data\":{\"a\":\"x\",\"b\":[1,2]},\"event\":\"game_updated\",\"game_id\":\"550e8400-e29b-41d4-a716-446655440000\",\"type\":\"event\"}"
    );
    assert_eq!(
        build_event_json("a\"b", &id, "not json"),
        "{\"data\":null,\"event\":\"a\\\"b\",\"game_id\":\"550e8400-e29b-41d4-a716-446655440000\",\"type\":\"event\"}"
    );
}

#[test]
fn broadcast_reaches_connected_subscribers_only() {
    let mut hub = GameBroadcaster::new();
    let s = |v: u128| SessionId { value: v };
    let g = |v: u128| GameId { value: v };
    assert!(hub.broadcast(&event(1)).is_empty());
    hub.connect(Connect { session_id: s(10) });
    hub.connect(Connect { session_id: s(11) });
    hub.subscribe(Subscribe { session_id: s(10), game_id: g(1) });
    hub.subscribe(Subscribe { session_id: s(10), game_id: g(1) });
    hub.subscribe(Subscribe { session_id: s(11), game_id: g(1) });
    hub.subscribe(Subscribe { session_id: s(11), game_id: g(2) });
    hub.subscribe(Subscribe { session_id: s(12), game_id: g(1) });
    assert!(hub.is_connected(s(10)));
    assert!(!hub.is_connected(s(12)));
    assert!(hub.is_subscribed(s(12), g(1)));
    assert_eq!(recipients(&hub, 1), vec![10, 11]);
    assert_eq!(recipients(&hub, 2), vec![11]);
    assert_eq!(recipients(&hub, 3), Vec::<u128>::new());
    let frames = hub.broadcast(&event(1));
    assert_eq!(
        frames[0].text.0,
        build_event_json("game_updated", &g(1), "{ \"b\": [1, 2],  \"a\": \"x\" }")
    );
    assert_eq!(frames[0].text, frames[1].text);

    hub.connect(Connect { session_id: s(12) });
    assert_eq!(recipients(&hub, 1), vec![10, 11, 12]);
    hub.unsubscribe(Unsubscribe { session_id: s(10), game_id: g(1) });
    assert_eq!(recipients(&hub, 1), vec![11, 12]);
    hub.unsubscribe(Unsubscribe { session_id: s(10), game_id: g(1) });
    hub.disconnect(Disconnect { session_id: s(11) });
    assert_eq!(recipients(&hub, 1), vec![12]);
    assert_eq!(recipients(&hub, 2), Vec::<u128>::new());
    assert!(!hub.is_subscribed(s(11), g(2)));
    hub.connect(Connect { session_id: s(11) });
    assert_eq!(recipients(&hub, 2), Vec::<u128>::new());
}

#[test]
fn manager_creates_moves_and_deletes_games() {
    let mut manager = GameManager::new();
    assert!(manager.list_game_ids().is_empty());
    let a = manager.create_game();
    let b = manager.create_game();
    assert_ne!(a, b);
    let mut ids = manager.list_game_ids();
    ids.sort_by_key(|id| id.value);
    let mut expected = vec![a, b];
    expected.sort_by_key(|id| id.value);
    assert_eq!(ids, expected);
    assert_eq!(manager.get_game(&a).unwrap().id, a);

    let e4 = MoveJson { from: "e2".into(), to: "e4".into(), promotion: None };
    manager.make_move(&a, &e4).unwrap();
    assert_eq!(manager.get_game(&a).unwrap().move_history.len(), 1);
    assert_eq!(manager.get_game(&b).unwrap().move_history.len(), 0);
    assert_eq!(manager.make_move(&a, &e4), Err(ManagerError::Move(MoveError::NoPiece)));
    assert_eq!(manager.get_game(&a).unwrap().move_history.len(), 1);
    let nobody = GameId { value: 1 };
    assert_eq!(manager.make_move(&nobody, &e4), Err(ManagerError::NotFound));
    assert_eq!(ManagerError::NotFound.kind(), ErrorKind::NotFound);
    assert_eq!(ManagerError::Move(MoveError::NoPiece).kind(), ErrorKind::IllegalMove);
    assert_eq!(ManagerError::Move(MoveError::InvalidTo).kind(), ErrorKind::BadRequest);
    assert!(manager.get_game(&nobody).is_none());
    assert!(manager.persist_game(&nobody).is_none());

    match manager.persist_game(&a) {
        Some(Ok(PersistStep::SaveActive { raw })) => {
            assert_eq!(raw, serialize_game(manager.get_game(&a).unwrap()).unwrap());
            assert_eq!(raw.len(), 43);
        }
        other => panic!("unexpected {:?}", other),
    }
    let resign = ActionJson { action: "resign".into(), reason: None };
    manager.process_action(&a, &resign).unwrap();
    assert!(manager.get_game(&a).unwrap().is_over());
    assert!(matches!(manager.process_action(&a, &resign), Err(ManagerError::Action(_))));
    assert_eq!(manager.process_action(&nobody, &resign), Err(ManagerError::NotFound));
    match manager.persist_game(&a) {
        Some(Ok(PersistStep::Archive { compressed })) => {
            let raw = zstd::decode_all(compressed.as_slice()).unwrap();
            assert_eq!(deserialize_game(&raw).unwrap().moves, vec![e4.clone()]);
        }
        other => panic!("unexpected {:?}", other),
    }

    assert!(manager.delete_game(&a));
    assert!(!manager.delete_game(&a));
    assert!(manager.get_game(&a).is_none());
    assert_eq!(manager.list_game_ids(), vec![b]);
}

#[test]
fn manager_restores_stored_games() {
    let mut game = Game::new();
    for (from, to) in [("e2", "e4"), ("e7", "e5")] {
        game.make_move(&MoveJson { from: from.into(), to: to.into(), promotion: None }).unwrap();
    }
    let raw = serialize_game(&game).unwrap();
    let mut manager = GameManager::new();
    assert_eq!(manager.restore_game(game.id, &raw), Ok(2));
    let restored = manager.get_game(&game.id).unwrap();
    assert_eq!(restored.board, game.board);
    assert_eq!(restored.position_history, game.position_history);

    let other = GameId { value: 5 };
    assert_eq!(
        manager.restore_game(other, &raw[..40]),
        Err(RestoreError::Unreadable(ArchiveError::HeaderTooShort))
    );
    let mut broken = raw.clone();
    broken[41] = 0;
    broken[42] = 0;
    assert!(matches!(manager.restore_game(other, &broken), Err(RestoreError::Unplayable(_))));
    assert!(manager.get_game(&other).is_none());
    assert_eq!(manager.list_game_ids().len(), 1);
}

#[test]
fn response_frames_are_exact() {
    assert_eq!(
        build_response("get_game", &Some("r1".to_string()), "{\"x\": 1}"),
        "{\"action\":\"get_game\",\"data\":{\"x\":1},\"request_id\":\"r1\",\"success\":true,\"type\":\"response\"}"
    );
    assert_eq!(
        build_response("list_games", &None, "[]"),
        "{\"action\":\"list_games\",\"data\":[],\"request_id\":null,\"success\":true,\"type\":\"response\"}"
    );
    assert_eq!(
        build_error_response("unknown", &None, "Invalid JSON: \"x\""),
        "{\"action\":\"unknown\",\"error\":\"Invalid JSON: \\\"x\\\"\",\"request_id\":null,\"success\":false,\"type\":\"response\"}"
    );
}
