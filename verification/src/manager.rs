//! The manager of live games: the table from identifiers to games, the
//! transitions of the games in it, and what is to be written to storage
//! after a transition.

use crate::game::{ActionError, Game, GameState, Position};
use crate::ident::GameId;
use crate::storage::{
    archive_bytes, compress_game, compressed_archive, deserialize_game, parsed_archive,
    serialize_game, zstd_decoded,
    ArchiveError, ArchiveView, ReplayError, ReplayFault,
};
use crate::types::{ActionJson, ChessMove, ErrorKind, MoveError, MoveFault, MoveJson};
use std::collections::HashMap;
use vstd::prelude::*;
use vstd::std_specs::iter::IteratorSpec;

verus! {

broadcast use vstd::std_specs::hash::group_hash_axioms;

/// What is to be written to storage for a game.
#[derive(Debug, Clone, PartialEq, Eq)]
pub enum PersistStep {
    /// The game is going on: its raw archive replaces the active file.
    SaveActive { raw: Vec<u8> },
    /// The game has ended: its compressed archive is written, and then the
    /// active file is removed.
    Archive { compressed: Vec<u8> },
}

/// Why a stored game was not restored.
#[derive(Debug, Clone, PartialEq, Eq)]
pub enum RestoreError {
    /// The data is no raw archive.
    Unreadable(ArchiveError),
    /// The archive's moves cannot be replayed.
    Unplayable(ReplayError),
}

/// Why a move or an action on a game of the table failed.
#[derive(Debug, Clone, PartialEq, Eq)]
pub enum ManagerError {
    /// The table holds no game with the identifier.
    NotFound,
    /// The move was rejected.
    Move(MoveError),
    /// The action was rejected.
    Action(ActionError),
}

impl ManagerError {
    /// The kind of error under which this error is reported: a missing
    /// game is not found; a rejected move or action is reported as the
    /// move or the action reports it.
    pub open spec fn error_kind(self) -> ErrorKind {
        match self {
            ManagerError::NotFound => ErrorKind::NotFound,
            ManagerError::Move(e) => e@.kind(),
            ManagerError::Action(e) => e.error_kind(),
        }
    }

    /// Returns the kind of error under which this error is reported.
    pub fn kind(&self) -> (k: ErrorKind)
        ensures
            k == self.error_kind(),
    {
        match self {
            ManagerError::NotFound => ErrorKind::NotFound,
            ManagerError::Move(e) => e.kind(),
            ManagerError::Action(e) => e.kind(),
        }
    }
}

/// The table of live games.
pub struct GameManager {
    /// The games by the value of their identifier.
    pub games: HashMap<u128, Game>,
}

impl GameManager {
    /// Every game of the table is consistent and is the game of its
    /// recorded moves, as the games are that this table creates, restores
    /// and moves on.
    pub open spec fn wf(&self) -> bool {
        forall|k: u128|
            self.games@.contains_key(k) ==> (#[trigger] self.games@[k])@.wf()
                && self.games@[k]@.faithful()
    }

    /// The table holds a game under the identifier.
    pub open spec fn has(&self, id: GameId) -> bool {
        self.games@.contains_key(id.value)
    }

    /// The state of the game under the identifier.
    pub open spec fn state(&self, id: GameId) -> GameState {
        self.games@[id.value]@
    }

    /// Creates an empty table.
    pub fn new() -> (r: GameManager)
        ensures
            r.wf(),
            r.games@ == Map::<u128, Game>::empty(),
    {
        GameManager { games: HashMap::new() }
    }

    /// Creates a game in the starting position under a fresh identifier,
    /// puts it into the table and returns the identifier. The other games
    /// stay as they are.
    pub fn create_game(&mut self) -> (id: GameId)
        requires
            old(self).wf(),
        ensures
            final(self).wf(),
            final(self).has(id),
            id.is_random(),
            final(self).state(id).id == id,
            final(self).state(id).position == Position::initial(),
            final(self).state(id).result is None,
            final(self).state(id).end_reason is None,
            final(self).state(id).draw_offered_by is None,
            final(self).state(id).end_timestamp == 0,
            final(self).state(id).faithful(),
            final(self).games@ == old(self).games@.insert(id.value, final(self).games@[id.value]),
    {
        let game = Game::new();
        let id = game.id;
        self.games.insert(id.value, game);
        id
    }

    /// Puts the game of a stored raw archive into the table under the
    /// given identifier: the archive is read and replayed in full. Data
    /// that cannot be read or replayed is rejected and leaves the table as
    /// it was.
    pub fn restore_game(&mut self, id: GameId, data: &[u8]) -> (r: Result<usize, RestoreError>)
        requires
            old(self).wf(),
        ensures
            final(self).wf(),
            match r {
                Ok(n) => final(self).games@ == old(self).games@.insert(
                    id.value,
                    final(self).games@[id.value],
                ) && (parsed_archive(data@) matches Ok(a) && n == a.moves.len() && a.replayed(
                    a.moves.len() as int,
                ) == Ok::<GameState, ReplayFault>(final(self).state(id))),
                Err(RestoreError::Unreadable(e)) => parsed_archive(data@) == Err::<
                    ArchiveView,
                    ArchiveError,
                >(e) && final(self).games@ == old(self).games@,
                Err(RestoreError::Unplayable(e)) => final(self).games@ == old(self).games@ && (
                parsed_archive(data@) matches Ok(a) && a.replayed(a.moves.len() as int) == Err::<
                    GameState,
                    ReplayFault,
                >(e@)),
            },
    {
        let archive = match deserialize_game(data) {
            Ok(a) => a,
            Err(e) => {
                return Err(RestoreError::Unreadable(e));
            },
        };
        let game = match archive.replay_full() {
            Ok(g) => g,
            Err(e) => {
                return Err(RestoreError::Unplayable(e));
            },
        };
        let n = game.move_history.len();
        self.games.insert(id.value, game);
        Ok(n)
    }

    /// Returns the game under the identifier, if the table holds one.
    pub fn get_game(&self, id: &GameId) -> (r: Option<&Game>)
        ensures
            match r {
                Some(g) => self.has(*id) && *g == self.games@[id.value],
                None => !self.has(*id),
            },
    {
        self.games.get(&id.value)
    }

    /// Submits a move to the game under the identifier. The move is
    /// applied as `Game::make_move` applies it; a rejected move leaves the
    /// game as it was. The other games stay as they are.
    pub fn make_move(&mut self, id: &GameId, move_json: &MoveJson) -> (r: Result<(), ManagerError>)
        requires
            old(self).wf(),
        ensures
            final(self).wf(),
            forall|k: u128| k != id.value ==> final(self).games@.contains_key(k) == old(
                self,
            ).games@.contains_key(k) && final(self).games@[k] == old(self).games@[k],
            final(self).has(*id) == old(self).has(*id),
            match r {
                Ok(_) => old(self).has(*id) && (old(self).state(*id).move_outcome(move_json@)
                    matches Ok(mv) && exists|now: u64|
                    final(self).state(*id) == #[trigger] old(self).state(*id).after_move(
                        mv,
                        move_json@,
                        now,
                    )),
                Err(ManagerError::NotFound) => !old(self).has(*id),
                Err(ManagerError::Move(e)) => old(self).has(*id) && old(self).state(
                    *id,
                ).move_outcome(move_json@) == Err::<ChessMove, MoveFault>(e@) && final(self).state(
                    *id,
                ) == old(self).state(*id),
                Err(ManagerError::Action(_)) => false,
            },
            old(self).has(*id) && old(self).state(*id).faithful() ==> final(self).state(
                *id,
            ).faithful(),
    {
        let mut game = match self.games.remove(&id.value) {
            Some(g) => g,
            None => {
                return Err(ManagerError::NotFound);
            },
        };
        let r = game.make_move(move_json);
        self.games.insert(id.value, game);
        match r {
            Ok(_) => Ok(()),
            Err(e) => Err(ManagerError::Move(e)),
        }
    }

    /// Submits a special action to the game under the identifier. The
    /// action is carried out as `Game::process_action` does; a rejected
    /// action leaves the game as it was. The other games stay as they are.
    pub fn process_action(&mut self, id: &GameId, action: &ActionJson) -> (r: Result<
        (),
        ManagerError,
    >)
        requires
            old(self).wf(),
        ensures
            final(self).wf(),
            forall|k: u128| k != id.value ==> final(self).games@.contains_key(k) == old(
                self,
            ).games@.contains_key(k) && final(self).games@[k] == old(self).games@[k],
            final(self).has(*id) == old(self).has(*id),
            match r {
                Ok(_) => old(self).has(*id) && exists|now: u64| #[trigger]
                    old(self).state(*id).after_action(action@, now) == Ok::<
                        GameState,
                        ActionError,
                    >(final(self).state(*id)),
                Err(ManagerError::NotFound) => !old(self).has(*id),
                Err(ManagerError::Action(e)) => old(self).has(*id) && (forall|now: u64| #[trigger]
                    old(self).state(*id).after_action(action@, now) == Err::<
                        GameState,
                        ActionError,
                    >(e)) && final(self).state(*id) == old(self).state(*id),
                Err(_) => false,
            },
    {
        let mut game = match self.games.remove(&id.value) {
            Some(g) => g,
            None => {
                return Err(ManagerError::NotFound);
            },
        };
        let r = game.process_action(action);
        self.games.insert(id.value, game);
        match r {
            Ok(_) => Ok(()),
            Err(e) => Err(ManagerError::Action(e)),
        }
    }

    /// Says what is to be written to storage for the game under the
    /// identifier: the compressed archive if the game has ended, the raw
    /// archive if it goes on, or why the archive cannot be written. `None`
    /// if the table holds no such game.
    pub fn persist_game(&self, id: &GameId) -> (r: Option<Result<PersistStep, ArchiveError>>)
        ensures
            r is None <==> !self.has(*id),
            r matches Some(step) ==> if self.state(*id).result is Some {
                match compressed_archive(self.state(*id)) {
                    Ok(c) => (step matches Ok(PersistStep::Archive { compressed }) && compressed@
                        == c) && (archive_bytes(self.state(*id)) matches Ok(raw) && zstd_decoded(c)
                        == Some(raw)),
                    Err(e) => step == Err::<PersistStep, ArchiveError>(e),
                }
            } else {
                match archive_bytes(self.state(*id)) {
                    Ok(bytes) => step matches Ok(PersistStep::SaveActive { raw }) && raw@
                        == bytes,
                    Err(e) => step == Err::<PersistStep, ArchiveError>(e),
                }
            },
    {
        match self.games.get(&id.value) {
            None => None,
            Some(game) => {
                if game.is_over() {
                    match compress_game(game) {
                        Ok(compressed) => Some(Ok(PersistStep::Archive { compressed })),
                        Err(e) => Some(Err(e)),
                    }
                } else {
                    match serialize_game(game) {
                        Ok(raw) => Some(Ok(PersistStep::SaveActive { raw })),
                        Err(e) => Some(Err(e)),
                    }
                }
            },
        }
    }

    /// Removes the game under the identifier from the table. Returns
    /// whether there was one. Archived games are not touched.
    pub fn delete_game(&mut self, id: &GameId) -> (r: bool)
        requires
            old(self).wf(),
        ensures
            final(self).wf(),
            r == old(self).has(*id),
            final(self).games@ == old(self).games@.remove(id.value),
    {
        self.games.remove(&id.value).is_some()
    }

    /// Returns the identifiers of all games of the table, each once, in no
    /// particular order.
    pub fn list_game_ids(&self) -> (r: Vec<GameId>)
        ensures
            r@.no_duplicates(),
            forall|id: GameId| r@.contains(id) <==> self.has(id),
    {
        let mut out: Vec<GameId> = Vec::new();
        let ghost keys = vstd::std_specs::hash::spec_keys_iter(&self.games).remaining();
        for k in it: self.games.keys()
            invariant
                out@.len() == it.index(),
                it.seq() == keys,
                keys.no_duplicates(),
                keys.unref().to_set() == self.games@.dom(),
                forall|j: int| 0 <= j < out@.len() ==> out@[j].value == *keys[j],
        {
            out.push(GameId { value: *k });
        }
        proof {
            assert forall|a: int, b: int|
                0 <= a < out@.len() && 0 <= b < out@.len() && a != b implies out@[a] != out@[b] by {
                assert(keys[a] != keys[b]);
            }
            assert forall|id: GameId| out@.contains(id) <==> self.has(id) by {
                if out@.contains(id) {
                    let j = choose|j: int| 0 <= j < out@.len() && out@[j] == id;
                    assert(keys.unref()[j] == id.value);
                    assert(keys.unref().to_set().contains(id.value));
                }
                if self.has(id) {
                    assert(keys.unref().to_set().contains(id.value));
                    let j = choose|j: int| 0 <= j < keys.unref().len() && keys.unref()[j] == id.value;
                    assert(out@[j] == id);
                }
            }
        }
        out
    }
}

} // verus!
