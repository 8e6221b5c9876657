//! The event hub: the registry of streaming sessions and of their
//! subscriptions to games, and the fan-out of a game's events to its
//! subscribers.
//!
//! The hub decides who receives what; delivering a text to a session is
//! left to the caller, which holds the sessions' handles.

use crate::ident::GameId;
use crate::json::{json_compact, json_compacted, json_quote, json_quoted};
use std::collections::HashSet;
use vstd::prelude::*;

verus! {

broadcast use vstd::std_specs::hash::group_hash_axioms;

/// The identifier of a streaming session.
#[derive(Debug, Clone, Copy, PartialEq, Eq, Hash, Structural)]
pub struct SessionId {
    pub value: u128,
}

/// A session registers itself with the hub.
#[derive(Debug, Clone, Copy, PartialEq, Eq, Structural)]
pub struct Connect {
    pub session_id: SessionId,
}

/// A session leaves the hub.
#[derive(Debug, Clone, Copy, PartialEq, Eq, Structural)]
pub struct Disconnect {
    pub session_id: SessionId,
}

/// A session subscribes to the events of a game.
#[derive(Debug, Clone, Copy, PartialEq, Eq, Structural)]
pub struct Subscribe {
    pub session_id: SessionId,
    pub game_id: GameId,
}

/// A session ends its subscription to the events of a game.
#[derive(Debug, Clone, Copy, PartialEq, Eq, Structural)]
pub struct Unsubscribe {
    pub session_id: SessionId,
    pub game_id: GameId,
}

/// An event of a game, to be sent to the game's subscribers.
#[derive(Debug, Clone, PartialEq, Eq)]
pub struct BroadcastEvent {
    /// The game that the event is about.
    pub game_id: GameId,
    /// The event's name, such as `game_updated`.
    pub event: String,
    /// The event's data, as JSON text.
    pub payload: String,
}

/// A text frame for one session.
#[derive(Debug, Clone, PartialEq, Eq)]
pub struct WsText(pub String);

/// A text frame and the session that is to receive it.
#[derive(Debug, Clone, PartialEq, Eq)]
pub struct Delivery {
    pub session_id: SessionId,
    pub text: WsText,
}

/// The frame that announces an event: a JSON object with the members
/// `data` (the payload's value, or `null` where the payload is not JSON),
/// `event`, `game_id` and `type`, which is `"event"`.
pub open spec fn event_frame(event: Seq<char>, game_id: GameId, payload: Seq<char>) -> Seq<char> {
    "{\"data\":"@ + (match json_compacted(payload) {
        Some(d) => d,
        None => "null"@,
    }) + ",\"event\":"@ + json_quoted(event) + ",\"game_id\":"@ + json_quoted(game_id.text())
        + ",\"type\":\"event\"}"@
}

/// Builds the frame that announces an event to a subscriber.
pub fn build_event_json(event: &str, game_id: &GameId, payload: &str) -> (r: String)
    ensures
        r@ == event_frame(event@, *game_id, payload@),
{
    let mut out = String::new();
    out.append("{\"data\":");
    match json_compact(payload) {
        Some(d) => {
            out.append(d.as_str());
        },
        None => {
            out.append("null");
        },
    }
    out.append(",\"event\":");
    let e = json_quote(event);
    out.append(e.as_str());
    out.append(",\"game_id\":");
    let id_text = game_id.to_string();
    let id = json_quote(id_text.as_str());
    out.append(id.as_str());
    out.append(",\"type\":\"event\"}");
    assert(out@ =~= event_frame(event@, *game_id, payload@));
    out
}

/// The text of an optional request identifier as JSON: the identifier as a
/// string literal, or `null`.
pub open spec fn request_id_json(request_id: Option<Seq<char>>) -> Seq<char> {
    match request_id {
        Some(id) => json_quoted(id),
        None => "null"@,
    }
}

/// The frame that answers a request with success: a JSON object with the
/// members `action`, `data` (the data's value, or `null` where the data is
/// not JSON), `request_id`, `success`, which is `true`, and `type`, which
/// is `"response"`.
pub open spec fn response_frame(
    action: Seq<char>,
    request_id: Option<Seq<char>>,
    data: Seq<char>,
) -> Seq<char> {
    "{\"action\":"@ + json_quoted(action) + ",\"data\":"@ + (match json_compacted(data) {
        Some(d) => d,
        None => "null"@,
    }) + ",\"request_id\":"@ + request_id_json(request_id)
        + ",\"success\":true,\"type\":\"response\"}"@
}

/// The frame that answers a request with an error: a JSON object with the
/// members `action`, `error`, `request_id`, `success`, which is `false`,
/// and `type`, which is `"response"`.
pub open spec fn error_frame(
    action: Seq<char>,
    request_id: Option<Seq<char>>,
    error: Seq<char>,
) -> Seq<char> {
    "{\"action\":"@ + json_quoted(action) + ",\"error\":"@ + json_quoted(error)
        + ",\"request_id\":"@ + request_id_json(request_id)
        + ",\"success\":false,\"type\":\"response\"}"@
}

/// Appends an optional request identifier as JSON.
fn push_request_id(out: &mut String, request_id: &Option<String>)
    ensures
        final(out)@ == old(out)@ + request_id_json(
            match request_id {
                Some(id) => Some(id@),
                None => None,
            },
        ),
{
    match request_id {
        Some(id) => {
            let q = json_quote(id.as_str());
            out.append(q.as_str());
        },
        None => {
            out.append("null");
        },
    }
}

/// Builds the frame that answers a request with success. `data` is the
/// answer's content as JSON text.
pub fn build_response(action: &str, request_id: &Option<String>, data: &str) -> (r: String)
    ensures
        r@ == response_frame(
            action@,
            match request_id {
                Some(id) => Some(id@),
                None => None,
            },
            data@,
        ),
{
    let mut out = String::new();
    out.append("{\"action\":");
    let a = json_quote(action);
    out.append(a.as_str());
    out.append(",\"data\":");
    match json_compact(data) {
        Some(d) => {
            out.append(d.as_str());
        },
        None => {
            out.append("null");
        },
    }
    out.append(",\"request_id\":");
    push_request_id(&mut out, request_id);
    out.append(",\"success\":true,\"type\":\"response\"}");
    assert(out@ =~= response_frame(
        action@,
        match request_id {
            Some(id) => Some(id@),
            None => None,
        },
        data@,
    ));
    out
}

/// Builds the frame that answers a request with an error.
pub fn build_error_response(action: &str, request_id: &Option<String>, error: &str) -> (r: String)
    ensures
        r@ == error_frame(
            action@,
            match request_id {
                Some(id) => Some(id@),
                None => None,
            },
            error@,
        ),
{
    let mut out = String::new();
    out.append("{\"action\":");
    let a = json_quote(action);
    out.append(a.as_str());
    out.append(",\"error\":");
    let e = json_quote(error);
    out.append(e.as_str());
    out.append(",\"request_id\":");
    push_request_id(&mut out, request_id);
    out.append(",\"success\":false,\"type\":\"response\"}");
    assert(out@ =~= error_frame(
        action@,
        match request_id {
            Some(id) => Some(id@),
            None => None,
        },
        error@,
    ));
    out
}

/// One subscription: a session that receives the events of a game.
#[derive(Debug, Clone, Copy, PartialEq, Eq, Structural)]
pub struct Subscription {
    pub game_id: GameId,
    pub session_id: SessionId,
}

/// The hub's state as a mathematical value: the connected sessions and the
/// subscriptions.
pub struct HubState {
    pub sessions: Set<SessionId>,
    pub subscriptions: Set<Subscription>,
}

impl HubState {
    /// The sessions that receive the events of a game: its subscribers
    /// that are connected.
    pub open spec fn recipients(self, game_id: GameId) -> Set<SessionId> {
        Set::new(
            |s: SessionId|
                self.sessions.contains(s) && self.subscriptions.contains(
                    Subscription { game_id, session_id: s },
                ),
        )
    }
}

/// The sessions of a list of deliveries.
pub open spec fn delivered_to(d: Seq<Delivery>) -> Seq<SessionId> {
    Seq::new(d.len(), |i: int| d[i].session_id)
}

/// Whether a subscription is among those to be dropped: those of a
/// session, to one game if `game` names one, else to all games.
pub open spec fn dropped(e: Subscription, session: SessionId, game: Option<GameId>) -> bool {
    e.session_id == session && (game matches Some(g) ==> e.game_id == g)
}

/// The hub that keeps the sessions and their subscriptions.
pub struct GameBroadcaster {
    sessions: HashSet<u128>,
    subscriptions: Vec<Subscription>,
}

impl View for GameBroadcaster {
    type V = HubState;

    closed spec fn view(&self) -> HubState {
        HubState {
            sessions: Set::new(|s: SessionId| self.sessions@.contains(s.value)),
            subscriptions: Set::new(|e: Subscription| self.subscriptions@.contains(e)),
        }
    }
}

impl GameBroadcaster {
    /// No subscription is held twice.
    pub closed spec fn wf(&self) -> bool {
        self.subscriptions@.no_duplicates()
    }

    /// Creates a hub without sessions and subscriptions.
    pub fn new() -> (r: GameBroadcaster)
        ensures
            r.wf(),
            r@.sessions == Set::<SessionId>::empty(),
            r@.subscriptions == Set::<Subscription>::empty(),
    {
        let r = GameBroadcaster { sessions: HashSet::new(), subscriptions: Vec::new() };
        assert(r@.sessions =~= Set::<SessionId>::empty());
        assert(r@.subscriptions =~= Set::<Subscription>::empty());
        r
    }

    /// Registers a session.
    pub fn connect(&mut self, msg: Connect)
        requires
            old(self).wf(),
        ensures
            final(self).wf(),
            final(self)@.sessions == old(self)@.sessions.insert(msg.session_id),
            final(self)@.subscriptions == old(self)@.subscriptions,
    {
        self.sessions.insert(msg.session_id.value);
        assert(self@.sessions =~= old(self)@.sessions.insert(msg.session_id));
    }

    /// Tells whether a session is registered.
    pub fn is_connected(&self, session_id: SessionId) -> (r: bool)
        ensures
            r == self@.sessions.contains(session_id),
    {
        self.sessions.contains(&session_id.value)
    }

    /// Tells whether a session is subscribed to a game.
    pub fn is_subscribed(&self, session_id: SessionId, game_id: GameId) -> (r: bool)
        ensures
            r == self@.subscriptions.contains(Subscription { game_id, session_id }),
    {
        let mut i: usize = 0;
        while i < self.subscriptions.len()
            invariant
                i <= self.subscriptions.len(),
                forall|j: int|
                    0 <= j < i ==> self.subscriptions@[j] != (Subscription { game_id, session_id }),
            decreases self.subscriptions.len() - i,
        {
            let e = self.subscriptions[i];
            if e.game_id.value == game_id.value && e.session_id.value == session_id.value {
                return true;
            }
            i = i + 1;
        }
        false
    }

    /// Drops the subscriptions of a session: to one game if `game` names
    /// one, else to all.
    fn drop_subscriptions(&mut self, session: SessionId, game: Option<GameId>)
        requires
            old(self).wf(),
        ensures
            final(self).wf(),
            final(self).sessions == old(self).sessions,
            forall|e: Subscription|
                final(self).subscriptions@.contains(e) <==> old(self).subscriptions@.contains(e)
                    && !dropped(e, session, game),
    {
        let mut kept: Vec<Subscription> = Vec::new();
        let mut i: usize = 0;
        while i < self.subscriptions.len()
            invariant
                i <= self.subscriptions.len(),
                self.subscriptions@.no_duplicates(),
                self.subscriptions == old(self).subscriptions,
                self.sessions == old(self).sessions,
                kept@.no_duplicates(),
                forall|k: int|
                    0 <= k < kept@.len() ==> !dropped(#[trigger] kept@[k], session, game)
                        && exists|j: int| 0 <= j < i && self.subscriptions@[j] == kept@[k],
                forall|j: int|
                    0 <= j < i && !dropped(#[trigger] self.subscriptions@[j], session, game)
                        ==> kept@.contains(self.subscriptions@[j]),
            decreases self.subscriptions.len() - i,
        {
            let e = self.subscriptions[i];
            let matches_game = match game {
                Some(g) => e.game_id.value == g.value,
                None => true,
            };
            if !(e.session_id.value == session.value && matches_game) {
                let ghost before = kept@;
                kept.push(e);
                proof {
                    assert forall|k: int| 0 <= k < before.len() implies before[k] != e by {
                        let j = choose|j: int| 0 <= j < i && self.subscriptions@[j] == before[k];
                        assert(self.subscriptions@[j] != self.subscriptions@[i as int]);
                    }
                    assert forall|j: int|
                        0 <= j < i + 1 && !dropped(
                            #[trigger] self.subscriptions@[j],
                            session,
                            game,
                        ) implies kept@.contains(self.subscriptions@[j]) by {
                        if j < i {
                            let k = choose|k: int|
                                0 <= k < before.len() && before[k] == self.subscriptions@[j];
                            assert(kept@[k] == self.subscriptions@[j]);
                        } else {
                            assert(kept@[before.len() as int] == e);
                        }
                    }
                    assert forall|k: int| 0 <= k < kept@.len() implies !dropped(
                        #[trigger] kept@[k],
                        session,
                        game,
                    ) && exists|j: int| 0 <= j < i + 1 && self.subscriptions@[j] == kept@[k] by {
                        if k < before.len() {
                            assert(kept@[k] == before[k]);
                            let j = choose|j: int|
                                0 <= j < i && self.subscriptions@[j] == before[k];
                            assert(self.subscriptions@[j] == kept@[k]);
                        } else {
                            assert(self.subscriptions@[i as int] == kept@[k]);
                        }
                    }
                }
            }
            i = i + 1;
        }
        self.subscriptions = kept;
    }

    /// Unregisters a session and ends all its subscriptions.
    pub fn disconnect(&mut self, msg: Disconnect)
        requires
            old(self).wf(),
        ensures
            final(self).wf(),
            final(self)@.sessions == old(self)@.sessions.remove(msg.session_id),
            final(self)@.subscriptions == old(self)@.subscriptions.filter(
                |e: Subscription| e.session_id != msg.session_id,
            ),
    {
        self.sessions.remove(&msg.session_id.value);
        self.drop_subscriptions(msg.session_id, None);
        assert(self@.sessions =~= old(self)@.sessions.remove(msg.session_id));
        assert forall|e: Subscription|
            self@.subscriptions.contains(e) <==> old(self)@.subscriptions.contains(e)
                && e.session_id != msg.session_id by {
            assert(dropped(e, msg.session_id, None) <==> e.session_id == msg.session_id);
            assert(self@.subscriptions.contains(e) <==> self.subscriptions@.contains(e));
            assert(old(self)@.subscriptions.contains(e) <==> old(self).subscriptions@.contains(e));
        }
        assert(self@.subscriptions =~= old(self)@.subscriptions.filter(
            |e: Subscription| e.session_id != msg.session_id,
        ));
    }

    /// Subscribes a session to a game. The session need not be registered
    /// yet; it receives events once it is.
    pub fn subscribe(&mut self, msg: Subscribe)
        requires
            old(self).wf(),
        ensures
            final(self).wf(),
            final(self)@.sessions == old(self)@.sessions,
            final(self)@.subscriptions == old(self)@.subscriptions.insert(
                Subscription { game_id: msg.game_id, session_id: msg.session_id },
            ),
    {
        let e = Subscription { game_id: msg.game_id, session_id: msg.session_id };
        if !self.is_subscribed(msg.session_id, msg.game_id) {
            let ghost before = self.subscriptions@;
            self.subscriptions.push(e);
            proof {
                assert forall|x: Subscription|
                    self.subscriptions@.contains(x) <==> before.contains(x) || x == e by {
                    if before.contains(x) {
                        let k = choose|k: int| 0 <= k < before.len() && before[k] == x;
                        assert(self.subscriptions@[k] == x);
                    }
                    if x == e {
                        assert(self.subscriptions@[before.len() as int] == x);
                    }
                }
            }
        }
        assert(self@.subscriptions =~= old(self)@.subscriptions.insert(e));
    }

    /// Ends the subscription of a session to a game.
    pub fn unsubscribe(&mut self, msg: Unsubscribe)
        requires
            old(self).wf(),
        ensures
            final(self).wf(),
            final(self)@.sessions == old(self)@.sessions,
            final(self)@.subscriptions == old(self)@.subscriptions.remove(
                Subscription { game_id: msg.game_id, session_id: msg.session_id },
            ),
    {
        self.drop_subscriptions(msg.session_id, Some(msg.game_id));
        let ghost gone = Subscription { game_id: msg.game_id, session_id: msg.session_id };
        assert forall|e: Subscription|
            self@.subscriptions.contains(e) <==> old(self)@.subscriptions.contains(e) && e
                != gone by {
            assert(dropped(e, msg.session_id, Some(msg.game_id)) <==> e == gone);
            assert(self@.subscriptions.contains(e) <==> self.subscriptions@.contains(e));
            assert(old(self)@.subscriptions.contains(e) <==> old(self).subscriptions@.contains(e));
        }
        assert(self@.subscriptions =~= old(self)@.subscriptions.remove(gone));
    }

    /// Returns the frames that an event gives rise to: one for every
    /// registered session that is subscribed to the event's game, each
    /// with the event's frame as its text. An event of a game without
    /// subscribers gives none.
    pub fn broadcast(&self, msg: &BroadcastEvent) -> (r: Vec<Delivery>)
        requires
            self.wf(),
        ensures
            delivered_to(r@).no_duplicates(),
            delivered_to(r@).to_set() == self@.recipients(msg.game_id),
            forall|i: int|
                0 <= i < r@.len() ==> (#[trigger] r@[i]).text.0@ == event_frame(
                    msg.event@,
                    msg.game_id,
                    msg.payload@,
                ),
    {
        let mut out: Vec<Delivery> = Vec::new();
        let mut i: usize = 0;
        let ghost frame = event_frame(msg.event@, msg.game_id, msg.payload@);
        while i < self.subscriptions.len()
            invariant
                i <= self.subscriptions.len(),
                self.subscriptions@.no_duplicates(),
                frame == event_frame(msg.event@, msg.game_id, msg.payload@),
                forall|k: int| 0 <= k < out@.len() ==> (#[trigger] out@[k]).text.0@ == frame,
                forall|k: int|
                    0 <= k < out@.len() ==> self.sessions@.contains(
                        (#[trigger] out@[k]).session_id.value,
                    ) && exists|j: int|
                        0 <= j < i && self.subscriptions@[j] == (Subscription {
                            game_id: msg.game_id,
                            session_id: out@[k].session_id,
                        }),
                forall|j: int|
                    0 <= j < i && (#[trigger] self.subscriptions@[j]).game_id == msg.game_id
                        && self.sessions@.contains(self.subscriptions@[j].session_id.value)
                        ==> exists|k: int|
                        0 <= k < out@.len() && out@[k].session_id
                            == self.subscriptions@[j].session_id,
                delivered_to(out@).no_duplicates(),
            decreases self.subscriptions.len() - i,
        {
            let e = self.subscriptions[i];
            if e.game_id.value == msg.game_id.value && self.sessions.contains(
                &e.session_id.value,
            ) {
                let ghost before = out@;
                let text = build_event_json(msg.event.as_str(), &msg.game_id, msg.payload.as_str());
                out.push(Delivery { session_id: e.session_id, text: WsText(text) });
                proof {
                    assert forall|k: int| 0 <= k < before.len() implies before[k].session_id
                        != e.session_id by {
                        let j = choose|j: int|
                            0 <= j < i && self.subscriptions@[j] == (Subscription {
                                game_id: msg.game_id,
                                session_id: before[k].session_id,
                            });
                        assert(self.subscriptions@[j] != self.subscriptions@[i as int]);
                    }
                    assert forall|a: int, b: int|
                        0 <= a < out@.len() && 0 <= b < out@.len() && a != b implies delivered_to(
                        out@,
                    )[a] != delivered_to(out@)[b] by {
                        if a < before.len() && b < before.len() {
                            assert(delivered_to(before)[a] != delivered_to(before)[b]);
                        }
                    }
                    assert forall|k: int| 0 <= k < out@.len() implies self.sessions@.contains(
                        (#[trigger] out@[k]).session_id.value,
                    ) && exists|j: int|
                        0 <= j < i + 1 && self.subscriptions@[j] == (Subscription {
                            game_id: msg.game_id,
                            session_id: out@[k].session_id,
                        }) by {
                        if k < before.len() {
                            assert(out@[k] == before[k]);
                            let j = choose|j: int|
                                0 <= j < i && self.subscriptions@[j] == (Subscription {
                                    game_id: msg.game_id,
                                    session_id: before[k].session_id,
                                });
                            assert(self.subscriptions@[j] == (Subscription {
                                game_id: msg.game_id,
                                session_id: out@[k].session_id,
                            }));
                        } else {
                            assert(self.subscriptions@[i as int] == (Subscription {
                                game_id: msg.game_id,
                                session_id: out@[k].session_id,
                            }));
                        }
                    }
                    assert forall|j: int|
                        0 <= j < i + 1 && (#[trigger] self.subscriptions@[j]).game_id
                            == msg.game_id && self.sessions@.contains(
                            self.subscriptions@[j].session_id.value,
                        ) implies exists|k: int|
                        0 <= k < out@.len() && out@[k].session_id
                            == self.subscriptions@[j].session_id by {
                        if j < i {
                            let k = choose|k: int|
                                0 <= k < before.len() && before[k].session_id
                                    == self.subscriptions@[j].session_id;
                            assert(out@[k].session_id == self.subscriptions@[j].session_id);
                        } else {
                            assert(out@[before.len() as int].session_id
                                == self.subscriptions@[j].session_id);
                        }
                    }
                }
            }
            i = i + 1;
        }
        proof {
            let got = delivered_to(out@).to_set();
            let want = self@.recipients(msg.game_id);
            assert forall|s: SessionId| got.contains(s) <==> want.contains(s) by {
                if got.contains(s) {
                    let k = choose|k: int|
                        0 <= k < delivered_to(out@).len() && delivered_to(out@)[k] == s;
                    assert(out@[k].session_id == s);
                }
                if want.contains(s) {
                    let e = Subscription { game_id: msg.game_id, session_id: s };
                    let j = choose|j: int|
                        0 <= j < self.subscriptions@.len() && self.subscriptions@[j] == e;
                    let k = choose|k: int|
                        0 <= k < out@.len() && out@[k].session_id
                            == self.subscriptions@[j].session_id;
                    assert(delivered_to(out@)[k] == s);
                }
            }
            assert(got =~= want);
        }
        out
    }
}

} // verus!
