//! The connection handshake: presented credentials resolve to exactly one
//! participant identity, and the resulting session is registered with the
//! room. The network edge only parses the query string and swaps channel
//! handles; every decision is made here.

use crate::connection::{EntryView, PlayerEntry, PlayerToken};
use crate::game::{GameState, ResponseView, RoomResponse};
use crate::host::HostEntry;
use crate::messages::{EventView, GameEvent};
use crate::player::{Player, PlayerId};
use crate::room::{
    find_player, game_state_event, lemma_find_player_from, player_list_event, Room, RoomView,
};
use vstd::prelude::*;

verus! {

/// The credentials a connection presents: a secret token (host or player,
/// as 128 bits), a display name for first joins, and a player id for
/// reconnects.
pub struct WsQuery {
    pub token: Option<u128>,
    pub player_name: Option<String>,
    pub player_id: Option<PlayerId>,
}

/// The room a request addresses.
pub struct RoomParams {
    pub code: String,
}

/// The one identity a successful handshake resolves to.
#[derive(Debug)]
pub enum AuthenticatedUser {
    /// The host of a game.
    Host,
    /// A brand new player who needs to be registered.
    NewPlayer { name: String },
    /// A returning player that has been verified by id and token.
    ExistingPlayer { pid: PlayerId },
}

/// Why a handshake was rejected.
#[derive(Clone, Copy, Debug, PartialEq, Eq, Structural)]
pub enum HandshakeError {
    /// A token was presented but matches neither the host's secret nor any
    /// player's id-and-token pair.
    InvalidToken,
    /// Neither a token nor a display name was presented.
    MissingCredentials,
}

/// Whether some player entry carries both this id and this token.
pub open spec fn credentials_match(players: Seq<EntryView>, pid: PlayerId, token: u128) -> bool {
    exists|k: int|
        0 <= k < players.len() && (#[trigger] players[k]).player.pid == pid && players[k].player.token
            == token
}

/// Resolves the presented credentials, in priority order: a token matching
/// the room's host secret makes the host; a token plus player id matching
/// one entry makes that returning player; a bare display name makes a new
/// player; anything else is rejected before the room is touched.
#[verifier::loop_isolation(false)]
pub fn perform_handshake(room: &Room, query: &WsQuery) -> (r: Result<
    AuthenticatedUser,
    HandshakeError,
>)
    ensures
        match query.token {
            Some(t) => {
                if room@.host_token == t {
                    r == Ok::<AuthenticatedUser, HandshakeError>(AuthenticatedUser::Host)
                } else if (query.player_id is Some && credentials_match(
                    room@.players,
                    query.player_id->0,
                    t,
                )) {
                    r == Ok::<AuthenticatedUser, HandshakeError>(
                        AuthenticatedUser::ExistingPlayer { pid: query.player_id->0 },
                    )
                } else {
                    r == Err::<AuthenticatedUser, HandshakeError>(HandshakeError::InvalidToken)
                }
            },
            None => match query.player_name {
                Some(_) => r matches Ok(AuthenticatedUser::NewPlayer { name }) && name@
                    == query.player_name->0@,
                None => r == Err::<AuthenticatedUser, HandshakeError>(
                    HandshakeError::MissingCredentials,
                ),
            },
        },
{
    if let Some(provided_token) = query.token {
        if room.host_token.matches(provided_token) {
            return Ok(AuthenticatedUser::Host);
        }
        if let Some(pid) = query.player_id {
            let mut k: usize = 0;
            while k < room.players.len()
                invariant
                    k <= room.players@.len(),
                    forall|j: int|
                        0 <= j < k ==> !((#[trigger] room@.players[j]).player.pid == pid
                            && room@.players[j].player.token == provided_token),
                decreases room.players@.len() - k,
            {
                if room.players[k].player.pid == pid && room.players[k].player.token.matches(
                    provided_token,
                ) {
                    proof {
                        assert(room@.players[k as int].player.pid == pid
                            && room@.players[k as int].player.token == provided_token);
                        assert(credentials_match(room@.players, pid, provided_token));
                    }
                    return Ok(AuthenticatedUser::ExistingPlayer { pid });
                }
                k = k + 1;
            }
        }
        return Err(HandshakeError::InvalidToken);
    }
    if let Some(name) = &query.player_name {
        return Ok(AuthenticatedUser::NewPlayer { name: name.clone() });
    }
    Err(HandshakeError::MissingCredentials)
}

/// The events a freshly registered host is owed: the roster, and the game
/// state if play has begun.
pub open spec fn host_session_response(post: RoomView) -> ResponseView {
    ResponseView {
        to_host: if post.state != GameState::Start {
            seq![player_list_event(post), game_state_event(post)]
        } else {
            seq![player_list_event(post)]
        },
        to_players: Seq::empty(),
        to_specific: Seq::empty(),
    }
}

/// The events a reconnecting player is owed: their own state, and the game
/// state if play has begun.
pub open spec fn reconnect_response(post: RoomView, pid: PlayerId) -> ResponseView {
    let i = find_player(post.players, pid)->0;
    let ps = crate::room::player_state_event(post, i);
    ResponseView {
        to_host: Seq::empty(),
        to_players: Seq::empty(),
        to_specific: if post.state != GameState::Start {
            seq![(pid, ps), (pid, game_state_event(post))]
        } else {
            seq![(pid, ps)]
        },
    }
}

/// Game-state events for the first `upto` players, skipping the one who
/// just joined.
pub open spec fn others_game_state_upto(
    players: Seq<EntryView>,
    upto: int,
    new_id: PlayerId,
    post: RoomView,
) -> Seq<(PlayerId, EventView)>
    decreases upto,
{
    if upto <= 0 {
        Seq::empty()
    } else {
        let prefix = others_game_state_upto(players, upto - 1, new_id, post);
        if players[upto - 1].player.pid != new_id {
            prefix.push((players[upto - 1].player.pid, game_state_event(post)))
        } else {
            prefix
        }
    }
}

/// Game-state events for every player other than the one who just joined.
pub open spec fn others_game_state(post: RoomView, new_id: PlayerId) -> Seq<(
    PlayerId,
    EventView,
)> {
    others_game_state_upto(post.players, post.players.len() as int, new_id, post)
}

/// The events a first join produces: credentials and own state to the new
/// player, the roster to the host, and — once play has begun — the game
/// state to everyone. Host-addressed events are dropped by the dispatcher
/// while no host is connected.
pub open spec fn join_response(post: RoomView, new_id: PlayerId, token: u128) -> ResponseView {
    let own = seq![
        (new_id, EventView::NewPlayer { pid: new_id, token }),
        (
            new_id,
            EventView::PlayerState {
                pid: new_id,
                buzzed: false,
                score: 0,
                can_buzz: post.state == GameState::WaitingForBuzz,
            },
        ),
    ];
    if post.state != GameState::Start {
        ResponseView {
            to_host: seq![game_state_event(post), player_list_event(post)],
            to_players: Seq::empty(),
            to_specific: own + seq![(new_id, game_state_event(post))] + others_game_state(
                post,
                new_id,
            ),
        }
    } else {
        ResponseView {
            to_host: seq![player_list_event(post)],
            to_players: Seq::empty(),
            to_specific: own,
        }
    }
}

/// The entry a first join adds to the room.
pub open spec fn fresh_entry(new_id: PlayerId, name: Seq<char>, token: u128) -> EntryView {
    EntryView {
        player: crate::player::PlayerView { pid: new_id, name, score: 0, buzzed: false, token },
        status: crate::connection::ConnectionStatus::Connected,
        latencies: seq![0u32, 0u32, 0u32, 0u32, 0u32],
        pending: Seq::empty(),
        hbid_counter: 0,
    }
}

/// Authenticates a connection against the room and registers the session:
/// the host is recorded, a returning player keeps their entry, a first
/// join appends one with a fresh secret token. Returns the participant's
/// id and the addressed events the edge must deliver; the edge itself only
/// swaps in the new outbound channel under the same lock.
#[verifier::loop_isolation(false)]
pub fn setup_session(room: &mut Room, query: &WsQuery) -> (r: Result<
    (PlayerId, RoomResponse),
    HandshakeError,
>)
    requires
        old(room)@.wf(),
        old(room)@.players.len() < u32::MAX,
    ensures
        final(room)@.wf(),
        ({
            let pre = old(room)@;
            match query.token {
                Some(t) => {
                    if pre.host_token == t {
                        &&& final(room)@ == (RoomView {
                            host: Some(HostEntry { pid: 0 }),
                            ..pre
                        })
                        &&& r matches Ok((pid, resp)) && pid == 0 && resp@
                            == host_session_response(final(room)@)
                    } else if (query.player_id is Some && credentials_match(
                        pre.players,
                        query.player_id->0,
                        t,
                    )) {
                        &&& final(room)@ == pre
                        &&& r matches Ok((pid2, resp)) && Some(pid2) == query.player_id && resp@
                            == reconnect_response(final(room)@, pid2)
                    } else {
                        final(room)@ == pre && r matches Err(HandshakeError::InvalidToken)
                    }
                },
                None => match query.player_name {
                    Some(_) => {
                        let new_id = (pre.players.len() + 1) as u32;
                        let t = final(room)@.players.last().player.token;
                        &&& final(room)@ == (RoomView {
                            players: pre.players.push(
                                fresh_entry(new_id, query.player_name->0@, t),
                            ),
                            ..pre
                        })
                        &&& r matches Ok((pid, resp)) && pid == new_id && resp@ == join_response(
                            final(room)@,
                            new_id,
                            t,
                        )
                    },
                    None => final(room)@ == pre && r matches Err(
                        HandshakeError::MissingCredentials,
                    ),
                },
            }
        }),
{
    let auth = match perform_handshake(room, query) {
        Ok(a) => a,
        Err(e) => {
            return Err(e);
        },
    };
    match auth {
        AuthenticatedUser::Host => {
            room.host = Some(HostEntry { pid: 0 });
            proof {
                assert(room@ =~= (RoomView { host: Some(HostEntry { pid: 0 }), ..old(room)@ }));
            }
            let mut resp = RoomResponse::new();
            let list = room.build_player_list_msg();
            resp.messages_to_host.push(list);
            let started = match room.state {
                GameState::Start => false,
                _ => true,
            };
            if started {
                let gs = room.build_game_state_msg();
                resp.messages_to_host.push(gs);
            }
            proof {
                assert(resp@ =~= host_session_response(room@));
            }
            Ok((0, resp))
        },
        AuthenticatedUser::ExistingPlayer { pid } => {
            proof {
                lemma_find_player_from(room@.players, pid, 0);
            }
            let msg = match room.build_player_state_msg(pid) {
                Some(m) => m,
                None => {
                    // The handshake proved this player exists, so the
                    // lookup cannot miss; the arm is provably dead.
                    proof {
                        assert(false);
                    }
                    return Err(HandshakeError::InvalidToken);
                },
            };
            let mut resp = RoomResponse::new();
            resp.messages_to_specific.push((pid, msg));
            let started = match room.state {
                GameState::Start => false,
                _ => true,
            };
            if started {
                let gs = room.build_game_state_msg();
                resp.messages_to_specific.push((pid, gs));
            }
            proof {
                assert(resp@ =~= reconnect_response(room@, pid));
            }
            Ok((pid, resp))
        },
        AuthenticatedUser::NewPlayer { name } => {
            let new_id: PlayerId = (room.players.len() + 1) as u32;
            let token = PlayerToken::generate();
            let ghost name_view = name@;
            let entry = PlayerEntry::new(Player::new(new_id, name, 0, false, token));
            room.players.push(entry);
            proof {
                assert(room@.players =~= old(room)@.players.push(
                    fresh_entry(new_id, name_view, token@),
                ));
                assert(room@ =~= (RoomView {
                    players: old(room)@.players.push(fresh_entry(new_id, name_view, token@)),
                    ..old(room)@
                }));
                assert forall|k: int| 0 <= k < room@.players.len() implies (
                #[trigger] room@.players[k]).wf() by {
                    if k < old(room)@.players.len() {
                        assert(room@.players[k] == old(room)@.players[k]);
                    }
                }
            }
            let mut resp = RoomResponse::new();
            resp.messages_to_specific.push(
                (new_id, GameEvent::NewPlayer { pid: new_id, token }),
            );
            let can_buzz = match room.state {
                GameState::WaitingForBuzz => true,
                _ => false,
            };
            resp.messages_to_specific.push(
                (
                    new_id,
                    GameEvent::PlayerState { pid: new_id, buzzed: false, score: 0, can_buzz },
                ),
            );
            let started = match room.state {
                GameState::Start => false,
                _ => true,
            };
            if started {
                let gs = room.build_game_state_msg();
                resp.messages_to_specific.push((new_id, gs));
                let gs_host = room.build_game_state_msg();
                resp.messages_to_host.push(gs_host);
                let ghost base = resp@.to_specific;
                proof {
                    assert(resp@.to_specific =~= base + others_game_state_upto(
                        room@.players,
                        0,
                        new_id,
                        room@,
                    ));
                }
                let mut j: usize = 0;
                while j < room.players.len()
                    invariant
                        j <= room.players@.len(),
                        room@.players.len() == room.players@.len(),
                        resp@.to_host == seq![game_state_event(room@)],
                        resp@.to_players == Seq::<EventView>::empty(),
                        resp@.to_specific.len() == resp.messages_to_specific@.len(),
                        resp@.to_specific == base + others_game_state_upto(
                            room@.players,
                            j as int,
                            new_id,
                            room@,
                        ),
                    decreases room.players@.len() - j,
                {
                    if room.players[j].player.pid != new_id {
                        let gs_other = room.build_game_state_msg();
                        let pid_j = room.players[j].player.pid;
                        let ghost before = resp@.to_specific;
                        resp.messages_to_specific.push((pid_j, gs_other));
                        proof {
                            assert(resp@.to_specific =~= before.push((pid_j, gs_other@)));
                        }
                    }
                    proof {
                        let stepped = others_game_state_upto(room@.players, j + 1, new_id, room@);
                        let prefix = others_game_state_upto(room@.players, j as int, new_id, room@);
                        assert(stepped == if room@.players[j as int].player.pid != new_id {
                            prefix.push(
                                (room@.players[j as int].player.pid, game_state_event(room@)),
                            )
                        } else {
                            prefix
                        });
                        assert(resp@.to_specific =~= base + stepped);
                    }
                    j = j + 1;
                }
                let list = room.build_player_list_msg();
                let ghost host_before = resp@.to_host;
                resp.messages_to_host.push(list);
                proof {
                    assert(resp@.to_host =~= host_before.push(list@));
                    assert(base =~= seq![
                        (new_id, EventView::NewPlayer { pid: new_id, token: token@ }),
                        (
                            new_id,
                            EventView::PlayerState {
                                pid: new_id,
                                buzzed: false,
                                score: 0,
                                can_buzz: room@.state == GameState::WaitingForBuzz,
                            },
                        ),
                        (new_id, game_state_event(room@)),
                    ]);
                    assert(resp@.to_specific =~= base + others_game_state(room@, new_id));
                    assert(resp@ =~= join_response(room@, new_id, token@));
                }
            } else {
                let list = room.build_player_list_msg();
                let ghost host_before = resp@.to_host;
                resp.messages_to_host.push(list);
                proof {
                    assert(resp@.to_host =~= host_before.push(list@));
                    assert(resp@ =~= join_response(room@, new_id, token@));
                }
            }
            Ok((new_id, resp))
        },
    }
}

} // verus!
