//! The wire-level vocabulary: commands that clients send in, and events the
//! room sends out. Decoding and encoding happen at the network edge; the
//! room works on these values alone.

use crate::connection::PlayerToken;
use crate::game::{Category, CategoryView, GameState};
use crate::player::{Player, PlayerId, PlayerView};
use vstd::prelude::*;

verus! {

/// A command from a client to the room, tagged by sender elsewhere.
#[derive(Clone, Copy, Debug, PartialEq, Eq, Structural)]
pub enum GameCommand {
    StartGame,
    EndGame,
    Buzz,
    HostReady,
    HostChoice { category_index: usize, question_index: usize },
    HostChecked { correct: bool },
    HostSkip,
    HostContinue,
    Heartbeat { hbid: u32, t_dohb_recv: u64 },
    LatencyOfHeartbeat { hbid: u32, t_lat: u64 },
}

impl GameCommand {
    /// Whether delivery timing of this command's effect matters for
    /// fairness, so its broadcast must go out latency-compensated.
    pub fn should_witness(&self) -> (r: bool)
        ensures
            r == (*self is HostReady),
    {
        match self {
            GameCommand::HostReady => true,
            _ => false,
        }
    }
}

/// An event from the room to one or more clients.
#[derive(Debug)]
pub enum GameEvent {
    Witness { msg: Box<GameEvent> },
    DoHeartbeat { hbid: u32, t_sent: u64 },
    GotHeartbeat { hbid: u32 },
    PlayerList(Vec<Player>),
    NewPlayer { pid: PlayerId, token: PlayerToken },
    GameState {
        state: GameState,
        categories: Vec<Category>,
        players: Vec<Player>,
        current_question: Option<(usize, usize)>,
        current_buzzer: Option<PlayerId>,
        winner: Option<PlayerId>,
    },
    PlayerState { pid: PlayerId, buzzed: bool, score: i32, can_buzz: bool },
    PlayerBuzzed { pid: PlayerId, name: String },
}

/// Mathematical image of a [`GameEvent`].
#[verifier::ext_equal]
pub enum EventView {
    Witness { msg: Box<EventView> },
    DoHeartbeat { hbid: u32, t_sent: u64 },
    GotHeartbeat { hbid: u32 },
    PlayerList(Seq<PlayerView>),
    NewPlayer { pid: PlayerId, token: u128 },
    GameState {
        state: GameState,
        categories: Seq<CategoryView>,
        players: Seq<PlayerView>,
        current_question: Option<(usize, usize)>,
        current_buzzer: Option<PlayerId>,
        winner: Option<PlayerId>,
    },
    PlayerState { pid: PlayerId, buzzed: bool, score: i32, can_buzz: bool },
    PlayerBuzzed { pid: PlayerId, name: Seq<char> },
}

/// Mathematical image of a [`GameEvent`].
pub open spec fn event_view(e: GameEvent) -> EventView
    decreases e,
{
    match e {
        GameEvent::Witness { msg } => EventView::Witness { msg: Box::new(event_view(*msg)) },
        GameEvent::DoHeartbeat { hbid, t_sent } => EventView::DoHeartbeat { hbid, t_sent },
        GameEvent::GotHeartbeat { hbid } => EventView::GotHeartbeat { hbid },
        GameEvent::PlayerList(players) => EventView::PlayerList(
            players@.map_values(|p: Player| p@),
        ),
        GameEvent::NewPlayer { pid, token } => EventView::NewPlayer { pid, token: token@ },
        GameEvent::GameState {
            state,
            categories,
            players,
            current_question,
            current_buzzer,
            winner,
        } => EventView::GameState {
            state,
            categories: categories@.map_values(|c: Category| c@),
            players: players@.map_values(|p: Player| p@),
            current_question,
            current_buzzer,
            winner,
        },
        GameEvent::PlayerState { pid, buzzed, score, can_buzz } => EventView::PlayerState {
            pid,
            buzzed,
            score,
            can_buzz,
        },
        GameEvent::PlayerBuzzed { pid, name } => EventView::PlayerBuzzed { pid, name: name@ },
    }
}

impl View for GameEvent {
    type V = EventView;

    open spec fn view(&self) -> EventView {
        event_view(*self)
    }
}

/// Copies a list of players; the copy has the same mathematical image.
pub fn clone_players(players: &Vec<Player>) -> (r: Vec<Player>)
    ensures
        r@ == players@,
{
    let mut out: Vec<Player> = Vec::new();
    let mut i: usize = 0;
    while i < players.len()
        invariant
            i <= players@.len(),
            out@ == players@.take(i as int),
        decreases players@.len() - i,
    {
        out.push(players[i].clone());
        proof {
            assert(out@ =~= players@.take(i + 1 as int));
        }
        i = i + 1;
    }
    proof {
        assert(out@ =~= players@);
    }
    out
}

/// Copies a list of categories; the copy has the same mathematical image.
pub fn clone_categories(categories: &Vec<Category>) -> (r: Vec<Category>)
    ensures
        r@.map_values(|c: Category| c@) == categories@.map_values(|c: Category| c@),
{
    let mut out: Vec<Category> = Vec::new();
    let mut i: usize = 0;
    while i < categories.len()
        invariant
            i <= categories@.len(),
            out@.len() == i,
            forall|j: int| 0 <= j < i ==> (#[trigger] out@[j])@ == categories@[j]@,
        decreases categories@.len() - i,
    {
        out.push(categories[i].clone());
        i = i + 1;
    }
    proof {
        assert(out@.map_values(|c: Category| c@) =~= categories@.map_values(|c: Category| c@));
    }
    out
}

impl Clone for GameEvent {
    fn clone(&self) -> (r: Self)
        ensures
            r@ == self@,
        decreases self,
    {
        match self {
            GameEvent::Witness { msg } => GameEvent::Witness { msg: Box::new((**msg).clone()) },
            GameEvent::DoHeartbeat { hbid, t_sent } => GameEvent::DoHeartbeat {
                hbid: *hbid,
                t_sent: *t_sent,
            },
            GameEvent::GotHeartbeat { hbid } => GameEvent::GotHeartbeat { hbid: *hbid },
            GameEvent::PlayerList(players) => GameEvent::PlayerList(clone_players(players)),
            GameEvent::NewPlayer { pid, token } => GameEvent::NewPlayer {
                pid: *pid,
                token: *token,
            },
            GameEvent::GameState {
                state,
                categories,
                players,
                current_question,
                current_buzzer,
                winner,
            } => {
                let r = GameEvent::GameState {
                    state: *state,
                    categories: clone_categories(categories),
                    players: clone_players(players),
                    current_question: *current_question,
                    current_buzzer: *current_buzzer,
                    winner: *winner,
                };
                proof {
                    assert(r@ =~= self@);
                }
                r
            },
            GameEvent::PlayerState { pid, buzzed, score, can_buzz } => GameEvent::PlayerState {
                pid: *pid,
                buzzed: *buzzed,
                score: *score,
                can_buzz: *can_buzz,
            },
            GameEvent::PlayerBuzzed { pid, name } => GameEvent::PlayerBuzzed {
                pid: *pid,
                name: name.clone(),
            },
        }
    }
}

} // verus!
