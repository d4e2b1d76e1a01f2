//! Players and the timing record kept for each in-flight heartbeat.

use crate::connection::PlayerToken;
use crate::UnixMs;
use vstd::prelude::*;

verus! {

/// Identifier of a player, unique within a room and stable across reconnects.
pub type PlayerId = u32;

/// A player's persistent profile. Mutated only by the room in response to
/// commands; the score may go negative.
#[derive(Debug)]
pub struct Player {
    pub pid: PlayerId,
    pub name: String,
    pub score: i32,
    pub buzzed: bool,
    pub token: PlayerToken,
}

/// Mathematical image of a [`Player`].
#[verifier::ext_equal]
pub struct PlayerView {
    pub pid: PlayerId,
    pub name: Seq<char>,
    pub score: i32,
    pub buzzed: bool,
    pub token: u128,
}

impl View for Player {
    type V = PlayerView;

    open spec fn view(&self) -> PlayerView {
        PlayerView {
            pid: self.pid,
            name: self.name@,
            score: self.score,
            buzzed: self.buzzed,
            token: self.token@,
        }
    }
}

impl Clone for Player {
    fn clone(&self) -> (r: Self)
        ensures
            r == *self,
    {
        Player {
            pid: self.pid,
            name: self.name.clone(),
            score: self.score,
            buzzed: self.buzzed,
            token: self.token,
        }
    }
}

impl Player {
    pub fn new(pid: PlayerId, name: String, score: i32, buzzed: bool, token: PlayerToken) -> (r:
        Self)
        ensures
            r == (Player { pid, name, score, buzzed, token }),
    {
        Player { pid, name, score, buzzed, token }
    }
}

/// When a heartbeat probe was sent to a client, and when (by the client's own
/// report) it arrived there.
#[derive(Clone, Copy, Debug)]
pub struct TrackedMessageTime {
    pub t_sent: UnixMs,
    pub t_recv: Option<UnixMs>,
}

impl TrackedMessageTime {
    /// The forward-leg delay recorded for this probe: receipt time minus send
    /// time, floored at zero, or `None` while no receipt has been reported.
    pub open spec fn spec_delta(self) -> Option<u64> {
        match self.t_recv {
            Some(r) => Some(
                if r >= self.t_sent {
                    (r - self.t_sent) as u64
                } else {
                    0u64
                },
            ),
            None => None,
        }
    }

    pub fn delta(&self) -> (r: Option<u64>)
        ensures
            r == self.spec_delta(),
    {
        match self.t_recv {
            Some(r) => Some(r.saturating_sub(self.t_sent)),
            None => None,
        }
    }

    pub fn delta_32bit(&self) -> (r: Option<u32>)
        requires
            self.spec_delta() is Some ==> self.spec_delta()->0 <= u32::MAX,
        ensures
            match self.spec_delta() {
                Some(d) => r == Some(d as u32),
                None => r is None,
            },
    {
        match self.delta() {
            Some(d) => Some(d as u32),
            None => None,
        }
    }
}

} // verus!
