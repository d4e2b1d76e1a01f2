//! Room codes, secret tokens, and the per-connection entry that tracks a
//! player's latency through the heartbeat protocol.

use crate::player::{Player, PlayerView, TrackedMessageTime};
use crate::{HeartbeatId, UnixMs};
use vstd::prelude::*;

verus! {

/// Relies on `uuid::Uuid::new_v4`: returns the 128 bits of a freshly
/// generated random (version 4) UUID. Nothing is assumed of the value.
#[verifier::external_body]
fn fresh_uuid_bits() -> u128 {
    uuid::Uuid::new_v4().as_u128()
}

/// Relies on `rand::Rng::random_range` on `0..n` (via `rand::rng()`): the
/// sample is uniform over the range and always below `n`; the call panics
/// only on an empty range, which the precondition rules out.
#[verifier::external_body]
fn random_below(n: usize) -> (r: usize)
    requires
        0 < n,
    ensures
        r < n,
{
    rand::Rng::random_range(&mut rand::rng(), 0..n)
}

/// Relies on `uuid::Uuid::to_string` (through `Display`) on
/// `uuid::Uuid::from_u128(bits)`: the text depends on the bits alone —
/// [`uuid_text`] names it — and the hyphenated form it documents is 36
/// characters long.
#[verifier::external_body]
fn uuid_string(bits: u128) -> (r: String)
    ensures
        r@ == uuid_text(bits),
        r@.len() == 36,
{
    uuid::Uuid::from_u128(bits).to_string()
}

/// The hyphenated text of the UUID with the given bits, as `uuid` renders it.
pub uninterp spec fn uuid_text(bits: u128) -> Seq<char>;

/// The restricted alphabet room codes are drawn from: characters easily
/// mistaken for one another (I, O) are left out.
pub open spec fn room_code_charset() -> Seq<char> {
    "ABCDEFGHJKLMNPQRSTUVWXYZ"@
}

/// A room's human-typeable identifier (e.g. `"AFKRTW"`).
#[derive(Debug)]
pub struct RoomCode(pub String);

impl View for RoomCode {
    type V = Seq<char>;

    open spec fn view(&self) -> Seq<char> {
        self.0@
    }
}

impl Clone for RoomCode {
    fn clone(&self) -> (r: Self)
        ensures
            r == *self,
    {
        RoomCode(self.0.clone())
    }
}

impl PartialEq for RoomCode {
    fn eq(&self, other: &RoomCode) -> (r: bool) {
        self.0 == other.0
    }
}

impl vstd::std_specs::cmp::PartialEqSpecImpl for RoomCode {
    open spec fn obeys_eq_spec() -> bool {
        true
    }

    open spec fn eq_spec(&self, other: &RoomCode) -> bool {
        self.0@ == other.0@
    }
}

impl From<String> for RoomCode {
    fn from(value: String) -> (r: RoomCode) {
        RoomCode(value)
    }
}

impl vstd::std_specs::convert::FromSpecImpl<String> for RoomCode {
    open spec fn obeys_from_spec() -> bool {
        true
    }

    open spec fn from_spec(value: String) -> RoomCode {
        RoomCode(value)
    }
}

impl RoomCode {
    /// Generates a random six-character code over [`room_code_charset`].
    pub fn generate() -> (r: Self)
        ensures
            r@.len() == 6,
            forall|i: int| 0 <= i < 6 ==> room_code_charset().contains(#[trigger] r@[i]),
    {
        let charset: &str = "ABCDEFGHJKLMNPQRSTUVWXYZ";
        proof {
            reveal_strlit("ABCDEFGHJKLMNPQRSTUVWXYZ");
        }
        let mut code = String::new();
        let mut k: usize = 0;
        while k < 6
            invariant
                k <= 6,
                charset@ == room_code_charset(),
                charset@.len() == 24,
                code@.len() == k,
                forall|i: int| 0 <= i < k ==> room_code_charset().contains(#[trigger] code@[i]),
            decreases 6 - k,
        {
            let idx = random_below(24);
            let c = charset.substring_char(idx, idx + 1);
            code.append(c);
            proof {
                assert(code@.last() == charset@[idx as int]);
                assert(room_code_charset().contains(charset@[idx as int]));
            }
            k = k + 1;
        }
        RoomCode(code)
    }

    /// The code's text, for the network edge to embed in URLs and JSON.
    pub fn text(&self) -> (r: &str)
        ensures
            r@ == self@,
    {
        self.0.as_str()
    }
}

/// The secret that authenticates a room's host, carried as the bits of a
/// random UUID.
#[derive(Clone, Copy, Debug, PartialEq, Eq, Hash, Structural)]
pub struct HostToken(pub u128);

impl View for HostToken {
    type V = u128;

    open spec fn view(&self) -> u128 {
        self.0
    }
}

impl From<u128> for HostToken {
    fn from(value: u128) -> (r: HostToken) {
        HostToken(value)
    }
}

impl vstd::std_specs::convert::FromSpecImpl<u128> for HostToken {
    open spec fn obeys_from_spec() -> bool {
        true
    }

    open spec fn from_spec(value: u128) -> HostToken {
        HostToken(value)
    }
}

impl HostToken {
    /// Draws a fresh random token.
    pub fn generate() -> Self {
        HostToken(fresh_uuid_bits())
    }

    /// Whether the presented bits are exactly this token.
    pub fn matches(&self, bits: u128) -> (r: bool)
        ensures
            r == (self@ == bits),
    {
        self.0 == bits
    }

    /// The token rendered as UUID text.
    pub fn to_string(&self) -> (r: String)
        ensures
            r@ == uuid_text(self@),
            r@.len() == 36,
    {
        uuid_string(self.0)
    }
}

/// The secret that a player proves their identity with after first joining.
#[derive(Clone, Copy, Debug, PartialEq, Eq, Hash, Structural)]
pub struct PlayerToken(pub u128);

impl View for PlayerToken {
    type V = u128;

    open spec fn view(&self) -> u128 {
        self.0
    }
}

impl From<u128> for PlayerToken {
    fn from(value: u128) -> (r: PlayerToken) {
        PlayerToken(value)
    }
}

impl vstd::std_specs::convert::FromSpecImpl<u128> for PlayerToken {
    open spec fn obeys_from_spec() -> bool {
        true
    }

    open spec fn from_spec(value: u128) -> PlayerToken {
        PlayerToken(value)
    }
}

impl PlayerToken {
    /// Draws a fresh random token.
    pub fn generate() -> Self {
        PlayerToken(fresh_uuid_bits())
    }

    /// Whether the presented bits are exactly this token.
    pub fn matches(&self, bits: u128) -> (r: bool)
        ensures
            r == (self@ == bits),
    {
        self.0 == bits
    }

    /// The token rendered as UUID text.
    pub fn to_string(&self) -> (r: String)
        ensures
            r@ == uuid_text(self@),
            r@.len() == 36,
    {
        uuid_string(self.0)
    }
}

/// Whether a participant's connection is currently believed live.
#[derive(Clone, Copy, Debug, PartialEq, Eq, Structural)]
pub enum ConnectionStatus {
    Connected,
    Disconnected,
}

/// How many latency samples the rolling window holds.
pub open spec fn latency_window() -> int {
    5
}

/// A participant's entry in a room: their profile plus the latency-tracking
/// state of their connection. The outbound channel itself lives at the
/// network edge, keyed by player id.
#[derive(Debug)]
pub struct PlayerEntry {
    pub player: Player,
    pub status: ConnectionStatus,
    pub latencies: Vec<u32>,
    pub times_doheartbeat: Vec<(HeartbeatId, TrackedMessageTime)>,
    pub hbid_counter: u32,
}

/// Mathematical image of a [`PlayerEntry`].
#[verifier::ext_equal]
pub struct EntryView {
    pub player: PlayerView,
    pub status: ConnectionStatus,
    pub latencies: Seq<u32>,
    pub pending: Seq<(HeartbeatId, TrackedMessageTime)>,
    pub hbid_counter: u32,
}

impl View for PlayerEntry {
    type V = EntryView;

    open spec fn view(&self) -> EntryView {
        EntryView {
            player: self.player@,
            status: self.status,
            latencies: self.latencies@,
            pending: self.times_doheartbeat@,
            hbid_counter: self.hbid_counter,
        }
    }
}

impl EntryView {
    /// Validity of an entry: the sample window has its fixed width, and the
    /// probe counter is far from overflowing the id arithmetic.
    pub open spec fn wf(self) -> bool {
        &&& self.latencies.len() == latency_window()
        &&& self.hbid_counter < 4000000
    }

    /// The mean of the rolling window, as `latency` computes it.
    pub open spec fn mean_latency(self) -> int {
        seq_sum(self.latencies) / latency_window()
    }
}

/// Sum of a sequence of samples.
pub open spec fn seq_sum(s: Seq<u32>) -> int
    decreases s.len(),
{
    if s.len() == 0 {
        0
    } else {
        seq_sum(s.drop_last()) + s.last()
    }
}

/// Least index in `pending` holding the given heartbeat id, if any.
pub open spec fn hb_find_from(
    pending: Seq<(HeartbeatId, TrackedMessageTime)>,
    hbid: HeartbeatId,
    i: int,
) -> Option<int>
    decreases pending.len() - i,
{
    if i < 0 || i >= pending.len() {
        None
    } else if pending[i].0 == hbid {
        Some(i)
    } else {
        hb_find_from(pending, hbid, i + 1)
    }
}

pub open spec fn hb_find(
    pending: Seq<(HeartbeatId, TrackedMessageTime)>,
    hbid: HeartbeatId,
) -> Option<int> {
    hb_find_from(pending, hbid, 0)
}

/// What a hit of [`hb_find_from`] means: the found position holds `hbid` and
/// is the least such at or after `i`; a miss means no position does.
pub proof fn lemma_hb_find_from(
    pending: Seq<(HeartbeatId, TrackedMessageTime)>,
    hbid: HeartbeatId,
    i: int,
)
    requires
        0 <= i <= pending.len(),
    ensures
        match hb_find_from(pending, hbid, i) {
            Some(j) => i <= j < pending.len() && pending[j].0 == hbid && forall|k: int|
                i <= k < j ==> (#[trigger] pending[k]).0 != hbid,
            None => forall|k: int| i <= k < pending.len() ==> (#[trigger] pending[k]).0 != hbid,
        },
    decreases pending.len() - i,
{
    if i < pending.len() && pending[i].0 != hbid {
        lemma_hb_find_from(pending, hbid, i + 1);
    }
}

impl PlayerEntry {
    pub fn new(player: Player) -> (r: Self)
        ensures
            r@ == (EntryView {
                player: player@,
                status: ConnectionStatus::Connected,
                latencies: seq![0u32, 0u32, 0u32, 0u32, 0u32],
                pending: Seq::empty(),
                hbid_counter: 0,
            }),
            r@.wf(),
    {
        let mut latencies: Vec<u32> = Vec::new();
        latencies.push(0);
        latencies.push(0);
        latencies.push(0);
        latencies.push(0);
        latencies.push(0);
        let r = PlayerEntry {
            player,
            status: ConnectionStatus::Connected,
            latencies,
            times_doheartbeat: Vec::new(),
            hbid_counter: 0,
        };
        proof {
            assert(r@.latencies =~= seq![0u32, 0u32, 0u32, 0u32, 0u32]);
            assert(r@ =~= (EntryView {
                player: player@,
                status: ConnectionStatus::Connected,
                latencies: seq![0u32, 0u32, 0u32, 0u32, 0u32],
                pending: Seq::<(HeartbeatId, TrackedMessageTime)>::empty(),
                hbid_counter: 0,
            }));
        }
        r
    }

    /// Whether this player has already buzzed on the open question.
    pub fn did_buzz(&self) -> (r: bool)
        ensures
            r == self@.player.buzzed,
    {
        self.player.buzzed
    }

    /// The connection's estimated one-way latency: the mean of the rolling
    /// sample window, zero before any sample arrives.
    pub fn latency(&self) -> (r: u32)
        requires
            self@.wf(),
        ensures
            r == self@.mean_latency(),
    {
        let mut sum: u64 = 0;
        let mut i: usize = 0;
        while i < self.latencies.len()
            invariant
                self@.wf(),
                i <= self.latencies@.len(),
                sum == seq_sum(self.latencies@.take(i as int)),
                sum <= i * (u32::MAX as u64),
            decreases self.latencies@.len() - i,
        {
            proof {
                assert(self.latencies@.take(i + 1 as int).drop_last() =~= self.latencies@.take(
                    i as int,
                ));
            }
            sum = sum + self.latencies[i] as u64;
            i = i + 1;
        }
        proof {
            assert(self.latencies@.take(self.latencies@.len() as int) =~= self.latencies@);
        }
        (sum / 5) as u32
    }

    /// Least position in the in-flight bookkeeping that holds `hbid`.
    fn hb_index(&self, hbid: HeartbeatId) -> (r: Option<usize>)
        ensures
            match r {
                Some(j) => hb_find(self@.pending, hbid) == Some(j as int),
                None => hb_find(self@.pending, hbid) is None,
            },
    {
        let mut j: usize = 0;
        while j < self.times_doheartbeat.len()
            invariant
                j <= self.times_doheartbeat@.len(),
                hb_find(self@.pending, hbid) == hb_find_from(self@.pending, hbid, j as int),
            decreases self.times_doheartbeat@.len() - j,
        {
            if self.times_doheartbeat[j].0 == hbid {
                return Some(j);
            }
            j = j + 1;
        }
        None
    }

    /// Notes the client's report of when probe `hbid` reached it. An unknown
    /// `hbid` is ignored: heartbeats are best-effort telemetry.
    pub fn on_know_dohb_recv(&mut self, hbid: HeartbeatId, t_dohb_recv: UnixMs) -> (r: bool)
        ensures
            match hb_find(old(self)@.pending, hbid) {
                Some(i) => {
                    &&& r == true
                    &&& final(self)@ == (EntryView {
                        pending: old(self)@.pending.update(
                            i,
                            (
                                hbid,
                                TrackedMessageTime {
                                    t_sent: old(self)@.pending[i].1.t_sent,
                                    t_recv: Some(t_dohb_recv),
                                },
                            ),
                        ),
                        ..old(self)@
                    })
                },
                None => r == false && final(self)@ == old(self)@,
            },
    {
        match self.hb_index(hbid) {
            Some(j) => {
                proof {
                    lemma_hb_find_from(self@.pending, hbid, 0);
                }
                let t_sent = self.times_doheartbeat[j].1.t_sent;
                self.times_doheartbeat[j] = (
                    hbid,
                    TrackedMessageTime { t_sent, t_recv: Some(t_dohb_recv) },
                );
                true
            },
            None => false,
        }
    }

    /// Records that probe `hbid` was sent at `t_sent`; a probe already
    /// recorded under the same id is overwritten.
    pub fn record_dohb(&mut self, hbid: HeartbeatId, t_sent: UnixMs)
        ensures
            final(self)@ == (EntryView {
                pending: hb_insert(old(self)@.pending, hbid, t_sent),
                ..old(self)@
            }),
    {
        let fresh = TrackedMessageTime { t_sent, t_recv: None };
        match self.hb_index(hbid) {
            Some(j) => {
                proof {
                    lemma_hb_find_from(self@.pending, hbid, 0);
                }
                self.times_doheartbeat[j] = (hbid, fresh);
            },
            None => {
                self.times_doheartbeat.push((hbid, fresh));
            },
        }
    }

    /// Folds the client's round-trip report for probe `hbid` into the rolling
    /// window: the sample is the report minus the recorded forward-leg delay,
    /// floored at zero; it evicts the oldest slot, and all in-flight
    /// bookkeeping is cleared. Unknown or half-finished probes are ignored.
    pub fn on_latencyhb(&mut self, hbid: HeartbeatId, t_lathb: u32) -> (r: bool)
        requires
            old(self)@.wf(),
        ensures
            final(self)@.wf(),
            match hb_find(old(self)@.pending, hbid) {
                Some(i) => match old(self)@.pending[i].1.spec_delta() {
                    Some(fwd) => {
                        &&& r == true
                        &&& final(self)@ == (EntryView {
                            latencies: old(self)@.latencies.drop_first().push(
                                latency_sample(fwd, t_lathb),
                            ),
                            pending: Seq::empty(),
                            ..old(self)@
                        })
                    },
                    None => r == false && final(self)@ == old(self)@,
                },
                None => r == false && final(self)@ == old(self)@,
            },
    {
        match self.hb_index(hbid) {
            Some(j) => {
                proof {
                    lemma_hb_find_from(self@.pending, hbid, 0);
                }
                let tracked_time = self.times_doheartbeat[j].1;
                match tracked_time.delta() {
                    Some(fwd) => {
                        let lat: u32 = if fwd >= t_lathb as u64 {
                            0
                        } else {
                            t_lathb - fwd as u32
                        };
                        self.latencies.remove(0);
                        self.latencies.push(lat);
                        self.times_doheartbeat.clear();
                        proof {
                            assert(final(self)@.latencies =~= old(self)@.latencies.drop_first().push(
                                latency_sample(old(self)@.pending[hb_find(
                                    old(self)@.pending,
                                    hbid,
                                )->0].1.spec_delta()->0, t_lathb),
                            ));
                            assert(final(self)@ =~= (EntryView {
                                latencies: final(self)@.latencies,
                                pending: Seq::empty(),
                                ..old(self)@
                            }));
                        }
                        true
                    },
                    None => false,
                }
            },
            None => false,
        }
    }

    /// A probe id for a heartbeat sent at `t_sent`: the millisecond part of
    /// the time, offset by the probe counter so that rapid successive probes
    /// get distinct ids.
    fn generate_hbid(&self, t_sent: UnixMs) -> (r: HeartbeatId)
        requires
            self@.wf(),
        ensures
            r == spec_hbid(self@, t_sent),
    {
        let t_part: u32 = (t_sent % 1000) as u32;
        t_part + self.hbid_counter * 1000
    }

    /// Opens a heartbeat round at time `t_sent`: picks a probe id, records
    /// the send, advances the probe counter so that rapid successive rounds
    /// get distinct ids, and returns the id for the edge to put in the
    /// outgoing probe.
    pub fn heartbeat(&mut self, t_sent: UnixMs) -> (r: HeartbeatId)
        requires
            old(self)@.wf(),
        ensures
            final(self)@.wf(),
            r == spec_hbid(old(self)@, t_sent),
            final(self)@ == (EntryView {
                pending: hb_insert(old(self)@.pending, r, t_sent),
                hbid_counter: next_counter(old(self)@.hbid_counter),
                ..old(self)@
            }),
    {
        let hbid = self.generate_hbid(t_sent);
        self.record_dohb(hbid, t_sent);
        self.hbid_counter = if self.hbid_counter + 1 < 4000000 {
            self.hbid_counter + 1
        } else {
            0
        };
        hbid
    }
}

/// The probe id chosen for a heartbeat sent at `t_sent`.
pub open spec fn spec_hbid(e: EntryView, t_sent: UnixMs) -> u32 {
    ((t_sent % 1000) + e.hbid_counter * 1000) as u32
}

/// The probe counter after one heartbeat round: advanced by one, wrapping
/// back to zero well before the id arithmetic could overflow.
pub open spec fn next_counter(c: u32) -> u32 {
    if c + 1 < 4000000 {
        (c + 1) as u32
    } else {
        0u32
    }
}

/// Probe-id freshness: opening one heartbeat round after another hands out
/// a different id, whatever the two send times are, as long as the counter
/// has not wrapped around its bound in between.
pub proof fn lemma_probe_ids_fresh(e1: EntryView, e2: EntryView, t1: UnixMs, t2: UnixMs)
    requires
        e1.wf(),
        e2.hbid_counter == next_counter(e1.hbid_counter),
        e1.hbid_counter + 1 < 4000000,
    ensures
        spec_hbid(e1, t1) != spec_hbid(e2, t2),
{
    assert(t1 % 1000 < 1000);
    assert(t2 % 1000 < 1000);
    assert(e2.hbid_counter * 1000 == e1.hbid_counter * 1000 + 1000);
}

/// The latency sample derived from a forward-leg delay of `fwd` and a
/// client-reported round trip of `t_lat`: their difference, floored at zero.
pub open spec fn latency_sample(fwd: u64, t_lat: u32) -> u32 {
    if fwd >= t_lat {
        0u32
    } else {
        (t_lat - fwd) as u32
    }
}

/// In-flight bookkeeping after recording a probe sent at `t_sent` under id
/// `hbid`: an entry already keyed by `hbid` is overwritten, else one is
/// appended.
pub open spec fn hb_insert(
    pending: Seq<(HeartbeatId, TrackedMessageTime)>,
    hbid: HeartbeatId,
    t_sent: UnixMs,
) -> Seq<(HeartbeatId, TrackedMessageTime)> {
    let fresh = TrackedMessageTime { t_sent, t_recv: None };
    match hb_find(pending, hbid) {
        Some(i) => pending.update(i, (hbid, fresh)),
        None => pending.push((hbid, fresh)),
    }
}

} // verus!
