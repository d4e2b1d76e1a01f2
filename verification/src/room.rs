//! The room: one game's full state, and the single command-handling entry
//! point that serializes all mutation.
//!
//! Every command's effect is stated by the [`step`] relation: a guarded
//! transition table over the room's mathematical image. [`Room::handle_command`]
//! is proved to realize exactly that relation, so all game rules — first
//! buzz wins, scoring symmetry, tie handling, exhaustion — are consequences
//! of contracts, not of timing.

use crate::connection::{hb_find, hb_insert, latency_sample, EntryView, HostToken, PlayerEntry,
    RoomCode};
use crate::game::{Category, CategoryView, GameState, QuestionView, ResponseView, RoomResponse};
use crate::host::HostEntry;
use crate::messages::{clone_categories, EventView, GameCommand, GameEvent};
use crate::player::{PlayerId, PlayerView};
use crate::UnixMs;
use vstd::prelude::*;

verus! {

/// One game instance: its identity, participants, content and phase.
///
/// `last_activity` is a timestamp in Unix milliseconds handed in by the
/// caller; the library never reads a clock itself.
#[derive(Debug)]
pub struct Room {
    pub code: RoomCode,
    pub host_token: HostToken,
    pub state: GameState,
    pub host: Option<HostEntry>,
    pub players: Vec<PlayerEntry>,
    pub categories: Vec<Category>,
    pub current_question: Option<(usize, usize)>,
    pub current_buzzer: Option<PlayerId>,
    pub last_activity: UnixMs,
    pub winner: Option<PlayerId>,
}

/// Mathematical image of a [`Room`].
#[verifier::ext_equal]
pub struct RoomView {
    pub code: Seq<char>,
    pub host_token: u128,
    pub state: GameState,
    pub host: Option<HostEntry>,
    pub players: Seq<EntryView>,
    pub categories: Seq<CategoryView>,
    pub current_question: Option<(usize, usize)>,
    pub current_buzzer: Option<PlayerId>,
    pub last_activity: UnixMs,
    pub winner: Option<PlayerId>,
}

impl View for Room {
    type V = RoomView;

    open spec fn view(&self) -> RoomView {
        RoomView {
            code: self.code@,
            host_token: self.host_token@,
            state: self.state,
            host: self.host,
            players: self.players@.map_values(|e: PlayerEntry| e@),
            categories: self.categories@.map_values(|c: Category| c@),
            current_question: self.current_question,
            current_buzzer: self.current_buzzer,
            last_activity: self.last_activity,
            winner: self.winner,
        }
    }
}

impl RoomView {
    /// Validity of a room: every entry's latency tracker is well formed.
    pub open spec fn wf(self) -> bool {
        forall|i: int| 0 <= i < self.players.len() ==> (#[trigger] self.players[i]).wf()
    }
}

/// Least index at or after `i` whose entry carries `pid`, if any.
pub open spec fn find_player_from(players: Seq<EntryView>, pid: PlayerId, i: int) -> Option<int>
    decreases players.len() - i,
{
    if i < 0 || i >= players.len() {
        None
    } else if players[i].player.pid == pid {
        Some(i)
    } else {
        find_player_from(players, pid, i + 1)
    }
}

/// Least index whose entry carries `pid`, if any: commands addressed to a
/// player act on the first entry with that id.
pub open spec fn find_player(players: Seq<EntryView>, pid: PlayerId) -> Option<int> {
    find_player_from(players, pid, 0)
}

/// What a hit of [`find_player_from`] means: the found position carries
/// `pid` and is the least such at or after `i`; a miss means none does.
pub proof fn lemma_find_player_from(players: Seq<EntryView>, pid: PlayerId, i: int)
    requires
        0 <= i <= players.len(),
    ensures
        match find_player_from(players, pid, i) {
            Some(j) => i <= j < players.len() && players[j].player.pid == pid && forall|k: int|
                i <= k < j ==> (#[trigger] players[k]).player.pid != pid,
            None => forall|k: int|
                i <= k < players.len() ==> (#[trigger] players[k]).player.pid != pid,
        },
    decreases players.len() - i,
{
    if i < players.len() && players[i].player.pid != pid {
        lemma_find_player_from(players, pid, i + 1);
    }
}

/// Whether any question anywhere is still unanswered.
pub open spec fn has_unanswered(categories: Seq<CategoryView>) -> bool {
    exists|c: int, q: int|
        0 <= c < categories.len() && 0 <= q < categories[c].questions.len()
            && !categories[c].questions[q].answered
}

/// The highest score among the players (meaningful only when some exist).
pub open spec fn max_score(players: Seq<EntryView>) -> int
    decreases players.len(),
{
    if players.len() == 0 {
        0
    } else {
        let rest = max_score(players.drop_last());
        if players.last().player.score >= rest || players.len() == 1 {
            players.last().player.score as int
        } else {
            rest
        }
    }
}

/// How many players hold exactly score `s`.
pub open spec fn count_with_score(players: Seq<EntryView>, s: int) -> nat
    decreases players.len(),
{
    if players.len() == 0 {
        0
    } else {
        count_with_score(players.drop_last(), s) + if players.last().player.score == s {
            1nat
        } else {
            0nat
        }
    }
}

/// Least index at or after `i` whose entry holds score `s`, if any.
pub open spec fn find_score_from(players: Seq<EntryView>, s: int, i: int) -> Option<int>
    decreases players.len() - i,
{
    if i < 0 || i >= players.len() {
        None
    } else if players[i].player.score == s {
        Some(i)
    } else {
        find_score_from(players, s, i + 1)
    }
}

/// What a hit of [`find_score_from`] means.
pub proof fn lemma_find_score_from(players: Seq<EntryView>, s: int, i: int)
    requires
        0 <= i <= players.len(),
    ensures
        match find_score_from(players, s, i) {
            Some(j) => i <= j < players.len() && players[j].player.score == s && forall|k: int|
                i <= k < j ==> (#[trigger] players[k]).player.score != s,
            None => forall|k: int|
                i <= k < players.len() ==> (#[trigger] players[k]).player.score != s,
        },
    decreases players.len() - i,
{
    if i < players.len() && players[i].player.score != s {
        lemma_find_score_from(players, s, i + 1);
    }
}

/// The winner the room computes at game end: nobody in an empty room;
/// otherwise the single holder of the maximum score, and nobody on a tie.
/// A tie is never broken by join order, name or any other criterion.
pub open spec fn winner_of(players: Seq<EntryView>) -> Option<PlayerId> {
    if players.len() == 0 {
        None
    } else if count_with_score(players, max_score(players)) == 1 {
        Some(players[find_score_from(players, max_score(players), 0)->0].player.pid)
    } else {
        None
    }
}

/// The maximum of a nonempty player sequence is attained by someone, and
/// bounds every score.
pub proof fn lemma_max_attained(players: Seq<EntryView>)
    requires
        players.len() > 0,
    ensures
        count_with_score(players, max_score(players)) >= 1,
        forall|k: int|
            0 <= k < players.len() ==> (#[trigger] players[k]).player.score <= max_score(players),
        exists|k: int|
            0 <= k < players.len() && (#[trigger] players[k]).player.score == max_score(players),
    decreases players.len(),
{
    let m = max_score(players);
    if players.len() == 1 {
        assert(count_with_score(players, m) == count_with_score(players.drop_last(), m) + 1);
        assert(players[0].player.score == m);
    } else {
        let prefix = players.drop_last();
        lemma_max_attained(prefix);
        if players.last().player.score >= max_score(prefix) {
            assert(count_with_score(players, m) == count_with_score(prefix, m) + 1);
            assert(players[players.len() - 1].player.score == m);
        } else {
            assert(count_with_score(players, m) >= count_with_score(prefix, m));
            let w = choose|k: int|
                0 <= k < prefix.len() && (#[trigger] prefix[k]).player.score == max_score(prefix);
            assert(players[w].player.score == m);
        }
        assert forall|k: int|
            0 <= k < players.len() implies (#[trigger] players[k]).player.score <= m by {
            if k < prefix.len() {
                assert(players[k] == prefix[k]);
            }
        }
    }
}

/// The full game-state event, as broadcast after every state change.
pub open spec fn game_state_event(r: RoomView) -> EventView {
    EventView::GameState {
        state: r.state,
        categories: r.categories,
        players: r.players.map_values(|e: EntryView| e.player),
        current_question: r.current_question,
        current_buzzer: r.current_buzzer,
        winner: r.winner,
    }
}

/// The per-player state event for the entry at index `i`: it additionally
/// tells that client whether it may buzz right now.
pub open spec fn player_state_event(r: RoomView, i: int) -> EventView {
    EventView::PlayerState {
        pid: r.players[i].player.pid,
        buzzed: r.players[i].player.buzzed,
        score: r.players[i].player.score,
        can_buzz: r.state == GameState::WaitingForBuzz && !r.players[i].player.buzzed,
    }
}

/// One addressed state event per player, in list order; each is built from
/// the first entry carrying that player's id.
pub open spec fn all_player_states(r: RoomView) -> Seq<(PlayerId, EventView)> {
    Seq::new(
        r.players.len(),
        |i: int|
            (
                r.players[i].player.pid,
                player_state_event(r, find_player(r.players, r.players[i].player.pid)->0),
            ),
    )
}

/// The response every state-changing command returns: the rebuilt game
/// state for the host and all players, plus each player's own state.
pub open spec fn broadcast_response(r: RoomView) -> ResponseView {
    ResponseView {
        to_host: seq![game_state_event(r)],
        to_players: seq![game_state_event(r)],
        to_specific: all_player_states(r),
    }
}

impl Room {
    /// A fresh room in `Start`, with no players and no content yet.
    pub fn new(code: RoomCode, host_token: HostToken, now_ms: UnixMs) -> (r: Self)
        ensures
            r@ == (RoomView {
                code: code@,
                host_token: host_token@,
                state: GameState::Start,
                host: None::<HostEntry>,
                players: Seq::empty(),
                categories: Seq::empty(),
                current_question: None::<(usize, usize)>,
                current_buzzer: None::<PlayerId>,
                last_activity: now_ms,
                winner: None::<PlayerId>,
            }),
            r@.wf(),
    {
        let r = Room {
            code,
            host_token,
            state: GameState::Start,
            host: None,
            players: Vec::new(),
            categories: Vec::new(),
            current_question: None,
            current_buzzer: None,
            last_activity: now_ms,
            winner: None,
        };
        proof {
            assert(r@ =~= (RoomView {
                code: code@,
                host_token: host_token@,
                state: GameState::Start,
                host: None::<HostEntry>,
                players: Seq::<EntryView>::empty(),
                categories: Seq::<CategoryView>::empty(),
                current_question: None::<(usize, usize)>,
                current_buzzer: None::<PlayerId>,
                last_activity: now_ms,
                winner: None::<PlayerId>,
            }));
        }
        r
    }

    /// Marks the room active now; the idle sweep only evicts rooms whose
    /// `last_activity` has fallen behind.
    pub fn touch(&mut self, now_ms: UnixMs)
        ensures
            final(self)@ == (RoomView { last_activity: now_ms, ..old(self)@ }),
    {
        self.last_activity = now_ms;
        proof {
            assert(final(self)@ =~= (RoomView { last_activity: now_ms, ..old(self)@ }));
        }
    }

    /// Rebuilds the full game-state event from the current state.
    pub fn build_game_state_msg(&self) -> (r: GameEvent)
        ensures
            r@ == game_state_event(self@),
    {
        let mut players: Vec<crate::player::Player> = Vec::new();
        let mut i: usize = 0;
        while i < self.players.len()
            invariant
                i <= self.players@.len(),
                players@.len() == i,
                forall|j: int| 0 <= j < i ==> (#[trigger] players@[j])@ == self@.players[j].player,
            decreases self.players@.len() - i,
        {
            players.push(self.players[i].player.clone());
            i = i + 1;
        }
        let r = GameEvent::GameState {
            state: self.state,
            categories: clone_categories(&self.categories),
            players,
            current_question: self.current_question,
            current_buzzer: self.current_buzzer,
            winner: self.winner,
        };
        proof {
            assert(r@ =~= game_state_event(self@));
        }
        r
    }

    /// The state event for the first entry carrying `player_id`, or nothing
    /// if no such player exists.
    pub(crate) fn build_player_state_msg(&self, player_id: PlayerId) -> (r: Option<GameEvent>)
        ensures
            match find_player(self@.players, player_id) {
                Some(j) => r is Some && r->0@ == player_state_event(self@, j),
                None => r is None,
            },
    {
        let mut i: usize = 0;
        while i < self.players.len()
            invariant
                i <= self.players@.len(),
                find_player(self@.players, player_id) == find_player_from(
                    self@.players,
                    player_id,
                    i as int,
                ),
            decreases self.players@.len() - i,
        {
            if self.players[i].player.pid == player_id {
                let can_buzz = match self.state {
                    GameState::WaitingForBuzz => !self.players[i].player.buzzed,
                    _ => false,
                };
                return Some(
                    GameEvent::PlayerState {
                        pid: self.players[i].player.pid,
                        buzzed: self.players[i].player.buzzed,
                        score: self.players[i].player.score,
                        can_buzz,
                    },
                );
            }
            i = i + 1;
        }
        None
    }

    /// One addressed state event for every player, in list order.
    fn build_all_player_states(&self) -> (r: RoomResponse)
        ensures
            r@ == (ResponseView {
                to_host: Seq::empty(),
                to_players: Seq::empty(),
                to_specific: all_player_states(self@),
            }),
    {
        let mut response = RoomResponse::new();
        let mut i: usize = 0;
        while i < self.players.len()
            invariant
                i <= self.players@.len(),
                response.messages_to_specific@.len() == i,
                all_player_states(self@).len() == self.players@.len(),
                response@.to_host == Seq::<EventView>::empty(),
                response@.to_players == Seq::<EventView>::empty(),
                response@.to_specific == all_player_states(self@).take(i as int),
            decreases self.players@.len() - i,
        {
            let pid = self.players[i].player.pid;
            proof {
                assert(self@.players[i as int].player.pid == pid);
                lemma_find_player_from(self@.players, pid, 0);
            }
            match self.build_player_state_msg(pid) {
                Some(msg) => {
                    response.messages_to_specific.push((pid, msg));
                    proof {
                        assert(response@.to_specific.last() == (pid, msg@));
                        assert(msg@ == player_state_event(
                            self@,
                            find_player(self@.players, pid)->0,
                        ));
                        assert(all_player_states(self@)[i as int] == (
                            pid,
                            player_state_event(self@, find_player(self@.players, pid)->0),
                        ));
                        assert(response@.to_specific.len() == i + 1);
                        assert forall|j: int| 0 <= j < i + 1 implies response@.to_specific[j]
                            == all_player_states(self@).take(i + 1 as int)[j] by {
                            if j < i {
                                assert(response@.to_specific[j] == all_player_states(self@).take(
                                    i as int,
                                )[j]);
                            } else {
                                assert(response@.to_specific[j] == response@.to_specific.last());
                            }
                        }
                        assert(response@.to_specific =~= all_player_states(self@).take(
                            i + 1 as int,
                        ));
                    }
                },
                None => {
                    proof {
                        assert(self@.players[i as int].player.pid == pid);
                        assert(false);
                    }
                },
            }
            i = i + 1;
        }
        proof {
            assert(all_player_states(self@).take(self.players@.len() as int) =~= all_player_states(
                self@,
            ));
        }
        response
    }

    /// Recomputes the winner from current scores, per [`winner_of`]: the
    /// sole top scorer, or nobody on a tie or in an empty room.
    pub fn determine_winner(&mut self)
        ensures
            final(self)@ == (RoomView { winner: winner_of(old(self)@.players), ..old(self)@ }),
    {
        if self.players.len() == 0 {
            self.winner = None;
            proof {
                assert(final(self)@ =~= (RoomView {
                    winner: winner_of(old(self)@.players),
                    ..old(self)@
                }));
            }
            return ;
        }
        let ghost pv = self@.players;
        let mut max_s: i32 = self.players[0].player.score;
        let mut i: usize = 1;
        proof {
            assert(pv.take(1) =~= pv.take(1));
            assert(pv.take(1).drop_last() =~= Seq::<EntryView>::empty());
        }
        while i < self.players.len()
            invariant
                1 <= i <= pv.len(),
                pv == self@.players,
                self.players@.len() == pv.len(),
                max_s == max_score(pv.take(i as int)),
            decreases pv.len() - i,
        {
            proof {
                assert(pv.take(i + 1 as int).drop_last() =~= pv.take(i as int));
            }
            if self.players[i].player.score > max_s {
                max_s = self.players[i].player.score;
            }
            i = i + 1;
        }
        proof {
            assert(pv.take(pv.len() as int) =~= pv);
        }
        let mut count: u64 = 0;
        let mut first: usize = 0;
        let mut found = false;
        let mut k: usize = 0;
        while k < self.players.len()
            invariant
                k <= pv.len(),
                pv == self@.players,
                self.players@.len() == pv.len(),
                count == count_with_score(pv.take(k as int), max_s as int),
                count <= k,
                found <==> count > 0,
                found ==> find_score_from(pv, max_s as int, 0) == Some(first as int),
                !found ==> find_score_from(pv, max_s as int, 0) == find_score_from(
                    pv,
                    max_s as int,
                    k as int,
                ),
            decreases pv.len() - k,
        {
            proof {
                assert(pv.take(k + 1 as int).drop_last() =~= pv.take(k as int));
            }
            if self.players[k].player.score == max_s {
                if !found {
                    first = k;
                    found = true;
                }
                count = count + 1;
            }
            k = k + 1;
        }
        proof {
            assert(pv.take(pv.len() as int) =~= pv);
            assert(max_s == max_score(pv));
            lemma_max_attained(pv);
            lemma_find_score_from(pv, max_s as int, 0);
        }
        if count == 1 {
            self.winner = Some(self.players[first].player.pid);
        } else {
            self.winner = None;
        }
        proof {
            assert(final(self)@ =~= (RoomView {
                winner: winner_of(old(self)@.players),
                ..old(self)@
            }));
        }
    }

    /// Whether any question anywhere is still unanswered.
    fn has_remaining_questions(&self) -> (r: bool)
        ensures
            r == has_unanswered(self@.categories),
    {
        let ghost cats = self@.categories;
        let mut c: usize = 0;
        while c < self.categories.len()
            invariant
                c <= cats.len(),
                cats == self@.categories,
                self.categories@.len() == cats.len(),
                forall|ci: int, qi: int|
                    0 <= ci < c && 0 <= qi < cats[ci].questions.len() ==> (#[trigger] cats[ci].questions[qi]).answered,
            decreases cats.len() - c,
        {
            let mut q: usize = 0;
            while q < self.categories[c].questions.len()
                invariant
                    c < cats.len(),
                    q <= cats[c as int].questions.len(),
                    cats == self@.categories,
                    self.categories@.len() == cats.len(),
                    self.categories@[c as int].questions@.len() == cats[c as int].questions.len(),
                    forall|qi: int|
                        0 <= qi < q ==> (#[trigger] cats[c as int].questions[qi]).answered,
                decreases cats[c as int].questions.len() - q,
            {
                if !self.categories[c].questions[q].answered {
                    proof {
                        assert(!self@.categories[c as int].questions[q as int].answered);
                    }
                    return true;
                }
                q = q + 1;
            }
            c = c + 1;
        }
        false
    }
}


/// An entry with its buzz flag cleared; everything else kept.
pub open spec fn reset_entry(e: EntryView) -> EntryView {
    EntryView { player: PlayerView { buzzed: false, ..e.player }, ..e }
}

/// All players with their buzz flags cleared.
pub open spec fn reset_buzzed(players: Seq<EntryView>) -> Seq<EntryView> {
    players.map_values(|e: EntryView| reset_entry(e))
}

/// The entry at `i` marked as having buzzed.
pub open spec fn set_buzzed(players: Seq<EntryView>, i: int) -> Seq<EntryView> {
    players.update(
        i,
        EntryView {
            player: PlayerView { buzzed: true, ..players[i].player },
            ..players[i]
        },
    )
}

/// The guard of the buzz transition: buzzers are open, a sender is known,
/// that player exists, and they have not buzzed yet. Only the first command
/// to pass this guard wins the question; the room's single-writer discipline
/// makes later ones fail it.
pub open spec fn buzz_accepted(pre: RoomView, sender: Option<PlayerId>) -> bool {
    &&& pre.state == GameState::WaitingForBuzz
    &&& sender is Some
    &&& find_player(pre.players, sender->0) is Some
    &&& !pre.players[find_player(pre.players, sender->0)->0].player.buzzed
}

/// The players after the open question was judged: the buzzer, if one is
/// recorded and present, gains the question's value on a correct answer and
/// loses it on an incorrect one (wrapping at the integer limits); everyone
/// else is untouched.
pub open spec fn score_buzzer(
    players: Seq<EntryView>,
    buzzer: Option<PlayerId>,
    correct: bool,
    value: i32,
) -> Seq<EntryView> {
    match buzzer {
        None => players,
        Some(b) => match find_player(players, b) {
            None => players,
            Some(i) => players.update(
                i,
                EntryView {
                    player: PlayerView {
                        score: if correct {
                            players[i].player.score.wrapping_add(value)
                        } else {
                            players[i].player.score.wrapping_sub(value)
                        },
                        ..players[i].player
                    },
                    ..players[i]
                },
            ),
        },
    }
}

/// The categories with question `qi` of category `ci` marked answered.
pub open spec fn mark_answered(categories: Seq<CategoryView>, ci: int, qi: int) -> Seq<
    CategoryView,
> {
    categories.update(
        ci,
        CategoryView {
            questions: categories[ci].questions.update(
                qi,
                QuestionView { answered: true, ..categories[ci].questions[qi] },
            ),
            ..categories[ci]
        },
    )
}

/// The judging transition. No open question, or indices that reference no
/// existing question, make the command stale: the room is unchanged and the
/// response empty. Otherwise the buzzer is scored; a correct answer — or an
/// incorrect one once nobody can buzz any more — retires the question,
/// clears it and the buzzer, and moves to `Selection` while unanswered
/// questions remain, else computes the winner and ends the game. An
/// incorrect answer with players still able to buzz merely reopens the
/// buzzers.
///
/// Question indices are validated here, not at `HostChoice`: a choice that
/// referenced no existing question surfaces as a no-op at judging time,
/// since there is no value to score, while [`skip_step`] can still reveal
/// and move on past such a choice.
pub open spec fn checked_step(
    pre: RoomView,
    correct: bool,
    post: RoomView,
    resp: ResponseView,
) -> bool {
    match pre.current_question {
        None => post == pre && resp == ResponseView::empty(),
        Some((ci, qi)) => {
            if !(ci < pre.categories.len() && qi < pre.categories[ci as int].questions.len()) {
                post == pre && resp == ResponseView::empty()
            } else {
                let value = pre.categories[ci as int].questions[qi as int].value as i32;
                let scored = score_buzzer(pre.players, pre.current_buzzer, correct, value);
                let any_can_buzz = exists|j: int|
                    0 <= j < scored.len() && !(#[trigger] scored[j]).player.buzzed;
                if correct || !any_can_buzz {
                    let cats = mark_answered(pre.categories, ci as int, qi as int);
                    let ends = !has_unanswered(cats);
                    &&& post == (RoomView {
                        players: scored,
                        categories: cats,
                        current_question: None::<(usize, usize)>,
                        current_buzzer: None::<PlayerId>,
                        state: if ends {
                            GameState::GameEnd
                        } else {
                            GameState::Selection
                        },
                        winner: if ends {
                            winner_of(scored)
                        } else {
                            pre.winner
                        },
                        ..pre
                    })
                    &&& resp == broadcast_response(post)
                } else {
                    &&& post == (RoomView {
                        players: scored,
                        current_buzzer: None::<PlayerId>,
                        state: GameState::WaitingForBuzz,
                        ..pre
                    })
                    &&& resp == broadcast_response(post)
                }
            }
        },
    }
}

/// The skip transition: with no open question the command is stale;
/// otherwise the question is retired (scores untouched) and the room shows
/// the answer.
///
/// Question indices are validated at judging time, not at `HostChoice` or
/// here: a choice that referenced no existing question retires nothing but
/// still moves to `AnswerReveal`, so the host can skip past it and let the
/// continue transition clean up — whereas [`checked_step`] must no-op on
/// such a choice, having no value to score.
pub open spec fn skip_step(pre: RoomView, post: RoomView, resp: ResponseView) -> bool {
    match pre.current_question {
        None => post == pre && resp == ResponseView::empty(),
        Some((ci, qi)) => {
            let cats = if ci < pre.categories.len() && qi < pre.categories[
                ci as int
            ].questions.len() {
                mark_answered(pre.categories, ci as int, qi as int)
            } else {
                pre.categories
            };
            &&& post == (RoomView { categories: cats, state: GameState::AnswerReveal, ..pre })
            &&& resp == broadcast_response(post)
        },
    }
}

/// The transition out of `AnswerReveal`: question and buzzer cleared, every
/// buzz flag reset, then on to `Selection` while unanswered questions
/// remain, else the winner is computed and the game ends.
pub open spec fn continue_step(pre: RoomView, post: RoomView, resp: ResponseView) -> bool {
    let players2 = reset_buzzed(pre.players);
    let ends = !has_unanswered(pre.categories);
    &&& post == (RoomView {
        current_question: None::<(usize, usize)>,
        current_buzzer: None::<PlayerId>,
        players: players2,
        state: if ends {
            GameState::GameEnd
        } else {
            GameState::Selection
        },
        winner: if ends {
            winner_of(players2)
        } else {
            pre.winner
        },
        ..pre
    })
    &&& resp == broadcast_response(post)
}

/// The players after a heartbeat receipt report: if the sender is a known
/// player, the report is routed to their tracker; otherwise nothing happens.
pub open spec fn hb_recv_players(
    players: Seq<EntryView>,
    sender: Option<PlayerId>,
    hbid: u32,
    t_dohb_recv: u64,
) -> Seq<EntryView> {
    match sender {
        None => players,
        Some(pid) => match find_player(players, pid) {
            None => players,
            Some(i) => match hb_find(players[i].pending, hbid) {
                None => players,
                Some(k) => players.update(
                    i,
                    EntryView {
                        pending: players[i].pending.update(
                            k,
                            (
                                hbid,
                                crate::player::TrackedMessageTime {
                                    t_sent: players[i].pending[k].1.t_sent,
                                    t_recv: Some(t_dohb_recv),
                                },
                            ),
                        ),
                        ..players[i]
                    },
                ),
            },
        },
    }
}

/// The client-reported round trip, clamped into 32 bits as the room stores
/// it.
pub open spec fn clamp_u32(t: u64) -> u32 {
    if t > u32::MAX {
        u32::MAX
    } else {
        t as u32
    }
}

/// The players after a latency report: if the sender is a known player and
/// the report closes a fully tracked probe, the derived sample enters their
/// rolling window and the probe bookkeeping is cleared; otherwise nothing
/// happens.
pub open spec fn latency_players(
    players: Seq<EntryView>,
    sender: Option<PlayerId>,
    hbid: u32,
    t_lat: u64,
) -> Seq<EntryView> {
    match sender {
        None => players,
        Some(pid) => match find_player(players, pid) {
            None => players,
            Some(i) => match hb_find(players[i].pending, hbid) {
                None => players,
                Some(k) => match players[i].pending[k].1.spec_delta() {
                    None => players,
                    Some(fwd) => players.update(
                        i,
                        EntryView {
                            latencies: players[i].latencies.drop_first().push(
                                latency_sample(fwd, clamp_u32(t_lat)),
                            ),
                            pending: Seq::empty(),
                            ..players[i]
                        },
                    ),
                },
            },
        },
    }
}

/// The room's transition table: how one command, from the given sender,
/// takes the room from `pre` to `post` and produces `resp`. Every guard of
/// the game's rules is spelled out here; [`Room::handle_command`] is proved
/// to realize exactly this relation.
pub open spec fn step(
    pre: RoomView,
    cmd: GameCommand,
    sender: Option<PlayerId>,
    post: RoomView,
    resp: ResponseView,
) -> bool {
    match cmd {
        GameCommand::StartGame => {
            &&& post == (RoomView { state: GameState::Selection, ..pre })
            &&& resp == broadcast_response(post)
        },
        GameCommand::HostChoice { category_index, question_index } => {
            &&& post == (RoomView {
                current_question: Some((category_index, question_index)),
                current_buzzer: None::<PlayerId>,
                players: reset_buzzed(pre.players),
                state: GameState::QuestionReading,
                ..pre
            })
            &&& resp == broadcast_response(post)
        },
        GameCommand::Buzz => {
            if buzz_accepted(pre, sender) {
                let i = find_player(pre.players, sender->0)->0;
                &&& post == (RoomView {
                    players: set_buzzed(pre.players, i),
                    current_buzzer: Some(sender->0),
                    state: GameState::Answer,
                    ..pre
                })
                &&& resp == (ResponseView {
                    to_host: seq![
                        EventView::PlayerBuzzed {
                            pid: sender->0,
                            name: pre.players[i].player.name,
                        },
                        game_state_event(post),
                    ],
                    to_players: seq![game_state_event(post)],
                    to_specific: all_player_states(post),
                })
            } else {
                post == pre && resp == ResponseView::empty()
            }
        },
        GameCommand::HostReady => {
            &&& post == (RoomView { state: GameState::WaitingForBuzz, ..pre })
            &&& resp == broadcast_response(post)
        },
        GameCommand::HostChecked { correct } => checked_step(pre, correct, post, resp),
        GameCommand::HostSkip => skip_step(pre, post, resp),
        GameCommand::HostContinue => continue_step(pre, post, resp),
        GameCommand::Heartbeat { hbid, t_dohb_recv } => {
            &&& post == (RoomView {
                players: hb_recv_players(pre.players, sender, hbid, t_dohb_recv),
                ..pre
            })
            &&& resp == ResponseView::empty()
        },
        GameCommand::LatencyOfHeartbeat { hbid, t_lat } => {
            &&& post == (RoomView {
                players: latency_players(pre.players, sender, hbid, t_lat),
                ..pre
            })
            &&& resp == ResponseView::empty()
        },
        GameCommand::EndGame => {
            &&& post == (RoomView {
                winner: winner_of(pre.players),
                state: GameState::GameEnd,
                ..pre
            })
            &&& resp == broadcast_response(post)
        },
    }
}


impl Room {
    /// Least position of the entry carrying `pid`, if any.
    fn player_index(&self, pid: PlayerId) -> (r: Option<usize>)
        ensures
            match r {
                Some(i) => find_player(self@.players, pid) == Some(i as int),
                None => find_player(self@.players, pid) is None,
            },
    {
        let mut i: usize = 0;
        while i < self.players.len()
            invariant
                i <= self.players@.len(),
                find_player(self@.players, pid) == find_player_from(self@.players, pid, i as int),
            decreases self.players@.len() - i,
        {
            if self.players[i].player.pid == pid {
                return Some(i);
            }
            i = i + 1;
        }
        None
    }

    /// Whether some player is still able to buzz on the open question.
    fn any_not_buzzed(&self) -> (r: bool)
        ensures
            r == exists|j: int|
                0 <= j < self@.players.len() && !(#[trigger] self@.players[j]).player.buzzed,
    {
        let mut i: usize = 0;
        while i < self.players.len()
            invariant
                i <= self.players@.len(),
                forall|j: int| 0 <= j < i ==> (#[trigger] self@.players[j]).player.buzzed,
            decreases self.players@.len() - i,
        {
            if !self.players[i].player.buzzed {
                proof {
                    assert(!self@.players[i as int].player.buzzed);
                }
                return true;
            }
            i = i + 1;
        }
        false
    }

    /// Clears every player's buzz flag.
    fn reset_all_buzzed(&mut self)
        ensures
            final(self)@ == (RoomView {
                players: reset_buzzed(old(self)@.players),
                ..old(self)@
            }),
            old(self)@.wf() ==> final(self)@.wf(),
    {
        let ghost pre = old(self)@;
        let mut i: usize = 0;
        while i < self.players.len()
            invariant
                i <= self.players@.len(),
                self.players@.len() == pre.players.len(),
                forall|j: int| 0 <= j < i ==> self@.players[j] == reset_entry(#[trigger] pre.players[j]),
                forall|j: int|
                    i <= j < self.players@.len() ==> self@.players[j] == #[trigger] pre.players[j],
                self@ == (RoomView { players: self@.players, ..pre }),
            decreases self.players@.len() - i,
        {
            self.players[i].player.buzzed = false;
            i = i + 1;
        }
        proof {
            assert(self@.players =~= reset_buzzed(pre.players));
            assert(self@ =~= (RoomView { players: reset_buzzed(pre.players), ..pre }));
            if pre.wf() {
                assert forall|k: int| 0 <= k < self@.players.len() implies (#[trigger] self@.players[k]).wf() by {
                    assert(self@.players[k] == reset_entry(pre.players[k]));
                    assert(pre.players[k].wf());
                }
            }
        }
    }

    /// The single command-handling entry point: applies `cmd`, sent by
    /// `sender_id` (`None` for the host), and returns the addressed events
    /// to deliver. The effect is exactly the [`step`] transition relation;
    /// stale or unauthorized commands leave the room untouched and return
    /// an empty response.
    pub fn handle_command(&mut self, cmd: &GameCommand, sender_id: Option<PlayerId>) -> (r:
        RoomResponse)
        requires
            old(self)@.wf(),
        ensures
            final(self)@.wf(),
            step(old(self)@, *cmd, sender_id, final(self)@, r@),
    {
        match cmd {
            GameCommand::StartGame => {
                self.state = GameState::Selection;
                let r = RoomResponse::broadcast_state(self.build_game_state_msg()).merge(
                    self.build_all_player_states(),
                );
                proof {
                    assert(self@ =~= (RoomView { state: GameState::Selection, ..old(self)@ }));
                    assert(r@ =~= broadcast_response(self@));
                }
                r
            },
            GameCommand::HostChoice { category_index, question_index } => {
                self.current_question = Some((*category_index, *question_index));
                self.current_buzzer = None;
                self.reset_all_buzzed();
                self.state = GameState::QuestionReading;
                let r = RoomResponse::broadcast_state(self.build_game_state_msg()).merge(
                    self.build_all_player_states(),
                );
                proof {
                    assert(self@ =~= (RoomView {
                        current_question: Some((*category_index, *question_index)),
                        current_buzzer: None::<PlayerId>,
                        players: reset_buzzed(old(self)@.players),
                        state: GameState::QuestionReading,
                        ..old(self)@
                    }));
                    assert(r@ =~= broadcast_response(self@));
                }
                r
            },
            GameCommand::Buzz => {
                let is_waiting = match self.state {
                    GameState::WaitingForBuzz => true,
                    _ => false,
                };
                if is_waiting {
                    if let Some(player_id) = sender_id {
                        match self.player_index(player_id) {
                            Some(i) => {
                                proof {
                                    lemma_find_player_from(self@.players, player_id, 0);
                                }
                                if !self.players[i].player.buzzed {
                                    proof {
                                        assert(buzz_accepted(old(self)@, sender_id));
                                    }
                                    self.players[i].player.buzzed = true;
                                    self.current_buzzer = Some(player_id);
                                    self.state = GameState::Answer;
                                    let buzzed_msg = GameEvent::PlayerBuzzed {
                                        pid: player_id,
                                        name: self.players[i].player.name.clone(),
                                    };
                                    let r = RoomResponse::to_host(buzzed_msg).merge(
                                        RoomResponse::broadcast_state(self.build_game_state_msg()),
                                    ).merge(self.build_all_player_states());
                                    proof {
                                        assert(self@.players =~= set_buzzed(
                                            old(self)@.players,
                                            i as int,
                                        ));
                                        assert(self@ =~= (RoomView {
                                            players: set_buzzed(old(self)@.players, i as int),
                                            current_buzzer: Some(player_id),
                                            state: GameState::Answer,
                                            ..old(self)@
                                        }));
                                        assert(buzzed_msg@ == EventView::PlayerBuzzed {
                                            pid: player_id,
                                            name: old(self)@.players[i as int].player.name,
                                        });
                                        assert(r@ =~= (ResponseView {
                                            to_host: seq![
                                                EventView::PlayerBuzzed {
                                                    pid: player_id,
                                                    name: old(self)@.players[
                                                        i as int
                                                    ].player.name,
                                                },
                                                game_state_event(self@),
                                            ],
                                            to_players: seq![game_state_event(self@)],
                                            to_specific: all_player_states(self@),
                                        }));
                                        assert forall|k: int|
                                            0 <= k < self@.players.len() implies (
                                        #[trigger] self@.players[k]).wf() by {
                                            if k != i as int {
                                                assert(self@.players[k] == old(self)@.players[k]);
                                            }
                                        }
                                    }
                                    return r;
                                } else {
                                    proof {
                                        lemma_find_player_from(self@.players, player_id, 0);
                                        assert(!buzz_accepted(old(self)@, sender_id));
                                    }
                                }
                            },
                            None => {
                                proof {
                                    assert(!buzz_accepted(old(self)@, sender_id));
                                }
                            },
                        }
                    }
                }
                RoomResponse::new()
            },
            GameCommand::HostReady => {
                self.state = GameState::WaitingForBuzz;
                let r = RoomResponse::broadcast_state(self.build_game_state_msg()).merge(
                    self.build_all_player_states(),
                );
                proof {
                    assert(self@ =~= (RoomView {
                        state: GameState::WaitingForBuzz,
                        ..old(self)@
                    }));
                    assert(r@ =~= broadcast_response(self@));
                }
                r
            },
            GameCommand::HostChecked { correct } => self.handle_host_checked(*correct),
            GameCommand::HostSkip => self.handle_host_skip(),
            GameCommand::HostContinue => self.handle_host_continue(),
            GameCommand::Heartbeat { hbid, t_dohb_recv } => {
                if let Some(sender) = sender_id {
                    match self.player_index(sender) {
                        Some(i) => {
                            proof {
                                lemma_find_player_from(self@.players, sender, 0);
                            }
                            let _known = self.players[i].on_know_dohb_recv(*hbid, *t_dohb_recv);
                            proof {
                                assert(self@.players =~= hb_recv_players(
                                    old(self)@.players,
                                    sender_id,
                                    *hbid,
                                    *t_dohb_recv,
                                ));
                                assert(self@ =~= (RoomView {
                                    players: hb_recv_players(
                                        old(self)@.players,
                                        sender_id,
                                        *hbid,
                                        *t_dohb_recv,
                                    ),
                                    ..old(self)@
                                }));
                                assert forall|k: int|
                                    0 <= k < self@.players.len() implies (
                                #[trigger] self@.players[k]).wf() by {
                                    if k != i as int {
                                        assert(self@.players[k] == old(self)@.players[k]);
                                    } else {
                                        assert(old(self)@.players[k].wf());
                                    }
                                }
                            }
                        },
                        None => {},
                    }
                }
                let r = RoomResponse::new();
                proof {
                    assert(self@ =~= (RoomView {
                        players: hb_recv_players(
                            old(self)@.players,
                            sender_id,
                            *hbid,
                            *t_dohb_recv,
                        ),
                        ..old(self)@
                    }));
                }
                r
            },
            GameCommand::LatencyOfHeartbeat { hbid, t_lat } => {
                if let Some(sender) = sender_id {
                    match self.player_index(sender) {
                        Some(i) => {
                            proof {
                                lemma_find_player_from(self@.players, sender, 0);
                            }
                            let t_lat_u32: u32 = if *t_lat > u32::MAX as u64 {
                                u32::MAX
                            } else {
                                (*t_lat) as u32
                            };
                            let _known = self.players[i].on_latencyhb(*hbid, t_lat_u32);
                            proof {
                                assert(self@.players =~= latency_players(
                                    old(self)@.players,
                                    sender_id,
                                    *hbid,
                                    *t_lat,
                                ));
                                assert(self@ =~= (RoomView {
                                    players: latency_players(
                                        old(self)@.players,
                                        sender_id,
                                        *hbid,
                                        *t_lat,
                                    ),
                                    ..old(self)@
                                }));
                                assert forall|k: int|
                                    0 <= k < self@.players.len() implies (
                                #[trigger] self@.players[k]).wf() by {
                                    if k != i as int {
                                        assert(self@.players[k] == old(self)@.players[k]);
                                    }
                                }
                            }
                        },
                        None => {},
                    }
                }
                let r = RoomResponse::new();
                proof {
                    assert(self@ =~= (RoomView {
                        players: latency_players(old(self)@.players, sender_id, *hbid, *t_lat),
                        ..old(self)@
                    }));
                }
                r
            },
            GameCommand::EndGame => {
                self.determine_winner();
                self.state = GameState::GameEnd;
                let r = RoomResponse::broadcast_state(self.build_game_state_msg()).merge(
                    self.build_all_player_states(),
                );
                proof {
                    assert(self@ =~= (RoomView {
                        winner: winner_of(old(self)@.players),
                        state: GameState::GameEnd,
                        ..old(self)@
                    }));
                    assert(r@ =~= broadcast_response(self@));
                }
                r
            },
        }
    }

    /// Judges the buzzer's answer; see [`checked_step`] for the full rule.
    fn handle_host_checked(&mut self, correct: bool) -> (r: RoomResponse)
        requires
            old(self)@.wf(),
        ensures
            final(self)@.wf(),
            checked_step(old(self)@, correct, final(self)@, r@),
    {
        let (cat_idx, q_idx) = match self.current_question {
            Some(pair) => pair,
            None => {
                return RoomResponse::new();
            },
        };
        if !(cat_idx < self.categories.len()) {
            return RoomResponse::new();
        }
        if !(q_idx < self.categories[cat_idx].questions.len()) {
            return RoomResponse::new();
        }
        let value = self.categories[cat_idx].questions[q_idx].value as i32;
        let ghost pre = old(self)@;
        if let Some(buzzer_id) = self.current_buzzer {
            match self.player_index(buzzer_id) {
                Some(i) => {
                    proof {
                        lemma_find_player_from(self@.players, buzzer_id, 0);
                    }
                    let score = self.players[i].player.score;
                    self.players[i].player.score = if correct {
                        score.wrapping_add(value)
                    } else {
                        score.wrapping_sub(value)
                    };
                },
                None => {},
            }
        }
        proof {
            assert(self@.players =~= score_buzzer(pre.players, pre.current_buzzer, correct, value));
            assert(self@ =~= (RoomView {
                players: score_buzzer(pre.players, pre.current_buzzer, correct, value),
                ..pre
            }));
            assert forall|k: int| 0 <= k < self@.players.len() implies (#[trigger] self@.players[k]).wf() by {
                if self@.players[k] != pre.players[k] {
                    assert(pre.players[k].wf());
                }
                assert(pre.players[k].wf());
            }
        }
        let ghost scored = self@.players;
        let any_can_buzz = self.any_not_buzzed();
        if correct || !any_can_buzz {
            self.categories[cat_idx].questions[q_idx].answered = true;
            proof {
                assert(self@.categories =~~= mark_answered(pre.categories, cat_idx as int, q_idx as int));
            }
            self.current_question = None;
            self.current_buzzer = None;
            if self.has_remaining_questions() {
                self.state = GameState::Selection;
            } else {
                self.determine_winner();
                self.state = GameState::GameEnd;
            }
            let r = RoomResponse::broadcast_state(self.build_game_state_msg()).merge(
                self.build_all_player_states(),
            );
            proof {
                let cats = mark_answered(pre.categories, cat_idx as int, q_idx as int);
                let ends = !has_unanswered(cats);
                assert(self@ =~= (RoomView {
                    players: scored,
                    categories: cats,
                    current_question: None::<(usize, usize)>,
                    current_buzzer: None::<PlayerId>,
                    state: if ends {
                        GameState::GameEnd
                    } else {
                        GameState::Selection
                    },
                    winner: if ends {
                        winner_of(scored)
                    } else {
                        pre.winner
                    },
                    ..pre
                }));
                assert(r@ =~= broadcast_response(self@));
            }
            r
        } else {
            self.current_buzzer = None;
            self.state = GameState::WaitingForBuzz;
            let r = RoomResponse::broadcast_state(self.build_game_state_msg()).merge(
                self.build_all_player_states(),
            );
            proof {
                assert(self@ =~= (RoomView {
                    players: scored,
                    current_buzzer: None::<PlayerId>,
                    state: GameState::WaitingForBuzz,
                    ..pre
                }));
                assert(r@ =~= broadcast_response(self@));
            }
            r
        }
    }

    /// Retires the open question without touching scores and shows the
    /// answer; see [`skip_step`].
    pub fn handle_host_skip(&mut self) -> (r: RoomResponse)
        requires
            old(self)@.wf(),
        ensures
            final(self)@.wf(),
            skip_step(old(self)@, final(self)@, r@),
    {
        let (cat_idx, q_idx) = match self.current_question {
            Some(pair) => pair,
            None => {
                return RoomResponse::new();
            },
        };
        let ghost pre = old(self)@;
        if cat_idx < self.categories.len() {
            if q_idx < self.categories[cat_idx].questions.len() {
                self.categories[cat_idx].questions[q_idx].answered = true;
                proof {
                    assert(self@.categories =~~= mark_answered(
                        pre.categories,
                        cat_idx as int,
                        q_idx as int,
                    ));
                }
            }
        }
        self.state = GameState::AnswerReveal;
        let r = RoomResponse::broadcast_state(self.build_game_state_msg()).merge(
            self.build_all_player_states(),
        );
        proof {
            let cats = if cat_idx < pre.categories.len() && q_idx < pre.categories[
                cat_idx as int
            ].questions.len() {
                mark_answered(pre.categories, cat_idx as int, q_idx as int)
            } else {
                pre.categories
            };
            assert(self@ =~= (RoomView {
                categories: cats,
                state: GameState::AnswerReveal,
                ..pre
            }));
            assert(r@ =~= broadcast_response(self@));
        }
        r
    }

    /// Advances out of the answer reveal; see [`continue_step`].
    fn handle_host_continue(&mut self) -> (r: RoomResponse)
        requires
            old(self)@.wf(),
        ensures
            final(self)@.wf(),
            continue_step(old(self)@, final(self)@, r@),
    {
        let ghost pre = old(self)@;
        self.current_question = None;
        self.current_buzzer = None;
        self.reset_all_buzzed();
        if self.has_remaining_questions() {
            self.state = GameState::Selection;
        } else {
            self.determine_winner();
            self.state = GameState::GameEnd;
        }
        let r = RoomResponse::broadcast_state(self.build_game_state_msg()).merge(
            self.build_all_player_states(),
        );
        proof {
            let players2 = reset_buzzed(pre.players);
            let ends = !has_unanswered(pre.categories);
            assert(self@ =~= (RoomView {
                current_question: None::<(usize, usize)>,
                current_buzzer: None::<PlayerId>,
                players: players2,
                state: if ends {
                    GameState::GameEnd
                } else {
                    GameState::Selection
                },
                winner: if ends {
                    winner_of(players2)
                } else {
                    pre.winner
                },
                ..pre
            }));
            assert(r@ =~= broadcast_response(self@));
        }
        r
    }
}


/// How long a witnessed event is held back for a client with the given
/// mean latency: the remainder of a fixed ceiling assumed to exceed any
/// real latency, so all clients perceive the event at about the same
/// instant.
pub open spec fn witness_delay(latency: int) -> int {
    if latency >= 500 {
        0
    } else {
        500 - latency
    }
}

impl Room {
    /// The event a command's witnessed broadcast carries, if it needs one:
    /// only opening the buzzers is timing-critical, and it carries the full
    /// game state.
    pub fn witness_event_for(&self, cmd: &GameCommand) -> (r: Option<GameEvent>)
        ensures
            match r {
                Some(e) => *cmd is HostReady && e@ == game_state_event(self@),
                None => !(*cmd is HostReady),
            },
    {
        match cmd {
            GameCommand::HostReady => Some(self.build_game_state_msg()),
            _ => None,
        }
    }

    /// Plans the latency-compensated fan-out of `event`: for every player,
    /// the witness-wrapped event and how many milliseconds to hold it back.
    /// The network edge schedules each send independently; a failed send to
    /// a stale channel is its business to swallow.
    pub fn broadcast_witness(&self, event: GameEvent) -> (r: Vec<(PlayerId, u64, GameEvent)>)
        requires
            self@.wf(),
        ensures
            r@.len() == self@.players.len(),
            forall|i: int|
                0 <= i < r@.len() ==> {
                    &&& (#[trigger] r@[i]).0 == self@.players[i].player.pid
                    &&& r@[i].1 == witness_delay(self@.players[i].mean_latency())
                    &&& r@[i].2@ == (EventView::Witness { msg: Box::new(event@) })
                },
    {
        let witness_event = GameEvent::Witness { msg: Box::new(event) };
        let mut out: Vec<(PlayerId, u64, GameEvent)> = Vec::new();
        let mut i: usize = 0;
        while i < self.players.len()
            invariant
                self@.wf(),
                i <= self.players@.len(),
                out@.len() == i,
                witness_event@ == (EventView::Witness { msg: Box::new(event@) }),
                forall|j: int|
                    0 <= j < i ==> {
                        &&& (#[trigger] out@[j]).0 == self@.players[j].player.pid
                        &&& out@[j].1 == witness_delay(self@.players[j].mean_latency())
                        &&& out@[j].2@ == (EventView::Witness { msg: Box::new(event@) })
                    },
            decreases self.players@.len() - i,
        {
            proof {
                assert(self@.players[i as int].wf());
            }
            let lat = self.players[i].latency();
            let delay: u64 = 500u64.saturating_sub(lat as u64);
            out.push((self.players[i].player.pid, delay, witness_event.clone()));
            i = i + 1;
        }
        out
    }

    /// Opens a heartbeat round on every player's tracker at time `now_ms`
    /// and returns the probe each one must be sent.
    pub fn request_heartbeats(&mut self, now_ms: UnixMs) -> (r: Vec<(PlayerId, GameEvent)>)
        requires
            old(self)@.wf(),
        ensures
            final(self)@.wf(),
            r@.len() == old(self)@.players.len(),
            forall|i: int|
                0 <= i < r@.len() ==> {
                    &&& (#[trigger] r@[i]).0 == old(self)@.players[i].player.pid
                    &&& r@[i].1@ == (EventView::DoHeartbeat {
                        hbid: crate::connection::spec_hbid(old(self)@.players[i], now_ms),
                        t_sent: now_ms,
                    })
                },
            final(self)@ == (RoomView {
                players: Seq::new(
                    old(self)@.players.len(),
                    |i: int|
                        EntryView {
                            pending: hb_insert(
                                old(self)@.players[i].pending,
                                crate::connection::spec_hbid(old(self)@.players[i], now_ms),
                                now_ms,
                            ),
                            hbid_counter: crate::connection::next_counter(
                                old(self)@.players[i].hbid_counter,
                            ),
                            ..old(self)@.players[i]
                        },
                ),
                ..old(self)@
            }),
    {
        let ghost pre = old(self)@;
        let ghost target = Seq::new(
            pre.players.len(),
            |i: int|
                EntryView {
                    pending: hb_insert(
                        pre.players[i].pending,
                        crate::connection::spec_hbid(pre.players[i], now_ms),
                        now_ms,
                    ),
                    hbid_counter: crate::connection::next_counter(pre.players[i].hbid_counter),
                    ..pre.players[i]
                },
        );
        let mut out: Vec<(PlayerId, GameEvent)> = Vec::new();
        let mut i: usize = 0;
        while i < self.players.len()
            invariant
                i <= self.players@.len(),
                self.players@.len() == pre.players.len(),
                out@.len() == i,
                target == Seq::new(
                    pre.players.len(),
                    |k: int|
                        EntryView {
                            pending: hb_insert(
                                pre.players[k].pending,
                                crate::connection::spec_hbid(pre.players[k], now_ms),
                                now_ms,
                            ),
                            hbid_counter: crate::connection::next_counter(
                                pre.players[k].hbid_counter,
                            ),
                            ..pre.players[k]
                        },
                ),
                forall|j: int| 0 <= j < i ==> self@.players[j] == target[j],
                forall|j: int|
                    i <= j < self.players@.len() ==> self@.players[j] == #[trigger] pre.players[j],
                forall|j: int|
                    0 <= j < i ==> {
                        &&& (#[trigger] out@[j]).0 == pre.players[j].player.pid
                        &&& out@[j].1@ == (EventView::DoHeartbeat {
                            hbid: crate::connection::spec_hbid(pre.players[j], now_ms),
                            t_sent: now_ms,
                        })
                    },
                self@ == (RoomView { players: self@.players, ..pre }),
                pre.wf(),
            decreases self.players@.len() - i,
        {
            proof {
                assert(self@.players[i as int] == pre.players[i as int]);
            }
            let pid = self.players[i].player.pid;
            let hbid = self.players[i].heartbeat(now_ms);
            out.push((pid, GameEvent::DoHeartbeat { hbid, t_sent: now_ms }));
            i = i + 1;
        }
        proof {
            assert(self@.players =~= target);
            assert(self@ =~= (RoomView { players: target, ..pre }));
            assert forall|k: int| 0 <= k < self@.players.len() implies (#[trigger] self@.players[k]).wf() by {
                assert(self@.players[k] == target[k]);
                assert(pre.players[k].wf());
            }
        }
        out
    }
}


/// The roster event sent to the host when membership changes.
pub open spec fn player_list_event(r: RoomView) -> EventView {
    EventView::PlayerList(r.players.map_values(|e: EntryView| e.player))
}

impl Room {
    /// Builds the roster event from the current players.
    pub fn build_player_list_msg(&self) -> (r: GameEvent)
        ensures
            r@ == player_list_event(self@),
    {
        let mut players: Vec<crate::player::Player> = Vec::new();
        let mut i: usize = 0;
        while i < self.players.len()
            invariant
                i <= self.players@.len(),
                players@.len() == i,
                forall|j: int| 0 <= j < i ==> (#[trigger] players@[j])@ == self@.players[j].player,
            decreases self.players@.len() - i,
        {
            players.push(self.players[i].player.clone());
            i = i + 1;
        }
        let r = GameEvent::PlayerList(players);
        proof {
            assert(r@ =~= player_list_event(self@));
        }
        r
    }
}

} // verus!
