//! The game's guarantees, each proved once and for all over the [`step`]
//! transition relation that [`crate::room::Room::handle_command`] realizes.

use crate::connection::EntryView;
use crate::game::{GameState, ResponseView};
use crate::messages::GameCommand;
use crate::player::PlayerId;
use crate::room::{
    buzz_accepted, count_with_score, find_player, find_score_from, has_unanswered,
    lemma_find_player_from, lemma_find_score_from, lemma_max_attained, mark_answered, max_score,
    score_buzzer, step, winner_of, RoomView,
};
use vstd::prelude::*;

verus! {

/// First buzz wins. With the buzzers open and nobody buzzed yet, the first
/// buzz to be serialized is accepted: its sender becomes the one buzzer,
/// only their flag is set, and the room moves to `Answer` — whereupon every
/// buzz serialized after it, from anyone, changes nothing. Concurrent
/// buzzes are serialized by the room's single-writer lock, so exactly one
/// of them is first.
pub proof fn lemma_first_buzz_wins(
    pre: RoomView,
    p: PlayerId,
    post: RoomView,
    resp: ResponseView,
    q: Option<PlayerId>,
    post2: RoomView,
    resp2: ResponseView,
)
    requires
        pre.state == GameState::WaitingForBuzz,
        forall|k: int| 0 <= k < pre.players.len() ==> !(#[trigger] pre.players[k]).player.buzzed,
        exists|k: int| 0 <= k < pre.players.len() && (#[trigger] pre.players[k]).player.pid == p,
        step(pre, GameCommand::Buzz, Some(p), post, resp),
        step(post, GameCommand::Buzz, q, post2, resp2),
    ensures
        post.state == GameState::Answer,
        post.current_buzzer == Some(p),
        post.players.len() == pre.players.len(),
        exists|i: int|
            0 <= i < post.players.len() && (#[trigger] post.players[i]).player.pid == p
                && post.players[i].player.buzzed && forall|k: int|
                0 <= k < post.players.len() && k != i ==> !(
                #[trigger] post.players[k]).player.buzzed,
        post2 == post,
        resp2 == ResponseView::empty(),
{
    lemma_find_player_from(pre.players, p, 0);
    let w = choose|k: int|
        0 <= k < pre.players.len() && (#[trigger] pre.players[k]).player.pid == p;
    assert(pre.players[w].player.pid == p);
    assert(find_player(pre.players, p) is Some);
    let i = find_player(pre.players, p)->0;
    assert(buzz_accepted(pre, Some(p)));
    assert(post.players[i].player.pid == p && post.players[i].player.buzzed);
    assert(forall|k: int|
        0 <= k < post.players.len() && k != i ==> post.players[k] == pre.players[k]);
    assert(!buzz_accepted(post, q));
}

/// No double buzz. A player whose flag is already set cannot become the
/// buzzer again before a `HostChoice` or `HostContinue` resets the flags:
/// their buzz is ignored outright.
pub proof fn lemma_no_double_buzz(
    pre: RoomView,
    p: PlayerId,
    post: RoomView,
    resp: ResponseView,
)
    requires
        find_player(pre.players, p) is Some,
        pre.players[find_player(pre.players, p)->0].player.buzzed,
        step(pre, GameCommand::Buzz, Some(p), post, resp),
    ensures
        post == pre,
        resp == ResponseView::empty(),
{
    assert(!buzz_accepted(pre, Some(p)));
}

/// Scoring symmetry. Judging the open question adds its point value to the
/// buzzer's score when correct and subtracts the same value when not, and
/// touches nobody else's score; scores may go negative. Stated away from
/// the integer limits, where the sum is representable.
pub proof fn lemma_scoring_symmetry(
    pre: RoomView,
    correct: bool,
    post: RoomView,
    resp: ResponseView,
)
    requires
        pre.current_question matches Some((ci, qi)) && ci < pre.categories.len() && qi
            < pre.categories[ci as int].questions.len(),
        pre.current_buzzer is Some,
        find_player(pre.players, pre.current_buzzer->0) is Some,
        ({
            let (ci, qi) = pre.current_question->0;
            pre.categories[ci as int].questions[qi as int].value <= i32::MAX
        }),
        ({
            let (ci, qi) = pre.current_question->0;
            let b = find_player(pre.players, pre.current_buzzer->0)->0;
            let v = pre.categories[ci as int].questions[qi as int].value as int;
            &&& i32::MIN <= pre.players[b].player.score + v <= i32::MAX
            &&& i32::MIN <= pre.players[b].player.score - v <= i32::MAX
        }),
        step(pre, GameCommand::HostChecked { correct }, None, post, resp),
    ensures
        ({
            let (ci, qi) = pre.current_question->0;
            let b = find_player(pre.players, pre.current_buzzer->0)->0;
            let v = pre.categories[ci as int].questions[qi as int].value as int;
            &&& post.players.len() == pre.players.len()
            &&& post.players[b].player.score == if correct {
                pre.players[b].player.score + v
            } else {
                pre.players[b].player.score - v
            }
            &&& forall|k: int|
                0 <= k < pre.players.len() && k != b ==> (
                #[trigger] post.players[k]).player.score == pre.players[k].player.score
        }),
{
    let b = find_player(pre.players, pre.current_buzzer->0)->0;
    lemma_find_player_from(pre.players, pre.current_buzzer->0, 0);
    let (ci, qi) = pre.current_question->0;
    let v32 = pre.categories[ci as int].questions[qi as int].value as i32;
    let scored = score_buzzer(pre.players, pre.current_buzzer, correct, v32);
    assert(scored[b].player.score == if correct {
        pre.players[b].player.score.wrapping_add(v32)
    } else {
        pre.players[b].player.score.wrapping_sub(v32)
    });
    assert(post.players == scored);
}

/// A tie at the top yields no winner: with two players sharing the highest
/// score, the computed winner is nobody, whatever the rest look like.
pub proof fn lemma_tie_no_winner(players: Seq<EntryView>, i: int, j: int)
    requires
        0 <= i < players.len(),
        0 <= j < players.len(),
        i != j,
        players[i].player.score == players[j].player.score,
        forall|k: int|
            0 <= k < players.len() ==> (#[trigger] players[k]).player.score
                <= players[i].player.score,
    ensures
        winner_of(players) == None::<PlayerId>,
{
    lemma_max_attained(players);
    let m = max_score(players);
    let w = choose|k: int|
        0 <= k < players.len() && (#[trigger] players[k]).player.score == max_score(players);
    assert(players[w].player.score <= players[i].player.score);
    assert(players[i].player.score == m);
    lemma_count_at_least_two(players, m as int, if i < j {
        i
    } else {
        j
    }, if i < j {
        j
    } else {
        i
    });
}

/// A strictly highest score wins, even when every score is negative.
pub proof fn lemma_unique_max_wins(players: Seq<EntryView>, i: int)
    requires
        0 <= i < players.len(),
        forall|k: int|
            0 <= k < players.len() && k != i ==> (#[trigger] players[k]).player.score
                < players[i].player.score,
    ensures
        winner_of(players) == Some(players[i].player.pid),
{
    lemma_max_attained(players);
    let m = max_score(players);
    assert(players[i].player.score == m) by {
        let w = choose|k: int|
            0 <= k < players.len() && (#[trigger] players[k]).player.score == max_score(players);
        if w != i {
            assert(players[w].player.score < players[i].player.score);
        }
    }
    lemma_count_exactly_one(players, m as int, i);
    lemma_find_score_from(players, m as int, 0);
    let f = find_score_from(players, m as int, 0)->0;
    assert(f == i) by {
        if f != i {
            assert(players[f].player.score < players[i].player.score);
        }
    }
}

/// Two distinct positions holding score `s` put the count at two or more.
pub proof fn lemma_count_at_least_two(players: Seq<EntryView>, s: int, i: int, j: int)
    requires
        0 <= i < j < players.len(),
        players[i].player.score == s,
        players[j].player.score == s,
    ensures
        count_with_score(players, s) >= 2,
    decreases players.len(),
{
    if j == players.len() - 1 {
        lemma_count_at_least_one(players.drop_last(), s, i);
    } else {
        lemma_count_at_least_two(players.drop_last(), s, i, j);
    }
}

/// One position holding score `s` puts the count at one or more.
pub proof fn lemma_count_at_least_one(players: Seq<EntryView>, s: int, i: int)
    requires
        0 <= i < players.len(),
        players[i].player.score == s,
    ensures
        count_with_score(players, s) >= 1,
    decreases players.len(),
{
    if i < players.len() - 1 {
        lemma_count_at_least_one(players.drop_last(), s, i);
    }
}

/// With nobody at score `s`, the count is zero.
pub proof fn lemma_count_zero_when_absent(players: Seq<EntryView>, s: int)
    requires
        forall|k: int| 0 <= k < players.len() ==> (#[trigger] players[k]).player.score != s,
    ensures
        count_with_score(players, s) == 0,
    decreases players.len(),
{
    if players.len() > 0 {
        let prefix = players.drop_last();
        assert forall|k: int|
            0 <= k < prefix.len() implies (#[trigger] prefix[k]).player.score != s by {
            assert(prefix[k] == players[k]);
        }
        lemma_count_zero_when_absent(prefix, s);
    }
}

/// With exactly one position at score `s`, the count is exactly one.
pub proof fn lemma_count_exactly_one(players: Seq<EntryView>, s: int, i: int)
    requires
        0 <= i < players.len(),
        players[i].player.score == s,
        forall|k: int|
            0 <= k < players.len() && k != i ==> (#[trigger] players[k]).player.score != s,
    ensures
        count_with_score(players, s) == 1,
    decreases players.len(),
{
    let prefix = players.drop_last();
    if i == players.len() - 1 {
        assert forall|k: int|
            0 <= k < prefix.len() implies (#[trigger] prefix[k]).player.score != s by {
            assert(prefix[k] == players[k]);
        }
        lemma_count_zero_when_absent(prefix, s);
    } else {
        assert forall|k: int|
            0 <= k < prefix.len() && k != i implies (#[trigger] prefix[k]).player.score != s by {
            assert(prefix[k] == players[k]);
        }
        lemma_count_exactly_one(prefix, s, i);
    }
}

/// Exhaustion. When judging retires the question — a correct answer, or an
/// incorrect one once every player has buzzed — the room ends the game with
/// a freshly computed winner exactly when no unanswered question remains
/// anywhere; otherwise it returns to `Selection` and the winner is not yet
/// set.
pub proof fn lemma_exhaustion(pre: RoomView, correct: bool, post: RoomView, resp: ResponseView)
    requires
        pre.current_question matches Some((ci, qi)) && ci < pre.categories.len() && qi
            < pre.categories[ci as int].questions.len(),
        correct || forall|k: int|
            0 <= k < pre.players.len() ==> (#[trigger] pre.players[k]).player.buzzed,
        step(pre, GameCommand::HostChecked { correct }, None, post, resp),
    ensures
        ({
            let (ci, qi) = pre.current_question->0;
            let cats = mark_answered(pre.categories, ci as int, qi as int);
            if has_unanswered(cats) {
                post.state == GameState::Selection && post.winner == pre.winner
            } else {
                post.state == GameState::GameEnd && post.winner == winner_of(post.players)
            }
        }),
{
    let (ci0, qi0) = pre.current_question->0;
    let ci = ci0 as int;
    let qi = qi0 as int;
    let value = pre.categories[ci].questions[qi].value as i32;
    let scored = score_buzzer(pre.players, pre.current_buzzer, correct, value);
    if pre.current_buzzer is Some {
        lemma_find_player_from(pre.players, pre.current_buzzer->0, 0);
    }
    assert(scored.len() == pre.players.len());
    if !correct {
        assert forall|k: int|
            0 <= k < scored.len() implies (#[trigger] scored[k]).player.buzzed by {
            if pre.current_buzzer is Some && (find_player(pre.players, pre.current_buzzer->0)
                matches Some(b) && k == b) {
                assert(scored[k].player.buzzed == pre.players[k].player.buzzed);
            } else {
                assert(scored[k] == pre.players[k]);
            }
        }
    }
}

/// Exhaustion via the reveal path: advancing out of the answer reveal ends
/// the game with a freshly computed winner exactly when no unanswered
/// question remains anywhere; otherwise play returns to `Selection` and
/// the winner is untouched.
pub proof fn lemma_continue_exhaustion(
    pre: RoomView,
    sender: Option<PlayerId>,
    post: RoomView,
    resp: ResponseView,
)
    requires
        step(pre, GameCommand::HostContinue, sender, post, resp),
    ensures
        if has_unanswered(pre.categories) {
            post.state == GameState::Selection && post.winner == pre.winner
        } else {
            post.state == GameState::GameEnd && post.winner == winner_of(post.players)
        },
{
}

/// Idempotent empty response. A skip or judgment with no open question —
/// or one whose indices reference no existing question — and a buzz that
/// fails its guard, leave the room exactly as it was, scores and answered
/// flags included, and say nothing to anyone.
pub proof fn lemma_stale_commands_ignored(
    pre: RoomView,
    cmd: GameCommand,
    sender: Option<PlayerId>,
    post: RoomView,
    resp: ResponseView,
)
    requires
        step(pre, cmd, sender, post, resp),
        match cmd {
            GameCommand::HostSkip => pre.current_question is None,
            GameCommand::HostChecked { .. } => pre.current_question is None || ({
                let (ci, qi) = pre.current_question->0;
                !(ci < pre.categories.len() && qi < pre.categories[ci as int].questions.len())
            }),
            GameCommand::Buzz => !buzz_accepted(pre, sender),
            _ => false,
        },
    ensures
        post == pre,
        resp == ResponseView::empty(),
{
}


/// The room's buzzer invariant: a recorded buzzer always refers to an
/// existing player whose buzz flag is set.
pub open spec fn buzzer_consistent(r: RoomView) -> bool {
    r.current_buzzer matches Some(b) ==> (find_player(r.players, b) matches Some(i)
        && r.players[i].player.buzzed)
}

/// Finding a player looks only at ids: two player lists that agree on every
/// id agree on every lookup.
pub proof fn lemma_find_player_same_pids(
    a: Seq<EntryView>,
    b: Seq<EntryView>,
    pid: PlayerId,
    i: int,
)
    requires
        a.len() == b.len(),
        forall|k: int| 0 <= k < a.len() ==> (#[trigger] a[k]).player.pid == b[k].player.pid,
        0 <= i <= a.len(),
    ensures
        crate::room::find_player_from(a, pid, i) == crate::room::find_player_from(b, pid, i),
    decreases a.len() - i,
{
    if i < a.len() {
        assert(a[i].player.pid == b[i].player.pid);
        if a[i].player.pid != pid {
            lemma_find_player_same_pids(a, b, pid, i + 1);
        }
    }
}

/// Every transition keeps the buzzer invariant: however a game is driven,
/// `current_buzzer` never dangles and never names a player who has not
/// buzzed.
pub proof fn lemma_step_preserves_buzzer_consistency(
    pre: RoomView,
    cmd: GameCommand,
    sender: Option<PlayerId>,
    post: RoomView,
    resp: ResponseView,
)
    requires
        buzzer_consistent(pre),
        step(pre, cmd, sender, post, resp),
    ensures
        buzzer_consistent(post),
{
    match cmd {
        GameCommand::Buzz => {
            if buzz_accepted(pre, sender) {
                let p = sender->0;
                let i = find_player(pre.players, p)->0;
                lemma_find_player_from(pre.players, p, 0);
                lemma_find_player_same_pids(post.players, pre.players, p, 0);
                assert(post.players[i].player.buzzed);
            }
        },
        GameCommand::Heartbeat { .. } => {
            if sender is Some {
                lemma_find_player_from(pre.players, sender->0, 0);
            }
            lemma_tracker_update_keeps_profiles(pre, post);
        },
        GameCommand::LatencyOfHeartbeat { .. } => {
            if sender is Some {
                lemma_find_player_from(pre.players, sender->0, 0);
            }
            lemma_tracker_update_keeps_profiles(pre, post);
        },
        _ => {
        },
    }
}

/// A heartbeat-tracker update changes no player's id or buzz flag, so the
/// buzzer invariant survives it.
proof fn lemma_tracker_update_keeps_profiles(pre: RoomView, post: RoomView)
    requires
        buzzer_consistent(pre),
        pre.current_buzzer == post.current_buzzer,
        post.players.len() == pre.players.len(),
        forall|k: int|
            0 <= k < pre.players.len() ==> (#[trigger] post.players[k]).player
                == pre.players[k].player,
    ensures
        buzzer_consistent(post),
{
    if post.current_buzzer is Some {
        let b = post.current_buzzer->0;
        lemma_find_player_same_pids(post.players, pre.players, b, 0);
        let i = find_player(pre.players, b)->0;
        lemma_find_player_from(pre.players, b, 0);
        assert(post.players[i].player.buzzed == pre.players[i].player.buzzed);
    }
}

} // verus!
