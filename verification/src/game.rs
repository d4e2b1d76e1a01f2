//! Game content: the phases of a game, the categories and questions played
//! through, and the addressed set of events one command produces.

use crate::messages::{EventView, GameEvent};
use crate::player::PlayerId;
use vstd::prelude::*;

verus! {

/// The phase a room's game is in.
///
/// Transitions run `Start -> Selection -> QuestionReading -> WaitingForBuzz
/// -> Answer -> AnswerReveal -> Selection | GameEnd`; `GameEnd` is terminal.
#[derive(Clone, Copy, Debug, PartialEq, Eq, Structural)]
pub enum GameState {
    Start,
    Selection,
    QuestionReading,
    Answer,
    WaitingForBuzz,
    AnswerReveal,
    GameEnd,
}

impl Default for GameState {
    fn default() -> (r: Self)
        ensures
            r == GameState::Start,
    {
        GameState::Start
    }
}

/// One question of a category. `answered` is the only field mutated during
/// play, and never reverted.
#[derive(Debug)]
pub struct Question {
    pub question: String,
    pub answer: String,
    pub value: u32,
    pub answered: bool,
}

/// Mathematical image of a [`Question`].
#[verifier::ext_equal]
pub struct QuestionView {
    pub question: Seq<char>,
    pub answer: Seq<char>,
    pub value: u32,
    pub answered: bool,
}

impl View for Question {
    type V = QuestionView;

    open spec fn view(&self) -> QuestionView {
        QuestionView {
            question: self.question@,
            answer: self.answer@,
            value: self.value,
            answered: self.answered,
        }
    }
}

impl Clone for Question {
    fn clone(&self) -> (r: Self)
        ensures
            r == *self,
    {
        Question {
            question: self.question.clone(),
            answer: self.answer.clone(),
            value: self.value,
            answered: self.answered,
        }
    }
}

/// A titled list of questions.
#[derive(Debug)]
pub struct Category {
    pub title: String,
    pub questions: Vec<Question>,
}

/// Mathematical image of a [`Category`].
#[verifier::ext_equal]
pub struct CategoryView {
    pub title: Seq<char>,
    pub questions: Seq<QuestionView>,
}

impl View for Category {
    type V = CategoryView;

    open spec fn view(&self) -> CategoryView {
        CategoryView {
            title: self.title@,
            questions: self.questions@.map_values(|q: Question| q@),
        }
    }
}

impl Clone for Category {
    fn clone(&self) -> (r: Self)
        ensures
            r@ == self@,
    {
        let mut questions: Vec<Question> = Vec::new();
        let mut i: usize = 0;
        while i < self.questions.len()
            invariant
                i <= self.questions@.len(),
                questions@ == self.questions@.take(i as int),
            decreases self.questions@.len() - i,
        {
            questions.push(self.questions[i].clone());
            proof {
                assert(questions@ =~= self.questions@.take(i + 1 as int));
            }
            i = i + 1;
        }
        proof {
            assert(questions@ =~= self.questions@);
        }
        let r = Category { title: self.title.clone(), questions };
        proof {
            assert(r@ =~= self@);
        }
        r
    }
}

/// The addressed events one handled command produces: some for the host,
/// some broadcast to every player, some for a single player. The three
/// lists compose by concatenation, so handlers can build a response
/// incrementally and merge sub-results.
#[derive(Debug)]
pub struct RoomResponse {
    pub messages_to_host: Vec<GameEvent>,
    pub messages_to_players: Vec<GameEvent>,
    pub messages_to_specific: Vec<(PlayerId, GameEvent)>,
}

/// Mathematical image of a [`RoomResponse`].
#[verifier::ext_equal]
pub struct ResponseView {
    pub to_host: Seq<EventView>,
    pub to_players: Seq<EventView>,
    pub to_specific: Seq<(PlayerId, EventView)>,
}

impl View for RoomResponse {
    type V = ResponseView;

    open spec fn view(&self) -> ResponseView {
        ResponseView {
            to_host: self.messages_to_host@.map_values(|e: GameEvent| e@),
            to_players: self.messages_to_players@.map_values(|e: GameEvent| e@),
            to_specific: self.messages_to_specific@.map_values(
                |p: (PlayerId, GameEvent)| (p.0, p.1@),
            ),
        }
    }
}

impl ResponseView {
    /// The response that says nothing to anyone.
    pub open spec fn empty() -> ResponseView {
        ResponseView { to_host: Seq::empty(), to_players: Seq::empty(), to_specific: Seq::empty() }
    }
}

impl Default for RoomResponse {
    fn default() -> (r: Self)
        ensures
            r@ == ResponseView::empty(),
    {
        let r = RoomResponse {
            messages_to_host: Vec::new(),
            messages_to_players: Vec::new(),
            messages_to_specific: Vec::new(),
        };
        proof {
            assert(r@ =~= ResponseView::empty());
        }
        r
    }
}

impl RoomResponse {
    /// A response with no events.
    pub fn new() -> (r: Self)
        ensures
            r@ == ResponseView::empty(),
            r.messages_to_host@.len() == 0,
            r.messages_to_players@.len() == 0,
            r.messages_to_specific@.len() == 0,
    {
        let r = RoomResponse {
            messages_to_host: Vec::new(),
            messages_to_players: Vec::new(),
            messages_to_specific: Vec::new(),
        };
        proof {
            assert(r@ =~= ResponseView::empty());
        }
        r
    }

    /// One event for the host and, identically, for every player.
    pub fn broadcast_state(state_msg: GameEvent) -> (r: Self)
        ensures
            r@ == (ResponseView {
                to_host: seq![state_msg@],
                to_players: seq![state_msg@],
                to_specific: Seq::empty(),
            }),
    {
        let copy = state_msg.clone();
        let mut messages_to_host: Vec<GameEvent> = Vec::new();
        messages_to_host.push(copy);
        let mut messages_to_players: Vec<GameEvent> = Vec::new();
        messages_to_players.push(state_msg);
        let r = RoomResponse {
            messages_to_host,
            messages_to_players,
            messages_to_specific: Vec::new(),
        };
        proof {
            assert(r@ =~= (ResponseView {
                to_host: seq![state_msg@],
                to_players: seq![state_msg@],
                to_specific: Seq::<(PlayerId, EventView)>::empty(),
            }));
        }
        r
    }

    /// One event addressed to the host only.
    pub fn to_host(msg: GameEvent) -> (r: Self)
        ensures
            r@ == (ResponseView {
                to_host: seq![msg@],
                to_players: Seq::empty(),
                to_specific: Seq::empty(),
            }),
    {
        let mut messages_to_host: Vec<GameEvent> = Vec::new();
        messages_to_host.push(msg);
        let r = RoomResponse {
            messages_to_host,
            messages_to_players: Vec::new(),
            messages_to_specific: Vec::new(),
        };
        proof {
            assert(r@ =~= (ResponseView {
                to_host: seq![msg@],
                to_players: Seq::<EventView>::empty(),
                to_specific: Seq::<(PlayerId, EventView)>::empty(),
            }));
        }
        r
    }

    /// One event addressed to a single player.
    pub fn to_player(player_id: PlayerId, msg: GameEvent) -> (r: Self)
        ensures
            r@ == (ResponseView {
                to_host: Seq::empty(),
                to_players: Seq::empty(),
                to_specific: seq![(player_id, msg@)],
            }),
    {
        let mut messages_to_specific: Vec<(PlayerId, GameEvent)> = Vec::new();
        messages_to_specific.push((player_id, msg));
        let r = RoomResponse {
            messages_to_host: Vec::new(),
            messages_to_players: Vec::new(),
            messages_to_specific,
        };
        proof {
            assert(r@ =~= (ResponseView {
                to_host: Seq::<EventView>::empty(),
                to_players: Seq::<EventView>::empty(),
                to_specific: seq![(player_id, msg@)],
            }));
        }
        r
    }

    /// Concatenates another response onto this one, per destination list.
    pub fn merge(self, other: RoomResponse) -> (r: Self)
        ensures
            r@ == (ResponseView {
                to_host: self@.to_host + other@.to_host,
                to_players: self@.to_players + other@.to_players,
                to_specific: self@.to_specific + other@.to_specific,
            }),
    {
        let ghost left = self@;
        let ghost right = other@;
        let mut merged = self;
        let mut rest = other;
        merged.messages_to_host.append(&mut rest.messages_to_host);
        merged.messages_to_players.append(&mut rest.messages_to_players);
        merged.messages_to_specific.append(&mut rest.messages_to_specific);
        proof {
            assert(merged@.to_host =~= left.to_host + right.to_host);
            assert(merged@.to_players =~= left.to_players + right.to_players);
            assert(merged@.to_specific =~= left.to_specific + right.to_specific);
            assert(merged@ =~= (ResponseView {
                to_host: left.to_host + right.to_host,
                to_players: left.to_players + right.to_players,
                to_specific: left.to_specific + right.to_specific,
            }));
        }
        merged
    }
}

} // verus!
