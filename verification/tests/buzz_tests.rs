use buzzroom::connection::{HostToken, PlayerEntry, PlayerToken, RoomCode};
use buzzroom::game::{Category, GameState, Question};
use buzzroom::messages::{GameCommand, GameEvent};
use buzzroom::player::Player;
use buzzroom::room::Room;

fn create_test_room() -> Room {
    let mut room = Room::new(RoomCode::from("TEST".to_string()), HostToken::generate(), 0);

    room.categories = vec![Category {
        title: "Test Category".to_string(),
        questions: vec![Question {
            question: "What is 2+2?".to_string(),
            answer: "4".to_string(),
            value: 200,
            answered: false,
        }],
    }];

    room
}

fn add_test_player(room: &mut Room, pid: u32, name: &str) {
    let player = PlayerEntry::new(Player::new(
        pid,
        name.to_string(),
        0,
        false,
        PlayerToken::generate(),
    ));
    room.players.push(player);
}

#[test]
fn test_first_buzz_wins_under_serialization() {
    let mut room = create_test_room();
    add_test_player(&mut room, 1, "Alice");
    add_test_player(&mut room, 2, "Bob");
    add_test_player(&mut room, 3, "Carol");
    room.state = GameState::WaitingForBuzz;
    room.current_question = Some((0, 0));

    // Three near-simultaneous buzzes are serialized by the room's lock;
    // here Bob's arrives first.
    let first = room.handle_command(&GameCommand::Buzz {}, Some(2));
    let second = room.handle_command(&GameCommand::Buzz {}, Some(1));
    let third = room.handle_command(&GameCommand::Buzz {}, Some(3));

    assert_eq!(room.current_buzzer, Some(2));
    assert_eq!(room.state, GameState::Answer);
    assert!(!room.players[0].player.buzzed);
    assert!(room.players[1].player.buzzed);
    assert!(!room.players[2].player.buzzed);

    // The winning buzz told the host who buzzed; the losers got nothing.
    assert!(matches!(first.messages_to_host[0], GameEvent::PlayerBuzzed { pid: 2, .. }));
    assert_eq!(second.messages_to_host.len(), 0);
    assert_eq!(second.messages_to_players.len(), 0);
    assert_eq!(second.messages_to_specific.len(), 0);
    assert_eq!(third.messages_to_specific.len(), 0);
}

#[test]
fn test_buzz_outside_waiting_state_is_ignored() {
    let mut room = create_test_room();
    add_test_player(&mut room, 1, "Alice");
    room.state = GameState::QuestionReading;
    room.current_question = Some((0, 0));

    let resp = room.handle_command(&GameCommand::Buzz {}, Some(1));

    assert_eq!(room.state, GameState::QuestionReading);
    assert_eq!(room.current_buzzer, None);
    assert!(!room.players[0].player.buzzed);
    assert_eq!(resp.messages_to_host.len(), 0);
    assert_eq!(resp.messages_to_players.len(), 0);
    assert_eq!(resp.messages_to_specific.len(), 0);
}

#[test]
fn test_buzz_from_unknown_sender_is_ignored() {
    let mut room = create_test_room();
    add_test_player(&mut room, 1, "Alice");
    room.state = GameState::WaitingForBuzz;

    let anonymous = room.handle_command(&GameCommand::Buzz {}, None);
    let stranger = room.handle_command(&GameCommand::Buzz {}, Some(99));

    assert_eq!(room.current_buzzer, None);
    assert_eq!(room.state, GameState::WaitingForBuzz);
    assert_eq!(anonymous.messages_to_specific.len(), 0);
    assert_eq!(stranger.messages_to_specific.len(), 0);
}

#[test]
fn test_stale_checked_is_ignored_bit_for_bit() {
    let mut room = create_test_room();
    add_test_player(&mut room, 1, "Alice");
    room.state = GameState::Selection;
    room.current_question = None;
    room.players[0].player.score = 700;

    let resp = room.handle_command(&GameCommand::HostChecked { correct: true }, None);

    assert_eq!(room.state, GameState::Selection);
    assert_eq!(room.current_question, None);
    assert_eq!(room.players[0].player.score, 700);
    assert!(!room.categories[0].questions[0].answered);
    assert_eq!(resp.messages_to_host.len(), 0);
    assert_eq!(resp.messages_to_players.len(), 0);
    assert_eq!(resp.messages_to_specific.len(), 0);
}

#[test]
fn test_checked_with_dangling_indices_is_ignored() {
    let mut room = create_test_room();
    add_test_player(&mut room, 1, "Alice");
    room.state = GameState::Answer;
    // A HostChoice with out-of-range indices defers its failure to here.
    room.current_question = Some((4, 9));
    room.current_buzzer = Some(1);

    let resp = room.handle_command(&GameCommand::HostChecked { correct: true }, None);

    assert_eq!(room.state, GameState::Answer);
    assert_eq!(room.current_question, Some((4, 9)));
    assert_eq!(room.players[0].player.score, 0);
    assert_eq!(resp.messages_to_host.len(), 0);
    assert_eq!(resp.messages_to_players.len(), 0);
    assert_eq!(resp.messages_to_specific.len(), 0);
}

#[test]
fn test_broadcast_sends_state_and_per_player_flags() {
    let mut room = create_test_room();
    add_test_player(&mut room, 1, "Alice");
    add_test_player(&mut room, 2, "Bob");
    room.state = GameState::QuestionReading;
    room.current_question = Some((0, 0));

    let resp = room.handle_command(&GameCommand::HostReady {}, None);

    assert_eq!(room.state, GameState::WaitingForBuzz);
    // Full state to host and to the broadcast list, plus one addressed
    // state event per player saying whether that player may buzz.
    assert!(matches!(
        resp.messages_to_host[0],
        GameEvent::GameState {
            state: GameState::WaitingForBuzz,
            ..
        }
    ));
    assert_eq!(resp.messages_to_players.len(), 1);
    assert_eq!(resp.messages_to_specific.len(), 2);
    assert!(matches!(
        resp.messages_to_specific[0],
        (1, GameEvent::PlayerState { pid: 1, can_buzz: true, .. })
    ));
    assert!(matches!(
        resp.messages_to_specific[1],
        (2, GameEvent::PlayerState { pid: 2, can_buzz: true, .. })
    ));
}

#[test]
fn test_full_game_flow() {
    let mut room = create_test_room();
    room.categories[0].questions.push(Question {
        question: "What is 6?".to_string(),
        answer: "6".to_string(),
        value: 400,
        answered: false,
    });
    add_test_player(&mut room, 1, "AJ");
    add_test_player(&mut room, 2, "Sam");

    room.handle_command(&GameCommand::StartGame {}, None);
    assert_eq!(room.state, GameState::Selection);

    // First question: AJ misses, tries to buzz again in vain, Sam converts.
    room.handle_command(
        &GameCommand::HostChoice {
            category_index: 0,
            question_index: 0,
        },
        None,
    );
    room.handle_command(&GameCommand::HostReady {}, None);
    room.handle_command(&GameCommand::Buzz {}, Some(1));
    room.handle_command(&GameCommand::HostChecked { correct: false }, None);
    assert_eq!(room.state, GameState::WaitingForBuzz);
    assert_eq!(room.players[0].player.score, -200);

    let retry = room.handle_command(&GameCommand::Buzz {}, Some(1));
    assert_eq!(room.current_buzzer, None, "A player cannot buzz twice on one question");
    assert_eq!(retry.messages_to_host.len(), 0);

    room.handle_command(&GameCommand::Buzz {}, Some(2));
    assert_eq!(room.current_buzzer, Some(2));
    room.handle_command(&GameCommand::HostChecked { correct: true }, None);
    assert_eq!(room.state, GameState::Selection);
    assert_eq!(room.players[1].player.score, 200);

    // Second question: AJ can buzz again after the reset and converts.
    room.handle_command(
        &GameCommand::HostChoice {
            category_index: 0,
            question_index: 1,
        },
        None,
    );
    room.handle_command(&GameCommand::HostReady {}, None);
    room.handle_command(&GameCommand::Buzz {}, Some(1));
    assert_eq!(room.current_buzzer, Some(1), "Flags were reset by HostChoice");
    room.handle_command(&GameCommand::HostChecked { correct: true }, None);

    // That was the last question: the game ends with a computed winner.
    assert_eq!(room.state, GameState::GameEnd);
    assert_eq!(room.players[0].player.score, 200);
    assert_eq!(room.players[1].player.score, 200);
    assert_eq!(room.winner, None, "Equal scores tie, and a tie has no winner");
}
