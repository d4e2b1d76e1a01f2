use buzzroom::connection::{HostToken, PlayerEntry, PlayerToken, RoomCode};
use buzzroom::game::{Category, GameState, Question};
use buzzroom::messages::GameCommand;
use buzzroom::player::Player;
use buzzroom::room::Room;

fn create_test_room() -> Room {
    let mut room = Room::new(RoomCode::from("TEST".to_string()), HostToken::generate(), 0);

    room.categories = vec![Category {
        title: "Test Category".to_string(),
        questions: vec![
            Question {
                question: "What is 2+2?".to_string(),
                answer: "4".to_string(),
                value: 200,
                answered: false,
            },
            Question {
                question: "What is 6?".to_string(),
                answer: "6".to_string(),
                value: 400,
                answered: false,
            },
        ],
    }];

    room
}

fn add_test_player(room: &mut Room, pid: u32, name: &str) {
    let player = PlayerEntry::new(Player::new(
        pid,
        name.to_string(),
        0,
        false,
        PlayerToken::generate(),
    ));
    room.players.push(player);
}

#[test]
fn test_host_skip_marks_question_answered() {
    let mut room = create_test_room();
    add_test_player(&mut room, 1, "Player1");

    room.state = GameState::WaitingForBuzz;
    room.current_question = Some((0, 0));

    room.handle_command(&GameCommand::HostSkip {}, None);

    assert!(
        room.categories[0].questions[0].answered,
        "Skipped question should be marked as answered"
    );
    assert_eq!(
        room.state,
        GameState::AnswerReveal,
        "Should transition to AnswerReveal"
    );
}

#[test]
fn test_host_skip_transitions_to_selection() {
    let mut room = create_test_room();
    add_test_player(&mut room, 1, "Player1");

    room.state = GameState::WaitingForBuzz;
    room.current_question = Some((0, 0));

    room.handle_command(&GameCommand::HostSkip {}, None);

    assert_eq!(
        room.state,
        GameState::AnswerReveal,
        "Should first go to AnswerReveal"
    );

    room.handle_command(&GameCommand::HostContinue {}, None);

    assert_eq!(
        room.state,
        GameState::Selection,
        "Should return to Selection when questions remain"
    );
}

#[test]
fn test_host_skip_transitions_to_game_end() {
    let mut room = create_test_room();
    add_test_player(&mut room, 1, "Winner");
    add_test_player(&mut room, 2, "Loser");

    room.players[0].player.score = 500;
    room.players[1].player.score = 200;

    room.state = GameState::WaitingForBuzz;
    room.categories[0].questions[0].answered = true;
    room.current_question = Some((0, 1)); // Last question

    room.handle_command(&GameCommand::HostSkip {}, None);

    assert_eq!(
        room.state,
        GameState::AnswerReveal,
        "Should first go to AnswerReveal"
    );

    room.handle_command(&GameCommand::HostContinue {}, None);

    assert_eq!(
        room.state,
        GameState::GameEnd,
        "Should transition to GameEnd when no questions remain"
    );
    assert_eq!(room.winner, Some(1), "Should determine winner when game ends");
}

#[test]
fn test_host_skip_resets_buzz_states() {
    let mut room = create_test_room();
    add_test_player(&mut room, 1, "Player1");
    add_test_player(&mut room, 2, "Player2");

    room.state = GameState::WaitingForBuzz;
    room.current_question = Some((0, 0));
    room.players[0].player.buzzed = true;
    room.players[1].player.buzzed = true;
    room.current_buzzer = Some(1);

    room.handle_command(&GameCommand::HostSkip {}, None);
    room.handle_command(&GameCommand::HostContinue {}, None);

    assert!(
        !room.players[0].player.buzzed,
        "Player 1 buzz state should be reset"
    );
    assert!(
        !room.players[1].player.buzzed,
        "Player 2 buzz state should be reset"
    );
}

#[test]
fn test_host_skip_does_not_affect_scores() {
    let mut room = create_test_room();
    add_test_player(&mut room, 1, "Player1");

    room.state = GameState::WaitingForBuzz;
    room.current_question = Some((0, 0));
    room.players[0].player.score = 100;

    room.handle_command(&GameCommand::HostSkip {}, None);

    assert_eq!(
        room.players[0].player.score, 100,
        "Skipping should not affect player scores"
    );
}

#[test]
fn test_host_skip_without_current_question() {
    let mut room = create_test_room();

    room.state = GameState::Selection;
    room.current_question = None;

    let response = room.handle_command(&GameCommand::HostSkip {}, None);

    assert_eq!(
        room.state,
        GameState::Selection,
        "State should not change when there's no current question"
    );
    assert_eq!(
        response.messages_to_host.len(),
        0,
        "Should return empty response when there's no current question"
    );
}

#[test]
fn test_host_skip_with_dangling_indices_still_reveals() {
    let mut room = create_test_room();
    add_test_player(&mut room, 1, "Player1");

    room.state = GameState::WaitingForBuzz;
    // A HostChoice with out-of-range indices defers its failure: skipping
    // past it retires nothing but still reveals.
    room.current_question = Some((4, 9));

    room.handle_command(&GameCommand::HostSkip {}, None);

    assert_eq!(room.state, GameState::AnswerReveal);
    assert!(!room.categories[0].questions[0].answered);
    assert!(!room.categories[0].questions[1].answered);

    room.handle_command(&GameCommand::HostContinue {}, None);

    assert_eq!(room.state, GameState::Selection);
    assert_eq!(room.current_question, None);
}

#[test]
fn test_answer_reveal_after_skip() {
    let mut room = create_test_room();
    add_test_player(&mut room, 1, "Player1");

    room.state = GameState::WaitingForBuzz;
    room.current_question = Some((0, 0));
    room.players[0].player.score = 100;

    // Host skips question
    room.handle_command(&GameCommand::HostSkip {}, None);

    assert_eq!(
        room.state,
        GameState::AnswerReveal,
        "Should transition to AnswerReveal after skip"
    );
    assert_eq!(
        room.players[0].player.score, 100,
        "Score should not change after skip"
    );
    assert!(
        room.categories[0].questions[0].answered,
        "Question should be marked as answered"
    );

    // Host continues
    room.handle_command(&GameCommand::HostContinue {}, None);

    assert_eq!(
        room.state,
        GameState::Selection,
        "Should transition to Selection after continue"
    );
}

#[test]
fn test_incorrect_stays_in_waiting_for_buzz() {
    let mut room = create_test_room();
    add_test_player(&mut room, 1, "Player1");
    add_test_player(&mut room, 2, "Player2");

    room.state = GameState::Answer;
    room.current_question = Some((0, 0));
    room.current_buzzer = Some(1);
    room.players[0].player.buzzed = true;
    room.players[1].player.buzzed = false; // Player 2 hasn't buzzed yet

    // Host marks answer incorrect
    room.handle_command(&GameCommand::HostChecked { correct: false }, None);

    assert_eq!(
        room.state,
        GameState::WaitingForBuzz,
        "Should stay in WaitingForBuzz when more players can buzz"
    );
    assert_eq!(room.current_buzzer, None, "Current buzzer should be cleared");
    assert_eq!(
        room.current_question,
        Some((0, 0)),
        "Current question should remain"
    );
}
