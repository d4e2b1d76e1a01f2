use buzzroom::connection::{HostToken, PlayerEntry, PlayerToken, RoomCode};
use buzzroom::game::GameState;
use buzzroom::messages::{GameCommand, GameEvent};
use buzzroom::player::Player;
use buzzroom::room::Room;

fn entry(pid: u32, name: &str) -> PlayerEntry {
    PlayerEntry::new(Player::new(
        pid,
        name.to_string(),
        0,
        false,
        PlayerToken::generate(),
    ))
}

#[test]
fn test_witness_event_only_for_host_ready() {
    let room = Room::new(RoomCode::from("TEST".to_string()), HostToken::generate(), 0);

    assert!(matches!(
        room.witness_event_for(&GameCommand::HostReady),
        Some(GameEvent::GameState { .. })
    ));
    assert!(room.witness_event_for(&GameCommand::StartGame).is_none());
    assert!(room.witness_event_for(&GameCommand::Buzz).is_none());
    assert!(room.witness_event_for(&GameCommand::HostSkip).is_none());
}

#[test]
fn test_witness_delay_compensates_latency() {
    let mut room = Room::new(RoomCode::from("TEST".to_string()), HostToken::generate(), 0);
    room.players.push(entry(1, "Fast"));
    room.players.push(entry(2, "Slow"));

    // Give the second player a mean latency of 100 ms: five samples of 100.
    for round in 1..=5u64 {
        let hbid = room.players[1].heartbeat(round * 1000);
        assert!(room.players[1].on_know_dohb_recv(hbid, round * 1000));
        assert!(room.players[1].on_latencyhb(hbid, 100));
    }
    assert_eq!(room.players[1].latency(), 100);

    let plan = room.broadcast_witness(GameEvent::GotHeartbeat { hbid: 1 });

    assert_eq!(plan.len(), 2);
    // A zero-latency client waits out the whole ceiling; a 100 ms client
    // waits 100 ms less, so both perceive the event together.
    assert_eq!(plan[0].0, 1);
    assert_eq!(plan[0].1, 500);
    assert_eq!(plan[1].0, 2);
    assert_eq!(plan[1].1, 400);
    assert!(matches!(plan[0].2, GameEvent::Witness { .. }));
    assert!(matches!(plan[1].2, GameEvent::Witness { .. }));
}

#[test]
fn test_witness_delay_floors_at_zero() {
    let mut room = Room::new(RoomCode::from("TEST".to_string()), HostToken::generate(), 0);
    room.players.push(entry(1, "VerySlow"));

    // Mean latency beyond the ceiling: five samples of 700.
    for round in 1..=5u64 {
        let hbid = room.players[0].heartbeat(round * 1000);
        assert!(room.players[0].on_know_dohb_recv(hbid, round * 1000));
        assert!(room.players[0].on_latencyhb(hbid, 700));
    }

    let plan = room.broadcast_witness(GameEvent::GotHeartbeat { hbid: 1 });
    assert_eq!(plan[0].1, 0, "Delay never goes below zero");
}

#[test]
fn test_witness_wraps_original_event() {
    let mut room = Room::new(RoomCode::from("TEST".to_string()), HostToken::generate(), 0);
    room.players.push(entry(1, "Alice"));
    room.state = GameState::WaitingForBuzz;

    let event = room
        .witness_event_for(&GameCommand::HostReady)
        .expect("HostReady must be witnessed");
    let plan = room.broadcast_witness(event);

    match &plan[0].2 {
        GameEvent::Witness { msg } => match **msg {
            GameEvent::GameState { state, .. } => assert_eq!(state, GameState::WaitingForBuzz),
            ref other => panic!("witness should wrap the game state, got {:?}", other),
        },
        other => panic!("expected a witness envelope, got {:?}", other),
    }
}

#[test]
fn test_token_text_is_uuid_form() {
    let bits: u128 = 0x0123456789abcdef0123456789abcdef;
    let host = HostToken::from(bits);
    let player = PlayerToken::from(bits);

    let expected = uuid::Uuid::from_u128(bits).to_string();
    assert_eq!(host.to_string(), expected);
    assert_eq!(player.to_string(), expected);
    assert_eq!(host.to_string(), "01234567-89ab-cdef-0123-456789abcdef");
    assert_eq!(HostToken::generate().to_string().chars().count(), 36);
}
