use buzzroom::game::RoomResponse;
use buzzroom::messages::{GameCommand, GameEvent};

#[test]
fn test_should_witness() {
    struct TestCase {
        name: &'static str,
        command: GameCommand,
        should_witness: bool,
    }

    let test_cases = vec![
        TestCase {
            name: "HostReady",
            command: GameCommand::HostReady,
            should_witness: true,
        },
        TestCase {
            name: "StartGame",
            command: GameCommand::StartGame,
            should_witness: false,
        },
        TestCase {
            name: "EndGame",
            command: GameCommand::EndGame,
            should_witness: false,
        },
        TestCase {
            name: "Buzz",
            command: GameCommand::Buzz,
            should_witness: false,
        },
        TestCase {
            name: "HostChoice",
            command: GameCommand::HostChoice {
                category_index: 0,
                question_index: 0,
            },
            should_witness: false,
        },
        TestCase {
            name: "HostChecked",
            command: GameCommand::HostChecked { correct: true },
            should_witness: false,
        },
        TestCase {
            name: "HostSkip",
            command: GameCommand::HostSkip,
            should_witness: false,
        },
        TestCase {
            name: "HostContinue",
            command: GameCommand::HostContinue,
            should_witness: false,
        },
        TestCase {
            name: "Heartbeat",
            command: GameCommand::Heartbeat {
                hbid: 1,
                t_dohb_recv: 0,
            },
            should_witness: false,
        },
        TestCase {
            name: "LatencyOfHeartbeat",
            command: GameCommand::LatencyOfHeartbeat { hbid: 1, t_lat: 0 },
            should_witness: false,
        },
    ];

    for tc in test_cases {
        assert_eq!(
            tc.command.should_witness(),
            tc.should_witness,
            "{}: expected should_witness={}, got {}",
            tc.name,
            tc.should_witness,
            tc.command.should_witness()
        );
    }
}

#[test]
fn test_response_constructors_address_correctly() {
    let empty = RoomResponse::new();
    assert_eq!(empty.messages_to_host.len(), 0);
    assert_eq!(empty.messages_to_players.len(), 0);
    assert_eq!(empty.messages_to_specific.len(), 0);

    let broadcast = RoomResponse::broadcast_state(GameEvent::GotHeartbeat { hbid: 7 });
    assert!(matches!(broadcast.messages_to_host[0], GameEvent::GotHeartbeat { hbid: 7 }));
    assert!(matches!(broadcast.messages_to_players[0], GameEvent::GotHeartbeat { hbid: 7 }));
    assert_eq!(broadcast.messages_to_specific.len(), 0);

    let host_only = RoomResponse::to_host(GameEvent::GotHeartbeat { hbid: 8 });
    assert_eq!(host_only.messages_to_host.len(), 1);
    assert_eq!(host_only.messages_to_players.len(), 0);

    let one_player = RoomResponse::to_player(3, GameEvent::GotHeartbeat { hbid: 9 });
    assert!(matches!(one_player.messages_to_specific[0], (3, GameEvent::GotHeartbeat { hbid: 9 })));
}

#[test]
fn test_response_merge_concatenates_per_list() {
    let a = RoomResponse::to_host(GameEvent::GotHeartbeat { hbid: 1 });
    let b = RoomResponse::broadcast_state(GameEvent::GotHeartbeat { hbid: 2 });
    let c = RoomResponse::to_player(5, GameEvent::GotHeartbeat { hbid: 3 });

    let merged = a.merge(b).merge(c);
    assert_eq!(merged.messages_to_host.len(), 2);
    assert!(matches!(merged.messages_to_host[0], GameEvent::GotHeartbeat { hbid: 1 }));
    assert!(matches!(merged.messages_to_host[1], GameEvent::GotHeartbeat { hbid: 2 }));
    assert_eq!(merged.messages_to_players.len(), 1);
    assert!(matches!(merged.messages_to_specific[0], (5, GameEvent::GotHeartbeat { hbid: 3 })));
}
