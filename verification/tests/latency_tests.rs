use buzzroom::connection::{HostToken, PlayerEntry, PlayerToken, RoomCode};
use buzzroom::messages::{GameCommand, GameEvent};
use buzzroom::player::{Player, TrackedMessageTime};
use buzzroom::room::Room;

fn entry(pid: u32, name: &str) -> PlayerEntry {
    PlayerEntry::new(Player::new(
        pid,
        name.to_string(),
        0,
        false,
        PlayerToken::generate(),
    ))
}

#[test]
fn test_latency_sample_computation() {
    let mut e = entry(1, "Alice");

    // Probe sent at t0 = 1000; its id is the millisecond part of the time.
    let hbid = e.heartbeat(1000);
    assert_eq!(hbid, 0);

    // The client saw it at t0 + 50, and reports a round trip of 120.
    assert!(e.on_know_dohb_recv(hbid, 1050));
    assert!(e.on_latencyhb(hbid, 120));

    // The sample is 120 - 50 = 70, in the newest of the five slots.
    assert_eq!(e.latencies, vec![0, 0, 0, 0, 70]);
    assert_eq!(e.latency(), 70 / 5);
}

#[test]
fn test_probe_ids_fresh_within_a_millisecond() {
    let mut e = entry(1, "Alice");
    // Two rounds opened at the same millisecond still get distinct ids:
    // the probe counter advances each round.
    let first = e.heartbeat(1000);
    let second = e.heartbeat(1000);
    let third = e.heartbeat(1999);
    assert_eq!(first, 0);
    assert_eq!(second, 1000);
    assert_eq!(third, 2999);
    assert_ne!(first, second);

    // Each probe is tracked under its own id until a sample lands.
    assert!(e.on_know_dohb_recv(first, 1020));
    assert!(e.on_know_dohb_recv(second, 1030));
    assert!(e.on_latencyhb(second, 80));
    assert_eq!(e.latencies, vec![0, 0, 0, 0, 50]);
}

#[test]
fn test_latency_window_evicts_oldest() {
    let mut e = entry(1, "Alice");
    for round in 1..=6u64 {
        let hbid = e.heartbeat(round * 1000);
        assert!(e.on_know_dohb_recv(hbid, round * 1000));
        assert!(e.on_latencyhb(hbid, (round * 10) as u32));
    }
    // Six samples of 10..=60 ran through a five-slot window.
    assert_eq!(e.latencies, vec![20, 30, 40, 50, 60]);
    assert_eq!(e.latency(), (20 + 30 + 40 + 50 + 60) / 5);
}

#[test]
fn test_latency_sample_floors_at_zero() {
    let mut e = entry(1, "Alice");
    let hbid = e.heartbeat(2000);
    // The forward leg alone took 300 ms but the client claims a 100 ms
    // round trip: the sample floors at zero rather than going negative.
    assert!(e.on_know_dohb_recv(hbid, 2300));
    assert!(e.on_latencyhb(hbid, 100));
    assert_eq!(e.latencies, vec![0, 0, 0, 0, 0]);
    assert_eq!(e.latency(), 0);
}

#[test]
fn test_unknown_heartbeat_id_is_ignored() {
    let mut e = entry(1, "Alice");
    let hbid = e.heartbeat(5000);
    assert!(!e.on_know_dohb_recv(hbid + 99999, 5050));
    assert!(!e.on_latencyhb(hbid + 99999, 120));
    assert_eq!(e.latency(), 0, "Latency should remain 0 with invalid hbid");

    // A latency report without a receipt marker records nothing either.
    assert!(!e.on_latencyhb(hbid, 120));
    assert_eq!(e.latency(), 0);
}

#[test]
fn test_tracked_message_time_delta() {
    let complete = TrackedMessageTime {
        t_sent: 100,
        t_recv: Some(160),
    };
    assert_eq!(complete.delta(), Some(60));
    assert_eq!(complete.delta_32bit(), Some(60));

    let pending = TrackedMessageTime {
        t_sent: 100,
        t_recv: None,
    };
    assert_eq!(pending.delta(), None);
    assert_eq!(pending.delta_32bit(), None);

    let reordered = TrackedMessageTime {
        t_sent: 200,
        t_recv: Some(150),
    };
    assert_eq!(reordered.delta(), Some(0), "A receipt before the send floors at zero");
}

#[test]
fn test_heartbeat_roundtrip_through_room() {
    let mut room = Room::new(RoomCode::from("TEST".to_string()), HostToken::generate(), 0);
    room.players.push(entry(1, "Alice"));

    let probes = room.request_heartbeats(7250);
    assert_eq!(probes.len(), 1);
    let (pid, ref event) = probes[0];
    assert_eq!(pid, 1);
    let hbid = match event {
        GameEvent::DoHeartbeat { hbid, t_sent } => {
            assert_eq!(*t_sent, 7250);
            *hbid
        }
        other => panic!("expected a DoHeartbeat probe, got {:?}", other),
    };
    assert_eq!(hbid, 250);

    let r1 = room.handle_command(
        &GameCommand::Heartbeat {
            hbid,
            t_dohb_recv: 7300,
        },
        Some(1),
    );
    assert_eq!(r1.messages_to_host.len(), 0);
    assert_eq!(r1.messages_to_players.len(), 0);
    assert_eq!(r1.messages_to_specific.len(), 0);

    let r2 = room.handle_command(&GameCommand::LatencyOfHeartbeat { hbid, t_lat: 120 }, Some(1));
    assert_eq!(r2.messages_to_specific.len(), 0);

    assert_eq!(room.players[0].latencies, vec![0, 0, 0, 0, 70]);
    assert_eq!(room.players[0].latency(), 14);
}
