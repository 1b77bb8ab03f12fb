use game_server::args::ServerArgs;
use game_server::coordinator::{JoinCoordinator, JoinError};
use game_server::link::{backoff_delay_ms, link_step, LinkAction, LinkEvent, LinkState};
use game_server::registry::{ConnectionStatus, ServerRegistry};
use game_server::report::{decode_report, encode_report, LoadReport};
use game_server::selector::{select, SelectError};
use game_server::VERSION;

fn report(version: u32, players: u32, capacity: u32) -> LoadReport {
    LoadReport { protocol_version: version, player_count: players, capacity }
}

#[test]
fn args_defaults_match_stock_configuration() {
    let a = ServerArgs::default();
    assert_eq!(a.port_start, 42069);
    assert_eq!(a.port_end, 43069);
    assert_eq!(a.players_per_game, 100);
    assert_eq!(VERSION, 1);
}

#[test]
fn report_encodes_little_endian() {
    let r = report(1, 2, 3);
    assert_eq!(encode_report(&r), vec![1, 0, 0, 0, 2, 0, 0, 0, 3, 0, 0, 0]);
    let r = report(0x01020304, 0, 0x0a0b0c0d);
    assert_eq!(
        encode_report(&r),
        vec![0x04, 0x03, 0x02, 0x01, 0, 0, 0, 0, 0x0d, 0x0c, 0x0b, 0x0a]
    );
}

#[test]
fn report_round_trips() {
    let r = report(7, 42, 100);
    assert_eq!(decode_report(&encode_report(&r)), Some(r));
}

#[test]
fn malformed_report_frames_decode_to_nothing() {
    assert_eq!(decode_report(&[]), None);
    assert_eq!(decode_report(&[1, 0, 0, 0, 2, 0, 0, 0, 3, 0, 0]), None);
    assert_eq!(decode_report(&[1, 0, 0, 0, 2, 0, 0, 0, 3, 0, 0, 0, 0]), None);
    // Player count above capacity is malformed.
    let bogus = encode_report(&report(1, 5, 4));
    assert_eq!(decode_report(&bogus), None);
}

#[test]
fn registry_reserves_up_to_capacity_only() {
    let mut reg = ServerRegistry::new(5_000);
    reg.upsert(b"s:1", report(1, 0, 2), 0);
    assert!(reg.try_reserve(b"s:1", 0));
    assert!(reg.try_reserve(b"s:1", 0));
    assert!(!reg.try_reserve(b"s:1", 0));
    assert_eq!(reg.snapshot_all()[0].player_count, 2);

    reg.release(b"s:1");
    assert_eq!(reg.snapshot_all()[0].player_count, 1);
    assert!(reg.try_reserve(b"s:1", 0));

    // Releases never go below zero.
    let mut reg2 = ServerRegistry::new(5_000);
    reg2.upsert(b"s:1", report(1, 0, 2), 0);
    reg2.release(b"s:1");
    assert_eq!(reg2.snapshot_all()[0].player_count, 0);
}

#[test]
fn registry_reserve_needs_live_fresh_backend() {
    let mut reg = ServerRegistry::new(5_000);
    assert!(!reg.try_reserve(b"s:1", 0));

    reg.register(b"s:1", 0);
    // Connecting is not live yet.
    assert!(!reg.try_reserve(b"s:1", 0));
    assert_eq!(reg.snapshot_all()[0].status, ConnectionStatus::Connecting);

    reg.upsert(b"s:1", report(1, 0, 4), 0);
    assert_eq!(reg.snapshot_all()[0].status, ConnectionStatus::Live);
    assert!(reg.try_reserve(b"s:1", 15_000));
    // Silent for over three report intervals: stale, however live it looks.
    assert!(!reg.try_reserve(b"s:1", 15_001));

    reg.mark_unreachable(b"s:1");
    assert_eq!(reg.snapshot_all()[0].status, ConnectionStatus::Unreachable);
    assert!(!reg.try_reserve(b"s:1", 100));
}

#[test]
fn selection_is_deterministic_on_equal_snapshots() {
    let mut reg = ServerRegistry::new(5_000);
    reg.upsert(b"a:1", report(1, 3, 10), 0);
    reg.upsert(b"b:1", report(1, 2, 10), 0);
    reg.upsert(b"c:1", report(1, 2, 10), 0);
    let snap = reg.snapshot_all();
    let first = select(&snap, 1, 0, 15_000);
    for _ in 0..10 {
        assert_eq!(select(&snap, 1, 0, 15_000), first);
    }
    assert_eq!(first, Ok(b"b:1".to_vec()));
}

#[test]
fn selection_distinguishes_version_mismatch_from_no_servers() {
    let mut reg = ServerRegistry::new(5_000);
    let empty = reg.snapshot_all();
    assert_eq!(select(&empty, 1, 0, 15_000), Err(SelectError::NoCapacity));

    reg.upsert(b"a:1", report(2, 0, 10), 0);
    let snap = reg.snapshot_all();
    assert_eq!(select(&snap, 1, 0, 15_000), Err(SelectError::VersionMismatch));
    // A dead wrong-version backend is not a reason to tell the client to
    // upgrade.
    reg.mark_unreachable(b"a:1");
    let snap = reg.snapshot_all();
    assert_eq!(select(&snap, 1, 0, 15_000), Err(SelectError::NoCapacity));
}

#[test]
fn backoff_doubles_to_cap_with_jitter() {
    assert_eq!(backoff_delay_ms(0, 1000), 1_000);
    assert_eq!(backoff_delay_ms(1, 1000), 2_000);
    assert_eq!(backoff_delay_ms(2, 1000), 4_000);
    assert_eq!(backoff_delay_ms(3, 1000), 8_000);
    assert_eq!(backoff_delay_ms(4, 1000), 16_000);
    assert_eq!(backoff_delay_ms(5, 1000), 30_000);
    assert_eq!(backoff_delay_ms(40, 1000), 30_000);
    // Jitter reaches ±20 % around the base.
    assert_eq!(backoff_delay_ms(3, 800), 6_400);
    assert_eq!(backoff_delay_ms(3, 1200), 9_600);
    assert_eq!(backoff_delay_ms(40, 1200), 36_000);
}

#[test]
fn link_connects_reads_and_backs_off() {
    let start = LinkState::Connecting { attempt: 0 };
    let (live, act) = link_step(start, LinkEvent::Connected, 0, 1000);
    assert_eq!(live, LinkState::Live);
    assert_eq!(act, LinkAction::BeginRead);

    let rep = report(1, 2, 3);
    let (still, act) = link_step(live, LinkEvent::Report { report: rep }, 10, 1000);
    assert_eq!(still, LinkState::Live);
    assert_eq!(act, LinkAction::ApplyReport { report: rep });

    let (backed, act) = link_step(still, LinkEvent::ConnectionLost, 20, 1000);
    assert_eq!(backed, LinkState::Backoff { attempt: 1, until_ms: 1_020 });
    assert_eq!(act, LinkAction::RetryAt { at_ms: 1_020 });

    let (connecting, act) = link_step(backed, LinkEvent::TimerFired, 1_020, 1000);
    assert_eq!(connecting, LinkState::Connecting { attempt: 1 });
    assert_eq!(act, LinkAction::Reconnect);

    // A second failure doubles the wait.
    let (backed2, act) = link_step(connecting, LinkEvent::ConnectionLost, 1_020, 1000);
    assert_eq!(backed2, LinkState::Backoff { attempt: 2, until_ms: 3_020 });
    assert_eq!(act, LinkAction::RetryAt { at_ms: 3_020 });

    // Events that do not apply are ignored.
    let (same, act) = link_step(backed2, LinkEvent::Connected, 3_000, 1000);
    assert_eq!(same, backed2);
    assert_eq!(act, LinkAction::Ignore);
}

#[test]
fn link_retries_forever_at_capped_delay() {
    let mut state = LinkState::Connecting { attempt: 0 };
    let mut now = 0u64;
    for _ in 0..50 {
        let (s, a) = link_step(state, LinkEvent::ConnectionLost, now, 1000);
        match (s, a) {
            (LinkState::Backoff { until_ms, .. }, LinkAction::RetryAt { at_ms }) => {
                assert_eq!(until_ms, at_ms);
                assert!(at_ms - now <= 30_000);
                now = at_ms;
            },
            _ => panic!("a lost connection must back off"),
        }
        let (s2, a2) = link_step(s, LinkEvent::TimerFired, now, 1000);
        assert_eq!(a2, LinkAction::Reconnect);
        state = s2;
    }
    // The delay has long hit its 30 s cap.
    let (s, _) = link_step(state, LinkEvent::ConnectionLost, now, 1000);
    match s {
        LinkState::Backoff { until_ms, .. } => assert_eq!(until_ms - now, 30_000),
        _ => panic!("expected backoff"),
    }
}

#[test]
fn uuid_tokens_in_every_documented_form_are_accepted() {
    let mut try_token = |token: &[u8]| {
        let mut coord = JoinCoordinator::new(30_000);
        let mut reg = ServerRegistry::new(5_000);
        reg.upsert(b"s:1", report(1, 0, 10), 0);
        coord.join(&mut reg, Some(1), Some(token), 0)
    };
    assert!(try_token(b"550e8400-e29b-41d4-a716-446655440000").is_ok());
    assert!(try_token(b"550e8400e29b41d4a716446655440000").is_ok());
    assert!(try_token(b"{550e8400-e29b-41d4-a716-446655440000}").is_ok());
    assert!(try_token(b"urn:uuid:550e8400-e29b-41d4-a716-446655440000").is_ok());
    assert_eq!(try_token(b""), Err(JoinError::MissingIdentity));
    assert_eq!(
        try_token(b"550e8400-e29b-41d4-a716-44665544000"),
        Err(JoinError::MissingIdentity)
    );
    assert_eq!(
        try_token(b"zzze8400-e29b-41d4-a716-446655440000"),
        Err(JoinError::MissingIdentity)
    );
}
