use game_server::coordinator::{JoinCoordinator, JoinError};
use game_server::registry::ServerRegistry;
use game_server::report::LoadReport;

const PLAYER_A: &str = "550e8400-e29b-41d4-a716-446655440000";
const PLAYER_B: &str = "6fa459ea-ee8a-3ca4-894e-db77e160355e";
const PLAYER_C: &str = "16fd2706-8baf-433b-82eb-8c7fada847da";

fn report(version: u32, players: u32, capacity: u32) -> LoadReport {
    LoadReport { protocol_version: version, player_count: players, capacity }
}

fn setup() -> (JoinCoordinator, ServerRegistry) {
    (JoinCoordinator::new(30_000), ServerRegistry::new(5_000))
}

#[test]
fn scenario_a_lower_ratio_wins() {
    let (mut coord, mut reg) = setup();
    reg.upsert(b"10.0.0.1:42069", report(1, 0, 10), 1_000);
    reg.upsert(b"10.0.0.2:42069", report(1, 10, 10), 1_000);
    let r = coord.join(&mut reg, Some(1), Some(PLAYER_A.as_bytes()), 1_000);
    assert_eq!(r, Ok(b"10.0.0.1:42069".to_vec()));
}

#[test]
fn scenario_b_version_mismatch() {
    let (mut coord, mut reg) = setup();
    reg.upsert(b"10.0.0.1:42069", report(2, 0, 10), 1_000);
    let r = coord.join(&mut reg, Some(1), Some(PLAYER_A.as_bytes()), 1_000);
    assert_eq!(r, Err(JoinError::VersionMismatch));
}

#[test]
fn scenario_c_no_capacity_when_full() {
    let (mut coord, mut reg) = setup();
    reg.upsert(b"10.0.0.1:42069", report(1, 1, 1), 1_000);
    let r = coord.join(&mut reg, Some(1), Some(PLAYER_A.as_bytes()), 1_000);
    assert_eq!(r, Err(JoinError::NoCapacity));
}

#[test]
fn scenario_d_disconnect_spares_inflight_reservations() {
    let (mut coord, mut reg) = setup();
    reg.upsert(b"10.0.0.1:42069", report(1, 0, 10), 1_000);
    let assigned = coord
        .join(&mut reg, Some(1), Some(PLAYER_A.as_bytes()), 1_000)
        .expect("join should succeed");
    assert_eq!(assigned, b"10.0.0.1:42069".to_vec());

    // The backend drops mid-session.
    reg.mark_unreachable(b"10.0.0.1:42069");

    // The player that already holds a reservation keeps the same address.
    let again = coord.join(&mut reg, Some(1), Some(PLAYER_A.as_bytes()), 2_000);
    assert_eq!(again, Ok(assigned));

    // A new player cannot be routed to the unreachable backend.
    let other = coord.join(&mut reg, Some(1), Some(PLAYER_B.as_bytes()), 2_000);
    assert_eq!(other, Err(JoinError::NoCapacity));

    // Reconnect alone is not enough; a fresh report brings it back.
    reg.upsert(b"10.0.0.1:42069", report(1, 1, 10), 3_000);
    let other = coord.join(&mut reg, Some(1), Some(PLAYER_B.as_bytes()), 3_000);
    assert_eq!(other, Ok(b"10.0.0.1:42069".to_vec()));
}

#[test]
fn scenario_e_expired_reservation_returns_slot() {
    let (mut coord, mut reg) = setup();
    reg.upsert(b"10.0.0.1:42069", report(1, 0, 1), 0);
    let count_before = reg.snapshot_all()[0].player_count;

    let r = coord.join(&mut reg, Some(1), Some(PLAYER_A.as_bytes()), 0);
    assert!(r.is_ok());
    assert_eq!(reg.snapshot_all()[0].player_count, count_before + 1);

    // While the reservation runs, the single slot is gone.
    let r2 = coord.join(&mut reg, Some(1), Some(PLAYER_B.as_bytes()), 10_000);
    assert_eq!(r2, Err(JoinError::NoCapacity));

    // The player never connected; past the 30 s expiry the slot returns.
    coord.expire(&mut reg, 30_001);
    assert_eq!(reg.snapshot_all()[0].player_count, count_before);

    // The backend keeps reporting (still nobody connected), and the
    // returned slot can be reserved again, reaching the same count.
    reg.upsert(b"10.0.0.1:42069", report(1, 0, 1), 30_001);
    let r3 = coord.join(&mut reg, Some(1), Some(PLAYER_B.as_bytes()), 30_001);
    assert!(r3.is_ok());
    assert_eq!(reg.snapshot_all()[0].player_count, count_before + 1);
}

#[test]
fn join_is_idempotent_within_expiry() {
    let (mut coord, mut reg) = setup();
    reg.upsert(b"10.0.0.1:42069", report(1, 0, 10), 1_000);
    reg.upsert(b"10.0.0.2:42069", report(1, 0, 10), 1_000);
    let first = coord.join(&mut reg, Some(1), Some(PLAYER_A.as_bytes()), 1_000);
    let second = coord.join(&mut reg, Some(1), Some(PLAYER_A.as_bytes()), 20_000);
    assert_eq!(first, second);
    // Only one slot was taken for the two calls.
    let snap = reg.snapshot_all();
    let total: u32 = snap.iter().map(|b| b.player_count).sum();
    assert_eq!(total, 1);
}

#[test]
fn stale_backend_is_excluded_even_if_live() {
    let (mut coord, mut reg) = setup();
    // Interval 5 s: silent for more than 15 s means stale.
    reg.upsert(b"10.0.0.1:42069", report(1, 0, 10), 0);
    // At exactly the threshold the backend still counts.
    let r = coord.join(&mut reg, Some(1), Some(PLAYER_A.as_bytes()), 15_000);
    assert!(r.is_ok());
    // One millisecond past it, a fresh request finds nothing.
    let r2 = coord.join(&mut reg, Some(1), Some(PLAYER_B.as_bytes()), 15_001);
    assert_eq!(r2, Err(JoinError::NoCapacity));
}

#[test]
fn missing_version_is_rejected() {
    let (mut coord, mut reg) = setup();
    reg.upsert(b"10.0.0.1:42069", report(1, 0, 10), 1_000);
    let r = coord.join(&mut reg, None, Some(PLAYER_A.as_bytes()), 1_000);
    assert_eq!(r, Err(JoinError::MissingVersion));
}

#[test]
fn missing_or_malformed_identity_is_rejected() {
    let (mut coord, mut reg) = setup();
    reg.upsert(b"10.0.0.1:42069", report(1, 0, 10), 1_000);
    let r = coord.join(&mut reg, Some(1), None, 1_000);
    assert_eq!(r, Err(JoinError::MissingIdentity));
    let r = coord.join(&mut reg, Some(1), Some(b"not-a-uuid"), 1_000);
    assert_eq!(r, Err(JoinError::MissingIdentity));
    // A well-formed token passes validation and reaches selection.
    let r = coord.join(&mut reg, Some(1), Some(PLAYER_A.as_bytes()), 1_000);
    assert!(r.is_ok());
}

#[test]
fn confirmed_player_keeps_slot_past_expiry() {
    let (mut coord, mut reg) = setup();
    reg.upsert(b"10.0.0.1:42069", report(1, 0, 2), 0);
    let r = coord.join(&mut reg, Some(1), Some(PLAYER_A.as_bytes()), 0);
    assert!(r.is_ok());
    assert!(coord.confirm(PLAYER_A.as_bytes()));
    assert!(!coord.confirm(PLAYER_C.as_bytes()));

    // The confirmed player's slot survives the sweep.
    coord.expire(&mut reg, 60_000);
    assert_eq!(reg.snapshot_all()[0].player_count, 1);

    // The backend's next report shows the connected player, and the second
    // slot is still free for another player.
    reg.upsert(b"10.0.0.1:42069", report(1, 1, 2), 60_000);
    let r2 = coord.join(&mut reg, Some(1), Some(PLAYER_B.as_bytes()), 60_000);
    assert!(r2.is_ok());
    assert_eq!(reg.snapshot_all()[0].player_count, 2);
}

#[test]
fn tie_break_by_player_count_then_identity() {
    let (mut coord, mut reg) = setup();
    // Same ratio (1/2 == 2/4): the lower absolute count wins.
    reg.upsert(b"b:1", report(1, 2, 4), 0);
    reg.upsert(b"c:1", report(1, 1, 2), 0);
    let r = coord.join(&mut reg, Some(1), Some(PLAYER_A.as_bytes()), 0);
    assert_eq!(r, Ok(b"c:1".to_vec()));

    // Identical load: the lower identity wins.
    let (mut coord2, mut reg2) = setup();
    reg2.upsert(b"b:1", report(1, 0, 10), 0);
    reg2.upsert(b"a:1", report(1, 0, 10), 0);
    let r2 = coord2.join(&mut reg2, Some(1), Some(PLAYER_B.as_bytes()), 0);
    assert_eq!(r2, Ok(b"a:1".to_vec()));
}
