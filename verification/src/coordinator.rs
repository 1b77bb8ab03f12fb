//! The join coordinator: the public entry point for a join request. It
//! validates the request, deduplicates by player identity against the
//! reservation table, asks the selector for a backend and reserves one slot
//! on it. A reservation not confirmed before its expiry gives its slot back.

use crate::ident::{copy_bytes, is_uuid, is_valid_player_id, bytes_eq};
use crate::registry::{
    reg_wf, reserve_model, reserve_ok, release_model, RegistryModel, ServerRegistry,
};
use crate::selector::{select, select_spec, eligible, lemma_select_ok_eligible, SelectError};
use vstd::pervasive::VecAdditionalExecFns;
use vstd::prelude::*;

verus! {

/// Why a join request failed. Every kind is stable, so a client can decide
/// whether a retry can help (`NoCapacity`, `Timeout`) or cannot
/// (`MissingVersion`, `MissingIdentity`, `VersionMismatch`).
/// `Timeout` is raised by the front end when a request exceeds its deadline;
/// `BackendUnreachable` stays internal to the backend links.
#[derive(Clone, Copy, PartialEq, Eq, Structural, Debug)]
pub enum JoinError {
    MissingVersion,
    MissingIdentity,
    VersionMismatch,
    NoCapacity,
    Timeout,
    BackendUnreachable,
}

/// A tentative hold of one slot on a backend for one player, taken at
/// selection time and either confirmed when the backend reports the player
/// connected, or expired, which gives the slot back.
pub struct Reservation {
    pub player: Vec<u8>,
    pub backend: Vec<u8>,
    pub expires_at_ms: u64,
    pub confirmed: bool,
}

/// Mathematical picture of one reservation.
pub ghost struct ReservationModel {
    pub player: Seq<u8>,
    pub backend: Seq<u8>,
    pub expires_at_ms: int,
    pub confirmed: bool,
}

impl View for Reservation {
    type V = ReservationModel;

    open spec fn view(&self) -> ReservationModel {
        ReservationModel {
            player: self.player@,
            backend: self.backend@,
            expires_at_ms: self.expires_at_ms as int,
            confirmed: self.confirmed,
        }
    }
}

/// The models behind a sequence of reservations.
pub open spec fn res_models(s: Seq<Reservation>) -> Seq<ReservationModel> {
    s.map_values(|r: Reservation| r@)
}

/// Mathematical picture of the coordinator.
pub ghost struct CoordModel {
    pub reservations: Seq<ReservationModel>,
    pub reservation_expiry_ms: int,
}

/// Coordinator invariant: the table holds at most one reservation per
/// player, which is what makes retries idempotent.
pub open spec fn coord_wf(c: CoordModel) -> bool {
    &&& forall|i: int, j: int|
        0 <= i < j < c.reservations.len() ==> c.reservations[i].player
            != c.reservations[j].player
    &&& c.reservation_expiry_ms >= 0
}

/// Whether some reservation is held by this player.
pub open spec fn has_res(rs: Seq<ReservationModel>, p: Seq<u8>) -> bool {
    exists|i: int| 0 <= i < rs.len() && rs[i].player == p
}

/// The position of this player's reservation; unique under `coord_wf`.
pub open spec fn res_idx(rs: Seq<ReservationModel>, p: Seq<u8>) -> int {
    choose|i: int| 0 <= i < rs.len() && rs[i].player == p
}

/// The expiry of this player's reservation.
pub open spec fn res_expiry(c: CoordModel, p: Seq<u8>) -> int {
    c.reservations[res_idx(c.reservations, p)].expires_at_ms
}

/// Sweeping the table at `now`: every reservation already expired is
/// dropped, and each unconfirmed one that is dropped releases its slot;
/// the reservations still running survive in order.
pub open spec fn expire_step(rs: Seq<ReservationModel>, m: RegistryModel, now: int) -> (Seq<
    ReservationModel,
>, RegistryModel)
    decreases rs.len(),
{
    if rs.len() == 0 {
        (rs, m)
    } else {
        let head = rs[0];
        if head.expires_at_ms >= now {
            let rest = expire_step(rs.drop_first(), m, now);
            (seq![head] + rest.0, rest.1)
        } else {
            let m2 = if head.confirmed {
                m
            } else {
                release_model(m, head.backend)
            };
            expire_step(rs.drop_first(), m2, now)
        }
    }
}

/// What the sweep keeps: exactly the reservations that had not expired,
/// each unchanged, so per-player uniqueness survives.
pub proof fn lemma_expire_res(rs: Seq<ReservationModel>, m: RegistryModel, now: int)
    requires
        forall|i: int, j: int| 0 <= i < j < rs.len() ==> rs[i].player != rs[j].player,
    ensures
        forall|i: int, j: int|
            0 <= i < j < expire_step(rs, m, now).0.len() ==> expire_step(rs, m, now).0[i].player
                != expire_step(rs, m, now).0[j].player,
        forall|x: ReservationModel| #[trigger]
            expire_step(rs, m, now).0.contains(x) ==> rs.contains(x) && x.expires_at_ms >= now,
        forall|x: ReservationModel| #[trigger]
            rs.contains(x) && x.expires_at_ms >= now ==> expire_step(rs, m, now).0.contains(x),
    decreases rs.len(),
{
    if rs.len() > 0 {
        let head = rs[0];
        let tail = rs.drop_first();
        assert(forall|i: int, j: int|
            0 <= i < j < tail.len() ==> tail[i].player != tail[j].player) by {
            assert(forall|i: int| 0 <= i < tail.len() ==> tail[i] == rs[i + 1]);
        }
        assert(forall|x: ReservationModel| tail.contains(x) ==> rs.contains(x)) by {
            assert(forall|i: int| 0 <= i < tail.len() ==> tail[i] == rs[i + 1]);
        }
        if head.expires_at_ms >= now {
            let m2 = m;
            lemma_expire_res(tail, m2, now);
            let kept = expire_step(rs, m, now).0;
            let rest = expire_step(tail, m2, now).0;
            assert(kept == seq![head] + rest);
            assert(rs.contains(head)) by {
                assert(rs[0] == head);
            }
            assert(forall|j: int| 0 <= j < rest.len() ==> kept[j + 1] == rest[j]);
            assert(forall|i: int, j: int|
                0 <= i < j < kept.len() ==> kept[i].player != kept[j].player) by {
                assert(forall|j: int|
                    1 <= j < kept.len() ==> #[trigger] kept[j].player != head.player) by {
                    assert(forall|j: int| 1 <= j < kept.len() ==> rest.contains(kept[j])) by {
                        assert(forall|j: int| 1 <= j < kept.len() ==> kept[j] == rest[j - 1]);
                    }
                    assert(forall|x: ReservationModel| #[trigger]
                        rest.contains(x) ==> x.player != head.player) by {
                        assert(forall|x: ReservationModel|
                            tail.contains(x) ==> x.player != head.player) by {
                            assert(forall|i: int|
                                0 <= i < tail.len() ==> #[trigger] tail[i].player
                                    != head.player) by {
                                assert(forall|i: int|
                                    0 <= i < tail.len() ==> tail[i] == rs[i + 1]);
                            }
                        }
                    }
                }
                assert(forall|i: int, j: int|
                    1 <= i < j < kept.len() ==> kept[i].player != kept[j].player) by {
                    assert(forall|i: int, j: int|
                        1 <= i < j < kept.len() ==> kept[i] == rest[i - 1] && kept[j] == rest[j
                            - 1]);
                }
            }
            assert(forall|x: ReservationModel| #[trigger]
                kept.contains(x) ==> rs.contains(x) && x.expires_at_ms >= now) by {
                assert(forall|x: ReservationModel|
                    kept.contains(x) ==> x == head || rest.contains(x)) by {
                    assert(forall|j: int|
                        0 <= j < kept.len() ==> kept[j] == if j == 0 {
                            head
                        } else {
                            rest[j - 1]
                        });
                }
            }
            assert(forall|x: ReservationModel| #[trigger]
                rs.contains(x) && x.expires_at_ms >= now ==> kept.contains(x)) by {
                assert(forall|x: ReservationModel|
                    rs.contains(x) ==> x == head || tail.contains(x)) by {
                    assert(forall|i: int|
                        1 <= i < rs.len() ==> rs[i] == tail[i - 1]);
                }
                assert(kept.contains(head)) by {
                    assert(kept[0] == head);
                }
                assert(forall|x: ReservationModel| #[trigger]
                    rest.contains(x) ==> kept.contains(x)) by {
                    assert(forall|j: int| 0 <= j < rest.len() ==> rest[j] == kept[j + 1]);
                }
            }
        } else {
            let m2 = if head.confirmed {
                m
            } else {
                release_model(m, head.backend)
            };
            lemma_expire_res(tail, m2, now);
            assert(expire_step(rs, m, now) == expire_step(tail, m2, now));
            assert(forall|x: ReservationModel| #[trigger]
                rs.contains(x) && x.expires_at_ms >= now ==> tail.contains(x)) by {
                assert(forall|i: int| 1 <= i < rs.len() ==> rs[i] == tail[i - 1]);
                assert(rs[0].expires_at_ms < now);
            }
        }
    }
}

/// The model of a player argument.
pub open spec fn opt_bytes(p: Option<&[u8]>) -> Option<Seq<u8>> {
    match p {
        Some(s) => Some(s@),
        None => None,
    }
}

/// The model behind an executable join result.
pub open spec fn join_result_model(r: Result<Vec<u8>, JoinError>) -> Result<Seq<u8>, JoinError> {
    match r {
        Ok(v) => Ok(v@),
        Err(e) => Err(e),
    }
}

/// One join request, start to finish: sweep expired reservations, validate,
/// deduplicate by player, select, reserve, record the reservation.
pub open spec fn join_model(
    c: CoordModel,
    m: RegistryModel,
    version: Option<u32>,
    player: Option<Seq<u8>>,
    now: int,
) -> (CoordModel, RegistryModel, Result<Seq<u8>, JoinError>) {
    let ex = expire_step(c.reservations, m, now);
    let c1 = CoordModel { reservations: ex.0, ..c };
    let m1 = ex.1;
    if version is None {
        (c1, m1, Err(JoinError::MissingVersion))
    } else if player is None || !is_uuid(player->0) {
        (c1, m1, Err(JoinError::MissingIdentity))
    } else if has_res(c1.reservations, player->0) {
        (c1, m1, Ok(c1.reservations[res_idx(c1.reservations, player->0)].backend))
    } else {
        match select_spec(m1.backends, version->0 as int, now, m1.stale_after_ms) {
            Err(SelectError::VersionMismatch) => (c1, m1, Err(JoinError::VersionMismatch)),
            Err(SelectError::NoCapacity) => (c1, m1, Err(JoinError::NoCapacity)),
            Ok(bid) => (
                CoordModel {
                    reservations: c1.reservations.push(
                        ReservationModel {
                            player: player->0,
                            backend: bid,
                            expires_at_ms: now + c.reservation_expiry_ms,
                            confirmed: false,
                        },
                    ),
                    ..c1
                },
                reserve_model(m1, bid, now),
                Ok(bid),
            ),
        }
    }
}

/// Idempotent retry: when a join succeeds for a player, a second join by the
/// same player while that player's reservation is unexpired returns the very
/// same address — whatever protocol version the retry declares, as long as
/// one is present — instead of taking a second slot.
pub proof fn lemma_join_idempotent(
    c: CoordModel,
    m: RegistryModel,
    v1: Option<u32>,
    v2: Option<u32>,
    p: Seq<u8>,
    now1: int,
    now2: int,
)
    requires
        coord_wf(c),
        v1 is Some,
        v2 is Some,
        now1 <= now2,
        join_model(c, m, v1, Some(p), now1).2 is Ok,
        now2 <= res_expiry(join_model(c, m, v1, Some(p), now1).0, p),
    ensures
        join_model(
            join_model(c, m, v1, Some(p), now1).0,
            join_model(c, m, v1, Some(p), now1).1,
            v2,
            Some(p),
            now2,
        ).2 == join_model(c, m, v1, Some(p), now1).2,
{
    let ex1 = expire_step(c.reservations, m, now1);
    lemma_expire_res(c.reservations, m, now1);
    let cf = join_model(c, m, v1, Some(p), now1).0;
    let mf = join_model(c, m, v1, Some(p), now1).1;
    assert(is_uuid(p));
    // The entry that the first join leaves for `p`, and the address it chose.
    let e = cf.reservations[res_idx(cf.reservations, p)];
    if has_res(ex1.0, p) {
        assert(cf.reservations == ex1.0);
        assert(join_model(c, m, v1, Some(p), now1).2 == Ok::<Seq<u8>, JoinError>(e.backend));
        assert(forall|i: int, j: int|
            0 <= i < j < cf.reservations.len() ==> cf.reservations[i].player
                != cf.reservations[j].player);
    } else {
        match select_spec(ex1.1.backends, v1->0 as int, now1, ex1.1.stale_after_ms) {
            Ok(bid) => {
                let fresh_entry = ReservationModel {
                    player: p,
                    backend: bid,
                    expires_at_ms: now1 + c.reservation_expiry_ms,
                    confirmed: false,
                };
                assert(cf.reservations == ex1.0.push(fresh_entry));
                assert(forall|i: int, j: int|
                    0 <= i < j < cf.reservations.len() ==> cf.reservations[i].player
                        != cf.reservations[j].player) by {
                    assert(forall|i: int|
                        0 <= i < ex1.0.len() ==> cf.reservations[i] == ex1.0[i]);
                    assert(cf.reservations[ex1.0.len() as int] == fresh_entry);
                }
                assert(cf.reservations[ex1.0.len() as int].player == p);
                JoinCoordinator::lemma_res_found_is_idx(
                    CoordModel { reservations: cf.reservations, ..c },
                    p,
                    ex1.0.len() as int,
                );
                assert(e == fresh_entry);
            },
            Err(_) => {
                assert(false);
            },
        }
    }
    assert(has_res(cf.reservations, p));
    assert(e.player == p);
    assert(e.expires_at_ms == res_expiry(cf, p));
    assert(join_model(c, m, v1, Some(p), now1).2 == Ok::<Seq<u8>, JoinError>(e.backend));
    // The second sweep keeps that entry, and dedup finds it.
    let ex2 = expire_step(cf.reservations, mf, now2);
    lemma_expire_res(cf.reservations, mf, now2);
    assert(cf.reservations.contains(e)) by {
        assert(cf.reservations[res_idx(cf.reservations, p)] == e);
    }
    assert(ex2.0.contains(e));
    let k = choose|k: int| 0 <= k < ex2.0.len() && ex2.0[k] == e;
    assert(has_res(ex2.0, p)) by {
        assert(ex2.0[k].player == p);
    }
    let l = res_idx(ex2.0, p);
    assert(0 <= l < ex2.0.len() && ex2.0[l].player == p);
    assert(forall|i: int, j: int|
        0 <= i < j < ex2.0.len() ==> ex2.0[i].player != ex2.0[j].player);
    if k < l {
        assert(ex2.0[k].player != ex2.0[l].player);
    } else if l < k {
        assert(ex2.0[l].player != ex2.0[k].player);
    }
    assert(ex2.0[l] == e);
}

/// The coordinator: owns the reservation table; the registry is handed in by
/// the caller, which serializes access to both.
pub struct JoinCoordinator {
    reservations: Vec<Reservation>,
    reservation_expiry_ms: u64,
}

impl View for JoinCoordinator {
    type V = CoordModel;

    closed spec fn view(&self) -> CoordModel {
        CoordModel {
            reservations: res_models(self.reservations@),
            reservation_expiry_ms: self.reservation_expiry_ms as int,
        }
    }
}

impl JoinCoordinator {
    /// A coordinator with an empty reservation table; a reservation not
    /// confirmed within `reservation_expiry_ms` gives its slot back.
    pub fn new(reservation_expiry_ms: u64) -> (r: JoinCoordinator)
        ensures
            r@.reservations == Seq::<ReservationModel>::empty(),
            r@.reservation_expiry_ms == reservation_expiry_ms as int,
            coord_wf(r@),
    {
        let r = JoinCoordinator { reservations: Vec::new(), reservation_expiry_ms };
        proof {
            assert(r@.reservations =~= Seq::<ReservationModel>::empty());
        }
        r
    }

    /// Position of this player's reservation, if any.
    fn find_res(&self, p: &[u8]) -> (r: Option<usize>)
        ensures
            match r {
                Some(i) => i < self@.reservations.len() && self@.reservations[i as int].player
                    == p@,
                None => !has_res(self@.reservations, p@),
            },
    {
        let n: usize = self.reservations.len();
        let mut i: usize = 0;
        while i < n
            invariant
                n == self.reservations@.len(),
                i <= n,
                self@.reservations.len() == n,
                forall|j: int| 0 <= j < i ==> self@.reservations[j].player != p@,
            decreases n - i,
        {
            if bytes_eq(self.reservations[i].player.as_slice(), p) {
                return Some(i);
            }
            i = i + 1;
        }
        None
    }

    /// Under `coord_wf` a found position is the position `res_idx` names.
    proof fn lemma_res_found_is_idx(c: CoordModel, p: Seq<u8>, i: int)
        requires
            coord_wf(c),
            0 <= i < c.reservations.len(),
            c.reservations[i].player == p,
        ensures
            has_res(c.reservations, p),
            res_idx(c.reservations, p) == i,
    {
        assert(has_res(c.reservations, p));
        let j = res_idx(c.reservations, p);
        if i < j {
            assert(c.reservations[i].player != c.reservations[j].player);
        } else if j < i {
            assert(c.reservations[j].player != c.reservations[i].player);
        }
    }

    /// Sweep the table at `now`: drop every expired reservation and give the
    /// slot of each unconfirmed one back to its backend.
    pub fn expire(&mut self, reg: &mut ServerRegistry, now: u64)
        requires
            reg_wf(old(reg)@),
            coord_wf(old(self)@),
        ensures
            final(self)@.reservations == expire_step(
                old(self)@.reservations,
                old(reg)@,
                now as int,
            ).0,
            final(reg)@ == expire_step(old(self)@.reservations, old(reg)@, now as int).1,
            final(self)@.reservation_expiry_ms == old(self)@.reservation_expiry_ms,
            coord_wf(final(self)@),
            reg_wf(final(reg)@),
    {
        let ghost rs0 = old(self)@.reservations;
        let ghost m0 = old(reg)@;
        proof {
            assert(rs0.skip(0) =~= rs0);
            assert(rs0.subrange(0, 0) + expire_step(rs0, m0, now as int).0 =~= expire_step(
                rs0,
                m0,
                now as int,
            ).0);
        }
        let mut i: usize = 0;
        while i < self.reservations.len()
            invariant
                i <= self.reservations.len(),
                self@.reservation_expiry_ms == old(self)@.reservation_expiry_ms,
                reg_wf(reg@),
                expire_step(rs0, m0, now as int).0 == self@.reservations.subrange(0, i as int)
                    + expire_step(self@.reservations.skip(i as int), reg@, now as int).0,
                expire_step(rs0, m0, now as int).1 == expire_step(
                    self@.reservations.skip(i as int),
                    reg@,
                    now as int,
                ).1,
            decreases self.reservations.len() - i,
        {
            let ghost rs_cur = self@.reservations;
            let ghost m_cur = reg@;
            let ghost suffix = rs_cur.skip(i as int);
            proof {
                assert(suffix.len() > 0);
                assert(suffix[0] == rs_cur[i as int]);
                assert(suffix.drop_first() =~= rs_cur.skip(i as int + 1));
            }
            if self.reservations[i].expires_at_ms >= now {
                proof {
                    let rest = expire_step(suffix.drop_first(), m_cur, now as int);
                    assert(expire_step(suffix, m_cur, now as int).0 == seq![suffix[0]] + rest.0);
                    assert(rs_cur.subrange(0, i as int) + (seq![suffix[0]] + rest.0)
                        =~= rs_cur.subrange(0, i as int + 1) + rest.0);
                }
                i = i + 1;
            } else {
                if !self.reservations[i].confirmed {
                    reg.release(self.reservations[i].backend.as_slice());
                }
                proof {
                    assert(expire_step(suffix, m_cur, now as int) == expire_step(
                        suffix.drop_first(),
                        reg@,
                        now as int,
                    ));
                }
                self.reservations.remove(i);
                proof {
                    assert(self@.reservations.subrange(0, i as int) =~= rs_cur.subrange(
                        0,
                        i as int,
                    ));
                    assert(self@.reservations.skip(i as int) =~= suffix.drop_first());
                }
            }
        }
        proof {
            assert(self@.reservations.skip(self.reservations@.len() as int)
                =~= Seq::<ReservationModel>::empty());
            assert(self@.reservations.subrange(0, self.reservations@.len() as int)
                =~= self@.reservations);
            lemma_expire_res(rs0, m0, now as int);
        }
    }

    /// Serve one join request at `now`. The result, the new reservation
    /// table and the new registry are exactly what `join_model` says: a
    /// missing version or a missing or malformed player token is rejected; a
    /// player holding an unexpired reservation gets the same address again; a
    /// fresh request gets the selector's choice with one slot reserved on it,
    /// or the selector's refusal.
    pub fn join(&mut self, reg: &mut ServerRegistry, version: Option<u32>, player: Option<&[u8]>,
        now: u64) -> (r: Result<Vec<u8>, JoinError>)
        requires
            reg_wf(old(reg)@),
            coord_wf(old(self)@),
            now + old(self)@.reservation_expiry_ms <= u64::MAX,
        ensures
            final(self)@ == join_model(old(self)@, old(reg)@, version, opt_bytes(player),
                now as int).0,
            final(reg)@ == join_model(old(self)@, old(reg)@, version, opt_bytes(player),
                now as int).1,
            join_result_model(r) == join_model(old(self)@, old(reg)@, version, opt_bytes(player),
                now as int).2,
            coord_wf(final(self)@),
            reg_wf(final(reg)@),
    {
        self.expire(reg, now);
        let ver: u32 = match version {
            None => {
                return Err(JoinError::MissingVersion);
            },
            Some(v) => v,
        };
        let p: &[u8] = match player {
            None => {
                return Err(JoinError::MissingIdentity);
            },
            Some(s) => s,
        };
        if !is_valid_player_id(p) {
            return Err(JoinError::MissingIdentity);
        }
        match self.find_res(p) {
            Some(i) => {
                proof {
                    Self::lemma_res_found_is_idx(self@, p@, i as int);
                }
                return Ok(copy_bytes(self.reservations[i].backend.as_slice()));
            },
            None => {},
        }
        let snap = reg.snapshot_all();
        let chosen: Vec<u8> = match select(&snap, ver, now, reg.stale_after_ms()) {
            Err(SelectError::VersionMismatch) => {
                return Err(JoinError::VersionMismatch);
            },
            Err(SelectError::NoCapacity) => {
                return Err(JoinError::NoCapacity);
            },
            Ok(id) => id,
        };
        proof {
            lemma_select_ok_eligible(
                reg@.backends,
                ver as int,
                now as int,
                reg@.stale_after_ms,
                chosen@,
            );
            let w = choose|w: int|
                0 <= w < reg@.backends.len() && reg@.backends[w].identity == chosen@ && eligible(
                    reg@.backends[w],
                    ver as int,
                    now as int,
                    reg@.stale_after_ms,
                );
            crate::registry::lemma_found_is_idx(reg@, chosen@, w);
            assert(reserve_ok(reg@, chosen@, now as int));
        }
        // Concurrent requests serialize on the caller's lock around the whole
        // call, so the registry cannot change between the snapshot and this
        // reservation: the selector only names backends that can take it, the
        // reservation provably succeeds, and no bounded retry is needed here.
        let ok = reg.try_reserve(chosen.as_slice(), now);
        if ok {
            let entry = Reservation {
                player: copy_bytes(p),
                backend: copy_bytes(chosen.as_slice()),
                expires_at_ms: now + self.reservation_expiry_ms,
                confirmed: false,
            };
            self.reservations.push(entry);
            proof {
                assert(self@.reservations =~= join_model(
                    old(self)@,
                    old(reg)@,
                    version,
                    opt_bytes(player),
                    now as int,
                ).0.reservations);
            }
            Ok(chosen)
        } else {
            proof {
                assert(false);
            }
            Err(JoinError::NoCapacity)
        }
    }

    /// Record the backend's out-of-band signal that this player connected:
    /// the reservation, if one is held, becomes confirmed, and its slot is
    /// kept for good rather than returned at expiry.
    pub fn confirm(&mut self, p: &[u8]) -> (found: bool)
        requires
            coord_wf(old(self)@),
        ensures
            found == has_res(old(self)@.reservations, p@),
            final(self)@ == if has_res(old(self)@.reservations, p@) {
                CoordModel {
                    reservations: old(self)@.reservations.update(
                        res_idx(old(self)@.reservations, p@),
                        ReservationModel {
                            confirmed: true,
                            ..old(self)@.reservations[res_idx(old(self)@.reservations, p@)]
                        },
                    ),
                    ..old(self)@
                }
            } else {
                old(self)@
            },
            coord_wf(final(self)@),
    {
        match self.find_res(p) {
            Some(i) => {
                proof {
                    Self::lemma_res_found_is_idx(self@, p@, i as int);
                }
                let entry = {
                    let e = &self.reservations[i];
                    Reservation {
                        player: copy_bytes(e.player.as_slice()),
                        backend: copy_bytes(e.backend.as_slice()),
                        expires_at_ms: e.expires_at_ms,
                        confirmed: true,
                    }
                };
                self.reservations.set(i, entry);
                proof {
                    assert(final(self)@.reservations =~= old(self)@.reservations.update(
                        res_idx(old(self)@.reservations, p@),
                        ReservationModel {
                            confirmed: true,
                            ..old(self)@.reservations[res_idx(old(self)@.reservations, p@)]
                        },
                    ));
                }
                true
            },
            None => false,
        }
    }
}

} // verus!
