//! The server registry: the single source of truth about every backend game
//! server — its latest reported load, its connection status and when it last
//! reported. Selection reads a snapshot of it; reservations are taken against
//! it with an atomic check-and-increment per backend.

use crate::ident::{bytes_eq, copy_bytes};
use crate::report::LoadReport;
use vstd::pervasive::VecAdditionalExecFns;
use vstd::prelude::*;

verus! {

/// Connection status of one backend, as its backend link last left it.
#[derive(Clone, Copy, PartialEq, Eq, Structural, Debug)]
pub enum ConnectionStatus {
    Connecting,
    Live,
    Unreachable,
}

/// One backend game server as the registry knows it.
pub struct BackendServer {
    /// The backend's `host:port` address, which is also its identity.
    pub identity: Vec<u8>,
    pub protocol_version: u32,
    pub player_count: u32,
    pub capacity: u32,
    pub status: ConnectionStatus,
    /// When the last load report arrived, in milliseconds.
    pub last_report_ms: u64,
}

/// Mathematical picture of one backend.
pub ghost struct BackendModel {
    pub identity: Seq<u8>,
    pub protocol_version: int,
    pub player_count: int,
    pub capacity: int,
    pub status: ConnectionStatus,
    pub last_report_ms: int,
}

impl View for BackendServer {
    type V = BackendModel;

    open spec fn view(&self) -> BackendModel {
        BackendModel {
            identity: self.identity@,
            protocol_version: self.protocol_version as int,
            player_count: self.player_count as int,
            capacity: self.capacity as int,
            status: self.status,
            last_report_ms: self.last_report_ms as int,
        }
    }
}

impl BackendServer {
    /// A copy whose model Verus knows equals the original's.
    pub fn duplicate(&self) -> (r: BackendServer)
        ensures
            r@ == self@,
    {
        BackendServer {
            identity: copy_bytes(self.identity.as_slice()),
            protocol_version: self.protocol_version,
            player_count: self.player_count,
            capacity: self.capacity,
            status: self.status,
            last_report_ms: self.last_report_ms,
        }
    }
}

/// Mathematical picture of the whole registry.
pub ghost struct RegistryModel {
    pub backends: Seq<BackendModel>,
    pub stale_after_ms: int,
}

/// The sequence of backend models behind a sequence of backend entries.
pub open spec fn models_of(s: Seq<BackendServer>) -> Seq<BackendModel> {
    s.map_values(|b: BackendServer| b@)
}

/// Registry invariant: backends are keyed by identity, so identities are
/// unique, and no backend ever holds more players than its capacity.
pub open spec fn reg_wf(m: RegistryModel) -> bool {
    &&& forall|i: int, j: int|
        0 <= i < j < m.backends.len() ==> m.backends[i].identity != m.backends[j].identity
    &&& forall|i: int|
        0 <= i < m.backends.len() ==> 0 <= #[trigger] m.backends[i].player_count
            <= m.backends[i].capacity
    &&& m.stale_after_ms >= 0
}

/// Whether some backend carries this identity.
pub open spec fn has_id(s: Seq<BackendModel>, id: Seq<u8>) -> bool {
    exists|i: int| 0 <= i < s.len() && s[i].identity == id
}

/// The position of the backend with this identity; meaningful under `reg_wf`,
/// where it is unique.
pub open spec fn idx_of(s: Seq<BackendModel>, id: Seq<u8>) -> int {
    choose|i: int| 0 <= i < s.len() && s[i].identity == id
}

/// A backend is fresh at `now` if its last report is at most the staleness
/// threshold old; a backend that has been silent for longer is treated as
/// unreachable no matter what its connection claims.
pub open spec fn fresh_at(b: BackendModel, now: int, stale_after_ms: int) -> bool {
    now - b.last_report_ms <= stale_after_ms
}

/// One reservation attempt against one backend: succeeds, and takes one
/// slot, exactly when the backend is live, fresh and below capacity.
pub open spec fn entry_reserve(b: BackendModel, now: int, stale_after_ms: int) -> (BackendModel,
    bool) {
    if b.status == ConnectionStatus::Live && fresh_at(b, now, stale_after_ms) && b.player_count
        < b.capacity {
        (BackendModel { player_count: b.player_count + 1, ..b }, true)
    } else {
        (b, false)
    }
}

/// Whether a reservation against `id` succeeds in state `m` at `now`.
pub open spec fn reserve_ok(m: RegistryModel, id: Seq<u8>, now: int) -> bool {
    has_id(m.backends, id) && entry_reserve(
        m.backends[idx_of(m.backends, id)],
        now,
        m.stale_after_ms,
    ).1
}

/// The registry after a reservation attempt against `id`.
pub open spec fn reserve_model(m: RegistryModel, id: Seq<u8>, now: int) -> RegistryModel {
    if reserve_ok(m, id, now) {
        RegistryModel {
            backends: m.backends.update(
                idx_of(m.backends, id),
                entry_reserve(m.backends[idx_of(m.backends, id)], now, m.stale_after_ms).0,
            ),
            ..m
        }
    } else {
        m
    }
}

/// The registry after releasing one slot on `id`: one player fewer, never
/// below zero, and nothing else moves.
pub open spec fn release_model(m: RegistryModel, id: Seq<u8>) -> RegistryModel {
    if has_id(m.backends, id) && m.backends[idx_of(m.backends, id)].player_count > 0 {
        RegistryModel {
            backends: m.backends.update(
                idx_of(m.backends, id),
                BackendModel {
                    player_count: m.backends[idx_of(m.backends, id)].player_count - 1,
                    ..m.backends[idx_of(m.backends, id)]
                },
            ),
            ..m
        }
    } else {
        m
    }
}

/// The registry after a load report from `id`: the entry is brought fully up
/// to date and is live, or is created if the backend is new.
pub open spec fn upsert_model(m: RegistryModel, id: Seq<u8>, rep: LoadReport, now: int)
    -> RegistryModel {
    let b = BackendModel {
        identity: id,
        protocol_version: rep.protocol_version as int,
        player_count: rep.player_count as int,
        capacity: rep.capacity as int,
        status: ConnectionStatus::Live,
        last_report_ms: now,
    };
    if has_id(m.backends, id) {
        RegistryModel { backends: m.backends.update(idx_of(m.backends, id), b), ..m }
    } else {
        RegistryModel { backends: m.backends.push(b), ..m }
    }
}

/// The registry after its link to `id` dropped: only the status changes, so
/// reported counts survive a disconnect.
pub open spec fn mark_unreachable_model(m: RegistryModel, id: Seq<u8>) -> RegistryModel {
    if has_id(m.backends, id) {
        RegistryModel {
            backends: m.backends.update(
                idx_of(m.backends, id),
                BackendModel {
                    status: ConnectionStatus::Unreachable,
                    ..m.backends[idx_of(m.backends, id)]
                },
            ),
            ..m
        }
    } else {
        m
    }
}

/// The registry after a link began connecting to `id`: a new entry starts
/// with no known load and does not count as live until it reports.
pub open spec fn register_model(m: RegistryModel, id: Seq<u8>, now: int) -> RegistryModel {
    if has_id(m.backends, id) {
        RegistryModel {
            backends: m.backends.update(
                idx_of(m.backends, id),
                BackendModel {
                    status: ConnectionStatus::Connecting,
                    ..m.backends[idx_of(m.backends, id)]
                },
            ),
            ..m
        }
    } else {
        RegistryModel {
            backends: m.backends.push(
                BackendModel {
                    identity: id,
                    protocol_version: 0,
                    player_count: 0,
                    capacity: 0,
                    status: ConnectionStatus::Connecting,
                    last_report_ms: now,
                },
            ),
            ..m
        }
    }
}

/// Under `reg_wf` a found position is the position `idx_of` names.
pub proof fn lemma_found_is_idx(m: RegistryModel, id: Seq<u8>, i: int)
    requires
        reg_wf(m),
        0 <= i < m.backends.len(),
        m.backends[i].identity == id,
    ensures
        has_id(m.backends, id),
        idx_of(m.backends, id) == i,
{
    assert(has_id(m.backends, id));
    let j = idx_of(m.backends, id);
    assert(0 <= j < m.backends.len() && m.backends[j].identity == id);
    if i < j {
        assert(m.backends[i].identity != m.backends[j].identity);
    } else if j < i {
        assert(m.backends[j].identity != m.backends[i].identity);
    }
}

/// The thread-safe store of backend state. Within one process the callers
/// serialize access to it; every operation is a single atomic step of the
/// model.
pub struct ServerRegistry {
    entries: Vec<BackendServer>,
    stale_after_ms: u64,
}

impl View for ServerRegistry {
    type V = RegistryModel;

    closed spec fn view(&self) -> RegistryModel {
        RegistryModel {
            backends: models_of(self.entries@),
            stale_after_ms: self.stale_after_ms as int,
        }
    }
}

impl ServerRegistry {
    /// An empty registry. A backend that has sent nothing for more than three
    /// report intervals is stale.
    pub fn new(report_interval_ms: u64) -> (r: ServerRegistry)
        requires
            report_interval_ms <= u64::MAX / 3,
        ensures
            r@.backends == Seq::<BackendModel>::empty(),
            r@.stale_after_ms == 3 * report_interval_ms,
            reg_wf(r@),
    {
        let r = ServerRegistry { entries: Vec::new(), stale_after_ms: 3 * report_interval_ms };
        proof {
            assert(r@.backends =~= Seq::<BackendModel>::empty());
        }
        r
    }

    /// The staleness threshold this registry applies.
    pub fn stale_after_ms(&self) -> (r: u64)
        ensures
            r as int == self@.stale_after_ms,
    {
        self.stale_after_ms
    }

    /// Position of the backend named `id`, if any.
    fn find(&self, id: &[u8]) -> (r: Option<usize>)
        ensures
            match r {
                Some(i) => i < self@.backends.len() && self@.backends[i as int].identity == id@,
                None => !has_id(self@.backends, id@),
            },
    {
        let n: usize = self.entries.len();
        let mut i: usize = 0;
        while i < n
            invariant
                n == self.entries@.len(),
                i <= n,
                self@.backends.len() == n,
                forall|j: int| 0 <= j < i ==> self@.backends[j].identity != id@,
            decreases n - i,
        {
            if bytes_eq(self.entries[i].identity.as_slice(), id) {
                return Some(i);
            }
            i = i + 1;
        }
        None
    }

    /// A consistent point-in-time copy of every backend, in registry order —
    /// not a live view: later registry changes do not show through it.
    pub fn snapshot_all(&self) -> (snap: Vec<BackendServer>)
        ensures
            models_of(snap@) == self@.backends,
    {
        let n: usize = self.entries.len();
        let mut snap: Vec<BackendServer> = Vec::new();
        let mut i: usize = 0;
        while i < n
            invariant
                n == self.entries@.len(),
                i <= n,
                snap@.len() == i,
                models_of(snap@) =~= self@.backends.subrange(0, i as int),
            decreases n - i,
        {
            snap.push(self.entries[i].duplicate());
            proof {
                assert(models_of(snap@) =~= self@.backends.subrange(0, i + 1));
            }
            i = i + 1;
        }
        proof {
            assert(models_of(snap@) =~= self@.backends);
        }
        snap
    }

    /// Ingest one load report from `id`, creating the entry if it is new.
    /// Every accepted report bumps the last-report time.
    pub fn upsert(&mut self, id: &[u8], rep: LoadReport, now: u64)
        requires
            reg_wf(old(self)@),
            rep.player_count <= rep.capacity,
        ensures
            final(self)@ == upsert_model(old(self)@, id@, rep, now as int),
            reg_wf(final(self)@),
    {
        let entry = BackendServer {
            identity: copy_bytes(id),
            protocol_version: rep.protocol_version,
            player_count: rep.player_count,
            capacity: rep.capacity,
            status: ConnectionStatus::Live,
            last_report_ms: now,
        };
        match self.find(id) {
            Some(i) => {
                proof {
                    lemma_found_is_idx(self@, id@, i as int);
                }
                self.entries.set(i, entry);
                proof {
                    assert(final(self)@.backends =~= upsert_model(
                        old(self)@,
                        id@,
                        rep,
                        now as int,
                    ).backends);
                }
            },
            None => {
                self.entries.push(entry);
                proof {
                    assert(final(self)@.backends =~= upsert_model(
                        old(self)@,
                        id@,
                        rep,
                        now as int,
                    ).backends);
                }
            },
        }
    }

    /// Record that the link to `id` dropped; its reported counts survive.
    pub fn mark_unreachable(&mut self, id: &[u8])
        requires
            reg_wf(old(self)@),
        ensures
            final(self)@ == mark_unreachable_model(old(self)@, id@),
            reg_wf(final(self)@),
    {
        match self.find(id) {
            Some(i) => {
                proof {
                    lemma_found_is_idx(self@, id@, i as int);
                }
                let entry = {
                    let e = &self.entries[i];
                    BackendServer {
                        identity: copy_bytes(e.identity.as_slice()),
                        protocol_version: e.protocol_version,
                        player_count: e.player_count,
                        capacity: e.capacity,
                        status: ConnectionStatus::Unreachable,
                        last_report_ms: e.last_report_ms,
                    }
                };
                self.entries.set(i, entry);
                proof {
                    assert(final(self)@.backends =~= mark_unreachable_model(
                        old(self)@,
                        id@,
                    ).backends);
                }
            },
            None => {},
        }
    }

    /// Record that a link began connecting to `id`; a new entry has no load
    /// to offer until its first report.
    pub fn register(&mut self, id: &[u8], now: u64)
        requires
            reg_wf(old(self)@),
        ensures
            final(self)@ == register_model(old(self)@, id@, now as int),
            reg_wf(final(self)@),
    {
        match self.find(id) {
            Some(i) => {
                proof {
                    lemma_found_is_idx(self@, id@, i as int);
                }
                let entry = {
                    let e = &self.entries[i];
                    BackendServer {
                        identity: copy_bytes(e.identity.as_slice()),
                        protocol_version: e.protocol_version,
                        player_count: e.player_count,
                        capacity: e.capacity,
                        status: ConnectionStatus::Connecting,
                        last_report_ms: e.last_report_ms,
                    }
                };
                self.entries.set(i, entry);
                proof {
                    assert(final(self)@.backends =~= register_model(
                        old(self)@,
                        id@,
                        now as int,
                    ).backends);
                }
            },
            None => {
                self.entries.push(
                    BackendServer {
                        identity: copy_bytes(id),
                        protocol_version: 0,
                        player_count: 0,
                        capacity: 0,
                        status: ConnectionStatus::Connecting,
                        last_report_ms: now,
                    },
                );
                proof {
                    assert(final(self)@.backends =~= register_model(
                        old(self)@,
                        id@,
                        now as int,
                    ).backends);
                }
            },
        }
    }

    /// Atomic compare-and-increment: takes one slot on `id` exactly when that
    /// backend is live, fresh at `now` and below capacity.
    pub fn try_reserve(&mut self, id: &[u8], now: u64) -> (ok: bool)
        requires
            reg_wf(old(self)@),
        ensures
            ok == reserve_ok(old(self)@, id@, now as int),
            final(self)@ == reserve_model(old(self)@, id@, now as int),
            reg_wf(final(self)@),
    {
        match self.find(id) {
            Some(i) => {
                proof {
                    lemma_found_is_idx(self@, id@, i as int);
                }
                let live = matches!(self.entries[i].status, ConnectionStatus::Live);
                let fresh = if now >= self.entries[i].last_report_ms {
                    now - self.entries[i].last_report_ms <= self.stale_after_ms
                } else {
                    true
                };
                let below = self.entries[i].player_count < self.entries[i].capacity;
                if live && fresh && below {
                    let entry = {
                        let e = &self.entries[i];
                        BackendServer {
                            identity: copy_bytes(e.identity.as_slice()),
                            protocol_version: e.protocol_version,
                            player_count: e.player_count + 1,
                            capacity: e.capacity,
                            status: e.status,
                            last_report_ms: e.last_report_ms,
                        }
                    };
                    self.entries.set(i, entry);
                    proof {
                        assert(final(self)@.backends =~= reserve_model(
                            old(self)@,
                            id@,
                            now as int,
                        ).backends);
                    }
                    true
                } else {
                    false
                }
            },
            None => false,
        }
    }

    /// Give one slot on `id` back; the count never goes below zero.
    pub fn release(&mut self, id: &[u8])
        requires
            reg_wf(old(self)@),
        ensures
            final(self)@ == release_model(old(self)@, id@),
            reg_wf(final(self)@),
    {
        match self.find(id) {
            Some(i) => {
                proof {
                    lemma_found_is_idx(self@, id@, i as int);
                }
                if self.entries[i].player_count > 0 {
                    let entry = {
                        let e = &self.entries[i];
                        BackendServer {
                            identity: copy_bytes(e.identity.as_slice()),
                            protocol_version: e.protocol_version,
                            player_count: e.player_count - 1,
                            capacity: e.capacity,
                            status: e.status,
                            last_report_ms: e.last_report_ms,
                        }
                    };
                    self.entries.set(i, entry);
                    proof {
                        assert(final(self)@.backends =~= release_model(old(self)@, id@).backends);
                    }
                }
            },
            None => {},
        }
    }
}

/// A run of reservation attempts against one backend, one at each time in
/// `times`: the final state and how many attempts succeeded.
pub open spec fn run_reserves(b: BackendModel, times: Seq<int>, stale_after_ms: int)
    -> (BackendModel, int)
    decreases times.len(),
{
    if times.len() == 0 {
        (b, 0)
    } else {
        let first = entry_reserve(b, times[0], stale_after_ms);
        let rest = run_reserves(first.0, times.drop_first(), stale_after_ms);
        (rest.0, rest.1 + if first.1 { 1int } else { 0int })
    }
}

/// Over any sequence of reservation attempts against one backend, each
/// success takes exactly one slot, the player count never passes the
/// capacity, and so no more than `capacity - player_count` attempts — the
/// slots not already held — can succeed.
pub proof fn lemma_reserve_capacity_bound(b: BackendModel, times: Seq<int>, stale_after_ms: int)
    requires
        b.player_count <= b.capacity,
    ensures
        run_reserves(b, times, stale_after_ms).0.player_count == b.player_count + run_reserves(
            b,
            times,
            stale_after_ms,
        ).1,
        run_reserves(b, times, stale_after_ms).0.player_count <= b.capacity,
        run_reserves(b, times, stale_after_ms).1 <= b.capacity - b.player_count,
    decreases times.len(),
{
    if times.len() > 0 {
        let first = entry_reserve(b, times[0], stale_after_ms);
        lemma_reserve_capacity_bound(first.0, times.drop_first(), stale_after_ms);
    }
}

} // verus!
