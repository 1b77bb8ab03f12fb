//! The selector: a pure decision over a registry snapshot. It filters the
//! snapshot to live, fresh backends of the requested protocol version with a
//! free slot, and picks the least loaded by player/capacity ratio, breaking
//! ties by absolute player count and then by identity order. It never touches
//! the registry; the join coordinator reserves afterwards.

use crate::ident::{bytes_lt, copy_bytes, lex_lt};
use crate::registry::{models_of, fresh_at, BackendModel, BackendServer, ConnectionStatus};
use vstd::prelude::*;

verus! {

/// Why no backend could be chosen: every live, fresh backend of the right
/// version is full or none exists at all (`NoCapacity`), or backends are
/// live but none speaks the requested version (`VersionMismatch`).
#[derive(Clone, Copy, PartialEq, Eq, Structural, Debug)]
pub enum SelectError {
    NoCapacity,
    VersionMismatch,
}

/// A backend that may serve anyone at all: live and fresh at `now`.
pub open spec fn live_fresh(b: BackendModel, now: int, stale_after_ms: int) -> bool {
    b.status == ConnectionStatus::Live && fresh_at(b, now, stale_after_ms)
}

/// A backend that can serve this request: live, fresh, of the requested
/// protocol version, and below capacity.
pub open spec fn eligible(b: BackendModel, version: int, now: int, stale_after_ms: int) -> bool {
    live_fresh(b, now, stale_after_ms) && b.protocol_version == version && b.player_count
        < b.capacity
}

/// Strict preference between two backends: lower player/capacity ratio wins
/// (compared by cross-multiplication), then lower absolute player count, then
/// lower identity.
pub open spec fn better(a: BackendModel, b: BackendModel) -> bool {
    let ar = a.player_count * b.capacity;
    let br = b.player_count * a.capacity;
    ||| ar < br
    ||| (ar == br && a.player_count < b.player_count)
    ||| (ar == br && a.player_count == b.player_count && lex_lt(a.identity, b.identity))
}

/// The preferred eligible backend among the first `n` entries of the
/// snapshot, scanning front to back and replacing only on strict preference.
pub open spec fn best_upto(
    s: Seq<BackendModel>,
    version: int,
    now: int,
    stale_after_ms: int,
    n: int,
) -> Option<BackendModel>
    decreases n,
{
    if n <= 0 {
        None
    } else {
        let prev = best_upto(s, version, now, stale_after_ms, n - 1);
        let cur = s[n - 1];
        if !eligible(cur, version, now, stale_after_ms) {
            prev
        } else {
            match prev {
                None => Some(cur),
                Some(p) => if better(cur, p) {
                    Some(cur)
                } else {
                    Some(p)
                },
            }
        }
    }
}

/// What selection returns on a snapshot: the identity of the preferred
/// eligible backend; `VersionMismatch` when backends are live and fresh but
/// none of them speaks the requested version; `NoCapacity` otherwise —
/// no live backend at all, or all of the right version are full.
pub open spec fn select_spec(
    s: Seq<BackendModel>,
    version: int,
    now: int,
    stale_after_ms: int,
) -> Result<Seq<u8>, SelectError> {
    match best_upto(s, version, now, stale_after_ms, s.len() as int) {
        Some(b) => Ok(b.identity),
        None => if (exists|i: int| 0 <= i < s.len() && live_fresh(s[i], now, stale_after_ms)) && !(
        exists|i: int|
            0 <= i < s.len() && live_fresh(s[i], now, stale_after_ms) && s[i].protocol_version
                == version) {
            Err(SelectError::VersionMismatch)
        } else {
            Err(SelectError::NoCapacity)
        },
    }
}

/// The model behind an executable selection result.
pub open spec fn select_result_model(r: Result<Vec<u8>, SelectError>) -> Result<
    Seq<u8>,
    SelectError,
> {
    match r {
        Ok(v) => Ok(v@),
        Err(e) => Err(e),
    }
}

/// The product of two 32-bit values fits in 64 bits.
proof fn lemma_u32_mul_fits(x: u64, y: u64)
    requires
        x <= 0xffff_ffff,
        y <= 0xffff_ffff,
    ensures
        x * y <= 0xffff_ffff * 0xffff_ffff,
{
    assert(x * y <= 0xffff_ffff * 0xffff_ffff) by (nonlinear_arith)
        requires
            x <= 0xffff_ffff,
            y <= 0xffff_ffff,
    ;
}

/// What a chosen backend is: an eligible snapshot entry. A missing result
/// means no entry was eligible.
pub proof fn lemma_best_upto_props(
    s: Seq<BackendModel>,
    version: int,
    now: int,
    stale_after_ms: int,
    n: int,
)
    requires
        0 <= n <= s.len(),
    ensures
        match best_upto(s, version, now, stale_after_ms, n) {
            Some(b) => (exists|i: int| 0 <= i < n && s[i] == b) && eligible(
                b,
                version,
                now,
                stale_after_ms,
            ),
            None => forall|i: int| 0 <= i < n ==> !eligible(s[i], version, now, stale_after_ms),
        },
    decreases n,
{
    if n > 0 {
        lemma_best_upto_props(s, version, now, stale_after_ms, n - 1);
    }
}

/// A successful selection names an eligible entry of the snapshot.
pub proof fn lemma_select_ok_eligible(
    s: Seq<BackendModel>,
    version: int,
    now: int,
    stale_after_ms: int,
    bid: Seq<u8>,
)
    requires
        select_spec(s, version, now, stale_after_ms) == Ok::<Seq<u8>, SelectError>(bid),
    ensures
        exists|i: int|
            0 <= i < s.len() && s[i].identity == bid && eligible(
                s[i],
                version,
                now,
                stale_after_ms,
            ),
{
    lemma_best_upto_props(s, version, now, stale_after_ms, s.len() as int);
    match best_upto(s, version, now, stale_after_ms, s.len() as int) {
        Some(b) => {
            let j = choose|j: int| 0 <= j < s.len() && s[j] == b;
            assert(s[j].identity == bid && eligible(s[j], version, now, stale_after_ms));
        },
        None => {
            assert(false);
        },
    }
}

/// No backend is strictly preferred to itself.
proof fn lemma_better_irrefl(x: BackendModel)
    ensures
        !better(x, x),
{
    crate::ident::lemma_lex_lt_irrefl(x.identity);
}

/// The preference is transitive on backends with positive capacity and a
/// non-negative player count, which every eligible backend has.
proof fn lemma_better_trans(x: BackendModel, y: BackendModel, z: BackendModel)
    requires
        better(x, y),
        better(y, z),
        x.capacity > 0,
        y.capacity > 0,
        z.capacity > 0,
        x.player_count >= 0,
        y.player_count >= 0,
        z.player_count >= 0,
    ensures
        better(x, z),
{
    let px = x.player_count;
    let py = y.player_count;
    let pz = z.player_count;
    let cx = x.capacity;
    let cy = y.capacity;
    let cz = z.capacity;
    if px * cy < py * cx {
        if py * cz < pz * cy {
            assert(px * cz < pz * cx) by (nonlinear_arith)
                requires
                    px * cy < py * cx,
                    py * cz < pz * cy,
                    cx > 0,
                    cy > 0,
                    cz > 0,
            ;
        } else {
            assert(py * cz == pz * cy);
            assert(px * cz < pz * cx) by (nonlinear_arith)
                requires
                    px * cy < py * cx,
                    py * cz == pz * cy,
                    cx > 0,
                    cy > 0,
                    cz > 0,
            ;
        }
    } else {
        assert(px * cy == py * cx);
        if py * cz < pz * cy {
            assert(px * cz < pz * cx) by (nonlinear_arith)
                requires
                    px * cy == py * cx,
                    py * cz < pz * cy,
                    cx > 0,
                    cy > 0,
                    cz > 0,
            ;
        } else {
            assert(py * cz == pz * cy);
            assert(px * cz == pz * cx) by (nonlinear_arith)
                requires
                    px * cy == py * cx,
                    py * cz == pz * cy,
                    cx > 0,
                    cy > 0,
                    cz > 0,
            ;
            if px == py && py == pz {
                crate::ident::lemma_lex_lt_trans(x.identity, y.identity, z.identity);
            }
        }
    }
}

/// The selector's choice is least loaded: no other eligible entry is
/// strictly preferred to it — none has a lower player/capacity ratio, nor a
/// lower player count at the same ratio, nor a lower identity at the same
/// ratio and count.
pub proof fn lemma_best_upto_minimal(
    s: Seq<BackendModel>,
    version: int,
    now: int,
    stale_after_ms: int,
    n: int,
)
    requires
        0 <= n <= s.len(),
        forall|i: int| 0 <= i < s.len() ==> 0 <= #[trigger] s[i].player_count,
    ensures
        match best_upto(s, version, now, stale_after_ms, n) {
            Some(b) => forall|i: int|
                0 <= i < n && eligible(s[i], version, now, stale_after_ms) ==> !better(s[i], b),
            None => true,
        },
    decreases n,
{
    if n > 0 {
        lemma_best_upto_minimal(s, version, now, stale_after_ms, n - 1);
        lemma_best_upto_props(s, version, now, stale_after_ms, n - 1);
        let prev = best_upto(s, version, now, stale_after_ms, n - 1);
        let cur = s[n - 1];
        if eligible(cur, version, now, stale_after_ms) {
            match prev {
                None => {
                    lemma_better_irrefl(cur);
                },
                Some(p) => {
                    let w = choose|w: int| 0 <= w < n - 1 && s[w] == p;
                    assert(p.player_count >= 0);
                    if better(cur, p) {
                        assert forall|i: int|
                            0 <= i < n && eligible(s[i], version, now, stale_after_ms) implies !better(
                            s[i],
                            cur,
                        ) by {
                            if i == n - 1 {
                                lemma_better_irrefl(cur);
                            } else if better(s[i], cur) {
                                lemma_better_trans(s[i], cur, p);
                            }
                        }
                    }
                },
            }
        }
    }
}

/// The least-loaded guarantee at the selector's interface: a successful
/// selection names an eligible backend to which no other eligible backend
/// is strictly preferred.
pub proof fn lemma_select_least_loaded(
    s: Seq<BackendModel>,
    version: int,
    now: int,
    stale_after_ms: int,
    bid: Seq<u8>,
)
    requires
        select_spec(s, version, now, stale_after_ms) == Ok::<Seq<u8>, SelectError>(bid),
        forall|i: int| 0 <= i < s.len() ==> 0 <= #[trigger] s[i].player_count,
    ensures
        exists|j: int|
            0 <= j < s.len() && s[j].identity == bid && eligible(
                s[j],
                version,
                now,
                stale_after_ms,
            ) && (forall|i: int|
                0 <= i < s.len() && eligible(s[i], version, now, stale_after_ms) ==> !better(
                    s[i],
                    s[j],
                )),
{
    lemma_best_upto_props(s, version, now, stale_after_ms, s.len() as int);
    lemma_best_upto_minimal(s, version, now, stale_after_ms, s.len() as int);
    match best_upto(s, version, now, stale_after_ms, s.len() as int) {
        Some(b) => {
            let j = choose|j: int| 0 <= j < s.len() && s[j] == b;
            assert(s[j].identity == bid && eligible(s[j], version, now, stale_after_ms) && (
            forall|i: int|
                0 <= i < s.len() && eligible(s[i], version, now, stale_after_ms) ==> !better(
                    s[i],
                    s[j],
                )));
        },
        None => {
            assert(false);
        },
    }
}

/// Staleness wins over liveness: a backend silent for longer than the
/// staleness threshold is never selected, even while its status still says
/// `Live`.
pub proof fn lemma_stale_excluded(
    s: Seq<BackendModel>,
    version: int,
    now: int,
    stale_after_ms: int,
    i: int,
)
    requires
        0 <= i < s.len(),
        forall|a: int, b: int| 0 <= a < b < s.len() ==> s[a].identity != s[b].identity,
        now - s[i].last_report_ms > stale_after_ms,
    ensures
        select_spec(s, version, now, stale_after_ms) != Ok::<Seq<u8>, SelectError>(s[i].identity),
{
    lemma_best_upto_props(s, version, now, stale_after_ms, s.len() as int);
    match best_upto(s, version, now, stale_after_ms, s.len() as int) {
        Some(b) => {
            let j = choose|j: int| 0 <= j < s.len() && s[j] == b;
            if b.identity == s[i].identity {
                if j < i {
                    assert(s[j].identity != s[i].identity);
                } else if i < j {
                    assert(s[i].identity != s[j].identity);
                }
                assert(j == i);
                assert(fresh_at(s[i], now, stale_after_ms));
            }
        },
        None => {},
    }
}

/// Pick a backend for a join request from a snapshot. Pure: the result is a
/// function of the snapshot and the request alone, so identical snapshots
/// and versions always select the same backend.
pub fn select(snap: &Vec<BackendServer>, requested_version: u32, now: u64, stale_after_ms: u64)
    -> (r: Result<Vec<u8>, SelectError>)
    ensures
        select_result_model(r) == select_spec(
            models_of(snap@),
            requested_version as int,
            now as int,
            stale_after_ms as int,
        ),
{
    let ghost ms = models_of(snap@);
    let ghost v = requested_version as int;
    let ghost gnow = now as int;
    let ghost st = stale_after_ms as int;
    let n: usize = snap.len();
    let mut best: Option<usize> = None;
    let mut any_live = false;
    let mut any_version = false;
    let mut i: usize = 0;
    while i < n
        invariant
            n == snap@.len(),
            ms == models_of(snap@),
            v == requested_version as int,
            gnow == now as int,
            st == stale_after_ms as int,
            i <= n,
            match best {
                Some(bi) => bi < i && best_upto(ms, v, gnow, st, i as int) == Some(ms[bi as int]),
                None => best_upto(ms, v, gnow, st, i as int) is None,
            },
            any_live == exists|j: int| 0 <= j < i && live_fresh(ms[j], gnow, st),
            any_version == exists|j: int|
                0 <= j < i && live_fresh(ms[j], gnow, st) && ms[j].protocol_version == v,
        decreases n - i,
    {
        let e = &snap[i];
        let live = matches!(e.status, ConnectionStatus::Live);
        let fresh = if now >= e.last_report_ms {
            now - e.last_report_ms <= stale_after_ms
        } else {
            true
        };
        if live && fresh {
            any_live = true;
            if e.protocol_version == requested_version {
                any_version = true;
                if e.player_count < e.capacity {
                    assert(eligible(ms[i as int], v, gnow, st));
                    best = match best {
                        None => Some(i),
                        Some(bi) => {
                            let b = &snap[bi];
                            proof {
                                lemma_u32_mul_fits(
                                    e.player_count as u64,
                                    b.capacity as u64,
                                );
                                lemma_u32_mul_fits(
                                    b.player_count as u64,
                                    e.capacity as u64,
                                );
                            }
                            let cur_ratio = (e.player_count as u64) * (b.capacity as u64);
                            let best_ratio = (b.player_count as u64) * (e.capacity as u64);
                            let replaces = if cur_ratio < best_ratio {
                                true
                            } else if cur_ratio > best_ratio {
                                false
                            } else if e.player_count < b.player_count {
                                true
                            } else if e.player_count > b.player_count {
                                false
                            } else {
                                bytes_lt(e.identity.as_slice(), b.identity.as_slice())
                            };
                            assert(replaces == better(ms[i as int], ms[bi as int]));
                            if replaces {
                                Some(i)
                            } else {
                                Some(bi)
                            }
                        },
                    };
                }
            }
        }
        i = i + 1;
    }
    match best {
        Some(bi) => Ok(copy_bytes(snap[bi].identity.as_slice())),
        None => {
            if any_live && !any_version {
                Err(SelectError::VersionMismatch)
            } else {
                Err(SelectError::NoCapacity)
            }
        },
    }
}

} // verus!
