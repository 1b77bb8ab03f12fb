//! The backend link, as a state machine. One link owns one connection to one
//! backend: it connects, reads load reports and feeds them to the registry,
//! and on any failure backs off — 1 s base, doubling to a 30 s cap, with
//! ±20 % jitter — and reconnects forever; a backend is never given up on.
//! The surrounding I/O loop performs the returned action and feeds the next
//! event back in; the decisions themselves are all here.

use crate::report::LoadReport;
use vstd::prelude::*;

verus! {

/// Where one backend link stands.
#[derive(Clone, Copy, PartialEq, Eq, Structural, Debug)]
pub enum LinkState {
    /// A connection attempt is in flight; `attempt` failures so far.
    Connecting { attempt: u32 },
    /// Connected and reading reports.
    Live,
    /// Waiting until `until_ms` before attempt number `attempt + 1`.
    Backoff { attempt: u32, until_ms: u64 },
}

/// What the I/O loop observed.
#[derive(Clone, Copy, PartialEq, Eq, Structural, Debug)]
pub enum LinkEvent {
    /// The connection attempt succeeded.
    Connected,
    /// One well-formed load report arrived.
    Report { report: LoadReport },
    /// The connection failed, closed, or delivered a malformed frame.
    ConnectionLost,
    /// The backoff timer fired.
    TimerFired,
}

/// What the I/O loop must do next.
#[derive(Clone, Copy, PartialEq, Eq, Structural, Debug)]
pub enum LinkAction {
    /// Start the read loop; the registry turns live on the first report.
    BeginRead,
    /// Write this report into the registry.
    ApplyReport { report: LoadReport },
    /// Mark the backend unreachable, close the connection and arm a timer
    /// for `at_ms`.
    RetryAt { at_ms: u64 },
    /// Open a fresh connection.
    Reconnect,
    /// Nothing; the event does not apply to the state.
    Ignore,
}

/// Backoff before attempt `attempt + 1`: 1 s base, doubled per failure,
/// capped at 30 s.
pub open spec fn backoff_base_ms(attempt: u32) -> u64 {
    if attempt == 0 {
        1000
    } else if attempt == 1 {
        2000
    } else if attempt == 2 {
        4000
    } else if attempt == 3 {
        8000
    } else if attempt == 4 {
        16000
    } else {
        30000
    }
}

/// The backoff with jitter applied: `jitter_permille` is drawn uniformly
/// from 800..=1200 by the I/O loop, giving ±20 % around the base.
pub open spec fn backoff_delay_spec(attempt: u32, jitter_permille: u16) -> u64 {
    ((backoff_base_ms(attempt) as int) * (jitter_permille as int) / 1000) as u64
}

/// The failure count after one more failure; saturates once the cap is
/// reached, so the delay never grows past it.
pub open spec fn next_attempt(attempt: u32) -> u32 {
    if attempt >= 5 {
        5
    } else {
        (attempt + 1) as u32
    }
}

/// One decision of the link: from a state and an observed event to the next
/// state and the action the I/O loop must perform.
pub open spec fn link_step_spec(s: LinkState, e: LinkEvent, now: u64, jitter_permille: u16) -> (
    LinkState,
    LinkAction,
) {
    match (s, e) {
        (LinkState::Connecting { attempt }, LinkEvent::Connected) => (
            LinkState::Live,
            LinkAction::BeginRead,
        ),
        (LinkState::Connecting { attempt }, LinkEvent::ConnectionLost) => {
            let at = (now + backoff_delay_spec(attempt, jitter_permille)) as u64;
            (
                LinkState::Backoff { attempt: next_attempt(attempt), until_ms: at },
                LinkAction::RetryAt { at_ms: at },
            )
        },
        (LinkState::Live, LinkEvent::Report { report }) => (
            LinkState::Live,
            LinkAction::ApplyReport { report },
        ),
        (LinkState::Live, LinkEvent::ConnectionLost) => {
            let at = (now + backoff_delay_spec(0, jitter_permille)) as u64;
            (
                LinkState::Backoff { attempt: 1, until_ms: at },
                LinkAction::RetryAt { at_ms: at },
            )
        },
        (LinkState::Backoff { attempt, until_ms }, LinkEvent::TimerFired) => (
            LinkState::Connecting { attempt },
            LinkAction::Reconnect,
        ),
        _ => (s, LinkAction::Ignore),
    }
}

/// The delay a link waits is never more than 36 s, so a timer is always
/// finite and the link retries forever.
pub proof fn lemma_backoff_delay_bounded(attempt: u32, jitter_permille: u16)
    requires
        800 <= jitter_permille <= 1200,
    ensures
        backoff_delay_spec(attempt, jitter_permille) <= 36000,
        1000 <= backoff_base_ms(attempt) <= 30000,
{
    let base = backoff_base_ms(attempt) as int;
    let j = jitter_permille as int;
    assert(base * j <= 36_000_000) by (nonlinear_arith)
        requires
            base <= 30000,
            j <= 1200,
            base >= 0,
            j >= 0,
    ;
    assert(base * j >= 0) by (nonlinear_arith)
        requires
            base >= 0,
            j >= 0,
    ;
}

/// A lost connection always leads to a retry: after any failure the link is
/// backing off, and every fired backoff timer reconnects — no state absorbs
/// a failure for good.
pub proof fn lemma_link_never_gives_up(s: LinkState, now: u64, jitter_permille: u16)
    ensures
        link_step_spec(s, LinkEvent::TimerFired, now, jitter_permille).1 == LinkAction::Reconnect
            || !(s is Backoff),
        (s is Connecting || s is Live) ==> link_step_spec(
            s,
            LinkEvent::ConnectionLost,
            now,
            jitter_permille,
        ).0 is Backoff,
{
}

/// Compute the jittered backoff delay.
pub fn backoff_delay_ms(attempt: u32, jitter_permille: u16) -> (r: u64)
    requires
        800 <= jitter_permille <= 1200,
    ensures
        r == backoff_delay_spec(attempt, jitter_permille),
        r <= 36000,
{
    let base: u64 = if attempt == 0 {
        1000
    } else if attempt == 1 {
        2000
    } else if attempt == 2 {
        4000
    } else if attempt == 3 {
        8000
    } else if attempt == 4 {
        16000
    } else {
        30000
    };
    proof {
        lemma_backoff_delay_bounded(attempt, jitter_permille);
        assert(base * (jitter_permille as u64) <= 36_000_000) by (nonlinear_arith)
            requires
                base <= 30000,
                jitter_permille <= 1200,
        ;
    }
    base * (jitter_permille as u64) / 1000
}

/// Take one step of the link state machine.
pub fn link_step(s: LinkState, e: LinkEvent, now: u64, jitter_permille: u16) -> (r: (
    LinkState,
    LinkAction,
))
    requires
        800 <= jitter_permille <= 1200,
        now <= u64::MAX - 36000,
    ensures
        r == link_step_spec(s, e, now, jitter_permille),
{
    match (s, e) {
        (LinkState::Connecting { attempt: _ }, LinkEvent::Connected) => (
            LinkState::Live,
            LinkAction::BeginRead,
        ),
        (LinkState::Connecting { attempt }, LinkEvent::ConnectionLost) => {
            proof {
                lemma_backoff_delay_bounded(attempt, jitter_permille);
            }
            let at = now + backoff_delay_ms(attempt, jitter_permille);
            let next = if attempt >= 5 {
                5
            } else {
                attempt + 1
            };
            (
                LinkState::Backoff { attempt: next, until_ms: at },
                LinkAction::RetryAt { at_ms: at },
            )
        },
        (LinkState::Live, LinkEvent::Report { report }) => (
            LinkState::Live,
            LinkAction::ApplyReport { report },
        ),
        (LinkState::Live, LinkEvent::ConnectionLost) => {
            let at = now + backoff_delay_ms(0, jitter_permille);
            (
                LinkState::Backoff { attempt: 1, until_ms: at },
                LinkAction::RetryAt { at_ms: at },
            )
        },
        (LinkState::Backoff { attempt, until_ms: _ }, LinkEvent::TimerFired) => (
            LinkState::Connecting { attempt },
            LinkAction::Reconnect,
        ),
        (s2, _) => (s2, LinkAction::Ignore),
    }
}

} // verus!
