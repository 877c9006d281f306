//! The assignment lifecycle of one forwarding session: assign on entry,
//! release exactly once on every exit path, including a failed
//! backend-connect attempt.

use crate::pool::Backend;
use vstd::prelude::*;

verus! {

/// Where a forwarding session stands in its life.
#[derive(Clone, Copy, Debug, PartialEq, Eq, Structural)]
pub enum SessionPhase {
    /// Assigned to a backend; the backend connection is not yet attempted.
    Assigned,
    /// The backend connection is open and the two relay directions run.
    Relaying,
    /// The session is over and its assignment has been released.
    Closed,
}

/// The bookkeeping of one client connection against its chosen backend.
pub struct Session {
    /// The backend's post-increment lifetime total at assignment: unique
    /// and increasing per backend, used for diagnostics and correlation.
    pub connection_id: usize,
    pub phase: SessionPhase,
    /// How many times this session has released its assignment.
    pub releases: usize,
}

/// A session holds its backend assignment exactly while it is open: no
/// release before it closes, exactly one once it has closed.
pub open spec fn session_inv(s: Session) -> bool {
    match s.phase {
        SessionPhase::Assigned => s.releases == 0,
        SessionPhase::Relaying => s.releases == 0,
        SessionPhase::Closed => s.releases == 1,
    }
}

/// The assignment step: raise the backend's counters together and take the
/// new lifetime total as this session's connection id.
pub fn begin_session(b: &mut Backend) -> (s: Session)
    requires
        old(b).active_connections < usize::MAX,
        old(b).total_handled < usize::MAX,
    ensures
        session_inv(s),
        s.phase == SessionPhase::Assigned,
        s.releases == 0,
        s.connection_id == final(b).total_handled,
        final(b).active_connections == old(b).active_connections + 1,
        final(b).total_handled == old(b).total_handled + 1,
        final(b).address == old(b).address,
        final(b).maintenance == old(b).maintenance,
{
    let id = b.increment_on_assign();
    Session { connection_id: id, phase: SessionPhase::Assigned, releases: 0 }
}

/// The backend-connect attempt has resolved. On success the relay phase
/// begins and the backend is untouched; on failure the session closes at
/// once, releasing its assignment so the active count returns to its
/// pre-assignment value — the relay phase is never entered.
pub fn on_connect_result(s: &mut Session, b: &mut Backend, connected: bool)
    requires
        old(s).phase == SessionPhase::Assigned,
        session_inv(*old(s)),
        old(b).active_connections >= 1,
    ensures
        session_inv(*final(s)),
        final(s).connection_id == old(s).connection_id,
        connected ==> final(s).phase == SessionPhase::Relaying && final(s).releases == 0 && *final(b) == *old(b),
        !connected ==> final(s).phase == SessionPhase::Closed && final(s).releases == 1 && final(b).active_connections == old(b).active_connections - 1,
        final(b).total_handled == old(b).total_handled,
        final(b).address == old(b).address,
        final(b).maintenance == old(b).maintenance,
{
    if connected {
        s.phase = SessionPhase::Relaying;
    } else {
        let _ = b.decrement_on_release();
        s.phase = SessionPhase::Closed;
        s.releases = s.releases + 1;
    }
}

/// Both relay directions have run to their own completion, cleanly or not:
/// the session closes and releases its assignment exactly once, so the
/// active count returns to its pre-assignment value.
pub fn on_relays_done(s: &mut Session, b: &mut Backend)
    requires
        old(s).phase == SessionPhase::Relaying,
        session_inv(*old(s)),
        old(b).active_connections >= 1,
    ensures
        session_inv(*final(s)),
        final(s).phase == SessionPhase::Closed,
        final(s).releases == 1,
        final(s).connection_id == old(s).connection_id,
        final(b).active_connections == old(b).active_connections - 1,
        final(b).total_handled == old(b).total_handled,
        final(b).address == old(b).address,
        final(b).maintenance == old(b).maintenance,
{
    let _ = b.decrement_on_release();
    s.phase = SessionPhase::Closed;
    s.releases = s.releases + 1;
}

/// Every session that reached the assignment step releases it exactly once
/// by the time it is closed — on the failure path as much as on the
/// success path.
pub proof fn lemma_closed_session_released_once(s: Session)
    requires
        session_inv(s),
        s.phase == SessionPhase::Closed,
    ensures
        s.releases == 1,
{
}

} // verus!
