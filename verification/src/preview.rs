//! The navigator's document overview: when to ask the renderer for a new
//! preview. The host performs the renderer calls and reports their outcome.
use vstd::prelude::*;

verus! {

/// Shortest time between two preview requests (a fifteenth of a second).
pub const PREVIEW_INTERVAL_NS: u64 = 66666667;

/// One producer per session, shared by docked and drawer projections. Camera
/// changes do not invalidate the overview, and a request never queues behind
/// one in flight.
#[derive(Debug)]
pub struct Preview {
    revision: Option<u64>,
    pending: bool,
    requested_ns: Option<u64>,
}

/// Whether a request is due at `now` after one at `last`: none was made, or
/// the interval has passed (time running backwards counts as no time).
pub open spec fn spec_interval_passed(last: Option<u64>, now: u64) -> bool {
    match last {
        None => true,
        Some(t) => now >= t && now - t >= PREVIEW_INTERVAL_NS,
    }
}

impl Preview {
    pub fn new() -> (p: Preview)
        ensures
            p.revision() is None,
            !p.pending(),
            p.requested_ns() is None,
    {
        Preview { revision: None, pending: false, requested_ns: None }
    }

    /// The revision of the last preview received.
    pub closed spec fn revision(&self) -> Option<u64> {
        self.revision
    }

    /// Whether a request is in flight.
    pub closed spec fn pending(&self) -> bool {
        self.pending
    }

    /// When the last request was made.
    pub closed spec fn requested_ns(&self) -> Option<u64> {
        self.requested_ns
    }

    /// A preview came back for `revision`; nothing is in flight any more.
    pub fn received(&mut self, revision: u64)
        ensures
            final(self).revision() == Some(revision),
            !final(self).pending(),
            final(self).requested_ns() == old(self).requested_ns(),
    {
        self.pending = false;
        self.revision = Some(revision);
    }

    /// The preview in flight failed; nothing is in flight any more.
    pub fn failed(&mut self)
        ensures
            final(self).revision() == old(self).revision(),
            !final(self).pending(),
            final(self).requested_ns() == old(self).requested_ns(),
    {
        self.pending = false;
    }

    /// Decides whether to request a preview at `now_ns`: only while the
    /// navigator is visible, nothing is in flight and the interval since the
    /// last request has passed. When it does, the request time is recorded
    /// and the result names the revision the renderer already has.
    pub fn request_due(&mut self, now_ns: u64, visible: bool) -> (r: Option<Option<u64>>)
        ensures
            (visible && !old(self).pending() && spec_interval_passed(old(self).requested_ns(), now_ns)) ==> r == Some(old(self).revision())
                && final(self).requested_ns() == Some(now_ns),
            !(visible && !old(self).pending() && spec_interval_passed(old(self).requested_ns(), now_ns)) ==> r is None
                && final(self).requested_ns() == old(self).requested_ns(),
            final(self).revision() == old(self).revision(),
            final(self).pending() == old(self).pending(),
    {
        let due = match self.requested_ns {
            None => true,
            Some(t) => now_ns.saturating_sub(t) >= PREVIEW_INTERVAL_NS,
        };
        if visible && !self.pending && due {
            self.requested_ns = Some(now_ns);
            Some(self.revision)
        } else {
            None
        }
    }

    /// The renderer accepted (`pending`) or declined the request.
    pub fn requested(&mut self, pending: bool)
        ensures
            final(self).pending() == pending,
            final(self).revision() == old(self).revision(),
            final(self).requested_ns() == old(self).requested_ns(),
    {
        self.pending = pending;
    }
}

/// Requests never come closer together than the interval: after a request
/// at `t`, none is due before `t + PREVIEW_INTERVAL_NS`.
pub proof fn lemma_requests_spaced(t: u64, now: u64)
    requires
        t <= now,
        now - t < PREVIEW_INTERVAL_NS,
    ensures
        !spec_interval_passed(Some(t), now),
{
}

} // verus!
