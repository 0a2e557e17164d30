//! Port allocation: scan the window upward and take the first port whose
//! probe binds.  The probe itself — a TCP bind on the loopback address,
//! released at once — is performed by the caller; the scan decides which
//! port to try next and when the window is exhausted.

use vstd::prelude::*;

use crate::errors::AppError;

verus! {

/// An upward scan of the port window `[lo, hi]`.
pub struct PortScan {
    /// The lower bound of the window.
    pub lo: u16,
    /// The upper bound of the window.
    pub hi: u16,
    /// The next port to probe; one past `hi` when exhausted.
    pub next: u32,
}

impl PortScan {
    /// The scan stays inside its window, one past at most.
    pub open spec fn wf(self) -> bool {
        self.lo <= self.hi && self.lo <= self.next <= self.hi + 1
    }

    /// Start a scan of the window `[lo, hi]` at its lower bound.
    pub fn new(lo: u16, hi: u16) -> (r: PortScan)
        requires
            lo <= hi,
        ensures
            r.wf(),
            r.lo == lo,
            r.hi == hi,
            r.next == lo,
    {
        PortScan { lo, hi, next: lo as u32 }
    }

    /// The port to probe now; `None` when the window is exhausted.  A
    /// returned port always lies in the window.
    pub fn current(&self) -> (r: Option<u16>)
        requires
            self.wf(),
        ensures
            match r {
                Some(p) => p == self.next && self.lo <= p <= self.hi,
                None => self.next == self.hi + 1,
            },
    {
        if self.next <= self.hi as u32 {
            Some(self.next as u16)
        } else {
            None
        }
    }

    /// Record that the current port did not bind and move past it.
    pub fn advance(&mut self)
        requires
            old(self).wf(),
            old(self).next <= old(self).hi,
        ensures
            final(self).wf(),
            final(self).lo == old(self).lo,
            final(self).hi == old(self).hi,
            final(self).next == old(self).next + 1,
    {
        self.next = self.next + 1;
    }

    /// The error an exhausted scan reports: the window bounds, verbatim.
    pub fn exhausted_error(&self) -> (r: AppError)
        ensures
            r matches AppError::NoPortAvailable { min, max } && min == self.lo && max == self.hi,
    {
        AppError::NoPortAvailable { min: self.lo, max: self.hi }
    }
}

/// A scan that has not ended always offers a port inside its window; it
/// reports exhaustion only one past the upper bound.
pub proof fn lemma_scan_in_window(s: PortScan)
    requires
        s.wf(),
        s.next <= s.hi,
    ensures
        s.lo <= s.next <= s.hi,
{
}

} // verus!
