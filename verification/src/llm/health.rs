//! Whether an LLM role is currently healthy.
//!
//! A role is healthy by default. It becomes unhealthy when marked so (e.g.
//! on a timeout), recovers by itself once the cooldown has passed since it
//! was marked, or at once when marked healthy. Marking a role whose cooldown
//! is over marks it anew.
use vstd::prelude::*;
use std::time::{Duration, Instant};

verus! {

#[verifier::external_type_specification]
#[verifier::external_body]
pub struct ExInstant(Instant);

/// How long a role stays unhealthy before recovering by itself, in
/// milliseconds (60 seconds).
pub const UNHEALTHY_COOLDOWN_MS: u128 = 60_000;

/// The current instant of the monotonic clock (`Instant::now`). Nothing is
/// stated of it: it is the clock's.
#[verifier::external_body]
pub(crate) fn instant_now() -> (t: Instant) {
    Instant::now()
}

/// The time elapsed since `t` (`Instant::elapsed`). Nothing is stated of it:
/// it depends on the clock.
#[verifier::external_body]
pub(crate) fn elapsed_since(t: &Instant) -> (d: Duration) {
    t.elapsed()
}

/// The whole milliseconds of a duration (`Duration::as_millis`). Nothing is
/// stated of the value: a `Duration` is opaque here.
#[verifier::external_body]
pub(crate) fn whole_millis(d: &Duration) -> (ms: u128) {
    d.as_millis()
}

/// Whether the cooldown is over after `elapsed_ms` milliseconds.
pub fn cooldown_over(elapsed_ms: u128) -> (r: bool)
    ensures
        r == (elapsed_ms >= UNHEALTHY_COOLDOWN_MS),
{
    elapsed_ms >= UNHEALTHY_COOLDOWN_MS
}

/// Tracks whether an LLM role is currently healthy.
pub struct HealthTracker {
    unhealthy_since: Option<Instant>,
}

impl HealthTracker {
    /// Whether the role is marked unhealthy (the cooldown may have passed).
    pub closed spec fn is_marked(&self) -> bool {
        self.unhealthy_since is Some
    }

    /// The instant at which the role was marked unhealthy.
    pub closed spec fn marked_at(&self) -> Option<Instant> {
        self.unhealthy_since
    }

    /// A role is marked exactly when there is an instant of its mark.
    pub proof fn lemma_marked_iff_instant(&self)
        ensures
            self.is_marked() <==> self.marked_at() is Some,
    {
    }

    /// A tracker of a healthy role.
    pub fn new() -> (h: Self)
        ensures
            !h.is_marked(),
    {
        HealthTracker { unhealthy_since: None }
    }

    /// Whether the role is healthy when `elapsed_ms` milliseconds have
    /// passed since its mark: it is unmarked, or the cooldown is over.
    pub fn healthy_after(&self, elapsed_ms: u128) -> (r: bool)
        ensures
            r == (!self.is_marked() || elapsed_ms >= UNHEALTHY_COOLDOWN_MS),
    {
        match &self.unhealthy_since {
            None => true,
            Some(_) => cooldown_over(elapsed_ms),
        }
    }

    /// Whether the role is healthy now: it is unmarked, or the cooldown has
    /// passed since it was marked (`healthy_after` with the milliseconds that
    /// the clock gives since the mark).
    pub fn is_healthy(&self) -> (r: bool)
        ensures
            !self.is_marked() ==> r,
    {
        match &self.unhealthy_since {
            None => true,
            Some(t) => {
                let d = elapsed_since(t);
                self.healthy_after(whole_millis(&d))
            },
        }
    }

    /// Mark the role unhealthy at `now`, when `elapsed_ms` milliseconds have
    /// passed since its mark: an unmarked role, or one whose cooldown is
    /// over, is marked anew at `now`; otherwise the mark is kept.
    pub fn mark_unhealthy_at(&mut self, now: Instant, elapsed_ms: u128)
        ensures
            final(self).is_marked(),
            final(self).marked_at() == if !old(self).is_marked() || elapsed_ms
                >= UNHEALTHY_COOLDOWN_MS {
                Some(now)
            } else {
                old(self).marked_at()
            },
    {
        let renew = match &self.unhealthy_since {
            None => true,
            Some(_) => cooldown_over(elapsed_ms),
        };
        if renew {
            self.unhealthy_since = Some(now);
        }
    }

    /// Mark the role unhealthy now (`mark_unhealthy_at` with the current
    /// instant and the milliseconds that the clock gives since the mark):
    /// afterwards it is marked.
    pub fn mark_unhealthy(&mut self)
        ensures
            final(self).is_marked(),
    {
        let elapsed_ms: u128 = match &self.unhealthy_since {
            None => 0,
            Some(t) => {
                let d = elapsed_since(t);
                whole_millis(&d)
            },
        };
        let now = instant_now();
        self.mark_unhealthy_at(now, elapsed_ms);
    }

    /// Mark the role healthy again.
    pub fn mark_healthy(&mut self)
        ensures
            !final(self).is_marked(),
    {
        self.unhealthy_since = None;
    }
}

} // verus!
