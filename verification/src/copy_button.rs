//! The copy button's "copied" indicator: it shows for a while after a copy.

use vstd::prelude::*;

verus! {

/// How long the indicator shows after a copy, in milliseconds.
pub const COPIED_DURATION_MS: u64 = 5000;

/// When the last copy happened, on a monotonic clock in milliseconds.
pub struct CopyButtonState {
    copied_at_ms: Option<u64>,
}

/// The indicator shows at `now` when a copy happened less than
/// [`COPIED_DURATION_MS`] before it.
pub open spec fn copied_spec(copied_at: Option<u64>, now_ms: u64) -> bool {
    match copied_at {
        Some(at) => now_ms >= at && now_ms - at < COPIED_DURATION_MS,
        None => false,
    }
}

impl CopyButtonState {
    pub closed spec fn copied_at(self) -> Option<u64> {
        self.copied_at_ms
    }

    /// Nothing copied yet.
    pub fn new() -> (r: Self)
        ensures
            r.copied_at() is None,
    {
        CopyButtonState { copied_at_ms: None }
    }

    pub fn is_copied(&self, now_ms: u64) -> (r: bool)
        ensures
            r == copied_spec(self.copied_at(), now_ms),
    {
        match self.copied_at_ms {
            Some(at) => now_ms >= at && now_ms - at < COPIED_DURATION_MS,
            None => false,
        }
    }

    /// A copy happened at `now_ms`.
    pub fn mark_copied(&mut self, now_ms: u64)
        ensures
            final(self).copied_at() == Some(now_ms),
    {
        self.copied_at_ms = Some(now_ms);
    }
}

/// Right after a copy the indicator shows, and it is gone once the
/// duration has passed.
pub proof fn lemma_copied_indicator_expires(at: u64, now_ms: u64)
    ensures
        copied_spec(Some(at), at),
        now_ms >= at + COPIED_DURATION_MS ==> !copied_spec(Some(at), now_ms),
{
}

} // verus!
