//! The decisions behind watching a library's `.metadata/` folder: which change
//! events are still current, and how long to keep re-reading a sidecar that a
//! cloud-sync client may still be filling in. The application performs the file
//! system reads and the sleeps that these decisions ask for.
use vstd::prelude::*;

verus! {

/// How many times to retry reading a sidecar before giving up. Cloud-sync clients
/// (Drive's "files on demand" in particular) can briefly leave a zero-byte or
/// partially-written placeholder in place of the real file while it downloads.
pub const MAX_READ_ATTEMPTS: u32 = 6;

/// The first pause between two reads of a sidecar, in milliseconds.
pub const INITIAL_RETRY_DELAY_MS: u64 = 150;

/// How long to let a burst of file system events settle before reading, in milliseconds.
pub const SETTLE_DELAY_MS: u64 = 200;

/// The longest pause the backoff grows to, in milliseconds.
pub const MAX_RETRY_DELAY_MS: u64 = 5000;

/// What became of a sidecar file after we finished waiting for it to settle.
pub enum ReadOutcome<R> {
    Ready(R),
    Deleted,
    Superseded,
    GaveUp,
}

/// What to do after one look at the sidecar.
pub enum WaitStep<R> {
    /// Stop waiting with this outcome.
    Finished(ReadOutcome<R>),
    /// Sleep this many milliseconds, then look again.
    Sleep(u64),
}

/// The pause after `delay`: doubled, but never more than five seconds.
pub open spec fn next_delay(delay: u64) -> u64 {
    if delay >= 2500 {
        5000
    } else {
        (delay * 2) as u64
    }
}

/// The state of one wait for a sidecar: how many looks have been taken and the
/// pause before the next one.
pub struct SidecarWait {
    pub max_attempts: u32,
    pub attempts: u32,
    pub delay_ms: u64,
}

impl SidecarWait {
    /// A wait that will look at most `max_attempts` times, first pausing `initial_delay_ms`.
    pub fn new(max_attempts: u32, initial_delay_ms: u64) -> (r: Self)
        ensures
            r.max_attempts == max_attempts,
            r.attempts == 0,
            r.delay_ms == initial_delay_ms,
    {
        SidecarWait { max_attempts, attempts: 0, delay_ms: initial_delay_ms }
    }

    /// Whether another look is allowed.
    pub fn has_attempt_left(&self) -> (r: bool)
        ensures
            r == (self.attempts < self.max_attempts),
    {
        self.attempts < self.max_attempts
    }

    /// Decides after one look at the sidecar: a newer event for the same path wins;
    /// a missing file was deleted; a file that had content and parsed is ready;
    /// anything else (a zero-byte placeholder, a half-written body) is not ready
    /// yet, and is looked at again after a pause that doubles each time up to five
    /// seconds -- unless that was the last allowed look.
    pub fn observe<R>(&mut self, superseded: bool, exists: bool, record: Option<R>) -> (r: WaitStep<R>)
        requires
            old(self).attempts < old(self).max_attempts,
        ensures
            final(self).max_attempts == old(self).max_attempts,
            final(self).attempts <= final(self).max_attempts,
            superseded ==> r == WaitStep::<R>::Finished(ReadOutcome::Superseded),
            !superseded && !exists ==> r == WaitStep::<R>::Finished(ReadOutcome::Deleted),
            !superseded && exists && record is Some ==> r == WaitStep::Finished(ReadOutcome::Ready(record->0)),
            !superseded && exists && record is None ==> {
                &&& final(self).attempts == old(self).attempts + 1
                &&& if old(self).attempts + 1 < old(self).max_attempts {
                    &&& r == WaitStep::<R>::Sleep(old(self).delay_ms)
                    &&& final(self).delay_ms == next_delay(old(self).delay_ms)
                } else {
                    r == WaitStep::<R>::Finished(ReadOutcome::GaveUp)
                }
            },
    {
        if superseded {
            return WaitStep::Finished(ReadOutcome::Superseded);
        }
        if !exists {
            return WaitStep::Finished(ReadOutcome::Deleted);
        }
        match record {
            Some(rec) => WaitStep::Finished(ReadOutcome::Ready(rec)),
            None => {
                self.attempts = self.attempts + 1;
                if self.attempts < self.max_attempts {
                    let d = self.delay_ms;
                    self.delay_ms = if d >= 2500 { 5000 } else { d * 2 };
                    WaitStep::Sleep(d)
                } else {
                    WaitStep::Finished(ReadOutcome::GaveUp)
                }
            },
        }
    }
}

/// An in-flight read for a change event is superseded once the path's current
/// generation is no longer the one the event was given.
pub open spec fn is_superseded(current: Option<u64>, generation: u64) -> bool {
    current != Some(generation)
}

/// The generation a new event on a path is given: one more than the path's
/// current generation, starting at 1.
pub open spec fn bumped_generation(current: Option<u64>) -> u64 {
    match current {
        Some(g) => (g + 1) as u64,
        None => 1,
    }
}

/// Whether a read started for `generation` has been superseded by a newer event.
pub fn superseded(current: Option<u64>, generation: u64) -> (r: bool)
    ensures
        r == is_superseded(current, generation),
{
    match current {
        Some(g) => g != generation,
        None => true,
    }
}

/// The generation to record for a new event on a path.
pub fn next_generation(current: Option<u64>) -> (r: u64)
    requires
        current != Some(u64::MAX),
    ensures
        r == bumped_generation(current),
{
    match current {
        Some(g) => g + 1,
        None => 1,
    }
}

// ---------------------------------------------------------------------------
// Laws
// ---------------------------------------------------------------------------

/// A newer event on a path cancels the read started for the event before it,
/// while the newest event's own read stays current.
pub proof fn lemma_newer_event_supersedes(current: Option<u64>)
    requires
        current != Some(u64::MAX),
    ensures
        !is_superseded(Some(bumped_generation(current)), bumped_generation(current)),
        current matches Some(g) ==> is_superseded(Some(bumped_generation(current)), g),
{
}

/// The pause after `k` unready looks, starting from `initial`.
pub open spec fn delay_after(initial: u64, k: nat) -> u64
    decreases k,
{
    if k == 0 {
        initial
    } else {
        next_delay(delay_after(initial, (k - 1) as nat))
    }
}

/// The backoff never pauses longer than five seconds after the first pause, never
/// shrinks while it is within that cap, and never exceeds the larger of the cap
/// and the first pause.
pub proof fn lemma_backoff_bounded(initial: u64, k: nat)
    ensures
        k >= 1 ==> delay_after(initial, k) <= MAX_RETRY_DELAY_MS,
        initial <= MAX_RETRY_DELAY_MS ==> delay_after(initial, k) <= delay_after(initial, k + 1),
        delay_after(initial, k) <= if initial > MAX_RETRY_DELAY_MS { initial } else { MAX_RETRY_DELAY_MS },
    decreases k,
{
    if k > 0 {
        lemma_backoff_bounded(initial, (k - 1) as nat);
    }
}

} // verus!
