//! The daily recording job: up to ten tries a day with a doubling pause.
use vstd::prelude::*;

verus! {

/// Tries per day.
pub const MAX_RECORD_ATTEMPTS: u32 = 10;

/// The pause after the first failed try, in seconds.
pub const FIRST_RETRY_DELAY_SECS: u64 = 5;

/// The longest pause between tries, in seconds.
pub const MAX_RETRY_DELAY_SECS: u64 = 120;

/// What one try gave.
#[derive(Clone, Copy, PartialEq, Eq, Debug, Structural)]
pub enum RecordOutcome {
    /// Reading the day failed.
    Failed,
    /// The day was read but all its figures are zero.
    Incomplete,
    /// The day was read and is usable.
    Valid,
}

/// What the job does after a try.
#[derive(Clone, Copy, PartialEq, Eq, Debug, Structural)]
pub enum RecordAction {
    /// Store the entry just read; the day is done.
    StoreValid,
    /// Sleep this many seconds, then try again.
    Retry(u64),
    /// Sleep this many seconds; the tries are used up.
    GiveUp(u64),
}

/// The state of one day's tries.
pub struct DailyRecorder {
    /// Tries made so far.
    pub attempts: u32,
    /// The pause after the next failed try, in seconds.
    pub delay_secs: u64,
    /// An incomplete entry was read and kept as a fallback.
    pub have_incomplete: bool,
    /// Whether an incomplete entry is stored when no usable one came (the server does,
    /// the device does not).
    pub keep_incomplete: bool,
}

impl DailyRecorder {
    /// A new day's tries.
    pub fn new(keep_incomplete: bool) -> (r: Self)
        ensures
            r.attempts == 0,
            r.delay_secs == FIRST_RETRY_DELAY_SECS,
            !r.have_incomplete,
            r.keep_incomplete == keep_incomplete,
    {
        DailyRecorder {
            attempts: 0,
            delay_secs: FIRST_RETRY_DELAY_SECS,
            have_incomplete: false,
            keep_incomplete,
        }
    }

    /// Takes in the outcome of a try: a usable entry is stored at once; otherwise the job
    /// sleeps the current pause, which then doubles up to `MAX_RETRY_DELAY_SECS`, and
    /// gives up after `MAX_RECORD_ATTEMPTS` tries. An incomplete entry is remembered.
    pub fn step(&mut self, outcome: RecordOutcome) -> (r: RecordAction)
        requires
            old(self).attempts < MAX_RECORD_ATTEMPTS,
            old(self).delay_secs <= MAX_RETRY_DELAY_SECS,
        ensures
            final(self).attempts == old(self).attempts + 1,
            final(self).keep_incomplete == old(self).keep_incomplete,
            final(self).have_incomplete == (old(self).have_incomplete || outcome
                == RecordOutcome::Incomplete),
            final(self).delay_secs <= MAX_RETRY_DELAY_SECS,
            outcome == RecordOutcome::Valid ==> r == RecordAction::StoreValid
                && final(self).delay_secs == old(self).delay_secs,
            outcome != RecordOutcome::Valid ==> final(self).delay_secs == (if 2
                * old(self).delay_secs < MAX_RETRY_DELAY_SECS {
                2 * old(self).delay_secs
            } else {
                MAX_RETRY_DELAY_SECS as int
            }) && r == (if final(self).attempts < MAX_RECORD_ATTEMPTS {
                RecordAction::Retry(old(self).delay_secs)
            } else {
                RecordAction::GiveUp(old(self).delay_secs)
            }),
    {
        self.attempts = self.attempts + 1;
        if outcome == RecordOutcome::Valid {
            return RecordAction::StoreValid;
        }
        if outcome == RecordOutcome::Incomplete {
            self.have_incomplete = true;
        }
        let wait = self.delay_secs;
        self.delay_secs = if 2 * wait < MAX_RETRY_DELAY_SECS {
            2 * wait
        } else {
            MAX_RETRY_DELAY_SECS
        };
        if self.attempts < MAX_RECORD_ATTEMPTS {
            RecordAction::Retry(wait)
        } else {
            RecordAction::GiveUp(wait)
        }
    }

    /// Whether, once the tries end with nothing stored, the remembered incomplete entry is
    /// stored to avoid a gap.
    pub fn store_fallback(&self, stored: bool) -> (r: bool)
        ensures
            r == (!stored && self.keep_incomplete && self.have_incomplete),
    {
        !stored && self.keep_incomplete && self.have_incomplete
    }
}

} // verus!
