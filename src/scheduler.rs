use vstd::prelude::*;

use crate::calendar::{day_changed, is_new_day, LocalStamp};
use crate::record::Status;

verus! {

/// How long the loop sleeps between two looks at the shutdown flag.
pub const POLL_STEP_MS: u64 = 25;

/// The fixed delay before retrying after a failed capture.
pub const BACKOFF_MS: u64 = 1000;

/// What the capture loop does next.
#[derive(Clone, Copy, Debug, PartialEq, Eq, Structural)]
pub enum Step {
    /// Shutdown was requested: leave the loop.
    Stop,
    /// Still waiting: sleep one poll step, then poll again.
    Pause,
    /// The wait is over: a tick begins.
    Tick,
}

/// How a capture attempt ended.
#[derive(Clone, Copy, Debug, PartialEq, Eq, Structural)]
pub enum CaptureOutcome {
    Failed,
    Saved { elapsed_ms: u64 },
}

/// What the loop owes after a capture attempt.
#[derive(Clone, Copy, Debug, PartialEq, Eq, Structural)]
pub struct TickEnd {
    /// The record changed and must be written to disk.
    pub persist: bool,
    /// The capture took longer than the configured interval.
    pub late: bool,
}

/// The capture loop's timing state: the configured interval, what is left of
/// the current wait, and the moment of the last day check.
#[derive(Clone, Copy, Debug)]
pub struct Scheduler {
    pub interval_ms: u64,
    pub wait_ms: u64,
    pub last_day: LocalStamp,
}

pub open spec fn poll_spec(s: Scheduler, running: bool) -> (Scheduler, Step) {
    if !running {
        (s, Step::Stop)
    } else if s.wait_ms > 0 {
        (
            Scheduler {
                wait_ms: if s.wait_ms > POLL_STEP_MS {
                    (s.wait_ms - POLL_STEP_MS) as u64
                } else {
                    0
                },
                ..s
            },
            Step::Pause,
        )
    } else {
        (s, Step::Tick)
    }
}

/// The wait after a capture that took `elapsed` out of an interval of
/// `interval`: the rest of the interval, and nothing when there is no rest.
pub open spec fn drift_wait(interval: u64, elapsed: u64) -> u64 {
    if elapsed <= interval {
        (interval - elapsed) as u64
    } else {
        0
    }
}

pub open spec fn inc_spec(st: Status) -> Status {
    Status { index: if st.index < u32::MAX { (st.index + 1) as u32 } else { u32::MAX }, ..st }
}

pub open spec fn finish_spec(s: Scheduler, st: Status, outcome: CaptureOutcome) -> (
    Scheduler,
    Status,
    TickEnd,
) {
    match outcome {
        CaptureOutcome::Failed => (
            Scheduler { wait_ms: BACKOFF_MS, ..s },
            st,
            TickEnd { persist: false, late: false },
        ),
        CaptureOutcome::Saved { elapsed_ms } => (
            Scheduler { wait_ms: drift_wait(s.interval_ms, elapsed_ms), ..s },
            inc_spec(st),
            TickEnd { persist: true, late: elapsed_ms > s.interval_ms },
        ),
    }
}

pub open spec fn rollover_spec(s: Scheduler, st: Status, now: LocalStamp) -> (Scheduler, Status) {
    (Scheduler { last_day: now, ..s }, Status { index: 0, ..st })
}

impl Scheduler {
    /// A scheduler that captures at once and then every `interval_secs` seconds,
    /// with `now` as the day of the last check.
    pub fn new(interval_secs: u64, now: LocalStamp) -> (r: Scheduler)
        requires
            interval_secs <= u64::MAX / 1000,
        ensures
            r.interval_ms == interval_secs * 1000,
            r.wait_ms == 0,
            r.last_day == now,
    {
        Scheduler { interval_ms: interval_secs * 1000, wait_ms: 0, last_day: now }
    }

    /// One look at the shutdown flag: stop, wait one more poll step, or begin a tick.
    pub fn poll(&mut self, running: bool) -> (r: Step)
        ensures
            (*final(self), r) == poll_spec(*old(self), running),
    {
        if !running {
            Step::Stop
        } else if self.wait_ms > 0 {
            self.wait_ms = self.wait_ms.saturating_sub(POLL_STEP_MS);
            Step::Pause
        } else {
            Step::Tick
        }
    }

    /// At the start of a tick: whether the day changed since the last check,
    /// so that the day's video is assembled before the capture.
    pub fn needs_rollover(&self, now: &LocalStamp) -> (r: bool)
        ensures
            r == is_new_day(self.last_day, *now),
    {
        day_changed(&self.last_day, now)
    }

    /// After the day's video was assembled and its frames removed: the index
    /// starts again at 0 and `now` becomes the day of the last check.
    pub fn rollover_done(&mut self, status: &mut Status, now: LocalStamp)
        ensures
            (*final(self), *final(status)) == rollover_spec(*old(self), *old(status), now),
    {
        status.reset();
        self.last_day = now;
    }

    /// After a capture attempt. A failure leaves the record alone and retries
    /// after the fixed backoff. A saved frame advances the index, asks for the
    /// record to be persisted, and waits for the rest of the interval.
    pub fn capture_finished(&mut self, status: &mut Status, outcome: CaptureOutcome) -> (r: TickEnd)
        ensures
            (*final(self), *final(status), r) == finish_spec(*old(self), *old(status), outcome),
    {
        match outcome {
            CaptureOutcome::Failed => {
                self.wait_ms = BACKOFF_MS;
                TickEnd { persist: false, late: false }
            },
            CaptureOutcome::Saved { elapsed_ms } => {
                status.inc();
                let late = elapsed_ms > self.interval_ms;
                self.wait_ms = if late {
                    0
                } else {
                    self.interval_ms - elapsed_ms
                };
                TickEnd { persist: true, late }
            },
        }
    }
}

/// A day change resets the index to 0 whatever it was, keeps the timestamp,
/// and the next check on the same day sees no change, so the day's video is
/// assembled once.
pub proof fn lemma_rollover_resets_index(s: Scheduler, st: Status, now: LocalStamp)
    ensures
        rollover_spec(s, st, now).1.index == 0,
        rollover_spec(s, st, now).1.timestamp == st.timestamp,
        !is_new_day(rollover_spec(s, st, now).0.last_day, now),
{
}

/// The wait that follows a saved frame is never more than the interval, is
/// exactly the rest of it when the capture was fast enough, is 0 when the
/// capture took longer, and only then is the tick reported late.
pub proof fn lemma_drift_wait(s: Scheduler, st: Status, elapsed_ms: u64)
    ensures
        ({
            let (s2, _, end) = finish_spec(s, st, CaptureOutcome::Saved { elapsed_ms });
            &&& s2.wait_ms <= s.interval_ms
            &&& s2.wait_ms + elapsed_ms == s.interval_ms || (s2.wait_ms == 0 && end.late)
            &&& end.late == (elapsed_ms > s.interval_ms)
        }),
{
}

/// A failed capture leaves the record as it was, asks for no write, and
/// retries after the fixed backoff rather than the full interval.
pub proof fn lemma_failure_backs_off(s: Scheduler, st: Status)
    ensures
        ({
            let (s2, st2, end) = finish_spec(s, st, CaptureOutcome::Failed);
            &&& st2 == st
            &&& !end.persist
            &&& s2.wait_ms == BACKOFF_MS
            &&& s2.last_day == s.last_day
        }),
{
}

/// A saved frame advances the index by one (below the top of its range) and
/// asks for the record to be written.
pub proof fn lemma_success_advances(s: Scheduler, st: Status, elapsed_ms: u64)
    requires
        st.index < u32::MAX,
    ensures
        ({
            let (_, st2, end) = finish_spec(s, st, CaptureOutcome::Saved { elapsed_ms });
            &&& st2.index == st.index + 1
            &&& st2.timestamp == st.timestamp
            &&& end.persist
        }),
{
}

/// While waiting, each poll shortens the wait by one poll step, so a
/// shutdown is seen within one poll step whatever the wait.
pub proof fn lemma_poll_bounded(s: Scheduler, running: bool)
    ensures
        ({
            let (s2, step) = poll_spec(s, running);
            &&& !running ==> step == Step::Stop
            &&& running && s.wait_ms > 0 ==> step == Step::Pause && s2.wait_ms < s.wait_ms
            &&& running && s.wait_ms == 0 ==> step == Step::Tick
        }),
{
}

} // verus!
