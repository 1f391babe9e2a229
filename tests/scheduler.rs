use timelapse::calendar::LocalStamp;
use timelapse::record::Status;
use timelapse::scheduler::{CaptureOutcome, Scheduler, Step, TickEnd, BACKOFF_MS, POLL_STEP_MS};

fn day(d: u32) -> LocalStamp {
    LocalStamp { year: 2024, month: 5, day: d, hour: 12, minute: 0, second: 0, epoch_seconds: 0 }
}

#[test]
fn poll_stops_on_shutdown() {
    let mut s = Scheduler::new(5, day(1));
    s.wait_ms = 4000;
    assert_eq!(s.poll(false), Step::Stop);
    assert_eq!(s.wait_ms, 4000);
}

#[test]
fn poll_counts_down_the_wait() {
    let mut s = Scheduler::new(5, day(1));
    assert_eq!(s.interval_ms, 5000);
    assert_eq!(s.poll(true), Step::Tick);
    s.wait_ms = 60;
    assert_eq!(s.poll(true), Step::Pause);
    assert_eq!(s.wait_ms, 60 - POLL_STEP_MS);
    assert_eq!(s.poll(true), Step::Pause);
    assert_eq!(s.poll(true), Step::Pause);
    assert_eq!(s.wait_ms, 0);
    assert_eq!(s.poll(true), Step::Tick);
}

#[test]
fn rollover_resets_index() {
    let mut s = Scheduler::new(5, day(1));
    let mut st = Status::new(77);
    for _ in 0..9 {
        s.capture_finished(&mut st, CaptureOutcome::Saved { elapsed_ms: 100 });
    }
    assert_eq!(st.get_index(), 9);
    let first_tick = day(1);
    assert!(!s.needs_rollover(&first_tick));
    let next_day = day(2);
    let mut assembled = 0;
    for _ in 0..2 {
        if s.needs_rollover(&next_day) {
            assembled += 1;
            s.rollover_done(&mut st, next_day);
        }
    }
    assert_eq!(assembled, 1);
    assert_eq!(st.get_index(), 0);
    assert_eq!(st.timestamp, 77);
}

#[test]
fn drift_correction_never_sleeps_negative() {
    let mut s = Scheduler::new(5, day(1));
    let mut st = Status::new(0);
    let end = s.capture_finished(&mut st, CaptureOutcome::Saved { elapsed_ms: 7000 });
    assert_eq!(end, TickEnd { persist: true, late: true });
    assert_eq!(s.wait_ms, 0);
    assert_eq!(st.get_index(), 1);
}

#[test]
fn drift_correction_waits_the_rest() {
    let mut s = Scheduler::new(5, day(1));
    let mut st = Status::new(0);
    let end = s.capture_finished(&mut st, CaptureOutcome::Saved { elapsed_ms: 1200 });
    assert_eq!(end, TickEnd { persist: true, late: false });
    assert_eq!(s.wait_ms, 3800);
    let end = s.capture_finished(&mut st, CaptureOutcome::Saved { elapsed_ms: 5000 });
    assert_eq!(end, TickEnd { persist: true, late: false });
    assert_eq!(s.wait_ms, 0);
}

#[test]
fn backoff_on_fetch_failure() {
    let mut s = Scheduler::new(5, day(1));
    let mut st = Status { index: 3, timestamp: 9 };
    let end = s.capture_finished(&mut st, CaptureOutcome::Failed);
    assert_eq!(end, TickEnd { persist: false, late: false });
    assert_eq!(st, Status { index: 3, timestamp: 9 });
    assert_eq!(s.wait_ms, BACKOFF_MS);
    assert!(s.wait_ms < s.interval_ms);
}
