use windmill_worker::supervise::{
    decide_outcome, effective_timeout_secs, observe_mem, plan_termination, poll_tick,
    poller_enabled, race_winner, timeout_cancel_reason, CancelRow, ChildStatus, KillReason,
    Outcome, PollerState, WaitOutcome,
};

fn exited(code: i32) -> WaitOutcome {
    WaitOutcome::Finished(ChildStatus {
        code: Some(code),
        signal: None,
        stopped_signal: None,
        core_dumped: false,
    })
}

#[test]
fn success_outcome_for_zero_exit() {
    let o = decide_outcome(false, exited(0));
    assert!(matches!(o, Outcome::Success));
}

#[test]
fn exit_code_outcome_for_nonzero_exit() {
    let o = decide_outcome(false, exited(3));
    assert!(matches!(o, Outcome::ExitCode(3)));
}

#[test]
fn sigsegv_reports_terminated_by_signal() {
    let st = ChildStatus {
        code: None,
        signal: Some(11),
        stopped_signal: None,
        core_dumped: true,
    };
    let o = decide_outcome(false, WaitOutcome::Finished(st));
    match o {
        Outcome::TerminatedBySignal { signal, stopped_signal, core_dumped } => {
            assert_eq!(signal, Some(11));
            assert_eq!(stopped_signal, None);
            assert!(core_dumped);
        }
        _ => panic!("expected a signal outcome"),
    }
}

#[test]
fn overflow_supersedes_exit_status() {
    let o = decide_outcome(true, exited(0));
    assert!(matches!(o, Outcome::LogLimitExceeded));
}

#[test]
fn killed_outcome_carries_reason() {
    let o = decide_outcome(false, WaitOutcome::Killed(KillReason::Timeout));
    assert!(matches!(o, Outcome::Killed(KillReason::Timeout)));
}

#[test]
fn io_error_outcome_carries_message() {
    let o = decide_outcome(false, WaitOutcome::Failed(String::from("broken wait")));
    match o {
        Outcome::IoError(m) => assert_eq!(m, "broken wait"),
        _ => panic!("expected an io error outcome"),
    }
}

#[test]
fn custom_timeout_below_instance_wins() {
    assert_eq!(effective_timeout_secs(300, Some(1), false), 1);
}

#[test]
fn custom_timeout_above_instance_loses() {
    assert_eq!(effective_timeout_secs(300, Some(900), false), 300);
}

#[test]
fn negative_custom_timeout_falls_back_to_instance() {
    assert_eq!(effective_timeout_secs(300, Some(-5), false), 300);
}

#[test]
fn premium_cloud_stretches_instance_sixfold() {
    assert_eq!(effective_timeout_secs(300, None, true), 1800);
    assert_eq!(effective_timeout_secs(300, Some(600), true), 600);
}

#[test]
fn timeout_reason_references_instance_seconds() {
    // The reason text carries the configured instance timeout, not the
    // possibly smaller effective timeout of the job.
    assert_eq!(timeout_cancel_reason(300), "duration > 300");
}

#[test]
fn timeout_kill_records_cancel_row_then_kills() {
    // The child ignores SIGTERM, so the grace period lapses.
    let p = plan_termination(KillReason::Timeout, true, false, 300);
    let u = p.cancel_update.expect("timeout must write the cancel row");
    assert_eq!(u.canceled_by, "timeout");
    assert_eq!(u.reason, "duration > 300");
    assert!(p.send_sigterm);
    assert!(p.send_sigkill);
}

#[test]
fn graceful_kill_skips_sigkill_when_child_exits() {
    let p = plan_termination(KillReason::Cancelled, true, true, 300);
    assert!(p.cancel_update.is_none());
    assert!(p.send_sigterm);
    assert!(!p.send_sigkill);
}

#[test]
fn forced_kill_sends_sigkill_at_once() {
    let p = plan_termination(KillReason::TooManyLogs, false, false, 300);
    assert!(p.cancel_update.is_none());
    assert!(!p.send_sigterm);
    assert!(p.send_sigkill);
}

#[test]
fn exited_child_always_reported_natural() {
    assert_eq!(race_winner(true, true, true, true), None);
    assert_eq!(race_winner(false, true, true, true), Some(KillReason::TooManyLogs));
    assert_eq!(race_winner(false, false, true, true), Some(KillReason::Timeout));
    assert_eq!(race_winner(false, false, false, true), Some(KillReason::Cancelled));
}

#[test]
fn mem_peak_is_running_max() {
    let mut peak: i32 = -1;
    let samples = [120, 80, 300, 150, -3];
    let mut highs: Vec<i32> = Vec::new();
    for s in samples {
        observe_mem(&mut peak, s);
        highs.push(peak);
    }
    assert_eq!(peak, 300);
    // Monotonically non-decreasing over the call.
    for w in highs.windows(2) {
        assert!(w[0] <= w[1]);
    }
}

#[test]
fn poller_fills_slot_on_external_cancel() {
    let mut st = PollerState { ticks: 0, mem_peak: 0 };
    let mut slot = None;
    let row = CancelRow {
        canceled: true,
        canceled_by: Some(String::from("alice")),
        canceled_reason: Some(String::from("oops")),
    };
    let fx = poll_tick(&mut st, 42, Some(row), &mut slot);
    assert!(fx.stop);
    let c = slot.expect("cancel record must be written");
    assert_eq!(c.username.as_deref(), Some("alice"));
    assert_eq!(c.reason.as_deref(), Some("oops"));
    assert_eq!(fx.report_mem_peak, 42);
}

#[test]
fn poller_ticks_on_and_pings_every_tenth() {
    let mut st = PollerState { ticks: 0, mem_peak: 0 };
    let mut slot = None;
    let mut pings: usize = 0;
    for _ in 0..20 {
        let row = CancelRow { canceled: false, canceled_by: None, canceled_reason: None };
        let fx = poll_tick(&mut st, 1, Some(row), &mut slot);
        assert!(!fx.stop);
        if fx.refresh_worker_ping {
            pings += 1;
        }
    }
    assert_eq!(st.ticks, 20);
    assert_eq!(pings, 2);
    assert!(slot.is_none());
}

#[test]
fn failed_row_read_counts_as_not_cancelled() {
    let mut st = PollerState { ticks: 0, mem_peak: 0 };
    let mut slot = None;
    let fx = poll_tick(&mut st, 5, None, &mut slot);
    assert!(!fx.stop);
    assert!(slot.is_none());
}

#[test]
fn nil_job_disables_poller_not_timeout() {
    assert!(!poller_enabled(0));
    assert!(poller_enabled(1));
    // The timeout race does not consult the poller: with the poller silent,
    // expiry still wins over nothing else.
    assert_eq!(race_winner(false, false, true, false), Some(KillReason::Timeout));
}

#[test]
fn fast_exit_needs_no_tick() {
    // A child that exits before the first tick produces a natural outcome
    // with the poller state untouched.
    let st = PollerState { ticks: 0, mem_peak: -1 };
    assert_eq!(st.ticks, 0);
    let o = decide_outcome(false, exited(0));
    assert!(matches!(o, Outcome::Success));
}

#[test]
fn overflow_drain_yields_log_limit_outcome() {
    // A drain that trips the budget signals overflow; the final dispatch
    // then reports the log limit, whatever the wait produced.
    let rounds = vec![vec![windmill_worker::logbuf::LineEvent::Line("toolong".repeat(4))]];
    let mut limit: usize = 5;
    let mut logs = String::new();
    let r = windmill_worker::logbuf::drain_rounds(&rounds, &mut limit, &mut logs);
    assert!(r.overflow);
    let o = decide_outcome(r.overflow, WaitOutcome::Killed(KillReason::TooManyLogs));
    assert!(matches!(o, Outcome::LogLimitExceeded));
}
