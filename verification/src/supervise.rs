//! The timeout & kill orchestrator and the supervisor's final dispatch:
//! which of the racing events wins, what termination steps follow, and the
//! single outcome reported for the supervision. Also the cancellation
//! poller's per-tick decisions and the running memory peak.
use vstd::prelude::*;
use vstd::string::*;

verus! {

/// Why a child was killed rather than allowed to exit naturally.
#[derive(Clone, Copy, PartialEq, Eq, Structural, Debug)]
pub enum KillReason {
    TooManyLogs,
    Timeout,
    Cancelled,
}

/// The exit disposition of a reaped child, as the OS reports it.
#[derive(Clone, Copy, PartialEq, Eq, Structural, Debug)]
pub struct ChildStatus {
    /// The exit code, when the child exited normally.
    pub code: Option<i32>,
    /// The signal that terminated the child, when there was one.
    pub signal: Option<i32>,
    /// The signal that stopped the child, when there was one.
    pub stopped_signal: Option<i32>,
    /// Whether the termination produced a core dump.
    pub core_dumped: bool,
}

/// How the wait on the child ended: natural exit, a kill performed by the
/// orchestrator, or an OS-level error while waiting.
pub enum WaitOutcome {
    Finished(ChildStatus),
    Killed(KillReason),
    Failed(String),
}

/// The single result of a supervision.
pub enum Outcome {
    /// The child exited with code zero.
    Success,
    /// The child exited naturally with this nonzero code.
    ExitCode(i32),
    /// The child was terminated by a signal.
    TerminatedBySignal { signal: Option<i32>, stopped_signal: Option<i32>, core_dumped: bool },
    /// The orchestrator killed the child for this reason.
    Killed(KillReason),
    /// An OS-level error interrupted the wait.
    IoError(String),
    /// The character budget for logs was exceeded.
    LogLimitExceeded,
}

/// The supervisor's final dispatch: an observed overflow supersedes any
/// race-won exit status; otherwise the wait result decides.
pub open spec fn outcome_spec(too_many_logs: bool, wait: WaitOutcome) -> Outcome {
    if too_many_logs {
        Outcome::LogLimitExceeded
    } else {
        match wait {
            WaitOutcome::Finished(st) => if st.code == Some(0i32) {
                Outcome::Success
            } else {
                match st.code {
                    Some(c) => Outcome::ExitCode(c),
                    None => Outcome::TerminatedBySignal {
                        signal: st.signal,
                        stopped_signal: st.stopped_signal,
                        core_dumped: st.core_dumped,
                    },
                }
            },
            WaitOutcome::Killed(r) => Outcome::Killed(r),
            WaitOutcome::Failed(e) => Outcome::IoError(e),
        }
    }
}

/// Dispatches the supervision's end state to its one outcome.
pub fn decide_outcome(too_many_logs: bool, wait: WaitOutcome) -> (r: Outcome)
    ensures
        r == outcome_spec(too_many_logs, wait),
{
    if too_many_logs {
        Outcome::LogLimitExceeded
    } else {
        match wait {
            WaitOutcome::Finished(st) => {
                match st.code {
                    Some(c) => if c == 0 {
                        Outcome::Success
                    } else {
                        Outcome::ExitCode(c)
                    },
                    None => Outcome::TerminatedBySignal {
                        signal: st.signal,
                        stopped_signal: st.stopped_signal,
                        core_dumped: st.core_dumped,
                    },
                }
            },
            WaitOutcome::Killed(r) => Outcome::Killed(r),
            WaitOutcome::Failed(e) => Outcome::IoError(e),
        }
    }
}

/// Exactly one outcome per supervision: the final dispatch is a total
/// function of the overflow flag and the wait result, so an outcome always
/// exists and any two outcomes drawn from the same end state agree.
pub proof fn lemma_exactly_one_outcome(
    too_many_logs: bool,
    wait: WaitOutcome,
    o1: Outcome,
    o2: Outcome,
)
    requires
        o1 == outcome_spec(too_many_logs, wait),
        o2 == outcome_spec(too_many_logs, wait),
    ensures
        o1 == o2,
{
}

/// The instance-wide timeout in seconds: an enterprise, premium-workspace,
/// cloud-hosted combination stretches the configured base sixfold.
pub open spec fn instance_timeout_spec(base_secs: u64, premium_cloud: bool) -> int {
    if premium_cloud {
        base_secs * 6
    } else {
        base_secs as int
    }
}

/// The wall-clock expiry for one job: the smaller of the instance timeout
/// and the job's custom timeout, when one is present. A negative custom
/// timeout wraps to an enormous value when widened, so the instance timeout
/// wins then.
pub open spec fn effective_timeout_spec(
    base_secs: u64,
    custom_timeout: Option<i32>,
    premium_cloud: bool,
) -> int {
    let inst = instance_timeout_spec(base_secs, premium_cloud);
    match custom_timeout {
        Some(c) => if 0 <= c && c <= inst {
            c as int
        } else {
            inst
        },
        None => inst,
    }
}

/// Resolves the wall-clock timeout for one job, in seconds.
pub fn effective_timeout_secs(base_secs: u64, custom_timeout: Option<i32>, premium_cloud: bool) -> (r:
    u64)
    requires
        base_secs <= 0x2AAAAAAAAAAAAAAA,
    ensures
        r == effective_timeout_spec(base_secs, custom_timeout, premium_cloud),
{
    let inst: u64 = if premium_cloud {
        base_secs * 6
    } else {
        base_secs
    };
    match custom_timeout {
        Some(c) => {
            if c >= 0 && (c as u64) <= inst {
                c as u64
            } else {
                inst
            }
        },
        None => inst,
    }
}

/// The `canceled_reason` recorded for a timeout kill. It references the
/// configured instance timeout in seconds, not the possibly smaller
/// effective timeout of the job — the enclosing system has always written it
/// this way, and callers rely on the existing text.
pub open spec fn timeout_cancel_reason_spec(base_secs: u64) -> Seq<char> {
    "duration > "@.add(crate::text::dec_rep(base_secs as nat))
}

/// Renders the `canceled_reason` text for a timeout kill.
pub fn timeout_cancel_reason(base_secs: u64) -> (r: String)
    ensures
        r@ == timeout_cancel_reason_spec(base_secs),
{
    let mut s = String::from_str("duration > ");
    s.append(crate::text::u64_to_string(base_secs).as_str());
    s
}

/// Which event wins the biased race: a child that already exited is always
/// reported as a natural exit; otherwise overflow beats timeout beats
/// cancellation.
pub open spec fn race_winner_spec(
    child_exited: bool,
    overflow_signalled: bool,
    timer_expired: bool,
    cancel_notified: bool,
) -> Option<KillReason> {
    if child_exited {
        None
    } else if overflow_signalled {
        Some(KillReason::TooManyLogs)
    } else if timer_expired {
        Some(KillReason::Timeout)
    } else {
        Some(KillReason::Cancelled)
    }
}

/// Decides which event won the biased race.
pub fn race_winner(
    child_exited: bool,
    overflow_signalled: bool,
    timer_expired: bool,
    cancel_notified: bool,
) -> (r: Option<KillReason>)
    requires
        child_exited || overflow_signalled || timer_expired || cancel_notified,
    ensures
        r == race_winner_spec(child_exited, overflow_signalled, timer_expired, cancel_notified),
{
    if child_exited {
        None
    } else if overflow_signalled {
        Some(KillReason::TooManyLogs)
    } else if timer_expired {
        Some(KillReason::Timeout)
    } else {
        Some(KillReason::Cancelled)
    }
}

/// The status-row update written before a timeout kill.
pub struct CancelUpdate {
    /// Goes into `canceled_by`.
    pub canceled_by: String,
    /// Goes into `canceled_reason`.
    pub reason: String,
}

/// The termination steps the orchestrator performs for one kill.
pub struct KillPlan {
    /// The queue-row update to write first, present exactly for timeouts.
    pub cancel_update: Option<CancelUpdate>,
    /// Whether SIGTERM is sent (graceful termination requested).
    pub send_sigterm: bool,
    /// Whether SIGKILL is sent (always, unless the graceful wait saw the
    /// child exit).
    pub send_sigkill: bool,
}

/// Whether the plan delivers SIGTERM.
pub open spec fn plan_sends_sigterm(graceful: bool) -> bool {
    graceful
}

/// Whether the plan delivers SIGKILL.
pub open spec fn plan_sends_sigkill(graceful: bool, exited_within_grace: bool) -> bool {
    !(graceful && exited_within_grace)
}

/// Decides the termination steps for a kill: a timeout first records
/// `canceled_by = 'timeout'` with its reason text; a graceful kill sends
/// SIGTERM and, when the child does not exit within the grace period,
/// SIGKILL; a forced kill sends SIGKILL at once.
pub fn plan_termination(
    reason: KillReason,
    graceful: bool,
    exited_within_grace: bool,
    base_timeout_secs: u64,
) -> (p: KillPlan)
    ensures
        (match p.cancel_update {
            Some(u) => reason is Timeout && u.canceled_by@ == "timeout"@ && u.reason@
                == timeout_cancel_reason_spec(base_timeout_secs),
            None => !(reason is Timeout),
        }),
        p.send_sigterm == plan_sends_sigterm(graceful),
        p.send_sigkill == plan_sends_sigkill(graceful, exited_within_grace),
{
    let cancel_update = if matches!(reason, KillReason::Timeout) {
        Some(
            CancelUpdate {
                canceled_by: String::from_str("timeout"),
                reason: timeout_cancel_reason(base_timeout_secs),
            },
        )
    } else {
        None
    };
    KillPlan { cancel_update, send_sigterm: graceful, send_sigkill: !(graceful
        && exited_within_grace) }
}

/// Every kill delivers a signal: whatever the reason and however the grace
/// period went, the plan sends SIGTERM (graceful) or SIGKILL. In particular,
/// once `canceled = true` is observed while the child still runs, the race
/// yields a kill reason, and its plan signals the child before the outcome
/// is returned.
pub proof fn lemma_kill_delivers_signal(
    overflow_signalled: bool,
    timer_expired: bool,
    graceful: bool,
    exited_within_grace: bool,
)
    ensures
        race_winner_spec(false, overflow_signalled, timer_expired, true) is Some,
        plan_sends_sigterm(graceful) || plan_sends_sigkill(graceful, exited_within_grace),
{
}

/// The record written back to the caller when the database reports the job
/// cancelled.
pub struct CanceledBy {
    /// Who cancelled the job, when recorded.
    pub username: Option<String>,
    /// Why, when recorded.
    pub reason: Option<String>,
}

/// The cancel-status columns one poll returns from the queue row.
pub struct CancelRow {
    pub canceled: bool,
    pub canceled_by: Option<String>,
    pub canceled_reason: Option<String>,
}

/// The poller's own state across ticks.
pub struct PollerState {
    /// Ticks elapsed so far.
    pub ticks: u64,
    /// Running maximum of the memory samples.
    pub mem_peak: i32,
}

/// What one tick asks the surrounding tasks to do.
pub struct TickEffects {
    /// Refresh the worker liveness row (every tenth tick).
    pub refresh_worker_ping: bool,
    /// The peak to write into the queue row's `mem_peak`.
    pub report_mem_peak: i32,
    /// Stop polling: the job was cancelled.
    pub stop: bool,
}

/// The larger of two values.
pub open spec fn spec_max(a: int, b: int) -> int {
    if a >= b {
        a
    } else {
        b
    }
}

/// Folds a memory sample into the running peak.
pub fn observe_mem(mem_peak: &mut i32, sample: i32)
    ensures
        *final(mem_peak) == spec_max(*old(mem_peak) as int, sample as int),
{
    if sample > *mem_peak {
        *mem_peak = sample;
    }
}

/// One tick of the cancellation poller: counts the tick, decides the
/// five-second liveness refresh, folds the memory sample into the peak,
/// reports the peak for the row update, and — when the returned row shows
/// `canceled = true` — fills the caller's slot and stops. A missing row
/// (a failed read) counts as not cancelled for this tick.
pub fn poll_tick(
    st: &mut PollerState,
    mem_sample: i32,
    row: Option<CancelRow>,
    canceled_by_slot: &mut Option<CanceledBy>,
) -> (fx: TickEffects)
    requires
        old(st).ticks < u64::MAX,
    ensures
        final(st).ticks == old(st).ticks + 1,
        final(st).mem_peak == spec_max(old(st).mem_peak as int, mem_sample as int),
        fx.refresh_worker_ping == ((old(st).ticks + 1) % 10 == 0),
        fx.report_mem_peak == final(st).mem_peak,
        (match row {
            Some(r) => if r.canceled {
                fx.stop && *final(canceled_by_slot) == Some(
                    CanceledBy { username: r.canceled_by, reason: r.canceled_reason },
                )
            } else {
                !fx.stop && *final(canceled_by_slot) == *old(canceled_by_slot)
            },
            None => !fx.stop && *final(canceled_by_slot) == *old(canceled_by_slot),
        }),
{
    st.ticks = st.ticks + 1;
    let refresh_worker_ping = st.ticks % 10 == 0;
    observe_mem(&mut st.mem_peak, mem_sample);
    let report_mem_peak = st.mem_peak;
    match row {
        Some(r) => {
            if r.canceled {
                *canceled_by_slot = Some(
                    CanceledBy { username: r.canceled_by, reason: r.canceled_reason },
                );
                TickEffects { refresh_worker_ping, report_mem_peak, stop: true }
            } else {
                TickEffects { refresh_worker_ping, report_mem_peak, stop: false }
            }
        },
        None => TickEffects { refresh_worker_ping, report_mem_peak, stop: false },
    }
}

/// Whether the cancellation poller runs at all: a nil job id (all zero)
/// disables it; the timeout race is unaffected.
pub open spec fn poller_enabled_spec(job_id: u128) -> bool {
    job_id != 0
}

/// Whether the cancellation poller runs for this job id.
pub fn poller_enabled(job_id: u128) -> (r: bool)
    ensures
        r == poller_enabled_spec(job_id),
{
    job_id != 0
}

/// The running peak after a sequence of memory samples.
pub open spec fn peak_after(init: int, samples: Seq<int>) -> int
    decreases samples.len(),
{
    if samples.len() == 0 {
        init
    } else {
        peak_after(spec_max(init, samples[0]), samples.drop_first())
    }
}

/// The largest sample of a nonempty sequence.
pub open spec fn seq_max_of(samples: Seq<int>) -> int
    decreases samples.len(),
{
    if samples.len() <= 1 {
        samples[0]
    } else {
        spec_max(samples[0], seq_max_of(samples.drop_first()))
    }
}

/// The running peak never sinks below where it started.
pub proof fn lemma_peak_at_least_init(init: int, samples: Seq<int>)
    ensures
        peak_after(init, samples) >= init,
    decreases samples.len(),
{
    if samples.len() > 0 {
        lemma_peak_at_least_init(spec_max(init, samples[0]), samples.drop_first());
    }
}

/// The running peak over concatenated sample runs folds left to right.
pub proof fn lemma_peak_concat(init: int, a: Seq<int>, b: Seq<int>)
    ensures
        peak_after(init, a.add(b)) == peak_after(peak_after(init, a), b),
    decreases a.len(),
{
    if a.len() == 0 {
        assert(a.add(b) =~= b);
    } else {
        assert(a.add(b).drop_first() =~= a.drop_first().add(b));
        lemma_peak_concat(spec_max(init, a[0]), a.drop_first(), b);
    }
}

/// `mem_peak` is monotonically non-decreasing over the call: the peak after
/// any prefix of the samples is no larger than the peak after any longer
/// prefix.
pub proof fn lemma_peak_monotone(init: int, samples: Seq<int>, i: int, j: int)
    requires
        0 <= i <= j <= samples.len(),
    ensures
        peak_after(init, samples.take(i)) <= peak_after(init, samples.take(j)),
{
    let a = samples.take(i);
    let mid = samples.subrange(i, j);
    assert(samples.take(j) =~= a.add(mid));
    lemma_peak_concat(init, a, mid);
    lemma_peak_at_least_init(peak_after(init, a), mid);
}

/// `mem_peak` equals the maximum of the samples (and the starting value):
/// after all samples are folded in, the running peak is exactly the largest
/// of the initial value and every sample.
pub proof fn lemma_peak_is_max_of_samples(init: int, samples: Seq<int>)
    ensures
        samples.len() == 0 ==> peak_after(init, samples) == init,
        samples.len() > 0 ==> peak_after(init, samples) == spec_max(init, seq_max_of(samples)),
    decreases samples.len(),
{
    if samples.len() > 0 {
        lemma_peak_is_max_of_samples(spec_max(init, samples[0]), samples.drop_first());
    }
}

} // verus!
