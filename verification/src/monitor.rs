//! The watchdog's decisions: how long to wait for the quota, and the
//! Running/Limited state machine that the program's loop drives.

use crate::status::{
    contains_usage_limit, latest_status, parse_latest_status, usage_pattern, QuotaState,
};
use crate::pattern::regex_is_match;
use crate::text::{decimal, lines, push_decimal, string_from_chars};
use crate::time::{
    chrono_timestamp_in_range, timestamp_in_range, zoned_opt_view, ZonedTime, ZonedTimeView,
};
use crate::tracker::{fresh_text, CaptureTracker};
use vstd::prelude::*;

verus! {

/// The watchdog's timing settings, in whole seconds.
#[derive(Debug, Clone, Copy)]
pub struct MonitorConfig {
    /// Interval between captures while Codex is running.
    pub watch_interval: u64,
    /// Longest wait between quota checks while limited.
    pub poll_interval: u64,
    /// Delay added to a parsed reset time.
    pub reset_grace: u64,
    /// Number of `/status` requests per quota check.
    pub status_refresh_count: u32,
    /// Delay after each `/status` request.
    pub status_refresh_delay: u64,
}

// ---------------------------------------------------------------------------
// Waiting for the quota
// ---------------------------------------------------------------------------

/// The largest whole number of seconds that chrono's `TimeDelta` holds
/// (`TimeDelta::MAX` is `i64::MAX` milliseconds).
pub open spec fn max_delta_secs() -> u64 {
    9_223_372_036_854_775
}

/// `TimeDelta::from_std` of a whole number of seconds: refused beyond
/// [`max_delta_secs`].
pub open spec fn delta_of(secs: u64) -> Option<int> {
    if secs <= max_delta_secs() {
        Some(secs as int)
    } else {
        None
    }
}

/// `now + poll_interval`, the poll interval counting as zero where
/// `TimeDelta` cannot hold it.
pub open spec fn poll_deadline(now: ZonedTimeView, poll: u64) -> int {
    now.timestamp + match delta_of(poll) {
        Some(d) => d,
        None => 0,
    }
}

/// `reset + reset_grace`, where there is a reset and `TimeDelta` holds the grace.
pub open spec fn reset_deadline(reset: Option<ZonedTimeView>, grace: u64) -> Option<int> {
    match (reset, delta_of(grace)) {
        (Some(r), Some(g)) => Some(r.timestamp + g),
        _ => None,
    }
}

/// A span of time: whole seconds and nanoseconds less than a second
/// (what `std::time::Duration` holds).
#[derive(Debug, Clone, Copy, PartialEq, Eq, Structural)]
pub struct WaitTime {
    pub secs: u64,
    pub nanos: u32,
}

/// Nanoseconds in a second.
pub open spec fn nanos_per_sec() -> int {
    1_000_000_000
}

/// The length of a [`WaitTime`] in nanoseconds.
pub open spec fn wait_nanos(w: WaitTime) -> int {
    w.secs * nanos_per_sec() + w.nanos
}

/// The [`WaitTime`] of `d` nanoseconds.
pub open spec fn wait_time_of(d: int) -> WaitTime {
    WaitTime { secs: (d / nanos_per_sec()) as u64, nanos: (d % nanos_per_sec()) as u32 }
}

/// An instant as nanoseconds since the UNIX epoch.
pub open spec fn instant_nanos(t: ZonedTimeView) -> int {
    t.timestamp * nanos_per_sec() + t.nanos
}

/// `now + poll_interval` in nanoseconds since the epoch.
pub open spec fn poll_deadline_nanos(now: ZonedTimeView, poll: u64) -> int {
    poll_deadline(now, poll) * nanos_per_sec() + now.nanos
}

/// `reset + reset_grace` in nanoseconds since the epoch, where there is a
/// reset and `TimeDelta` holds the grace.
pub open spec fn reset_deadline_nanos(reset: Option<ZonedTimeView>, grace: u64) -> Option<int> {
    match (reset, delta_of(grace)) {
        (Some(r), Some(g)) => Some((r.timestamp + g) * nanos_per_sec() + r.nanos),
        _ => None,
    }
}

/// The instant to check the quota again, in nanoseconds since the epoch: the
/// earlier of the poll deadline and the reset deadline, where the reset
/// deadline is after `now`; else the poll deadline.
pub open spec fn next_check(now: ZonedTimeView, reset: Option<ZonedTimeView>, poll: u64, grace: u64) -> int {
    let pd = poll_deadline_nanos(now, poll);
    match reset_deadline_nanos(reset, grace) {
        Some(rd) => if rd > instant_nanos(now) {
            if rd < pd {
                rd
            } else {
                pd
            }
        } else {
            pd
        },
        None => pd,
    }
}

/// The nanoseconds from `now` to the next check, and zero for a check that
/// is not after `now`. (chrono's `TimeDelta` and `DateTime` arithmetic on
/// these values is exact.)
pub open spec fn wait_duration(now: ZonedTimeView, reset: Option<ZonedTimeView>, poll: u64, grace: u64) -> int {
    let d = next_check(now, reset, poll, grace) - instant_nanos(now);
    if d > 0 {
        d
    } else {
        0
    }
}

/// An instant that chrono can represent.
pub open spec fn representable(t: int) -> bool {
    i64::MIN <= t <= i64::MAX && chrono_timestamp_in_range(t as i64)
}

/// The deadlines that [`next_wait`] builds are instants chrono can represent:
/// adding the intervals does not overflow chrono's range.
pub open spec fn next_wait_defined(now: ZonedTimeView, reset: Option<ZonedTimeView>, poll: u64, grace: u64) -> bool {
    &&& representable(poll_deadline(now, poll))
    &&& (reset_deadline(reset, grace) matches Some(rd) ==> representable(rd))
}

/// How long to wait before checking the quota again (see
/// [`wait_duration`]), where chrono can represent the deadlines.
pub fn next_wait(now: &ZonedTime, reset: &Option<ZonedTime>, config: &MonitorConfig) -> (w: WaitTime)
    requires
        next_wait_defined(now@, zoned_opt_view(*reset), config.poll_interval, config.reset_grace),
    ensures
        w == wait_time_of(
            wait_duration(now@, zoned_opt_view(*reset), config.poll_interval, config.reset_grace),
        ),
        wait_nanos(w) == wait_duration(
            now@,
            zoned_opt_view(*reset),
            config.poll_interval,
            config.reset_grace,
        ),
        w.nanos < 1_000_000_000,
{
    let now_ns = now.timestamp() as i128 * 1_000_000_000 + now.nanos() as i128;
    let poll: i128 = if config.poll_interval <= 9_223_372_036_854_775 {
        config.poll_interval as i128
    } else {
        0
    };
    let poll_deadline = now_ns + poll * 1_000_000_000;
    let deadline = match reset {
        Some(r) => {
            if config.reset_grace <= 9_223_372_036_854_775 {
                let reset_deadline = (r.timestamp() as i128 + config.reset_grace as i128)
                    * 1_000_000_000 + r.nanos() as i128;
                if reset_deadline > now_ns {
                    if reset_deadline < poll_deadline {
                        reset_deadline
                    } else {
                        poll_deadline
                    }
                } else {
                    poll_deadline
                }
            } else {
                poll_deadline
            }
        },
        None => poll_deadline,
    };
    let d: i128 = if deadline > now_ns {
        deadline - now_ns
    } else {
        0
    };
    proof {
        lemma_wait_within_poll_interval(
            now@,
            zoned_opt_view(*reset),
            config.poll_interval,
            config.reset_grace,
        );
        assert(d <= config.poll_interval * 1_000_000_000);
        assert(d / 1_000_000_000 <= config.poll_interval) by (nonlinear_arith)
            requires
                0 <= d <= config.poll_interval * 1_000_000_000,
        ;
    }
    let secs = (d / 1_000_000_000) as u64;
    let nanos = (d % 1_000_000_000) as u32;
    WaitTime { secs, nanos }
}

/// Whether `t` is an instant chrono can represent.
fn representable_instant(t: i128) -> (r: bool)
    ensures
        r == representable(t as int),
{
    if t < -9_223_372_036_854_775_808 || t > 9_223_372_036_854_775_807 {
        false
    } else {
        timestamp_in_range(t as i64)
    }
}

/// [`next_wait`] where chrono can represent its deadlines, else `None`.
pub fn checked_next_wait(now: &ZonedTime, reset: &Option<ZonedTime>, config: &MonitorConfig) -> (r:
    Option<WaitTime>)
    ensures
        r is Some <==> next_wait_defined(
            now@,
            zoned_opt_view(*reset),
            config.poll_interval,
            config.reset_grace,
        ),
        r matches Some(w) ==> w == wait_time_of(
            wait_duration(now@, zoned_opt_view(*reset), config.poll_interval, config.reset_grace),
        ),
{
    let now_ts = now.timestamp() as i128;
    let poll: i128 = if config.poll_interval <= 9_223_372_036_854_775 {
        config.poll_interval as i128
    } else {
        0
    };
    if !representable_instant(now_ts + poll) {
        return None;
    }
    match reset {
        Some(r) => {
            if config.reset_grace <= 9_223_372_036_854_775 && !representable_instant(
                r.timestamp() as i128 + config.reset_grace as i128,
            ) {
                return None;
            }
        },
        None => {},
    }
    Some(next_wait(now, reset, config))
}

/// The wait never exceeds the poll interval: a manual quota reset is
/// noticed within one poll interval.
pub proof fn lemma_wait_within_poll_interval(
    now: ZonedTimeView,
    reset: Option<ZonedTimeView>,
    poll: u64,
    grace: u64,
)
    ensures
        0 <= wait_duration(now, reset, poll, grace) <= poll * nanos_per_sec(),
{
}

/// A wait of `d` nanoseconds, `0 <= d`, is `d / 10^9` seconds and `d % 10^9`
/// nanoseconds.
pub proof fn lemma_wait_time_of(d: int)
    requires
        0 <= d <= u64::MAX * nanos_per_sec(),
    ensures
        wait_nanos(wait_time_of(d)) == d,
        wait_time_of(d).nanos < nanos_per_sec(),
{
    assert(d / 1_000_000_000 <= u64::MAX) by (nonlinear_arith)
        requires
            0 <= d <= u64::MAX * 1_000_000_000,
    ;
}

/// With a reset deadline after `now`, the wait ends at the earlier of the
/// reset deadline and the poll deadline.
pub proof fn lemma_wait_uses_earlier_deadline(
    now: ZonedTimeView,
    reset: ZonedTimeView,
    poll: u64,
    grace: u64,
)
    requires
        poll <= max_delta_secs(),
        grace <= max_delta_secs(),
        (reset.timestamp + grace) * nanos_per_sec() + reset.nanos > instant_nanos(now),
    ensures
        wait_duration(now, Some(reset), poll, grace) == if (reset.timestamp + grace)
            * nanos_per_sec() + reset.nanos < instant_nanos(now) + poll * nanos_per_sec() {
            (reset.timestamp + grace) * nanos_per_sec() + reset.nanos - instant_nanos(now)
        } else {
            poll * nanos_per_sec()
        },
{
}

/// A reset deadline that is not after `now` (a stale reset time) falls back
/// to the poll interval.
pub proof fn lemma_stale_reset_falls_back_to_polling(
    now: ZonedTimeView,
    reset: Option<ZonedTimeView>,
    poll: u64,
    grace: u64,
)
    requires
        poll <= max_delta_secs(),
        reset_deadline_nanos(reset, grace) matches Some(rd) ==> rd <= instant_nanos(now),
    ensures
        wait_duration(now, reset, poll, grace) == poll * nanos_per_sec(),
{
}

/// A duration in whole minutes where it is one, else in seconds.
pub open spec fn friendly_duration_text(secs: u64) -> Seq<char> {
    if secs % 60 == 0 {
        decimal((secs / 60) as nat) + " minutes"@
    } else {
        decimal(secs as nat) + " seconds"@
    }
}

/// Formats a duration for the log (see [`friendly_duration_text`]).
pub fn friendly_duration(secs: u64) -> (r: String)
    ensures
        r@ == friendly_duration_text(secs),
{
    let mut out: Vec<char> = Vec::new();
    let unit = if secs % 60 == 0 {
        push_decimal(&mut out, secs / 60);
        crate::text::chars_of(" minutes")
    } else {
        push_decimal(&mut out, secs);
        crate::text::chars_of(" seconds")
    };
    crate::text::append(&mut out, unit.as_slice());
    string_from_chars(out.as_slice())
}


// ---------------------------------------------------------------------------
// The watchdog state machine
// ---------------------------------------------------------------------------

/// What the watchdog is doing.
#[derive(Debug, Clone, Copy, PartialEq, Eq, Structural)]
pub enum WatchState {
    /// The goal is working: capture the pane every watch interval and look
    /// for a usage-limit message among the new lines.
    Running,
    /// A usage limit was seen: refresh `/status` and read the quota.
    Limited,
    /// The quota is available: once no client is attached, capture the pane
    /// before sending `/goal resume`.
    Resuming,
    /// `/goal resume` is being sent and its effect captured.
    Verifying,
}

/// Why the watchdog waits (while the pane exists) before checking again.
pub enum WaitReason {
    /// The quota is exhausted; the reset time the status announced, if any.
    QuotaExhausted(Option<ZonedTime>),
    /// The status showed no quota.
    QuotaUnknown,
    /// Refreshing the status failed.
    StatusFailed,
    /// Codex reported a usage limit again after `/goal resume`.
    StillLimited,
    /// Resuming the goal failed.
    ResumeFailed,
}

pub enum WaitReasonView {
    QuotaExhausted(Option<ZonedTimeView>),
    QuotaUnknown,
    StatusFailed,
    StillLimited,
    ResumeFailed,
}

impl View for WaitReason {
    type V = WaitReasonView;

    open spec fn view(&self) -> WaitReasonView {
        match self {
            WaitReason::QuotaExhausted(r) => WaitReasonView::QuotaExhausted(zoned_opt_view(*r)),
            WaitReason::QuotaUnknown => WaitReasonView::QuotaUnknown,
            WaitReason::StatusFailed => WaitReasonView::StatusFailed,
            WaitReason::StillLimited => WaitReasonView::StillLimited,
            WaitReason::ResumeFailed => WaitReasonView::ResumeFailed,
        }
    }
}

fn copy_reason(r: &WaitReason) -> (c: WaitReason)
    ensures
        c@ == r@,
{
    match r {
        WaitReason::QuotaExhausted(Some(t)) => WaitReason::QuotaExhausted(Some(t.clone())),
        WaitReason::QuotaExhausted(None) => WaitReason::QuotaExhausted(None),
        WaitReason::QuotaUnknown => WaitReason::QuotaUnknown,
        WaitReason::StatusFailed => WaitReason::StatusFailed,
        WaitReason::StillLimited => WaitReason::StillLimited,
        WaitReason::ResumeFailed => WaitReason::ResumeFailed,
    }
}

/// Why the watchdog sleeps before its next step.
#[derive(Debug, Clone, Copy, PartialEq, Eq, Structural)]
pub enum SleepReason {
    /// The pause between two captures while the goal runs.
    WatchInterval,
    /// A tmux client is attached; `true` the first time in this wait.
    ClientsAttached(bool),
    /// The pause after a `/status` request.
    StatusDelay,
    /// The pause after `/goal resume`, before its effect is captured.
    ResumeDelay,
}

/// The seconds to wait after `/goal resume` before capturing the pane.
pub open spec fn resume_verify_delay() -> u64 {
    15
}

/// The seconds between two checks for attached clients.
pub open spec fn detach_poll_delay() -> u64 {
    1
}

/// Where the watchdog is within the work of its state.
pub enum Phase {
    /// About to check that the Codex pane still exists.
    CheckingPane,
    /// About to sleep for the watch interval.
    Watching,
    /// About to capture the pane.
    Capturing,
    /// About to ask tmux whether a client is attached.
    CheckingClients,
    /// A client is attached: about to sleep before asking again; `true` the
    /// first time in this wait.
    AwaitingDetach(bool),
    /// About to send the `sent`-th `/status`.
    SendingStatus,
    /// About to sleep after a `/status`.
    StatusDelay,
    /// About to send `/goal resume`.
    SendingResume,
    /// About to sleep after `/goal resume`.
    ResumeDelay,
    /// About to wait, while the pane exists.
    Waiting(WaitTime, WaitReason),
    /// Finished.
    Done,
}

pub enum PhaseView {
    CheckingPane,
    Watching,
    Capturing,
    CheckingClients,
    AwaitingDetach(bool),
    SendingStatus,
    StatusDelay,
    SendingResume,
    ResumeDelay,
    Waiting(WaitTime, WaitReasonView),
    Done,
}

impl View for Phase {
    type V = PhaseView;

    open spec fn view(&self) -> PhaseView {
        match self {
            Phase::CheckingPane => PhaseView::CheckingPane,
            Phase::Watching => PhaseView::Watching,
            Phase::Capturing => PhaseView::Capturing,
            Phase::CheckingClients => PhaseView::CheckingClients,
            Phase::AwaitingDetach(first) => PhaseView::AwaitingDetach(*first),
            Phase::SendingStatus => PhaseView::SendingStatus,
            Phase::StatusDelay => PhaseView::StatusDelay,
            Phase::SendingResume => PhaseView::SendingResume,
            Phase::ResumeDelay => PhaseView::ResumeDelay,
            Phase::Waiting(s, r) => PhaseView::Waiting(*s, r@),
            Phase::Done => PhaseView::Done,
        }
    }
}

/// What the program's loop reports after carrying out an action.
pub enum MonitorEvent {
    /// The Codex pane no longer exists.
    PaneGone,
    /// The Codex pane exists.
    PanePresent,
    /// The pane was captured, with this text, at `now`.
    Captured(String, ZonedTime),
    /// Whether a tmux client is attached to the session.
    Attached(bool),
    /// The requested line was typed into the pane.
    Sent,
    /// The requested sleep or wait is over.
    Slept,
    /// The action failed while the pane still exists.
    Failed,
}

pub enum MonitorEventView {
    PaneGone,
    PanePresent,
    Captured(Seq<char>, ZonedTimeView),
    Attached(bool),
    Sent,
    Slept,
    Failed,
}

impl View for MonitorEvent {
    type V = MonitorEventView;

    open spec fn view(&self) -> MonitorEventView {
        match self {
            MonitorEvent::PaneGone => MonitorEventView::PaneGone,
            MonitorEvent::PanePresent => MonitorEventView::PanePresent,
            MonitorEvent::Captured(text, now) => MonitorEventView::Captured(text@, now@),
            MonitorEvent::Attached(b) => MonitorEventView::Attached(*b),
            MonitorEvent::Sent => MonitorEventView::Sent,
            MonitorEvent::Slept => MonitorEventView::Slept,
            MonitorEvent::Failed => MonitorEventView::Failed,
        }
    }
}

/// What the program's loop does next.
pub enum MonitorAction {
    /// Stop watching.
    Exit,
    /// Check that the Codex pane exists.
    CheckPane,
    /// Capture the recent output of the pane.
    Capture,
    /// Ask tmux whether a client is attached to the session.
    CheckAttached,
    /// Type `/status` and Enter into the pane; this is request number `i`
    /// of the current refresh.
    SendStatus(u32),
    /// Type `/goal resume` and Enter into the pane.
    SendGoalResume,
    /// Sleep this many seconds.
    Sleep(u64, SleepReason),
    /// Wait this long, stopping early if the pane disappears.
    Wait(WaitTime, WaitReason),
}

pub enum MonitorActionView {
    Exit,
    CheckPane,
    Capture,
    CheckAttached,
    SendStatus(u32),
    SendGoalResume,
    Sleep(u64, SleepReason),
    Wait(WaitTime, WaitReasonView),
}

impl View for MonitorAction {
    type V = MonitorActionView;

    open spec fn view(&self) -> MonitorActionView {
        match self {
            MonitorAction::Exit => MonitorActionView::Exit,
            MonitorAction::CheckPane => MonitorActionView::CheckPane,
            MonitorAction::Capture => MonitorActionView::Capture,
            MonitorAction::CheckAttached => MonitorActionView::CheckAttached,
            MonitorAction::SendStatus(i) => MonitorActionView::SendStatus(*i),
            MonitorAction::SendGoalResume => MonitorActionView::SendGoalResume,
            MonitorAction::Sleep(s, r) => MonitorActionView::Sleep(*s, *r),
            MonitorAction::Wait(s, r) => MonitorActionView::Wait(*s, r@),
        }
    }
}

/// The line an action types into the pane, where it types one.
pub open spec fn typed_line(a: MonitorActionView) -> Option<Seq<char>> {
    match a {
        MonitorActionView::SendStatus(_) => Some("/status"@),
        MonitorActionView::SendGoalResume => Some("/goal resume"@),
        _ => None,
    }
}

impl MonitorAction {
    /// The line this action types into the pane, where it types one.
    pub fn line(&self) -> (r: Option<String>)
        ensures
            match typed_line(self@) {
                Some(l) => r matches Some(s) && s@ == l,
                None => r is None,
            },
    {
        match self {
            MonitorAction::SendStatus(_) => Some(String::from_str("/status")),
            MonitorAction::SendGoalResume => Some(String::from_str("/goal resume")),
            _ => None,
        }
    }
}

/// The watchdog as values: its state, the phase within it, the number of
/// `/status` requests of the current refresh, whether an attached client
/// was announced in the current wait, the lines of the last capture and the
/// settings.
pub struct MonitorView {
    pub state: WatchState,
    pub phase: PhaseView,
    pub sent: u32,
    pub announced: bool,
    pub seen: Seq<Seq<char>>,
    pub config: MonitorConfig,
}

/// The wait after an exhausted quota: [`wait_duration`] where chrono can
/// represent the deadlines. Where a deadline would leave chrono's range
/// (adding it would make chrono panic), the watchdog polls instead.
pub open spec fn exhausted_wait(now: ZonedTimeView, reset: Option<ZonedTimeView>, config: MonitorConfig) -> WaitTime {
    if next_wait_defined(now, reset, config.poll_interval, config.reset_grace) {
        wait_time_of(wait_duration(now, reset, config.poll_interval, config.reset_grace))
    } else {
        WaitTime { secs: config.poll_interval, nanos: 0 }
    }
}

/// With no known reset time the watchdog waits the poll interval: after an
/// exhausted quota whose reset is not shown, the wait is exactly
/// `poll_interval` seconds (a poll interval that chrono's `TimeDelta`
/// cannot hold is left out: chrono counts it as zero).
pub proof fn lemma_unknown_reset_waits_poll_interval(now: ZonedTimeView, config: MonitorConfig)
    requires
        config.poll_interval <= max_delta_secs(),
    ensures
        exhausted_wait(now, None, config) == (WaitTime { secs: config.poll_interval, nanos: 0 }),
{
    let poll = config.poll_interval;
    if next_wait_defined(now, None, poll, config.reset_grace) {
        let d = wait_duration(now, None, poll, config.reset_grace);
        assert(d == poll * 1_000_000_000);
        assert(d / 1_000_000_000 == poll && d % 1_000_000_000 == 0) by (nonlinear_arith)
            requires
                d == poll * 1_000_000_000,
        ;
    }
}

/// After an exhausted quota the wait runs to the earlier of the poll
/// deadline and the reset deadline (reset time plus grace), where that
/// deadline is still ahead; otherwise it is the poll interval. Measured in
/// nanoseconds from `now`, for settings that chrono's `TimeDelta` holds and
/// deadlines chrono can represent.
pub proof fn lemma_exhausted_wait_is_earlier_deadline(
    now: ZonedTimeView,
    reset: Option<ZonedTimeView>,
    config: MonitorConfig,
)
    requires
        config.poll_interval <= max_delta_secs(),
        config.reset_grace <= max_delta_secs(),
        next_wait_defined(now, reset, config.poll_interval, config.reset_grace),
    ensures
        exhausted_wait(now, reset, config).nanos < 1_000_000_000,
        ({
            let w = wait_nanos(exhausted_wait(now, reset, config));
            let now_ns = now.timestamp * 1_000_000_000 + now.nanos;
            let poll_ns = config.poll_interval * 1_000_000_000;
            match reset {
                Some(r) => {
                    let rd = (r.timestamp + config.reset_grace) * 1_000_000_000 + r.nanos;
                    if rd > now_ns && rd - now_ns < poll_ns {
                        w == rd - now_ns
                    } else {
                        w == poll_ns
                    }
                },
                None => w == poll_ns,
            }
        }),
{
    let d = wait_duration(now, reset, config.poll_interval, config.reset_grace);
    lemma_wait_within_poll_interval(now, reset, config.poll_interval, config.reset_grace);
    assert(d <= u64::MAX * nanos_per_sec()) by (nonlinear_arith)
        requires
            d <= config.poll_interval * 1_000_000_000,
            config.poll_interval <= u64::MAX,
    ;
    lemma_wait_time_of(d);
}

/// The action that a phase calls for.
pub open spec fn action_of(v: MonitorView) -> MonitorActionView {
    match v.phase {
        PhaseView::CheckingPane => MonitorActionView::CheckPane,
        PhaseView::Watching => MonitorActionView::Sleep(
            v.config.watch_interval,
            SleepReason::WatchInterval,
        ),
        PhaseView::Capturing => MonitorActionView::Capture,
        PhaseView::CheckingClients => MonitorActionView::CheckAttached,
        PhaseView::AwaitingDetach(first) => MonitorActionView::Sleep(
            detach_poll_delay(),
            SleepReason::ClientsAttached(first),
        ),
        PhaseView::SendingStatus => MonitorActionView::SendStatus(v.sent),
        PhaseView::StatusDelay => MonitorActionView::Sleep(
            v.config.status_refresh_delay,
            SleepReason::StatusDelay,
        ),
        PhaseView::SendingResume => MonitorActionView::SendGoalResume,
        PhaseView::ResumeDelay => MonitorActionView::Sleep(resume_verify_delay(), SleepReason::ResumeDelay),
        PhaseView::Waiting(secs, reason) => MonitorActionView::Wait(secs, reason),
        PhaseView::Done => MonitorActionView::Exit,
    }
}

/// A step that failed, or an event that does not answer the pending action:
/// while running, check the pane again; while limited, retry the status after
/// the poll interval; while resuming, fall back to limited and retry after
/// the poll interval.
pub open spec fn after_failure(v: MonitorView) -> MonitorView {
    let poll = WaitTime { secs: v.config.poll_interval, nanos: 0 };
    match v.state {
        WatchState::Running => MonitorView { phase: PhaseView::CheckingPane, ..v },
        WatchState::Limited => MonitorView {
            phase: PhaseView::Waiting(poll, WaitReasonView::StatusFailed),
            ..v
        },
        _ => MonitorView {
            state: WatchState::Limited,
            phase: PhaseView::Waiting(poll, WaitReasonView::ResumeFailed),
            ..v
        },
    }
}

/// The start of a status refresh: no `/status` sent yet; check for clients
/// first where there is one to send.
pub open spec fn start_refresh(v: MonitorView) -> MonitorView {
    if 0 < v.config.status_refresh_count {
        MonitorView {
            state: WatchState::Limited,
            phase: PhaseView::CheckingClients,
            sent: 0,
            announced: false,
            ..v
        }
    } else {
        MonitorView { state: WatchState::Limited, phase: PhaseView::Capturing, sent: 0, ..v }
    }
}

/// The view after a capture `text` taken at `now`.
pub open spec fn after_capture(v: MonitorView, text: Seq<char>, now: ZonedTimeView) -> MonitorView {
    let current = lines(text);
    let fresh = fresh_text(v.seen, current);
    let poll = WaitTime { secs: v.config.poll_interval, nanos: 0 };
    match v.state {
        WatchState::Running => if regex_is_match(usage_pattern(), fresh) {
            MonitorView { state: WatchState::Limited, phase: PhaseView::CheckingPane, seen: current, ..v }
        } else {
            MonitorView { phase: PhaseView::CheckingPane, seen: current, ..v }
        },
        WatchState::Limited => {
            let status = latest_status(text, now);
            match status.quota {
                QuotaState::Available => MonitorView {
                    state: WatchState::Resuming,
                    phase: PhaseView::CheckingClients,
                    announced: false,
                    seen: current,
                    ..v
                },
                QuotaState::Exhausted => MonitorView {
                    phase: PhaseView::Waiting(
                        exhausted_wait(now, status.next_reset, v.config),
                        WaitReasonView::QuotaExhausted(status.next_reset),
                    ),
                    seen: current,
                    ..v
                },
                QuotaState::Unknown => MonitorView {
                    phase: PhaseView::Waiting(poll, WaitReasonView::QuotaUnknown),
                    seen: current,
                    ..v
                },
            }
        },
        WatchState::Resuming => MonitorView {
            state: WatchState::Verifying,
            phase: PhaseView::SendingResume,
            seen: current,
            ..v
        },
        WatchState::Verifying => if regex_is_match(usage_pattern(), fresh) {
            MonitorView {
                state: WatchState::Limited,
                phase: PhaseView::Waiting(poll, WaitReasonView::StillLimited),
                seen: current,
                ..v
            }
        } else {
            MonitorView { state: WatchState::Running, phase: PhaseView::CheckingPane, seen: current, ..v }
        },
    }
}

/// The view after an event.
pub open spec fn next_view(v: MonitorView, e: MonitorEventView) -> MonitorView {
    let count = v.config.status_refresh_count;
    if v.phase is Done {
        v
    } else {
        match e {
            MonitorEventView::PaneGone => MonitorView { phase: PhaseView::Done, ..v },
            MonitorEventView::PanePresent => if v.phase is CheckingPane {
                if v.state == WatchState::Running {
                    MonitorView { phase: PhaseView::Watching, ..v }
                } else {
                    start_refresh(v)
                }
            } else {
                after_failure(v)
            },
            MonitorEventView::Captured(text, now) => if v.phase is Capturing {
                after_capture(v, text, now)
            } else {
                after_failure(v)
            },
            MonitorEventView::Attached(attached) => if v.phase is CheckingClients {
                if attached {
                    MonitorView { phase: PhaseView::AwaitingDetach(!v.announced), announced: true, ..v }
                } else if v.state == WatchState::Limited {
                    if v.sent < count {
                        MonitorView { phase: PhaseView::SendingStatus, sent: (v.sent + 1) as u32, ..v }
                    } else {
                        MonitorView { phase: PhaseView::Capturing, ..v }
                    }
                } else if v.state == WatchState::Resuming {
                    MonitorView { phase: PhaseView::Capturing, ..v }
                } else {
                    after_failure(v)
                }
            } else {
                after_failure(v)
            },
            MonitorEventView::Sent => match v.phase {
                PhaseView::SendingStatus => MonitorView { phase: PhaseView::StatusDelay, ..v },
                PhaseView::SendingResume => MonitorView { phase: PhaseView::ResumeDelay, ..v },
                _ => after_failure(v),
            },
            MonitorEventView::Slept => match v.phase {
                PhaseView::Watching => MonitorView { phase: PhaseView::Capturing, ..v },
                PhaseView::AwaitingDetach(_) => MonitorView { phase: PhaseView::CheckingClients, ..v },
                PhaseView::StatusDelay => if v.sent < count {
                    MonitorView { phase: PhaseView::CheckingClients, announced: false, ..v }
                } else {
                    MonitorView { phase: PhaseView::Capturing, ..v }
                },
                PhaseView::ResumeDelay => MonitorView { phase: PhaseView::Capturing, ..v },
                PhaseView::Waiting(_, _) => MonitorView { phase: PhaseView::CheckingPane, ..v },
                _ => after_failure(v),
            },
            MonitorEventView::Failed => after_failure(v),
        }
    }
}

/// One step of the watchdog: the next view and the action it calls for.
pub open spec fn transition(v: MonitorView, e: MonitorEventView) -> (MonitorView, MonitorActionView) {
    let w = next_view(v, e);
    (w, action_of(w))
}

/// The watchdog: its state and phase, the refresh count, the capture
/// tracker and its settings.
pub struct Monitor {
    state: WatchState,
    phase: Phase,
    sent: u32,
    announced: bool,
    tracker: CaptureTracker,
    config: MonitorConfig,
}

impl View for Monitor {
    type V = MonitorView;

    closed spec fn view(&self) -> MonitorView {
        MonitorView {
            state: self.state,
            phase: self.phase@,
            sent: self.sent,
            announced: self.announced,
            seen: self.tracker@,
            config: self.config,
        }
    }
}

impl Monitor {
    /// A watchdog in the Running state that has seen the initial capture and
    /// first checks the pane.
    pub fn new(config: MonitorConfig, initial_capture: &str) -> (m: Monitor)
        ensures
            m@.state == WatchState::Running,
            m@.phase == PhaseView::CheckingPane,
            m@.sent == 0,
            !m@.announced,
            m@.seen == lines(initial_capture@),
            m@.config == config,
    {
        let mut tracker = CaptureTracker::new();
        let _ = tracker.observe(initial_capture);
        Monitor {
            state: WatchState::Running,
            phase: Phase::CheckingPane,
            sent: 0,
            announced: false,
            tracker,
            config,
        }
    }

    /// The current state.
    pub fn state(&self) -> (s: WatchState)
        ensures
            s == self@.state,
    {
        self.state
    }

    /// The settings.
    pub fn config(&self) -> (c: MonitorConfig)
        ensures
            c == self@.config,
    {
        self.config
    }

    /// The action the current phase calls for.
    pub fn action(&self) -> (a: MonitorAction)
        ensures
            a@ == action_of(self@),
    {
        match &self.phase {
            Phase::CheckingPane => MonitorAction::CheckPane,
            Phase::Watching => MonitorAction::Sleep(self.config.watch_interval, SleepReason::WatchInterval),
            Phase::Capturing => MonitorAction::Capture,
            Phase::CheckingClients => MonitorAction::CheckAttached,
            Phase::AwaitingDetach(first) => MonitorAction::Sleep(1, SleepReason::ClientsAttached(*first)),
            Phase::SendingStatus => MonitorAction::SendStatus(self.sent),
            Phase::StatusDelay => MonitorAction::Sleep(
                self.config.status_refresh_delay,
                SleepReason::StatusDelay,
            ),
            Phase::SendingResume => MonitorAction::SendGoalResume,
            Phase::ResumeDelay => MonitorAction::Sleep(15, SleepReason::ResumeDelay),
            Phase::Waiting(secs, reason) => MonitorAction::Wait(*secs, copy_reason(reason)),
            Phase::Done => MonitorAction::Exit,
        }
    }

    fn fail(&mut self)
        ensures
            final(self)@ == after_failure(old(self)@),
    {
        let poll = WaitTime { secs: self.config.poll_interval, nanos: 0 };
        match self.state {
            WatchState::Running => {
                self.phase = Phase::CheckingPane;
            },
            WatchState::Limited => {
                self.phase = Phase::Waiting(poll, WaitReason::StatusFailed);
            },
            _ => {
                self.state = WatchState::Limited;
                self.phase = Phase::Waiting(poll, WaitReason::ResumeFailed);
            },
        }
    }

    fn capture(&mut self, text: &str, now: &ZonedTime)
        ensures
            final(self)@ == after_capture(old(self)@, text@, now@),
    {
        let fresh = self.tracker.observe(text);
        let poll = WaitTime { secs: self.config.poll_interval, nanos: 0 };
        match self.state {
            WatchState::Running => {
                if contains_usage_limit(fresh.as_str()) {
                    self.state = WatchState::Limited;
                }
                self.phase = Phase::CheckingPane;
            },
            WatchState::Limited => {
                let status = parse_latest_status(text, now.clone());
                match status.quota {
                    QuotaState::Available => {
                        self.state = WatchState::Resuming;
                        self.phase = Phase::CheckingClients;
                        self.announced = false;
                    },
                    QuotaState::Exhausted => {
                        let wait = match checked_next_wait(now, &status.next_reset, &self.config) {
                            Some(w) => w,
                            None => poll,
                        };
                        self.phase = Phase::Waiting(wait, WaitReason::QuotaExhausted(status.next_reset));
                    },
                    QuotaState::Unknown => {
                        self.phase = Phase::Waiting(poll, WaitReason::QuotaUnknown);
                    },
                }
            },
            WatchState::Resuming => {
                self.state = WatchState::Verifying;
                self.phase = Phase::SendingResume;
            },
            WatchState::Verifying => {
                if contains_usage_limit(fresh.as_str()) {
                    self.state = WatchState::Limited;
                    self.phase = Phase::Waiting(poll, WaitReason::StillLimited);
                } else {
                    self.state = WatchState::Running;
                    self.phase = Phase::CheckingPane;
                }
            },
        }
    }

    /// Takes one step (see [`transition`]) and returns the next action.
    pub fn step(&mut self, event: MonitorEvent) -> (action: MonitorAction)
        ensures
            (final(self)@, action@) == transition(old(self)@, event@),
    {
        let count = self.config.status_refresh_count;
        if let Phase::Done = self.phase {
            return MonitorAction::Exit;
        }
        match event {
            MonitorEvent::PaneGone => {
                self.phase = Phase::Done;
            },
            MonitorEvent::PanePresent => {
                if let Phase::CheckingPane = self.phase {
                    if self.state == WatchState::Running {
                        self.phase = Phase::Watching;
                    } else {
                        self.state = WatchState::Limited;
                        self.sent = 0;
                        if 0 < count {
                            self.phase = Phase::CheckingClients;
                            self.announced = false;
                        } else {
                            self.phase = Phase::Capturing;
                        }
                    }
                } else {
                    self.fail();
                }
            },
            MonitorEvent::Captured(text, now) => {
                if let Phase::Capturing = self.phase {
                    self.capture(text.as_str(), &now);
                } else {
                    self.fail();
                }
            },
            MonitorEvent::Attached(attached) => {
                if let Phase::CheckingClients = self.phase {
                    if attached {
                        self.phase = Phase::AwaitingDetach(!self.announced);
                        self.announced = true;
                    } else if self.state == WatchState::Limited {
                        if self.sent < count {
                            self.phase = Phase::SendingStatus;
                            self.sent = self.sent + 1;
                        } else {
                            self.phase = Phase::Capturing;
                        }
                    } else if self.state == WatchState::Resuming {
                        self.phase = Phase::Capturing;
                    } else {
                        self.fail();
                    }
                } else {
                    self.fail();
                }
            },
            MonitorEvent::Sent => {
                match self.phase {
                    Phase::SendingStatus => {
                        self.phase = Phase::StatusDelay;
                    },
                    Phase::SendingResume => {
                        self.phase = Phase::ResumeDelay;
                    },
                    _ => {
                        self.fail();
                    },
                }
            },
            MonitorEvent::Slept => {
                match self.phase {
                    Phase::Watching => {
                        self.phase = Phase::Capturing;
                    },
                    Phase::AwaitingDetach(_) => {
                        self.phase = Phase::CheckingClients;
                    },
                    Phase::StatusDelay => {
                        if self.sent < count {
                            self.phase = Phase::CheckingClients;
                            self.announced = false;
                        } else {
                            self.phase = Phase::Capturing;
                        }
                    },
                    Phase::ResumeDelay => {
                        self.phase = Phase::Capturing;
                    },
                    Phase::Waiting(_, _) => {
                        self.phase = Phase::CheckingPane;
                    },
                    _ => {
                        self.fail();
                    },
                }
            },
            MonitorEvent::Failed => {
                self.fail();
            },
        }
        self.action()
    }
}


// ---------------------------------------------------------------------------
// Laws of the state machine
// ---------------------------------------------------------------------------

/// `/status` is typed only right after tmux reported no attached client,
/// during a status refresh; `/goal resume` only right after the capture that
/// follows such a report while resuming.
pub proof fn lemma_sends_only_when_detached(v: MonitorView, e: MonitorEventView)
    requires
        monitor_invariant(v),
    ensures
        transition(v, e).1 is SendStatus ==> e == MonitorEventView::Attached(false) && v.phase
            == PhaseView::CheckingClients && v.state == WatchState::Limited,
        transition(v, e).1 is SendGoalResume ==> e is Captured && v.phase == PhaseView::Capturing
            && v.state == WatchState::Resuming,
        (transition(v, e).0.state == WatchState::Resuming && transition(v, e).0.phase
            == PhaseView::Capturing) ==> e == MonitorEventView::Attached(false) && v.phase
            == PhaseView::CheckingClients && v.state == WatchState::Resuming,
{
}

/// Every `/status` is followed by a sleep of the status refresh delay.
pub proof fn lemma_status_followed_by_delay(v: MonitorView)
    requires
        v.phase == PhaseView::SendingStatus,
    ensures
        transition(v, MonitorEventView::Sent).1 == MonitorActionView::Sleep(
            v.config.status_refresh_delay,
            SleepReason::StatusDelay,
        ),
{
}

/// The state changes only as the watchdog's rules say: it becomes Limited
/// from Running only on a usage-limit message among the lines new in a
/// capture; Resuming only from Limited on an available quota; Running again
/// only after `/goal resume` when no usage-limit message is among the new
/// lines; and a missing pane always ends the watch.
pub proof fn lemma_state_changes(v: MonitorView, e: MonitorEventView)
    ensures
        ({
            let w = transition(v, e).0;
            &&& (v.state == WatchState::Running && w.state == WatchState::Limited) ==> (e matches MonitorEventView::Captured(text, now) && v.phase == PhaseView::Capturing
                && regex_is_match(usage_pattern(), fresh_text(v.seen, lines(text))))
            &&& (v.state != WatchState::Resuming && w.state == WatchState::Resuming) ==> (
            e matches MonitorEventView::Captured(text, now) && v.state == WatchState::Limited
                && v.phase == PhaseView::Capturing && latest_status(text, now).quota
                == QuotaState::Available)
            &&& (v.state != WatchState::Running && w.state == WatchState::Running) ==> (
            e matches MonitorEventView::Captured(text, now) && v.state == WatchState::Verifying
                && v.phase == PhaseView::Capturing && !regex_is_match(
                usage_pattern(),
                fresh_text(v.seen, lines(text)),
            ))
            &&& e == MonitorEventView::PaneGone ==> transition(v, e).1 == MonitorActionView::Exit
        }),
{
}

/// Every wait is at most the poll interval: the quota is checked at least
/// once per poll interval.
pub proof fn lemma_waits_within_poll_interval(v: MonitorView, e: MonitorEventView)
    requires
        v.phase matches PhaseView::Waiting(w, _) ==> wait_nanos(w) <= v.config.poll_interval
            * nanos_per_sec(),
    ensures
        transition(v, e).1 matches MonitorActionView::Wait(w, _) ==> wait_nanos(w)
            <= v.config.poll_interval * nanos_per_sec(),
        transition(v, e).0.phase matches PhaseView::Waiting(w, _) ==> wait_nanos(w)
            <= transition(v, e).0.config.poll_interval * nanos_per_sec(),
{
    match e {
        MonitorEventView::Captured(text, now) => {
            let status = latest_status(text, now);
            let poll = v.config.poll_interval;
            lemma_wait_within_poll_interval(now, status.next_reset, poll, v.config.reset_grace);
            let d = wait_duration(now, status.next_reset, poll, v.config.reset_grace);
            assert(d <= u64::MAX * nanos_per_sec()) by (nonlinear_arith)
                requires
                    d <= poll * 1_000_000_000,
                    poll <= u64::MAX,
            ;
            lemma_wait_time_of(d);
        },
        _ => {},
    }
}

/// The views and actions of a run of events.
pub open spec fn run(v: MonitorView, es: Seq<MonitorEventView>) -> (MonitorView, Seq<MonitorActionView>)
    decreases es.len(),
{
    if es.len() == 0 {
        (v, Seq::empty())
    } else {
        let (w, a) = transition(v, es[0]);
        let (z, rest) = run(w, es.skip(1));
        (z, seq![a] + rest)
    }
}

/// Running one more event after a run: the view after it is one step from
/// the view the run ends in, and its action comes last.
pub proof fn lemma_run_push(v: MonitorView, es: Seq<MonitorEventView>, e: MonitorEventView)
    ensures
        run(v, es.push(e)).0 == transition(run(v, es).0, e).0,
        run(v, es.push(e)).1 == run(v, es).1.push(transition(run(v, es).0, e).1),
    decreases es.len(),
{
    let w = transition(v, es.push(e)[0]).0;
    let a = transition(v, es.push(e)[0]).1;
    if es.len() == 0 {
        assert(es.push(e)[0] == e);
        assert(es.push(e).skip(1) =~= Seq::<MonitorEventView>::empty());
        assert(run(w, es.push(e).skip(1)) == (w, Seq::<MonitorActionView>::empty()));
        assert(run(v, es) == (v, Seq::<MonitorActionView>::empty()));
        assert(seq![a] + Seq::<MonitorActionView>::empty() =~= Seq::<MonitorActionView>::empty().push(
            a,
        ));
    } else {
        assert(es.push(e)[0] == es[0]);
        assert(es.push(e).skip(1) =~= es.skip(1).push(e));
        lemma_run_push(w, es.skip(1), e);
        let rest = run(w, es.skip(1)).1;
        let last = transition(run(w, es.skip(1)).0, e).1;
        assert(run(w, es.push(e).skip(1)) == (transition(run(w, es.skip(1)).0, e).0, rest.push(
            last,
        )));
        assert(run(v, es) == (run(w, es.skip(1)).0, seq![a] + rest));
        assert(seq![a] + rest.push(last) =~= (seq![a] + rest).push(last));
    }
}

/// Over any run of events, the state changes only as the watchdog's rules
/// say: from the view after the first `k` events to the view after `k + 1`,
/// Running becomes Limited only on a usage-limit message among the lines new
/// in a capture, Resuming is entered only from Limited on an available
/// quota, and Running is entered again only from Verifying on a capture with
/// no usage-limit message among its new lines.
pub proof fn lemma_run_state_changes(v: MonitorView, es: Seq<MonitorEventView>, k: int)
    requires
        0 <= k < es.len(),
    ensures
        ({
            let u = run(v, es.take(k)).0;
            let w = run(v, es.take(k + 1)).0;
            &&& (u.state == WatchState::Running && w.state == WatchState::Limited) ==> (es[k] matches MonitorEventView::Captured(text, now) && u.phase == PhaseView::Capturing
                && regex_is_match(usage_pattern(), fresh_text(u.seen, lines(text))))
            &&& (u.state != WatchState::Resuming && w.state == WatchState::Resuming) ==> (
            es[k] matches MonitorEventView::Captured(text, now) && u.state == WatchState::Limited
                && u.phase == PhaseView::Capturing && latest_status(text, now).quota
                == QuotaState::Available)
            &&& (u.state != WatchState::Running && w.state == WatchState::Running) ==> (
            es[k] matches MonitorEventView::Captured(text, now) && u.state == WatchState::Verifying
                && u.phase == PhaseView::Capturing && !regex_is_match(
                usage_pattern(),
                fresh_text(u.seen, lines(text)),
            ))
        }),
{
    assert(es.take(k + 1) =~= es.take(k).push(es[k]));
    lemma_run_push(v, es.take(k), es[k]);
    lemma_state_changes(run(v, es.take(k)).0, es[k]);
}

/// The number of `/status` requests among the actions.
pub open spec fn status_sends(acts: Seq<MonitorActionView>) -> nat
    decreases acts.len(),
{
    if acts.len() == 0 {
        0
    } else {
        (if acts[0] is SendStatus {
            1nat
        } else {
            0nat
        }) + status_sends(acts.skip(1))
    }
}

/// The event starts a status refresh: the pane was found while limited.
pub open spec fn starts_refresh(v: MonitorView, e: MonitorEventView) -> bool {
    v.phase == PhaseView::CheckingPane && v.state != WatchState::Running && e
        == MonitorEventView::PanePresent
}

/// No event of the run starts a status refresh.
pub open spec fn no_refresh_start(v: MonitorView, es: Seq<MonitorEventView>) -> bool
    decreases es.len(),
{
    es.len() == 0 || (!starts_refresh(v, es[0]) && no_refresh_start(transition(v, es[0]).0, es.skip(1)))
}

/// The phases that belong to each state.
pub open spec fn phase_fits(v: MonitorView) -> bool {
    match v.phase {
        PhaseView::Done | PhaseView::Capturing => true,
        PhaseView::CheckingPane => v.state == WatchState::Running || v.state == WatchState::Limited,
        PhaseView::Watching => v.state == WatchState::Running,
        PhaseView::CheckingClients | PhaseView::AwaitingDetach(_) => v.state == WatchState::Limited
            || v.state == WatchState::Resuming,
        PhaseView::SendingStatus | PhaseView::StatusDelay | PhaseView::Waiting(_, _) => v.state
            == WatchState::Limited,
        PhaseView::SendingResume | PhaseView::ResumeDelay => v.state == WatchState::Verifying,
    }
}

/// What every reachable view satisfies: its phase belongs to its state, at
/// most the configured number of `/status` requests per refresh, and all of
/// them sent once the status is captured.
pub open spec fn monitor_invariant(v: MonitorView) -> bool {
    &&& phase_fits(v)
    &&& v.sent <= v.config.status_refresh_count
    &&& (v.state == WatchState::Limited && v.phase == PhaseView::Capturing) ==> v.sent
        == v.config.status_refresh_count
}

/// A new watchdog satisfies the invariant.
pub proof fn lemma_new_monitor_invariant(v: MonitorView)
    requires
        v.state == WatchState::Running,
        v.phase == PhaseView::CheckingPane,
        v.sent == 0,
    ensures
        monitor_invariant(v),
{
}

/// Every step keeps the invariant and the settings.
pub proof fn lemma_step_monitor_invariant(v: MonitorView, e: MonitorEventView)
    requires
        monitor_invariant(v),
    ensures
        monitor_invariant(transition(v, e).0),
        transition(v, e).0.config == v.config,
{
}

/// Outside the start of a refresh, a step adds one to the refresh count
/// exactly when it asks for a `/status`, and keeps it otherwise.
pub proof fn lemma_step_counts(v: MonitorView, e: MonitorEventView)
    requires
        !starts_refresh(v, e),
    ensures
        transition(v, e).0.sent == v.sent + if transition(v, e).1 is SendStatus {
            1int
        } else {
            0int
        },
{
}

/// Within a run that starts no refresh, the refresh count grows by the
/// number of `/status` requests, and the invariant holds throughout.
pub proof fn lemma_run_counts(v: MonitorView, es: Seq<MonitorEventView>)
    requires
        monitor_invariant(v),
        no_refresh_start(v, es),
    ensures
        run(v, es).0.sent == v.sent + status_sends(run(v, es).1),
        monitor_invariant(run(v, es).0),
        run(v, es).0.config == v.config,
    decreases es.len(),
{
    if es.len() > 0 {
        let w = transition(v, es[0]).0;
        lemma_step_counts(v, es[0]);
        lemma_step_monitor_invariant(v, es[0]);
        lemma_run_counts(w, es.skip(1));
        let acts = run(v, es).1;
        assert(acts.skip(1) =~= run(w, es.skip(1)).1);
    }
}

/// A status refresh types `/status` exactly as many times as configured
/// before the capture that is read as the status: in a run that starts a
/// refresh and starts no other, and ends about to capture the status, the
/// actions hold exactly `status_refresh_count` `/status` requests.
pub proof fn lemma_refresh_sends_configured_count(v: MonitorView, es: Seq<MonitorEventView>)
    requires
        monitor_invariant(v),
        es.len() > 0,
        starts_refresh(v, es[0]),
        no_refresh_start(transition(v, es[0]).0, es.skip(1)),
        run(v, es).0.state == WatchState::Limited,
        run(v, es).0.phase == PhaseView::Capturing,
    ensures
        status_sends(run(v, es).1) == v.config.status_refresh_count,
{
    let w = transition(v, es[0]).0;
    lemma_step_monitor_invariant(v, es[0]);
    assert(w.sent == 0);
    lemma_run_counts(w, es.skip(1));
    let acts = run(v, es).1;
    assert(acts.skip(1) =~= run(w, es.skip(1)).1);
    assert(!(acts[0] is SendStatus));
}

} // verus!
