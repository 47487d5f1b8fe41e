//! Laws over whole runs of the watchdog: what holds of every sequence of
//! events that the program's loop can report to a new watchdog.

use crate::monitor::{
    action_of, lemma_run_push, lemma_sends_only_when_detached, lemma_state_changes,
    lemma_step_counts, lemma_step_monitor_invariant, lemma_waits_within_poll_interval,
    monitor_invariant, nanos_per_sec, run, starts_refresh, status_sends, transition, typed_line,
    wait_nanos, exhausted_wait, lemma_unknown_reset_waits_poll_interval, max_delta_secs,
    MonitorActionView,
    MonitorEventView, MonitorView, PhaseView, WaitReasonView, WaitTime, WatchState,
};
use crate::time::ZonedTimeView;
use crate::pattern::regex_is_match;
use crate::status::{latest_status, usage_pattern, QuotaState};
use crate::text::lines;
use crate::tracker::fresh_text;
use vstd::prelude::*;

verus! {

/// A new watchdog (see `Monitor::new`): running, about to check the pane,
/// no `/status` sent.
pub open spec fn fresh_monitor(v: MonitorView) -> bool {
    v.state == WatchState::Running && v.phase == PhaseView::CheckingPane && v.sent == 0
}

/// The view after the first `k` events of `es`.
pub open spec fn view_at(v: MonitorView, es: Seq<MonitorEventView>, k: int) -> MonitorView {
    run(v, es.take(k)).0
}

/// The actions of the run, one for each event.
pub open spec fn actions(v: MonitorView, es: Seq<MonitorEventView>) -> Seq<MonitorActionView> {
    run(v, es).1
}

/// Whether the pane was reported gone among the first `k` events.
pub open spec fn gone_within(es: Seq<MonitorEventView>, k: int) -> bool {
    exists|j: int| 0 <= j < k && es[j] == MonitorEventView::PaneGone
}

/// The index of the last of the first `k` events that started a status
/// refresh, or -1 where none did.
pub open spec fn last_refresh_start(v: MonitorView, es: Seq<MonitorEventView>, k: int) -> int
    decreases k,
{
    if k <= 0 {
        -1
    } else if starts_refresh(view_at(v, es, k - 1), es[k - 1]) {
        k - 1
    } else {
        last_refresh_start(v, es, k - 1)
    }
}

/// The index of the last of the first `k` events that made the watchdog
/// resume (its view before was not Resuming, after it Resuming), or -1.
pub open spec fn entered_resuming(v: MonitorView, es: Seq<MonitorEventView>, k: int) -> int
    decreases k,
{
    if k <= 0 {
        -1
    } else if view_at(v, es, k - 1).state != WatchState::Resuming && view_at(v, es, k).state
        == WatchState::Resuming {
        k - 1
    } else {
        entered_resuming(v, es, k - 1)
    }
}

/// The last index `m < k` at which the view was Running, or -1.
pub open spec fn last_running(v: MonitorView, es: Seq<MonitorEventView>, k: int) -> int
    decreases k,
{
    if k <= 0 {
        -1
    } else if view_at(v, es, k - 1).state == WatchState::Running {
        k - 1
    } else {
        last_running(v, es, k - 1)
    }
}

/// The actions of a prefix of a run are the prefix of its actions, one for
/// each event.
pub proof fn lemma_run_prefix(v: MonitorView, es: Seq<MonitorEventView>, m: int)
    requires
        0 <= m <= es.len(),
    ensures
        run(v, es).1.len() == es.len(),
        run(v, es.take(m)).1 == run(v, es).1.take(m),
    decreases es.len(),
{
    if es.len() == 0 {
        assert(es.take(m) =~= es);
        assert(run(v, es).1.take(m) =~= run(v, es).1);
    } else {
        let init = es.drop_last();
        let e = es.last();
        assert(init.push(e) =~= es);
        lemma_run_push(v, init, e);
        lemma_run_prefix(v, init, 0);
        if m <= init.len() {
            lemma_run_prefix(v, init, m);
            assert(es.take(m) =~= init.take(m));
            assert(run(v, es).1.take(m) =~= run(v, init).1.take(m));
        } else {
            assert(es.take(m) =~= es);
            assert(run(v, es).1.take(m) =~= run(v, es).1);
        }
    }
}

/// The view before any event is the start.
pub proof fn lemma_view_at_start(v: MonitorView, es: Seq<MonitorEventView>)
    ensures
        view_at(v, es, 0) == v,
{
    assert(es.take(0) =~= Seq::<MonitorEventView>::empty());
}

/// Event `k` takes the view after `k` events one step further, and the
/// action of that step is action `k` of the run.
pub proof fn lemma_run_step(v: MonitorView, es: Seq<MonitorEventView>, k: int)
    requires
        0 <= k < es.len(),
    ensures
        view_at(v, es, k + 1) == transition(view_at(v, es, k), es[k]).0,
        actions(v, es).len() == es.len(),
        actions(v, es)[k] == transition(view_at(v, es, k), es[k]).1,
        actions(v, es)[k] == action_of(view_at(v, es, k + 1)),
{
    assert(es.take(k + 1) =~= es.take(k).push(es[k]));
    lemma_run_push(v, es.take(k), es[k]);
    lemma_run_prefix(v, es, k + 1);
    lemma_run_prefix(v, es.take(k), 0);
    assert(run(v, es).1[k] == run(v, es).1.take(k + 1)[k]);
}

/// Counting `/status` requests one action at a time.
proof fn lemma_status_sends_push(a: Seq<MonitorActionView>, x: MonitorActionView)
    ensures
        status_sends(a.push(x)) == status_sends(a) + if x is SendStatus {
            1int
        } else {
            0int
        },
    decreases a.len(),
{
    let b = a.push(x);
    if a.len() == 0 {
        assert(b.skip(1) =~= Seq::<MonitorActionView>::empty());
        assert(status_sends(b.skip(1)) == 0);
        assert(b[0] == x);
        assert(status_sends(a) == 0);
    } else {
        lemma_status_sends_push(a.skip(1), x);
        assert(b.skip(1) =~= a.skip(1).push(x));
        assert(b[0] == a[0]);
        assert(status_sends(b) == (if b[0] is SendStatus {
            1nat
        } else {
            0nat
        }) + status_sends(b.skip(1)));
    }
}


/// Before any status refresh: running, or limited and about to check the
/// pane, waiting or finished.
pub open spec fn before_refresh(u: MonitorView) -> bool {
    u.state == WatchState::Running || (u.state == WatchState::Limited && (u.phase is CheckingPane
        || u.phase is Waiting || u.phase is Done))
}

/// What holds of the view after the first `k` events of a run from a new
/// watchdog.
pub open spec fn run_facts(v: MonitorView, es: Seq<MonitorEventView>, k: int) -> bool {
    let u = view_at(v, es, k);
    let s = last_refresh_start(v, es, k);
    let j = entered_resuming(v, es, k);
    let m = last_running(v, es, k);
    &&& monitor_invariant(u)
    &&& u.config == v.config
    &&& (u.phase matches PhaseView::Waiting(w, _) ==> wait_nanos(w) <= v.config.poll_interval
        * nanos_per_sec())
    &&& (u.phase is Done <==> gone_within(es, k))
    &&& (s == -1 ==> before_refresh(u) && u.sent == 0)
    &&& (s >= 0 ==> u.sent == status_sends(actions(v, es).subrange(s, k)))
    &&& (u.state == WatchState::Resuming ==> 0 <= j < k && (es[j] matches MonitorEventView::Captured(
        text,
        now,
    ) && latest_status(text, now).quota == QuotaState::Available) && view_at(v, es, j).state
        == WatchState::Limited && view_at(v, es, j).phase == PhaseView::Capturing)
    &&& (u.state != WatchState::Running ==> 0 <= m < k && view_at(v, es, m).state
        == WatchState::Running && (es[m] matches MonitorEventView::Captured(text, now)
        && regex_is_match(usage_pattern(), fresh_text(view_at(v, es, m).seen, lines(text))))
        && forall|i: int| m < i <= k ==> #[trigger] view_at(v, es, i).state != WatchState::Running)
}

/// The last refresh start among the first `k` events comes before event `k`,
/// started a refresh, and no later one of them did.
pub proof fn lemma_last_refresh_start(v: MonitorView, es: Seq<MonitorEventView>, k: int)
    requires
        0 <= k,
    ensures
        -1 <= last_refresh_start(v, es, k) < k,
        last_refresh_start(v, es, k) >= 0 ==> starts_refresh(
            view_at(v, es, last_refresh_start(v, es, k)),
            es[last_refresh_start(v, es, k)],
        ),
        forall|i: int|
            last_refresh_start(v, es, k) < i < k ==> !starts_refresh(
                #[trigger] view_at(v, es, i),
                es[i],
            ),
    decreases k,
{
    if k > 0 && !starts_refresh(view_at(v, es, k - 1), es[k - 1]) {
        lemma_last_refresh_start(v, es, k - 1);
    }
}

/// Before any refresh, a step that starts none stays before any refresh and
/// sends no `/status`.
proof fn lemma_before_refresh_step(u: MonitorView, e: MonitorEventView)
    requires
        before_refresh(u),
        monitor_invariant(u),
        !starts_refresh(u, e),
    ensures
        before_refresh(transition(u, e).0),
        !(transition(u, e).1 is SendStatus),
{
    match e {
        MonitorEventView::Captured(text, now) => {},
        MonitorEventView::Attached(b) => {},
        _ => {},
    }
}

/// One step keeps the facts of a run.
#[verifier::rlimit(40)]
proof fn lemma_run_facts_step(v: MonitorView, es: Seq<MonitorEventView>, k: int)
    requires
        fresh_monitor(v),
        0 <= k < es.len(),
        run_facts(v, es, k),
    ensures
        run_facts(v, es, k + 1),
{
    lemma_run_step(v, es, k);
    let u = view_at(v, es, k);
    let e = es[k];
    let w = view_at(v, es, k + 1);
    let acts = actions(v, es);
    let a = acts[k];
    assert(w == transition(u, e).0);
    assert(a == transition(u, e).1);
    lemma_step_monitor_invariant(u, e);
    lemma_waits_within_poll_interval(u, e);
    lemma_state_changes(u, e);
    // the pane reported gone
    if e == MonitorEventView::PaneGone {
        assert(0 <= k < k + 1 && es[k] == MonitorEventView::PaneGone);
        assert(gone_within(es, k + 1));
    } else {
        if gone_within(es, k + 1) {
            let g = choose|g: int| 0 <= g < k + 1 && es[g] == MonitorEventView::PaneGone;
            assert(g != k);
            assert(gone_within(es, k));
        }
        if gone_within(es, k) {
            let g = choose|g: int| 0 <= g < k && es[g] == MonitorEventView::PaneGone;
            assert(0 <= g < k + 1 && es[g] == MonitorEventView::PaneGone);
            assert(gone_within(es, k + 1));
        }
    }
    // the refresh count
    let s = last_refresh_start(v, es, k);
    lemma_last_refresh_start(v, es, k);
    if starts_refresh(u, e) {
        assert(last_refresh_start(v, es, k + 1) == k);
        assert(w.sent == 0);
        assert(!(a is SendStatus));
        assert(acts.subrange(k, k + 1) =~= Seq::<MonitorActionView>::empty().push(a));
        lemma_status_sends_push(Seq::<MonitorActionView>::empty(), a);
    } else {
        assert(last_refresh_start(v, es, k + 1) == s);
        lemma_step_counts(u, e);
        if s >= 0 {
            assert(acts.subrange(s, k + 1) =~= acts.subrange(s, k).push(a));
            lemma_status_sends_push(acts.subrange(s, k), a);
        } else {
            lemma_before_refresh_step(u, e);
        }
    }
    // resuming
    if w.state == WatchState::Resuming && u.state != WatchState::Resuming {
        assert(entered_resuming(v, es, k + 1) == k);
    }
    if w.state == WatchState::Resuming && u.state == WatchState::Resuming {
        assert(entered_resuming(v, es, k + 1) == entered_resuming(v, es, k));
    }
    // the last running view
    if w.state != WatchState::Running {
        if u.state == WatchState::Running {
            assert(w.state == WatchState::Limited);
            assert(last_running(v, es, k + 1) == k);
            assert forall|i: int| k < i <= k + 1 implies #[trigger] view_at(v, es, i).state
                != WatchState::Running by {
                assert(i == k + 1);
            }
        } else {
            let m = last_running(v, es, k);
            assert(last_running(v, es, k + 1) == m);
            assert forall|i: int| m < i <= k + 1 implies #[trigger] view_at(v, es, i).state
                != WatchState::Running by {
                if i <= k {
                    assert(view_at(v, es, i).state != WatchState::Running);
                }
            }
        }
    }
}

/// The facts hold after every prefix of a run from a new watchdog.
pub proof fn lemma_run_facts(v: MonitorView, es: Seq<MonitorEventView>, k: int)
    requires
        fresh_monitor(v),
        0 <= k <= es.len(),
    ensures
        run_facts(v, es, k),
    decreases k,
{
    if k == 0 {
        lemma_view_at_start(v, es);
        assert(!gone_within(es, 0));
    } else {
        lemma_run_facts(v, es, k - 1);
        lemma_run_facts_step(v, es, k - 1);
    }
}

// ---------------------------------------------------------------------------
// Laws of every run from a new watchdog
// ---------------------------------------------------------------------------

/// Nothing is typed while a client is attached: every `/status` answers a
/// check for attached clients that found none, and every `/goal resume`
/// follows such a check with only the baseline capture in between. So
/// between any two lines typed there is a check that found no client.
#[verifier::rlimit(30)]
pub proof fn lemma_run_sends_only_when_detached(v: MonitorView, es: Seq<MonitorEventView>, k: int)
    requires
        fresh_monitor(v),
        0 <= k < es.len(),
    ensures
        actions(v, es)[k] is SendStatus ==> 1 <= k && actions(v, es)[k - 1]
            == MonitorActionView::CheckAttached && es[k] == MonitorEventView::Attached(false),
        actions(v, es)[k] is SendGoalResume ==> 2 <= k && actions(v, es)[k - 2]
            == MonitorActionView::CheckAttached && es[k - 1] == MonitorEventView::Attached(false)
            && actions(v, es)[k - 1] == MonitorActionView::Capture,
{
    let acts = actions(v, es);
    lemma_view_at_start(v, es);
    lemma_run_step(v, es, k);
    if acts[k] is SendStatus || acts[k] is SendGoalResume {
        lemma_run_facts(v, es, k);
        lemma_sends_only_when_detached(view_at(v, es, k), es[k]);
        assert(k >= 1);
        lemma_run_step(v, es, k - 1);
        if acts[k] is SendGoalResume {
            lemma_run_facts(v, es, k - 1);
            lemma_sends_only_when_detached(view_at(v, es, k - 1), es[k - 1]);
            assert(k >= 2);
            lemma_run_step(v, es, k - 2);
        }
    }
}

/// The only lines typed into the pane are `/status` and `/goal resume`.
pub proof fn lemma_run_types_only_status_and_resume(
    v: MonitorView,
    es: Seq<MonitorEventView>,
    k: int,
)
    requires
        0 <= k < es.len(),
    ensures
        typed_line(actions(v, es)[k]) matches Some(l) ==> l == "/status"@ || l
            == "/goal resume"@,
{
}

/// `/goal resume` follows a detected limit and an available quota: before
/// each `/goal resume` lies the capture (event `j`) at which the watchdog
/// resumed, which read an available quota as the status, and before it a
/// status refresh (started by event `s`, with no later start) whose actions
/// up to that capture hold exactly `status_refresh_count` `/status`
/// requests.
pub proof fn lemma_run_resume_after_refresh(v: MonitorView, es: Seq<MonitorEventView>, k: int)
    requires
        fresh_monitor(v),
        0 <= k < es.len(),
    ensures
        actions(v, es)[k] is SendGoalResume ==> ({
            let j = entered_resuming(v, es, k);
            let s = last_refresh_start(v, es, j);
            &&& 0 <= s < j < k
            &&& starts_refresh(view_at(v, es, s), es[s])
            &&& forall|i: int| s < i < j ==> !starts_refresh(#[trigger] view_at(v, es, i), es[i])
            &&& status_sends(actions(v, es).subrange(s, j)) == v.config.status_refresh_count
            &&& view_at(v, es, j).state == WatchState::Limited
            &&& view_at(v, es, j).phase == PhaseView::Capturing
            &&& es[j] matches MonitorEventView::Captured(text, now) && latest_status(text, now).quota
                == QuotaState::Available
        }),
{
    if actions(v, es)[k] is SendGoalResume {
        lemma_run_facts(v, es, k);
        lemma_run_step(v, es, k);
        lemma_sends_only_when_detached(view_at(v, es, k), es[k]);
        let j = entered_resuming(v, es, k);
        lemma_run_facts(v, es, j);
        lemma_last_refresh_start(v, es, j);
    }
}

/// Every line typed follows a usage-limit message: before each `/status`
/// or `/goal resume` lies a capture (event `m`) taken while running whose
/// new lines held a usage-limit message, and the watchdog has not run again
/// since. So the first line typed, and the first after each verified resume,
/// follow a detected limit.
pub proof fn lemma_run_sends_follow_usage_limit(v: MonitorView, es: Seq<MonitorEventView>, k: int)
    requires
        fresh_monitor(v),
        0 <= k < es.len(),
    ensures
        (actions(v, es)[k] is SendStatus || actions(v, es)[k] is SendGoalResume) ==> ({
            let m = last_running(v, es, k);
            &&& 0 <= m < k
            &&& view_at(v, es, m).state == WatchState::Running
            &&& es[m] matches MonitorEventView::Captured(text, now) && regex_is_match(
                usage_pattern(),
                fresh_text(view_at(v, es, m).seen, lines(text)),
            )
            &&& forall|i: int| m < i <= k ==> #[trigger] view_at(v, es, i).state != WatchState::Running
        }),
{
    lemma_run_facts(v, es, k);
    lemma_run_step(v, es, k);
    lemma_sends_only_when_detached(view_at(v, es, k), es[k]);
}

/// The watchdog stops exactly when the pane was reported gone: action `k`
/// is Exit if and only if one of the events up to `k` is PaneGone.
pub proof fn lemma_run_exits_only_when_pane_gone(v: MonitorView, es: Seq<MonitorEventView>, k: int)
    requires
        fresh_monitor(v),
        0 <= k < es.len(),
    ensures
        actions(v, es)[k] == MonitorActionView::Exit <==> gone_within(es, k + 1),
{
    lemma_run_facts(v, es, k + 1);
    lemma_run_step(v, es, k);
}

/// A failure is retried, never the end: while the pane was not reported
/// gone, a failed action is followed by checking the pane again or by a
/// wait of the poll interval.
pub proof fn lemma_run_failures_are_retried(v: MonitorView, es: Seq<MonitorEventView>, k: int)
    requires
        fresh_monitor(v),
        0 <= k < es.len(),
    ensures
        (es[k] == MonitorEventView::Failed && !gone_within(es, k)) ==> (actions(v, es)[k]
            == MonitorActionView::CheckPane || (actions(v, es)[k] matches MonitorActionView::Wait(
            w,
            _,
        ) && w == WaitTime { secs: v.config.poll_interval, nanos: 0 })),
{
    lemma_run_facts(v, es, k);
    lemma_run_step(v, es, k);
}

/// Every wait of a run is at most the poll interval: while limited, the
/// quota is checked again at least once per poll interval.
pub proof fn lemma_run_waits_within_poll_interval(v: MonitorView, es: Seq<MonitorEventView>, k: int)
    requires
        fresh_monitor(v),
        0 <= k < es.len(),
    ensures
        actions(v, es)[k] matches MonitorActionView::Wait(w, _) ==> wait_nanos(w)
            <= v.config.poll_interval * nanos_per_sec(),
{
    lemma_run_facts(v, es, k + 1);
    lemma_run_step(v, es, k);
}

/// An exhausted quota with no reset time shown is checked again after the
/// poll interval: the capture that reads such a status while limited is
/// answered by a wait of exactly `poll_interval` seconds (a poll interval
/// that chrono's `TimeDelta` cannot hold is left out).
pub proof fn lemma_exhausted_without_reset_waits_poll_interval(
    v: MonitorView,
    text: Seq<char>,
    now: ZonedTimeView,
)
    requires
        v.state == WatchState::Limited,
        v.phase == PhaseView::Capturing,
        v.config.poll_interval <= max_delta_secs(),
        latest_status(text, now).quota == QuotaState::Exhausted,
        latest_status(text, now).next_reset is None,
    ensures
        transition(v, MonitorEventView::Captured(text, now)).1 == MonitorActionView::Wait(
            WaitTime { secs: v.config.poll_interval, nanos: 0 },
            WaitReasonView::QuotaExhausted(None),
        ),
{
    lemma_unknown_reset_waits_poll_interval(now, v.config);
}

/// The status read while limited decides what comes next: an exhausted
/// quota waits until the earlier of the poll and reset deadlines (see
/// `lemma_exhausted_wait_is_earlier_deadline`), an unreadable status waits
/// the poll interval, and an available quota goes on to check for attached
/// clients before resuming.
pub proof fn lemma_status_decides_next_action(v: MonitorView, text: Seq<char>, now: ZonedTimeView)
    requires
        v.state == WatchState::Limited,
        v.phase == PhaseView::Capturing,
    ensures
        ({
            let status = latest_status(text, now);
            let (w, a) = transition(v, MonitorEventView::Captured(text, now));
            &&& status.quota == QuotaState::Exhausted ==> a == MonitorActionView::Wait(
                exhausted_wait(now, status.next_reset, v.config),
                WaitReasonView::QuotaExhausted(status.next_reset),
            ) && w.state == WatchState::Limited
            &&& status.quota == QuotaState::Unknown ==> a == MonitorActionView::Wait(
                WaitTime { secs: v.config.poll_interval, nanos: 0 },
                WaitReasonView::QuotaUnknown,
            ) && w.state == WatchState::Limited
            &&& status.quota == QuotaState::Available ==> a == MonitorActionView::CheckAttached
                && w.state == WatchState::Resuming
        }),
{
}

} // verus!
