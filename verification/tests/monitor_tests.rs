use codex_goal_resumer::monitor::{
    checked_next_wait, friendly_duration, next_wait, Monitor, MonitorAction, MonitorConfig,
    MonitorEvent, SleepReason, WaitReason, WaitTime, WatchState,
};
use codex_goal_resumer::time::{local_datetime, ZonedTime};
use codex_goal_resumer::tracker::{suffix_prefix_overlap, CaptureTracker};

fn config() -> MonitorConfig {
    MonitorConfig {
        watch_interval: 20,
        poll_interval: 1800,
        reset_grace: 10,
        status_refresh_count: 3,
        status_refresh_delay: 3,
    }
}

fn secs(s: u64) -> WaitTime {
    WaitTime { secs: s, nanos: 0 }
}

fn at(hour: u32, minute: u32) -> ZonedTime {
    local_datetime(0, 2026, 9, 11, hour, minute).unwrap()
}

#[test]
fn tracker_returns_only_scrolled_in_lines() {
    let mut tracker = CaptureTracker::default();
    assert_eq!(tracker.observe("old limit\nworking"), "");
    assert_eq!(tracker.observe("working\nnew output"), "new output");
}

#[test]
fn tracker_does_not_repeat_unchanged_capture() {
    let mut tracker = CaptureTracker::default();
    tracker.observe("usage limit reached");
    assert_eq!(tracker.observe("usage limit reached"), "");
}

#[test]
fn wait_uses_earlier_reset_deadline() {
    let now = at(16, 30);
    let reset = at(16, 37);
    assert_eq!(next_wait(&now, &Some(reset), &config()), secs(430));
}

#[test]
fn expired_reset_falls_back_to_poll_interval() {
    let now = at(16, 40);
    let reset = at(16, 37);
    assert_eq!(next_wait(&now, &Some(reset), &config()), secs(1800));
}

#[test]
fn wait_is_capped_by_poll_interval() {
    let now = at(14, 0);
    let reset = at(16, 37);
    assert_eq!(next_wait(&now, &Some(reset), &config()), secs(1800));
    assert_eq!(next_wait(&now, &None, &config()), secs(1800));
    assert_eq!(checked_next_wait(&now, &Some(at(14, 1)), &config()), Some(secs(70)));
}

#[test]
fn reset_just_passed_still_counts_with_grace() {
    let now = at(16, 37);
    let reset = ZonedTime::new(now.timestamp() - 5, 0).unwrap();
    assert_eq!(next_wait(&now, &Some(reset), &config()), secs(5));
}

#[test]
fn wait_counts_from_the_exact_instant() {
    let start = at(16, 30);
    let now = ZonedTime::new_with_nanos(start.timestamp(), 250_000_000, 0).unwrap();
    let reset = at(16, 37);
    assert_eq!(
        next_wait(&now, &Some(reset), &config()),
        WaitTime { secs: 429, nanos: 750_000_000 }
    );
    assert_eq!(next_wait(&now, &None, &config()), secs(1800));
    assert!(ZonedTime::new_with_nanos(start.timestamp(), 1_000_000_000, 0).is_none());
}

#[test]
fn unrepresentable_deadline_is_refused() {
    let now = ZonedTime::new(8_210_266_876_799, 0);
    if let Some(now) = now {
        assert_eq!(checked_next_wait(&now, &None, &config()), None);
    }
}

#[test]
fn durations_are_friendly() {
    assert_eq!(friendly_duration(1800), "30 minutes");
    assert_eq!(friendly_duration(0), "0 minutes");
    assert_eq!(friendly_duration(90), "90 seconds");
    assert_eq!(friendly_duration(7), "7 seconds");
    assert_eq!(friendly_duration(18446744073709551615), "18446744073709551615 seconds");
}

fn lines(text: &str) -> Vec<Vec<char>> {
    text.lines().map(|l| l.chars().collect()).collect()
}

#[test]
fn overlap_is_longest_suffix_prefix() {
    assert_eq!(suffix_prefix_overlap(&lines("a\nb\nc"), &lines("b\nc\nd")), 2);
    assert_eq!(suffix_prefix_overlap(&lines("a\nb"), &lines("c\nd")), 0);
    assert_eq!(suffix_prefix_overlap(&lines("x\nx"), &lines("x\nx\ny")), 2);
    assert_eq!(suffix_prefix_overlap(&lines(""), &lines("a")), 0);
}

#[test]
fn tracker_falls_back_to_common_prefix() {
    let mut tracker = CaptureTracker::new();
    tracker.observe("a\nb\nc");
    assert_eq!(tracker.observe("a\nb\nx\ny"), "x\ny");
    assert_eq!(tracker.observe("p\r\nq\n"), "p\nq");
}

fn captured(text: &str, now: &ZonedTime) -> MonitorEvent {
    MonitorEvent::Captured(text.to_string(), now.clone())
}

fn action_name(a: &MonitorAction) -> String {
    match a {
        MonitorAction::Exit => "exit".to_string(),
        MonitorAction::CheckPane => "pane".to_string(),
        MonitorAction::Capture => "capture".to_string(),
        MonitorAction::CheckAttached => "attached?".to_string(),
        MonitorAction::SendStatus(i) => format!("status{i}"),
        MonitorAction::SendGoalResume => "resume".to_string(),
        MonitorAction::Sleep(s, SleepReason::WatchInterval) => format!("sleep{s}:watch"),
        MonitorAction::Sleep(s, SleepReason::ClientsAttached(first)) => format!("sleep{s}:attached{first}"),
        MonitorAction::Sleep(s, SleepReason::StatusDelay) => format!("sleep{s}:status"),
        MonitorAction::Sleep(s, SleepReason::ResumeDelay) => format!("sleep{s}:resume"),
        MonitorAction::Wait(w, WaitReason::QuotaExhausted(_)) => format!("wait{}:exhausted", w.secs),
        MonitorAction::Wait(w, WaitReason::QuotaUnknown) => format!("wait{}:unknown", w.secs),
        MonitorAction::Wait(w, WaitReason::StatusFailed) => format!("wait{}:statusfailed", w.secs),
        MonitorAction::Wait(w, WaitReason::StillLimited) => format!("wait{}:stilllimited", w.secs),
        MonitorAction::Wait(w, WaitReason::ResumeFailed) => format!("wait{}:resumefailed", w.secs),
    }
}

fn step(m: &mut Monitor, e: MonitorEvent) -> String {
    action_name(&m.step(e))
}

#[test]
fn monitor_runs_through_a_limit_and_resumes() {
    let now = at(16, 30);
    let mut m = Monitor::new(config(), "working");
    assert_eq!(m.state(), WatchState::Running);
    assert_eq!(action_name(&m.action()), "pane");
    assert_eq!(step(&mut m, MonitorEvent::PanePresent), "sleep20:watch");
    assert_eq!(step(&mut m, MonitorEvent::Slept), "capture");
    assert_eq!(step(&mut m, captured("working\nstill working", &now)), "pane");
    assert_eq!(m.state(), WatchState::Running);
    assert_eq!(step(&mut m, MonitorEvent::PanePresent), "sleep20:watch");
    assert_eq!(step(&mut m, MonitorEvent::Slept), "capture");
    assert_eq!(step(&mut m, captured("still working\nusage limit reached", &now)), "pane");
    assert_eq!(m.state(), WatchState::Limited);
    // three refreshes of /status, each after the clients are checked and followed by a delay
    assert_eq!(step(&mut m, MonitorEvent::PanePresent), "attached?");
    assert_eq!(step(&mut m, MonitorEvent::Attached(true)), "sleep1:attachedtrue");
    assert_eq!(step(&mut m, MonitorEvent::Slept), "attached?");
    assert_eq!(step(&mut m, MonitorEvent::Attached(true)), "sleep1:attachedfalse");
    assert_eq!(step(&mut m, MonitorEvent::Slept), "attached?");
    assert_eq!(step(&mut m, MonitorEvent::Attached(false)), "status1");
    assert_eq!(step(&mut m, MonitorEvent::Sent), "sleep3:status");
    assert_eq!(step(&mut m, MonitorEvent::Slept), "attached?");
    assert_eq!(step(&mut m, MonitorEvent::Attached(true)), "sleep1:attachedtrue");
    assert_eq!(step(&mut m, MonitorEvent::Slept), "attached?");
    assert_eq!(step(&mut m, MonitorEvent::Attached(false)), "status2");
    assert_eq!(step(&mut m, MonitorEvent::Sent), "sleep3:status");
    assert_eq!(step(&mut m, MonitorEvent::Slept), "attached?");
    assert_eq!(step(&mut m, MonitorEvent::Attached(false)), "status3");
    assert_eq!(step(&mut m, MonitorEvent::Sent), "sleep3:status");
    assert_eq!(step(&mut m, MonitorEvent::Slept), "capture");
    match m.step(captured("5h limit: 0% left (resets 16:37)", &now)) {
        MonitorAction::Wait(w, WaitReason::QuotaExhausted(Some(reset))) => {
            assert_eq!(w, secs(430));
            assert_eq!(reset.timestamp(), at(16, 37).timestamp());
        }
        _ => panic!("expected a wait for the quota"),
    }
    assert_eq!(m.state(), WatchState::Limited);
    assert_eq!(step(&mut m, MonitorEvent::Slept), "pane");
    assert_eq!(step(&mut m, MonitorEvent::PanePresent), "attached?");
    assert_eq!(step(&mut m, MonitorEvent::Attached(false)), "status1");
    assert_eq!(step(&mut m, MonitorEvent::Sent), "sleep3:status");
    assert_eq!(step(&mut m, MonitorEvent::Slept), "attached?");
    assert_eq!(step(&mut m, MonitorEvent::Attached(false)), "status2");
    assert_eq!(step(&mut m, MonitorEvent::Sent), "sleep3:status");
    assert_eq!(step(&mut m, MonitorEvent::Slept), "attached?");
    assert_eq!(step(&mut m, MonitorEvent::Attached(false)), "status3");
    assert_eq!(step(&mut m, MonitorEvent::Sent), "sleep3:status");
    assert_eq!(step(&mut m, MonitorEvent::Slept), "capture");
    assert_eq!(step(&mut m, captured("5h limit: 100% left", &now)), "attached?");
    assert_eq!(m.state(), WatchState::Resuming);
    assert_eq!(step(&mut m, MonitorEvent::Attached(false)), "capture");
    assert_eq!(step(&mut m, captured("5h limit: 100% left", &now)), "resume");
    assert_eq!(m.state(), WatchState::Verifying);
    assert_eq!(step(&mut m, MonitorEvent::Sent), "sleep15:resume");
    assert_eq!(step(&mut m, MonitorEvent::Slept), "capture");
    assert_eq!(
        step(&mut m, captured("5h limit: 100% left\n/goal resume\nworking again", &now)),
        "pane"
    );
    assert_eq!(m.state(), WatchState::Running);
}

fn limited_until_capture(m: &mut Monitor, now: &ZonedTime) {
    assert_eq!(step(m, MonitorEvent::PanePresent), "attached?");
    for i in 1..=3 {
        assert_eq!(step(m, MonitorEvent::Attached(false)), format!("status{i}"));
        assert_eq!(step(m, MonitorEvent::Sent), "sleep3:status");
        let next = if i < 3 { "attached?" } else { "capture" };
        assert_eq!(step(m, MonitorEvent::Slept), next);
    }
    let _ = now;
}

#[test]
fn monitor_stays_limited_when_resume_hits_limit_again() {
    let now = at(16, 30);
    let mut m = Monitor::new(config(), "x");
    step(&mut m, MonitorEvent::PanePresent);
    step(&mut m, MonitorEvent::Slept);
    step(&mut m, captured("x\nrate limited", &now));
    assert_eq!(m.state(), WatchState::Limited);
    limited_until_capture(&mut m, &now);
    assert_eq!(step(&mut m, captured("Weekly limit: 5% left", &now)), "attached?");
    assert_eq!(m.state(), WatchState::Resuming);
    assert_eq!(step(&mut m, MonitorEvent::Attached(false)), "capture");
    assert_eq!(step(&mut m, captured("before", &now)), "resume");
    assert_eq!(step(&mut m, MonitorEvent::Sent), "sleep15:resume");
    assert_eq!(step(&mut m, MonitorEvent::Slept), "capture");
    assert_eq!(step(&mut m, captured("before\nusage limit reached", &now)), "wait1800:stilllimited");
    assert_eq!(m.state(), WatchState::Limited);
    assert_eq!(step(&mut m, MonitorEvent::Slept), "pane");
}

#[test]
fn monitor_handles_failures_and_unknown_status() {
    let now = at(16, 30);
    let mut m = Monitor::new(config(), "x");
    step(&mut m, MonitorEvent::PanePresent);
    step(&mut m, MonitorEvent::Slept);
    assert_eq!(step(&mut m, MonitorEvent::Failed), "pane");
    assert_eq!(m.state(), WatchState::Running);
    step(&mut m, MonitorEvent::PanePresent);
    step(&mut m, MonitorEvent::Slept);
    step(&mut m, captured("x\nusage limit exceeded", &now));
    assert_eq!(step(&mut m, MonitorEvent::PanePresent), "attached?");
    assert_eq!(step(&mut m, MonitorEvent::Failed), "wait1800:statusfailed");
    assert_eq!(step(&mut m, MonitorEvent::Slept), "pane");
    limited_until_capture(&mut m, &now);
    assert_eq!(step(&mut m, captured("nothing useful", &now)), "wait1800:unknown");
    assert_eq!(step(&mut m, MonitorEvent::Slept), "pane");
    limited_until_capture(&mut m, &now);
    assert_eq!(step(&mut m, captured("5h limit: 3% left", &now)), "attached?");
    assert_eq!(m.state(), WatchState::Resuming);
    assert_eq!(step(&mut m, MonitorEvent::Failed), "wait1800:resumefailed");
    assert_eq!(m.state(), WatchState::Limited);
    assert_eq!(step(&mut m, MonitorEvent::PaneGone), "exit");
    assert_eq!(step(&mut m, MonitorEvent::PanePresent), "exit");
}

#[test]
fn unexpected_event_counts_as_failure() {
    let now = at(16, 30);
    let mut m = Monitor::new(config(), "x");
    assert_eq!(step(&mut m, MonitorEvent::Sent), "pane");
    step(&mut m, MonitorEvent::PanePresent);
    assert_eq!(step(&mut m, captured("x", &now)), "pane");
}

#[test]
fn zero_refreshes_capture_at_once() {
    let now = at(16, 30);
    let mut c = config();
    c.status_refresh_count = 0;
    let mut m = Monitor::new(c, "x");
    step(&mut m, MonitorEvent::PanePresent);
    step(&mut m, MonitorEvent::Slept);
    step(&mut m, captured("x\nusage limited", &now));
    assert_eq!(step(&mut m, MonitorEvent::PanePresent), "capture");
}

#[test]
fn old_limit_message_does_not_retrigger() {
    let now = at(16, 30);
    let mut m = Monitor::new(config(), "usage limit reached\nworking");
    step(&mut m, MonitorEvent::PanePresent);
    step(&mut m, MonitorEvent::Slept);
    step(&mut m, captured("usage limit reached\nworking", &now));
    assert_eq!(m.state(), WatchState::Running);
}

#[test]
fn only_status_and_goal_resume_are_typed() {
    assert_eq!(MonitorAction::SendStatus(1).line(), Some("/status".to_string()));
    assert_eq!(MonitorAction::SendGoalResume.line(), Some("/goal resume".to_string()));
    assert_eq!(MonitorAction::CheckPane.line(), None);
    assert_eq!(MonitorAction::Capture.line(), None);
    assert_eq!(MonitorAction::Exit.line(), None);
}

#[test]
fn sends_follow_a_check_that_found_no_client() {
    let now = at(16, 30);
    let mut m = Monitor::new(config(), "working");
    let events = vec![
        MonitorEvent::PanePresent,
        MonitorEvent::Slept,
        captured("working\nusage limit reached", &now),
        MonitorEvent::PanePresent,
        MonitorEvent::Attached(true),
        MonitorEvent::Slept,
        MonitorEvent::Attached(false),
        MonitorEvent::Sent,
        MonitorEvent::Slept,
        MonitorEvent::Attached(false),
        MonitorEvent::Failed,
        MonitorEvent::Slept,
        MonitorEvent::PaneGone,
    ];
    let mut previous = action_name(&m.action());
    for event in events {
        let answered_attached_false = matches!(event, MonitorEvent::Attached(false));
        let next = m.step(event);
        if next.line().is_some() {
            assert_eq!(previous, "attached?");
            assert!(answered_attached_false);
        }
        previous = action_name(&next);
    }
    assert_eq!(previous, "exit");
}
