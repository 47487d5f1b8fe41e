use codex_goal_resumer::label::normalize_label;
use codex_goal_resumer::status::{
    contains_usage_limit, latest_generation, next_dated_reset, parse_latest_status, parse_month,
    parse_reset, parse_try_again, quota_records, quota_records_from_captures, record_from_capture,
    reset_from_try_again_capture, status_from_parts, QuotaRecord, QuotaState,
};
use codex_goal_resumer::time::{local_datetime, ClockTime, ZonedTime};

fn now(month: u32, day: u32, hour: u32) -> ZonedTime {
    local_datetime(8 * 3600, 2026, month, day, hour, 0).unwrap()
}

fn formatted(t: &ZonedTime) -> String {
    let zone = chrono::FixedOffset::east_opt(t.offset_seconds()).unwrap();
    chrono::DateTime::from_timestamp(t.timestamp(), 0)
        .unwrap()
        .with_timezone(&zone)
        .format("%Y-%m-%d %H:%M")
        .to_string()
}

#[test]
fn zero_is_exhausted() {
    assert_eq!(
        parse_latest_status("5h limit: 0% left", now(9, 11, 12)).quota,
        QuotaState::Exhausted
    );
}

#[test]
fn one_hundred_is_available() {
    assert_eq!(
        parse_latest_status("5h limit: 100% left", now(9, 11, 12)).quota,
        QuotaState::Available
    );
}

#[test]
fn nonzero_is_available() {
    assert_eq!(
        parse_latest_status("5h limit: 43% left", now(9, 11, 12)).quota,
        QuotaState::Available
    );
}

#[test]
fn any_window_exhausted_is_exhausted() {
    let text = "5h limit: 80% left\nWeekly limit: 0% left";
    assert_eq!(
        parse_latest_status(text, now(9, 11, 12)).quota,
        QuotaState::Exhausted
    );
}

#[test]
fn all_windows_nonzero_is_available() {
    let text = "5h limit: 80% left\nWeekly limit: 10% left";
    assert_eq!(
        parse_latest_status(text, now(9, 11, 12)).quota,
        QuotaState::Available
    );
}

#[test]
fn parses_same_day_reset() {
    let status = parse_latest_status("5h limit: 0% left (resets 15:35)", now(9, 11, 12));
    assert_eq!(formatted(&status.next_reset.unwrap()), "2026-09-11 15:35");
}

#[test]
fn parses_weekly_reset() {
    let status = parse_latest_status(
        "Weekly limit: 0% left (resets 06:20 on 20 Sep)",
        now(9, 11, 12),
    );
    assert_eq!(formatted(&status.next_reset.unwrap()), "2026-09-20 06:20");
}

#[test]
fn infers_next_year() {
    let status = parse_latest_status(
        "Weekly limit: 0% left (resets 06:20 on 02 Jan)",
        now(12, 29, 12),
    );
    assert_eq!(formatted(&status.next_reset.unwrap()), "2027-01-02 06:20");
}

#[test]
fn parses_try_again_timestamp() {
    let status = parse_latest_status("try again at Sep 11th, 2026 4:37 PM", now(9, 11, 12));
    assert_eq!(formatted(&status.next_reset.unwrap()), "2026-09-11 16:37");
}

#[test]
fn latest_status_wins() {
    let text = "5h limit: 0% left\nWeekly limit: 0% left\n\n...\n\n5h limit: 100% left\nWeekly limit: 100% left";
    assert_eq!(
        parse_latest_status(text, now(9, 11, 12)).quota,
        QuotaState::Available
    );
}

#[test]
fn malformed_is_unknown() {
    assert_eq!(
        parse_latest_status("random unrelated output", now(9, 11, 12)).quota,
        QuotaState::Unknown
    );
}

#[test]
fn old_available_new_exhausted_uses_new_generation() {
    let text =
        "5h limit: 50% left\nWeekly limit: 10% left\n5h limit: 0% left\nWeekly limit: 0% left";
    assert_eq!(
        parse_latest_status(text, now(9, 11, 12)).quota,
        QuotaState::Exhausted
    );
}

#[test]
fn available_manual_reset_message_is_not_a_limit_event() {
    assert!(!contains_usage_limit(
        "You have 1 usage limit reset available. Run /usage to use one."
    ));
}

#[test]
fn status_rate_limit_description_is_not_a_limit_event() {
    assert!(!contains_usage_limit(
        "Visit the settings page for information on rate limits and credits"
    ));
}

#[test]
fn explicit_limit_messages_are_detected() {
    for message in [
        "usage limited",
        "usage limit reached",
        "usage limit exceeded",
        "You've hit your usage limit",
        "rate limited",
        "rate limit reached",
        "try again at Sep 11th, 2026 4:37 PM",
    ] {
        assert!(contains_usage_limit(message), "missed: {message}");
    }
}

// ---------------------------------------------------------------------------
// Further cases
// ---------------------------------------------------------------------------

#[test]
fn typographic_apostrophe_is_detected() {
    assert!(contains_usage_limit("You\u{2019}ve hit your usage limit"));
    assert!(contains_usage_limit("RATE LIMIT EXCEEDED"));
    assert!(!contains_usage_limit("usage limits"));
}

#[test]
fn labels_are_normalized() {
    assert_eq!(normalize_label("Weekly limit"), "weekly limit");
    assert_eq!(normalize_label("  * 5h   Limit "), "5h limit");
    assert_eq!(normalize_label("5 h window limit"), "5h limit");
    assert_eq!(normalize_label("--Monthly   Usage--"), "monthly usage");
    assert_eq!(normalize_label("***"), "");
}

#[test]
fn normalizing_twice_changes_nothing() {
    for label in [
        "Weekly limit",
        "  * 5h   Limit ",
        "--Monthly   Usage--",
        "***",
        "Daily\tquota  (beta)",
        "A.B  c-D",
        "",
    ] {
        let once = normalize_label(label);
        assert_eq!(normalize_label(&once), once);
    }
    assert_eq!(normalize_label("A.B  c-D"), "a.b c-d");
}

#[test]
fn months_ignore_ascii_case() {
    assert_eq!(parse_month("Sep"), Some(9));
    assert_eq!(parse_month("jan"), Some(1));
    assert_eq!(parse_month("DEC"), Some(12));
    assert_eq!(parse_month("sept"), None);
    assert_eq!(parse_month("xyz"), None);
}

#[test]
fn records_keep_order_and_skip_bad_percentages() {
    let records = quota_records("5h limit: 20% left\nWeekly limit: 101% left\nMonthly usage: 7% left (x)");
    assert_eq!(records.len(), 2);
    assert_eq!(records[0].label, "5h limit");
    assert_eq!(records[0].percentage, 20);
    assert_eq!(records[0].line, "5h limit: 20% left");
    assert_eq!(records[1].label, "monthly usage");
    assert_eq!(records[1].percentage, 7);
    assert_eq!(records[1].line, "Monthly usage: 7% left (x)");
}

#[test]
fn over_one_hundred_percent_alone_is_unknown() {
    assert_eq!(
        parse_latest_status("5h limit: 250% left", now(9, 11, 12)).quota,
        QuotaState::Unknown
    );
}

fn capture(groups: &[Option<&str>]) -> Vec<Option<String>> {
    groups.iter().map(|g| g.map(|s| s.to_string())).collect()
}

#[test]
fn record_from_capture_reads_groups() {
    let c = capture(&[Some("Weekly limit: 0% left"), Some("Weekly limit"), Some("0")]);
    let r = record_from_capture(&c).unwrap();
    assert_eq!(r.label, "weekly limit");
    assert_eq!(r.percentage, 0);
    assert_eq!(r.line, "Weekly limit: 0% left");
    assert!(record_from_capture(&capture(&[Some("x"), Some("5h limit"), Some("101")])).is_none());
    assert!(record_from_capture(&capture(&[Some("x"), Some("5h limit"), Some("\u{0663}")])).is_none());
    assert!(record_from_capture(&capture(&[Some("x"), None, Some("3")])).is_none());
    let plus = record_from_capture(&capture(&[Some("x"), Some("a limit"), Some("+5")])).unwrap();
    assert_eq!(plus.percentage, 5);
}

#[test]
fn records_from_captures_keep_order() {
    let cs = vec![
        capture(&[Some("a limit: 1% left"), Some("a limit"), Some("1")]),
        capture(&[Some("b limit: 900% left"), Some("b limit"), Some("900")]),
        capture(&[Some("c limit: 0% left"), Some("c limit"), Some("0")]),
    ];
    let rs = quota_records_from_captures(&cs);
    assert_eq!(rs.len(), 2);
    assert_eq!(rs[0].label, "a limit");
    assert_eq!(rs[1].label, "c limit");
}

fn record(label: &str, percentage: u8) -> QuotaRecord {
    QuotaRecord { label: label.to_string(), percentage, line: format!("{label}: {percentage}% left") }
}

#[test]
fn generations_split_on_repeated_labels() {
    let rs = vec![record("a", 0), record("b", 0), record("a", 10), record("c", 5)];
    assert_eq!(latest_generation(&rs), 2);
    let rs = vec![record("a", 0), record("b", 0)];
    assert_eq!(latest_generation(&rs), 0);
    let rs = vec![record("a", 0), record("a", 1), record("a", 2)];
    assert_eq!(latest_generation(&rs), 2);
    assert_eq!(latest_generation(&Vec::new()), 0);
}

#[test]
fn status_from_parts_takes_earliest_exhausted_reset() {
    let base = now(9, 11, 12);
    let early = local_datetime(8 * 3600, 2026, 9, 11, 13, 0).unwrap();
    let late = local_datetime(8 * 3600, 2026, 9, 11, 15, 0).unwrap();
    let fallback = local_datetime(8 * 3600, 2026, 9, 12, 0, 0).unwrap();
    let rs = vec![record("a", 0), record("b", 0), record("c", 5)];
    let resets = vec![Some(late.clone()), Some(early.clone()), Some(base.clone())];
    let s = status_from_parts(&rs, &resets, Some(fallback.clone()));
    assert_eq!(s.quota, QuotaState::Exhausted);
    assert_eq!(s.next_reset.unwrap().timestamp(), early.timestamp());

    let resets = vec![None, None, Some(base.clone())];
    let s = status_from_parts(&rs, &resets, Some(fallback.clone()));
    assert_eq!(s.next_reset.unwrap().timestamp(), fallback.timestamp());

    let s = status_from_parts(&Vec::new(), &Vec::new(), None);
    assert_eq!(s.quota, QuotaState::Unknown);
    assert!(s.next_reset.is_none());
}

#[test]
fn same_day_reset_in_the_past_moves_to_next_day() {
    let r = parse_reset("(resets 09:15)", &now(9, 11, 12)).unwrap();
    assert_eq!(formatted(&r), "2026-09-12 09:15");
    let r = parse_reset("resets 12:00", &now(9, 30, 12)).unwrap();
    assert_eq!(formatted(&r), "2026-10-01 12:00");
    assert!(parse_reset("resets 25:00", &now(9, 11, 12)).is_none());
    assert!(parse_reset("no reset here", &now(9, 11, 12)).is_none());
}

#[test]
fn same_day_reset_is_within_a_day_after_now() {
    let n = now(12, 31, 12);
    let later = parse_reset("resets 12:01", &n).unwrap();
    assert_eq!(later.timestamp() - n.timestamp(), 60);
    let rolled = parse_reset("resets 12:00", &n).unwrap();
    assert_eq!(rolled.timestamp() - n.timestamp(), 86400);
    assert_eq!(formatted(&rolled), "2027-01-01 12:00");
    let earlier = parse_reset("resets 11:59", &n).unwrap();
    assert_eq!(earlier.timestamp() - n.timestamp(), 86340);
}

#[test]
fn dated_reset_is_after_now() {
    let n = now(9, 11, 12);
    let r = next_dated_reset(&n, 9, 11, ClockTime { hour: 11, minute: 0 }).unwrap();
    assert_eq!(formatted(&r), "2027-09-11 11:00");
    let r = next_dated_reset(&n, 9, 11, ClockTime { hour: 13, minute: 0 }).unwrap();
    assert_eq!(formatted(&r), "2026-09-11 13:00");
    assert!(next_dated_reset(&n, 2, 30, ClockTime { hour: 1, minute: 0 }).is_none());
    let r = parse_reset("resets 06:20 on 31 dec", &now(12, 31, 12)).unwrap();
    assert_eq!(formatted(&r), "2027-12-31 06:20");
}

#[test]
fn try_again_reads_twelve_hour_clock() {
    let n = now(9, 11, 12);
    let r = parse_try_again("try again at Jan 1st, 2027 12:05 am", &n).unwrap();
    assert_eq!(formatted(&r), "2027-01-01 00:05");
    let r = parse_try_again("try again at Feb 2, 2027 12:30 PM", &n).unwrap();
    assert_eq!(formatted(&r), "2027-02-02 12:30");
    let r = parse_try_again(
        "try again at Jan 1st, 2027 1:00 AM ... try again at Mar 3rd, 2027 2:00 PM",
        &n,
    )
    .unwrap();
    assert_eq!(formatted(&r), "2027-03-03 14:00");
    assert!(parse_try_again("try again at Feb 30th, 2027 1:00 PM", &n).is_none());
    assert!(parse_try_again("try again later", &n).is_none());
}

#[test]
fn try_again_capture_groups() {
    let n = now(9, 11, 12);
    let c = capture(&[
        Some("try again at Oct 5th, 2026 7:09 pm"),
        Some("Oct"),
        Some("5"),
        Some("2026"),
        Some("7"),
        Some("09"),
        Some("pm"),
    ]);
    assert_eq!(formatted(&reset_from_try_again_capture(&c, &n).unwrap()), "2026-10-05 19:09");
    let bad = capture(&[Some("x"), Some("Oct"), Some("5"), Some("2026"), Some("7"), Some("09"), Some("xm")]);
    assert!(reset_from_try_again_capture(&bad, &n).is_none());
}

#[test]
fn exhausted_status_without_reset_uses_try_again() {
    let s = parse_latest_status(
        "5h limit: 0% left\ntry again at Sep 11th, 2026 4:37 PM",
        now(9, 11, 12),
    );
    assert_eq!(s.quota, QuotaState::Exhausted);
    assert_eq!(formatted(&s.next_reset.unwrap()), "2026-09-11 16:37");
}

#[test]
fn earliest_of_several_exhausted_windows() {
    let s = parse_latest_status(
        "5h limit: 0% left (resets 15:35)\nWeekly limit: 0% left (resets 06:20 on 20 Sep)",
        now(9, 11, 12),
    );
    assert_eq!(s.quota, QuotaState::Exhausted);
    assert_eq!(formatted(&s.next_reset.unwrap()), "2026-09-11 15:35");
}

#[test]
fn available_windows_ignore_their_reset_times() {
    let s = parse_latest_status("5h limit: 40% left (resets 15:35)", now(9, 11, 12));
    assert_eq!(s.quota, QuotaState::Available);
    assert!(s.next_reset.is_none());
}

#[test]
fn zoned_time_rejects_bad_offsets() {
    assert!(ZonedTime::new(0, 86400).is_none());
    assert!(ZonedTime::new(0, -86400).is_none());
    assert!(ZonedTime::new(i64::MAX, 0).is_none());
    let t = ZonedTime::new(1_000, 3600).unwrap();
    assert_eq!(t.timestamp(), 1_000);
    assert_eq!(t.offset_seconds(), 3600);
    let d = t.local_date();
    assert_eq!((d.year, d.month, d.day), (1970, 1, 1));
}

#[test]
fn percentages_are_complete_numbers() {
    assert!(quota_records("5h limit: 1000% left").is_empty());
    assert!(quota_records("5h limit: 150% left").is_empty());
    assert_eq!(
        parse_latest_status("5h limit: 1000% left", now(9, 11, 12)).quota,
        QuotaState::Unknown
    );
    let rs = quota_records("Weekly limit: window 7 of 10: 100% left");
    assert_eq!(rs.len(), 1);
    assert_eq!(rs[0].percentage, 100);
}

#[test]
fn missing_date_skips_to_next_year() {
    let n = local_datetime(8 * 3600, 2027, 11, 1, 12, 0).unwrap();
    let r = next_dated_reset(&n, 2, 29, ClockTime { hour: 6, minute: 20 }).unwrap();
    assert_eq!(formatted(&r), "2028-02-29 06:20");
    let r = parse_reset("resets 06:20 on 29 Feb", &n).unwrap();
    assert_eq!(formatted(&r), "2028-02-29 06:20");
}

#[test]
fn local_time_out_of_range_is_refused() {
    let last = chrono::NaiveDate::from_ymd_opt(262142, 12, 31)
        .unwrap()
        .and_hms_opt(23, 59, 59)
        .unwrap()
        .and_utc()
        .timestamp();
    assert!(ZonedTime::new(last, 0).is_some());
    assert!(ZonedTime::new(last, 3600).is_none());
}

#[test]
fn chrono_range_bounds_are_exact() {
    let first = chrono::NaiveDate::from_ymd_opt(-262143, 1, 1)
        .unwrap()
        .and_hms_opt(0, 0, 0)
        .unwrap()
        .and_utc()
        .timestamp();
    assert_eq!(first, -8_334_601_228_800);
    assert!(ZonedTime::new(-8_334_601_228_800, 0).is_some());
    assert!(ZonedTime::new(-8_334_601_228_801, 0).is_none());
    assert!(ZonedTime::new(-8_334_601_228_800, -60).is_none());
    assert!(ZonedTime::new(-8_334_601_228_800, 60).is_some());
    assert!(ZonedTime::new(8_210_266_876_799, 0).is_some());
    assert!(ZonedTime::new(8_210_266_876_800, 0).is_none());
    assert!(ZonedTime::new(8_210_266_876_799, -60).is_some());
}

#[test]
fn same_day_reset_rolls_over_month_ends_and_leap_days() {
    let n = local_datetime(8 * 3600, 2026, 2, 28, 12, 0).unwrap();
    let r = parse_reset("resets 11:00", &n).unwrap();
    assert_eq!(formatted(&r), "2026-03-01 11:00");
    let n = local_datetime(8 * 3600, 2028, 2, 28, 12, 0).unwrap();
    let r = parse_reset("resets 11:00", &n).unwrap();
    assert_eq!(formatted(&r), "2028-02-29 11:00");
    let n = local_datetime(8 * 3600, 2100, 2, 28, 12, 0).unwrap();
    let r = parse_reset("resets 11:00", &n).unwrap();
    assert_eq!(formatted(&r), "2100-03-01 11:00");
    let n = local_datetime(8 * 3600, 2000, 2, 28, 12, 0).unwrap();
    let r = parse_reset("resets 11:00", &n).unwrap();
    assert_eq!(formatted(&r), "2000-02-29 11:00");
}
