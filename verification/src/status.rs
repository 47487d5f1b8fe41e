//! Reading Codex's quota status from captured terminal output.

use crate::label::{normalize_label, normalized_label};
use crate::pattern::{
    all_captures, first_captures, group, is_match, regex_all_captures, regex_first_captures,
    regex_is_match,
};
use crate::text::{
    ascii_lower, ascii_upper, chars_equal, chars_of, eq_ignore_ascii_case, equal_ignoring_ascii_case,
    parse_i32, parse_i32_chars, parse_u32, parse_u8, parse_unsigned, uppercase_ascii,
};
use crate::time::{
    chrono_local_date, chrono_local_timestamp, chrono_parse_hour_minute, day_after, local_datetime,
    next_day, parse_time, zoned_opt_view, CivilDate, ClockTime, ZonedTime, ZonedTimeView,
};
use vstd::prelude::*;

verus! {

// ---------------------------------------------------------------------------
// Patterns
// ---------------------------------------------------------------------------

/// A quota line: a label of at most sixty characters ending in "limit" or
/// "usage", a colon, and a whole number (not preceded by another digit)
/// followed by "% left".
pub open spec fn quota_pattern() -> Seq<char> {
    "(?im)^(?P<label>[^\\r\\n:]{1,60}(?:limit|usage))\\s*:\\s*(?:[^\\r\\n]*?[^\\d\\r\\n])?(?P<pct>\\d+)\\s*%\\s*left[^\\r\\n]*"@
}

/// A reset time of the same or the next day: "resets 15:35".
pub open spec fn same_day_reset_pattern() -> Seq<char> {
    "(?i)resets?\\s+(\\d{1,2}:\\d{2})(?:\\s*[)])?"@
}

/// A reset time with a date: "resets 06:20 on 20 Sep".
pub open spec fn dated_reset_pattern() -> Seq<char> {
    "(?i)resets?\\s+(\\d{1,2}:\\d{2})\\s+on\\s+(\\d{1,2})\\s+([A-Za-z]{3})"@
}

/// A retry timestamp: "try again at Sep 11th, 2026 4:37 PM".
pub open spec fn try_again_pattern() -> Seq<char> {
    "(?i)try again at\\s+([A-Za-z]{3})\\s+(\\d{1,2})(?:st|nd|rd|th)?,\\s*(\\d{4})\\s+(\\d{1,2}):(\\d{2})\\s*(AM|PM)"@
}

/// An explicit usage-limit or rate-limit message.
pub open spec fn usage_pattern() -> Seq<char> {
    "(?i)\\b(?:usage\\s+(?:limited|limit\\s+(?:reached|exceeded))|you(?:'|\u{2019})ve\\s+hit\\s+your\\s+usage\\s+limit|rate\\s+(?:limited|limit\\s+(?:reached|exceeded))|try\\s+again\\s+at)\\b"@
}

fn quota_regex() -> (r: &'static str)
    ensures
        r@ == quota_pattern(),
{
    "(?im)^(?P<label>[^\\r\\n:]{1,60}(?:limit|usage))\\s*:\\s*(?:[^\\r\\n]*?[^\\d\\r\\n])?(?P<pct>\\d+)\\s*%\\s*left[^\\r\\n]*"
}

fn same_day_reset_regex() -> (r: &'static str)
    ensures
        r@ == same_day_reset_pattern(),
{
    "(?i)resets?\\s+(\\d{1,2}:\\d{2})(?:\\s*[)])?"
}

fn dated_reset_regex() -> (r: &'static str)
    ensures
        r@ == dated_reset_pattern(),
{
    "(?i)resets?\\s+(\\d{1,2}:\\d{2})\\s+on\\s+(\\d{1,2})\\s+([A-Za-z]{3})"
}

fn try_again_regex() -> (r: &'static str)
    ensures
        r@ == try_again_pattern(),
{
    "(?i)try again at\\s+([A-Za-z]{3})\\s+(\\d{1,2})(?:st|nd|rd|th)?,\\s*(\\d{4})\\s+(\\d{1,2}):(\\d{2})\\s*(AM|PM)"
}

fn usage_regex() -> (r: &'static str)
    ensures
        r@ == usage_pattern(),
{
    "(?i)\\b(?:usage\\s+(?:limited|limit\\s+(?:reached|exceeded))|you(?:'|\u{2019})ve\\s+hit\\s+your\\s+usage\\s+limit|rate\\s+(?:limited|limit\\s+(?:reached|exceeded))|try\\s+again\\s+at)\\b"
}

/// Whether the output holds an explicit usage-limit or rate-limit message.
pub fn contains_usage_limit(output: &str) -> (r: bool)
    ensures
        r == regex_is_match(usage_pattern(), output@),
{
    is_match(usage_regex(), output)
}


// ---------------------------------------------------------------------------
// Quota records
// ---------------------------------------------------------------------------

/// The state of the quota windows.
#[derive(Debug, Clone, Copy, PartialEq, Eq, Structural)]
pub enum QuotaState {
    Available,
    Exhausted,
    Unknown,
}

/// One quota line: its normalised label, the percentage left and the text
/// of the whole line.
#[derive(Debug)]
pub struct QuotaRecord {
    pub label: String,
    pub percentage: u8,
    pub line: String,
}

pub struct QuotaRecordView {
    pub label: Seq<char>,
    pub percentage: u8,
    pub line: Seq<char>,
}

impl View for QuotaRecord {
    type V = QuotaRecordView;

    open spec fn view(&self) -> QuotaRecordView {
        QuotaRecordView { label: self.label@, percentage: self.percentage, line: self.line@ }
    }
}

/// The records as values.
pub open spec fn records_view(records: Seq<QuotaRecord>) -> Seq<QuotaRecordView> {
    records.map_values(|r: QuotaRecord| r@)
}

/// The record a quota-line match gives: group 1 is the label, group 2 the
/// percentage, group 0 the whole line. A percentage that does not parse as a
/// `u8`, or that exceeds 100, gives no record.
pub open spec fn record_of_capture(c: Seq<Option<Seq<char>>>) -> Option<QuotaRecordView> {
    match (group(c, 2), group(c, 1), group(c, 0)) {
        (Some(pct), Some(label), Some(line)) => match parse_unsigned(pct, 255) {
            Some(v) => if v <= 100 {
                Some(QuotaRecordView { label: normalized_label(label), percentage: v as u8, line })
            } else {
                None
            },
            None => None,
        },
        _ => None,
    }
}

/// The records of a sequence of quota-line matches, in order.
pub open spec fn records_of_captures(cs: Seq<Seq<Option<Seq<char>>>>) -> Seq<QuotaRecordView>
    decreases cs.len(),
{
    if cs.len() == 0 {
        Seq::empty()
    } else {
        let prev = records_of_captures(cs.drop_last());
        match record_of_capture(cs.last()) {
            Some(r) => prev.push(r),
            None => prev,
        }
    }
}

/// The quota records of an output.
pub open spec fn quota_records_of(output: Seq<char>) -> Seq<QuotaRecordView> {
    records_of_captures(regex_all_captures(quota_pattern(), output))
}

/// The group at `index` as characters.
fn group_chars(c: &Vec<Option<String>>, index: usize) -> (r: Option<Vec<char>>)
    ensures
        match group(c.deep_view(), index as int) {
            Some(s) => r matches Some(v) && v@ == s,
            None => r is None,
        },
{
    if index < c.len() {
        match &c[index] {
            Some(s) => Some(chars_of(s.as_str())),
            None => None,
        }
    } else {
        None
    }
}

/// The record of one quota-line match (see [`record_of_capture`]).
pub fn record_from_capture(c: &Vec<Option<String>>) -> (r: Option<QuotaRecord>)
    ensures
        match record_of_capture(c.deep_view()) {
            Some(v) => r matches Some(rec) && rec@ == v,
            None => r is None,
        },
{
    let pct = match group_chars(c, 2) {
        Some(p) => p,
        None => return None,
    };
    let percentage = match parse_u8(pct.as_slice()) {
        Some(v) => v,
        None => return None,
    };
    if percentage > 100 {
        return None;
    }
    let label = match group_chars(c, 1) {
        Some(l) => l,
        None => return None,
    };
    let line = match group_chars(c, 0) {
        Some(l) => l,
        None => return None,
    };
    let label_text = crate::text::string_from_chars(label.as_slice());
    Some(
        QuotaRecord {
            label: normalize_label(label_text.as_str()),
            percentage,
            line: crate::text::string_from_chars(line.as_slice()),
        },
    )
}

/// The records of a sequence of quota-line matches (see [`records_of_captures`]).
pub fn quota_records_from_captures(cs: &Vec<Vec<Option<String>>>) -> (r: Vec<QuotaRecord>)
    ensures
        records_view(r@) == records_of_captures(cs.deep_view()),
{
    let n = cs.len();
    let mut r: Vec<QuotaRecord> = Vec::new();
    let ghost all = cs.deep_view();
    for i in 0..n
        invariant
            n == cs@.len(),
            all == cs.deep_view(),
            records_view(r@) == records_of_captures(all.take(i as int)),
    {
        assert(all.take(i + 1).drop_last() =~= all.take(i as int));
        assert(all.take(i + 1).last() == cs@[i as int].deep_view());
        let ghost before = r@;
        match record_from_capture(&cs[i]) {
            Some(rec) => {
                r.push(rec);
                assert(records_view(r@) =~= records_view(before).push(r@.last()@));
            },
            None => {},
        }
    }
    assert(all.take(n as int) =~= all);
    r
}

/// The quota records of an output, in order.
pub fn quota_records(output: &str) -> (r: Vec<QuotaRecord>)
    ensures
        records_view(r@) == quota_records_of(output@),
{
    let cs = all_captures(quota_regex(), output);
    quota_records_from_captures(&cs)
}

/// Every record has a percentage of at most 100.
pub proof fn lemma_records_at_most_full(cs: Seq<Seq<Option<Seq<char>>>>)
    ensures
        forall|i: int|
            0 <= i < records_of_captures(cs).len() ==> #[trigger] records_of_captures(cs)[i].percentage
                <= 100,
    decreases cs.len(),
{
    if cs.len() > 0 {
        lemma_records_at_most_full(cs.drop_last());
        let prev = records_of_captures(cs.drop_last());
        let c = cs.last();
        match record_of_capture(c) {
            Some(r) => {
                match (group(c, 2), group(c, 1), group(c, 0)) {
                    (Some(pct), Some(label), Some(line)) => {
                        let v = parse_unsigned(pct, 255)->0;
                        assert(v <= 100);
                        assert(r.percentage == v as u8);
                    },
                    _ => {},
                }
                assert forall|i: int| 0 <= i < prev.push(r).len() implies #[trigger] prev.push(
                    r,
                )[i].percentage <= 100 by {
                    if i < prev.len() {
                        assert(prev.push(r)[i] == prev[i]);
                    }
                }
            },
            None => {},
        }
    }
}

// ---------------------------------------------------------------------------
// Status generations
// ---------------------------------------------------------------------------

/// The labels of the records.
pub open spec fn labels_of(records: Seq<QuotaRecordView>) -> Seq<Seq<char>> {
    records.map_values(|r: QuotaRecordView| r.label)
}

/// Where the newest status generation starts: reading the labels in order,
/// a label that already occurred since the current start begins a new
/// generation.
pub open spec fn generation_start(labels: Seq<Seq<char>>) -> int
    decreases labels.len(),
{
    if labels.len() == 0 {
        0
    } else {
        let prev = labels.drop_last();
        let start = generation_start(prev);
        if prev.subrange(start, prev.len() as int).contains(labels.last()) {
            prev.len() as int
        } else {
            start
        }
    }
}

/// The start of the newest generation lies within the labels, and before
/// the last one where there is one.
pub proof fn lemma_generation_start_bounds(labels: Seq<Seq<char>>)
    ensures
        0 <= generation_start(labels) <= labels.len(),
        labels.len() > 0 ==> generation_start(labels) < labels.len(),
    decreases labels.len(),
{
    if labels.len() > 0 {
        lemma_generation_start_bounds(labels.drop_last());
    }
}

/// The labels of the newest generation are pairwise distinct.
pub proof fn lemma_generation_distinct(labels: Seq<Seq<char>>)
    ensures
        forall|i: int, j: int|
            generation_start(labels) <= i < j < labels.len() ==> labels[i] != labels[j],
    decreases labels.len(),
{
    if labels.len() > 0 {
        let prev = labels.drop_last();
        lemma_generation_distinct(prev);
        lemma_generation_start_bounds(prev);
        let start = generation_start(prev);
        if !prev.subrange(start, prev.len() as int).contains(labels.last()) {
            assert forall|i: int, j: int|
                generation_start(labels) <= i < j < labels.len() implies labels[i] != labels[j] by {
                if j == labels.len() - 1 {
                    if labels[i] == labels[j] {
                        let sub = prev.subrange(start, prev.len() as int);
                        assert(sub[i - start] == labels[i]);
                        assert(sub.contains(labels.last()));
                    }
                } else {
                    assert(prev[i] == labels[i] && prev[j] == labels[j]);
                }
            }
        }
    }
}

/// A block of distinct labels whose first label already occurred in the
/// newest generation so far starts a new generation, which is then the
/// newest: an older status cannot outweigh a later, complete one.
pub proof fn lemma_repeated_label_starts_generation(old: Seq<Seq<char>>, new: Seq<Seq<char>>)
    requires
        new.len() > 0,
        forall|i: int, j: int| 0 <= i < j < new.len() ==> new[i] != new[j],
        old.subrange(generation_start(old), old.len() as int).contains(new[0]),
    ensures
        generation_start(old + new) == old.len(),
    decreases new.len(),
{
    if new.len() == 1 {
        assert((old + new).drop_last() =~= old);
    } else {
        let shorter = new.drop_last();
        lemma_repeated_label_starts_generation(old, shorter);
        let all = old + new;
        assert(all.drop_last() =~= old + shorter);
        let prev = all.drop_last();
        assert(prev.subrange(old.len() as int, prev.len() as int) =~= shorter);
        if shorter.contains(new.last()) {
            let k = choose|k: int| 0 <= k < shorter.len() && shorter[k] == new.last();
            assert(new[k] == new[new.len() - 1]);
        }
    }
}

/// Where the newest generation of quota records starts.
pub fn latest_generation(records: &Vec<QuotaRecord>) -> (start: usize)
    ensures
        start == generation_start(labels_of(records_view(records@))),
{
    let n = records.len();
    let ghost labels = labels_of(records_view(records@));
    let mut start: usize = 0;
    for i in 0..n
        invariant
            n == records@.len(),
            labels == labels_of(records_view(records@)),
            start as int == generation_start(labels.take(i as int)),
            start <= i,
    {
        let ghost prefix = labels.take(i as int);
        assert(labels.take(i + 1).drop_last() =~= prefix);
        assert(labels.take(i + 1).last() == records@[i as int].label@);
        // Is the label of record i among the labels of records start..i?
        let mut seen = false;
        for k in start..i
            invariant
                n == records@.len(),
                start <= i < n,
                labels == labels_of(records_view(records@)),
                prefix == labels.take(i as int),
                seen == prefix.subrange(start as int, k as int).contains(labels[i as int]),
        {
            assert(prefix.subrange(start as int, k + 1) =~= prefix.subrange(start as int, k as int).push(
                labels[k as int],
            ));
            let same = records[k].label == records[i].label;
            proof {
                let sub = prefix.subrange(start as int, k as int);
                let sub2 = prefix.subrange(start as int, k + 1);
                assert(labels[k as int] == records@[k as int].label@);
                assert(labels[i as int] == records@[i as int].label@);
                if same {
                    assert(sub2[k - start] == labels[i as int]);
                } else if sub2.contains(labels[i as int]) {
                    let t = choose|t: int| 0 <= t < sub2.len() && sub2[t] == labels[i as int];
                    assert(t < sub.len());
                    assert(sub[t] == labels[i as int]);
                }
            }
            if same {
                seen = true;
            }
        }
        if seen {
            start = i;
        }
    }
    assert(labels.take(n as int) =~= labels);
    start
}

// ---------------------------------------------------------------------------
// Months
// ---------------------------------------------------------------------------

/// The English month abbreviations, January first.
pub open spec fn month_names() -> Seq<Seq<char>> {
    seq![
        "jan"@, "feb"@, "mar"@, "apr"@, "may"@, "jun"@, "jul"@, "aug"@, "sep"@, "oct"@, "nov"@,
        "dec"@,
    ]
}

/// The number (1 to 12) of the first month from the `from`-th on whose
/// abbreviation equals `value` ignoring ASCII case.
pub open spec fn month_number_from(value: Seq<char>, from: int) -> Option<u32>
    decreases 12 - from,
{
    if from < 0 || from >= 12 {
        None
    } else if eq_ignore_ascii_case(month_names()[from], value) {
        Some((from + 1) as u32)
    } else {
        month_number_from(value, from + 1)
    }
}

/// The month number of a three-letter English month abbreviation, in any
/// ASCII case.
pub open spec fn month_number(value: Seq<char>) -> Option<u32> {
    month_number_from(value, 0)
}

/// `s` is unchanged by ASCII lower case.
spec fn in_lower_case(s: Seq<char>) -> bool {
    forall|i: int| 0 <= i < s.len() ==> ascii_lower(#[trigger] s[i]) == s[i]
}

/// Two abbreviations that both equal a value ignoring ASCII case, and are
/// themselves in lower case, are the same.
proof fn lemma_lower_case_match_unique(a: Seq<char>, b: Seq<char>, value: Seq<char>)
    requires
        eq_ignore_ascii_case(a, value),
        eq_ignore_ascii_case(b, value),
        in_lower_case(a),
        in_lower_case(b),
    ensures
        a == b,
{
    assert forall|i: int| 0 <= i < a.len() implies a[i] == b[i] by {
        assert(ascii_lower(a[i]) == ascii_lower(value[i]));
        assert(ascii_lower(b[i]) == ascii_lower(value[i]));
    }
    assert(a =~= b);
}

/// Searching from `from`, a value that matches the `k`-th abbreviation is
/// month `k + 1`; a month found is one whose abbreviation matches.
proof fn lemma_month_number_from(value: Seq<char>, from: int)
    requires
        0 <= from <= 12,
    ensures
        forall|k: int|
            from <= k < 12 && eq_ignore_ascii_case(#[trigger] month_names()[k], value) ==> month_number_from(
                value,
                from,
            ) == Some((k + 1) as u32),
        month_number_from(value, from) matches Some(n) ==> from < n <= 12 && eq_ignore_ascii_case(
            month_names()[n - 1],
            value,
        ),
    decreases 12 - from,
{
    let names = month_names();
    assert forall|k: int| 0 <= k < 12 implies in_lower_case(#[trigger] names[k]) by {
        reveal_strlit("jan");
        reveal_strlit("feb");
        reveal_strlit("mar");
        reveal_strlit("apr");
        reveal_strlit("may");
        reveal_strlit("jun");
        reveal_strlit("jul");
        reveal_strlit("aug");
        reveal_strlit("sep");
        reveal_strlit("oct");
        reveal_strlit("nov");
        reveal_strlit("dec");
    }
    if from < 12 {
        lemma_month_number_from(value, from + 1);
        if eq_ignore_ascii_case(names[from], value) {
            assert forall|k: int|
                from <= k < 12 && eq_ignore_ascii_case(#[trigger] names[k], value) implies k
                == from by {
                lemma_lower_case_match_unique(names[k], names[from], value);
                lemma_month_names_distinct(k, from);
            }
        }
    }
}

/// The twelve abbreviations are distinct.
proof fn lemma_month_names_distinct(j: int, k: int)
    requires
        0 <= j < 12,
        0 <= k < 12,
        month_names()[j] == month_names()[k],
    ensures
        j == k,
{
    reveal_strlit("jan");
    reveal_strlit("feb");
    reveal_strlit("mar");
    reveal_strlit("apr");
    reveal_strlit("may");
    reveal_strlit("jun");
    reveal_strlit("jul");
    reveal_strlit("aug");
    reveal_strlit("sep");
    reveal_strlit("oct");
    reveal_strlit("nov");
    reveal_strlit("dec");
    let names = month_names();
    assert(names[j][0] == names[k][0] && names[j][1] == names[k][1] && names[j][2]
        == names[k][2]);
}

/// The month numbers: in any ASCII case, the English abbreviation of the
/// `k`-th month of the year ("jan" for January, ..., "jun" for June, "jul"
/// for July, ..., "dec" for December) is month `k`, and a value that is none
/// of them gives no month.
pub proof fn lemma_month_numbers(value: Seq<char>)
    ensures
        ({
            let english = seq!["jan"@, "feb"@, "mar"@, "apr"@, "may"@, "jun"@, "jul"@, "aug"@, "sep"@, "oct"@, "nov"@, "dec"@];
            &&& forall|k: int|
                1 <= k <= 12 && eq_ignore_ascii_case(#[trigger] english[k - 1], value) ==> month_number(
                    value,
                ) == Some(k as u32)
            &&& month_number(value) matches Some(n) ==> 1 <= n <= 12 && eq_ignore_ascii_case(
                english[n - 1],
                value,
            )
        }),
{
    lemma_month_number_from(value, 0);
    assert(month_names() =~= seq!["jan"@, "feb"@, "mar"@, "apr"@, "may"@, "jun"@, "jul"@, "aug"@, "sep"@, "oct"@, "nov"@, "dec"@]);
}

/// Reads a three-letter English month abbreviation (see [`month_number`]).
pub fn parse_month(value: &str) -> (r: Option<u32>)
    ensures
        r == month_number(value@),
{
    let v = chars_of(value);
    month_of_chars(v.as_slice())
}

fn month_of_chars(v: &[char]) -> (r: Option<u32>)
    ensures
        r == month_number(v@),
{
    let names = vec![
        chars_of("jan"),
        chars_of("feb"),
        chars_of("mar"),
        chars_of("apr"),
        chars_of("may"),
        chars_of("jun"),
        chars_of("jul"),
        chars_of("aug"),
        chars_of("sep"),
        chars_of("oct"),
        chars_of("nov"),
        chars_of("dec"),
    ];
    assert(names.deep_view() =~= month_names()) by {
        assert forall|k: int| 0 <= k < 12 implies names.deep_view()[k] == month_names()[k] by {
            crate::text::lemma_char_vec_deep_view(names@[k]);
        }
    }
    let mut i: usize = 0;
    while i < 12
        invariant
            names@.len() == 12,
            names.deep_view() == month_names(),
            i <= 12,
            month_number(v@) == month_number_from(v@, i as int),
        decreases 12 - i,
    {
        proof {
            crate::text::lemma_char_vec_deep_view(names@[i as int]);
        }
        if equal_ignoring_ascii_case(names[i].as_slice(), v) {
            return Some((i + 1) as u32);
        }
        i = i + 1;
    }
    None
}


// ---------------------------------------------------------------------------
// Reset times
// ---------------------------------------------------------------------------

/// The first instant after `now` at `hour:minute` on `day` of `month`, in
/// the year of `now`'s local date or the year after, at `now`'s offset. A
/// year in which chrono gives no such instant (the date does not exist
/// there, such as 29 February of a common year) is skipped.
pub open spec fn dated_reset(now: ZonedTimeView, month: u32, day: u32, time: (u32, u32)) -> Option<
    ZonedTimeView,
> {
    let year = chrono_local_date(now.timestamp, now.offset).0;
    match chrono_local_timestamp(now.offset, year, month, day, time.0, time.1) {
        Some(t) if t > now.timestamp => Some(ZonedTimeView { timestamp: t, nanos: 0, offset: now.offset }),
        _ => match chrono_local_timestamp(now.offset, (year + 1) as i32, month, day, time.0, time.1) {
            Some(t2) if t2 > now.timestamp => Some(
                ZonedTimeView { timestamp: t2, nanos: 0, offset: now.offset },
            ),
            _ => None,
        },
    }
}

/// `hour:minute` on `now`'s local date, or on the next day where that is not
/// after `now`. On chrono's last representable day there is no next day:
/// where chrono would panic adding it, there is no reset.
pub open spec fn same_day_reset(now: ZonedTimeView, time: (u32, u32)) -> Option<ZonedTimeView> {
    let d = chrono_local_date(now.timestamp, now.offset);
    match chrono_local_timestamp(now.offset, d.0, d.1, d.2, time.0, time.1) {
        None => None,
        Some(t) => if t <= now.timestamp {
            match day_after(CivilDate { year: d.0, month: d.1, day: d.2 }) {
                None => None,
                Some(n) => match chrono_local_timestamp(
                    now.offset,
                    n.year,
                    n.month,
                    n.day,
                    time.0,
                    time.1,
                ) {
                    Some(t2) => Some(ZonedTimeView { timestamp: t2, nanos: 0, offset: now.offset }),
                    None => None,
                },
            }
        } else {
            Some(ZonedTimeView { timestamp: t, nanos: 0, offset: now.offset })
        },
    }
}

/// The reset of a dated-reset match: group 1 the time, group 2 the day,
/// group 3 the month. (The pattern makes every group take part in a match;
/// a capture without one gives no reset.)
pub open spec fn reset_of_dated_capture(c: Seq<Option<Seq<char>>>, now: ZonedTimeView) -> Option<
    ZonedTimeView,
> {
    match (group(c, 1), group(c, 2), group(c, 3)) {
        (Some(t), Some(d), Some(m)) => match (
            chrono_parse_hour_minute(t),
            parse_unsigned(d, 0xffff_ffff),
            month_number(m),
        ) {
            (Some(hm), Some(day), Some(month)) => dated_reset(now, month, day as u32, hm),
            _ => None,
        },
        _ => None,
    }
}

/// The reset of a same-day-reset match: group 1 the time.
pub open spec fn reset_of_same_day_capture(c: Seq<Option<Seq<char>>>, now: ZonedTimeView) -> Option<
    ZonedTimeView,
> {
    match group(c, 1) {
        Some(t) => match chrono_parse_hour_minute(t) {
            Some(hm) => same_day_reset(now, hm),
            None => None,
        },
        None => None,
    }
}

/// The reset time that a line announces: a dated reset where the line has
/// one, else a same-day reset.
pub open spec fn reset_of_text(text: Seq<char>, now: ZonedTimeView) -> Option<ZonedTimeView> {
    match regex_first_captures(dated_reset_pattern(), text) {
        Some(c) => reset_of_dated_capture(c, now),
        None => match regex_first_captures(same_day_reset_pattern(), text) {
            Some(c) => reset_of_same_day_capture(c, now),
            None => None,
        },
    }
}

/// The next instant after `now` at `time` on `day` of `month` (see [`dated_reset`]).
pub fn next_dated_reset(now: &ZonedTime, month: u32, day: u32, time: ClockTime) -> (r: Option<
    ZonedTime,
>)
    ensures
        zoned_opt_view(r) == dated_reset(now@, month, day, (time.hour, time.minute)),
        r matches Some(t) ==> t@.timestamp > now@.timestamp,
{
    let date = now.local_date();
    let offset = now.offset_seconds();
    match local_datetime(offset, date.year, month, day, time.hour, time.minute) {
        Some(c) => {
            if c.timestamp() > now.timestamp() {
                return Some(c);
            }
        },
        None => {},
    }
    match local_datetime(offset, date.year + 1, month, day, time.hour, time.minute) {
        Some(c) => {
            if c.timestamp() > now.timestamp() {
                return Some(c);
            }
        },
        None => {},
    }
    None
}

/// The reset of a dated-reset match (see [`reset_of_dated_capture`]).
pub fn reset_from_dated_capture(c: &Vec<Option<String>>, now: &ZonedTime) -> (r: Option<ZonedTime>)
    ensures
        zoned_opt_view(r) == reset_of_dated_capture(c.deep_view(), now@),
        r matches Some(z) ==> z@.timestamp > now@.timestamp,
{
    let (t, d, m) = match (group_chars(c, 1), group_chars(c, 2), group_chars(c, 3)) {
        (Some(t), Some(d), Some(m)) => (t, d, m),
        _ => return None,
    };
    let time = match parse_time(t.as_slice()) {
        Some(x) => x,
        None => return None,
    };
    let day = match parse_u32(d.as_slice()) {
        Some(x) => x,
        None => return None,
    };
    let month = match month_of_chars(m.as_slice()) {
        Some(x) => x,
        None => return None,
    };
    next_dated_reset(now, month, day, time)
}

/// The reset of a same-day-reset match (see [`reset_of_same_day_capture`]).
pub fn reset_from_same_day_capture(c: &Vec<Option<String>>, now: &ZonedTime) -> (r: Option<
    ZonedTime,
>)
    ensures
        zoned_opt_view(r) == reset_of_same_day_capture(c.deep_view(), now@),
        r matches Some(z) ==> now@.timestamp < z@.timestamp <= now@.timestamp + 86400,
{
    let t = match group_chars(c, 1) {
        Some(t) => t,
        None => return None,
    };
    let time = match parse_time(t.as_slice()) {
        Some(x) => x,
        None => return None,
    };
    let date = now.local_date();
    let offset = now.offset_seconds();
    let reset = match local_datetime(offset, date.year, date.month, date.day, time.hour, time.minute) {
        Some(x) => x,
        None => return None,
    };
    if reset.timestamp() <= now.timestamp() {
        let next = match next_day(date) {
            Some(n) => n,
            None => return None,
        };
        local_datetime(offset, next.year, next.month, next.day, time.hour, time.minute)
    } else {
        Some(reset)
    }
}

/// The reset time that a line announces (see [`reset_of_text`]).
pub fn parse_reset(text: &str, now: &ZonedTime) -> (r: Option<ZonedTime>)
    ensures
        zoned_opt_view(r) == reset_of_text(text@, now@),
        r matches Some(z) ==> z@.timestamp > now@.timestamp,
{
    match first_captures(dated_reset_regex(), text) {
        Some(c) => reset_from_dated_capture(&c, now),
        None => match first_captures(same_day_reset_regex(), text) {
            Some(c) => reset_from_same_day_capture(&c, now),
            None => None,
        },
    }
}

// ---------------------------------------------------------------------------
// "try again at" timestamps
// ---------------------------------------------------------------------------

/// The 24-hour hour of a 12-hour `hour` with its "AM"/"PM" marker (any
/// ASCII case); `None` for another marker.
pub open spec fn hour_of_meridiem(hour: u32, meridiem: Seq<char>) -> Option<u32> {
    let m = meridiem.map_values(|c: char| ascii_upper(c));
    if m == "AM"@ {
        Some(hour % 12)
    } else if m == "PM"@ {
        Some((hour % 12 + 12) as u32)
    } else {
        None
    }
}

/// The 12-hour clock: in any ASCII case, `h AM` is hour `h` of the day for
/// `h` from 1 to 11 and `12 AM` is hour 0 (midnight); `h PM` is hour
/// `h + 12` for `h` from 1 to 11 and `12 PM` is hour 12 (noon). Every hour
/// reads modulo 12, and any other marker gives no hour.
pub proof fn lemma_twelve_hour_clock(hour: u32, marker: Seq<char>)
    ensures
        eq_ignore_ascii_case(marker, "am"@) ==> hour_of_meridiem(hour, marker) == Some(hour % 12),
        eq_ignore_ascii_case(marker, "pm"@) ==> hour_of_meridiem(hour, marker) == Some(
            (hour % 12 + 12) as u32,
        ),
        eq_ignore_ascii_case(marker, "am"@) && 1 <= hour <= 11 ==> hour_of_meridiem(hour, marker)
            == Some(hour),
        eq_ignore_ascii_case(marker, "am"@) && hour == 12 ==> hour_of_meridiem(hour, marker)
            == Some(0u32),
        eq_ignore_ascii_case(marker, "pm"@) && 1 <= hour <= 11 ==> hour_of_meridiem(hour, marker)
            == Some((hour + 12) as u32),
        eq_ignore_ascii_case(marker, "pm"@) && hour == 12 ==> hour_of_meridiem(hour, marker)
            == Some(12u32),
        !eq_ignore_ascii_case(marker, "am"@) && !eq_ignore_ascii_case(marker, "pm"@)
            ==> hour_of_meridiem(hour, marker) is None,
{
    reveal_strlit("am");
    reveal_strlit("pm");
    reveal_strlit("AM");
    reveal_strlit("PM");
    let m = marker.map_values(|c: char| ascii_upper(c));
    assert("AM"@ =~= seq!['A', 'M']);
    assert("PM"@ =~= seq!['P', 'M']);
    assert("am"@ =~= seq!['a', 'm']);
    assert("pm"@ =~= seq!['p', 'm']);
    if eq_ignore_ascii_case(marker, "am"@) {
        assert(ascii_lower(marker[0]) == 'a' && ascii_lower(marker[1]) == 'm');
        assert(m =~= "AM"@);
    } else if eq_ignore_ascii_case(marker, "pm"@) {
        assert(ascii_lower(marker[0]) == 'p' && ascii_lower(marker[1]) == 'm');
        assert(m =~= "PM"@);
        assert(m[0] != "AM"@[0]);
    } else {
        if m == "AM"@ {
            assert(m.len() == 2 && marker.len() == 2);
            assert(m[0] == 'A' && m[1] == 'M');
            assert(ascii_upper(marker[0]) == 'A' && ascii_upper(marker[1]) == 'M');
            assert(ascii_lower(marker[0]) == 'a' && ascii_lower(marker[1]) == 'm');
            assert(eq_ignore_ascii_case(marker, "am"@));
        }
        if m == "PM"@ {
            assert(m.len() == 2 && marker.len() == 2);
            assert(m[0] == 'P' && m[1] == 'M');
            assert(ascii_upper(marker[0]) == 'P' && ascii_upper(marker[1]) == 'M');
            assert(ascii_lower(marker[0]) == 'p' && ascii_lower(marker[1]) == 'm');
            assert(eq_ignore_ascii_case(marker, "pm"@));
        }
    }
}

/// The instant of a "try again at" match: groups 1 to 6 are the month, the
/// day, the year, the hour, the minute and the AM/PM marker; the time is
/// local at `now`'s offset.
pub open spec fn reset_of_try_again_capture(c: Seq<Option<Seq<char>>>, now: ZonedTimeView) -> Option<
    ZonedTimeView,
> {
    match (group(c, 1), group(c, 2), group(c, 3), group(c, 4), group(c, 5), group(c, 6)) {
        (Some(mo), Some(d), Some(y), Some(h), Some(mi), Some(ap)) => match (
            month_number(mo),
            parse_unsigned(d, 0xffff_ffff),
            parse_i32(y),
            parse_unsigned(h, 0xffff_ffff),
            parse_unsigned(mi, 0xffff_ffff),
        ) {
            (Some(month), Some(day), Some(year), Some(hour), Some(minute)) => match hour_of_meridiem(
                hour as u32,
                ap,
            ) {
                Some(h24) => match chrono_local_timestamp(
                    now.offset,
                    year as i32,
                    month,
                    day as u32,
                    h24,
                    minute as u32,
                ) {
                    Some(t) => Some(ZonedTimeView { timestamp: t, nanos: 0, offset: now.offset }),
                    None => None,
                },
                None => None,
            },
            _ => None,
        },
        _ => None,
    }
}

/// The instant of the last "try again at" message of the text.
pub open spec fn try_again_reset(text: Seq<char>, now: ZonedTimeView) -> Option<ZonedTimeView> {
    let cs = regex_all_captures(try_again_pattern(), text);
    if cs.len() == 0 {
        None
    } else {
        reset_of_try_again_capture(cs.last(), now)
    }
}

fn meridiem_hour(hour: u32, meridiem: &[char]) -> (r: Option<u32>)
    ensures
        r == hour_of_meridiem(hour, meridiem@),
{
    let upper = uppercase_ascii(meridiem);
    let am = chars_of("AM");
    let pm = chars_of("PM");
    if chars_equal(upper.as_slice(), am.as_slice()) {
        Some(hour % 12)
    } else if chars_equal(upper.as_slice(), pm.as_slice()) {
        Some(hour % 12 + 12)
    } else {
        None
    }
}

/// The instant of a "try again at" match (see [`reset_of_try_again_capture`]).
pub fn reset_from_try_again_capture(c: &Vec<Option<String>>, now: &ZonedTime) -> (r: Option<
    ZonedTime,
>)
    ensures
        zoned_opt_view(r) == reset_of_try_again_capture(c.deep_view(), now@),
{
    let (mo, d, y, h, mi, ap) = match (
        group_chars(c, 1),
        group_chars(c, 2),
        group_chars(c, 3),
        group_chars(c, 4),
        group_chars(c, 5),
        group_chars(c, 6),
    ) {
        (Some(mo), Some(d), Some(y), Some(h), Some(mi), Some(ap)) => (mo, d, y, h, mi, ap),
        _ => return None,
    };
    let month = match month_of_chars(mo.as_slice()) {
        Some(x) => x,
        None => return None,
    };
    let day = match parse_u32(d.as_slice()) {
        Some(x) => x,
        None => return None,
    };
    let year = match parse_i32_chars(y.as_slice()) {
        Some(x) => x,
        None => return None,
    };
    let hour = match parse_u32(h.as_slice()) {
        Some(x) => x,
        None => return None,
    };
    let minute = match parse_u32(mi.as_slice()) {
        Some(x) => x,
        None => return None,
    };
    let hour = match meridiem_hour(hour, ap.as_slice()) {
        Some(x) => x,
        None => return None,
    };
    local_datetime(now.offset_seconds(), year, month, day, hour, minute)
}

/// The instant of the last "try again at" message of the text (see [`try_again_reset`]).
pub fn parse_try_again(text: &str, now: &ZonedTime) -> (r: Option<ZonedTime>)
    ensures
        zoned_opt_view(r) == try_again_reset(text@, now@),
{
    let cs = all_captures(try_again_regex(), text);
    let n = cs.len();
    if n == 0 {
        return None;
    }
    proof {
        assert(cs.deep_view().last() == cs@[n - 1].deep_view());
    }
    reset_from_try_again_capture(&cs[n - 1], now)
}


// ---------------------------------------------------------------------------
// Status
// ---------------------------------------------------------------------------

/// The quota state and, where known, when the quota resets.
pub struct Status {
    pub quota: QuotaState,
    pub next_reset: Option<ZonedTime>,
}

pub struct StatusView {
    pub quota: QuotaState,
    pub next_reset: Option<ZonedTimeView>,
}

impl View for Status {
    type V = StatusView;

    open spec fn view(&self) -> StatusView {
        StatusView { quota: self.quota, next_reset: zoned_opt_view(self.next_reset) }
    }
}

/// Exhausted where a record of the generation starting at `start` is at 0%,
/// else available.
pub open spec fn quota_of_generation(records: Seq<QuotaRecordView>, start: int) -> QuotaState {
    if exists|i: int| start <= i < records.len() && records[i].percentage == 0 {
        QuotaState::Exhausted
    } else {
        QuotaState::Available
    }
}

/// The known resets of the records `start..end` that are at 0%, in order.
pub open spec fn reset_candidates(
    records: Seq<QuotaRecordView>,
    resets: Seq<Option<ZonedTimeView>>,
    start: int,
    end: int,
) -> Seq<ZonedTimeView>
    decreases end - start,
{
    if end <= start {
        Seq::empty()
    } else {
        let prev = reset_candidates(records, resets, start, end - 1);
        if records[end - 1].percentage == 0 && resets[end - 1] is Some {
            prev.push(resets[end - 1]->0)
        } else {
            prev
        }
    }
}

/// The earliest instant of the sequence; the first of equally early ones.
pub open spec fn earliest(ts: Seq<ZonedTimeView>) -> Option<ZonedTimeView>
    decreases ts.len(),
{
    if ts.len() == 0 {
        None
    } else {
        match earliest(ts.drop_last()) {
            None => Some(ts.last()),
            Some(m) => if ts.last().timestamp < m.timestamp {
                Some(ts.last())
            } else {
                Some(m)
            },
        }
    }
}

/// The status that records give, with `resets[i]` the reset announced by
/// record `i` and `fallback` the "try again at" instant: with no records the
/// quota is unknown and the reset is the fallback; else the newest
/// generation decides the quota, and the reset is the earliest reset of its
/// exhausted records, or the fallback where none is known.
pub open spec fn status_of(
    records: Seq<QuotaRecordView>,
    resets: Seq<Option<ZonedTimeView>>,
    fallback: Option<ZonedTimeView>,
) -> StatusView {
    if records.len() == 0 {
        StatusView { quota: QuotaState::Unknown, next_reset: fallback }
    } else {
        let start = generation_start(labels_of(records));
        let next = match earliest(reset_candidates(records, resets, start, records.len() as int)) {
            Some(t) => Some(t),
            None => fallback,
        };
        StatusView { quota: quota_of_generation(records, start), next_reset: next }
    }
}

/// The earliest instant is one of the instants and no later than any of them.
pub proof fn lemma_earliest(ts: Seq<ZonedTimeView>)
    ensures
        earliest(ts) is None <==> ts.len() == 0,
        earliest(ts) matches Some(m) ==> ts.contains(m) && forall|i: int|
            0 <= i < ts.len() ==> m.timestamp <= #[trigger] ts[i].timestamp,
    decreases ts.len(),
{
    if ts.len() > 0 {
        let prev = ts.drop_last();
        lemma_earliest(prev);
        match earliest(prev) {
            None => {
                assert(ts[ts.len() - 1] == ts.last());
            },
            Some(m) => {
                let k = choose|k: int| 0 <= k < prev.len() && prev[k] == m;
                assert(ts[k] == m);
                assert(ts[ts.len() - 1] == ts.last());
                assert forall|i: int| 0 <= i < ts.len() implies earliest(ts)->0.timestamp
                    <= #[trigger] ts[i].timestamp by {
                    if i < ts.len() - 1 {
                        assert(ts[i] == prev[i]);
                    }
                }
            },
        }
    }
}

/// The quota of a status: unknown without records; else exhausted exactly
/// where a record of the newest generation is at 0%.
pub proof fn lemma_status_quota(
    records: Seq<QuotaRecordView>,
    resets: Seq<Option<ZonedTimeView>>,
    fallback: Option<ZonedTimeView>,
)
    ensures
        records.len() == 0 ==> status_of(records, resets, fallback).quota == QuotaState::Unknown,
        records.len() > 0 ==> (status_of(records, resets, fallback).quota == QuotaState::Exhausted
            <==> exists|i: int|
            generation_start(labels_of(records)) <= i < records.len() && #[trigger] records[i].percentage
                == 0),
        records.len() > 0 ==> status_of(records, resets, fallback).quota != QuotaState::Unknown,
{
}

/// The next reset of a status is the earliest known reset of an exhausted
/// window of the newest generation, where one is known, and no later than
/// any of them.
pub proof fn lemma_status_next_reset(
    records: Seq<QuotaRecordView>,
    resets: Seq<Option<ZonedTimeView>>,
    fallback: Option<ZonedTimeView>,
)
    requires
        records.len() > 0,
        resets.len() == records.len(),
    ensures
        ({
            let start = generation_start(labels_of(records));
            let cands = reset_candidates(records, resets, start, records.len() as int);
            &&& cands.len() == 0 ==> status_of(records, resets, fallback).next_reset == fallback
            &&& cands.len() > 0 ==> (status_of(records, resets, fallback).next_reset matches Some(m)
                && cands.contains(m) && forall|i: int|
                0 <= i < cands.len() ==> m.timestamp <= #[trigger] cands[i].timestamp)
        }),
{
    let start = generation_start(labels_of(records));
    let cands = reset_candidates(records, resets, start, records.len() as int);
    lemma_earliest(cands);
}

/// The reset announced by each record that is at 0%.
pub open spec fn record_resets(records: Seq<QuotaRecordView>, now: ZonedTimeView) -> Seq<
    Option<ZonedTimeView>,
> {
    Seq::new(
        records.len(),
        |i: int|
            if records[i].percentage == 0 {
                reset_of_text(records[i].line, now)
            } else {
                None
            },
    )
}

/// The status that a captured output shows at `now`.
pub open spec fn latest_status(output: Seq<char>, now: ZonedTimeView) -> StatusView {
    let records = quota_records_of(output);
    status_of(records, record_resets(records, now), try_again_reset(output, now))
}

/// The resets as values.
pub open spec fn resets_view(resets: Seq<Option<ZonedTime>>) -> Seq<Option<ZonedTimeView>> {
    resets.map_values(|o: Option<ZonedTime>| zoned_opt_view(o))
}

/// The status that records give (see [`status_of`]).
pub fn status_from_parts(
    records: &Vec<QuotaRecord>,
    resets: &Vec<Option<ZonedTime>>,
    fallback: Option<ZonedTime>,
) -> (r: Status)
    requires
        resets@.len() == records@.len(),
    ensures
        r@ == status_of(records_view(records@), resets_view(resets@), zoned_opt_view(fallback)),
{
    let n = records.len();
    if n == 0 {
        return Status { quota: QuotaState::Unknown, next_reset: fallback };
    }
    let ghost rs = records_view(records@);
    let ghost vs = resets_view(resets@);
    let start = latest_generation(records);
    proof {
        lemma_generation_start_bounds(labels_of(rs));
    }
    let mut exhausted = false;
    let mut best: Option<ZonedTime> = None;
    for i in start..n
        invariant
            n == records@.len(),
            n == resets@.len(),
            start <= n,
            rs == records_view(records@),
            vs == resets_view(resets@),
            exhausted == exists|j: int| start <= j < i && rs[j].percentage == 0,
            zoned_opt_view(best) == earliest(reset_candidates(rs, vs, start as int, i as int)),
    {
        assert(rs[i as int] == records@[i as int]@);
        assert(vs[i as int] == zoned_opt_view(resets@[i as int]));
        let ghost prev_best = zoned_opt_view(best);
        proof {
            let prev = reset_candidates(rs, vs, start as int, i as int);
            let next = reset_candidates(rs, vs, start as int, i + 1);
            if rs[i as int].percentage == 0 && vs[i as int] is Some {
                assert(next.drop_last() =~= prev);
                assert(next.last() == vs[i as int]->0);
            } else {
                assert(next == prev);
            }
        }
        if records[i].percentage == 0 {
            exhausted = true;
            match &resets[i] {
                Some(t) => {
                    let better = match &best {
                        Some(b) => t.timestamp() < b.timestamp(),
                        None => true,
                    };
                    if better {
                        best = Some(t.clone());
                    }
                },
                None => {},
            }
        }
    }
    let quota = if exhausted {
        QuotaState::Exhausted
    } else {
        QuotaState::Available
    };
    let next_reset = match best {
        Some(t) => Some(t),
        None => fallback,
    };
    Status { quota, next_reset }
}

/// Parses the newest quota status in captured output at the local time
/// `now` (see [`latest_status`]).
pub fn parse_latest_status(output: &str, now: ZonedTime) -> (r: Status)
    ensures
        r@ == latest_status(output@, now@),
{
    let records = quota_records(output);
    let n = records.len();
    let ghost rs = records_view(records@);
    let mut resets: Vec<Option<ZonedTime>> = Vec::new();
    for i in 0..n
        invariant
            n == records@.len(),
            rs == records_view(records@),
            resets_view(resets@) == record_resets(rs, now@).take(i as int),
            resets@.len() == i,
    {
        let ghost before = resets@;
        assert(rs[i as int] == records@[i as int]@);
        let x = if records[i].percentage == 0 {
            parse_reset(records[i].line.as_str(), &now)
        } else {
            None
        };
        assert(zoned_opt_view(x) == record_resets(rs, now@)[i as int]);
        resets.push(x);
        assert(resets@ =~= before.push(x));
        assert(resets_view(resets@) =~= record_resets(rs, now@).take(i + 1)) by {
            assert forall|j: int| 0 <= j < i + 1 implies resets_view(resets@)[j] == record_resets(
                rs,
                now@,
            ).take(i + 1)[j] by {
                assert(resets_view(resets@)[j] == zoned_opt_view(resets@[j]));
                if j < i {
                    assert(resets@[j] == before[j]);
                    assert(resets_view(before)[j] == zoned_opt_view(before[j]));
                    assert(resets_view(before)[j] == record_resets(rs, now@).take(i as int)[j]);
                }
            }
        }
    }
    assert(record_resets(rs, now@).take(n as int) =~= record_resets(rs, now@));
    let fallback = parse_try_again(output, &now);
    status_from_parts(&records, &resets, fallback)
}

} // verus!
