//! Local usage telemetry: aggregate counters kept for all time and per day,
//! and the bounds on the local event journal.
use vstd::prelude::*;

use crate::error::AtlasError;
use crate::text::{lemma_seq_le_total, lemma_seq_lt_trans, padded_decimal, seq_le, seq_lt, str_eq, str_le};

verus! {

/// The detailed journal keeps at most this many bytes.
pub const MAX_EVENT_JOURNAL_BYTES: usize = 10485760;

/// Daily buckets are kept for this many days, the current one included.
pub const DAILY_METRICS_RETENTION_DAYS: i64 = 90;

/// Whether telemetry is recorded.
#[derive(Debug, Clone, Copy)]
pub struct TelemetryConfig {
    pub enabled: bool,
}

impl Default for TelemetryConfig {
    fn default() -> (r: Self)
        ensures
            r.enabled,
    {
        Self { enabled: true }
    }
}

#[derive(Debug, Clone)]
pub struct TelemetryStatus {
    pub enabled: bool,
    pub events_path: String,
}

#[derive(Debug, Clone, Copy)]
pub struct TelemetryClearResult {
    pub cleared: bool,
}

#[derive(Debug, Clone, Copy)]
pub struct FeedbackResult {
    pub recorded: bool,
}

/// Aggregate counters of retrieval use and feedback.
#[derive(Debug, Clone, Copy, PartialEq, Eq, Structural)]
pub struct TelemetryCounters {
    pub searches: u64,
    pub zero_result_searches: u64,
    pub results_matched: u64,
    pub gets: u64,
    pub helpful_feedback: u64,
    pub misleading_feedback: u64,
    pub stale_feedback: u64,
    pub missing_feedback: u64,
}

/// All counters zero.
pub open spec fn zero_counters() -> TelemetryCounters {
    TelemetryCounters {
        searches: 0,
        zero_result_searches: 0,
        results_matched: 0,
        gets: 0,
        helpful_feedback: 0,
        misleading_feedback: 0,
        stale_feedback: 0,
        missing_feedback: 0,
    }
}

impl Default for TelemetryCounters {
    fn default() -> (r: Self)
        ensures
            r == zero_counters(),
    {
        TelemetryCounters {
            searches: 0,
            zero_result_searches: 0,
            results_matched: 0,
            gets: 0,
            helpful_feedback: 0,
            misleading_feedback: 0,
            stale_feedback: 0,
            missing_feedback: 0,
        }
    }
}

/// Caller feedback about a search result.
#[derive(Debug, Clone, Copy, PartialEq, Eq, Structural)]
pub enum FeedbackVerdict {
    Helpful,
    Misleading,
    Stale,
    Missing,
}

/// One event's contribution to the counters.
#[derive(Debug, Clone, Copy)]
pub enum MetricsUpdate {
    Search { total_results: usize },
    Get,
    Feedback(FeedbackVerdict),
}

/// The counters of one day, keyed by the day as `YYYY-MM-DD`.
#[derive(Debug, Clone)]
pub struct DailyCounters {
    pub day: String,
    pub counters: TelemetryCounters,
}

impl View for DailyCounters {
    type V = (Seq<char>, TelemetryCounters);

    open spec fn view(&self) -> (Seq<char>, TelemetryCounters) {
        (self.day@, self.counters)
    }
}

/// All-time counters and the daily buckets, in increasing order of day.
#[derive(Debug, Clone)]
pub struct TelemetryMetrics {
    pub all_time: TelemetryCounters,
    pub daily: Vec<DailyCounters>,
}

impl Default for TelemetryMetrics {
    fn default() -> (r: Self)
        ensures
            r.all_time == zero_counters(),
            r.daily@.len() == 0,
    {
        TelemetryMetrics { all_time: TelemetryCounters::default(), daily: Vec::new() }
    }
}

pub open spec fn bucket_views(daily: Seq<DailyCounters>) -> Seq<(Seq<char>, TelemetryCounters)> {
    daily.map_values(|d: DailyCounters| d@)
}

/// Days strictly increase along the buckets (so no day appears twice).
pub open spec fn days_sorted(b: Seq<(Seq<char>, TelemetryCounters)>) -> bool {
    forall|i: int, j: int| 0 <= i < j < b.len() ==> seq_lt(b[i].0, b[j].0)
}

impl TelemetryMetrics {
    pub open spec fn wf(&self) -> bool {
        days_sorted(bucket_views(self.daily@))
    }

    /// Whether the daily buckets are in strictly increasing order of day.
    pub fn days_in_order(&self) -> (r: bool)
        ensures
            r == self.wf(),
    {
        let ghost b = bucket_views(self.daily@);
        if self.daily.len() == 0 {
            return true;
        }
        let mut k: usize = 1;
        while k < self.daily.len()
            invariant
                1 <= k <= self.daily.len(),
                b == bucket_views(self.daily@),
                forall|i: int, j: int| 0 <= i < j < k ==> seq_lt(#[trigger] b[i].0, #[trigger] b[j].0),
            decreases self.daily.len() - k,
        {
            let prev = self.daily[k - 1].day.as_str();
            let cur = self.daily[k].day.as_str();
            if !(str_le(prev, cur) && !str_eq(prev, cur)) {
                assert(!seq_lt(b[k - 1].0, b[k as int].0));
                return false;
            }
            proof {
                assert forall|i: int, j: int| 0 <= i < j < k + 1 implies seq_lt(#[trigger] b[i].0, #[trigger] b[j].0) by {
                    if j == k && i < k - 1 {
                        lemma_seq_lt_trans(b[i].0, b[k - 1].0, b[k as int].0);
                    }
                }
            }
            k += 1;
        }
        true
    }
}

/// The counters after one event.
pub open spec fn applied(c: TelemetryCounters, u: MetricsUpdate) -> TelemetryCounters {
    match u {
        MetricsUpdate::Search { total_results } => TelemetryCounters {
            searches: (c.searches + 1) as u64,
            results_matched: (c.results_matched + total_results) as u64,
            zero_result_searches: if total_results == 0 {
                (c.zero_result_searches + 1) as u64
            } else {
                c.zero_result_searches
            },
            ..c
        },
        MetricsUpdate::Get => TelemetryCounters { gets: (c.gets + 1) as u64, ..c },
        MetricsUpdate::Feedback(FeedbackVerdict::Helpful) => TelemetryCounters {
            helpful_feedback: (c.helpful_feedback + 1) as u64,
            ..c
        },
        MetricsUpdate::Feedback(FeedbackVerdict::Misleading) => TelemetryCounters {
            misleading_feedback: (c.misleading_feedback + 1) as u64,
            ..c
        },
        MetricsUpdate::Feedback(FeedbackVerdict::Stale) => TelemetryCounters {
            stale_feedback: (c.stale_feedback + 1) as u64,
            ..c
        },
        MetricsUpdate::Feedback(FeedbackVerdict::Missing) => TelemetryCounters {
            missing_feedback: (c.missing_feedback + 1) as u64,
            ..c
        },
    }
}

/// The counters the event touches stay within `u64`.
pub open spec fn can_apply(c: TelemetryCounters, u: MetricsUpdate) -> bool {
    match u {
        MetricsUpdate::Search { total_results } => {
            &&& c.searches < u64::MAX
            &&& c.results_matched + total_results <= u64::MAX
            &&& total_results == 0 ==> c.zero_result_searches < u64::MAX
        },
        MetricsUpdate::Get => c.gets < u64::MAX,
        MetricsUpdate::Feedback(FeedbackVerdict::Helpful) => c.helpful_feedback < u64::MAX,
        MetricsUpdate::Feedback(FeedbackVerdict::Misleading) => c.misleading_feedback < u64::MAX,
        MetricsUpdate::Feedback(FeedbackVerdict::Stale) => c.stale_feedback < u64::MAX,
        MetricsUpdate::Feedback(FeedbackVerdict::Missing) => c.missing_feedback < u64::MAX,
    }
}

/// Count one event.
pub fn apply_metric_update(counters: &mut TelemetryCounters, update: MetricsUpdate)
    requires
        can_apply(*old(counters), update),
    ensures
        *final(counters) == applied(*old(counters), update),
{
    match update {
        MetricsUpdate::Search { total_results } => {
            counters.searches += 1;
            counters.results_matched += total_results as u64;
            if total_results == 0 {
                counters.zero_result_searches += 1;
            }
        },
        MetricsUpdate::Get => counters.gets += 1,
        MetricsUpdate::Feedback(FeedbackVerdict::Helpful) => counters.helpful_feedback += 1,
        MetricsUpdate::Feedback(FeedbackVerdict::Misleading) => counters.misleading_feedback += 1,
        MetricsUpdate::Feedback(FeedbackVerdict::Stale) => counters.stale_feedback += 1,
        MetricsUpdate::Feedback(FeedbackVerdict::Missing) => counters.missing_feedback += 1,
    }
}

/// `result` is `b` with the bucket of `day` counted once more: updated in
/// place when present, else inserted, zero-based, where the order puts it.
pub open spec fn upserted(
    b: Seq<(Seq<char>, TelemetryCounters)>,
    day: Seq<char>,
    u: MetricsUpdate,
    result: Seq<(Seq<char>, TelemetryCounters)>,
) -> bool {
    if exists|i: int| 0 <= i < b.len() && b[i].0 == day {
        exists|i: int|
            0 <= i < b.len() && b[i].0 == day && result == b.update(i, (day, applied(b[i].1, u)))
    } else {
        exists|p: int|
            0 <= p <= b.len() && (forall|j: int| 0 <= j < p ==> seq_lt(#[trigger] b[j].0, day)) && (forall|j: int|
                p <= j < b.len() ==> seq_lt(day, #[trigger] b[j].0)) && result == b.insert(
                p,
                (day, applied(zero_counters(), u)),
            )
    }
}

/// The buckets after one event on `day`: that day's bucket counted, then
/// the buckets of days before `cutoff` dropped.
pub open spec fn daily_step(
    before: Seq<(Seq<char>, TelemetryCounters)>,
    after: Seq<(Seq<char>, TelemetryCounters)>,
    day: Seq<char>,
    cutoff: Seq<char>,
    u: MetricsUpdate,
) -> bool {
    exists|mid: Seq<(Seq<char>, TelemetryCounters)>| upserted(before, day, u, mid) && after == retained(mid, cutoff)
}

/// The buckets of days at or after `cutoff`.
pub open spec fn retained(b: Seq<(Seq<char>, TelemetryCounters)>, cutoff: Seq<char>) -> Seq<(Seq<char>, TelemetryCounters)> {
    b.filter(|e: (Seq<char>, TelemetryCounters)| seq_le(cutoff, e.0))
}

/// Every bucket can count the event.
/// The bucket of `day`, if there is one, can count the event.
pub open spec fn day_bucket_can_apply(b: Seq<(Seq<char>, TelemetryCounters)>, day: Seq<char>, u: MetricsUpdate) -> bool {
    forall|i: int| 0 <= i < b.len() && #[trigger] b[i].0 == day ==> can_apply(b[i].1, u)
}

pub open spec fn buckets_can_apply(b: Seq<(Seq<char>, TelemetryCounters)>, u: MetricsUpdate) -> bool {
    forall|i: int| 0 <= i < b.len() ==> can_apply(#[trigger] b[i].1, u)
}

/// Count one event in the buckets: the bucket of `day` is updated or
/// inserted in order. Returns the buckets.
fn upsert_bucket(daily: Vec<DailyCounters>, day: &String, update: MetricsUpdate) -> (r: Vec<DailyCounters>)
    requires
        days_sorted(bucket_views(daily@)),
        day_bucket_can_apply(bucket_views(daily@), day@, update),
        can_apply(zero_counters(), update),
    ensures
        upserted(bucket_views(daily@), day@, update, bucket_views(r@)),
        days_sorted(bucket_views(r@)),
{
    let ghost b = bucket_views(daily@);
    let mut daily = daily;
    let mut p: usize = 0;
    while p < daily.len() && !str_le(day.as_str(), daily[p].day.as_str())
        invariant
            p <= daily.len(),
            b == bucket_views(daily@),
            forall|j: int| 0 <= j < p ==> seq_lt(#[trigger] b[j].0, day@),
        decreases daily.len() - p,
    {
        proof {
            lemma_seq_le_total(day@, b[p as int].0);
            if b[p as int].0 == day@ {
            }
        }
        p += 1;
    }
    if p < daily.len() && str_eq(day.as_str(), daily[p].day.as_str()) {
        let mut c = daily[p].counters;
        assert(b[p as int].0 == day@ && b[p as int].1 == c);
        apply_metric_update(&mut c, update);
        let d = daily[p].day.clone();
        daily.set(p, DailyCounters { day: d, counters: c });
        proof {
            assert(bucket_views(daily@) =~= b.update(p as int, (day@, applied(b[p as int].1, update))));
            assert(b[p as int].0 == day@);
            assert forall|i: int, j: int| 0 <= i < j < bucket_views(daily@).len() implies seq_lt(
                bucket_views(daily@)[i].0,
                bucket_views(daily@)[j].0,
            ) by {
                assert(bucket_views(daily@)[i].0 == b[i].0);
                assert(bucket_views(daily@)[j].0 == b[j].0);
            }
        }
        daily
    } else {
        proof {
            if p < daily.len() {
                assert(seq_le(day@, b[p as int].0));
                assert(day@ != b[p as int].0);
            }
            assert forall|j: int| p <= j < b.len() implies seq_lt(day@, #[trigger] b[j].0) by {
                if j > p {
                    lemma_seq_lt_trans(day@, b[p as int].0, b[j].0);
                }
            }
            assert forall|i: int| 0 <= i < b.len() implies b[i].0 != day@ by {
                if i < p {
                    assert(seq_lt(b[i].0, day@));
                } else {
                    assert(seq_lt(day@, b[i].0));
                }
            }
        }
        let mut c = TelemetryCounters::default();
        apply_metric_update(&mut c, update);
        daily.insert(p, DailyCounters { day: day.clone(), counters: c });
        proof {
            let r = bucket_views(daily@);
            let e = (day@, applied(zero_counters(), update));
            assert(r =~= b.insert(p as int, e));
            assert forall|i: int, j: int| 0 <= i < j < r.len() implies seq_lt(r[i].0, r[j].0) by {
                if j < p {
                    assert(r[i] == b[i] && r[j] == b[j]);
                } else if j == p {
                    assert(r[i] == b[i]);
                } else if i < p {
                    assert(r[i] == b[i] && r[j] == b[j - 1]);
                    lemma_seq_lt_trans(b[i].0, day@, b[j - 1].0);
                } else if i == p {
                    assert(r[j] == b[j - 1]);
                } else {
                    assert(r[i] == b[i - 1] && r[j] == b[j - 1]);
                }
            }
        }
        daily
    }
}

/// Keep the buckets of days at or after `cutoff`.
fn retain_from(daily: Vec<DailyCounters>, cutoff: &String) -> (r: Vec<DailyCounters>)
    requires
        days_sorted(bucket_views(daily@)),
    ensures
        bucket_views(r@) == retained(bucket_views(daily@), cutoff@),
        days_sorted(bucket_views(r@)),
{
    let ghost b = bucket_views(daily@);
    let ghost pred = |e: (Seq<char>, TelemetryCounters)| seq_le(cutoff@, e.0);
    let mut kept: Vec<DailyCounters> = Vec::new();
    let mut i: usize = 0;
    while i < daily.len()
        invariant
            i <= daily.len(),
            b == bucket_views(daily@),
            days_sorted(b),
            pred == (|e: (Seq<char>, TelemetryCounters)| seq_le(cutoff@, e.0)),
            bucket_views(kept@) == b.take(i as int).filter(pred),
            days_sorted(bucket_views(kept@)),
            forall|k: int, j: int|
                0 <= k < kept@.len() && i <= j < b.len() ==> seq_lt(
                    #[trigger] bucket_views(kept@)[k].0,
                    #[trigger] b[j].0,
                ),
        decreases daily.len() - i,
    {
        proof {
            reveal(Seq::filter);
            assert(b.take(i + 1).drop_last() =~= b.take(i as int));
            assert(b.take(i + 1).last() == b[i as int]);
        }
        if str_le(cutoff.as_str(), daily[i].day.as_str()) {
            let d = DailyCounters { day: daily[i].day.clone(), counters: daily[i].counters };
            let ghost before = bucket_views(kept@);
            kept.push(d);
            proof {
                assert(bucket_views(kept@) =~= before.push(b[i as int]));
                let kv = bucket_views(kept@);
                assert forall|k: int, j: int| 0 <= k < kept@.len() && i + 1 <= j < b.len() implies seq_lt(
                    #[trigger] bucket_views(kept@)[k].0,
                    #[trigger] b[j].0,
                ) by {
                    if k < before.len() {
                        assert(kv[k] == before[k]);
                    } else {
                        assert(kv[k] == b[i as int]);
                    }
                }
                assert forall|x: int, y: int| 0 <= x < y < kv.len() implies seq_lt(kv[x].0, kv[y].0) by {
                    if y < before.len() {
                        assert(kv[x] == before[x] && kv[y] == before[y]);
                    } else {
                        assert(kv[x] == before[x] && kv[y] == b[i as int]);
                    }
                }
            }
        }
        i += 1;
    }
    assert(b.take(daily.len() as int) =~= b);
    kept
}

/// Count one event on the day `day_key`, in the all-time totals and in
/// that day's bucket, then drop the buckets of days before `cutoff_key`.
/// The all-time totals keep counting after daily buckets expire.
pub fn update_daily_metrics(metrics: &mut TelemetryMetrics, day_key: &String, cutoff_key: &String, update: MetricsUpdate)
    requires
        old(metrics).wf(),
        can_apply(old(metrics).all_time, update),
        day_bucket_can_apply(bucket_views(old(metrics).daily@), day_key@, update),
        can_apply(zero_counters(), update),
    ensures
        final(metrics).wf(),
        final(metrics).all_time == applied(old(metrics).all_time, update),
        daily_step(bucket_views(old(metrics).daily@), bucket_views(final(metrics).daily@), day_key@, cutoff_key@, update),
{
    let mut all_time = metrics.all_time;
    apply_metric_update(&mut all_time, update);
    let mut daily: Vec<DailyCounters> = Vec::new();
    std::mem::swap(&mut daily, &mut metrics.daily);
    let upserted_daily = upsert_bucket(daily, day_key, update);
    let ghost mid = bucket_views(upserted_daily@);
    let kept = retain_from(upserted_daily, cutoff_key);
    assert(upserted(bucket_views(old(metrics).daily@), day_key@, update, mid) && bucket_views(kept@) == retained(mid, cutoff_key@));
    metrics.all_time = all_time;
    metrics.daily = kept;
}


/// Retention keeps no bucket of a day before the cutoff.
pub proof fn law_retained_days_within_window(mid: Seq<(Seq<char>, TelemetryCounters)>, cutoff: Seq<char>)
    ensures
        forall|i: int| 0 <= i < retained(mid, cutoff).len() ==> seq_le(cutoff, #[trigger] retained(mid, cutoff)[i].0),
{
    let pred = |e: (Seq<char>, TelemetryCounters)| seq_le(cutoff, e.0);
    assert forall|i: int| 0 <= i < retained(mid, cutoff).len() implies seq_le(cutoff, #[trigger] retained(mid, cutoff)[i].0) by {
        mid.lemma_filter_pred(pred, i);
    }
}

/// After an event on a day within the window, that day's bucket is kept,
/// counting the event.
pub proof fn law_update_keeps_its_day(
    before: Seq<(Seq<char>, TelemetryCounters)>,
    after: Seq<(Seq<char>, TelemetryCounters)>,
    day: Seq<char>,
    cutoff: Seq<char>,
    u: MetricsUpdate,
)
    requires
        daily_step(before, after, day, cutoff, u),
        seq_le(cutoff, day),
    ensures
        exists|i: int| 0 <= i < after.len() && after[i].0 == day,
{
    let mid = choose|mid: Seq<(Seq<char>, TelemetryCounters)>| upserted(before, day, u, mid) && after == retained(mid, cutoff);
    let pred = |e: (Seq<char>, TelemetryCounters)| seq_le(cutoff, e.0);
    let k: int = if exists|i: int| 0 <= i < before.len() && before[i].0 == day {
        choose|i: int| 0 <= i < before.len() && before[i].0 == day && mid == before.update(i, (day, applied(before[i].1, u)))
    } else {
        choose|p: int|
            0 <= p <= before.len() && (forall|j: int| 0 <= j < p ==> seq_lt(#[trigger] before[j].0, day)) && (forall|j: int|
                p <= j < before.len() ==> seq_lt(day, #[trigger] before[j].0)) && mid == before.insert(
                p,
                (day, applied(zero_counters(), u)),
            )
    };
    assert(mid[k].0 == day);
    mid.lemma_filter_contains(pred, k);
    let w = choose|w: int| 0 <= w < after.len() && after[w] == mid[k];
    assert(after[w].0 == day);
}

/// A calendar day.
#[derive(Debug, Clone, Copy, PartialEq, Eq, Structural)]
pub struct CalendarDay {
    pub year: i32,
    pub month: u32,
    pub day: u32,
}

/// What `NaiveDate::from_ymd_opt(year, month, day)` then `to_string` gives:
/// `None` when the date does not exist.
pub uninterp spec fn chrono_day_key(year: i32, month: u32, day: u32) -> Option<Seq<char>>;

/// What `NaiveDate::from_ymd_opt(year, month, day)`, then
/// `checked_sub_signed(TimeDelta::days(days))`, then `to_string` gives:
/// `None` when the date does not exist or the result leaves chrono's range.
pub uninterp spec fn chrono_day_key_before(year: i32, month: u32, day: u32, days: i64) -> Option<Seq<char>>;

/// `YYYY-MM-DD`, the form chrono gives a date of a year in `0..=9999`.
pub open spec fn iso_day(year: nat, month: nat, day: nat) -> Seq<char> {
    padded_decimal(year, 4) + seq!['-'] + padded_decimal(month, 2) + seq!['-'] + padded_decimal(day, 2)
}

/// A leap year of the proleptic Gregorian calendar.
pub open spec fn leap_year(year: int) -> bool {
    year % 4 == 0 && (year % 100 != 0 || year % 400 == 0)
}

/// The number of days of a month (1 to 12) of `year`.
pub open spec fn month_days(year: int, month: int) -> int {
    if month == 2 {
        if leap_year(year) { 29 } else { 28 }
    } else if month == 4 || month == 6 || month == 9 || month == 11 {
        30
    } else {
        31
    }
}

/// The day exists in the proleptic Gregorian calendar.
pub open spec fn calendar_date(year: int, month: int, day: int) -> bool {
    1 <= month <= 12 && 1 <= day <= month_days(year, month)
}

/// `NaiveDate::from_ymd_opt` and the date's `Display`: the key of a day.
/// For a year in `0..=9999` the day has a key exactly when it exists in
/// the proleptic Gregorian calendar, and chrono writes it `YYYY-MM-DD`;
/// the contract names the result otherwise.
#[verifier::external_body]
fn day_key(d: &CalendarDay) -> (r: Option<String>)
    ensures
        match r {
            Some(s) => chrono_day_key(d.year, d.month, d.day) == Some(s@),
            None => chrono_day_key(d.year, d.month, d.day).is_none(),
        },
        0 <= d.year <= 9999 ==> (r matches Some(s) ==> s@ == iso_day(d.year as nat, d.month as nat, d.day as nat)),
        0 <= d.year <= 9999 ==> (r is Some <==> calendar_date(d.year as int, d.month as int, d.day as int)),
{
    match chrono::NaiveDate::from_ymd_opt(d.year, d.month, d.day) {
        Some(date) => Some(date.to_string()),
        None => None,
    }
}

/// `NaiveDate::from_ymd_opt`, `checked_sub_signed(TimeDelta::days(days))` and
/// `Display`: the key of the day `days` days before `d`. The calendar
/// arithmetic is named, not stated.
#[verifier::external_body]
fn day_key_before(d: &CalendarDay, days: i64) -> (r: Option<String>)
    requires
        0 <= days <= 1000000,
    ensures
        match r {
            Some(s) => chrono_day_key_before(d.year, d.month, d.day, days) == Some(s@),
            None => chrono_day_key_before(d.year, d.month, d.day, days).is_none(),
        },
{
    match chrono::NaiveDate::from_ymd_opt(d.year, d.month, d.day) {
        Some(date) => match date.checked_sub_signed(chrono::TimeDelta::days(days)) {
            Some(earlier) => Some(earlier.to_string()),
            None => None,
        },
        None => None,
    }
}

/// The message for a day that chrono cannot place.
pub open spec fn invalid_day_message() -> Seq<char> {
    "Invalid telemetry day"@
}

/// Count one event on `day`: in the all-time totals and in that day's
/// bucket, keeping the daily buckets of the retention window only.
pub fn update_metrics(metrics: &mut TelemetryMetrics, day: &CalendarDay, update: MetricsUpdate) -> (r: Result<(), AtlasError>)
    requires
        old(metrics).wf(),
        can_apply(old(metrics).all_time, update),
        buckets_can_apply(bucket_views(old(metrics).daily@), update),
        can_apply(zero_counters(), update),
    ensures
        final(metrics).wf(),
        0 <= day.year <= 9999 && !calendar_date(day.year as int, day.month as int, day.day as int) ==> (r matches Err(
            e,
        ) && e is Validation && e.message() == invalid_day_message()),
        ({
            let key = chrono_day_key(day.year, day.month, day.day);
            let cutoff = chrono_day_key_before(day.year, day.month, day.day, (DAILY_METRICS_RETENTION_DAYS - 1) as i64);
            if key is Some && cutoff is Some {
                &&& r is Ok
                &&& final(metrics).all_time == applied(old(metrics).all_time, update)
                &&& daily_step(bucket_views(old(metrics).daily@), bucket_views(final(metrics).daily@), key.unwrap(), cutoff.unwrap(), update)
            } else {
                &&& r matches Err(e) && e is Validation && e.message() == invalid_day_message()
                &&& final(metrics).all_time == old(metrics).all_time && final(metrics).daily@ == old(metrics).daily@
            }
        }),
{
    let back: i64 = DAILY_METRICS_RETENTION_DAYS - 1;
    let key = day_key(day);
    let cutoff = day_key_before(day, back);
    match key {
        Some(key) => match cutoff {
            Some(cutoff) => {
                assert(back == (DAILY_METRICS_RETENTION_DAYS - 1) as i64);
                assert(chrono_day_key(day.year, day.month, day.day) == Some(key@));
                assert(chrono_day_key_before(day.year, day.month, day.day, back) == Some(cutoff@));
                update_daily_metrics(metrics, &key, &cutoff, update);
                Ok(())
            },
            None => {
                let e = AtlasError::Validation(String::from_str("Invalid telemetry day"));
                assert(e.message() == invalid_day_message());
                Err(e)
            },
        },
        None => Err(AtlasError::Validation(String::from_str("Invalid telemetry day"))),
    }
}

/// Telemetry status: enabled unless the stored configuration (`None` when
/// there is none) disables it.
pub fn status(config: Option<TelemetryConfig>, events_path: String) -> (r: TelemetryStatus)
    ensures
        r.enabled == match config {
            Some(c) => c.enabled,
            None => true,
        },
        r.events_path == events_path,
{
    let enabled = match config {
        Some(c) => c.enabled,
        None => TelemetryConfig::default().enabled,
    };
    TelemetryStatus { enabled, events_path }
}

/// The metrics as stored, or empty ones when none are stored.
pub fn metrics(stored: Option<TelemetryMetrics>) -> (r: TelemetryMetrics)
    ensures
        match stored {
            Some(m) => r == m,
            None => r.all_time == zero_counters() && r.daily@.len() == 0,
        },
{
    match stored {
        Some(m) => m,
        None => TelemetryMetrics::default(),
    }
}

/// Clearing reports whether the journal or the metrics file was removed.
pub fn clear(journal_removed: bool, metrics_removed: bool) -> (r: TelemetryClearResult)
    ensures
        r.cleared == (journal_removed || metrics_removed),
{
    TelemetryClearResult { cleared: journal_removed || metrics_removed }
}

/// Where a journal over `max_bytes` is cut so that it keeps only the newest
/// complete entries within `max_bytes`: the first entry boundary at or after
/// `len - max_bytes`. A journal within bounds is kept whole.
pub fn journal_trim_start(contents: &Vec<u8>, max_bytes: usize) -> (r: usize)
    ensures
        contents.len() <= max_bytes ==> r == 0,
        contents.len() > max_bytes ==> {
            let start = contents.len() - max_bytes;
            &&& start <= r <= contents.len()
            &&& r == contents.len() || contents@[r - 1] == 10u8
            &&& forall|k: int| start - 1 <= k < r - 1 ==> contents@[k] != 10u8
        },
{
    let len = contents.len();
    if len <= max_bytes {
        return 0;
    }
    let start = len - max_bytes;
    if contents[start - 1] == 10u8 {
        return start;
    }
    let mut k = start;
    while k < len
        invariant
            start <= k <= len,
            len == contents.len(),
            start >= 1,
            len > max_bytes,
            start == len - max_bytes,
            forall|j: int| start - 1 <= j < k ==> contents@[j] != 10u8,
        decreases len - k,
    {
        if contents[k] == 10u8 {
            return k + 1;
        }
        k += 1;
    }
    len
}

} // verus!
