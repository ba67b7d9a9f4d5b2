//! The time windows a member report covers, and the keys under which reports and
//! window snapshots are cached.
use vstd::prelude::*;
use chrono::Datelike;
use crate::records::SeasonRecord;
use crate::text::{i64_text, u64_text, int_text, join_spec, parse_i32, parse_in_range};

verus! {

/// The activity modes as decimal text, joined with commas.
pub open spec fn modes_spec(modes: Seq<i32>) -> Seq<char> {
    join_spec(modes.map_values(|m: i32| int_text(m as int)), seq![','])
}

/// The activity modes as decimal text, joined with commas (`1,2,3`).
pub fn modes_text(modes: &Vec<i32>) -> (r: String)
    ensures
        r@ == modes_spec(modes@),
{
    let ghost views = modes@.map_values(|m: i32| int_text(m as int));
    let mut out = String::new();
    let mut i: usize = 0;
    proof {
        reveal_strlit(",");
        assert(","@ =~= seq![',']);
    }
    while i < modes.len()
        invariant
            views == modes@.map_values(|m: i32| int_text(m as int)),
            ","@ == seq![','],
            i <= modes@.len(),
            out@ == join_spec(views.subrange(0, i as int), seq![',']),
        decreases modes@.len() - i,
    {
        let ghost prefix = views.subrange(0, i + 1);
        assert(prefix.drop_last() =~= views.subrange(0, i as int));
        if i > 0 {
            out.append(",");
        }
        let text = i64_text(modes[i] as i64);
        out.append(text.as_str());
        i = i + 1;
        proof {
            if i == 1 {
                assert(out@ =~= prefix[0]);
            }
        }
    }
    assert(views.subrange(0, modes@.len() as int) =~= views);
    out
}

/// The cache key of a member's season report:
/// `member_report||season||{name}||{season}||{modes}`.
pub fn season_cache_key(bungie_name: &str, season: i32, modes: &Vec<i32>) -> (r: String)
    ensures
        r@ == "member_report||season||"@ + bungie_name@ + "||"@ + int_text(season as int) + "||"@
            + modes_spec(modes@),
{
    let mut key = String::from_str("member_report||season||");
    key.append(bungie_name);
    key.append("||");
    let season_text = i64_text(season as i64);
    key.append(season_text.as_str());
    key.append("||");
    let modes_part = modes_text(modes);
    key.append(modes_part.as_str());
    key
}

/// The cache key of a member's lifetime report: `member_report||lifetime||{name}||{modes}`.
pub fn lifetime_cache_key(bungie_name: &str, modes: &Vec<i32>) -> (r: String)
    ensures
        r@ == "member_report||lifetime||"@ + bungie_name@ + "||"@ + modes_spec(modes@),
{
    let mut key = String::from_str("member_report||lifetime||");
    key.append(bungie_name);
    key.append("||");
    let modes_part = modes_text(modes);
    key.append(modes_part.as_str());
    key
}

/// The key of the snapshot of one window of a member's history:
/// `{membership id}_{start}_{end}||{modes}`.
pub fn snapshot_key(membership_id: i64, start: u64, end: u64, modes: &Vec<i32>) -> (r: String)
    ensures
        r@ == int_text(membership_id as int) + "_"@ + int_text(start as int) + "_"@ + int_text(end as int)
            + "||"@ + modes_spec(modes@),
{
    let mut key = i64_text(membership_id);
    key.append("_");
    let start_text = u64_text(start);
    key.append(start_text.as_str());
    key.append("_");
    let end_text = u64_text(end);
    key.append(end_text.as_str());
    key.append("||");
    let modes_part = modes_text(modes);
    key.append(modes_part.as_str());
    key
}

/// How a report's subject is looked up: a positive number is a membership id, anything
/// else a Bungie name.
#[derive(Clone, Copy, Debug, PartialEq, Eq)]
pub enum MemberLookup {
    ById(i64),
    ByBungieName,
}

/// The number a name parses to as an `i64`, 0 when it does not parse.
pub open spec fn parsed_or_zero(s: Seq<char>) -> int {
    match parse_in_range(s, true, i64::MIN as int, i64::MAX as int) {
        Some(v) => v,
        None => 0,
    }
}

/// How the subject `bungie_name` of a report is looked up.
pub fn member_lookup(bungie_name: &str) -> (r: MemberLookup)
    ensures
        parsed_or_zero(bungie_name@) > 0 ==> r == MemberLookup::ById(parsed_or_zero(bungie_name@) as i64),
        parsed_or_zero(bungie_name@) <= 0 ==> r == MemberLookup::ByBungieName,
{
    let id = match crate::text::parse_i64(bungie_name) {
        Some(v) => v,
        None => 0,
    };
    if id > 0 {
        MemberLookup::ById(id)
    } else {
        MemberLookup::ByBungieName
    }
}

/// The last season whose report covers the season's full range; later seasons are
/// reported up to now.
pub const DEFAULT_REPORT_SEASON_MAX: i32 = 20;

/// The configured last fully reported season: the setting parsed as an `i32`, or
/// `DEFAULT_REPORT_SEASON_MAX` when it is missing or does not parse.
pub fn report_season_max(setting: &str) -> (r: i32)
    ensures
        parse_in_range(setting@, true, i32::MIN as int, i32::MAX as int) matches Some(v) ==> r == v,
        parse_in_range(setting@, true, i32::MIN as int, i32::MAX as int) is None ==> r
            == DEFAULT_REPORT_SEASON_MAX,
{
    match parse_i32(setting) {
        Some(v) => v,
        None => DEFAULT_REPORT_SEASON_MAX,
    }
}

/// The window a season report covers.
#[derive(Clone, Copy, Debug, PartialEq, Eq)]
pub struct SeasonWindow {
    pub start: u64,
    pub end: u64,
    /// The season's number, -1 for an unknown season.
    pub number: i32,
}

/// The window of a season report: from the season's start to its end, or to `now`
/// for a season after `season_max`; an unknown season gives `(0, 0)` and number -1.
pub fn season_window(season: &Option<SeasonRecord>, season_max: i32, now: u64) -> (w: SeasonWindow)
    ensures
        season matches Some(s) ==> w.start == s.starts_at && w.number == s.number,
        season is None ==> w.start == 0 && w.number == -1,
        w.number > season_max ==> w.end == now,
        w.number <= season_max ==> w.end == match season {
            Some(s) => s.ends_at,
            None => 0,
        },
{
    let (start, season_end, number) = match season {
        Some(record) => (record.starts_at, record.ends_at, record.number),
        None => (0u64, 0u64, -1i32),
    };
    let end = if number > season_max {
        now
    } else {
        season_end
    };
    SeasonWindow { start, end, number }
}

/// The range label of a season report: `Season {number}`.
pub fn season_range_label(number: i32) -> (r: String)
    ensures
        r@ == "Season "@ + int_text(number as int),
{
    let mut label = String::from_str("Season ");
    let n = i64_text(number as i64);
    label.append(n.as_str());
    label
}

// ---------------------------------------------------------------------------
// Lifetime windows
// ---------------------------------------------------------------------------
/// Seconds in a day.
pub const DAY_SECONDS: u64 = 86400;

/// Days between the starts of consecutive lifetime windows.
pub const WINDOW_DAYS: u64 = 30;

/// 2017-09-01 00:00:00 UTC: the start of the month Destiny 2 launched in.
pub const LAUNCH_MONTH_START: u64 = 1504224000;

/// The latest time, in seconds since the epoch, that `chrono` holds: 262142-12-31
/// 23:59:59 UTC (the earliest it holds lies further from the epoch).
pub const LATEST_TIME: u64 = 8210266876799;

/// Start (00:00:00 UTC) of the first day of the month that the time `ts` (seconds since
/// the epoch) falls in, as `chrono` computes it; none when `chrono` cannot represent `ts`
/// or that day.
pub uninterp spec fn utc_month_start(ts: int) -> Option<int>;

/// Calls `chrono::DateTime::from_timestamp`, `Datelike::with_day(1)` on its date and
/// `timestamp` at midnight of that day; `None` where either of the first two gives none.
/// The calendar is not restated here: the result is named `utc_month_start` of the argument.
#[verifier::external_body]
fn month_start(ts: i64) -> (r: Option<i64>)
    ensures
        r matches Some(v) ==> utc_month_start(ts as int) == Some(v as int),
        r is None ==> utc_month_start(ts as int) is None,
{
    match chrono::DateTime::from_timestamp(ts, 0) {
        Some(dt) => match dt.date_naive().with_day(1) {
            Some(first) => Some(first.and_time(chrono::NaiveTime::MIN).and_utc().timestamp()),
            None => None,
        },
        None => None,
    }
}

/// Start of the UTC day of `now`.
pub open spec fn day_start(now: int) -> int {
    now - now % (DAY_SECONDS as int)
}

/// Whole days from the launch month's start to the day of `now` (negative before it).
pub open spec fn days_since_launch(now: int) -> int {
    if day_start(now) >= LAUNCH_MONTH_START {
        (day_start(now) - LAUNCH_MONTH_START) / (DAY_SECONDS as int)
    } else {
        -((LAUNCH_MONTH_START - day_start(now)) / (DAY_SECONDS as int))
    }
}

/// The number of 30-day steps back to the launch month, rounded up.
pub open spec fn window_steps(now: int) -> int {
    let days = days_since_launch(now);
    if days >= 0 {
        (days + WINDOW_DAYS - 1) / (WINDOW_DAYS as int)
    } else {
        -((-days) / (WINDOW_DAYS as int))
    }
}

/// The number of lifetime windows: one per step and one more, none when `now` is more
/// than a step before the launch month.
pub open spec fn window_count(now: int) -> int {
    if window_steps(now) + 1 > 0 {
        window_steps(now) + 1
    } else {
        0
    }
}

/// Start of lifetime window `k`: the month start of the day `30 * k` days before the day of `now`
/// (0 where `chrono` holds no such day).
pub open spec fn window_start(now: int, k: int) -> int {
    match utc_month_start(day_start(now) - k * (WINDOW_DAYS * DAY_SECONDS) as int) {
        Some(v) => v,
        None => 0,
    }
}

/// A time window of a member's history, in seconds since the epoch.
#[derive(Clone, Copy, Debug, PartialEq, Eq)]
pub struct ReportWindow {
    pub start: u64,
    pub end: u64,
}

/// The windows a lifetime report is built from, newest first: window `k` starts at the
/// month start of the day `30 * k` days before today; the newest ends at `now`, each
/// other ends where the next newer one starts.
pub fn lifetime_windows(now: u64) -> (w: Vec<ReportWindow>)
    requires
        now <= LATEST_TIME,
    ensures
        w@.len() == window_count(now as int),
        forall|k: int| 0 <= k < w@.len() ==> #[trigger] w@[k].start == window_start(now as int, k) as u64,
        w@.len() > 0 ==> w@[0].end == now,
        forall|k: int| 0 < k < w@.len() ==> #[trigger] w@[k].end == w@[k - 1].start,
{
    let ds: u64 = now - now % DAY_SECONDS;
    let steps: i64 = if ds >= LAUNCH_MONTH_START {
        let days: u64 = (ds - LAUNCH_MONTH_START) / DAY_SECONDS;
        ((days + WINDOW_DAYS - 1) / WINDOW_DAYS) as i64
    } else {
        let days: u64 = (LAUNCH_MONTH_START - ds) / DAY_SECONDS;
        -((days / WINDOW_DAYS) as i64)
    };
    proof {
        assert(ds == day_start(now as int));
        if ds >= LAUNCH_MONTH_START {
            assert(days_since_launch(now as int) >= 0);
        } else {
            assert((LAUNCH_MONTH_START - ds) / (DAY_SECONDS as int) >= 0);
            assert(days_since_launch(now as int) <= 0);
            if days_since_launch(now as int) == 0 {
                assert(-(days_since_launch(now as int)) / (WINDOW_DAYS as int) == 0);
            }
        }
        assert(steps == window_steps(now as int));
        assert(steps <= (now as int) / 2592000 + 1);
    }
    let mut out: Vec<ReportWindow> = Vec::new();
    let mut previous: u64 = now;
    let mut month: i64 = 0;
    while month <= steps
        invariant
            ds == day_start(now as int),
            ds <= now <= LATEST_TIME,
            steps == window_steps(now as int),
            steps <= (now as int) / 2592000 + 1,
            0 <= month,
            month <= steps + 1 || (steps < 0 && month == 0),
            out@.len() == month,
            forall|k: int| 0 <= k < out@.len() ==> #[trigger] out@[k].start == window_start(now as int, k) as u64,
            out@.len() > 0 ==> out@[0].end == now,
            forall|k: int| 0 < k < out@.len() ==> #[trigger] out@[k].end == out@[k - 1].start,
            out@.len() == 0 ==> previous == now,
            out@.len() > 0 ==> previous == out@[out@.len() - 1].start,
        decreases steps + 1 - month,
    {
        proof {
            assert(month * 2592000 <= ((now as int) / 2592000 + 1)
                * 2592000) by (nonlinear_arith)
                requires
                    month <= (now as int) / 2592000 + 1,
                    0 <= month,
            ;
            assert(((now as int) / 2592000 + 1) * 2592000 <= now + 2592000) by (nonlinear_arith)
                requires
                    now >= 0,
            ;
        }
        let offset: i64 = month * ((WINDOW_DAYS * DAY_SECONDS) as i64);
        let day: i64 = ds as i64 - offset;
        let start = match month_start(day) {
            Some(v) => v,
            None => 0,
        };
        let start_u: u64 = #[verifier::truncate] (start as u64);
        out.push(ReportWindow { start: start_u, end: previous });
        previous = start_u;
        month = month + 1;
    }
    proof {
        if steps + 1 > 0 {
            assert(out@.len() == steps + 1);
        } else {
            assert(out@.len() == 0);
        }
    }
    out
}

/// The text `chrono` writes for the UTC time `ts` (seconds since the epoch) with
/// `Display`, such as `2023-01-02 03:04:05 UTC`.
pub uninterp spec fn utc_datetime_text(ts: int) -> Seq<char>;

/// Calls `chrono::DateTime::from_timestamp(ts, 0)` and writes the time with `Display`.
/// The format is not restated here: the result is named `utc_datetime_text` of the
/// argument. `chrono` holds every time the `requires` admits.
#[verifier::external_body]
pub(crate) fn datetime_text(ts: i64) -> (r: String)
    requires
        -(LATEST_TIME as int) <= ts <= LATEST_TIME,
    ensures
        r@ == utc_datetime_text(ts as int),
{
    match chrono::DateTime::from_timestamp(ts, 0) {
        Some(dt) => format!("{}", dt),
        None => String::new(),
    }
}

} // verus!
