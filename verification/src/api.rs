//! What the API's routes decide: how a clan is looked up, which season window a network
//! breakdown covers, and the shapes of their answers.
use vstd::prelude::*;
use crate::keyed::{IdEntry, TextEntry};
use crate::merge::MemberReport;
use crate::records::{NetworkBreakdownResult, SeasonRecord, SettingModeRecord};
use crate::responses::{ClanInformation, MemberResponse, MemberTitle, NetworkActivityClanBreakdown, i32_or_zero};
use crate::text::{i64_text, int_text, parse_i64, parse_in_range};

verus! {

/// How a clan route looks a clan up: by group id when the path reads as one, else by slug.
#[derive(Clone, Copy, Debug, PartialEq, Eq)]
pub enum ClanLookup {
    ById(i64),
    BySlug,
}

/// How a clan route looks up the clan named by its path.
pub fn clan_lookup(path: &str) -> (r: ClanLookup)
    ensures
        parse_in_range(path@, true, i64::MIN as int, i64::MAX as int) matches Some(v) ==> r == ClanLookup::ById(
            v as i64,
        ),
        parse_in_range(path@, true, i64::MIN as int, i64::MAX as int) is None ==> r == ClanLookup::BySlug,
{
    match parse_i64(path) {
        Some(v) => ClanLookup::ById(v),
        None => ClanLookup::BySlug,
    }
}

/// The window of a season's network breakdown: the season's start and end and its number;
/// `(0, 0)` and -1 for an unknown season.
pub fn season_bounds(season: &Option<SeasonRecord>) -> (r: (u64, u64, i32))
    ensures
        season matches Some(s) ==> r == (s.starts_at, s.ends_at, s.number),
        season is None ==> r == (0u64, 0u64, -1i32),
{
    match season {
        Some(s) => (s.starts_at, s.ends_at, s.number),
        None => (0, 0, -1),
    }
}

/// What a report route answers: the report, or the time its task started.
#[derive(Debug)]
pub enum ReportOutput {
    TaskRunning(u64),
    Report(Box<MemberReport>),
}

/// The answer of a report route: the report when it is ready, else the time its task started.
pub fn report_output(task_started: u64, report: Option<MemberReport>) -> (r: ReportOutput)
    ensures
        report matches Some(m) ==> r == ReportOutput::Report(Box::new(m)),
        report is None ==> r == ReportOutput::TaskRunning(task_started),
{
    match report {
        Some(m) => ReportOutput::Report(Box::new(m)),
        None => ReportOutput::TaskRunning(task_started),
    }
}

/// A clan with its roster, as the API returns it.
#[derive(Debug)]
pub struct ClanResponse {
    pub data: ClanInformation,
    pub roster: Vec<MemberResponse>,
}

/// A member with its titles, as the API returns it.
#[derive(Debug)]
pub struct MemberTitleResponse {
    pub member: MemberResponse,
    pub titles: Vec<MemberTitle>,
}

/// The network breakdown keyed by the decimal text of each clan's group id.
pub fn breakdown_by_group(rows: Vec<IdEntry<NetworkBreakdownResult>>) -> (r: Vec<TextEntry<NetworkActivityClanBreakdown>>)
    ensures
        r@.len() == rows@.len(),
        forall|i: int| 0 <= i < r@.len() ==> {
            let row = rows@[i].value;
            let out = #[trigger] r@[i];
            &&& out.key@ == int_text(rows@[i].key as int)
            &&& out.value.group_id@ == int_text(row.group_id as int)
            &&& out.value.name@ == row.name@
            &&& out.value.total_members == row.total_members as i32
            &&& out.value.activity_attempts == row.activity_attempts as i32
            &&& out.value.activities_completed_with_clan == row.activities_completed_with_clan as i32
            &&& out.value.activities_completed == row.activities_completed as i32
            &&& out.value.percent_with_clan == i32_or_zero(row.percent_with_clan)
            &&& out.value.avg_clan_member_amount == i32_or_zero(row.avg_clan_member_amount)
        },
{
    let mut src = rows;
    let ghost orig = src@;
    let mut out: Vec<TextEntry<NetworkActivityClanBreakdown>> = Vec::new();
    while src.len() > 0
        invariant
            out@.len() <= orig.len(),
            src@ == orig.subrange(out@.len() as int, orig.len() as int),
            forall|i: int| 0 <= i < out@.len() ==> {
                let row = orig[i].value;
                let o = #[trigger] out@[i];
                &&& o.key@ == int_text(orig[i].key as int)
                &&& o.value.group_id@ == int_text(row.group_id as int)
                &&& o.value.name@ == row.name@
                &&& o.value.total_members == row.total_members as i32
                &&& o.value.activity_attempts == row.activity_attempts as i32
                &&& o.value.activities_completed_with_clan == row.activities_completed_with_clan as i32
                &&& o.value.activities_completed == row.activities_completed as i32
                &&& o.value.percent_with_clan == i32_or_zero(row.percent_with_clan)
                &&& o.value.avg_clan_member_amount == i32_or_zero(row.avg_clan_member_amount)
            },
        decreases src@.len(),
    {
        let entry = src.remove(0);
        assert(entry == orig[out@.len() as int]);
        let key = i64_text(entry.key);
        let value = NetworkActivityClanBreakdown::from_db(entry.value);
        let ghost prev = out@;
        out.push(TextEntry { key, value });
        assert(forall|i: int| 0 <= i < prev.len() ==> out@[i] == prev[i]);
        assert(src@ =~= orig.subrange(out@.len() as int, orig.len() as int));
    }
    out
}

/// The mode groups kept in the settings cache.
#[derive(Debug)]
pub enum Setting {
    Modes(Vec<SettingModeRecord>),
}

/// The mode groups in the settings cache, none when the cache has none.
pub fn cached_modes(cached: Option<Setting>) -> (r: Vec<SettingModeRecord>)
    ensures
        cached matches Some(Setting::Modes(d)) ==> r == d,
        cached is None ==> r@.len() == 0,
{
    match cached {
        Some(Setting::Modes(d)) => d,
        None => Vec::new(),
    }
}


/// What a report request does, given the cached report and the time the report's task
/// was started (0 when none is running).
#[derive(Debug)]
pub enum ReportStep {
    /// The cached report is answered, with the time of the answer.
    Cached(Box<MemberReport>, u64),
    /// The running task's start time is answered.
    Running(u64),
    /// A task is queued and recorded as started now; the answer is the time now.
    Start(u64),
}

/// A report request: a cached report is answered at once; else a running task's start is
/// answered; else a task is started now.
pub fn report_step(cached: Option<MemberReport>, running_since: u64, now: u64) -> (r: ReportStep)
    ensures
        cached matches Some(m) ==> r == ReportStep::Cached(Box::new(m), now),
        cached is None && running_since > 0 ==> r == ReportStep::Running(running_since),
        cached is None && running_since == 0 ==> r == ReportStep::Start(now),
{
    match cached {
        Some(m) => ReportStep::Cached(Box::new(m), now),
        None => if running_since > 0 {
            ReportStep::Running(running_since)
        } else {
            ReportStep::Start(now)
        },
    }
}

} // verus!
