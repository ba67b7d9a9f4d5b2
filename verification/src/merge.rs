//! Merging the window reports of a season or of a member's lifetime into the report
//! the API returns: sums of the counts and statistics, the activity totals keyed by
//! activity, the fellow player totals keyed by name, and the rankings built on them.
use vstd::prelude::*;
use crate::ranking::{Ranked, sort_desc, sorted_desc, take_first};
use crate::keyed::IdEntry;
use crate::records::{ActivityInstanceResult, MemberResult, TriumphTitleResult, is_empty_member};
use crate::report::{
    ActivityAnalysis, FireteamAnalysis, ActivityCategory, fellow_name, hidden_name, profile_of, InstanceTimestamp, MemberReportStats, merge_stats, stats_add, stats_addable,
    zero_stats,
};
use crate::responses::{MemberResponse, MemberTitle, member_response_of, member_title_of};
use crate::tally::{
    distinct, IdCount, NameCount, NamedAmount, id_present, id_tally, id_tally_of, id_weight, id_weights_fit,
    ids_unique, lemma_id_push, lemma_id_update, lemma_id_weight_prefix, lemma_id_weight_unique,
    name_tally, name_tally_of, name_view, name_weights_fit,
};
use crate::text::{equals, i64_text, int_text, lemma_parse_in_range_text, parse_i64, parse_in_range};

verus! {

/// What one time window of a member's activity history gives, as stored in a snapshot.
#[derive(Debug)]
pub struct MemberConstructionReport {
    pub version: u8,
    pub stats_pve: MemberReportStats,
    pub stats_pvp: MemberReportStats,
    pub stats_gambit: MemberReportStats,
    pub stats_private_matches: MemberReportStats,
    pub stats_reckoning: MemberReportStats,
    pub display_name_global: String,
    pub membership_id: i64,
    pub activity_attempts: u64,
    pub activity_attempts_with_clan: u64,
    pub activity_completions: u64,
    /// Per activity mode, the number of attempts.
    pub activity_modes: Vec<IdCount>,
    pub instance_timestamps: Vec<InstanceTimestamp>,
    pub instance_members_profiles: Vec<MemberResult>,
    /// Per fellow player, the number of shared instances.
    pub instance_members: Vec<IdCount>,
    pub clan_members: Vec<NameCount>,
    pub non_clan_members: Vec<NameCount>,
    pub last_played_at: u64,
    pub activity_definitions: Vec<ActivityInstanceResult>,
}

/// The counts of a window report that merging adds up.
#[derive(Clone, Copy, Debug, PartialEq, Eq)]
pub enum ReportCount {
    Attempts,
    AttemptsWithClan,
    Completions,
}

pub open spec fn report_count(r: MemberConstructionReport, which: ReportCount) -> u64 {
    match which {
        ReportCount::Attempts => r.activity_attempts,
        ReportCount::AttemptsWithClan => r.activity_attempts_with_clan,
        ReportCount::Completions => r.activity_completions,
    }
}

/// Sum of one count over the reports.
pub open spec fn count_sum(reports: Seq<MemberConstructionReport>, which: ReportCount) -> int
    decreases reports.len(),
{
    if reports.len() == 0 {
        0
    } else {
        count_sum(reports.drop_last(), which) + report_count(reports.last(), which) as int
    }
}

/// The statistics a window report holds for a category (none for unknown activities).
pub open spec fn report_stats(r: MemberConstructionReport, c: ActivityCategory) -> MemberReportStats {
    match c {
        ActivityCategory::Pve => r.stats_pve,
        ActivityCategory::Pvp => r.stats_pvp,
        ActivityCategory::Gambit => r.stats_gambit,
        ActivityCategory::PrivateMatch => r.stats_private_matches,
        ActivityCategory::Reckoning => r.stats_reckoning,
        ActivityCategory::Unknown => zero_stats(),
    }
}

/// Field-wise sum of the reports' statistics of a category.
pub open spec fn stats_sum(reports: Seq<MemberConstructionReport>, c: ActivityCategory) -> MemberReportStats
    decreases reports.len(),
{
    if reports.len() == 0 {
        zero_stats()
    } else {
        stats_add(stats_sum(reports.drop_last(), c), report_stats(reports.last(), c))
    }
}

/// Every partial field-wise sum fits in `u64`.
pub open spec fn stats_sum_fits(reports: Seq<MemberConstructionReport>, c: ActivityCategory) -> bool
    decreases reports.len(),
{
    reports.len() == 0 || (stats_sum_fits(reports.drop_last(), c) && stats_addable(
        stats_sum(reports.drop_last(), c),
        report_stats(reports.last(), c),
    ))
}

/// The activity definitions of all reports, in order.
pub open spec fn all_definitions(reports: Seq<MemberConstructionReport>) -> Seq<ActivityInstanceResult>
    decreases reports.len(),
{
    if reports.len() == 0 {
        Seq::<ActivityInstanceResult>::empty()
    } else {
        all_definitions(reports.drop_last()) + reports.last().activity_definitions@
    }
}

/// The (instance, time) pairs of all reports, in order.
pub open spec fn all_timestamps(reports: Seq<MemberConstructionReport>) -> Seq<InstanceTimestamp>
    decreases reports.len(),
{
    if reports.len() == 0 {
        Seq::<InstanceTimestamp>::empty()
    } else {
        all_timestamps(reports.drop_last()) + reports.last().instance_timestamps@
    }
}

/// The activity mode counts of all reports, in order.
pub open spec fn all_modes(reports: Seq<MemberConstructionReport>) -> Seq<IdCount>
    decreases reports.len(),
{
    if reports.len() == 0 {
        Seq::<IdCount>::empty()
    } else {
        all_modes(reports.drop_last()) + reports.last().activity_modes@
    }
}

/// The fellow player counts of all reports, in order: of network members when
/// `network` holds, of the others when not.
pub open spec fn all_fellows(reports: Seq<MemberConstructionReport>, network: bool) -> Seq<NamedAmount>
    decreases reports.len(),
{
    if reports.len() == 0 {
        Seq::<NamedAmount>::empty()
    } else {
        all_fellows(reports.drop_last(), network) + name_view(
            if network {
                reports.last().clan_members@
            } else {
                reports.last().non_clan_members@
            },
        )
    }
}

/// Sum of a count over the reports.
fn sum_count(reports: &Vec<MemberConstructionReport>, which: ReportCount) -> (t: u64)
    requires
        count_sum(reports@, which) <= u64::MAX,
    ensures
        t == count_sum(reports@, which),
{
    let mut t: u64 = 0;
    let mut i: usize = 0;
    while i < reports.len()
        invariant
            i <= reports@.len(),
            count_sum(reports@, which) <= u64::MAX,
            t == count_sum(reports@.subrange(0, i as int), which),
        decreases reports@.len() - i,
    {
        proof {
            lemma_count_sum_prefix(reports@, i + 1, which);
            assert(reports@.subrange(0, i + 1).drop_last() =~= reports@.subrange(0, i as int));
        }
        let r = &reports[i];
        let v = match which {
            ReportCount::Attempts => r.activity_attempts,
            ReportCount::AttemptsWithClan => r.activity_attempts_with_clan,
            ReportCount::Completions => r.activity_completions,
        };
        t = t + v;
        i = i + 1;
    }
    assert(reports@.subrange(0, reports@.len() as int) =~= reports@);
    t
}

proof fn lemma_count_sum_prefix(s: Seq<MemberConstructionReport>, n: int, which: ReportCount)
    requires
        0 <= n <= s.len(),
    ensures
        0 <= count_sum(s.subrange(0, n), which) <= count_sum(s, which),
    decreases s.len() - n,
{
    if n < s.len() {
        lemma_count_sum_prefix(s, n + 1, which);
        assert(s.subrange(0, n + 1).drop_last() =~= s.subrange(0, n));
        lemma_count_sum_nonneg(s.subrange(0, n), which);
    } else {
        assert(s.subrange(0, n) =~= s);
        lemma_count_sum_nonneg(s, which);
    }
}

proof fn lemma_count_sum_nonneg(s: Seq<MemberConstructionReport>, which: ReportCount)
    ensures
        count_sum(s, which) >= 0,
    decreases s.len(),
{
    if s.len() > 0 {
        lemma_count_sum_nonneg(s.drop_last(), which);
    }
}

proof fn lemma_stats_fits_prefix(s: Seq<MemberConstructionReport>, n: int, c: ActivityCategory)
    requires
        0 <= n <= s.len(),
        stats_sum_fits(s, c),
    ensures
        stats_sum_fits(s.subrange(0, n), c),
    decreases s.len() - n,
{
    if n < s.len() {
        assert(s.subrange(0, s.len() as int) =~= s);
        lemma_stats_fits_prefix(s, n + 1, c);
        assert(s.subrange(0, n + 1).drop_last() =~= s.subrange(0, n));
    } else {
        assert(s.subrange(0, n) =~= s);
    }
}

/// Field-wise sum of the statistics of a category over the reports.
fn sum_stats(reports: &Vec<MemberConstructionReport>, c: ActivityCategory) -> (t: MemberReportStats)
    requires
        stats_sum_fits(reports@, c),
    ensures
        t == stats_sum(reports@, c),
{
    let mut t = MemberReportStats::default();
    let mut i: usize = 0;
    while i < reports.len()
        invariant
            i <= reports@.len(),
            stats_sum_fits(reports@, c),
            t == stats_sum(reports@.subrange(0, i as int), c),
        decreases reports@.len() - i,
    {
        proof {
            lemma_stats_fits_prefix(reports@, i + 1, c);
            assert(reports@.subrange(0, i + 1).drop_last() =~= reports@.subrange(0, i as int));
        }
        let r = &reports[i];
        match c {
            ActivityCategory::Pve => merge_stats(&mut t, &r.stats_pve),
            ActivityCategory::Pvp => merge_stats(&mut t, &r.stats_pvp),
            ActivityCategory::Gambit => merge_stats(&mut t, &r.stats_gambit),
            ActivityCategory::PrivateMatch => merge_stats(&mut t, &r.stats_private_matches),
            ActivityCategory::Reckoning => merge_stats(&mut t, &r.stats_reckoning),
            ActivityCategory::Unknown => {
                let z = MemberReportStats::default();
                merge_stats(&mut t, &z);
            },
        }
        i = i + 1;
    }
    assert(reports@.subrange(0, reports@.len() as int) =~= reports@);
    t
}

// ---------------------------------------------------------------------------
// Activity totals
// ---------------------------------------------------------------------------
/// Attempts and completions of one activity, with its name and description.
#[derive(Debug, PartialEq)]
pub struct MemberReportActivity {
    pub attempts: u64,
    pub completions: u64,
    pub name: String,
    pub description: String,
}

impl Clone for MemberReportActivity {
    fn clone(&self) -> (r: Self)
        ensures
            r == *self,
    {
        MemberReportActivity {
            attempts: self.attempts,
            completions: self.completions,
            name: self.name.clone(),
            description: self.description.clone(),
        }
    }
}

impl Ranked for MemberReportActivity {
    open spec fn rank(&self) -> int {
        self.attempts as int
    }

    fn get_rank(&self) -> (r: u64) {
        self.attempts
    }
}

/// The totals of one activity, under its hash (the report keys them by the hash's decimal text).
#[derive(Debug, PartialEq)]
pub struct ActivityMapEntry {
    pub hash: u32,
    pub activity: MemberReportActivity,
}

impl Clone for ActivityMapEntry {
    fn clone(&self) -> (r: Self)
        ensures
            r == *self,
    {
        ActivityMapEntry { hash: self.hash, activity: self.activity.clone() }
    }
}

/// A stored total read as an unsigned count: negative totals count as zero.
pub open spec fn u64_or_zero(x: i64) -> u64 {
    if x < 0 {
        0
    } else {
        x as u64
    }
}

fn count_or_zero(x: i64) -> (r: u64)
    ensures
        r == u64_or_zero(x),
{
    if x < 0 {
        0
    } else {
        x as u64
    }
}

/// Attempts per activity hash, one pair per definition.
pub open spec fn attempt_pairs(defs: Seq<ActivityInstanceResult>) -> Seq<IdCount> {
    defs.map_values(|d: ActivityInstanceResult| IdCount { id: d.activity_hash as i64, count: u64_or_zero(d.total) })
}

/// Completions per activity hash, one pair per definition.
pub open spec fn completion_pairs(defs: Seq<ActivityInstanceResult>) -> Seq<IdCount> {
    defs.map_values(
        |d: ActivityInstanceResult| IdCount { id: d.activity_hash as i64, count: u64_or_zero(d.total_completed) },
    )
}

pub open spec fn map_attempts(m: Seq<ActivityMapEntry>) -> Seq<IdCount> {
    m.map_values(|e: ActivityMapEntry| IdCount { id: e.hash as i64, count: e.activity.attempts })
}

pub open spec fn map_completions(m: Seq<ActivityMapEntry>) -> Seq<IdCount> {
    m.map_values(|e: ActivityMapEntry| IdCount { id: e.hash as i64, count: e.activity.completions })
}

/// Position of the first definition with hash `h`, or -1 when there is none.
pub open spec fn first_index(defs: Seq<ActivityInstanceResult>, h: u32) -> int
    decreases defs.len(),
{
    if defs.len() == 0 {
        -1
    } else if first_index(defs.drop_last(), h) >= 0 {
        first_index(defs.drop_last(), h)
    } else if defs.last().activity_hash == h {
        defs.len() - 1
    } else {
        -1
    }
}

/// `m` holds one entry per activity hash of `defs`, with the summed attempts and
/// completions of its definitions and the name and description of the first one.
pub open spec fn activity_map_of(m: Seq<ActivityMapEntry>, defs: Seq<ActivityInstanceResult>) -> bool {
    &&& id_tally_of(map_attempts(m), attempt_pairs(defs))
    &&& id_tally_of(map_completions(m), completion_pairs(defs))
    &&& forall|i: int|
        0 <= i < m.len() ==> {
            let j = #[trigger] first_index(defs, m[i].hash);
            &&& 0 <= j < defs.len()
            &&& m[i].activity.name@ == defs[j].activity_name@
            &&& m[i].activity.description@ == defs[j].activity_description@
        }
}

proof fn lemma_first_index(defs: Seq<ActivityInstanceResult>, h: u32)
    ensures
        -1 <= first_index(defs, h) < defs.len(),
        first_index(defs, h) >= 0 ==> defs[first_index(defs, h)].activity_hash == h,
        first_index(defs, h) == -1 <==> forall|k: int| 0 <= k < defs.len() ==> #[trigger] defs[k].activity_hash != h,
    decreases defs.len(),
{
    if defs.len() > 0 {
        let rest = defs.drop_last();
        lemma_first_index(rest, h);
        if first_index(defs, h) == -1 {
            assert forall|k: int| 0 <= k < defs.len() implies #[trigger] defs[k].activity_hash != h by {
                if k < rest.len() {
                    assert(rest[k] == defs[k]);
                }
            }
        }
        if first_index(rest, h) >= 0 {
            let j = first_index(rest, h);
            assert(rest[j] == defs[j]);
        }
    }
}

/// The definitions of all reports, one after the other.
fn flatten_definitions(reports: &Vec<MemberConstructionReport>) -> (out: Vec<ActivityInstanceResult>)
    ensures
        out@ == all_definitions(reports@),
{
    let mut out: Vec<ActivityInstanceResult> = Vec::new();
    let mut i: usize = 0;
    while i < reports.len()
        invariant
            i <= reports@.len(),
            out@ == all_definitions(reports@.subrange(0, i as int)),
        decreases reports@.len() - i,
    {
        let defs = &reports[i].activity_definitions;
        let ghost base = out@;
        let mut j: usize = 0;
        while j < defs.len()
            invariant
                j <= defs@.len(),
                out@ == base + defs@.subrange(0, j as int),
            decreases defs@.len() - j,
        {
            out.push(defs[j].clone());
            assert(defs@.subrange(0, j + 1) =~= defs@.subrange(0, j as int).push(defs@[j as int]));
            j = j + 1;
        }
        proof {
            assert(defs@.subrange(0, defs@.len() as int) =~= defs@);
            assert(reports@.subrange(0, i + 1).drop_last() =~= reports@.subrange(0, i as int));
        }
        i = i + 1;
    }
    assert(reports@.subrange(0, reports@.len() as int) =~= reports@);
    out
}

/// The totals of each activity over the definitions, in order of first appearance.
fn tally_activities(defs: &Vec<ActivityInstanceResult>) -> (m: Vec<ActivityMapEntry>)
    requires
        id_weights_fit(attempt_pairs(defs@)),
        id_weights_fit(completion_pairs(defs@)),
    ensures
        activity_map_of(m@, defs@),
{
    let mut m: Vec<ActivityMapEntry> = Vec::new();
    let mut i: usize = 0;
    assert(map_attempts(m@) =~= Seq::<IdCount>::empty());
    assert(map_completions(m@) =~= Seq::<IdCount>::empty());
    assert(attempt_pairs(defs@.subrange(0, 0)) =~= Seq::<IdCount>::empty());
    assert(completion_pairs(defs@.subrange(0, 0)) =~= Seq::<IdCount>::empty());
    while i < defs.len()
        invariant
            i <= defs@.len(),
            id_weights_fit(attempt_pairs(defs@)),
            id_weights_fit(completion_pairs(defs@)),
            activity_map_of(m@, defs@.subrange(0, i as int)),
        decreases defs@.len() - i,
    {
        let ghost pre = defs@.subrange(0, i as int);
        let ghost next = defs@.subrange(0, i + 1);
        let ghost old_m = m@;
        let d = &defs[i];
        let h = d.activity_hash;
        let a = count_or_zero(d.total);
        let c = count_or_zero(d.total_completed);
        let ghost pa = IdCount { id: h as i64, count: a };
        let ghost pc = IdCount { id: h as i64, count: c };
        proof {
            assert(next.drop_last() =~= pre);
            assert(next[i as int] == *d);
            assert(attempt_pairs(next) =~= attempt_pairs(pre).push(pa));
            assert(completion_pairs(next) =~= completion_pairs(pre).push(pc));
            assert(attempt_pairs(defs@).subrange(0, i + 1) =~= attempt_pairs(next));
            assert(completion_pairs(defs@).subrange(0, i + 1) =~= completion_pairs(next));
            lemma_id_weight_prefix(attempt_pairs(defs@), i + 1, h as i64);
            lemma_id_weight_prefix(completion_pairs(defs@), i + 1, h as i64);
            assert(attempt_pairs(next).drop_last() =~= attempt_pairs(pre));
            assert(completion_pairs(next).drop_last() =~= completion_pairs(pre));
            assert forall|k: i64| #[trigger] id_present(attempt_pairs(next), k) <==> (id_present(attempt_pairs(pre), k) || k == h as i64) by {
                lemma_present_push(attempt_pairs(pre), pa, k);
            }
            assert forall|k: i64| #[trigger] id_present(completion_pairs(next), k) <==> (id_present(completion_pairs(pre), k) || k == h as i64) by {
                lemma_present_push(completion_pairs(pre), pc, k);
            }
        }
        let n = m.len();
        let mut j: usize = 0;
        while j < n && m[j].hash != h
            invariant
                n == m@.len(),
                m@ == old_m,
                j <= n,
                forall|q: int| 0 <= q < j ==> #[trigger] m@[q].hash != h,
            decreases n - j,
        {
            j = j + 1;
        }
        if j < n {
            proof {
                assert(map_attempts(old_m)[j as int].id == h as i64);
                lemma_id_weight_unique(map_attempts(old_m), j as int);
                lemma_id_weight_unique(map_completions(old_m), j as int);
                assert(id_present(map_attempts(old_m), h as i64));
            }
            let old_entry = m[j].clone();
            let updated = ActivityMapEntry {
                hash: h,
                activity: MemberReportActivity {
                    attempts: old_entry.activity.attempts + a,
                    completions: old_entry.activity.completions + c,
                    name: old_entry.activity.name,
                    description: old_entry.activity.description,
                },
            };
            let ghost ua = IdCount { id: h as i64, count: updated.activity.attempts };
            let ghost uc = IdCount { id: h as i64, count: updated.activity.completions };
            m.set(j, updated);
            proof {
                assert(map_attempts(m@) =~= map_attempts(old_m).update(j as int, ua));
                assert(map_completions(m@) =~= map_completions(old_m).update(j as int, uc));
                lemma_id_update(map_attempts(old_m), j as int, ua);
                lemma_id_update(map_completions(old_m), j as int, uc);
                assert forall|q: int| 0 <= q < m@.len() implies {
                    let jj = #[trigger] first_index(next, m@[q].hash);
                    &&& 0 <= jj < next.len()
                    &&& m@[q].activity.name@ == next[jj].activity_name@
                    &&& m@[q].activity.description@ == next[jj].activity_description@
                } by {
                    assert(old_m[q].hash == m@[q].hash);
                    let jj = first_index(pre, old_m[q].hash);
                    assert(0 <= jj < pre.len());
                    assert(next.drop_last() == pre);
                    assert(first_index(next, m@[q].hash) == jj);
                    assert(next[jj] == pre[jj]);
                }
            }
        } else {
            proof {
                assert(!id_present(map_attempts(old_m), h as i64)) by {
                    if id_present(map_attempts(old_m), h as i64) {
                        let q = choose|q: int| 0 <= q < map_attempts(old_m).len() && #[trigger] map_attempts(old_m)[q].id == h as i64;
                        assert(old_m[q].hash != h);
                    }
                }
                assert(!id_present(map_completions(old_m), h as i64)) by {
                    if id_present(map_completions(old_m), h as i64) {
                        let q = choose|q: int| 0 <= q < map_completions(old_m).len() && #[trigger] map_completions(old_m)[q].id == h as i64;
                        assert(old_m[q].hash != h);
                    }
                }
                assert forall|k: int| 0 <= k < pre.len() implies #[trigger] pre[k].activity_hash != h by {
                    assert(attempt_pairs(pre)[k].id == pre[k].activity_hash as i64);
                    if pre[k].activity_hash == h {
                        assert(id_present(attempt_pairs(pre), h as i64));
                    }
                }
                lemma_first_index(pre, h);
                assert(first_index(next, h) == i as int);
            }
            let entry = ActivityMapEntry {
                hash: h,
                activity: MemberReportActivity {
                    attempts: a,
                    completions: c,
                    name: d.activity_name.clone(),
                    description: d.activity_description.clone(),
                },
            };
            m.push(entry);
            proof {
                assert(map_attempts(m@) =~= map_attempts(old_m).push(pa));
                assert(map_completions(m@) =~= map_completions(old_m).push(pc));
                lemma_id_push(map_attempts(old_m), pa);
                lemma_id_push(map_completions(old_m), pc);
                assert forall|q: int| 0 <= q < m@.len() implies {
                    let jj = #[trigger] first_index(next, m@[q].hash);
                    &&& 0 <= jj < next.len()
                    &&& m@[q].activity.name@ == next[jj].activity_name@
                    &&& m@[q].activity.description@ == next[jj].activity_description@
                } by {
                    if q < old_m.len() {
                        assert(old_m[q] == m@[q]);
                        let jj = first_index(pre, old_m[q].hash);
                        assert(next.drop_last() == pre);
                        assert(first_index(next, m@[q].hash) == jj);
                        assert(next[jj] == pre[jj]);
                    }
                }
            }
        }
        proof {
            assert forall|k: i64| #[trigger] id_weight(attempt_pairs(next), k) == id_weight(attempt_pairs(pre), k) + if k == h as i64 {
                a as int
            } else {
                0
            } by {
                assert(attempt_pairs(next).last() == pa);
            }
            assert forall|k: i64| #[trigger] id_weight(completion_pairs(next), k) == id_weight(completion_pairs(pre), k) + if k == h as i64 {
                c as int
            } else {
                0
            } by {
                assert(completion_pairs(next).last() == pc);
            }
            assert(id_tally_of(map_attempts(m@), attempt_pairs(next)));
            assert(id_tally_of(map_completions(m@), completion_pairs(next)));
            assert(activity_map_of(m@, next));
            assert(activity_map_of(m@, next));
        }
        i = i + 1;
    }
    assert(defs@.subrange(0, defs@.len() as int) =~= defs@);
    m
}

proof fn lemma_present_push(s: Seq<IdCount>, e: IdCount, k: i64)
    ensures
        id_present(s.push(e), k) <==> (id_present(s, k) || k == e.id),
{
    let t = s.push(e);
    if id_present(t, k) {
        let j = choose|j: int| 0 <= j < t.len() && #[trigger] t[j].id == k;
        if j < s.len() {
            assert(s[j].id == k);
        }
    }
    if id_present(s, k) {
        let j = choose|j: int| 0 <= j < s.len() && #[trigger] s[j].id == k;
        assert(t[j].id == k);
    }
    if k == e.id {
        assert(t[s.len() as int].id == k);
    }
}

// ---------------------------------------------------------------------------
// Timestamps, modes and fellow players over all windows
// ---------------------------------------------------------------------------
/// Some pair of `s` is about instance `k`.
pub open spec fn has_instance(s: Seq<InstanceTimestamp>, k: i64) -> bool {
    exists|i: int| 0 <= i < s.len() && #[trigger] s[i].instance_id == k
}

/// `out` keeps one (instance, time) pair of `pairs` per instance.
pub open spec fn one_stamp_per_instance(out: Seq<InstanceTimestamp>, pairs: Seq<InstanceTimestamp>) -> bool {
    &&& forall|i: int, j: int| 0 <= i < j < out.len() ==> #[trigger] out[i].instance_id != #[trigger] out[j].instance_id
    &&& forall|i: int| 0 <= i < out.len() ==> pairs.contains(#[trigger] out[i])
    &&& forall|k: i64| #[trigger] has_instance(out, k) <==> has_instance(pairs, k)
}

/// The (instance, time) pairs of all reports, one after the other.
fn flatten_timestamps(reports: &Vec<MemberConstructionReport>) -> (out: Vec<InstanceTimestamp>)
    ensures
        out@ == all_timestamps(reports@),
{
    let mut out: Vec<InstanceTimestamp> = Vec::new();
    let mut i: usize = 0;
    while i < reports.len()
        invariant
            i <= reports@.len(),
            out@ == all_timestamps(reports@.subrange(0, i as int)),
        decreases reports@.len() - i,
    {
        let part = &reports[i].instance_timestamps;
        let ghost base = out@;
        let mut j: usize = 0;
        while j < part.len()
            invariant
                j <= part@.len(),
                out@ == base + part@.subrange(0, j as int),
            decreases part@.len() - j,
        {
            out.push(part[j]);
            assert(part@.subrange(0, j + 1) =~= part@.subrange(0, j as int).push(part@[j as int]));
            j = j + 1;
        }
        proof {
            assert(part@.subrange(0, part@.len() as int) =~= part@);
            assert(reports@.subrange(0, i + 1).drop_last() =~= reports@.subrange(0, i as int));
        }
        i = i + 1;
    }
    assert(reports@.subrange(0, reports@.len() as int) =~= reports@);
    out
}

/// The first pair of each instance, in order of first appearance.
fn stamps_by_instance(pairs: &Vec<InstanceTimestamp>) -> (out: Vec<InstanceTimestamp>)
    ensures
        one_stamp_per_instance(out@, pairs@),
{
    let mut out: Vec<InstanceTimestamp> = Vec::new();
    let mut i: usize = 0;
    while i < pairs.len()
        invariant
            i <= pairs@.len(),
            one_stamp_per_instance(out@, pairs@.subrange(0, i as int)),
        decreases pairs@.len() - i,
    {
        let ghost pre = pairs@.subrange(0, i as int);
        let ghost next = pairs@.subrange(0, i + 1);
        let ghost before = out@;
        let x = pairs[i];
        assert(next[i as int] == x);
        let n = out.len();
        let mut j: usize = 0;
        while j < n && out[j].instance_id != x.instance_id
            invariant
                n == out@.len(),
                out@ == before,
                j <= n,
                forall|q: int| 0 <= q < j ==> #[trigger] out@[q].instance_id != x.instance_id,
            decreases n - j,
        {
            j = j + 1;
        }
        if j == n {
            out.push(x);
        }
        proof {
            assert forall|q: int| 0 <= q < out@.len() implies next.contains(#[trigger] out@[q]) by {
                if q < before.len() {
                    assert(pre.contains(before[q]));
                    let w = choose|w: int| 0 <= w < pre.len() && pre[w] == before[q];
                    assert(next[w] == pre[w]);
                } else {
                    assert(next[i as int] == out@[q]);
                }
            }
            assert forall|k: i64| #[trigger] has_instance(out@, k) <==> has_instance(next, k) by {
                if has_instance(out@, k) {
                    let q = choose|q: int| 0 <= q < out@.len() && #[trigger] out@[q].instance_id == k;
                    if q < before.len() {
                        assert(has_instance(before, k));
                        let w = choose|w: int| 0 <= w < pre.len() && #[trigger] pre[w].instance_id == k;
                        assert(next[w].instance_id == k);
                    } else {
                        assert(next[i as int].instance_id == k);
                    }
                }
                if has_instance(next, k) {
                    let w = choose|w: int| 0 <= w < next.len() && #[trigger] next[w].instance_id == k;
                    if w < i {
                        assert(pre[w].instance_id == k);
                        assert(has_instance(pre, k));
                        assert(has_instance(before, k));
                        let q = choose|q: int| 0 <= q < before.len() && #[trigger] before[q].instance_id == k;
                        assert(out@[q].instance_id == k);
                    } else if j < n {
                        assert(out@[j as int].instance_id == k);
                    } else {
                        assert(out@[n as int].instance_id == k);
                    }
                }
            }
        }
        i = i + 1;
    }
    assert(pairs@.subrange(0, pairs@.len() as int) =~= pairs@);
    out
}

/// The activity mode counts of all reports, one after the other.
fn flatten_modes(reports: &Vec<MemberConstructionReport>) -> (out: Vec<IdCount>)
    ensures
        out@ == all_modes(reports@),
{
    let mut out: Vec<IdCount> = Vec::new();
    let mut i: usize = 0;
    while i < reports.len()
        invariant
            i <= reports@.len(),
            out@ == all_modes(reports@.subrange(0, i as int)),
        decreases reports@.len() - i,
    {
        let part = &reports[i].activity_modes;
        let ghost base = out@;
        let mut j: usize = 0;
        while j < part.len()
            invariant
                j <= part@.len(),
                out@ == base + part@.subrange(0, j as int),
            decreases part@.len() - j,
        {
            out.push(part[j]);
            assert(part@.subrange(0, j + 1) =~= part@.subrange(0, j as int).push(part@[j as int]));
            j = j + 1;
        }
        proof {
            assert(part@.subrange(0, part@.len() as int) =~= part@);
            assert(reports@.subrange(0, i + 1).drop_last() =~= reports@.subrange(0, i as int));
        }
        i = i + 1;
    }
    assert(reports@.subrange(0, reports@.len() as int) =~= reports@);
    out
}

/// The fellow player counts of all reports, one after the other.
fn flatten_fellows(reports: &Vec<MemberConstructionReport>, network: bool) -> (out: Vec<NameCount>)
    ensures
        name_view(out@) == all_fellows(reports@, network),
{
    let mut out: Vec<NameCount> = Vec::new();
    let mut i: usize = 0;
    assert(name_view(out@) =~= Seq::<NamedAmount>::empty());
    while i < reports.len()
        invariant
            i <= reports@.len(),
            name_view(out@) == all_fellows(reports@.subrange(0, i as int), network),
        decreases reports@.len() - i,
    {
        let part = if network {
            &reports[i].clan_members
        } else {
            &reports[i].non_clan_members
        };
        let ghost base = name_view(out@);
        let mut j: usize = 0;
        while j < part.len()
            invariant
                j <= part@.len(),
                name_view(out@) == base + name_view(part@.subrange(0, j as int)),
            decreases part@.len() - j,
        {
            let ghost prev = out@;
            out.push(part[j].clone());
            proof {
                assert(out@ =~= prev.push(part@[j as int]));
                assert(name_view(out@) =~= name_view(prev).push((part@[j as int].name@, part@[j as int].count)));
                assert(name_view(part@.subrange(0, j + 1)) =~= name_view(part@.subrange(0, j as int)).push(
                    (part@[j as int].name@, part@[j as int].count),
                ));
            }
            j = j + 1;
        }
        proof {
            assert(part@.subrange(0, part@.len() as int) =~= part@);
            assert(reports@.subrange(0, i + 1).drop_last() =~= reports@.subrange(0, i as int));
        }
        i = i + 1;
    }
    assert(reports@.subrange(0, reports@.len() as int) =~= reports@);
    out
}

// ---------------------------------------------------------------------------
// Rankings
// ---------------------------------------------------------------------------
/// A fellow player with the number of instances shared with the member.
#[derive(Debug, PartialEq)]
pub struct MemberReportFireteamMember {
    pub display_name: String,
    pub activities: u64,
}

impl Clone for MemberReportFireteamMember {
    fn clone(&self) -> (r: Self)
        ensures
            r == *self,
    {
        MemberReportFireteamMember { display_name: self.display_name.clone(), activities: self.activities }
    }
}

impl Ranked for MemberReportFireteamMember {
    open spec fn rank(&self) -> int {
        self.activities as int
    }

    fn get_rank(&self) -> (r: u64) {
        self.activities
    }
}

/// An activity mode with the number of attempts in it.
#[derive(Debug, PartialEq)]
pub struct MemberReportActivityMode {
    pub mode: String,
    pub count: u64,
}

impl Ranked for IdCount {
    open spec fn rank(&self) -> int {
        self.count as int
    }

    fn get_rank(&self) -> (r: u64) {
        self.count
    }
}

/// The number of fellow players kept in each list of the report.
pub const FREQUENT_MEMBERS_SHOWN: usize = 10;

/// The fellow players of a name tally, as report entries.
pub open spec fn as_fellows(s: Seq<NameCount>) -> Seq<MemberReportFireteamMember> {
    s.map_values(|e: NameCount| MemberReportFireteamMember { display_name: e.name, activities: e.count })
}

/// `top` is the first `FREQUENT_MEMBERS_SHOWN` of the fellow players of `tally`, ordered
/// by descending shared instances.
pub open spec fn top_fellows(top: Seq<MemberReportFireteamMember>, tally: Seq<NameCount>) -> bool {
    exists|full: Seq<MemberReportFireteamMember>|
        #![trigger full.to_multiset()]
        {
            &&& full.to_multiset() == as_fellows(tally).to_multiset()
            &&& sorted_desc(full)
            &&& top == if full.len() <= FREQUENT_MEMBERS_SHOWN {
                full
            } else {
                full.subrange(0, FREQUENT_MEMBERS_SHOWN as int)
            }
        }
}

/// The fellow players of a tally, most frequent first, the first ten kept.
fn rank_fellows(tally: &Vec<NameCount>) -> (top: Vec<MemberReportFireteamMember>)
    ensures
        top_fellows(top@, tally@),
{
    let mut all: Vec<MemberReportFireteamMember> = Vec::new();
    let mut i: usize = 0;
    while i < tally.len()
        invariant
            i <= tally@.len(),
            all@ == as_fellows(tally@).subrange(0, i as int),
        decreases tally@.len() - i,
    {
        let e = tally[i].clone();
        all.push(MemberReportFireteamMember { display_name: e.name, activities: e.count });
        assert(all@ =~= as_fellows(tally@).subrange(0, i + 1));
        i = i + 1;
    }
    assert(as_fellows(tally@).subrange(0, tally@.len() as int) =~= as_fellows(tally@));
    let sorted = sort_desc(all);
    let ghost full = sorted@;
    let top = take_first(sorted, FREQUENT_MEMBERS_SHOWN);
    assert(full.to_multiset() == as_fellows(tally@).to_multiset());
    top
}

/// The name of activity mode `id`: the name of the first entry of `names` for it, or
/// `unknown` when `names` has none (the name of the unknown mode).
pub open spec fn mode_name(names: Seq<IdEntry<String>>, unknown: Seq<char>, id: i64) -> Seq<char>
    decreases names.len(),
{
    if names.len() == 0 {
        unknown
    } else if names[0].key == id {
        names[0].value@
    } else {
        mode_name(names.drop_first(), unknown, id)
    }
}

/// The name of activity mode `id` in the table `names`, `unknown` when the table has none.
fn find_mode_name(names: &Vec<IdEntry<String>>, unknown: &str, id: i64) -> (r: String)
    ensures
        r@ == mode_name(names@, unknown@, id),
{
    let mut i: usize = 0;
    assert(names@.subrange(0, names@.len() as int) =~= names@);
    while i < names.len()
        invariant
            i <= names@.len(),
            mode_name(names@, unknown@, id) == mode_name(names@.subrange(i as int, names@.len() as int), unknown@, id),
        decreases names@.len() - i,
    {
        let ghost rest = names@.subrange(i as int, names@.len() as int);
        assert(rest.drop_first() =~= names@.subrange(i + 1, names@.len() as int));
        if names[i].key == id {
            return names[i].value.clone();
        }
        i = i + 1;
    }
    String::from_str(unknown)
}

/// `out` holds the modes of `tally`, under their names, ordered by descending attempts.
pub open spec fn ranked_modes(
    out: Seq<MemberReportActivityMode>,
    tally: Seq<IdCount>,
    names: Seq<IdEntry<String>>,
    unknown: Seq<char>,
) -> bool {
    exists|order: Seq<IdCount>|
        #![trigger order.to_multiset()]
        {
            &&& order.to_multiset() == tally.to_multiset()
            &&& sorted_desc(order)
            &&& out.len() == order.len()
            &&& forall|i: int|
                0 <= i < out.len() ==> #[trigger] out[i].mode@ == mode_name(names, unknown, order[i].id)
                    && out[i].count == order[i].count
        }
}

/// The activity modes, most attempted first.
fn rank_modes(tally: &Vec<IdCount>, mode_names: &Vec<IdEntry<String>>, unknown_mode: &str) -> (out: Vec<MemberReportActivityMode>)
    ensures
        ranked_modes(out@, tally@, mode_names@, unknown_mode@),
{
    let mut copy: Vec<IdCount> = Vec::new();
    let mut i: usize = 0;
    while i < tally.len()
        invariant
            i <= tally@.len(),
            copy@ == tally@.subrange(0, i as int),
        decreases tally@.len() - i,
    {
        copy.push(tally[i]);
        assert(copy@ =~= tally@.subrange(0, i + 1));
        i = i + 1;
    }
    assert(tally@.subrange(0, tally@.len() as int) =~= tally@);
    let order = sort_desc(copy);
    let mut out: Vec<MemberReportActivityMode> = Vec::new();
    let mut k: usize = 0;
    while k < order.len()
        invariant
            k <= order@.len(),
            out@.len() == k,
            forall|q: int|
                0 <= q < k ==> (#[trigger] out@[q]).mode@ == mode_name(mode_names@, unknown_mode@, order@[q].id)
                    && out@[q].count == order@[q].count,
        decreases order@.len() - k,
    {
        let ghost prev = out@;
        let text = find_mode_name(mode_names, unknown_mode, order[k].id);
        out.push(MemberReportActivityMode { mode: text, count: order[k].count });
        assert(forall|q: int| 0 <= q < k ==> out@[q] == prev[q]);
        assert(out@[k as int].mode@ == mode_name(mode_names@, unknown_mode@, order@[k as int].id));
        assert(out@[k as int].count == order@[k as int].count);
        k = k + 1;
    }
    assert(order@.to_multiset() == tally@.to_multiset());
    out
}

/// The activities of an activity map.
pub open spec fn map_activities(m: Seq<ActivityMapEntry>) -> Seq<MemberReportActivity> {
    m.map_values(|e: ActivityMapEntry| e.activity)
}

/// The activities of the map, most attempted first.
fn rank_activities(m: &Vec<ActivityMapEntry>) -> (out: Vec<MemberReportActivity>)
    ensures
        out@.to_multiset() == map_activities(m@).to_multiset(),
        sorted_desc(out@),
{
    let mut all: Vec<MemberReportActivity> = Vec::new();
    let mut i: usize = 0;
    while i < m.len()
        invariant
            i <= m@.len(),
            all@ == map_activities(m@).subrange(0, i as int),
        decreases m@.len() - i,
    {
        all.push(m[i].activity.clone());
        assert(all@ =~= map_activities(m@).subrange(0, i + 1));
        i = i + 1;
    }
    assert(map_activities(m@).subrange(0, m@.len() as int) =~= map_activities(m@));
    sort_desc(all)
}

// ---------------------------------------------------------------------------
// Merging
// ---------------------------------------------------------------------------
/// The sums over the reports fit in `u64`.
pub open spec fn reports_mergeable(reports: Seq<MemberConstructionReport>) -> bool {
    &&& count_sum(reports, ReportCount::Attempts) <= u64::MAX
    &&& count_sum(reports, ReportCount::AttemptsWithClan) <= u64::MAX
    &&& count_sum(reports, ReportCount::Completions) <= u64::MAX
    &&& stats_sum_fits(reports, ActivityCategory::Pve)
    &&& stats_sum_fits(reports, ActivityCategory::Pvp)
    &&& stats_sum_fits(reports, ActivityCategory::Gambit)
    &&& stats_sum_fits(reports, ActivityCategory::PrivateMatch)
    &&& stats_sum_fits(reports, ActivityCategory::Reckoning)
    &&& id_weights_fit(attempt_pairs(all_definitions(reports)))
    &&& id_weights_fit(completion_pairs(all_definitions(reports)))
    &&& id_weights_fit(all_modes(reports))
    &&& name_weights_fit(all_fellows(reports, true))
    &&& name_weights_fit(all_fellows(reports, false))
}

/// The membership id of the last report, 0 without reports.
pub open spec fn last_membership_id(reports: Seq<MemberConstructionReport>) -> i64 {
    if reports.len() == 0 {
        0
    } else {
        reports.last().membership_id
    }
}

/// The last played time of the last report, 0 without reports.
pub open spec fn last_played(reports: Seq<MemberConstructionReport>) -> u64 {
    if reports.len() == 0 {
        0
    } else {
        reports.last().last_played_at
    }
}

/// What merging the window reports gives, before the fellow players' names are
/// completed and the titles and profile are added.
#[derive(Debug)]
pub struct MergedReports {
    pub membership_id: i64,
    pub last_played_at: u64,
    pub activity_attempts: u64,
    pub activity_attempts_with_clan: u64,
    pub activity_completions: u64,
    pub stats_pve: MemberReportStats,
    pub stats_pvp: MemberReportStats,
    pub stats_gambit: MemberReportStats,
    pub stats_private_matches: MemberReportStats,
    pub stats_reckoning: MemberReportStats,
    pub activity_map: Vec<ActivityMapEntry>,
    pub activity_timestamps: Vec<InstanceTimestamp>,
    pub activity_modes: Vec<IdCount>,
    pub clan_members: Vec<NameCount>,
    pub non_clan_members: Vec<NameCount>,
    pub frequent_clan_members: Vec<MemberReportFireteamMember>,
    pub frequent_non_clan_members: Vec<MemberReportFireteamMember>,
    pub total_clan_members: u64,
    pub total_non_clan_members: u64,
    pub top_activity_modes: Vec<MemberReportActivityMode>,
    pub top_activities: Vec<MemberReportActivity>,
}

/// Merges the window reports of a season or of a lifetime: counts and statistics are
/// summed, activities, modes and fellow players are totalled under their keys, one
/// time is kept per instance, and the rankings are built; the activity modes are named
/// from the table `mode_names` (mode id to name), `unknown_mode` naming a mode it lacks.
pub fn merge_reports(
    reports: &Vec<MemberConstructionReport>,
    mode_names: &Vec<IdEntry<String>>,
    unknown_mode: &str,
) -> (m: MergedReports)
    requires
        reports_mergeable(reports@),
    ensures
        m.membership_id == last_membership_id(reports@),
        m.last_played_at == last_played(reports@),
        m.activity_attempts == count_sum(reports@, ReportCount::Attempts),
        m.activity_attempts_with_clan == count_sum(reports@, ReportCount::AttemptsWithClan),
        m.activity_completions == count_sum(reports@, ReportCount::Completions),
        m.stats_pve == stats_sum(reports@, ActivityCategory::Pve),
        m.stats_pvp == stats_sum(reports@, ActivityCategory::Pvp),
        m.stats_gambit == stats_sum(reports@, ActivityCategory::Gambit),
        m.stats_private_matches == stats_sum(reports@, ActivityCategory::PrivateMatch),
        m.stats_reckoning == stats_sum(reports@, ActivityCategory::Reckoning),
        activity_map_of(m.activity_map@, all_definitions(reports@)),
        one_stamp_per_instance(m.activity_timestamps@, all_timestamps(reports@)),
        id_tally_of(m.activity_modes@, all_modes(reports@)),
        name_tally_of(name_view(m.clan_members@), all_fellows(reports@, true)),
        name_tally_of(name_view(m.non_clan_members@), all_fellows(reports@, false)),
        top_fellows(m.frequent_clan_members@, m.clan_members@),
        top_fellows(m.frequent_non_clan_members@, m.non_clan_members@),
        m.total_clan_members == m.clan_members@.len(),
        m.total_non_clan_members == m.non_clan_members@.len(),
        ranked_modes(m.top_activity_modes@, m.activity_modes@, mode_names@, unknown_mode@),
        m.top_activities@.to_multiset() == map_activities(m.activity_map@).to_multiset(),
        sorted_desc(m.top_activities@),
{
    let n = reports.len();
    let (membership_id, last_played_at) = if n == 0 {
        (0i64, 0u64)
    } else {
        (reports[n - 1].membership_id, reports[n - 1].last_played_at)
    };
    let defs = flatten_definitions(reports);
    let activity_map = tally_activities(&defs);
    let stamps = flatten_timestamps(reports);
    let activity_timestamps = stamps_by_instance(&stamps);
    let modes = flatten_modes(reports);
    let activity_modes = id_tally(&modes);
    let clan_pairs = flatten_fellows(reports, true);
    let clan_members = name_tally(&clan_pairs);
    let other_pairs = flatten_fellows(reports, false);
    let non_clan_members = name_tally(&other_pairs);
    let frequent_clan_members = rank_fellows(&clan_members);
    let frequent_non_clan_members = rank_fellows(&non_clan_members);
    let top_activity_modes = rank_modes(&activity_modes, mode_names, unknown_mode);
    let top_activities = rank_activities(&activity_map);
    MergedReports {
        membership_id,
        last_played_at,
        activity_attempts: sum_count(reports, ReportCount::Attempts),
        activity_attempts_with_clan: sum_count(reports, ReportCount::AttemptsWithClan),
        activity_completions: sum_count(reports, ReportCount::Completions),
        stats_pve: sum_stats(reports, ActivityCategory::Pve),
        stats_pvp: sum_stats(reports, ActivityCategory::Pvp),
        stats_gambit: sum_stats(reports, ActivityCategory::Gambit),
        stats_private_matches: sum_stats(reports, ActivityCategory::PrivateMatch),
        stats_reckoning: sum_stats(reports, ActivityCategory::Reckoning),
        total_clan_members: clan_members.len() as u64,
        total_non_clan_members: non_clan_members.len() as u64,
        activity_map,
        activity_timestamps,
        activity_modes,
        clan_members,
        non_clan_members,
        frequent_clan_members,
        frequent_non_clan_members,
        top_activity_modes,
        top_activities,
    }
}

// ---------------------------------------------------------------------------
// The finished report
// ---------------------------------------------------------------------------
/// Version of the report layout; snapshots of another version are not reused.
pub const MEMBER_REPORT_VERSION: u8 = 0;

/// The membership id a fellow player's entry name stands for, when the name is one
/// (fellow players without a known Bungie name are listed under their membership id).
pub fn coalesce_target(display_name: &str) -> (r: Option<i64>)
    ensures
        r matches Some(v) ==> parse_in_range(display_name@, true, i64::MIN as int, i64::MAX as int) == Some(
            v as int,
        ),
        r is None ==> parse_in_range(display_name@, true, i64::MIN as int, i64::MAX as int) is None,
{
    parse_i64(display_name)
}

/// A fellow player listed under a membership id, because the profile is unknown or has
/// no Bungie name, is completed from the profile of that same membership id.
pub proof fn lemma_fellow_id_reads_back(profiles: Seq<MemberResult>, id: i64)
    requires
        profile_of(profiles, id) matches Some(p) ==> hidden_name(p.display_name_global@),
    ensures
        parse_in_range(fellow_name(profiles, id), true, i64::MIN as int, i64::MAX as int) == Some(
            id as int,
        ),
{
    lemma_parse_in_range_text(id as int, true, i64::MIN as int, i64::MAX as int);
}

/// The name a stored profile gives a fellow player: the Bungie name, or the platform
/// name when the Bungie name is the placeholder `#0000`.
pub open spec fn profile_name(p: MemberResult) -> Seq<char> {
    if hidden_name(p.display_name_global@) {
        p.display_name@
    } else {
        p.display_name_global@
    }
}

/// Completes a fellow player's name from the stored profile `found` of the membership
/// id the name stands for; without a profile the name stays.
pub fn coalesce_display_name(member: &mut MemberReportFireteamMember, found: Option<MemberResult>)
    ensures
        final(member).activities == old(member).activities,
        found matches Some(p) ==> final(member).display_name@ == profile_name(p),
        found is None ==> final(member).display_name@ == old(member).display_name@,
{
    proof {
        reveal_strlit("#0000");
        assert("#0000"@ =~= seq!['#', '0', '0', '0', '0']);
    }
    match found {
        Some(p) => {
            member.display_name = if equals(p.display_name_global.as_str(), "#0000") {
                p.display_name
            } else {
                p.display_name_global
            };
        },
        None => {},
    }
}

/// The name a fellow player's entry ends up under: when its name reads as a membership id
/// and `profiles` holds that member, the name the profile gives; else the name stays.
pub open spec fn coalesced_name(name: Seq<char>, profiles: Seq<MemberResult>) -> Seq<char> {
    match parse_in_range(name, true, i64::MIN as int, i64::MAX as int) {
        Some(id) => match profile_of(profiles, id as i64) {
            Some(p) => profile_name(p),
            None => name,
        },
        None => name,
    }
}

/// The profile kept for membership id `id` among `profiles` (the last one with that id).
fn find_profile(profiles: &Vec<MemberResult>, id: i64) -> (r: Option<MemberResult>)
    ensures
        r == profile_of(profiles@, id),
{
    let mut j: usize = profiles.len();
    assert(profiles@.subrange(0, j as int) =~= profiles@);
    while j > 0
        invariant
            j <= profiles@.len(),
            profile_of(profiles@, id) == profile_of(profiles@.subrange(0, j as int), id),
        decreases j,
    {
        let ghost pre = profiles@.subrange(0, j as int);
        assert(pre.drop_last() =~= profiles@.subrange(0, j - 1));
        if profiles[j - 1].membership_id == id {
            return Some(profiles[j - 1].clone());
        }
        j = j - 1;
    }
    None
}

/// Completes the names of a report's fellow players from the stored profiles looked up
/// for the membership ids their names stand for.
pub fn coalesce_fellows(members: &mut Vec<MemberReportFireteamMember>, profiles: &Vec<MemberResult>)
    ensures
        final(members)@.len() == old(members)@.len(),
        forall|i: int|
            0 <= i < old(members)@.len() ==> {
                &&& (#[trigger] final(members)@[i]).activities == old(members)@[i].activities
                &&& final(members)@[i].display_name@ == coalesced_name(old(members)@[i].display_name@, profiles@)
            },
{
    let ghost before = members@;
    let mut i: usize = 0;
    while i < members.len()
        invariant
            members@.len() == before.len(),
            i <= members@.len(),
            forall|q: int|
                0 <= q < i ==> {
                    &&& (#[trigger] members@[q]).activities == before[q].activities
                    &&& members@[q].display_name@ == coalesced_name(before[q].display_name@, profiles@)
                },
            forall|q: int| i <= q < members@.len() ==> #[trigger] members@[q] == before[q],
        decreases members@.len() - i,
    {
        let mut m = members[i].clone();
        let found = match coalesce_target(m.display_name.as_str()) {
            Some(id) => find_profile(profiles, id),
            None => None,
        };
        coalesce_display_name(&mut m, found);
        members.set(i, m);
        i = i + 1;
    }
}

/// A member's report over a season or a lifetime, as the API returns it.
#[derive(Debug)]
pub struct MemberReport {
    pub version: u8,
    pub membership_id: i64,
    pub snapshot_range: String,
    pub display_name_global: String,
    pub last_played_at: u64,
    /// One time per instance (the API keys them by instance).
    pub activity_timestamps: Vec<InstanceTimestamp>,
    pub activity_attempts: u64,
    pub activity_attempts_with_clan: u64,
    pub activity_completions: u64,
    pub stats_pve: MemberReportStats,
    pub stats_pvp: MemberReportStats,
    pub stats_gambit: MemberReportStats,
    pub stats_private_matches: MemberReportStats,
    pub stats_reckoning: MemberReportStats,
    pub top_activity_modes: Vec<MemberReportActivityMode>,
    pub top_activities: Vec<MemberReportActivity>,
    /// Totals per activity (the API keys them by the hash's decimal text).
    pub activity_map: Vec<ActivityMapEntry>,
    pub frequent_clan_members: Vec<MemberReportFireteamMember>,
    pub frequent_non_clan_members: Vec<MemberReportFireteamMember>,
    pub total_clan_members: u64,
    pub total_non_clan_members: u64,
    pub titles: Vec<MemberTitle>,
    pub member: MemberResponse,
}

impl View for MemberReport {
    type V = MemberReport;

    open spec fn view(&self) -> MemberReport {
        *self
    }
}

/// The report from the merged windows, the member's title rows and stored profile
/// (an empty profile when there is none).
pub fn finish_report(
    display_name_global: String,
    snapshot_range: String,
    merged: MergedReports,
    titles: Vec<TriumphTitleResult>,
    member: Option<MemberResult>,
) -> (r: MemberReport)
    ensures
        r.version == MEMBER_REPORT_VERSION,
        r.membership_id == merged.membership_id,
        r.snapshot_range == snapshot_range,
        r.display_name_global == display_name_global,
        r.last_played_at == merged.last_played_at,
        r.activity_timestamps == merged.activity_timestamps,
        r.activity_attempts == merged.activity_attempts,
        r.activity_attempts_with_clan == merged.activity_attempts_with_clan,
        r.activity_completions == merged.activity_completions,
        r.stats_pve == merged.stats_pve,
        r.stats_pvp == merged.stats_pvp,
        r.stats_gambit == merged.stats_gambit,
        r.stats_private_matches == merged.stats_private_matches,
        r.stats_reckoning == merged.stats_reckoning,
        r.top_activity_modes == merged.top_activity_modes,
        r.top_activities == merged.top_activities,
        r.activity_map == merged.activity_map,
        r.frequent_clan_members == merged.frequent_clan_members,
        r.frequent_non_clan_members == merged.frequent_non_clan_members,
        r.total_clan_members == merged.total_clan_members,
        r.total_non_clan_members == merged.total_non_clan_members,
        r.titles@.len() == titles@.len(),
        forall|i: int| 0 <= i < titles@.len() ==> member_title_of(#[trigger] r.titles@[i], titles@[i]),
        member matches Some(p) ==> member_response_of(r.member, p),
        member is None ==> exists|e: MemberResult| is_empty_member(e) && member_response_of(r.member, e),
{
    let mut rows = titles;
    let ghost orig = rows@;
    let mut out: Vec<MemberTitle> = Vec::new();
    while rows.len() > 0
        invariant
            out@.len() <= orig.len(),
            rows@ == orig.subrange(out@.len() as int, orig.len() as int),
            forall|i: int| 0 <= i < out@.len() ==> member_title_of(#[trigger] out@[i], orig[i]),
        decreases rows@.len(),
    {
        let row = rows.remove(0);
        assert(row == orig[out@.len() as int]);
        out.push(MemberTitle::from_db(row));
        assert(rows@ =~= orig.subrange(out@.len() as int, orig.len() as int));
    }
    let profile = match member {
        Some(p) => MemberResponse::from_db(p),
        None => {
            let e = MemberResult::empty();
            let ghost eg = e;
            let resp = MemberResponse::from_db(e);
            assert(is_empty_member(eg) && member_response_of(resp, eg));
            resp
        },
    };
    MemberReport {
        version: MEMBER_REPORT_VERSION,
        membership_id: merged.membership_id,
        snapshot_range,
        display_name_global,
        last_played_at: merged.last_played_at,
        activity_timestamps: merged.activity_timestamps,
        activity_attempts: merged.activity_attempts,
        activity_attempts_with_clan: merged.activity_attempts_with_clan,
        activity_completions: merged.activity_completions,
        stats_pve: merged.stats_pve,
        stats_pvp: merged.stats_pvp,
        stats_gambit: merged.stats_gambit,
        stats_private_matches: merged.stats_private_matches,
        stats_reckoning: merged.stats_reckoning,
        top_activity_modes: merged.top_activity_modes,
        top_activities: merged.top_activities,
        activity_map: merged.activity_map,
        frequent_clan_members: merged.frequent_clan_members,
        frequent_non_clan_members: merged.frequent_non_clan_members,
        total_clan_members: merged.total_clan_members,
        total_non_clan_members: merged.total_non_clan_members,
        titles: out,
        member: profile,
    }
}

// ---------------------------------------------------------------------------
// One window's report
// ---------------------------------------------------------------------------
/// The report of one window of `member`'s history, from what was gathered for it: the
/// analysis of the member's activities, the instances of the member's `completed`
/// statistic rows, the statistics of each category, the activities' definitions, the
/// stored profiles of the fellow players and the analysis of who the member played with.
pub fn build_window_report(
    member: MemberResult,
    activities: ActivityAnalysis,
    completed_instance_ids: &Vec<i64>,
    stats_pve: MemberReportStats,
    stats_pvp: MemberReportStats,
    stats_gambit: MemberReportStats,
    stats_private_matches: MemberReportStats,
    stats_reckoning: MemberReportStats,
    activity_definitions: Vec<ActivityInstanceResult>,
    profiles: Vec<MemberResult>,
    fireteam: FireteamAnalysis,
) -> (r: MemberConstructionReport)
    ensures
        r.version == MEMBER_REPORT_VERSION,
        r.display_name_global == member.display_name_global,
        r.membership_id == member.membership_id,
        r.last_played_at == member.last_played_at,
        r.activity_attempts == activities.attempts,
        r.activity_attempts_with_clan == fireteam.attempts_with_clan,
        r.activity_completions == completed_instance_ids@.to_set().len(),
        r.activity_modes == activities.activity_modes,
        r.instance_timestamps == activities.instance_timestamps,
        r.instance_members_profiles == profiles,
        r.instance_members == fireteam.instance_member_counts,
        r.clan_members == fireteam.clan_members,
        r.non_clan_members == fireteam.non_clan_members,
        r.stats_pve == stats_pve,
        r.stats_pvp == stats_pvp,
        r.stats_gambit == stats_gambit,
        r.stats_private_matches == stats_private_matches,
        r.stats_reckoning == stats_reckoning,
        r.activity_definitions == activity_definitions,
{
    let completed = distinct(completed_instance_ids);
    proof {
        completed@.unique_seq_to_set();
    }
    MemberConstructionReport {
        version: MEMBER_REPORT_VERSION,
        stats_pve,
        stats_pvp,
        stats_gambit,
        stats_private_matches,
        stats_reckoning,
        display_name_global: member.display_name_global,
        membership_id: member.membership_id,
        activity_attempts: activities.attempts,
        activity_attempts_with_clan: fireteam.attempts_with_clan,
        activity_completions: completed.len() as u64,
        activity_modes: activities.activity_modes,
        instance_timestamps: activities.instance_timestamps,
        instance_members_profiles: profiles,
        instance_members: fireteam.instance_member_counts,
        clan_members: fireteam.clan_members,
        non_clan_members: fireteam.non_clan_members,
        last_played_at: member.last_played_at,
        activity_definitions,
    }
}


/// How one window of a member's history is reported.
#[derive(Debug)]
pub enum WindowStep {
    /// The member is not known: the window gives no report.
    NoMember,
    /// The stored snapshot of the window is the report.
    Snapshot(MemberConstructionReport),
    /// The report is built from the window's activities (and then stored).
    Build,
}

/// How one window is reported, given whether the member was found and the window's stored
/// snapshot (of the current version), if one reads.
pub fn window_step(member_found: bool, snapshot: Option<MemberConstructionReport>) -> (r: WindowStep)
    ensures
        !member_found ==> r is NoMember,
        member_found && snapshot is None ==> r is Build,
        member_found ==> (snapshot matches Some(s) ==> r == WindowStep::Snapshot(s)),
{
    if !member_found {
        WindowStep::NoMember
    } else {
        match snapshot {
            Some(s) => WindowStep::Snapshot(s),
            None => WindowStep::Build,
        }
    }
}

} // verus!
