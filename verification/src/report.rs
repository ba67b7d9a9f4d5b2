//! Member reports: what one time window of a member's activity history gives
//! (attempts, completions, activity modes, fellow players in and out of the
//! network, per-category statistics), and how the windows of a season or of a
//! member's lifetime are merged and ranked into the report the API returns.
use vstd::prelude::*;
use crate::ranking::{Ranked, sort_desc, sorted_desc, take_first};
use crate::records::{ActivityHistoryRecord, InstanceMemberRecord, InstanceRecord, MemberResult};
use crate::tally::{
    IdCount, NameCount, NamedAmount, name_present, name_view, distinct, distinct_of, id_tally, id_tally_of, id_total, id_weight,
    id_weights_fit, name_tally, name_tally_add, name_tally_of, name_total, name_weight, name_weights_fit,
    set_insert,
};
use crate::text::{equals, i64_text, int_text, split, split_spec};

verus! {

// ---------------------------------------------------------------------------
// Statistics
// ---------------------------------------------------------------------------
/// Statistics of one category of activities (PvE, PvP, Gambit, private matches, Reckoning).
#[derive(Clone, Copy, Debug, PartialEq, Eq)]
pub struct MemberReportStats {
    pub kills: u64,
    pub deaths: u64,
    pub assists: u64,
    pub victories: u64,
    pub defeats: u64,
    pub activities: u64,
    pub activity_completions: u64,
    pub activities_completed_start_to_finish: u64,
}

pub open spec fn zero_stats() -> MemberReportStats {
    MemberReportStats {
        kills: 0,
        deaths: 0,
        assists: 0,
        victories: 0,
        defeats: 0,
        activities: 0,
        activity_completions: 0,
        activities_completed_start_to_finish: 0,
    }
}

impl Default for MemberReportStats {
    fn default() -> (r: Self)
        ensures
            r == zero_stats(),
    {
        MemberReportStats {
            kills: 0,
            deaths: 0,
            assists: 0,
            victories: 0,
            defeats: 0,
            activities: 0,
            activity_completions: 0,
            activities_completed_start_to_finish: 0,
        }
    }
}

/// Field-wise sums fit in `u64`.
pub open spec fn stats_addable(a: MemberReportStats, b: MemberReportStats) -> bool {
    &&& a.kills + b.kills <= u64::MAX
    &&& a.deaths + b.deaths <= u64::MAX
    &&& a.assists + b.assists <= u64::MAX
    &&& a.victories + b.victories <= u64::MAX
    &&& a.defeats + b.defeats <= u64::MAX
    &&& a.activities + b.activities <= u64::MAX
    &&& a.activity_completions + b.activity_completions <= u64::MAX
    &&& a.activities_completed_start_to_finish + b.activities_completed_start_to_finish <= u64::MAX
}

/// Field-wise sum.
pub open spec fn stats_add(a: MemberReportStats, b: MemberReportStats) -> MemberReportStats
    recommends
        stats_addable(a, b),
{
    MemberReportStats {
        kills: (a.kills + b.kills) as u64,
        deaths: (a.deaths + b.deaths) as u64,
        assists: (a.assists + b.assists) as u64,
        victories: (a.victories + b.victories) as u64,
        defeats: (a.defeats + b.defeats) as u64,
        activities: (a.activities + b.activities) as u64,
        activity_completions: (a.activity_completions + b.activity_completions) as u64,
        activities_completed_start_to_finish: (a.activities_completed_start_to_finish
            + b.activities_completed_start_to_finish) as u64,
    }
}

/// Adds the statistics of `b` to `a`, field by field.
pub fn merge_stats(a: &mut MemberReportStats, b: &MemberReportStats)
    requires
        stats_addable(*old(a), *b),
    ensures
        *final(a) == stats_add(*old(a), *b),
{
    a.assists = a.assists + b.assists;
    a.deaths = a.deaths + b.deaths;
    a.defeats = a.defeats + b.defeats;
    a.kills = a.kills + b.kills;
    a.victories = a.victories + b.victories;
    a.activity_completions = a.activity_completions + b.activity_completions;
    a.activities = a.activities + b.activities;
    a.activities_completed_start_to_finish = a.activities_completed_start_to_finish
        + b.activities_completed_start_to_finish;
}

/// Merging into empty statistics gives the merged statistics unchanged.
pub proof fn lemma_merge_stats_identity(b: MemberReportStats)
    ensures
        stats_addable(zero_stats(), b),
        stats_add(zero_stats(), b) == b,
{
}

/// The order in which two windows' statistics are merged does not matter.
pub proof fn lemma_merge_stats_commutative(a: MemberReportStats, b: MemberReportStats)
    requires
        stats_addable(a, b),
    ensures
        stats_addable(b, a),
        stats_add(a, b) == stats_add(b, a),
{
}

/// Merging three windows' statistics is associative.
pub proof fn lemma_merge_stats_associative(
    a: MemberReportStats,
    b: MemberReportStats,
    c: MemberReportStats,
)
    requires
        stats_addable(a, b),
        stats_addable(stats_add(a, b), c),
    ensures
        stats_addable(b, c),
        stats_addable(a, stats_add(b, c)),
        stats_add(stats_add(a, b), c) == stats_add(a, stats_add(b, c)),
{
}

/// Sum of a sequence of amounts.
pub open spec fn sum_u64(s: Seq<u64>) -> int
    decreases s.len(),
{
    if s.len() == 0 {
        0
    } else {
        sum_u64(s.drop_last()) + s.last() as int
    }
}

/// The sum of a prefix is between 0 and the sum of the whole sequence.
pub proof fn lemma_sum_u64_prefix(s: Seq<u64>, n: int)
    requires
        0 <= n <= s.len(),
    ensures
        0 <= sum_u64(s.subrange(0, n)) <= sum_u64(s),
    decreases s.len() - n,
{
    if n < s.len() {
        lemma_sum_u64_prefix(s, n + 1);
        assert(s.subrange(0, n + 1).drop_last() =~= s.subrange(0, n));
    } else {
        assert(s.subrange(0, n) =~= s);
    }
    lemma_sum_u64_nonneg(s.subrange(0, n));
}

/// A sum of amounts is not negative.
pub proof fn lemma_sum_u64_nonneg(s: Seq<u64>)
    ensures
        sum_u64(s) >= 0,
    decreases s.len(),
{
    if s.len() > 0 {
        lemma_sum_u64_nonneg(s.drop_last());
    }
}

/// Sum of the amounts, which must fit in a `u64`.
pub fn total(values: &Vec<u64>) -> (t: u64)
    requires
        sum_u64(values@) <= u64::MAX,
    ensures
        t == sum_u64(values@),
{
    let mut t: u64 = 0;
    let mut i: usize = 0;
    while i < values.len()
        invariant
            i <= values@.len(),
            sum_u64(values@) <= u64::MAX,
            t == sum_u64(values@.subrange(0, i as int)),
        decreases values@.len() - i,
    {
        proof {
            lemma_sum_u64_prefix(values@, i + 1);
            assert(values@.subrange(0, i + 1).drop_last() =~= values@.subrange(0, i as int));
        }
        t = t + values[i];
        i = i + 1;
    }
    assert(values@.subrange(0, values@.len() as int) =~= values@);
    t
}

/// Number of instances completed from the very start (`started_from_beginning == 1 && completed == 1`).
pub open spec fn full_completions(instances: Seq<InstanceRecord>) -> nat
    decreases instances.len(),
{
    if instances.len() == 0 {
        0
    } else {
        full_completions(instances.drop_last()) + if instances.last().started_from_beginning == 1
            && instances.last().completed == 1 {
            1nat
        } else {
            0nat
        }
    }
}

/// Statistics of one category of a member's activities.
///
/// `instance_ids` are the category's instances; `completed_instance_ids` the instances
/// of the member's `completed` statistic rows; `kills`, `deaths` and `assists` the
/// values of those statistic rows, rounded up; `victory_rows` and `defeat_rows` the
/// numbers of `standing` rows reading `Victory` and `Defeat`; `instances` the instance
/// rows of the category.
pub fn compute_stats(
    instance_ids: &Vec<i64>,
    completed_instance_ids: &Vec<i64>,
    kills: &Vec<u64>,
    deaths: &Vec<u64>,
    assists: &Vec<u64>,
    victory_rows: usize,
    defeat_rows: usize,
    instances: &Vec<InstanceRecord>,
) -> (stats: MemberReportStats)
    requires
        sum_u64(kills@) <= u64::MAX,
        sum_u64(deaths@) <= u64::MAX,
        sum_u64(assists@) <= u64::MAX,
    ensures
        stats.kills == sum_u64(kills@),
        stats.deaths == sum_u64(deaths@),
        stats.assists == sum_u64(assists@),
        stats.victories == victory_rows,
        stats.defeats == defeat_rows,
        stats.activities == instance_ids@.len(),
        stats.activity_completions == completed_instance_ids@.to_set().len(),
        stats.activities_completed_start_to_finish == full_completions(instances@),
{
    let unique = distinct(completed_instance_ids);
    proof {
        unique@.unique_seq_to_set();
    }
    let mut full: u64 = 0;
    let mut i: usize = 0;
    while i < instances.len()
        invariant
            i <= instances@.len(),
            full == full_completions(instances@.subrange(0, i as int)),
            full <= i,
        decreases instances@.len() - i,
    {
        proof {
            assert(instances@.subrange(0, i + 1).drop_last() =~= instances@.subrange(0, i as int));
        }
        if instances[i].started_from_beginning == 1 && instances[i].completed == 1 {
            full = full + 1;
        }
        i = i + 1;
    }
    assert(instances@.subrange(0, instances@.len() as int) =~= instances@);
    MemberReportStats {
        kills: total(kills),
        deaths: total(deaths),
        assists: total(assists),
        victories: victory_rows as u64,
        defeats: defeat_rows as u64,
        activities: instance_ids.len() as u64,
        activity_completions: unique.len() as u64,
        activities_completed_start_to_finish: full,
    }
}

// ---------------------------------------------------------------------------
// Activity categories
// ---------------------------------------------------------------------------
/// The category an activity is counted under, from the first mode in its list that
/// Bungie uses to mark a category: 5 PvP, 7 PvE, 64 Gambit, 32 private matches,
/// 76 Reckoning.
#[derive(Clone, Copy, Debug, PartialEq, Eq)]
pub enum ActivityCategory {
    Pvp,
    Pve,
    Gambit,
    PrivateMatch,
    Reckoning,
    Unknown,
}

pub open spec fn piece_category(p: Seq<char>) -> Option<ActivityCategory> {
    if p == seq!['5'] {
        Some(ActivityCategory::Pvp)
    } else if p == seq!['7'] {
        Some(ActivityCategory::Pve)
    } else if p == seq!['6', '4'] {
        Some(ActivityCategory::Gambit)
    } else if p == seq!['3', '2'] {
        Some(ActivityCategory::PrivateMatch)
    } else if p == seq!['7', '6'] {
        Some(ActivityCategory::Reckoning)
    } else {
        None
    }
}

pub open spec fn first_category(pieces: Seq<Seq<char>>) -> ActivityCategory
    decreases pieces.len(),
{
    if pieces.len() == 0 {
        ActivityCategory::Unknown
    } else {
        match piece_category(pieces[0]) {
            Some(c) => c,
            None => first_category(pieces.drop_first()),
        }
    }
}

/// The category of an activity whose modes are the comma separated list `modes`.
pub open spec fn category_spec(modes: Seq<char>) -> ActivityCategory {
    first_category(split_spec(modes, ','))
}

fn mode_piece_category(p: &str) -> (r: Option<ActivityCategory>)
    ensures
        r == piece_category(p@),
{
    proof {
        reveal_strlit("5");
        reveal_strlit("7");
        reveal_strlit("64");
        reveal_strlit("32");
        reveal_strlit("76");
        assert("5"@ =~= seq!['5']);
        assert("7"@ =~= seq!['7']);
        assert("64"@ =~= seq!['6', '4']);
        assert("32"@ =~= seq!['3', '2']);
        assert("76"@ =~= seq!['7', '6']);
    }
    if equals(p, "5") {
        Some(ActivityCategory::Pvp)
    } else if equals(p, "7") {
        Some(ActivityCategory::Pve)
    } else if equals(p, "64") {
        Some(ActivityCategory::Gambit)
    } else if equals(p, "32") {
        Some(ActivityCategory::PrivateMatch)
    } else if equals(p, "76") {
        Some(ActivityCategory::Reckoning)
    } else {
        None
    }
}

/// The category of an activity from its comma separated list of modes.
pub fn classify_modes(modes: &str) -> (c: ActivityCategory)
    ensures
        c == category_spec(modes@),
{
    let pieces = split(modes, ',');
    let ghost views = split_spec(modes@, ',');
    let mut i: usize = 0;
    assert(views.subrange(0, views.len() as int) =~= views);
    while i < pieces.len()
        invariant
            views == split_spec(modes@, ','),
            pieces@.len() == views.len(),
            forall|k: int| 0 <= k < pieces@.len() ==> #[trigger] pieces@[k]@ == views[k],
            i <= pieces@.len(),
            first_category(views) == first_category(views.subrange(i as int, views.len() as int)),
        decreases pieces@.len() - i,
    {
        let ghost rest = views.subrange(i as int, views.len() as int);
        assert(rest[0] == views[i as int]);
        assert(rest.drop_first() =~= views.subrange(i + 1, views.len() as int));
        match mode_piece_category(pieces[i].as_str()) {
            Some(c) => {
                assert(first_category(rest) == c);
                return c;
            },
            None => {},
        }
        i = i + 1;
    }
    assert(views.subrange(i as int, views.len() as int).len() == 0);
    ActivityCategory::Unknown
}

// ---------------------------------------------------------------------------
// A member's activities in one time window
// ---------------------------------------------------------------------------
/// An instance with the time it occurred at.
#[derive(Clone, Copy, Debug, PartialEq, Eq)]
pub struct InstanceTimestamp {
    pub instance_id: i64,
    pub occurred_at: i64,
}

/// What a member's activity history of one window gives.
#[derive(Debug)]
pub struct ActivityAnalysis {
    /// Number of distinct instances.
    pub attempts: u64,
    /// The distinct instances.
    pub instance_ids: Vec<i64>,
    pub pve_instance_ids: Vec<i64>,
    pub pvp_instance_ids: Vec<i64>,
    pub gambit_instance_ids: Vec<i64>,
    pub private_match_instance_ids: Vec<i64>,
    pub reckoning_instance_ids: Vec<i64>,
    pub unknown_instance_ids: Vec<i64>,
    /// The distinct (instance, time) pairs.
    pub instance_timestamps: Vec<InstanceTimestamp>,
    /// Per activity mode, how many (instance, member) pairs first appear with that mode.
    pub activity_modes: Vec<IdCount>,
}

pub open spec fn instance_ids_of(acts: Seq<ActivityHistoryRecord>) -> Seq<i64>
    decreases acts.len(),
{
    if acts.len() == 0 {
        Seq::<i64>::empty()
    } else {
        instance_ids_of(acts.drop_last()).push(acts.last().instance_id)
    }
}

/// Instances of the activities of the category `c`, in order.
pub open spec fn category_ids(acts: Seq<ActivityHistoryRecord>, c: ActivityCategory) -> Seq<i64>
    decreases acts.len(),
{
    if acts.len() == 0 {
        Seq::<i64>::empty()
    } else if category_spec(acts.last().modes@) == c {
        category_ids(acts.drop_last(), c).push(acts.last().instance_id)
    } else {
        category_ids(acts.drop_last(), c)
    }
}

pub open spec fn timestamps_of(acts: Seq<ActivityHistoryRecord>) -> Seq<InstanceTimestamp>
    decreases acts.len(),
{
    if acts.len() == 0 {
        Seq::<InstanceTimestamp>::empty()
    } else {
        timestamps_of(acts.drop_last()).push(
            InstanceTimestamp {
                instance_id: acts.last().instance_id,
                occurred_at: acts.last().occurred_at,
            },
        )
    }
}

/// Activity `i` repeats an (instance, member) pair of an earlier activity.
pub open spec fn pair_seen_before(acts: Seq<ActivityHistoryRecord>, i: int) -> bool {
    exists|j: int|
        0 <= j < i && #[trigger] acts[j].instance_id == acts[i].instance_id
            && acts[j].membership_id == acts[i].membership_id
}

/// The modes of the activities that first show an (instance, member) pair, one unit each.
pub open spec fn first_pair_modes(acts: Seq<ActivityHistoryRecord>) -> Seq<IdCount>
    decreases acts.len(),
{
    if acts.len() == 0 {
        Seq::<IdCount>::empty()
    } else if pair_seen_before(acts, acts.len() - 1) {
        first_pair_modes(acts.drop_last())
    } else {
        first_pair_modes(acts.drop_last()).push(IdCount { id: acts.last().mode, count: 1 })
    }
}

/// Distinct pairs, in order of first appearance.
pub open spec fn timestamps_distinct_of(out: Seq<InstanceTimestamp>, s: Seq<InstanceTimestamp>) -> bool {
    &&& out.no_duplicates()
    &&& out.to_set() == s.to_set()
}

fn timestamp_insert(set: &mut Vec<InstanceTimestamp>, x: InstanceTimestamp)
    requires
        old(set)@.no_duplicates(),
    ensures
        final(set)@.no_duplicates(),
        final(set)@.to_set() == old(set)@.to_set().insert(x),
{
    let ghost before = set@;
    let n = set.len();
    let mut i: usize = 0;
    while i < n && !(set[i].instance_id == x.instance_id && set[i].occurred_at == x.occurred_at)
        invariant
            n == set@.len(),
            set@ == before,
            i <= n,
            forall|j: int| 0 <= j < i ==> set@[j] != x,
        decreases n - i,
    {
        i = i + 1;
    }
    if i < n {
        assert(set@[i as int] == x);
        assert(before.to_set().insert(x) =~= before.to_set()) by {
            assert(before.contains(x));
        }
    } else {
        set.push(x);
        proof {
            let t = before.push(x);
            assert(set@ =~= t);
            assert forall|y: InstanceTimestamp| #[trigger] t.to_set().contains(y) == before.to_set().insert(x).contains(y) by {
                if t.contains(y) {
                    let j = choose|j: int| 0 <= j < t.len() && t[j] == y;
                    if j < before.len() {
                        assert(before[j] == y);
                    }
                }
                if before.contains(y) {
                    let j = choose|j: int| 0 <= j < before.len() && before[j] == y;
                    assert(t[j] == y);
                }
                if y == x {
                    assert(t[before.len() as int] == x);
                }
            }
            assert(t.to_set() =~= before.to_set().insert(x));
        }
    }
}

proof fn lemma_push_to_set<T>(s: Seq<T>, x: T)
    ensures
        s.push(x).to_set() == s.to_set().insert(x),
{
    let t = s.push(x);
    assert forall|y: T| #[trigger] t.to_set().contains(y) == s.to_set().insert(x).contains(y) by {
        if t.contains(y) {
            let j = choose|j: int| 0 <= j < t.len() && t[j] == y;
            if j < s.len() {
                assert(s[j] == y);
            }
        }
        if s.contains(y) {
            let j = choose|j: int| 0 <= j < s.len() && s[j] == y;
            assert(t[j] == y);
        }
        if y == x {
            assert(t[s.len() as int] == x);
        }
    }
    assert(t.to_set() =~= s.to_set().insert(x));
}

/// Unit amounts give weights no larger than the number of pairs.
proof fn lemma_unit_weights(s: Seq<IdCount>, k: i64)
    requires
        forall|i: int| 0 <= i < s.len() ==> #[trigger] s[i].count == 1,
    ensures
        0 <= id_weight(s, k) <= s.len(),
    decreases s.len(),
{
    if s.len() > 0 {
        lemma_unit_weights(s.drop_last(), k);
    }
}

/// Whether some activity of `acts` before position `upto` has this (instance, member) pair.
fn pair_before(acts: &Vec<ActivityHistoryRecord>, upto: usize, instance_id: i64, membership_id: i64) -> (r: bool)
    requires
        upto <= acts@.len(),
    ensures
        r == exists|j: int|
            0 <= j < upto && #[trigger] acts@[j].instance_id == instance_id
                && acts@[j].membership_id == membership_id,
{
    let mut j: usize = 0;
    while j < upto
        invariant
            upto <= acts@.len(),
            j <= upto,
            forall|q: int|
                0 <= q < j ==> !(#[trigger] acts@[q].instance_id == instance_id
                    && acts@[q].membership_id == membership_id),
        decreases upto - j,
    {
        if acts[j].instance_id == instance_id && acts[j].membership_id == membership_id {
            return true;
        }
        j = j + 1;
    }
    false
}

/// What a member's activity history of one window gives (the first part of building a
/// window report).
pub fn analyze_activities(acts: &Vec<ActivityHistoryRecord>) -> (r: ActivityAnalysis)
    ensures
        distinct_of(r.instance_ids@, instance_ids_of(acts@)),
        r.attempts == r.instance_ids@.len(),
        distinct_of(r.pve_instance_ids@, category_ids(acts@, ActivityCategory::Pve)),
        distinct_of(r.pvp_instance_ids@, category_ids(acts@, ActivityCategory::Pvp)),
        distinct_of(r.gambit_instance_ids@, category_ids(acts@, ActivityCategory::Gambit)),
        distinct_of(
            r.private_match_instance_ids@,
            category_ids(acts@, ActivityCategory::PrivateMatch),
        ),
        distinct_of(r.reckoning_instance_ids@, category_ids(acts@, ActivityCategory::Reckoning)),
        distinct_of(r.unknown_instance_ids@, category_ids(acts@, ActivityCategory::Unknown)),
        timestamps_distinct_of(r.instance_timestamps@, timestamps_of(acts@)),
        id_tally_of(r.activity_modes@, first_pair_modes(acts@)),
{
    let mut instance_ids: Vec<i64> = Vec::new();
    let mut pve: Vec<i64> = Vec::new();
    let mut pvp: Vec<i64> = Vec::new();
    let mut gambit: Vec<i64> = Vec::new();
    let mut private_matches: Vec<i64> = Vec::new();
    let mut reckoning: Vec<i64> = Vec::new();
    let mut unknown: Vec<i64> = Vec::new();
    let mut stamps: Vec<InstanceTimestamp> = Vec::new();
    let mut modes: Vec<IdCount> = Vec::new();
    let mut i: usize = 0;
    while i < acts.len()
        invariant
            i <= acts@.len(),
            ({
                let pre = acts@.subrange(0, i as int);
                &&& distinct_of(instance_ids@, instance_ids_of(pre))
                &&& instance_ids@.len() <= i
                &&& distinct_of(pve@, category_ids(pre, ActivityCategory::Pve))
                &&& distinct_of(pvp@, category_ids(pre, ActivityCategory::Pvp))
                &&& distinct_of(gambit@, category_ids(pre, ActivityCategory::Gambit))
                &&& distinct_of(private_matches@, category_ids(pre, ActivityCategory::PrivateMatch))
                &&& distinct_of(reckoning@, category_ids(pre, ActivityCategory::Reckoning))
                &&& distinct_of(unknown@, category_ids(pre, ActivityCategory::Unknown))
                &&& timestamps_distinct_of(stamps@, timestamps_of(pre))
                &&& modes@ == first_pair_modes(pre)
                &&& modes@.len() <= i
            }),
            forall|q: int| 0 <= q < modes@.len() ==> #[trigger] modes@[q].count == 1,
        decreases acts@.len() - i,
    {
        let ghost pre = acts@.subrange(0, i as int);
        let ghost next = acts@.subrange(0, i + 1);
        let a = &acts[i];
        proof {
            assert(next.drop_last() =~= pre);
            assert(next.last() == *a);
            lemma_push_to_set(instance_ids_of(pre), a.instance_id);
            lemma_push_to_set(timestamps_of(pre), InstanceTimestamp { instance_id: a.instance_id, occurred_at: a.occurred_at });
        }
        set_insert(&mut instance_ids, a.instance_id);
        let category = classify_modes(a.modes.as_str());
        proof {
            lemma_push_to_set(category_ids(pre, category), a.instance_id);
        }
        match category {
            ActivityCategory::Pvp => set_insert(&mut pvp, a.instance_id),
            ActivityCategory::Pve => set_insert(&mut pve, a.instance_id),
            ActivityCategory::Gambit => set_insert(&mut gambit, a.instance_id),
            ActivityCategory::PrivateMatch => set_insert(&mut private_matches, a.instance_id),
            ActivityCategory::Reckoning => set_insert(&mut reckoning, a.instance_id),
            ActivityCategory::Unknown => set_insert(&mut unknown, a.instance_id),
        }
        timestamp_insert(&mut stamps, InstanceTimestamp { instance_id: a.instance_id, occurred_at: a.occurred_at });
        let seen = pair_before(acts, i, a.instance_id, a.membership_id);
        proof {
            assert(seen == pair_seen_before(next, i as int)) by {
                if seen {
                    let j = choose|j: int|
                        0 <= j < i && #[trigger] acts@[j].instance_id == a.instance_id
                            && acts@[j].membership_id == a.membership_id;
                    assert(next[j].instance_id == next[i as int].instance_id);
                }
                if pair_seen_before(next, i as int) {
                    let j = choose|j: int|
                        0 <= j < i && #[trigger] next[j].instance_id == next[i as int].instance_id
                            && next[j].membership_id == next[i as int].membership_id;
                    assert(acts@[j].instance_id == a.instance_id);
                }
            }
        }
        if !seen {
            modes.push(IdCount { id: a.mode, count: 1 });
        }
        i = i + 1;
    }
    let ghost all = acts@;
    assert(acts@.subrange(0, acts@.len() as int) =~= all);
    proof {
        assert forall|k: i64| #[trigger] id_weight(modes@, k) <= u64::MAX by {
            lemma_unit_weights(modes@, k);
        }
    }
    let activity_modes = id_tally(&modes);
    ActivityAnalysis {
        attempts: instance_ids.len() as u64,
        instance_ids,
        pve_instance_ids: pve,
        pvp_instance_ids: pvp,
        gambit_instance_ids: gambit,
        private_match_instance_ids: private_matches,
        reckoning_instance_ids: reckoning,
        unknown_instance_ids: unknown,
        instance_timestamps: stamps,
        activity_modes,
    }
}

// ---------------------------------------------------------------------------
// Fellow players of one time window
// ---------------------------------------------------------------------------
/// The profile kept for a membership id when profiles are collected into a map keyed by
/// membership id (the last one with that id).
pub open spec fn profile_of(profiles: Seq<MemberResult>, id: i64) -> Option<MemberResult>
    decreases profiles.len(),
{
    if profiles.len() == 0 {
        None
    } else if profiles.last().membership_id == id {
        Some(profiles.last())
    } else {
        profile_of(profiles.drop_last(), id)
    }
}

/// The member belongs to a network clan.
pub open spec fn in_network(profiles: Seq<MemberResult>, id: i64) -> bool {
    match profile_of(profiles, id) {
        Some(p) => p.clan_is_network == 1,
        None => false,
    }
}

/// The placeholder Bungie name of an account that never chose one.
pub open spec fn hidden_name(s: Seq<char>) -> bool {
    s == seq!['#', '0', '0', '0', '0']
}

/// The name a fellow player is listed under: the Bungie name, or the membership id
/// when the profile is unknown or has no Bungie name.
pub open spec fn fellow_name(profiles: Seq<MemberResult>, id: i64) -> Seq<char> {
    match profile_of(profiles, id) {
        Some(p) => if hidden_name(p.display_name_global@) {
            int_text(id as int)
        } else {
            p.display_name_global@
        },
        None => int_text(id as int),
    }
}

/// Instances of the rows of other members who belong to a network clan.
pub open spec fn clan_instances(rows: Seq<InstanceMemberRecord>, self_id: i64, profiles: Seq<MemberResult>) -> Seq<i64>
    decreases rows.len(),
{
    if rows.len() == 0 {
        Seq::<i64>::empty()
    } else if rows.last().membership_id != self_id && in_network(profiles, rows.last().membership_id) {
        clan_instances(rows.drop_last(), self_id, profiles).push(rows.last().instance_id)
    } else {
        clan_instances(rows.drop_last(), self_id, profiles)
    }
}

/// Row `i` repeats an (instance, member) pair of an earlier row.
pub open spec fn row_pair_seen(rows: Seq<InstanceMemberRecord>, i: int) -> bool {
    exists|j: int|
        0 <= j < i && #[trigger] rows[j].instance_id == rows[i].instance_id
            && rows[j].membership_id == rows[i].membership_id
}

/// One unit per other member and instance they share with the member.
pub open spec fn fellow_pairs(rows: Seq<InstanceMemberRecord>, self_id: i64) -> Seq<IdCount>
    decreases rows.len(),
{
    if rows.len() == 0 {
        Seq::<IdCount>::empty()
    } else if rows.last().membership_id != self_id && !row_pair_seen(rows, rows.len() - 1) {
        fellow_pairs(rows.drop_last(), self_id).push(IdCount { id: rows.last().membership_id, count: 1 })
    } else {
        fellow_pairs(rows.drop_last(), self_id)
    }
}

/// The shared instance counts of the members in (or out of) the network, under their names.
pub open spec fn grouped_pairs(counts: Seq<IdCount>, profiles: Seq<MemberResult>, network: bool) -> Seq<NamedAmount>
    decreases counts.len(),
{
    if counts.len() == 0 {
        Seq::<NamedAmount>::empty()
    } else if in_network(profiles, counts.last().id) == network {
        grouped_pairs(counts.drop_last(), profiles, network).push(
            (fellow_name(profiles, counts.last().id), counts.last().count),
        )
    } else {
        grouped_pairs(counts.drop_last(), profiles, network)
    }
}

/// Who a member played with in one window.
#[derive(Debug)]
pub struct FireteamAnalysis {
    /// Number of instances shared with at least one network member.
    pub attempts_with_clan: u64,
    pub clan_instance_ids: Vec<i64>,
    /// Per other member, the number of distinct instances shared.
    pub instance_member_counts: Vec<IdCount>,
    /// Shared instances per name, for network members.
    pub clan_members: Vec<NameCount>,
    /// Shared instances per name, for everyone else.
    pub non_clan_members: Vec<NameCount>,
}

/// Index of the profile kept for `id`.
fn find_profile(profiles: &Vec<MemberResult>, id: i64) -> (r: Option<usize>)
    ensures
        r matches Some(i) ==> i < profiles@.len() && profile_of(profiles@, id) == Some(profiles@[i as int]),
        r is None ==> profile_of(profiles@, id) is None,
{
    let mut i: usize = profiles.len();
    assert(profiles@.subrange(0, i as int) =~= profiles@);
    while i > 0
        invariant
            i <= profiles@.len(),
            profile_of(profiles@, id) == profile_of(profiles@.subrange(0, i as int), id),
        decreases i,
    {
        let ghost pre = profiles@.subrange(0, i as int);
        assert(pre.drop_last() =~= profiles@.subrange(0, i - 1));
        if profiles[i - 1].membership_id == id {
            return Some(i - 1);
        }
        i = i - 1;
    }
    None
}

proof fn lemma_unit_total(s: Seq<IdCount>)
    requires
        forall|i: int| 0 <= i < s.len() ==> #[trigger] s[i].count == 1,
    ensures
        id_total(s) == s.len(),
    decreases s.len(),
{
    if s.len() > 0 {
        lemma_unit_total(s.drop_last());
    }
}

proof fn lemma_id_total_prefix(s: Seq<IdCount>, n: int)
    requires
        0 <= n <= s.len(),
    ensures
        0 <= id_total(s.subrange(0, n)) <= id_total(s),
    decreases s.len() - n,
{
    if n < s.len() {
        lemma_id_total_prefix(s, n + 1);
        assert(s.subrange(0, n + 1).drop_last() =~= s.subrange(0, n));
        lemma_id_total_nonneg(s.subrange(0, n));
    } else {
        assert(s.subrange(0, n) =~= s);
        lemma_id_total_nonneg(s);
    }
}

proof fn lemma_id_total_nonneg(s: Seq<IdCount>)
    ensures
        id_total(s) >= 0,
    decreases s.len(),
{
    if s.len() > 0 {
        lemma_id_total_nonneg(s.drop_last());
    }
}

proof fn lemma_name_weight_le_total(s: Seq<NamedAmount>, k: Seq<char>)
    ensures
        0 <= name_weight(s, k) <= name_total(s),
    decreases s.len(),
{
    if s.len() > 0 {
        lemma_name_weight_le_total(s.drop_last(), k);
    }
}

/// Grouping by name keeps the total of the shared instance counts.
proof fn lemma_grouped_total(counts: Seq<IdCount>, profiles: Seq<MemberResult>)
    ensures
        name_total(grouped_pairs(counts, profiles, true)) + name_total(
            grouped_pairs(counts, profiles, false),
        ) == id_total(counts),
        name_total(grouped_pairs(counts, profiles, true)) >= 0,
        name_total(grouped_pairs(counts, profiles, false)) >= 0,
    decreases counts.len(),
{
    if counts.len() > 0 {
        let rest = counts.drop_last();
        let x = (fellow_name(profiles, counts.last().id), counts.last().count);
        lemma_grouped_total(rest, profiles);
        assert(grouped_pairs(rest, profiles, true).push(x).drop_last() =~= grouped_pairs(rest, profiles, true));
        assert(grouped_pairs(rest, profiles, false).push(x).drop_last() =~= grouped_pairs(rest, profiles, false));
    }
}

/// Who a member (`self_id`) played with in one window: `rows` are the instance member
/// rows of the window's instances and `profiles` the stored profiles of those members
/// (the second part of building a window report).
pub fn analyze_fireteams(
    self_id: i64,
    rows: &Vec<InstanceMemberRecord>,
    profiles: &Vec<MemberResult>,
) -> (r: FireteamAnalysis)
    ensures
        distinct_of(r.clan_instance_ids@, clan_instances(rows@, self_id, profiles@)),
        r.attempts_with_clan == r.clan_instance_ids@.len(),
        id_tally_of(r.instance_member_counts@, fellow_pairs(rows@, self_id)),
        name_tally_of(
            name_view(r.clan_members@),
            grouped_pairs(r.instance_member_counts@, profiles@, true),
        ),
        name_tally_of(
            name_view(r.non_clan_members@),
            grouped_pairs(r.instance_member_counts@, profiles@, false),
        ),
        name_total(name_view(r.clan_members@)) + name_total(name_view(r.non_clan_members@))
            == id_total(r.instance_member_counts@),
{
    let mut clan_ids: Vec<i64> = Vec::new();
    let mut pairs: Vec<IdCount> = Vec::new();
    let mut i: usize = 0;
    while i < rows.len()
        invariant
            i <= rows@.len(),
            ({
                let pre = rows@.subrange(0, i as int);
                &&& distinct_of(clan_ids@, clan_instances(pre, self_id, profiles@))
                &&& clan_ids@.len() <= i
                &&& pairs@ == fellow_pairs(pre, self_id)
                &&& pairs@.len() <= i
            }),
            forall|q: int| 0 <= q < pairs@.len() ==> #[trigger] pairs@[q].count == 1,
        decreases rows@.len() - i,
    {
        let ghost pre = rows@.subrange(0, i as int);
        let ghost next = rows@.subrange(0, i + 1);
        let row = &rows[i];
        proof {
            assert(next.drop_last() =~= pre);
            assert(next.last() == *row);
        }
        if row.membership_id != self_id {
            let network = match find_profile(profiles, row.membership_id) {
                Some(p) => profiles[p].clan_is_network == 1,
                None => false,
            };
            if network {
                proof {
                    lemma_push_to_set(clan_instances(pre, self_id, profiles@), row.instance_id);
                }
                set_insert(&mut clan_ids, row.instance_id);
            }
            let inst = row.instance_id;
            let member = row.membership_id;
            let mut seen = false;
            let mut j: usize = 0;
            while j < i
                invariant
                    i < rows@.len(),
                    j <= i,
                    inst == rows@[i as int].instance_id,
                    member == rows@[i as int].membership_id,
                    seen == exists|q: int|
                        0 <= q < j && #[trigger] rows@[q].instance_id == rows@[i as int].instance_id
                            && rows@[q].membership_id == rows@[i as int].membership_id,
                decreases i - j,
            {
                if rows[j].instance_id == inst && rows[j].membership_id == member {
                    seen = true;
                    assert(rows@[j as int].instance_id == rows@[i as int].instance_id);
                }
                j = j + 1;
            }
            proof {
                assert(seen == row_pair_seen(next, i as int)) by {
                    if seen {
                        let q = choose|q: int|
                            0 <= q < i && #[trigger] rows@[q].instance_id == rows@[i as int].instance_id
                                && rows@[q].membership_id == rows@[i as int].membership_id;
                        assert(next[q].instance_id == next[i as int].instance_id);
                    }
                    if row_pair_seen(next, i as int) {
                        let q = choose|q: int|
                            0 <= q < i && #[trigger] next[q].instance_id == next[i as int].instance_id
                                && next[q].membership_id == next[i as int].membership_id;
                        assert(rows@[q].instance_id == rows@[i as int].instance_id);
                    }
                }
            }
            if !seen {
                pairs.push(IdCount { id: row.membership_id, count: 1 });
            }
        }
        i = i + 1;
    }
    assert(rows@.subrange(0, rows@.len() as int) =~= rows@);
    proof {
        assert forall|k: i64| #[trigger] id_weight(pairs@, k) <= u64::MAX by {
            lemma_unit_weights(pairs@, k);
        }
        lemma_unit_total(pairs@);
    }
    let counts = id_tally(&pairs);
    let nrows = rows.len();
    let mut clan: Vec<NameCount> = Vec::new();
    let mut others: Vec<NameCount> = Vec::new();
    let mut c: usize = 0;
    assert(name_view(clan@) =~= Seq::<NamedAmount>::empty());
    assert(name_view(others@) =~= Seq::<NamedAmount>::empty());
    while c < counts.len()
        invariant
            c <= counts@.len(),
            id_total(counts@) == pairs@.len(),
            pairs@.len() <= nrows,
            ({
                let pre = counts@.subrange(0, c as int);
                &&& name_tally_of(name_view(clan@), grouped_pairs(pre, profiles@, true))
                &&& name_tally_of(name_view(others@), grouped_pairs(pre, profiles@, false))
                &&& name_total(name_view(clan@)) == name_total(grouped_pairs(pre, profiles@, true))
                &&& name_total(name_view(others@)) == name_total(grouped_pairs(pre, profiles@, false))
            }),
        decreases counts@.len() - c,
    {
        let ghost pre = counts@.subrange(0, c as int);
        let ghost next = counts@.subrange(0, c + 1);
        let e = counts[c];
        proof {
            assert(next.drop_last() =~= pre);
            assert(next.last() == e);
            lemma_grouped_total(pre, profiles@);
            lemma_id_total_prefix(counts@, c as int);
            lemma_id_total_prefix(counts@, c + 1);
            assert(id_total(next) == id_total(pre) + e.count);
        }
        let found = find_profile(profiles, e.id);
        let (name, network) = match found {
            Some(p) => {
                proof {
                    reveal_strlit("#0000");
                    assert("#0000"@ =~= seq!['#', '0', '0', '0', '0']);
                }
                let name = if equals(profiles[p].display_name_global.as_str(), "#0000") {
                    i64_text(e.id)
                } else {
                    profiles[p].display_name_global.clone()
                };
                (name, profiles[p].clan_is_network == 1)
            },
            None => (i64_text(e.id), false),
        };
        let ghost ev: NamedAmount = (name@, e.count);
        proof {
            assert(name@ == fellow_name(profiles@, e.id));
            assert(network == in_network(profiles@, e.id));
        }
        if network {
            proof {
                lemma_name_weight_le_total(name_view(clan@), name@);
            }
            name_tally_add(&mut clan, NameCount { name, count: e.count });
            proof {
                let g = grouped_pairs(pre, profiles@, true);
                assert(grouped_pairs(next, profiles@, true) == g.push(ev));
                assert(grouped_pairs(next, profiles@, false) == grouped_pairs(pre, profiles@, false));
                assert(g.push(ev).drop_last() =~= g);
                assert forall|k: Seq<char>| #[trigger] name_present(g.push(ev), k) <==> (name_present(g, k) || k == ev.0) by {
                    let t = g.push(ev);
                    if name_present(t, k) {
                        let q = choose|q: int| 0 <= q < t.len() && #[trigger] t[q].0 == k;
                        if q < g.len() {
                            assert(g[q].0 == k);
                        }
                    }
                    if name_present(g, k) {
                        let q = choose|q: int| 0 <= q < g.len() && #[trigger] g[q].0 == k;
                        assert(t[q].0 == k);
                    }
                    if k == ev.0 {
                        assert(t[g.len() as int].0 == k);
                    }
                }
            }
        } else {
            proof {
                lemma_name_weight_le_total(name_view(others@), name@);
            }
            name_tally_add(&mut others, NameCount { name, count: e.count });
            proof {
                let g = grouped_pairs(pre, profiles@, false);
                assert(grouped_pairs(next, profiles@, false) == g.push(ev));
                assert(grouped_pairs(next, profiles@, true) == grouped_pairs(pre, profiles@, true));
                assert(g.push(ev).drop_last() =~= g);
                assert forall|k: Seq<char>| #[trigger] name_present(g.push(ev), k) <==> (name_present(g, k) || k == ev.0) by {
                    let t = g.push(ev);
                    if name_present(t, k) {
                        let q = choose|q: int| 0 <= q < t.len() && #[trigger] t[q].0 == k;
                        if q < g.len() {
                            assert(g[q].0 == k);
                        }
                    }
                    if name_present(g, k) {
                        let q = choose|q: int| 0 <= q < g.len() && #[trigger] g[q].0 == k;
                        assert(t[q].0 == k);
                    }
                    if k == ev.0 {
                        assert(t[g.len() as int].0 == k);
                    }
                }
            }
        }
        c = c + 1;
    }
    assert(counts@.subrange(0, counts@.len() as int) =~= counts@);
    proof {
        lemma_grouped_total(counts@, profiles@);
    }
    FireteamAnalysis {
        attempts_with_clan: clan_ids.len() as u64,
        clan_instance_ids: clan_ids,
        instance_member_counts: counts,
        clan_members: clan,
        non_clan_members: others,
    }
}


/// The statistics of one category are computed over these instances.
#[derive(Debug)]
pub struct StatsRequest {
    pub category: ActivityCategory,
    pub instance_ids: Vec<i64>,
}

fn copy_ids(v: &Vec<i64>) -> (r: Vec<i64>)
    ensures
        r@ == v@,
{
    let mut r: Vec<i64> = Vec::new();
    let mut i: usize = 0;
    while i < v.len()
        invariant
            i <= v@.len(),
            r@ == v@.subrange(0, i as int),
        decreases v@.len() - i,
    {
        r.push(v[i]);
        assert(r@ =~= v@.subrange(0, i + 1));
        i = i + 1;
    }
    assert(v@.subrange(0, v@.len() as int) =~= v@);
    r
}

/// The statistics a window report needs, in the order the report is built from: those of
/// the PvE, PvP, Gambit, private match and Reckoning instances of the window's analysis.
pub fn stats_requests(a: &ActivityAnalysis) -> (r: Vec<StatsRequest>)
    ensures
        r@.len() == 5,
        r@[0].category == ActivityCategory::Pve && r@[0].instance_ids@ == a.pve_instance_ids@,
        r@[1].category == ActivityCategory::Pvp && r@[1].instance_ids@ == a.pvp_instance_ids@,
        r@[2].category == ActivityCategory::Gambit && r@[2].instance_ids@ == a.gambit_instance_ids@,
        r@[3].category == ActivityCategory::PrivateMatch && r@[3].instance_ids@
            == a.private_match_instance_ids@,
        r@[4].category == ActivityCategory::Reckoning && r@[4].instance_ids@ == a.reckoning_instance_ids@,
{
    let mut r: Vec<StatsRequest> = Vec::new();
    r.push(StatsRequest { category: ActivityCategory::Pve, instance_ids: copy_ids(&a.pve_instance_ids) });
    r.push(StatsRequest { category: ActivityCategory::Pvp, instance_ids: copy_ids(&a.pvp_instance_ids) });
    r.push(StatsRequest { category: ActivityCategory::Gambit, instance_ids: copy_ids(&a.gambit_instance_ids) });
    r.push(
        StatsRequest {
            category: ActivityCategory::PrivateMatch,
            instance_ids: copy_ids(&a.private_match_instance_ids),
        },
    );
    r.push(StatsRequest { category: ActivityCategory::Reckoning, instance_ids: copy_ids(&a.reckoning_instance_ids) });
    r
}

} // verus!
