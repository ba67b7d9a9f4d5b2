//! Activity mode groups (settings) and the leaderboards and ranks built on them: which
//! groups are shown where, which modes a leaderboard covers and the key it is cached under.
use vstd::prelude::*;
use crate::order::{Ordered, sort_by_order, sorted_by};
use crate::records::SettingModeRecord;
use crate::responses::i32_or_zero;
use crate::text::{
    contains, contains_spec, i64_text, int_text, join_spec, lemma_int_text_reads_back, lemma_parse_in_range_text,
    lemma_split_join, lowercase_text, parse_i32, parse_in_range,
    split, split_spec, to_lowercase,
};
use crate::windows::{modes_spec, modes_text};

verus! {

impl Clone for SettingModeRecord {
    fn clone(&self) -> (r: Self)
        ensures
            r == *self,
    {
        SettingModeRecord {
            id: self.id,
            leaderboard: self.leaderboard,
            dashboard: self.dashboard,
            name: self.name.clone(),
            value: self.value.clone(),
            description: self.description.clone(),
            order: self.order,
            created_at: self.created_at,
            updated_at: self.updated_at,
            deleted_at: self.deleted_at,
        }
    }
}

/// The groups shown as leaderboards (`leaderboard == 1`), in order.
pub open spec fn leaderboard_groups(modes: Seq<SettingModeRecord>) -> Seq<SettingModeRecord> {
    modes.filter(|r: SettingModeRecord| r.leaderboard == 1)
}

/// The groups shown on the dashboard (`dashboard == 1`), in order.
pub open spec fn dashboard_groups(modes: Seq<SettingModeRecord>) -> Seq<SettingModeRecord> {
    modes.filter(|r: SettingModeRecord| r.dashboard == 1)
}

/// The groups shown as leaderboards.
pub fn extract_leaderboard_modes(modes: Vec<SettingModeRecord>) -> (r: Vec<SettingModeRecord>)
    ensures
        r@ == leaderboard_groups(modes@),
{
    let mut out: Vec<SettingModeRecord> = Vec::new();
    let mut i: usize = 0;
    while i < modes.len()
        invariant
            i <= modes@.len(),
            out@ == leaderboard_groups(modes@.subrange(0, i as int)),
        decreases modes@.len() - i,
    {
        let ghost pre = modes@.subrange(0, i as int);
        assert(modes@.subrange(0, i + 1).drop_last() =~= pre);
        if modes[i].leaderboard == 1 {
            out.push(modes[i].clone());
        }
        proof {
            assert(modes@.subrange(0, i + 1).last() == modes@[i as int]);
            pre.lemma_filter_push(modes@[i as int], |r: SettingModeRecord| r.leaderboard == 1);
            assert(modes@.subrange(0, i + 1) =~= pre.push(modes@[i as int]));
        }
        i = i + 1;
    }
    assert(modes@.subrange(0, modes@.len() as int) =~= modes@);
    out
}

/// The groups shown on the dashboard.
pub fn dashboard_modes(modes: Vec<SettingModeRecord>) -> (r: Vec<SettingModeRecord>)
    ensures
        r@ == dashboard_groups(modes@),
{
    let mut out: Vec<SettingModeRecord> = Vec::new();
    let mut i: usize = 0;
    while i < modes.len()
        invariant
            i <= modes@.len(),
            out@ == dashboard_groups(modes@.subrange(0, i as int)),
        decreases modes@.len() - i,
    {
        let ghost pre = modes@.subrange(0, i as int);
        if modes[i].dashboard == 1 {
            out.push(modes[i].clone());
        }
        proof {
            pre.lemma_filter_push(modes@[i as int], |r: SettingModeRecord| r.dashboard == 1);
            assert(modes@.subrange(0, i + 1) =~= pre.push(modes@[i as int]));
        }
        i = i + 1;
    }
    assert(modes@.subrange(0, modes@.len() as int) =~= modes@);
    out
}

/// The number a text reads as an `i32`, 0 when it does not read.
pub open spec fn i32_value_or_zero(s: Seq<char>) -> i32 {
    match parse_in_range(s, true, i32::MIN as int, i32::MAX as int) {
        Some(v) => v as i32,
        None => 0,
    }
}

/// The modes of a comma separated list, each read as an `i32` (0 when it does not read).
pub open spec fn mode_list_spec(value: Seq<char>) -> Seq<i32> {
    split_spec(value, ',').map_values(|p: Seq<char>| i32_value_or_zero(p))
}

/// The modes of a comma separated list.
pub fn parse_mode_list(value: &str) -> (r: Vec<i32>)
    ensures
        r@ == mode_list_spec(value@),
{
    let pieces = split(value, ',');
    let mut out: Vec<i32> = Vec::new();
    let mut i: usize = 0;
    while i < pieces.len()
        invariant
            i <= pieces@.len(),
            pieces@.len() == split_spec(value@, ',').len(),
            forall|k: int| 0 <= k < pieces@.len() ==> #[trigger] pieces@[k]@ == split_spec(value@, ',')[k],
            out@ == mode_list_spec(value@).subrange(0, i as int),
        decreases pieces@.len() - i,
    {
        let v = match parse_i32(pieces[i].as_str()) {
            Some(v) => v,
            None => 0,
        };
        out.push(v);
        assert(out@ =~= mode_list_spec(value@).subrange(0, i + 1));
        i = i + 1;
    }
    assert(mode_list_spec(value@).subrange(0, pieces@.len() as int) =~= mode_list_spec(value@));
    out
}

/// The modes a report query asks for: none without a `modes` parameter.
pub fn parse_modes_query(modes: &Option<String>) -> (r: Vec<i32>)
    ensures
        modes is None ==> r@.len() == 0,
        modes matches Some(m) ==> r@ == mode_list_spec(m@),
{
    match modes {
        Some(m) => parse_mode_list(m.as_str()),
        None => Vec::new(),
    }
}

/// The query parameters of a report request.
#[derive(Debug)]
pub struct ReportQueries {
    pub modes: Option<String>,
}

impl Ordered for i32 {
    open spec fn before(&self, other: &Self) -> bool {
        *self <= *other
    }

    proof fn lemma_total(a: &Self, b: &Self) {
    }

    fn is_before(&self, other: &Self) -> (r: bool) {
        *self <= *other
    }
}

/// The modes in ascending order.
pub fn sort_modes(modes: Vec<i32>) -> (r: Vec<i32>)
    ensures
        r@.to_multiset() == modes@.to_multiset(),
        forall|i: int, j: int| 0 <= i && j == i + 1 && j < r@.len() ==> #[trigger] r@[i] <= #[trigger] r@[j],
{
    let r = sort_by_order(modes);
    assert forall|i: int, j: int| 0 <= i && j == i + 1 && j < r@.len() implies #[trigger] r@[i] <= #[trigger] r@[j] by {
        assert(r@[i].before(&r@[j]));
    }
    r
}

/// Position of the first group of `groups` named `activity`, -1 when none.
pub open spec fn group_named(groups: Seq<SettingModeRecord>, activity: Seq<char>) -> int
    decreases groups.len(),
{
    if groups.len() == 0 {
        -1
    } else if group_named(groups.drop_last(), activity) >= 0 {
        group_named(groups.drop_last(), activity)
    } else if groups.last().name@ == activity {
        groups.len() - 1
    } else {
        -1
    }
}

proof fn lemma_group_named(groups: Seq<SettingModeRecord>, activity: Seq<char>, n: int)
    requires
        0 <= n <= groups.len(),
    ensures
        -1 <= group_named(groups, activity) < groups.len(),
        group_named(groups, activity) >= 0 ==> groups[group_named(groups, activity)].name@ == activity,
        group_named(groups.subrange(0, n), activity) >= 0 ==> group_named(groups, activity) == group_named(
            groups.subrange(0, n),
            activity,
        ),
    decreases groups.len(),
{
    if groups.len() > 0 {
        if n == groups.len() {
            assert(groups.subrange(0, n) =~= groups);
            lemma_group_named(groups.drop_last(), activity, 0);
        } else {
            assert(groups.drop_last().subrange(0, n) =~= groups.subrange(0, n));
            lemma_group_named(groups.drop_last(), activity, n);
        }
        let t = groups.drop_last();
        if group_named(t, activity) >= 0 {
            assert(t[group_named(t, activity)] == groups[group_named(t, activity)]);
        }
    } else {
        assert(groups.subrange(0, n) =~= groups);
    }
}

fn find_group(shown: &Vec<SettingModeRecord>, activity: &str) -> (r: Option<usize>)
    ensures
        r matches Some(g) ==> g < shown@.len() && g as int == group_named(shown@, activity@),
        r is None ==> group_named(shown@, activity@) == -1,
{
    let mut k: usize = 0;
    while k < shown.len()
        invariant
            k <= shown@.len(),
            group_named(shown@.subrange(0, k as int), activity@) == -1,
        decreases shown@.len() - k,
    {
        let ghost next = shown@.subrange(0, k + 1);
        assert(next.drop_last() =~= shown@.subrange(0, k as int));
        assert(next.last() == shown@[k as int]);
        if crate::text::equals(shown[k].name.as_str(), activity) {
            proof {
                lemma_group_named(shown@, activity@, k + 1);
            }
            return Some(k);
        }
        k = k + 1;
    }
    assert(shown@.subrange(0, k as int) =~= shown@);
    None
}

/// What a leaderboard or rank request for `activity` covers.
#[derive(Debug)]
pub struct LeaderboardQuery {
    /// The name of the leaderboard group, empty when the activity names none.
    pub group_name: String,
    /// The modes covered, in ascending order.
    pub modes: Vec<i32>,
    /// The key the results are cached under: the modes joined with commas.
    pub key: String,
    /// The group is a PvP group (its name contains `PvP`).
    pub pvp: bool,
}

/// A leaderboard or rank request for `activity`: the modes of the first leaderboard group
/// named `activity`; else the mode `activity` names (`fallback`, as `DestinyActivityModeType`
/// reads it, none for an unknown mode); else no modes.
pub fn leaderboard_query(groups: &Vec<SettingModeRecord>, activity: &str, fallback: Option<i32>) -> (q: LeaderboardQuery)
    ensures
        ({
            let shown = leaderboard_groups(groups@);
            let g = group_named(shown, activity@);
            let wanted: Seq<i32> = if g >= 0 {
                mode_list_spec(shown[g].value@)
            } else {
                match fallback {
                    Some(m) => seq![m],
                    None => Seq::<i32>::empty(),
                }
            };
            &&& q.group_name@ == (if g >= 0 { shown[g].name@ } else { Seq::<char>::empty() })
            &&& q.modes@.to_multiset() == wanted.to_multiset()
            &&& forall|i: int, j: int| 0 <= i && j == i + 1 && j < q.modes@.len() ==> #[trigger] q.modes@[i] <= #[trigger] q.modes@[j]
            &&& q.key@ == modes_spec(q.modes@)
            &&& q.pvp == contains_spec(q.group_name@, "PvP"@)
        }),
{
    let mut copy: Vec<SettingModeRecord> = Vec::new();
    let mut i: usize = 0;
    while i < groups.len()
        invariant
            i <= groups@.len(),
            copy@ == groups@.subrange(0, i as int),
        decreases groups@.len() - i,
    {
        copy.push(groups[i].clone());
        assert(copy@ =~= groups@.subrange(0, i + 1));
        i = i + 1;
    }
    assert(groups@.subrange(0, groups@.len() as int) =~= groups@);
    let shown = extract_leaderboard_modes(copy);
    let found = find_group(&shown, activity);
    let (group_name, wanted) = match found {
        Some(g) => (shown[g].name.clone(), parse_mode_list(shown[g].value.as_str())),
        None => {
            let mut w: Vec<i32> = Vec::new();
            match fallback {
                Some(m) => {
                    w.push(m);
                },
                None => {},
            }
            (String::new(), w)
        },
    };
    let modes = sort_modes(wanted);
    let key = modes_text(&modes);
    let pvp = contains(group_name.as_str(), "PvP");
    LeaderboardQuery { group_name, modes, key, pvp }
}

/// The kind of query a leaderboard is refreshed with.
#[derive(Clone, Copy, Debug, PartialEq, Eq)]
pub enum LeaderboardKind {
    Raid,
    PvP,
    Generic,
}

/// How a leaderboard group is refreshed.
#[derive(Debug)]
pub struct LeaderboardRefresh {
    pub kind: LeaderboardKind,
    /// The modes, in ascending order.
    pub modes: Vec<i32>,
    /// The key the results are cached under: the modes joined with commas.
    pub key: String,
    /// The results are also cached under `Raid` (the key is `4`).
    pub also_raid: bool,
}

/// The raid mode.
pub const RAID_MODE: i32 = 4;

/// How a group's leaderboard is refreshed: none for a group that is not a leaderboard
/// (`leaderboard == 0`); the raid leaderboard (mode 4) for the group named `Raid`; else the
/// group's modes (`group_modes`, each piece of its list as `DestinyActivityModeType` reads
/// it), with the PvP query when the group's lower-cased name contains `pvp`.
pub fn leaderboard_refresh(group: &SettingModeRecord, group_modes: Vec<i32>) -> (r: Option<LeaderboardRefresh>)
    ensures
        group.leaderboard == 0 ==> r is None,
        group.leaderboard != 0 ==> (r matches Some(plan) && {
            let raid = group.name@ == "Raid"@;
            let wanted: Seq<i32> = if raid { seq![RAID_MODE] } else { group_modes@ };
            &&& plan.kind == (if raid {
                LeaderboardKind::Raid
            } else if contains_spec(lowercase_text(group.name@), "pvp"@) {
                LeaderboardKind::PvP
            } else {
                LeaderboardKind::Generic
            })
            &&& plan.modes@.to_multiset() == wanted.to_multiset()
            &&& forall|i: int, j: int| 0 <= i && j == i + 1 && j < plan.modes@.len() ==> #[trigger] plan.modes@[i] <= #[trigger] plan.modes@[j]
            &&& plan.key@ == modes_spec(plan.modes@)
            &&& plan.also_raid == (plan.key@ == "4"@)
        }),
{
    if group.leaderboard == 0 {
        return None;
    }
    let raid = crate::text::equals(group.name.as_str(), "Raid");
    let (kind, wanted) = if raid {
        (LeaderboardKind::Raid, vec![RAID_MODE])
    } else {
        let lower = to_lowercase(group.name.as_str());
        let kind = if contains(lower.as_str(), "pvp") {
            LeaderboardKind::PvP
        } else {
            LeaderboardKind::Generic
        };
        (kind, group_modes)
    };
    proof {
        if raid {
            assert(wanted@ =~= seq![RAID_MODE]);
        }
    }
    let modes = sort_modes(wanted);
    let key = modes_text(&modes);
    let also_raid = crate::text::equals(key.as_str(), "4");
    Some(LeaderboardRefresh { kind, modes, key, also_raid })
}

/// The name of a leaderboard: the names of its modes joined with `, `, then ` Leaderboard`.
pub fn leaderboard_name(mode_names: &Vec<String>) -> (r: String)
    ensures
        r@ == join_spec(mode_names@.map_values(|t: String| t@), ", "@) + " Leaderboard"@,
{
    let mut name = crate::text::join(mode_names, ", ");
    name.append(" Leaderboard");
    name
}


/// A non-empty list of modes written as text reads back as the same list.
pub proof fn lemma_mode_list_reads_back(modes: Seq<i32>)
    requires
        modes.len() >= 1,
    ensures
        mode_list_spec(modes_spec(modes)) == modes,
{
    let parts = modes.map_values(|m: i32| int_text(m as int));
    assert forall|i: int| 0 <= i < parts.len() implies !(#[trigger] parts[i]).contains(',') by {
        lemma_int_text_reads_back(modes[i] as int);
    }
    lemma_split_join(parts, ',');
    let back = mode_list_spec(modes_spec(modes));
    assert forall|i: int| 0 <= i < modes.len() implies #[trigger] back[i] == modes[i] by {
        lemma_parse_in_range_text(modes[i] as int, true, i32::MIN as int, i32::MAX as int);
    }
    assert(back =~= modes);
}

} // verus!
