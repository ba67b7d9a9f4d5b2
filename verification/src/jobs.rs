//! What the service's jobs decide between their calls: the group ids given on the command
//! line, the rosters merged over clans, the instances collected over characters, the
//! service's settings with their defaults, and the labels of the report workbooks.
use vstd::prelude::*;
use crate::drive::i64_or_zero;
use crate::keyed::{IdEntry, id_insert, id_keys_unique, id_map};
use crate::tally::{distinct_of, lemma_push_to_set, set_insert};
use crate::text::{
    i64_text, int_text, lowercase_text, parse_i64, parse_in_range, parse_u16, parse_u64, parse_usize,
    to_lowercase, trim, trim_spec,
};

verus! {

/// The numbers of a list of texts, each read as an `i64` (0 when it does not read).
pub open spec fn ids_of(texts: Seq<String>) -> Seq<i64> {
    texts.map_values(|t: String| i64_or_zero(t@))
}

/// The numbers of a list of texts (group ids given to a job, character ids from a profile).
pub fn parse_group_ids(args: &Vec<String>) -> (r: Vec<i64>)
    ensures
        r@ == ids_of(args@),
{
    let mut out: Vec<i64> = Vec::new();
    let mut i: usize = 0;
    while i < args.len()
        invariant
            i <= args@.len(),
            out@ == ids_of(args@).subrange(0, i as int),
        decreases args@.len() - i,
    {
        let v = match parse_i64(args[i].as_str()) {
            Some(v) => v,
            None => 0,
        };
        out.push(v);
        assert(out@ =~= ids_of(args@).subrange(0, i + 1));
        i = i + 1;
    }
    assert(ids_of(args@).subrange(0, args@.len() as int) =~= ids_of(args@));
    out
}

/// The group of a member: the first group membership's group id, 0 without any.
pub fn first_group_id(group_ids: &Vec<String>) -> (r: i64)
    ensures
        group_ids@.len() == 0 ==> r == 0,
        group_ids@.len() > 0 ==> r == i64_or_zero(group_ids@[0]@),
{
    if group_ids.len() == 0 {
        0
    } else {
        match parse_i64(group_ids[0].as_str()) {
            Some(v) => v,
            None => 0,
        }
    }
}

/// A profile lookup needs the member's platform first when it is not known (`<= 0`).
pub fn needs_membership_lookup(membership_type: i64) -> (r: bool)
    ensures
        r == (membership_type <= 0),
{
    membership_type <= 0
}

/// Adds a clan's roster (membership id to platform) to the members gathered so far
/// (`extend`: a member already gathered takes the platform the roster gives).
pub fn merge_roster(members: &mut Vec<IdEntry<i64>>, roster: &Vec<IdEntry<i64>>)
    requires
        id_keys_unique(old(members)@),
    ensures
        id_keys_unique(final(members)@),
        id_map(final(members)@) == roster_merge_spec(id_map(old(members)@), roster@),
{
    let ghost start = id_map(members@);
    let mut i: usize = 0;
    while i < roster.len()
        invariant
            i <= roster@.len(),
            id_keys_unique(members@),
            id_map(members@) == roster_merge_spec(start, roster@.subrange(0, i as int)),
        decreases roster@.len() - i,
    {
        assert(roster@.subrange(0, i + 1).drop_last() =~= roster@.subrange(0, i as int));
        id_insert(members, roster[i].key, roster[i].value);
        i = i + 1;
    }
    assert(roster@.subrange(0, roster@.len() as int) =~= roster@);
}

/// `m` with the roster's entries set in order.
pub open spec fn roster_merge_spec(m: Map<i64, i64>, roster: Seq<IdEntry<i64>>) -> Map<i64, i64>
    decreases roster.len(),
{
    if roster.len() == 0 {
        m
    } else {
        roster_merge_spec(m, roster.drop_last()).insert(roster.last().key, roster.last().value)
    }
}

/// Adds a character's instances to the instances gathered so far, each once.
pub fn collect_instances(gathered: &mut Vec<i64>, instances: &Vec<i64>)
    requires
        old(gathered)@.no_duplicates(),
    ensures
        final(gathered)@.no_duplicates(),
        final(gathered)@.to_set() == old(gathered)@.to_set().union(instances@.to_set()),
{
    let ghost start = gathered@.to_set();
    let mut i: usize = 0;
    assert(instances@.subrange(0, 0).to_set() =~= Set::<i64>::empty());
    assert(start.union(Set::<i64>::empty()) =~= start);
    while i < instances.len()
        invariant
            i <= instances@.len(),
            gathered@.no_duplicates(),
            gathered@.to_set() == start.union(instances@.subrange(0, i as int).to_set()),
        decreases instances@.len() - i,
    {
        let ghost pre = instances@.subrange(0, i as int);
        assert(instances@.subrange(0, i + 1) =~= pre.push(instances@[i as int]));
        proof {
            lemma_push_to_set(pre, instances@[i as int]);
        }
        set_insert(gathered, instances[i]);
        assert(gathered@.to_set() =~= start.union(instances@.subrange(0, i + 1).to_set()));
        i = i + 1;
    }
    assert(instances@.subrange(0, instances@.len() as int) =~= instances@);
}

// ---------------------------------------------------------------------------
// Settings with defaults
// ---------------------------------------------------------------------------
/// A numeric setting: its text read as a `u64`, `default` when it is missing or does not read.
pub open spec fn u64_setting_spec(setting: Seq<char>, default: u64) -> u64 {
    match parse_in_range(setting, false, 0, u64::MAX as int) {
        Some(v) => v as u64,
        None => default,
    }
}

/// A numeric setting (`RATE_LIMIT` defaults to 100, `RATE_LIMIT_DURATION` to 10 seconds,
/// `RATE_LIMIT_BUFFER` to 1024).
pub fn u64_setting(setting: &str, default: u64) -> (r: u64)
    ensures
        r == u64_setting_spec(setting@, default),
{
    match parse_u64(setting) {
        Some(v) => v,
        None => default,
    }
}

/// A count setting (`TASK_WORKERS` defaults to 1, `PRIORITY_TASK_WORKERS` to 2): its text
/// read as a `usize`, `default` when it is missing or does not read.
pub fn usize_setting(setting: &str, default: usize) -> (r: usize)
    ensures
        parse_in_range(setting@, false, 0, usize::MAX as int) matches Some(v) ==> r == v,
        parse_in_range(setting@, false, 0, usize::MAX as int) is None ==> r == default,
{
    match parse_usize(setting) {
        Some(v) => v,
        None => default,
    }
}

/// The port the server listens on when none is configured.
pub const DEFAULT_SERVER_PORT: u16 = 3003;

/// The port the server listens on: the setting read as a `u16`, 3003 when it is missing or
/// does not read.
pub fn server_port(setting: &str) -> (r: u16)
    ensures
        parse_in_range(setting@, false, 0, u16::MAX as int) matches Some(v) ==> r == v,
        parse_in_range(setting@, false, 0, u16::MAX as int) is None ==> r == DEFAULT_SERVER_PORT,
{
    match parse_u16(setting) {
        Some(v) => v,
        None => DEFAULT_SERVER_PORT,
    }
}

/// The season a report job is run for: its first argument, lower-cased and trimmed (empty
/// without arguments).
pub fn season_argument(args: &Vec<String>) -> (r: String)
    ensures
        args@.len() == 0 ==> r@ == trim_spec(lowercase_text(Seq::<char>::empty())),
        args@.len() > 0 ==> r@ == trim_spec(lowercase_text(args@[0]@)),
{
    let first = if args.len() > 0 {
        args[0].clone()
    } else {
        String::new()
    };
    let lower = to_lowercase(first.as_str());
    trim(lower.as_str())
}

/// The label of a clan's season overview workbook: `Season {number} | {clan} Overview`.
pub fn season_clan_label(number: i32, clan_name: &str) -> (r: String)
    ensures
        r@ == "Season "@ + int_text(number as int) + " | "@ + clan_name@ + " Overview"@,
{
    let mut label = String::from_str("Season ");
    let n = i64_text(number as i64);
    label.append(n.as_str());
    label.append(" | ");
    label.append(clan_name);
    label.append(" Overview");
    label
}


/// A member found by a Bungie name search, with the characters of the synced profile.
#[derive(Debug, PartialEq, Eq)]
pub struct ProfileSearchResults {
    pub membership_id: i64,
    pub membership_type: i64,
    pub bungie_name: String,
    pub characters: Vec<i64>,
}

/// The result of a Bungie name search for `bungie_name`, from the membership id (as text)
/// and type of the account found and the character ids of its synced profile.
pub fn profile_search_result(
    membership_id_text: &str,
    membership_type: i32,
    bungie_name: &str,
    characters: Vec<i64>,
) -> (r: ProfileSearchResults)
    ensures
        r.membership_id == i64_or_zero(membership_id_text@),
        r.membership_type == membership_type as i64,
        r.bungie_name@ == bungie_name@,
        r.characters == characters,
{
    let membership_id = match parse_i64(membership_id_text) {
        Some(v) => v,
        None => 0,
    };
    ProfileSearchResults {
        membership_id,
        membership_type: membership_type as i64,
        bungie_name: String::from_str(bungie_name),
        characters,
    }
}

} // verus!
