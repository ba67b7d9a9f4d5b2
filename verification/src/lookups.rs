//! How members and clans are looked up: the keys their cached copies are kept under, and
//! when a stored copy is fetched again from Bungie.
use vstd::prelude::*;
use crate::member::{UPDATE_CLAN_INTERVAL, clan_needs_refresh, profile_needs_refresh};
use crate::records::{ClanInfoResult, MemberResult};
use crate::text::{i64_text, int_text, lowercase_text, parse_i64, parse_in_range, to_lowercase, u64_text};
use crate::windows::{MemberLookup, modes_spec, modes_text, parsed_or_zero};

verus! {

/// `prefix` followed by `text`.
fn keyed(prefix: &str, text: &str) -> (r: String)
    ensures
        r@ == prefix@ + text@,
{
    let mut key = String::from_str(prefix);
    key.append(text);
    key
}

/// The cache key of a member looked up by Bungie name: `member_bn||{lower-cased name}`.
pub fn member_name_key(bungie_name: &str) -> (r: String)
    ensures
        r@ == "member_bn||"@ + lowercase_text(bungie_name@),
{
    let lower = to_lowercase(bungie_name);
    keyed("member_bn||", lower.as_str())
}

/// The cache key of a member looked up by membership id: `member_membership_id||{id}`.
pub fn member_id_key(membership_id: i64) -> (r: String)
    ensures
        r@ == "member_membership_id||"@ + int_text(membership_id as int),
{
    let id = i64_text(membership_id);
    keyed("member_membership_id||", id.as_str())
}

/// The cache key of a member search: `search_members||term||{term}||page||{page}||limit||{limit}`.
pub fn member_search_key(term: &str, page: u32, limit: u32) -> (r: String)
    ensures
        r@ == "search_members||term||"@ + term@ + "||page||"@ + int_text(page as int) + "||limit||"@ + int_text(
            limit as int,
        ),
{
    let mut key = keyed("search_members||term||", term);
    key.append("||page||");
    let p = u64_text(page as u64);
    key.append(p.as_str());
    key.append("||limit||");
    let l = u64_text(limit as u64);
    key.append(l.as_str());
    key
}

/// The cache key of a member search's result count: `search_members_count||{term}`.
pub fn member_search_count_key(term: &str) -> (r: String)
    ensures
        r@ == "search_members_count||"@ + term@,
{
    keyed("search_members_count||", term)
}

/// The cache key of a member's titles: `member_titles||{id}`.
pub fn member_titles_key(membership_id: i64) -> (r: String)
    ensures
        r@ == "member_titles||"@ + int_text(membership_id as int),
{
    let id = i64_text(membership_id);
    keyed("member_titles||", id.as_str())
}

/// The cache key of a member's activities in a window:
/// `member_activities||{id}||{start}||{end}||{modes}`.
pub fn member_activities_key(membership_id: i64, start: u64, end: u64, modes: &Vec<i32>) -> (r: String)
    ensures
        r@ == "member_activities||"@ + int_text(membership_id as int) + "||"@ + int_text(start as int) + "||"@
            + int_text(end as int) + "||"@ + modes_spec(modes@),
{
    let id = i64_text(membership_id);
    let mut key = keyed("member_activities||", id.as_str());
    key.append("||");
    let s = u64_text(start);
    key.append(s.as_str());
    key.append("||");
    let e = u64_text(end);
    key.append(e.as_str());
    key.append("||");
    let m = modes_text(modes);
    key.append(m.as_str());
    key
}

/// The cache key of a clan: `clan_info||{group id}`.
pub fn clan_key(group_id: i64) -> (r: String)
    ensures
        r@ == "clan_info||"@ + int_text(group_id as int),
{
    let id = i64_text(group_id);
    keyed("clan_info||", id.as_str())
}

/// The cache key of a clan looked up by slug: `clan_info||slug||{slug}`.
pub fn clan_slug_key(slug: &str) -> (r: String)
    ensures
        r@ == "clan_info||slug||"@ + slug@,
{
    keyed("clan_info||slug||", slug)
}

/// The cache key of a clan's roster: `clan_roster||{group id}`.
pub fn clan_roster_key(group_id: i64) -> (r: String)
    ensures
        r@ == "clan_roster||"@ + int_text(group_id as int),
{
    let id = i64_text(group_id);
    keyed("clan_roster||", id.as_str())
}

/// The cache key of a member's clan: `clan_info_membership||{membership id}`.
pub fn clan_membership_key(membership_id: i64) -> (r: String)
    ensures
        r@ == "clan_info_membership||"@ + int_text(membership_id as int),
{
    let id = i64_text(membership_id);
    keyed("clan_info_membership||", id.as_str())
}

/// A stored profile is fetched from Bungie when there is none, or when it is a day old.
pub fn profile_call_api(record: &Option<MemberResult>, now: u64) -> (r: bool)
    requires
        record matches Some(m) ==> m.updated_at <= now,
    ensures
        record is None ==> r,
        record matches Some(m) ==> r == (now - m.updated_at >= crate::member::UPDATE_PROFILE_INTERVAL),
{
    match record {
        Some(m) => profile_needs_refresh(now, m.updated_at),
        None => true,
    }
}

/// A stored clan is fetched from Bungie when it is stale (an hour for network clans, a day
/// for others); without a stored clan, when `when_missing` holds (looking a clan up by id
/// fetches it, looking it up by slug does not).
pub fn clan_call_api(info: &Option<ClanInfoResult>, now: u64, when_missing: bool) -> (r: bool)
    requires
        info matches Some(c) ==> 0 <= c.updated_at <= now,
    ensures
        info is None ==> r == when_missing,
        info matches Some(c) ==> r == (now - c.updated_at > if c.is_network == 1 {
            crate::member::UPDATE_CLAN_NETWORK_INTERVAL
        } else {
            UPDATE_CLAN_INTERVAL
        }),
{
    match info {
        Some(c) => clan_needs_refresh(now, c.updated_at as u64, c.is_network == 1),
        None => when_missing,
    }
}

/// A member's stored clan is fetched from Bungie when there is none, or when it is a day old.
pub fn membership_clan_call_api(info: &Option<ClanInfoResult>, now: u64) -> (r: bool)
    requires
        info matches Some(c) ==> 0 <= c.updated_at <= now,
    ensures
        info is None ==> r,
        info matches Some(c) ==> r == (now - c.updated_at > UPDATE_CLAN_INTERVAL),
{
    match info {
        Some(c) => now - (c.updated_at as u64) > UPDATE_CLAN_INTERVAL,
        None => true,
    }
}

/// How the API's member routes look a member up: a name that reads as a membership id
/// other than 0 is looked up by id, anything else by Bungie name.
pub fn route_member_lookup(bungie_name: &str) -> (r: MemberLookup)
    ensures
        parsed_or_zero(bungie_name@) != 0 ==> r == MemberLookup::ById(parsed_or_zero(bungie_name@) as i64),
        parsed_or_zero(bungie_name@) == 0 ==> r == MemberLookup::ByBungieName,
{
    let id = match parse_i64(bungie_name) {
        Some(v) => v,
        None => 0,
    };
    if id != 0 {
        MemberLookup::ById(id)
    } else {
        MemberLookup::ByBungieName
    }
}


/// The text a character of a search term stands for in a `LIKE` pattern: `%` and `_` are
/// escaped with a backslash, every other character stands for itself.
pub open spec fn like_piece(c: char) -> Seq<char> {
    if c == '%' {
        seq!['\\', '%']
    } else if c == '_' {
        seq!['\\', '_']
    } else {
        seq![c]
    }
}

/// A search term with its `LIKE` wildcards escaped.
pub open spec fn like_escaped(s: Seq<char>) -> Seq<char>
    decreases s.len(),
{
    if s.len() == 0 {
        Seq::<char>::empty()
    } else {
        like_escaped(s.drop_last()) + like_piece(s.last())
    }
}

/// The `LIKE` pattern a member search matches display names with: `%{escaped term}%`.
pub fn search_pattern(term: &str) -> (r: String)
    ensures
        r@ == seq!['%'] + like_escaped(term@) + seq!['%'],
{
    proof {
        reveal_strlit("%");
        reveal_strlit("\\%");
        reveal_strlit("\\_");
    }
    let n = term.unicode_len();
    let mut out = String::from_str("%");
    let mut i: usize = 0;
    while i < n
        invariant
            n == term@.len(),
            i <= n,
            out@ == seq!['%'] + like_escaped(term@.subrange(0, i as int)),
            "\\%"@ == seq!['\\', '%'],
            "\\_"@ == seq!['\\', '_'],
        decreases n - i,
    {
        let ghost next = term@.subrange(0, i + 1);
        assert(next.drop_last() =~= term@.subrange(0, i as int));
        let c = term.get_char(i);
        if c == '%' {
            out.append("\\%");
        } else if c == '_' {
            out.append("\\_");
        } else {
            let piece = crate::text::substring(term, i, i + 1);
            assert(piece@ =~= seq![c]);
            out.append(piece.as_str());
        }
        assert(out@ =~= seq!['%'] + like_escaped(next));
        i = i + 1;
    }
    assert(term@.subrange(0, n as int) =~= term@);
    out.append("%");
    out
}

} // verus!
