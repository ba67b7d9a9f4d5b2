//! Member lookups: raid.report links, refresh decisions, Bungie name searches and
//! the choice among the linked platform accounts that Bungie returns.
use vstd::prelude::*;
use crate::text::{
    concat, i64_text, int_text, parse_i16, parse_in_range, remove_all, remove_all_spec, split_last,
    split_spec,
};

verus! {

/// Seconds after which a stored profile is fetched again from Bungie.
pub const UPDATE_PROFILE_INTERVAL: u64 = 86400;

/// Seconds after which a member's activity history is fetched again from Bungie.
pub const UPDATE_ACTIVITY_INTERVAL: u64 = 86400;

/// Seconds after which a clan's information is fetched again.
pub const UPDATE_CLAN_INTERVAL: u64 = 86400;

/// Seconds after which a network clan's information is fetched again.
pub const UPDATE_CLAN_NETWORK_INTERVAL: u64 = 3600;

pub open spec fn platform_name_spec(t: int) -> Seq<char> {
    if t == 0 {
        seq!['n', 'o', 'n', 'e']
    } else if t == 1 {
        seq!['x', 'b']
    } else if t == 2 {
        seq!['p', 's']
    } else {
        seq!['p', 'c']
    }
}

/// The raid.report platform segment for a Bungie membership type: 0 is none, 1 Xbox,
/// 2 PlayStation, every other type is reported under pc.
pub fn get_platform_name(membership_type: i32) -> (name: &'static str)
    ensures
        name@ == platform_name_spec(membership_type as int),
{
    proof {
        reveal_strlit("none");
        reveal_strlit("xb");
        reveal_strlit("ps");
        reveal_strlit("pc");
    }
    match membership_type {
        0 => "none",
        1 => "xb",
        2 => "ps",
        _ => "pc",
    }
}

pub open spec fn raid_report_url_spec(membership_id: int, membership_type: int) -> Seq<char> {
    "https://raid.report/"@ + platform_name_spec(membership_type) + "/"@ + int_text(membership_id)
}

/// `https://raid.report/{platform}/{membership_id}`.
pub fn generate_raid_report_url(membership_id: i64, membership_type: i32) -> (url: String)
    ensures
        url@ == raid_report_url_spec(membership_id as int, membership_type as int),
{
    let mut url = String::from_str("https://raid.report/");
    url.append(get_platform_name(membership_type));
    url.append("/");
    let id = i64_text(membership_id);
    url.append(id.as_str());
    url
}

/// A stored profile is refreshed once a day has passed since its last update.
pub fn profile_needs_refresh(now: u64, timestamp: u64) -> (r: bool)
    requires
        timestamp <= now,
    ensures
        r == (now - timestamp >= UPDATE_PROFILE_INTERVAL),
{
    now - timestamp >= UPDATE_PROFILE_INTERVAL
}

/// Activity history is fetched again when its most recent entry is more than a day old.
pub fn activities_need_refresh(now: u64, most_recent: u64) -> (r: bool)
    requires
        most_recent <= now,
    ensures
        r == (now - most_recent > UPDATE_ACTIVITY_INTERVAL),
{
    now - most_recent > UPDATE_ACTIVITY_INTERVAL
}

/// A clan is refreshed after an hour when it belongs to the network, after a day otherwise.
pub fn clan_needs_refresh(now: u64, updated_at: u64, is_network: bool) -> (r: bool)
    requires
        updated_at <= now,
    ensures
        r == (now - updated_at > if is_network {
            UPDATE_CLAN_NETWORK_INTERVAL
        } else {
            UPDATE_CLAN_INTERVAL
        }),
{
    let interval = if is_network {
        UPDATE_CLAN_NETWORK_INTERVAL
    } else {
        UPDATE_CLAN_INTERVAL
    };
    now - updated_at > interval
}

/// The body of a player search by Bungie name.
#[derive(Debug, PartialEq)]
pub struct UserExactSearchResult {
    pub display_name: String,
    pub code: i16,
}

/// The text after the last `#` of a Bungie name (the whole name when there is none).
pub open spec fn bungie_code_text(bungie_name: Seq<char>) -> Seq<char> {
    split_spec(bungie_name, '#').last()
}

/// The name without `#code`.
pub open spec fn bungie_search_name(bungie_name: Seq<char>) -> Seq<char> {
    remove_all_spec(bungie_name, seq!['#'] + bungie_code_text(bungie_name))
}

/// The code as an `i16`, or 0 when it does not read as one.
pub open spec fn bungie_search_code(bungie_name: Seq<char>) -> int {
    match parse_in_range(bungie_code_text(bungie_name), true, i16::MIN as int, i16::MAX as int) {
        Some(v) => v,
        None => 0,
    }
}

/// Splits `Name#1234` into the display name and the numeric code Bungie searches by.
pub fn search_request(bungie_name: &str) -> (r: UserExactSearchResult)
    ensures
        r.display_name@ == bungie_search_name(bungie_name@),
        r.code as int == bungie_search_code(bungie_name@),
{
    let code_text = split_last(bungie_name, '#');
    let marker = concat("#", code_text.as_str());
    proof {
        reveal_strlit("#");
        assert("#"@ =~= seq!['#']);
    }
    let display_name = remove_all(bungie_name, marker.as_str());
    let code = match parse_i16(code_text.as_str()) {
        Some(v) => v,
        None => 0,
    };
    UserExactSearchResult { display_name, code }
}

/// A linked platform account returned by Bungie.
#[derive(Debug, PartialEq)]
pub struct UserInfoCard {
    pub membership_id: String,
    pub membership_type: i32,
    pub cross_save_override: i32,
    pub display_name: String,
}

/// The account is the one cross save makes primary.
pub open spec fn is_cross_save_primary(card: UserInfoCard) -> bool {
    card.membership_type == card.cross_save_override
}

/// Index of the last cross save primary account among the first `n`, if any.
pub open spec fn last_primary(cards: Seq<UserInfoCard>, n: int) -> Option<int>
    decreases n,
{
    if n <= 0 {
        None
    } else if is_cross_save_primary(cards[n - 1]) {
        Some(n - 1)
    } else {
        last_primary(cards, n - 1)
    }
}

/// Index of the first account with the given membership id, if any.
pub open spec fn first_with_id(cards: Seq<UserInfoCard>, id: Seq<char>) -> Option<int> {
    if exists|i: int| 0 <= i < cards.len() && cards[i].membership_id@ == id {
        Some(choose|i: int| 0 <= i < cards.len() && cards[i].membership_id@ == id && (forall|j: int| 0 <= j < i ==> cards[j].membership_id@ != id))
    } else {
        None
    }
}

/// Which account a membership lookup keeps: the only one; else the first whose id is
/// the requested one; else the last cross save primary one; else none.
pub open spec fn membership_choice(cards: Seq<UserInfoCard>, id: Seq<char>) -> Option<int> {
    if cards.len() == 1 {
        Some(0)
    } else {
        match first_with_id(cards, id) {
            Some(i) => Some(i),
            None => last_primary(cards, cards.len() as int),
        }
    }
}

/// Index of the first cross save primary account, if any.
pub open spec fn first_primary(cards: Seq<UserInfoCard>) -> Option<int> {
    if exists|i: int| 0 <= i < cards.len() && is_cross_save_primary(cards[i]) {
        Some(choose|i: int| 0 <= i < cards.len() && is_cross_save_primary(cards[i]) && (forall|j: int| 0 <= j < i ==> !is_cross_save_primary(cards[j])))
    } else {
        None
    }
}

/// Which account a name search keeps: the only one; else the first cross save primary
/// one; else the last one; none when there are none.
pub open spec fn search_choice(cards: Seq<UserInfoCard>) -> Option<int> {
    if cards.len() == 0 {
        None
    } else if cards.len() == 1 {
        Some(0)
    } else {
        match first_primary(cards) {
            Some(i) => Some(i),
            None => Some(cards.len() - 1),
        }
    }
}

/// The account kept from the memberships linked to `membership_id`.
pub fn choose_membership_card(cards: Vec<UserInfoCard>, membership_id: i64) -> (r: Option<UserInfoCard>)
    ensures
        match membership_choice(cards@, int_text(membership_id as int)) {
            Some(i) => r == Some(cards@[i]),
            None => r is None,
        },
{
    let ghost orig = cards@;
    let ghost id = int_text(membership_id as int);
    let mut cards = cards;
    if cards.len() == 1 {
        return cards.pop();
    }
    let wanted = i64_text(membership_id);
    let n = cards.len();
    let mut found: Option<usize> = None;
    let mut primary: Option<usize> = None;
    let mut i: usize = 0;
    while i < n
        invariant
            n == cards@.len(),
            cards@ == orig,
            wanted@ == id,
            i <= n,
            found is None ==> forall|j: int| 0 <= j < i ==> cards@[j].membership_id@ != id,
            found matches Some(f) ==> f < n && cards@[f as int].membership_id@ == id && forall|j: int| 0 <= j < f ==> cards@[j].membership_id@ != id,
            found is None ==> (primary matches Some(p) ==> p < i && last_primary(orig, i as int) == Some(p as int)),
            found is None ==> (primary is None ==> last_primary(orig, i as int) is None),
        decreases n - i,
    {
        if found.is_none() {
            if cards[i].membership_id == wanted {
                found = Some(i);
            } else if cards[i].membership_type == cards[i].cross_save_override {
                primary = Some(i);
            }
        }
        i = i + 1;
    }
    proof {
        if found is None {
            assert(!(exists|j: int| 0 <= j < orig.len() && orig[j].membership_id@ == id));
        }
    }
    let pick = match found {
        Some(f) => {
            proof {
                let c = choose|c: int| 0 <= c < orig.len() && orig[c].membership_id@ == id && (forall|j: int| 0 <= j < c ==> orig[j].membership_id@ != id);
                if c < f {
                } else if c > f {
                    assert(orig[f as int].membership_id@ == id);
                }
            }
            Some(f)
        },
        None => primary,
    };
    match pick {
        Some(p) => Some(cards.swap_remove(p)),
        None => None,
    }
}

/// The account kept from the results of a Bungie name search.
pub fn choose_search_card(cards: Vec<UserInfoCard>) -> (r: Option<UserInfoCard>)
    ensures
        match search_choice(cards@) {
            Some(i) => r == Some(cards@[i]),
            None => r is None,
        },
{
    let ghost orig = cards@;
    let mut cards = cards;
    let n = cards.len();
    if n == 0 {
        return None;
    }
    if n == 1 {
        return cards.pop();
    }
    let mut i: usize = 0;
    while i < n && cards[i].membership_type != cards[i].cross_save_override
        invariant
            n == cards@.len(),
            cards@ == orig,
            i <= n,
            forall|j: int| 0 <= j < i ==> !is_cross_save_primary(#[trigger] orig[j]),
        decreases n - i,
    {
        i = i + 1;
    }
    if i < n {
        proof {
            let c = choose|c: int| 0 <= c < orig.len() && is_cross_save_primary(orig[c]) && (forall|j: int| 0 <= j < c ==> !is_cross_save_primary(orig[j]));
            if c < i {
            } else if c > i {
                assert(is_cross_save_primary(orig[i as int]));
            }
        }
        Some(cards.swap_remove(i))
    } else {
        cards.pop()
    }
}


/// Positions, in order, of the activities of a history page that happened after `start`.
pub open spec fn activities_after(times: Seq<u64>, start: u64) -> Seq<usize>
    decreases times.len(),
{
    if times.len() == 0 {
        Seq::<usize>::empty()
    } else if times.last() > start {
        activities_after(times.drop_last(), start).push((times.len() - 1) as usize)
    } else {
        activities_after(times.drop_last(), start)
    }
}

/// What one page of a character's activity history gives.
#[derive(Debug, PartialEq, Eq)]
pub struct HistoryPage {
    /// Positions of the page's activities that are kept (those after the start time).
    pub kept: Vec<usize>,
    /// The page to fetch next, none when this page kept nothing.
    pub next_page: Option<u32>,
}

/// Reads page `page` of a character's activity history, whose activities happened at
/// `times`: the activities after `start` are kept, and the next page is fetched while a
/// page keeps at least one.
pub fn history_page(times: &Vec<u64>, start: u64, page: u32) -> (r: HistoryPage)
    requires
        page < u32::MAX,
    ensures
        r.kept@ == activities_after(times@, start),
        r.kept@.len() == 0 ==> r.next_page is None,
        r.kept@.len() > 0 ==> r.next_page == Some((page + 1) as u32),
{
    let mut kept: Vec<usize> = Vec::new();
    let mut i: usize = 0;
    while i < times.len()
        invariant
            i <= times@.len(),
            kept@ == activities_after(times@.subrange(0, i as int), start),
        decreases times@.len() - i,
    {
        let ghost next = times@.subrange(0, i + 1);
        assert(next.drop_last() =~= times@.subrange(0, i as int));
        if times[i] > start {
            kept.push(i);
        }
        i = i + 1;
    }
    assert(times@.subrange(0, times@.len() as int) =~= times@);
    let next_page = if kept.len() == 0 {
        None
    } else {
        Some(page + 1)
    };
    HistoryPage { kept, next_page }
}

} // verus!
