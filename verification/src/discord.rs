//! Discord clan roles: which of a server's roles stand for the workbook's clans, and which
//! role a server member is given, from the player list and the clan sheets.
use vstd::prelude::*;
use crate::drive::i64_or_zero;
use crate::keyed::{IdEntry, id_insert, id_keys_unique, id_map, lemma_id_map_dom, text_map};
use crate::text::{lowercase_text, parse_in_range, parse_u64, to_lowercase, trim, trim_spec};
use crate::workbook::{WorksheetClan, WorksheetPlayer};

verus! {

/// A role of a Discord server.
#[derive(Debug)]
pub struct GuildRole {
    pub id: u64,
    pub name: String,
}

/// A name as roles and clans are matched by: lower-cased, then trimmed.
pub open spec fn normalized(name: Seq<char>) -> Seq<char> {
    trim_spec(lowercase_text(name))
}

fn normalize(name: &str) -> (r: String)
    ensures
        r@ == normalized(name@),
{
    let lower = to_lowercase(name);
    trim(lower.as_str())
}

/// The clan a normalized name stands for: the last clan sheet with that name.
pub open spec fn clan_named(clans: Seq<IdEntry<WorksheetClan>>, n: Seq<char>) -> Option<i64>
    decreases clans.len(),
{
    if clans.len() == 0 {
        None
    } else if normalized(clans.last().value.name@) == n {
        Some(clans.last().key)
    } else {
        clan_named(clans.drop_last(), n)
    }
}

fn find_clan_named(clans: &Vec<IdEntry<WorksheetClan>>, n: &str) -> (r: Option<i64>)
    ensures
        r == clan_named(clans@, n@),
{
    let mut i: usize = clans.len();
    assert(clans@.subrange(0, i as int) =~= clans@);
    while i > 0
        invariant
            i <= clans@.len(),
            clan_named(clans@, n@) == clan_named(clans@.subrange(0, i as int), n@),
        decreases i,
    {
        let ghost pre = clans@.subrange(0, i as int);
        assert(pre.drop_last() =~= clans@.subrange(0, i - 1));
        let name = normalize(clans[i - 1].value.name.as_str());
        if crate::text::equals(name.as_str(), n) {
            return Some(clans[i - 1].key);
        }
        i = i - 1;
    }
    None
}

/// The ids of the roles that stand for a clan, in the server's order.
pub open spec fn clan_role_ids(clans: Seq<IdEntry<WorksheetClan>>, roles: Seq<GuildRole>) -> Seq<u64>
    decreases roles.len(),
{
    if roles.len() == 0 {
        Seq::<u64>::empty()
    } else if clan_named(clans, normalized(roles.last().name@)) is Some {
        clan_role_ids(clans, roles.drop_last()).push(roles.last().id)
    } else {
        clan_role_ids(clans, roles.drop_last())
    }
}

/// The role of each clan: the last role standing for it.
pub open spec fn role_of_clan(clans: Seq<IdEntry<WorksheetClan>>, roles: Seq<GuildRole>) -> Map<i64, u64>
    decreases roles.len(),
{
    if roles.len() == 0 {
        Map::empty()
    } else {
        match clan_named(clans, normalized(roles.last().name@)) {
            Some(c) => role_of_clan(clans, roles.drop_last()).insert(c, roles.last().id),
            None => role_of_clan(clans, roles.drop_last()),
        }
    }
}

/// The server's clan roles: all their ids, and the role of each clan.
#[derive(Debug)]
pub struct ClanRoles {
    pub role_ids: Vec<u64>,
    pub roles: Vec<IdEntry<u64>>,
}

/// Which of the server's roles stand for the workbook's clans.
pub fn clan_roles(clans: &Vec<IdEntry<WorksheetClan>>, roles: &Vec<GuildRole>) -> (r: ClanRoles)
    ensures
        r.role_ids@ == clan_role_ids(clans@, roles@),
        id_keys_unique(r.roles@),
        id_map(r.roles@) == role_of_clan(clans@, roles@),
{
    let mut role_ids: Vec<u64> = Vec::new();
    let mut by_clan: Vec<IdEntry<u64>> = Vec::new();
    let mut i: usize = 0;
    assert(id_map(by_clan@) =~= Map::<i64, u64>::empty());
    while i < roles.len()
        invariant
            i <= roles@.len(),
            role_ids@ == clan_role_ids(clans@, roles@.subrange(0, i as int)),
            id_keys_unique(by_clan@),
            id_map(by_clan@) == role_of_clan(clans@, roles@.subrange(0, i as int)),
        decreases roles@.len() - i,
    {
        let ghost next = roles@.subrange(0, i + 1);
        assert(next.drop_last() =~= roles@.subrange(0, i as int));
        assert(next.last() == roles@[i as int]);
        let name = normalize(roles[i].name.as_str());
        match find_clan_named(clans, name.as_str()) {
            Some(c) => {
                role_ids.push(roles[i].id);
                id_insert(&mut by_clan, c, roles[i].id);
            },
            None => {},
        }
        i = i + 1;
    }
    assert(roles@.subrange(0, roles@.len() as int) =~= roles@);
    ClanRoles { role_ids, roles: by_clan }
}

/// The number a Discord id reads as, 0 when it does not read.
pub open spec fn discord_id_value(s: Seq<char>) -> u64 {
    match parse_in_range(s, false, 0, u64::MAX as int) {
        Some(v) => v as u64,
        None => 0,
    }
}

/// Position of the first player of the list whose Discord id reads as `member_id`, -1 when none.
pub open spec fn first_player_with_discord(players: Seq<WorksheetPlayer>, member_id: u64) -> int
    decreases players.len(),
{
    if players.len() == 0 {
        -1
    } else if first_player_with_discord(players.drop_last(), member_id) >= 0 {
        first_player_with_discord(players.drop_last(), member_id)
    } else if discord_id_value(players.last().discord_id@) == member_id {
        players.len() - 1
    } else {
        -1
    }
}

/// Position of the first clan sheet listing the member `id`, -1 when none.
pub open spec fn first_clan_with(clans: Seq<IdEntry<WorksheetClan>>, id: i64) -> int
    decreases clans.len(),
{
    if clans.len() == 0 {
        -1
    } else if first_clan_with(clans.drop_last(), id) >= 0 {
        first_clan_with(clans.drop_last(), id)
    } else if id_map(clans.last().value.members@).dom().contains(id) {
        clans.len() - 1
    } else {
        -1
    }
}

/// What to do with a server member's clan roles.
#[derive(Debug, PartialEq, Eq)]
pub enum RoleAction {
    /// The member is not a listed player, or no clan sheet lists the player.
    Nothing,
    /// Remove every clan role, then give the clan's role.
    Assign { remove: Vec<u64>, add: u64 },
    /// The player's clan has no role on the server.
    MissingRole { clan_id: i64 },
}

/// The players of a list, in its order.
pub open spec fn listed_players(players: Seq<crate::keyed::TextEntry<WorksheetPlayer>>) -> Seq<WorksheetPlayer> {
    players.map_values(|e: crate::keyed::TextEntry<WorksheetPlayer>| e.value)
}

/// The role action for the server member `member_id`: the first listed player with that
/// Discord id, the first clan sheet listing the player's membership id, and that clan's role.
pub open spec fn role_action_spec(
    clans: Seq<IdEntry<WorksheetClan>>,
    players: Seq<WorksheetPlayer>,
    role_ids: Seq<u64>,
    by_clan: Map<i64, u64>,
    member_id: u64,
    action: RoleAction,
) -> bool {
    let p = first_player_with_discord(players, member_id);
    if p < 0 {
        action == RoleAction::Nothing
    } else {
        let c = first_clan_with(clans, i64_or_zero(players[p].bungie_membership_id@));
        if c < 0 {
            action == RoleAction::Nothing
        } else if by_clan.dom().contains(clans[c].key) {
            action matches RoleAction::Assign { remove, add } && remove@ == role_ids && add == by_clan[clans[c].key]
        } else {
            action == RoleAction::MissingRole { clan_id: clans[c].key }
        }
    }
}

proof fn lemma_first_player(players: Seq<WorksheetPlayer>, member_id: u64, n: int)
    requires
        0 <= n <= players.len(),
    ensures
        -1 <= first_player_with_discord(players, member_id) < players.len(),
        first_player_with_discord(players.subrange(0, n), member_id) >= 0 ==> first_player_with_discord(players, member_id)
            == first_player_with_discord(players.subrange(0, n), member_id),
    decreases players.len(),
{
    if players.len() > 0 {
        if n == players.len() {
            assert(players.subrange(0, n) =~= players);
            lemma_first_player(players.drop_last(), member_id, 0);
        } else {
            assert(players.drop_last().subrange(0, n) =~= players.subrange(0, n));
            lemma_first_player(players.drop_last(), member_id, n);
        }
    } else {
        assert(players.subrange(0, n) =~= players);
    }
}

proof fn lemma_first_clan(clans: Seq<IdEntry<WorksheetClan>>, id: i64, n: int)
    requires
        0 <= n <= clans.len(),
    ensures
        -1 <= first_clan_with(clans, id) < clans.len(),
        first_clan_with(clans.subrange(0, n), id) >= 0 ==> first_clan_with(clans, id) == first_clan_with(
            clans.subrange(0, n),
            id,
        ),
    decreases clans.len(),
{
    if clans.len() > 0 {
        if n == clans.len() {
            assert(clans.subrange(0, n) =~= clans);
            lemma_first_clan(clans.drop_last(), id, 0);
        } else {
            assert(clans.drop_last().subrange(0, n) =~= clans.subrange(0, n));
            lemma_first_clan(clans.drop_last(), id, n);
        }
    } else {
        assert(clans.subrange(0, n) =~= clans);
    }
}

fn find_player(players: &Vec<crate::keyed::TextEntry<WorksheetPlayer>>, member_id: u64) -> (r: Option<usize>)
    ensures
        r matches Some(i) ==> i < players@.len() && i as int == first_player_with_discord(listed_players(players@), member_id),
        r is None ==> first_player_with_discord(listed_players(players@), member_id) == -1,
{
    let ghost listed = listed_players(players@);
    let mut p: usize = 0;
    while p < players.len()
        invariant
            listed == listed_players(players@),
            p <= players@.len(),
            first_player_with_discord(listed.subrange(0, p as int), member_id) == -1,
        decreases players@.len() - p,
    {
        let ghost next = listed.subrange(0, p + 1);
        assert(next.drop_last() =~= listed.subrange(0, p as int));
        assert(next.last() == players@[p as int].value);
        let id = match parse_u64(players[p].value.discord_id.as_str()) {
            Some(v) => v,
            None => 0,
        };
        if id == member_id {
            proof {
                lemma_first_player(listed, member_id, p + 1);
            }
            return Some(p);
        }
        p = p + 1;
    }
    assert(listed.subrange(0, p as int) =~= listed);
    None
}

fn find_clan_with(clans: &Vec<IdEntry<WorksheetClan>>, id: i64) -> (r: Option<usize>)
    ensures
        r matches Some(i) ==> i < clans@.len() && i as int == first_clan_with(clans@, id),
        r is None ==> first_clan_with(clans@, id) == -1,
{
    let mut c: usize = 0;
    while c < clans.len()
        invariant
            c <= clans@.len(),
            first_clan_with(clans@.subrange(0, c as int), id) == -1,
        decreases clans@.len() - c,
    {
        let ghost next = clans@.subrange(0, c + 1);
        assert(next.drop_last() =~= clans@.subrange(0, c as int));
        assert(next.last() == clans@[c as int]);
        proof {
            lemma_id_map_dom(clans@[c as int].value.members@, id);
        }
        if crate::keyed::id_find(&clans[c].value.members, id).is_some() {
            proof {
                lemma_first_clan(clans@, id, c + 1);
            }
            return Some(c);
        }
        c = c + 1;
    }
    assert(clans@.subrange(0, c as int) =~= clans@);
    None
}

/// What to do with the clan roles of the server member `member_id`.
pub fn role_action(
    clans: &Vec<IdEntry<WorksheetClan>>,
    players: &Vec<crate::keyed::TextEntry<WorksheetPlayer>>,
    roles: &ClanRoles,
    member_id: u64,
) -> (r: RoleAction)
    requires
        id_keys_unique(roles.roles@),
    ensures
        role_action_spec(clans@, listed_players(players@), roles.role_ids@, id_map(roles.roles@), member_id, r),
{
    match find_player(players, member_id) {
        None => RoleAction::Nothing,
        Some(p) => {
            let player_id = i64_value_or_zero(players[p].value.bungie_membership_id.as_str());
            assert(players@[p as int].value == listed_players(players@)[p as int]);
            match find_clan_with(clans, player_id) {
                None => RoleAction::Nothing,
                Some(c) => {
                    let clan_id = clans[c].key;
                    proof {
                        lemma_id_map_dom(roles.roles@, clan_id);
                    }
                    match crate::keyed::id_find(&roles.roles, clan_id) {
                        Some(k) => {
                            proof {
                                crate::keyed::lemma_id_map_at(roles.roles@, k as int);
                            }
                            let mut remove: Vec<u64> = Vec::new();
                            let mut j: usize = 0;
                            while j < roles.role_ids.len()
                                invariant
                                    j <= roles.role_ids@.len(),
                                    remove@ == roles.role_ids@.subrange(0, j as int),
                                decreases roles.role_ids@.len() - j,
                            {
                                remove.push(roles.role_ids[j]);
                                assert(remove@ =~= roles.role_ids@.subrange(0, j + 1));
                                j = j + 1;
                            }
                            assert(roles.role_ids@.subrange(0, roles.role_ids@.len() as int) =~= roles.role_ids@);
                            RoleAction::Assign { remove, add: roles.roles[k].value }
                        },
                        None => RoleAction::MissingRole { clan_id },
                    }
                },
            }
        },
    }
}

fn i64_value_or_zero(s: &str) -> (r: i64)
    ensures
        r == i64_or_zero(s@),
{
    match crate::text::parse_i64(s) {
        Some(v) => v,
        None => 0,
    }
}

} // verus!
