//! The clan overview spreadsheets: reading the player list and the clan sheets, bringing
//! them up to date from the clan rosters and Discord, ordering them, and the rows and
//! ranges written back.
//!
//! The player list (`'Player List'!A2:E`) has one row per player: Bungie name, Discord
//! name, Discord id, membership id, platform. A clan sheet (`'[Clan] name'`) holds the
//! clan's name, group id and member count in `B1:B3` and one row per member in `A6:F`:
//! name, membership id, role, last online, activities this season, frequent clan mates.
use vstd::prelude::*;
use crate::drive::{i64_or_zero, text_of};
use crate::keyed::{
    IdEntry, TextEntry, id_insert, id_keys_unique, id_map, lemma_id_map_at, lemma_id_map_dom,
    lemma_text_map_at, lemma_text_map_dom, text_insert, text_keys_unique, text_map,
};
use crate::merge::{MemberReport, MemberReportFireteamMember};
use crate::order::{Ordered, lemma_lex_total, lex_le, sort_by_order, sorted_by, text_le};
use crate::records::MemberResult;
use crate::text::{
    i64_text, u64_text, int_text, join_spec, lemma_parse_in_range_text, parse_i64, split, split_spec, starts_with, starts_with_spec, trim,
    trim_spec,
};
use crate::windows::{LATEST_TIME, datetime_text, utc_datetime_text};
use crate::keyed::{id_find, lemma_text_map_update, lemma_id_map_update, text_find};

verus! {

/// A row of the player list.
#[derive(Debug)]
pub struct WorksheetPlayer {
    pub bungie_name: String,
    pub discord_name: String,
    pub discord_id: String,
    pub bungie_membership_id: String,
    pub bungie_platform: String,
}

impl View for WorksheetPlayer {
    type V = WorksheetPlayer;

    open spec fn view(&self) -> WorksheetPlayer {
        *self
    }
}

impl Clone for WorksheetPlayer {
    fn clone(&self) -> (r: Self)
        ensures
            r == *self,
    {
        WorksheetPlayer {
            bungie_name: self.bungie_name.clone(),
            discord_name: self.discord_name.clone(),
            discord_id: self.discord_id.clone(),
            bungie_membership_id: self.bungie_membership_id.clone(),
            bungie_platform: self.bungie_platform.clone(),
        }
    }
}

/// A member row of a clan sheet.
#[derive(Debug)]
pub struct WorksheetClanMember {
    pub name: String,
    pub bungie_id: i64,
    pub role: i64,
    pub last_online: String,
    pub seasonal_activities: i64,
    pub frequent_clan_members: Vec<String>,
}

impl View for WorksheetClanMember {
    type V = WorksheetClanMember;

    open spec fn view(&self) -> WorksheetClanMember {
        *self
    }
}

fn clone_texts(v: &Vec<String>) -> (r: Vec<String>)
    ensures
        r@ == v@,
{
    let mut r: Vec<String> = Vec::new();
    let mut i: usize = 0;
    while i < v.len()
        invariant
            i <= v@.len(),
            r@ == v@.subrange(0, i as int),
        decreases v@.len() - i,
    {
        r.push(v[i].clone());
        assert(r@ =~= v@.subrange(0, i + 1));
        i = i + 1;
    }
    assert(v@.subrange(0, v@.len() as int) =~= v@);
    r
}

impl Clone for WorksheetClanMember {
    fn clone(&self) -> (r: Self)
        ensures
            r.name == self.name,
            r.bungie_id == self.bungie_id,
            r.role == self.role,
            r.last_online == self.last_online,
            r.seasonal_activities == self.seasonal_activities,
            r.frequent_clan_members@ == self.frequent_clan_members@,
    {
        WorksheetClanMember {
            name: self.name.clone(),
            bungie_id: self.bungie_id,
            role: self.role,
            last_online: self.last_online.clone(),
            seasonal_activities: self.seasonal_activities,
            frequent_clan_members: clone_texts(&self.frequent_clan_members),
        }
    }
}

/// A clan sheet: its members by membership id, and their order on the sheet.
#[derive(Debug)]
pub struct WorksheetClan {
    pub name: String,
    pub group_id: i64,
    pub members: Vec<IdEntry<WorksheetClanMember>>,
    pub members_sorted: Vec<i64>,
}

impl View for WorksheetClan {
    type V = WorksheetClan;

    open spec fn view(&self) -> WorksheetClan {
        *self
    }
}

/// A spreadsheet row: its cells' formatted values, when the row has cells.
pub type SheetRow = Option<Vec<Option<String>>>;

/// The text of cell `i` of a row, empty when the row, the cell or its value is missing.
pub open spec fn row_cell(row: SheetRow, i: int) -> Seq<char> {
    match row {
        Some(cells) => if 0 <= i < cells@.len() {
            text_of(cells@[i])
        } else {
            Seq::<char>::empty()
        },
        None => Seq::<char>::empty(),
    }
}

fn cell(row: &SheetRow, i: usize) -> (r: String)
    ensures
        r@ == row_cell(*row, i as int),
{
    match row {
        Some(cells) => if i < cells.len() {
            match &cells[i] {
                Some(s) => s.clone(),
                None => String::new(),
            }
        } else {
            String::new()
        },
        None => String::new(),
    }
}

/// The sheet is a clan sheet: its title starts with `[Clan]`.
pub fn is_clan_sheet(title: &str) -> (r: bool)
    ensures
        r == starts_with_spec(title@, "[Clan]"@),
{
    starts_with(title, "[Clan]")
}

// ---------------------------------------------------------------------------
// Reading the sheets
// ---------------------------------------------------------------------------
/// `p` is the player of a player list row.
pub open spec fn player_of_row(p: WorksheetPlayer, row: SheetRow) -> bool {
    &&& p.bungie_name@ == row_cell(row, 0)
    &&& p.discord_name@ == row_cell(row, 1)
    &&& p.discord_id@ == row_cell(row, 2)
    &&& p.bungie_membership_id@ == row_cell(row, 3)
    &&& p.bungie_platform@ == row_cell(row, 4)
}

/// Position of the last row with cells whose membership id is `k`, -1 when there is none.
pub open spec fn last_player_row(rows: Seq<SheetRow>, k: Seq<char>) -> int
    decreases rows.len(),
{
    if rows.len() == 0 {
        -1
    } else if rows.last() is Some && row_cell(rows.last(), 3) == k {
        rows.len() - 1
    } else {
        last_player_row(rows.drop_last(), k)
    }
}

proof fn lemma_last_player_row(rows: Seq<SheetRow>, k: Seq<char>)
    ensures
        -1 <= last_player_row(rows, k) < rows.len(),
        last_player_row(rows, k) >= 0 ==> rows[last_player_row(rows, k)] is Some,
    decreases rows.len(),
{
    if rows.len() > 0 {
        lemma_last_player_row(rows.drop_last(), k);
    }
}

/// The players of the player list by membership id; rows without cells are skipped and a
/// later row with the same membership id replaces an earlier one.
pub fn read_player_list(rows: &Vec<SheetRow>) -> (players: Vec<TextEntry<WorksheetPlayer>>)
    ensures
        text_keys_unique(players@),
        forall|k: Seq<char>| #[trigger] text_map(players@).dom().contains(k) <==> last_player_row(rows@, k) >= 0,
        forall|k: Seq<char>| #[trigger] text_map(players@).dom().contains(k) ==> player_of_row(
            text_map(players@)[k],
            rows@[last_player_row(rows@, k)],
        ),
{
    let mut players: Vec<TextEntry<WorksheetPlayer>> = Vec::new();
    let mut i: usize = 0;
    assert(text_map(players@) =~= Map::<Seq<char>, WorksheetPlayer>::empty());
    while i < rows.len()
        invariant
            i <= rows@.len(),
            text_keys_unique(players@),
            forall|k: Seq<char>| #[trigger] text_map(players@).dom().contains(k) <==> last_player_row(
                rows@.subrange(0, i as int),
                k,
            ) >= 0,
            forall|k: Seq<char>| #[trigger] text_map(players@).dom().contains(k) ==> player_of_row(
                text_map(players@)[k],
                rows@[last_player_row(rows@.subrange(0, i as int), k)],
            ),
        decreases rows@.len() - i,
    {
        let ghost pre = rows@.subrange(0, i as int);
        let ghost next = rows@.subrange(0, i + 1);
        assert(next.drop_last() =~= pre);
        assert(next.last() == rows@[i as int]);
        let row = &rows[i];
        if row.is_some() {
            let player = WorksheetPlayer {
                bungie_name: cell(row, 0),
                discord_name: cell(row, 1),
                discord_id: cell(row, 2),
                bungie_membership_id: cell(row, 3),
                bungie_platform: cell(row, 4),
            };
            let key = cell(row, 3);
            text_insert(&mut players, key, player);
        }
        proof {
            assert forall|k: Seq<char>| #[trigger] text_map(players@).dom().contains(k) implies player_of_row(
                text_map(players@)[k],
                rows@[last_player_row(next, k)],
            ) by {
                lemma_last_player_row(pre, k);
                if last_player_row(next, k) != i as int {
                    assert(last_player_row(next, k) == last_player_row(pre, k));
                    assert(pre[last_player_row(pre, k)] == rows@[last_player_row(pre, k)]);
                }
            }
        }
        i = i + 1;
    }
    assert(rows@.subrange(0, rows@.len() as int) =~= rows@);
    players
}

/// `m` is the member of a clan sheet member row.
pub open spec fn member_of_row(m: WorksheetClanMember, row: SheetRow) -> bool {
    &&& m.name@ == row_cell(row, 0)
    &&& m.bungie_id == i64_or_zero(row_cell(row, 1))
    &&& m.role == i64_or_zero(row_cell(row, 2))
    &&& m.last_online@ == row_cell(row, 3)
    &&& m.seasonal_activities == i64_or_zero(row_cell(row, 4))
    &&& m.frequent_clan_members@.map_values(|t: String| t@) == split_spec(row_cell(row, 5), ',')
}

/// Rows of a clan sheet before the member rows: name, group id and member count.
pub const CLAN_SHEET_HEADER_ROWS: usize = 3;

/// Position of the last member row (from the fourth row on) whose membership id is `id`,
/// -1 when there is none.
pub open spec fn last_member_row(rows: Seq<SheetRow>, id: i64) -> int
    decreases rows.len(),
{
    if rows.len() <= CLAN_SHEET_HEADER_ROWS {
        -1
    } else if i64_or_zero(row_cell(rows.last(), 1)) == id {
        rows.len() - 1
    } else {
        last_member_row(rows.drop_last(), id)
    }
}

proof fn lemma_last_member_row(rows: Seq<SheetRow>, id: i64)
    ensures
        last_member_row(rows, id) == -1 || (CLAN_SHEET_HEADER_ROWS <= last_member_row(rows, id) < rows.len()),
    decreases rows.len(),
{
    if rows.len() > CLAN_SHEET_HEADER_ROWS {
        lemma_last_member_row(rows.drop_last(), id);
    }
}

fn member_from_row(row: &SheetRow) -> (m: WorksheetClanMember)
    ensures
        member_of_row(m, *row),
{
    let name = cell(row, 0);
    let id_text = cell(row, 1);
    let role_text = cell(row, 2);
    let last_online = cell(row, 3);
    let activities_text = cell(row, 4);
    let frequent = cell(row, 5);
    let pieces = split(frequent.as_str(), ',');
    proof {
        assert(pieces@.map_values(|t: String| t@) =~= split_spec(frequent@, ','));
    }
    WorksheetClanMember {
        name,
        bungie_id: read_or_zero(id_text.as_str()),
        role: read_or_zero(role_text.as_str()),
        last_online,
        seasonal_activities: read_or_zero(activities_text.as_str()),
        frequent_clan_members: pieces,
    }
}

fn read_or_zero(s: &str) -> (r: i64)
    ensures
        r == i64_or_zero(s@),
{
    match parse_i64(s) {
        Some(v) => v,
        None => 0,
    }
}

/// Reads a clan sheet from its rows (those of `B1:B3` followed by those of `A6:F`): the
/// first row gives the name, the second the group id (0 when it does not read), the third
/// is the member count, and every further row is a member, by membership id, a later row
/// replacing an earlier one with the same id.
pub fn read_clan_sheet(rows: &Vec<SheetRow>) -> (clan: WorksheetClan)
    ensures
        clan.name@ == (if rows@.len() > 0 {
            row_cell(rows@[0], 0)
        } else {
            Seq::<char>::empty()
        }),
        clan.group_id == (if rows@.len() > 1 {
            i64_or_zero(row_cell(rows@[1], 0))
        } else {
            0
        }),
        id_keys_unique(clan.members@),
        forall|id: i64| #[trigger] id_map(clan.members@).dom().contains(id) <==> last_member_row(rows@, id) >= 0,
        forall|id: i64| #[trigger] id_map(clan.members@).dom().contains(id) ==> member_of_row(
            id_map(clan.members@)[id],
            rows@[last_member_row(rows@, id)],
        ),
        clan.members_sorted@.len() == 0,
{
    let name = if rows.len() > 0 {
        cell(&rows[0], 0)
    } else {
        String::new()
    };
    let group_id = if rows.len() > 1 {
        let text = cell(&rows[1], 0);
        read_or_zero(text.as_str())
    } else {
        0
    };
    let mut members: Vec<IdEntry<WorksheetClanMember>> = Vec::new();
    let mut i: usize = if rows.len() < CLAN_SHEET_HEADER_ROWS {
        rows.len()
    } else {
        CLAN_SHEET_HEADER_ROWS
    };
    assert(id_map(members@) =~= Map::<i64, WorksheetClanMember>::empty());
    proof {
        assert forall|id: i64| last_member_row(rows@.subrange(0, i as int), id) == -1 by {
            assert(rows@.subrange(0, i as int).len() <= CLAN_SHEET_HEADER_ROWS);
        }
    }
    while i < rows.len()
        invariant
            i <= rows@.len(),
            i >= CLAN_SHEET_HEADER_ROWS || i == rows@.len(),
            id_keys_unique(members@),
            forall|id: i64| #[trigger] id_map(members@).dom().contains(id) <==> last_member_row(
                rows@.subrange(0, i as int),
                id,
            ) >= 0,
            forall|id: i64| #[trigger] id_map(members@).dom().contains(id) ==> member_of_row(
                id_map(members@)[id],
                rows@[last_member_row(rows@.subrange(0, i as int), id)],
            ),
        decreases rows@.len() - i,
    {
        let ghost pre = rows@.subrange(0, i as int);
        let ghost next = rows@.subrange(0, i + 1);
        assert(next.drop_last() =~= pre);
        assert(next.last() == rows@[i as int]);
        let member = member_from_row(&rows[i]);
        let key = member.bungie_id;
        id_insert(&mut members, key, member);
        proof {
            assert(i >= CLAN_SHEET_HEADER_ROWS);
            assert forall|id: i64| #[trigger] id_map(members@).dom().contains(id) implies member_of_row(
                id_map(members@)[id],
                rows@[last_member_row(next, id)],
            ) by {
                lemma_last_member_row(pre, id);
                if last_member_row(next, id) != i as int {
                    assert(pre[last_member_row(pre, id)] == rows@[last_member_row(pre, id)]);
                }
            }
        }
        i = i + 1;
    }
    assert(rows@.subrange(0, rows@.len() as int) =~= rows@);
    WorksheetClan { name, group_id, members, members_sorted: Vec::new() }
}

// ---------------------------------------------------------------------------
// The workbook
// ---------------------------------------------------------------------------
/// A clan overview workbook: its players by membership id, its clan sheets by group id,
/// the season reports of its players by membership id, and the order the players are listed in.
#[derive(Debug)]
pub struct MasterWorkbook {
    pub sheet_id: String,
    pub season: String,
    pub last_updated: String,
    pub player_list: Vec<TextEntry<WorksheetPlayer>>,
    pub clans: Vec<IdEntry<WorksheetClan>>,
    pub player_reports: Vec<TextEntry<MemberReport>>,
    pub player_list_sorted: Vec<String>,
}

impl MasterWorkbook {
    /// Distinct keys in every map, and in every clan's members.
    pub open spec fn wf(&self) -> bool {
        &&& text_keys_unique(self.player_list@)
        &&& id_keys_unique(self.clans@)
        &&& text_keys_unique(self.player_reports@)
        &&& forall|i: int| 0 <= i < self.clans@.len() ==> id_keys_unique(#[trigger] self.clans@[i].value.members@)
    }

    pub open spec fn players(&self) -> Map<Seq<char>, WorksheetPlayer> {
        text_map(self.player_list@)
    }

    pub open spec fn clan_map(&self) -> Map<i64, WorksheetClan> {
        id_map(self.clans@)
    }

    /// An empty workbook for the spreadsheet `sheet_id`.
    pub fn new(sheet_id: &str) -> (r: MasterWorkbook)
        ensures
            r.wf(),
            r.sheet_id@ == sheet_id@,
            r.season@.len() == 0,
            r.last_updated@.len() == 0,
            r.player_list@.len() == 0,
            r.clans@.len() == 0,
            r.player_reports@.len() == 0,
            r.player_list_sorted@.len() == 0,
    {
        MasterWorkbook {
            sheet_id: String::from_str(sheet_id),
            season: String::new(),
            last_updated: String::new(),
            player_list: Vec::new(),
            clans: Vec::new(),
            player_reports: Vec::new(),
            player_list_sorted: Vec::new(),
        }
    }

    pub fn get_players(&self) -> (r: &Vec<TextEntry<WorksheetPlayer>>)
        ensures
            r == &self.player_list,
    {
        &self.player_list
    }

    pub fn get_clans(&self) -> (r: &Vec<IdEntry<WorksheetClan>>)
        ensures
            r == &self.clans,
    {
        &self.clans
    }

    pub fn get_sheet_id(&self) -> (r: &str)
        ensures
            r@ == self.sheet_id@,
    {
        self.sheet_id.as_str()
    }

    /// Replaces the players and clans with those read from the player list rows and the
    /// rows of each clan sheet, in order (a later sheet with the same group id replaces
    /// an earlier one).
    pub fn load_sheets(&mut self, player_rows: &Vec<SheetRow>, clan_sheets: &Vec<Vec<SheetRow>>)
        requires
            old(self).wf(),
        ensures
            final(self).wf(),
            forall|k: Seq<char>| #[trigger] final(self).players().dom().contains(k) <==> last_player_row(player_rows@, k) >= 0,
            forall|k: Seq<char>| #[trigger] final(self).players().dom().contains(k) ==> player_of_row(
                final(self).players()[k],
                player_rows@[last_player_row(player_rows@, k)],
            ),
            forall|g: i64| #[trigger] final(self).clan_map().dom().contains(g) <==> exists|j: int|
                0 <= j < clan_sheets@.len() && #[trigger] sheet_group_id(clan_sheets@[j]@) == g,
            forall|g: i64| #[trigger] final(self).clan_map().dom().contains(g) ==> clan_of_sheet(
                final(self).clan_map()[g],
                clan_sheets@[last_sheet_with_group(clan_sheets@, g)]@,
            ),
            final(self).sheet_id == old(self).sheet_id,
            final(self).season == old(self).season,
            final(self).last_updated == old(self).last_updated,
            final(self).player_reports == old(self).player_reports,
            final(self).player_list_sorted == old(self).player_list_sorted,
    {
        self.player_list = read_player_list(player_rows);
        let mut clans: Vec<IdEntry<WorksheetClan>> = Vec::new();
        let mut i: usize = 0;
        assert(id_map(clans@) =~= Map::<i64, WorksheetClan>::empty());
        while i < clan_sheets.len()
            invariant
                i <= clan_sheets@.len(),
                id_keys_unique(clans@),
                forall|q: int| 0 <= q < clans@.len() ==> id_keys_unique(#[trigger] clans@[q].value.members@),
                forall|g: i64| #[trigger] id_map(clans@).dom().contains(g) <==> exists|j: int|
                    0 <= j < i && #[trigger] sheet_group_id(clan_sheets@[j]@) == g,
                forall|g: i64| #[trigger] id_map(clans@).dom().contains(g) ==> clan_of_sheet(
                    id_map(clans@)[g],
                    clan_sheets@[last_sheet_with_group(clan_sheets@.subrange(0, i as int), g)]@,
                ),
            decreases clan_sheets@.len() - i,
        {
            let ghost pre = clan_sheets@.subrange(0, i as int);
            let ghost next = clan_sheets@.subrange(0, i + 1);
            let ghost before = clans@;
            assert(next.drop_last() =~= pre);
            let clan = read_clan_sheet(&clan_sheets[i]);
            let ghost cg = clan;
            let key = clan.group_id;
            id_insert(&mut clans, key, clan);
            proof {
                assert(clan_of_sheet(cg, clan_sheets@[i as int]@));
                assert(sheet_group_id(clan_sheets@[i as int]@) == key);
                assert forall|q: int| 0 <= q < clans@.len() implies id_keys_unique(#[trigger] clans@[q].value.members@) by {
                    lemma_id_map_at(clans@, q);
                    let g = clans@[q].key;
                    if g != key {
                        lemma_id_map_dom(before, g);
                        let w = choose|w: int| 0 <= w < before.len() && #[trigger] before[w].key == g;
                        lemma_id_map_at(before, w);
                    }
                }
                assert forall|g: i64| #[trigger] id_map(clans@).dom().contains(g) <==> exists|j: int|
                    0 <= j < i + 1 && #[trigger] sheet_group_id(clan_sheets@[j]@) == g by {
                    if g == key {
                        assert(sheet_group_id(clan_sheets@[i as int]@) == g);
                    } else if exists|j: int| 0 <= j < i + 1 && #[trigger] sheet_group_id(clan_sheets@[j]@) == g {
                        let j = choose|j: int| 0 <= j < i + 1 && #[trigger] sheet_group_id(clan_sheets@[j]@) == g;
                        assert(j < i);
                    }
                }
                assert forall|g: i64| #[trigger] id_map(clans@).dom().contains(g) implies clan_of_sheet(
                    id_map(clans@)[g],
                    clan_sheets@[last_sheet_with_group(next, g)]@,
                ) by {
                    assert(next.last() == clan_sheets@[i as int]);
                    lemma_last_sheet_with_group(pre, g);
                }
            }
            i = i + 1;
        }
        assert(clan_sheets@.subrange(0, clan_sheets@.len() as int) =~= clan_sheets@);
        self.clans = clans;
    }

    /// Sets the name of a clan sheet (`entry(clan_id).and_modify(..)`): nothing when the
    /// workbook has no sheet for the clan.
    pub fn set_clan_name(&mut self, clan_id: i64, name: String)
        requires
            old(self).wf(),
        ensures
            final(self).wf(),
            final(self).clan_map().dom() == old(self).clan_map().dom(),
            forall|g: i64| g != clan_id && #[trigger] final(self).clan_map().dom().contains(g) ==> final(self).clan_map()[g]
                == old(self).clan_map()[g],
            old(self).clan_map().dom().contains(clan_id) ==> {
                let before = old(self).clan_map()[clan_id];
                let after = final(self).clan_map()[clan_id];
                &&& after.name == name
                &&& after.group_id == before.group_id
                &&& after.members == before.members
                &&& after.members_sorted == before.members_sorted
            },
            final(self).player_list == old(self).player_list,
            final(self).player_reports == old(self).player_reports,
            final(self).player_list_sorted == old(self).player_list_sorted,
    {
        let ghost before = self.clans@;
        match id_find(&self.clans, clan_id) {
            None => {
                proof {
                    lemma_id_map_dom(before, clan_id);
                }
            },
            Some(i) => {
                let mut entry = self.clans.remove(i);
                entry.value.name = name;
                let ghost ng = entry;
                self.clans.insert(i, entry);
                proof {
                    assert(self.clans@ =~= before.update(i as int, ng));
                    lemma_id_map_at(before, i as int);
                    lemma_id_map_update(before, i as int, ng);
                    assert(id_keys_unique(before[i as int].value.members@));
                    assert forall|q: int| 0 <= q < self.clans@.len() implies id_keys_unique(#[trigger] self.clans@[q].value.members@) by {
                        if q != i {
                            assert(self.clans@[q] == before[q]);
                        }
                    }
                    assert(final(self).clan_map().dom() =~= old(self).clan_map().dom());
                }
            },
        }
    }
}

/// The group id a clan sheet's rows give.
pub open spec fn sheet_group_id(rows: Seq<SheetRow>) -> i64 {
    if rows.len() > 1 {
        i64_or_zero(row_cell(rows[1], 0))
    } else {
        0
    }
}

/// `c` is the clan read from a clan sheet's rows.
pub open spec fn clan_of_sheet(c: WorksheetClan, rows: Seq<SheetRow>) -> bool {
    &&& c.name@ == (if rows.len() > 0 {
        row_cell(rows[0], 0)
    } else {
        Seq::<char>::empty()
    })
    &&& c.group_id == sheet_group_id(rows)
    &&& id_keys_unique(c.members@)
    &&& forall|id: i64| #[trigger] id_map(c.members@).dom().contains(id) <==> last_member_row(rows, id) >= 0
    &&& forall|id: i64| #[trigger] id_map(c.members@).dom().contains(id) ==> member_of_row(
        id_map(c.members@)[id],
        rows[last_member_row(rows, id)],
    )
    &&& c.members_sorted@.len() == 0
}

/// Position of the last sheet whose group id is `g`, -1 when none.
pub open spec fn last_sheet_with_group(sheets: Seq<Vec<SheetRow>>, g: i64) -> int
    decreases sheets.len(),
{
    if sheets.len() == 0 {
        -1
    } else if sheet_group_id(sheets.last()@) == g {
        sheets.len() - 1
    } else {
        last_sheet_with_group(sheets.drop_last(), g)
    }
}

proof fn lemma_last_sheet_with_group(sheets: Seq<Vec<SheetRow>>, g: i64)
    ensures
        -1 <= last_sheet_with_group(sheets, g) < sheets.len(),
        last_sheet_with_group(sheets, g) >= 0 ==> sheet_group_id(sheets[last_sheet_with_group(sheets, g)]@) == g,
        last_sheet_with_group(sheets, g) == -1 ==> forall|j: int| 0 <= j < sheets.len() ==> #[trigger] sheet_group_id(sheets[j]@) != g,
    decreases sheets.len(),
{
    if sheets.len() > 0 {
        lemma_last_sheet_with_group(sheets.drop_last(), g);
        assert forall|j: int| 0 <= j < sheets.len() - 1 implies sheets.drop_last()[j] == sheets[j] by {}
    }
}

// ---------------------------------------------------------------------------
// Bringing the workbook up to date
// ---------------------------------------------------------------------------
/// Position of the last roster entry whose membership id has the decimal text `k`, -1 when none.
pub open spec fn last_roster_key(roster: Seq<MemberResult>, k: Seq<char>) -> int
    decreases roster.len(),
{
    if roster.len() == 0 {
        -1
    } else if int_text(roster.last().membership_id as int) == k {
        roster.len() - 1
    } else {
        last_roster_key(roster.drop_last(), k)
    }
}

/// Position of the last roster entry with membership id `id`, -1 when none.
pub open spec fn last_roster_id(roster: Seq<MemberResult>, id: i64) -> int
    decreases roster.len(),
{
    if roster.len() == 0 {
        -1
    } else if roster.last().membership_id == id {
        roster.len() - 1
    } else {
        last_roster_id(roster.drop_last(), id)
    }
}

proof fn lemma_last_roster(roster: Seq<MemberResult>, k: Seq<char>, id: i64)
    ensures
        -1 <= last_roster_key(roster, k) < roster.len(),
        last_roster_key(roster, k) >= 0 ==> int_text(roster[last_roster_key(roster, k)].membership_id as int) == k,
        -1 <= last_roster_id(roster, id) < roster.len(),
        last_roster_id(roster, id) >= 0 ==> roster[last_roster_id(roster, id)].membership_id == id,
    decreases roster.len(),
{
    if roster.len() > 0 {
        lemma_last_roster(roster.drop_last(), k, id);
    }
}

/// `p` is the player the roster entry `r` makes of the player `k` of `before`: the Bungie
/// name and platform come from the roster; the Discord fields and the membership id stay,
/// or are empty and `k` for a player the list did not have.
pub open spec fn roster_player(p: WorksheetPlayer, before: Map<Seq<char>, WorksheetPlayer>, k: Seq<char>, r: MemberResult) -> bool {
    &&& p.bungie_name@ == r.display_name_global@
    &&& p.bungie_platform@ == int_text(r.platform as int)
    &&& if before.dom().contains(k) {
        &&& p.discord_name == before[k].discord_name
        &&& p.discord_id == before[k].discord_id
        &&& p.bungie_membership_id == before[k].bungie_membership_id
    } else {
        &&& p.discord_name@ == Seq::<char>::empty()
        &&& p.discord_id@ == Seq::<char>::empty()
        &&& p.bungie_membership_id@ == k
    }
}

/// `m` is the clan sheet member the roster entry `r` makes.
pub open spec fn roster_member(m: WorksheetClanMember, r: MemberResult) -> bool {
    &&& m.name@ == r.display_name_global@
    &&& m.bungie_id == r.membership_id
    &&& m.role == r.clan_group_role as i64
    &&& m.last_online@ == utc_datetime_text(r.last_played_at as int)
    &&& m.seasonal_activities == 0
    &&& m.frequent_clan_members@.len() == 0
}

/// Every last played time of the roster is one the workbook can write.
pub open spec fn roster_times_fit(roster: Seq<MemberResult>) -> bool {
    forall|j: int| 0 <= j < roster.len() ==> #[trigger] roster[j].last_played_at <= LATEST_TIME
}

impl MasterWorkbook {
    /// Replaces the members of the clan sheet `clan_id` with the clan's roster, and adds
    /// or updates the roster's players in the player list; nothing when the workbook has no
    /// sheet for the clan.
    pub fn apply_roster(&mut self, clan_id: i64, roster: &Vec<MemberResult>)
        requires
            old(self).wf(),
            roster_times_fit(roster@),
        ensures
            final(self).wf(),
            !old(self).clan_map().dom().contains(clan_id) ==> final(self).clans == old(self).clans
                && final(self).player_list == old(self).player_list,
            old(self).clan_map().dom().contains(clan_id) ==> {
                let before = old(self).clan_map()[clan_id];
                let after = final(self).clan_map()[clan_id];
                &&& final(self).clan_map().dom() == old(self).clan_map().dom()
                &&& forall|g: i64| g != clan_id && #[trigger] final(self).clan_map().dom().contains(g)
                    ==> final(self).clan_map()[g] == old(self).clan_map()[g]
                &&& after.name == before.name
                &&& after.group_id == before.group_id
                &&& after.members_sorted == before.members_sorted
                &&& forall|id: i64| #[trigger] id_map(after.members@).dom().contains(id) <==> last_roster_id(roster@, id) >= 0
                &&& forall|id: i64| #[trigger] id_map(after.members@).dom().contains(id) ==> roster_member(
                    id_map(after.members@)[id],
                    roster@[last_roster_id(roster@, id)],
                )
                &&& forall|k: Seq<char>| #[trigger] final(self).players().dom().contains(k) <==> (old(self).players().dom().contains(k)
                    || last_roster_key(roster@, k) >= 0)
                &&& forall|k: Seq<char>| #[trigger] final(self).players().dom().contains(k) ==> if last_roster_key(roster@, k) >= 0 {
                    roster_player(final(self).players()[k], old(self).players(), k, roster@[last_roster_key(roster@, k)])
                } else {
                    final(self).players()[k] == old(self).players()[k]
                }
            },
            final(self).player_reports == old(self).player_reports,
            final(self).player_list_sorted == old(self).player_list_sorted,
            final(self).sheet_id == old(self).sheet_id,
    {
        let ghost before_clans = self.clans@;
        let ghost before_players = text_map(self.player_list@);
        let found = id_find(&self.clans, clan_id);
        match found {
            None => {
                proof {
                    lemma_id_map_dom(before_clans, clan_id);
                }
            },
            Some(i) => {
                proof {
                    lemma_id_map_at(before_clans, i as int);
                }
                let mut players: Vec<TextEntry<WorksheetPlayer>> = Vec::new();
                std::mem::swap(&mut players, &mut self.player_list);
                let members = roster_update(&mut players, roster, Ghost(before_players));
                self.player_list = players;
                let mut entry = self.clans.remove(i);
                entry.value.members = members;
                let ghost ng = entry;
                self.clans.insert(i, entry);
                proof {
                    assert(self.clans@ =~= before_clans.update(i as int, ng));
                    lemma_id_map_update(before_clans, i as int, ng);
                    assert forall|q: int| 0 <= q < self.clans@.len() implies id_keys_unique(#[trigger] self.clans@[q].value.members@) by {
                        if q != i {
                            assert(self.clans@[q] == before_clans[q]);
                        }
                    }
                    assert(final(self).clan_map().dom() =~= old(self).clan_map().dom());
                }
            },
        }
    }
}

/// The roster's players added to or updated in `players`, and the clan members the roster gives.
fn roster_update(
    players: &mut Vec<TextEntry<WorksheetPlayer>>,
    roster: &Vec<MemberResult>,
    Ghost(before_players): Ghost<Map<Seq<char>, WorksheetPlayer>>,
) -> (members: Vec<IdEntry<WorksheetClanMember>>)
    requires
        text_keys_unique(old(players)@),
        text_map(old(players)@) == before_players,
        roster_times_fit(roster@),
    ensures
        text_keys_unique(final(players)@),
        id_keys_unique(members@),
        forall|id: i64| #[trigger] id_map(members@).dom().contains(id) <==> last_roster_id(roster@, id) >= 0,
        forall|id: i64| #[trigger] id_map(members@).dom().contains(id) ==> roster_member(
            id_map(members@)[id],
            roster@[last_roster_id(roster@, id)],
        ),
        forall|k: Seq<char>| #[trigger] text_map(final(players)@).dom().contains(k) <==> (before_players.dom().contains(k)
            || last_roster_key(roster@, k) >= 0),
        forall|k: Seq<char>| #[trigger] text_map(final(players)@).dom().contains(k) ==> if last_roster_key(roster@, k) >= 0 {
            roster_player(text_map(final(players)@)[k], before_players, k, roster@[last_roster_key(roster@, k)])
        } else {
            text_map(final(players)@)[k] == before_players[k]
        },
{
        let mut members: Vec<IdEntry<WorksheetClanMember>> = Vec::new();
        assert(id_map(members@) =~= Map::<i64, WorksheetClanMember>::empty());
        let mut j: usize = 0;
        while j < roster.len()
            invariant
                j <= roster@.len(),
                roster_times_fit(roster@),
                text_keys_unique(players@),
                id_keys_unique(members@),
                forall|id: i64| #[trigger] id_map(members@).dom().contains(id) <==> last_roster_id(roster@.subrange(0, j as int), id) >= 0,
                forall|id: i64| #[trigger] id_map(members@).dom().contains(id) ==> roster_member(
                    id_map(members@)[id],
                    roster@[last_roster_id(roster@.subrange(0, j as int), id)],
                ),
                forall|k: Seq<char>| #[trigger] text_map(players@).dom().contains(k) <==> (before_players.dom().contains(k)
                    || last_roster_key(roster@.subrange(0, j as int), k) >= 0),
                forall|k: Seq<char>| #[trigger] text_map(players@).dom().contains(k) ==> if last_roster_key(roster@.subrange(0, j as int), k) >= 0 {
                    roster_player(text_map(players@)[k], before_players, k, roster@[last_roster_key(roster@.subrange(0, j as int), k)])
                } else {
                    text_map(players@)[k] == before_players[k]
                },
            decreases roster@.len() - j,
        {
            let ghost pre = roster@.subrange(0, j as int);
            let ghost next = roster@.subrange(0, j + 1);
            assert(next.drop_last() =~= pre);
            let r = &roster[j];
            assert(next.last() == *r);
            let key = i64_text(r.membership_id);
            let platform = i64_text(r.platform as i64);
            let ghost players_before = players@;
            match text_find(players, key.as_str()) {
                Some(p) => {
                    let old_player = players[p].value.clone();
                    let updated = TextEntry {
                        key: key.clone(),
                        value: WorksheetPlayer {
                            bungie_name: r.display_name_global.clone(),
                            discord_name: old_player.discord_name,
                            discord_id: old_player.discord_id,
                            bungie_membership_id: old_player.bungie_membership_id,
                            bungie_platform: platform,
                        },
                    };
                    let ghost ug = updated;
                    players.set(p, updated);
                    proof {
                        lemma_text_map_at(players_before, p as int);
                        lemma_text_map_update(players_before, p as int, ug);
                    }
                },
                None => {
                    let fresh = WorksheetPlayer {
                        bungie_name: r.display_name_global.clone(),
                        discord_name: String::new(),
                        discord_id: String::new(),
                        bungie_membership_id: key.clone(),
                        bungie_platform: platform,
                    };
                    proof {
                        lemma_text_map_dom(players_before, key@);
                    }
                    text_insert(players, key.clone(), fresh);
                },
            }
            let last_online = datetime_text(r.last_played_at as i64);
            let member = WorksheetClanMember {
                name: r.display_name_global.clone(),
                bungie_id: r.membership_id,
                role: r.clan_group_role as i64,
                last_online,
                seasonal_activities: 0,
                frequent_clan_members: Vec::new(),
            };
            id_insert(&mut members, r.membership_id, member);
            proof {
                assert forall|k: Seq<char>| #[trigger] text_map(players@).dom().contains(k) implies if last_roster_key(next, k) >= 0 {
                    roster_player(text_map(players@)[k], before_players, k, roster@[last_roster_key(next, k)])
                } else {
                    text_map(players@)[k] == before_players[k]
                } by {
                    lemma_last_roster(pre, k, 0);
                    if k != key@ {
                        if last_roster_key(pre, k) >= 0 {
                            assert(pre[last_roster_key(pre, k)] == roster@[last_roster_key(pre, k)]);
                        }
                    } else {
                        assert(last_roster_key(next, k) == j as int);
                        if last_roster_key(pre, k) >= 0 {
                            assert(pre[last_roster_key(pre, k)] == roster@[last_roster_key(pre, k)]);
                        }
                    }
                }
                assert forall|id: i64| #[trigger] id_map(members@).dom().contains(id) implies roster_member(
                    id_map(members@)[id],
                    roster@[last_roster_id(next, id)],
                ) by {
                    lemma_last_roster(pre, seq![], id);
                    if id != r.membership_id {
                        assert(pre[last_roster_id(pre, id)] == roster@[last_roster_id(pre, id)]);
                    }
                }
            }
            j = j + 1;
        }
        assert(roster@.subrange(0, roster@.len() as int) =~= roster@);
        members
}

// ---------------------------------------------------------------------------
// Discord names
// ---------------------------------------------------------------------------
/// A Discord user as Discord's API returns it.
#[derive(Debug)]
pub struct DiscordUserResponse {
    pub id: Option<String>,
    pub username: Option<String>,
    pub discriminator: Option<String>,
    pub avatar: Option<String>,
    pub global_name: Option<String>,
    pub display_name: Option<String>,
}

/// The first present of the user name, display name and global name, else `current`.
pub open spec fn discord_base_name(u: DiscordUserResponse, current: Seq<char>) -> Seq<char> {
    match u.username {
        Some(n) => n@,
        None => match u.display_name {
            Some(n) => n@,
            None => match u.global_name {
                Some(n) => n@,
                None => current,
            },
        },
    }
}

/// The Discord name of a player: the base name, followed by `#` and the discriminator
/// when the user has one other than `0`.
pub open spec fn discord_name_spec(u: DiscordUserResponse, current: Seq<char>) -> Seq<char> {
    let d = text_of(u.discriminator);
    if d == seq!['0'] || d.len() == 0 {
        discord_base_name(u, current)
    } else {
        discord_base_name(u, current) + seq!['#'] + d
    }
}

/// The Discord name to list for a player whose listed name is `current`.
pub fn discord_display_name(current: &str, user: &DiscordUserResponse) -> (r: String)
    ensures
        r@ == discord_name_spec(*user, current@),
{
    let base = match &user.username {
        Some(n) => n.clone(),
        None => match &user.display_name {
            Some(n) => n.clone(),
            None => match &user.global_name {
                Some(n) => n.clone(),
                None => String::from_str(current),
            },
        },
    };
    let discriminator = match &user.discriminator {
        Some(d) => d.clone(),
        None => String::new(),
    };
    proof {
        reveal_strlit("0");
        assert("0"@ =~= seq!['0']);
        reveal_strlit("#");
        assert("#"@ =~= seq!['#']);
    }
    if crate::text::equals(discriminator.as_str(), "0") || discriminator.as_str().unicode_len() == 0 {
        base
    } else {
        let mut name = base;
        name.append("#");
        name.append(discriminator.as_str());
        name
    }
}

/// A player's Discord user is looked up when the player has a Discord id.
pub fn needs_discord_lookup(player: &WorksheetPlayer) -> (r: bool)
    ensures
        r == (trim_spec(player.discord_id@).len() > 0),
{
    let id = trim(player.discord_id.as_str());
    id.as_str().unicode_len() > 0
}

impl MasterWorkbook {
    /// Sets the Discord name of the player `key`.
    pub fn set_discord_name(&mut self, key: &str, name: String)
        requires
            old(self).wf(),
        ensures
            final(self).wf(),
            final(self).players().dom() == old(self).players().dom(),
            forall|k: Seq<char>| k != key@ && #[trigger] final(self).players().dom().contains(k)
                ==> final(self).players()[k] == old(self).players()[k],
            old(self).players().dom().contains(key@) ==> {
                let before = old(self).players()[key@];
                let after = final(self).players()[key@];
                &&& after.discord_name == name
                &&& after.bungie_name == before.bungie_name
                &&& after.discord_id == before.discord_id
                &&& after.bungie_membership_id == before.bungie_membership_id
                &&& after.bungie_platform == before.bungie_platform
            },
            final(self).clans == old(self).clans,
            final(self).player_reports == old(self).player_reports,
            final(self).player_list_sorted == old(self).player_list_sorted,
            final(self).sheet_id == old(self).sheet_id,
    {
        let ghost before = self.player_list@;
        match text_find(&self.player_list, key) {
            None => {
                proof {
                    lemma_text_map_dom(before, key@);
                }
            },
            Some(p) => {
                let old_player = self.player_list[p].value.clone();
                let k = self.player_list[p].key.clone();
                let updated = TextEntry {
                    key: k,
                    value: WorksheetPlayer {
                        bungie_name: old_player.bungie_name,
                        discord_name: name,
                        discord_id: old_player.discord_id,
                        bungie_membership_id: old_player.bungie_membership_id,
                        bungie_platform: old_player.bungie_platform,
                    },
                };
                let ghost ug = updated;
                self.player_list.set(p, updated);
                proof {
                    lemma_text_map_at(before, p as int);
                    lemma_text_map_update(before, p as int, ug);
                    assert(final(self).players().dom() =~= old(self).players().dom());
                }
            },
        }
    }
}

// ---------------------------------------------------------------------------
// Order of the lists
// ---------------------------------------------------------------------------
impl Ordered for WorksheetPlayer {
    /// Players are listed by Bungie name.
    open spec fn before(&self, other: &Self) -> bool {
        lex_le(self.bungie_name@, other.bungie_name@)
    }

    proof fn lemma_total(a: &Self, b: &Self) {
        lemma_lex_total(a.bungie_name@, b.bungie_name@);
    }

    fn is_before(&self, other: &Self) -> (r: bool) {
        text_le(self.bungie_name.as_str(), other.bungie_name.as_str())
    }
}

/// What clan members are ordered by.
#[derive(Debug)]
pub struct MemberKey {
    pub role: i64,
    pub name: String,
    pub bungie_id: i64,
}

impl Ordered for MemberKey {
    /// Members are listed by descending role, then by name.
    open spec fn before(&self, other: &Self) -> bool {
        self.role > other.role || (self.role == other.role && lex_le(self.name@, other.name@))
    }

    proof fn lemma_total(a: &Self, b: &Self) {
        lemma_lex_total(a.name@, b.name@);
    }

    fn is_before(&self, other: &Self) -> (r: bool) {
        self.role > other.role || (self.role == other.role && text_le(self.name.as_str(), other.name.as_str()))
    }
}

/// The players of a list, in its order.
pub open spec fn player_values(s: Seq<TextEntry<WorksheetPlayer>>) -> Seq<WorksheetPlayer> {
    s.map_values(|e: TextEntry<WorksheetPlayer>| e.value)
}

/// The order keys of the members of a clan, in its order.
pub open spec fn member_keys(s: Seq<IdEntry<WorksheetClanMember>>) -> Seq<MemberKey> {
    s.map_values(|e: IdEntry<WorksheetClanMember>| MemberKey { role: e.value.role, name: e.value.name, bungie_id: e.value.bungie_id })
}

/// `ids` are the membership ids of the players, ordered by Bungie name.
pub open spec fn players_in_order(ids: Seq<String>, players: Seq<TextEntry<WorksheetPlayer>>) -> bool {
    exists|order: Seq<WorksheetPlayer>|
        #![trigger order.to_multiset()]
        {
            &&& order.to_multiset() == player_values(players).to_multiset()
            &&& sorted_by(order)
            &&& ids.len() == order.len()
            &&& forall|i: int| 0 <= i < ids.len() ==> (#[trigger] ids[i])@ == order[i].bungie_membership_id@
        }
}

/// `ids` are the membership ids of the members, by descending role, then by name.
pub open spec fn members_in_order(ids: Seq<i64>, members: Seq<IdEntry<WorksheetClanMember>>) -> bool {
    exists|order: Seq<MemberKey>|
        #![trigger order.to_multiset()]
        {
            &&& order.to_multiset() == member_keys(members).to_multiset()
            &&& sorted_by(order)
            &&& ids.len() == order.len()
            &&& forall|i: int| 0 <= i < ids.len() ==> #[trigger] ids[i] == order[i].bungie_id
        }
}

/// The membership ids of the players, ordered by Bungie name.
fn order_players(players: &Vec<TextEntry<WorksheetPlayer>>) -> (ids: Vec<String>)
    ensures
        players_in_order(ids@, players@),
{
    let mut values: Vec<WorksheetPlayer> = Vec::new();
    let mut i: usize = 0;
    while i < players.len()
        invariant
            i <= players@.len(),
            values@ == player_values(players@).subrange(0, i as int),
        decreases players@.len() - i,
    {
        values.push(players[i].value.clone());
        assert(values@ =~= player_values(players@).subrange(0, i + 1));
        i = i + 1;
    }
    assert(player_values(players@).subrange(0, players@.len() as int) =~= player_values(players@));
    let order = sort_by_order(values);
    let mut ids: Vec<String> = Vec::new();
    let mut k: usize = 0;
    while k < order.len()
        invariant
            k <= order@.len(),
            ids@.len() == k,
            forall|q: int| 0 <= q < k ==> (#[trigger] ids@[q])@ == order@[q].bungie_membership_id@,
        decreases order@.len() - k,
    {
        let ghost prev = ids@;
        ids.push(order[k].bungie_membership_id.clone());
        assert(forall|q: int| 0 <= q < k ==> ids@[q] == prev[q]);
        k = k + 1;
    }
    assert(order@.to_multiset() == player_values(players@).to_multiset());
    ids
}

/// The membership ids of the members, by descending role, then by name.
fn order_members(members: &Vec<IdEntry<WorksheetClanMember>>) -> (ids: Vec<i64>)
    ensures
        members_in_order(ids@, members@),
{
    let mut values: Vec<MemberKey> = Vec::new();
    let mut i: usize = 0;
    while i < members.len()
        invariant
            i <= members@.len(),
            values@ == member_keys(members@).subrange(0, i as int),
        decreases members@.len() - i,
    {
        let m = &members[i].value;
        values.push(MemberKey { role: m.role, name: m.name.clone(), bungie_id: m.bungie_id });
        assert(values@ =~= member_keys(members@).subrange(0, i + 1));
        i = i + 1;
    }
    assert(member_keys(members@).subrange(0, members@.len() as int) =~= member_keys(members@));
    let order = sort_by_order(values);
    let mut ids: Vec<i64> = Vec::new();
    let mut k: usize = 0;
    while k < order.len()
        invariant
            k <= order@.len(),
            ids@.len() == k,
            forall|q: int| 0 <= q < k ==> #[trigger] ids@[q] == order@[q].bungie_id,
        decreases order@.len() - k,
    {
        ids.push(order[k].bungie_id);
        k = k + 1;
    }
    assert(order@.to_multiset() == member_keys(members@).to_multiset());
    ids
}

impl MasterWorkbook {
    /// Orders the player list by Bungie name and every clan's members by descending role,
    /// then by name.
    pub fn sort_lists(&mut self)
        requires
            old(self).wf(),
        ensures
            final(self).wf(),
            players_in_order(final(self).player_list_sorted@, old(self).player_list@),
            final(self).clans@.len() == old(self).clans@.len(),
            forall|q: int| 0 <= q < final(self).clans@.len() ==> {
                let before = old(self).clans@[q];
                let after = #[trigger] final(self).clans@[q];
                &&& after.key == before.key
                &&& after.value.name == before.value.name
                &&& after.value.group_id == before.value.group_id
                &&& after.value.members == before.value.members
                &&& members_in_order(after.value.members_sorted@, before.value.members@)
            },
            final(self).player_list == old(self).player_list,
            final(self).player_reports == old(self).player_reports,
            final(self).sheet_id == old(self).sheet_id,
    {
        self.player_list_sorted = order_players(&self.player_list);
        let mut clans: Vec<IdEntry<WorksheetClan>> = Vec::new();
        std::mem::swap(&mut clans, &mut self.clans);
        let ghost before = clans@;
        let n = clans.len();
        let mut i: usize = 0;
        while i < n
            invariant
                n == before.len(),
                clans@.len() == n,
                i <= n,
                forall|q: int| i <= q < n ==> #[trigger] clans@[q] == before[q],
                forall|q: int| 0 <= q < i ==> {
                    let b = before[q];
                    let a = #[trigger] clans@[q];
                    &&& a.key == b.key
                    &&& a.value.name == b.value.name
                    &&& a.value.group_id == b.value.group_id
                    &&& a.value.members == b.value.members
                    &&& members_in_order(a.value.members_sorted@, b.value.members@)
                },
            decreases n - i,
        {
            let mut entry = clans.remove(i);
            assert(entry == before[i as int]);
            let order = order_members(&entry.value.members);
            entry.value.members_sorted = order;
            let ghost prev = clans@;
            clans.insert(i, entry);
            proof {
                assert forall|q: int| i < q < n implies #[trigger] clans@[q] == before[q] by {
                    assert(clans@[q] == prev[q - 1]);
                }
            }
            i = i + 1;
        }
        proof {
            assert forall|a: int, b: int| 0 <= a < b < clans@.len() implies #[trigger] clans@[a].key != #[trigger] clans@[b].key by {
                assert(before[a].key != before[b].key);
            }
            assert forall|q: int| 0 <= q < clans@.len() implies id_keys_unique(#[trigger] clans@[q].value.members@) by {
                assert(id_keys_unique(before[q].value.members@));
            }
        }
        self.clans = clans;
    }
}

// ---------------------------------------------------------------------------
// Writing the workbook
// ---------------------------------------------------------------------------
/// The range of the player list's rows.
pub const PLAYER_LIST_RANGE: &'static str = "'Player List'!A2:E";

/// The range of a clan sheet's member rows: `'[Clan] {name}'!A6:F`.
pub open spec fn clan_range_spec(name: Seq<char>) -> Seq<char> {
    "'[Clan] "@ + name + "'!A6:F"@
}

/// The range of a clan sheet's member rows.
pub fn clan_range(name: &str) -> (r: String)
    ensures
        r@ == clan_range_spec(name@),
{
    let mut range = String::from_str("'[Clan] ");
    range.append(name);
    range.append("'!A6:F");
    range
}

/// The ranges the clan sheets and the player list take their rows from: one per clan
/// sheet, in the workbook's order, then the player list's.
pub open spec fn sheet_ranges_spec(clans: Seq<IdEntry<WorksheetClan>>) -> Seq<Seq<char>> {
    clans.map_values(|e: IdEntry<WorksheetClan>| clan_range_spec(e.value.name@)).push(PLAYER_LIST_RANGE@)
}

/// The ranges cleared before the workbook is written.
pub fn clear_ranges(clans: &Vec<IdEntry<WorksheetClan>>) -> (r: Vec<String>)
    ensures
        r@.map_values(|t: String| t@) == sheet_ranges_spec(clans@),
{
    let mut out: Vec<String> = Vec::new();
    let mut i: usize = 0;
    while i < clans.len()
        invariant
            i <= clans@.len(),
            out@.map_values(|t: String| t@) == clans@.subrange(0, i as int).map_values(
                |e: IdEntry<WorksheetClan>| clan_range_spec(e.value.name@),
            ),
        decreases clans@.len() - i,
    {
        let ghost prev = out@;
        let range = clan_range(clans[i].value.name.as_str());
        let ghost rv = range@;
        out.push(range);
        proof {
            assert(out@.map_values(|t: String| t@) =~= prev.map_values(|t: String| t@).push(rv));
            assert(clans@.subrange(0, i + 1).map_values(|e: IdEntry<WorksheetClan>| clan_range_spec(e.value.name@))
                =~= clans@.subrange(0, i as int).map_values(|e: IdEntry<WorksheetClan>| clan_range_spec(e.value.name@)).push(
                clan_range_spec(clans@[i as int].value.name@),
            ));
        }
        i = i + 1;
    }
    let ghost prev = out@;
    let last = String::from_str(PLAYER_LIST_RANGE);
    let ghost lv = last@;
    out.push(last);
    assert(clans@.subrange(0, clans@.len() as int) =~= clans@);
    assert(out@.map_values(|t: String| t@) =~= prev.map_values(|t: String| t@).push(lv));
    assert(out@.map_values(|t: String| t@) =~= sheet_ranges_spec(clans@));
    out
}

/// The cells of a row, as text.
pub open spec fn row_texts(row: Vec<String>) -> Seq<Seq<char>> {
    row@.map_values(|t: String| t@)
}

/// The player list row of a player.
pub open spec fn player_row_spec(p: WorksheetPlayer) -> Seq<Seq<char>> {
    seq![p.bungie_name@, p.discord_name@, p.discord_id@, p.bungie_membership_id@, p.bungie_platform@]
}

/// The text of a fellow player in the frequent clan mates cell: `{name} ({activities})`.
pub open spec fn mate_text(m: MemberReportFireteamMember) -> Seq<char> {
    m.display_name@ + " ("@ + int_text(m.activities as int) + ")"@
}

/// The frequent clan mates cell: the first three fellow players, joined with `, `.
pub open spec fn frequent_mates_spec(mates: Seq<MemberReportFireteamMember>) -> Seq<char> {
    join_spec(
        (if mates.len() > 3 { mates.subrange(0, 3) } else { mates }).map_values(|m: MemberReportFireteamMember| mate_text(m)),
        ", "@,
    )
}

/// The member row of a clan sheet for the member `id`, with the player's season report when
/// there is one: name, membership id, role, last played, attempts, frequent clan mates;
/// `N/A`, `0` and `N/A` stand for the last three without a report.
pub open spec fn member_row_spec(m: WorksheetClanMember, id: i64, report: Option<MemberReport>) -> Seq<Seq<char>> {
    match report {
        Some(r) => seq![
            m.name@,
            int_text(id as int),
            int_text(m.role as int),
            utc_datetime_text(r.last_played_at as int),
            int_text(r.activity_attempts as int),
            frequent_mates_spec(r.frequent_clan_members@),
        ],
        None => seq![m.name@, int_text(id as int), int_text(m.role as int), "N/A"@, "0"@, "N/A"@],
    }
}

fn mate_cell(mates: &Vec<MemberReportFireteamMember>) -> (r: String)
    ensures
        r@ == frequent_mates_spec(mates@),
{
    let n = if mates.len() > 3 {
        3
    } else {
        mates.len()
    };
    let ghost shown = if mates@.len() > 3 {
        mates@.subrange(0, 3)
    } else {
        mates@
    };
    let ghost texts = shown.map_values(|m: MemberReportFireteamMember| mate_text(m));
    assert(shown.len() == n);
    let mut out = String::new();
    let mut i: usize = 0;
    proof {
        reveal_strlit(", ");
    }
    while i < n
        invariant
            n == shown.len(),
            n <= mates@.len(),
            forall|q: int| 0 <= q < n ==> #[trigger] shown[q] == mates@[q],
            texts == shown.map_values(|m: MemberReportFireteamMember| mate_text(m)),
            i <= n,
            out@ == join_spec(texts.subrange(0, i as int), ", "@),
        decreases n - i,
    {
        let ghost prefix = texts.subrange(0, i + 1);
        assert(prefix.drop_last() =~= texts.subrange(0, i as int));
        if i > 0 {
            out.append(", ");
        }
        let ghost before = out@;
        let m = &mates[i];
        let mut piece = m.display_name.clone();
        piece.append(" (");
        let count = u64_text(m.activities);
        piece.append(count.as_str());
        piece.append(")");
        assert(piece@ =~= mate_text(mates@[i as int]));
        out.append(piece.as_str());
        proof {
            assert(texts[i as int] == mate_text(mates@[i as int]));
            if i == 0 {
                assert(out@ =~= prefix[0]);
            } else {
                assert(out@ =~= join_spec(texts.subrange(0, i as int), ", "@) + ", "@ + texts[i as int]);
            }
        }
        i = i + 1;
    }
    assert(texts.subrange(0, n as int) =~= texts);
    out
}

impl MasterWorkbook {
    /// The player list's rows, in the listed order.
    pub fn player_list_values(&self) -> (rows: Vec<Vec<String>>)
        requires
            self.wf(),
            forall|i: int| 0 <= i < self.player_list_sorted@.len() ==> self.players().dom().contains(
                (#[trigger] self.player_list_sorted@[i])@,
            ),
        ensures
            rows@.len() == self.player_list_sorted@.len(),
            forall|i: int| 0 <= i < rows@.len() ==> row_texts(#[trigger] rows@[i]) == player_row_spec(
                self.players()[self.player_list_sorted@[i]@],
            ),
    {
        let mut rows: Vec<Vec<String>> = Vec::new();
        let mut i: usize = 0;
        while i < self.player_list_sorted.len()
            invariant
                self.wf(),
                forall|j: int| 0 <= j < self.player_list_sorted@.len() ==> self.players().dom().contains(
                    (#[trigger] self.player_list_sorted@[j])@,
                ),
                i <= self.player_list_sorted@.len(),
                rows@.len() == i,
                forall|q: int| 0 <= q < i ==> row_texts(#[trigger] rows@[q]) == player_row_spec(
                    self.players()[self.player_list_sorted@[q]@],
                ),
            decreases self.player_list_sorted@.len() - i,
        {
            let key = &self.player_list_sorted[i];
            assert(self.players().dom().contains(self.player_list_sorted@[i as int]@));
            proof {
                lemma_text_map_dom(self.player_list@, key@);
            }
            let p = text_find(&self.player_list, key.as_str()).unwrap();
            proof {
                lemma_text_map_at(self.player_list@, p as int);
            }
            let player = &self.player_list[p].value;
            let mut row: Vec<String> = Vec::new();
            row.push(player.bungie_name.clone());
            row.push(player.discord_name.clone());
            row.push(player.discord_id.clone());
            row.push(player.bungie_membership_id.clone());
            row.push(player.bungie_platform.clone());
            assert(row_texts(row) =~= player_row_spec(*player));
            let ghost prev = rows@;
            rows.push(row);
            assert(forall|q: int| 0 <= q < i ==> rows@[q] == prev[q]);
            i = i + 1;
        }
        rows
    }

    /// A clan sheet's member rows, in the sheet's order, with the players' season reports.
    pub fn clan_values(&self, clan: &WorksheetClan) -> (rows: Vec<Vec<String>>)
        requires
            self.wf(),
            id_keys_unique(clan.members@),
            forall|i: int| 0 <= i < clan.members_sorted@.len() ==> id_map(clan.members@).dom().contains(
                #[trigger] clan.members_sorted@[i],
            ),
            forall|i: int| 0 <= i < self.player_reports@.len() ==> (#[trigger] self.player_reports@[i]).value.last_played_at
                <= LATEST_TIME,
        ensures
            rows@.len() == clan.members_sorted@.len(),
            forall|i: int| 0 <= i < rows@.len() ==> row_texts(#[trigger] rows@[i]) == member_row_spec(
                id_map(clan.members@)[clan.members_sorted@[i]],
                clan.members_sorted@[i],
                if text_map(self.player_reports@).dom().contains(int_text(clan.members_sorted@[i] as int)) {
                    Some(text_map(self.player_reports@)[int_text(clan.members_sorted@[i] as int)])
                } else {
                    None
                },
            ),
    {
        let mut rows: Vec<Vec<String>> = Vec::new();
        let mut i: usize = 0;
        proof {
            reveal_strlit("N/A");
            reveal_strlit("0");
        }
        while i < clan.members_sorted.len()
            invariant
                self.wf(),
                id_keys_unique(clan.members@),
                forall|j: int| 0 <= j < clan.members_sorted@.len() ==> id_map(clan.members@).dom().contains(
                    #[trigger] clan.members_sorted@[j],
                ),
                forall|j: int| 0 <= j < self.player_reports@.len() ==> (#[trigger] self.player_reports@[j]).value.last_played_at
                    <= LATEST_TIME,
                i <= clan.members_sorted@.len(),
                rows@.len() == i,
                forall|q: int| 0 <= q < i ==> row_texts(#[trigger] rows@[q]) == member_row_spec(
                    id_map(clan.members@)[clan.members_sorted@[q]],
                    clan.members_sorted@[q],
                    if text_map(self.player_reports@).dom().contains(int_text(clan.members_sorted@[q] as int)) {
                        Some(text_map(self.player_reports@)[int_text(clan.members_sorted@[q] as int)])
                    } else {
                        None
                    },
                ),
            decreases clan.members_sorted@.len() - i,
        {
            let id = clan.members_sorted[i];
            assert(id_map(clan.members@).dom().contains(clan.members_sorted@[i as int]));
            proof {
                lemma_id_map_dom(clan.members@, id);
            }
            let mi = id_find(&clan.members, id).unwrap();
            proof {
                lemma_id_map_at(clan.members@, mi as int);
            }
            let member = &clan.members[mi].value;
            let key = i64_text(id);
            let role = i64_text(member.role);
            let mut row: Vec<String> = Vec::new();
            row.push(member.name.clone());
            row.push(key.clone());
            row.push(role);
            proof {
                lemma_text_map_dom(self.player_reports@, key@);
            }
            match text_find(&self.player_reports, key.as_str()) {
                Some(p) => {
                    proof {
                        lemma_text_map_at(self.player_reports@, p as int);
                    }
                    let report = &self.player_reports[p].value;
                    assert(report.last_played_at <= LATEST_TIME);
                    row.push(datetime_text(report.last_played_at as i64));
                    row.push(u64_text(report.activity_attempts));
                    row.push(mate_cell(&report.frequent_clan_members));
                },
                None => {
                    row.push(String::from_str("N/A"));
                    row.push(String::from_str("0"));
                    row.push(String::from_str("N/A"));
                },
            }
            assert(row_texts(row) =~= member_row_spec(
                *member,
                id,
                if text_map(self.player_reports@).dom().contains(key@) {
                    Some(text_map(self.player_reports@)[key@])
                } else {
                    None
                },
            ));
            let ghost prev = rows@;
            rows.push(row);
            assert(forall|q: int| 0 <= q < i ==> rows@[q] == prev[q]);
            i = i + 1;
        }
        rows
    }
}


/// A player list row written for a player reads back as that player.
pub proof fn lemma_player_row_reads_back(p: WorksheetPlayer, row: SheetRow, back: WorksheetPlayer)
    requires
        forall|i: int| 0 <= i < 5 ==> #[trigger] row_cell(row, i) == player_row_spec(p)[i],
        player_of_row(back, row),
    ensures
        back.bungie_name@ == p.bungie_name@,
        back.discord_name@ == p.discord_name@,
        back.discord_id@ == p.discord_id@,
        back.bungie_membership_id@ == p.bungie_membership_id@,
        back.bungie_platform@ == p.bungie_platform@,
{
    assert(row_cell(row, 0) == player_row_spec(p)[0]);
    assert(row_cell(row, 1) == player_row_spec(p)[1]);
    assert(row_cell(row, 2) == player_row_spec(p)[2]);
    assert(row_cell(row, 3) == player_row_spec(p)[3]);
    assert(row_cell(row, 4) == player_row_spec(p)[4]);
}

/// A clan sheet member row written for member `id` reads back with the member's name,
/// membership id and role, the season's last played time and its attempts (0 without a
/// season report).
pub proof fn lemma_member_row_reads_back(
    m: WorksheetClanMember,
    id: i64,
    report: Option<MemberReport>,
    row: SheetRow,
    back: WorksheetClanMember,
)
    requires
        forall|i: int| 0 <= i < 6 ==> #[trigger] row_cell(row, i) == member_row_spec(m, id, report)[i],
        member_of_row(back, row),
    ensures
        back.name@ == m.name@,
        back.bungie_id == id,
        back.role == m.role,
        report is None ==> back.seasonal_activities == 0 && back.last_online@ == "N/A"@,
        report matches Some(r) ==> back.last_online@ == utc_datetime_text(r.last_played_at as int),
        report matches Some(r) ==> (r.activity_attempts <= i64::MAX ==> back.seasonal_activities
            == r.activity_attempts),
{
    assert(row_cell(row, 0) == member_row_spec(m, id, report)[0]);
    assert(row_cell(row, 1) == member_row_spec(m, id, report)[1]);
    assert(row_cell(row, 2) == member_row_spec(m, id, report)[2]);
    assert(row_cell(row, 3) == member_row_spec(m, id, report)[3]);
    assert(row_cell(row, 4) == member_row_spec(m, id, report)[4]);
    lemma_parse_in_range_text(id as int, true, i64::MIN as int, i64::MAX as int);
    lemma_parse_in_range_text(m.role as int, true, i64::MIN as int, i64::MAX as int);
    match report {
        Some(r) => {
            if r.activity_attempts <= i64::MAX {
                lemma_parse_in_range_text(r.activity_attempts as int, true, i64::MIN as int, i64::MAX as int);
            }
        },
        None => {
            reveal_strlit("0");
            assert("0"@ =~= int_text(0));
            lemma_parse_in_range_text(0, true, i64::MIN as int, i64::MAX as int);
        },
    }
}


/// A player listed in a player's own workbook.
#[derive(Debug)]
pub struct PlayerWorkbookPlayer {
    pub bungie_name: String,
    pub bungie_id: String,
    pub last_activity_timestamp: String,
    pub top_activities: Vec<String>,
}

/// How a player's activities are broken down in the player's workbook.
#[derive(Clone, Copy, Debug, PartialEq, Eq)]
pub enum PlayerWorkbookActivityBreakdownType {
    DayOfWeek,
}

/// An activity listed in a player's own workbook.
#[derive(Debug)]
pub struct PlayerWorkbookActivity {
    pub instance_id: i64,
    pub name: String,
    pub completed: bool,
    pub timestamp: String,
}


/// Membership ids, in list order, of the listed players without a season report yet.
pub open spec fn awaiting_reports(players: Seq<TextEntry<WorksheetPlayer>>, reports: Map<Seq<char>, MemberReport>) -> Seq<Seq<char>>
    decreases players.len(),
{
    if players.len() == 0 {
        Seq::<Seq<char>>::empty()
    } else if reports.dom().contains(players.last().key@) {
        awaiting_reports(players.drop_last(), reports)
    } else {
        awaiting_reports(players.drop_last(), reports).push(players.last().key@)
    }
}

impl MasterWorkbook {
    /// The players whose season report is still to be generated; the reports are complete
    /// when there are none.
    pub fn players_awaiting_report(&self) -> (r: Vec<String>)
        ensures
            r@.map_values(|t: String| t@) == awaiting_reports(self.player_list@, text_map(self.player_reports@)),
    {
        let mut out: Vec<String> = Vec::new();
        let mut i: usize = 0;
        while i < self.player_list.len()
            invariant
                i <= self.player_list@.len(),
                out@.map_values(|t: String| t@) == awaiting_reports(
                    self.player_list@.subrange(0, i as int),
                    text_map(self.player_reports@),
                ),
            decreases self.player_list@.len() - i,
        {
            let ghost next = self.player_list@.subrange(0, i + 1);
            assert(next.drop_last() =~= self.player_list@.subrange(0, i as int));
            let key = &self.player_list[i].key;
            let found = text_find(&self.player_reports, key.as_str());
            proof {
                lemma_text_map_dom(self.player_reports@, key@);
            }
            let ghost prev = out@;
            if found.is_none() {
                out.push(key.clone());
                assert(out@.map_values(|t: String| t@) =~= prev.map_values(|t: String| t@).push(key@));
            }
            i = i + 1;
        }
        assert(self.player_list@.subrange(0, self.player_list@.len() as int) =~= self.player_list@);
        out
    }
}


/// The frequent clan mates cell lists the first three of a report's frequent clan mates
/// (all of them when there are fewer), each as `{name} ({activities})`, separated by `, `.
pub proof fn lemma_mates_cell_lists_first_three(mates: Seq<MemberReportFireteamMember>)
    ensures
        mates.len() == 0 ==> frequent_mates_spec(mates) == Seq::<char>::empty(),
        mates.len() == 1 ==> frequent_mates_spec(mates) == mates[0].display_name@ + " ("@ + int_text(
            mates[0].activities as int,
        ) + ")"@,
        mates.len() == 2 ==> frequent_mates_spec(mates) == mates[0].display_name@ + " ("@ + int_text(
            mates[0].activities as int,
        ) + ")"@ + ", "@ + mates[1].display_name@ + " ("@ + int_text(mates[1].activities as int) + ")"@,
        mates.len() >= 3 ==> frequent_mates_spec(mates) == mates[0].display_name@ + " ("@ + int_text(
            mates[0].activities as int,
        ) + ")"@ + ", "@ + mates[1].display_name@ + " ("@ + int_text(mates[1].activities as int) + ")"@
            + ", "@ + mates[2].display_name@ + " ("@ + int_text(mates[2].activities as int) + ")"@,
{
    let shown = if mates.len() > 3 { mates.subrange(0, 3) } else { mates };
    let texts = shown.map_values(|m: MemberReportFireteamMember| mate_text(m));
    reveal_with_fuel(join_spec, 4);
    if mates.len() == 1 {
        assert(texts.len() == 1);
    } else if mates.len() == 2 {
        assert(texts.drop_last() =~= seq![texts[0]]);
    } else if mates.len() >= 3 {
        assert(texts.len() == 3);
        assert(texts.drop_last() =~= seq![texts[0], texts[1]]);
        assert(texts.drop_last().drop_last() =~= seq![texts[0]]);
    }
}

/// Consecutive members of a clan sheet's order: the first has the higher role, or the
/// same role and a name that is not after the second's.
pub proof fn lemma_members_by_role_then_name(ids: Seq<i64>, members: Seq<IdEntry<WorksheetClanMember>>)
    requires
        members_in_order(ids, members),
    ensures
        exists|order: Seq<MemberKey>|
            #![trigger order.to_multiset()]
            {
                &&& order.to_multiset() == member_keys(members).to_multiset()
                &&& ids.len() == order.len()
                &&& forall|i: int| 0 <= i < ids.len() ==> #[trigger] ids[i] == order[i].bungie_id
                &&& forall|i: int|
                    0 <= i && i + 1 < order.len() ==> (#[trigger] order[i]).role > order[i + 1].role || (
                    order[i].role == order[i + 1].role && lex_le(order[i].name@, order[i + 1].name@))
            },
{
    let order = choose|order: Seq<MemberKey>|
        #![trigger order.to_multiset()]
        {
            &&& order.to_multiset() == member_keys(members).to_multiset()
            &&& sorted_by(order)
            &&& ids.len() == order.len()
            &&& forall|i: int| 0 <= i < ids.len() ==> #[trigger] ids[i] == order[i].bungie_id
        };
    assert forall|i: int| 0 <= i && i + 1 < order.len() implies (#[trigger] order[i]).role > order[i + 1].role || (
    order[i].role == order[i + 1].role && lex_le(order[i].name@, order[i + 1].name@)) by {
        assert(order[i].before(&order[i + 1]));
    }
}

/// Consecutive players of the player list's order have Bungie names in ascending order.
pub proof fn lemma_players_by_name(ids: Seq<String>, players: Seq<TextEntry<WorksheetPlayer>>)
    requires
        players_in_order(ids, players),
    ensures
        exists|order: Seq<WorksheetPlayer>|
            #![trigger order.to_multiset()]
            {
                &&& order.to_multiset() == player_values(players).to_multiset()
                &&& ids.len() == order.len()
                &&& forall|i: int| 0 <= i < ids.len() ==> (#[trigger] ids[i])@ == order[i].bungie_membership_id@
                &&& forall|i: int|
                    0 <= i && i + 1 < order.len() ==> lex_le((#[trigger] order[i]).bungie_name@, order[i + 1].bungie_name@)
            },
{
    let order = choose|order: Seq<WorksheetPlayer>|
        #![trigger order.to_multiset()]
        {
            &&& order.to_multiset() == player_values(players).to_multiset()
            &&& sorted_by(order)
            &&& ids.len() == order.len()
            &&& forall|i: int| 0 <= i < ids.len() ==> (#[trigger] ids[i])@ == order[i].bungie_membership_id@
        };
    assert forall|i: int| 0 <= i && i + 1 < order.len() implies lex_le(
        (#[trigger] order[i]).bungie_name@,
        order[i + 1].bungie_name@,
    ) by {
        assert(order[i].before(&order[i + 1]));
    }
}

/// A Discord name with a discriminator other than `0` is the name the same user would get
/// without one, then `#` and the discriminator; without one, the name is the user name,
/// else the display name, else the global name, else the name listed so far.
pub proof fn lemma_discord_name(u: DiscordUserResponse, plain: DiscordUserResponse, current: Seq<char>)
    requires
        plain.username == u.username,
        plain.display_name == u.display_name,
        plain.global_name == u.global_name,
        plain.discriminator is None,
    ensures
        ({
            let d = text_of(u.discriminator);
            d != seq!['0'] && d.len() > 0 ==> discord_name_spec(u, current) == discord_name_spec(plain, current)
                + seq!['#'] + d
        }),
        (text_of(u.discriminator) == seq!['0'] || text_of(u.discriminator).len() == 0) ==> discord_name_spec(
            u,
            current,
        ) == discord_name_spec(plain, current),
        u.username matches Some(n) ==> discord_name_spec(plain, current) == n@,
        u.username is None ==> (u.display_name matches Some(n) ==> discord_name_spec(plain, current) == n@),
        u.username is None && u.display_name is None ==> (u.global_name matches Some(n) ==> discord_name_spec(
            plain,
            current,
        ) == n@),
        u.username is None && u.display_name is None && u.global_name is None ==> discord_name_spec(plain, current)
            == current,
{
}

} // verus!
