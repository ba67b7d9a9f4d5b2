use destiny_report::keyed::{IdEntry, TextEntry};
use destiny_report::merge::{finish_report, merge_reports, MemberConstructionReport, MEMBER_REPORT_VERSION};
use destiny_report::records::MemberResult;
use destiny_report::report::MemberReportStats;
use destiny_report::tally::NameCount;
use destiny_report::workbook::{
    clan_range, clear_ranges, discord_display_name, is_clan_sheet, needs_discord_lookup, read_clan_sheet,
    read_player_list, DiscordUserResponse, MasterWorkbook, SheetRow, WorksheetClan, WorksheetPlayer,
    PLAYER_LIST_RANGE,
};

fn row(cells: &[&str]) -> SheetRow {
    Some(cells.iter().map(|c| Some(c.to_string())).collect())
}

fn player(name: &str, discord_id: &str, id: &str) -> WorksheetPlayer {
    WorksheetPlayer {
        bungie_name: name.to_string(),
        discord_name: String::new(),
        discord_id: discord_id.to_string(),
        bungie_membership_id: id.to_string(),
        bungie_platform: "3".to_string(),
    }
}

fn roster_member(id: i64, name: &str, role: i8, last_played_at: u64) -> MemberResult {
    let mut m = MemberResult::empty();
    m.membership_id = id;
    m.platform = 3;
    m.display_name_global = name.to_string();
    m.clan_group_role = role;
    m.last_played_at = last_played_at;
    m
}

fn clan_rows() -> Vec<SheetRow> {
    vec![
        row(&["Alpha"]),
        row(&["4123"]),
        row(&["2"]),
        row(&["Zed#1", "11", "2", "yesterday", "7", "A (3),B (1)"]),
        row(&["Amy#2", "12", "3", "today", "x", ""]),
        row(&["Zed again#1", "11", "5", "now", "9", ""]),
    ]
}

#[test]
fn player_list_rows_by_membership_id() {
    let rows = vec![
        row(&["Zed#1", "zed", "900", "11", "3"]),
        None,
        row(&["Amy#2"]),
        row(&["Zed#9", "zed2", "901", "11", "2"]),
    ];
    let mut players: Vec<(String, String, String)> = read_player_list(&rows)
        .iter()
        .map(|e| (e.key.clone(), e.value.bungie_name.clone(), e.value.discord_id.clone()))
        .collect();
    players.sort();
    assert_eq!(
        players,
        vec![("".to_string(), "Amy#2".to_string(), "".to_string()), ("11".to_string(), "Zed#9".to_string(), "901".to_string())]
    );
}

#[test]
fn clan_sheet_rows() {
    let clan = read_clan_sheet(&clan_rows());
    assert_eq!(clan.name, "Alpha");
    assert_eq!(clan.group_id, 4123);
    let mut members: Vec<(i64, String, i64, i64, Vec<String>)> = clan
        .members
        .iter()
        .map(|e| (e.key, e.value.name.clone(), e.value.role, e.value.seasonal_activities, e.value.frequent_clan_members.clone()))
        .collect();
    members.sort();
    assert_eq!(
        members,
        vec![
            (11, "Zed again#1".to_string(), 5, 9, vec!["".to_string()]),
            (12, "Amy#2".to_string(), 3, 0, vec!["".to_string()]),
        ]
    );
    let empty = read_clan_sheet(&vec![]);
    assert_eq!(empty.name, "");
    assert_eq!(empty.group_id, 0);
    assert!(empty.members.is_empty());
}

#[test]
fn clan_sheet_titles_and_ranges() {
    assert!(is_clan_sheet("[Clan] Alpha"));
    assert!(!is_clan_sheet("Player List"));
    assert_eq!(clan_range("Alpha"), "'[Clan] Alpha'!A6:F");
    let clans = vec![IdEntry {
        key: 1,
        value: WorksheetClan { name: "Alpha".to_string(), group_id: 1, members: vec![], members_sorted: vec![] },
    }];
    assert_eq!(clear_ranges(&clans), vec!["'[Clan] Alpha'!A6:F".to_string(), PLAYER_LIST_RANGE.to_string()]);
}

#[test]
fn discord_names() {
    let user = DiscordUserResponse {
        id: None,
        username: Some("zed".to_string()),
        discriminator: Some("0".to_string()),
        avatar: None,
        global_name: Some("Zed".to_string()),
        display_name: None,
    };
    assert_eq!(discord_display_name("old", &user), "zed");
    let legacy = DiscordUserResponse { discriminator: Some("1234".to_string()), ..user_without_names() };
    assert_eq!(discord_display_name("old", &legacy), "old#1234");
    let global = DiscordUserResponse { global_name: Some("G".to_string()), ..user_without_names() };
    assert_eq!(discord_display_name("old", &global), "G");
    assert!(needs_discord_lookup(&player("a", " 900 ", "1")));
    assert!(!needs_discord_lookup(&player("a", "  ", "1")));
}

fn user_without_names() -> DiscordUserResponse {
    DiscordUserResponse { id: None, username: None, discriminator: None, avatar: None, global_name: None, display_name: None }
}

#[test]
fn workbook_load_roster_sort_and_write() {
    let mut book = MasterWorkbook::new("sheet");
    assert_eq!(book.get_sheet_id(), "sheet");
    book.load_sheets(&vec![row(&["Old#1", "old", "900", "11", "3"])], &vec![clan_rows()]);
    assert_eq!(book.get_players().len(), 1);
    assert_eq!(book.get_clans().len(), 1);
    book.set_clan_name(4123, "Alpha Renamed".to_string());
    book.set_clan_name(999, "Nobody".to_string());
    assert_eq!(book.get_clans()[0].value.name, "Alpha Renamed");
    // 2023-11-14 22:13:20 UTC
    let roster = vec![roster_member(11, "Zed#1", 2, 1700000000), roster_member(13, "Bea#3", 5, 0)];
    book.apply_roster(4123, &roster);
    book.apply_roster(999, &roster);
    let mut players: Vec<(String, String, String, String)> = book
        .get_players()
        .iter()
        .map(|e| (e.key.clone(), e.value.bungie_name.clone(), e.value.discord_name.clone(), e.value.bungie_platform.clone()))
        .collect();
    players.sort();
    assert_eq!(
        players,
        vec![
            ("11".to_string(), "Zed#1".to_string(), "old".to_string(), "3".to_string()),
            ("13".to_string(), "Bea#3".to_string(), "".to_string(), "3".to_string()),
        ]
    );
    book.set_discord_name("13", "bea".to_string());
    book.sort_lists();
    let rows = book.player_list_values();
    assert_eq!(
        rows,
        vec![
            vec!["Bea#3".to_string(), "bea".to_string(), "".to_string(), "13".to_string(), "3".to_string()],
            vec!["Zed#1".to_string(), "old".to_string(), "900".to_string(), "11".to_string(), "3".to_string()],
        ]
    );
    let clan = &book.get_clans()[0].value;
    assert_eq!(clan.members_sorted, vec![13, 11]);
    let sheet = book.clan_values(clan);
    assert_eq!(
        sheet,
        vec![
            vec!["Bea#3".to_string(), "13".to_string(), "5".to_string(), "N/A".to_string(), "0".to_string(), "N/A".to_string()],
            vec!["Zed#1".to_string(), "11".to_string(), "2".to_string(), "N/A".to_string(), "0".to_string(), "N/A".to_string()],
        ]
    );
    let zed = clan.members.iter().find(|e| e.key == 11).unwrap();
    assert_eq!(zed.value.last_online, "2023-11-14 22:13:20 UTC");
}

#[test]
fn member_rows_with_a_season_report() {
    let mut book = MasterWorkbook::new("sheet");
    book.load_sheets(&vec![], &vec![clan_rows()]);
    book.sort_lists();
    let window = MemberConstructionReport {
        version: MEMBER_REPORT_VERSION,
        stats_pve: MemberReportStats::default(),
        stats_pvp: MemberReportStats::default(),
        stats_gambit: MemberReportStats::default(),
        stats_private_matches: MemberReportStats::default(),
        stats_reckoning: MemberReportStats::default(),
        display_name_global: "Amy#2".to_string(),
        membership_id: 12,
        activity_attempts: 42,
        activity_attempts_with_clan: 0,
        activity_completions: 0,
        activity_modes: vec![],
        instance_timestamps: vec![],
        instance_members_profiles: vec![],
        instance_members: vec![],
        clan_members: (0..4).map(|i| NameCount { name: format!("M{}", i), count: 10 - i }).collect(),
        non_clan_members: vec![],
        last_played_at: 1700000000,
        activity_definitions: vec![],
    };
    let report = finish_report("Amy#2".to_string(), "Season 22".to_string(), merge_reports(&vec![window], &mode_names(), "Unknown"), vec![], None);
    book.player_reports.push(TextEntry { key: "12".to_string(), value: report });
    let clan = &book.get_clans()[0].value;
    let sheet = book.clan_values(clan);
    assert_eq!(
        sheet[1],
        vec![
            "Amy#2".to_string(),
            "12".to_string(),
            "3".to_string(),
            "2023-11-14 22:13:20 UTC".to_string(),
            "42".to_string(),
            "M0 (10), M1 (9), M2 (8)".to_string(),
        ]
    );
    // The row reads back as the member it was written for.
    let back = read_clan_sheet(&vec![row(&["Alpha"]), row(&["4123"]), row(&["1"]), Some(sheet[1].iter().map(|c| Some(c.clone())).collect())]);
    let m = &back.members[0].value;
    assert_eq!((m.name.as_str(), back.members[0].key, m.role, m.seasonal_activities), ("Amy#2", 12, 3, 42));
}

fn mode_names() -> Vec<destiny_report::keyed::IdEntry<String>> {
    vec![
        destiny_report::keyed::IdEntry { key: 4, value: "Raid".to_string() },
        destiny_report::keyed::IdEntry { key: 69, value: "PvPCompetitive".to_string() },
    ]
}

#[test]
fn loading_sheets_keeps_the_rest_of_the_workbook() {
    let mut book = MasterWorkbook::new("sheet");
    book.season = "23".to_string();
    book.last_updated = "yesterday".to_string();
    book.player_list_sorted = vec!["11".to_string()];
    book.load_sheets(&vec![row(&["Zed#1", "", "", "11", "3"])], &vec![clan_rows()]);
    assert_eq!(book.season, "23");
    assert_eq!(book.last_updated, "yesterday");
    assert_eq!(book.player_list_sorted, vec!["11".to_string()]);
    book.load_sheets(&vec![], &vec![]);
    assert!(book.get_players().is_empty());
    assert!(book.get_clans().is_empty());
}

#[test]
fn players_awaiting_reports_and_latest_time() {
    let mut book = MasterWorkbook::new("sheet");
    book.load_sheets(&vec![row(&["A#1", "", "", "11", "3"]), row(&["B#2", "", "", "12", "3"])], &vec![clan_rows()]);
    assert_eq!(book.players_awaiting_report(), vec!["11".to_string(), "12".to_string()]);
    let report = finish_report(String::new(), String::new(), merge_reports(&vec![], &mode_names(), "Unknown"), vec![], None);
    destiny_report::keyed::text_insert(&mut book.player_reports, "12".to_string(), report);
    assert_eq!(book.players_awaiting_report(), vec!["11".to_string()]);
    // The last second chrono holds.
    book.apply_roster(4123, &vec![roster_member(11, "A#1", 1, destiny_report::windows::LATEST_TIME)]);
    let clan = &book.get_clans()[0].value;
    assert_eq!(clan.members[0].value.last_online, "+262142-12-31 23:59:59 UTC");
}
