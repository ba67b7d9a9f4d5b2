use destiny_report::records::SettingModeRecord;
use destiny_report::settings::{
    dashboard_modes, extract_leaderboard_modes, leaderboard_name, leaderboard_query, leaderboard_refresh,
    parse_mode_list, parse_modes_query, sort_modes, LeaderboardKind,
};
use destiny_report::windows::modes_text;

fn group(id: i64, leaderboard: i8, dashboard: i8, name: &str, value: &str) -> SettingModeRecord {
    SettingModeRecord {
        id,
        leaderboard,
        dashboard,
        name: name.to_string(),
        value: value.to_string(),
        description: String::new(),
        order: id as i32,
        created_at: 0,
        updated_at: 0,
        deleted_at: 0,
    }
}

fn groups() -> Vec<SettingModeRecord> {
    vec![
        group(1, 1, 0, "Raid", "4"),
        group(2, 0, 1, "Dungeon", "82"),
        group(3, 1, 1, "Crucible PvP", "69,5,84"),
        group(4, 1, 0, "Strikes", "18,46"),
    ]
}

#[test]
fn leaderboard_groups_keep_order() {
    let shown = extract_leaderboard_modes(groups());
    let ids: Vec<i64> = shown.iter().map(|g| g.id).collect();
    assert_eq!(ids, vec![1, 3, 4]);
}

#[test]
fn dashboard_groups_keep_order() {
    let shown = dashboard_modes(groups());
    let ids: Vec<i64> = shown.iter().map(|g| g.id).collect();
    assert_eq!(ids, vec![2, 3]);
}

#[test]
fn mode_lists_read_each_piece() {
    assert_eq!(parse_mode_list("4,82,x"), vec![4, 82, 0]);
    assert_eq!(parse_mode_list(""), vec![0]);
    assert_eq!(parse_modes_query(&None), Vec::<i32>::new());
    assert_eq!(parse_modes_query(&Some("5,7".to_string())), vec![5, 7]);
}

#[test]
fn mode_list_reads_back_its_text() {
    let modes = vec![69, -3, 5];
    assert_eq!(parse_mode_list(&modes_text(&modes)), modes);
}

#[test]
fn modes_sort_ascending() {
    assert_eq!(sort_modes(vec![84, 5, 69, 5]), vec![5, 5, 69, 84]);
}

#[test]
fn leaderboard_query_by_group_name() {
    let q = leaderboard_query(&groups(), "Crucible PvP", Some(1));
    assert_eq!(q.group_name, "Crucible PvP");
    assert_eq!(q.modes, vec![5, 69, 84]);
    assert_eq!(q.key, "5,69,84");
    assert!(q.pvp);
}

#[test]
fn leaderboard_query_falls_back_to_mode() {
    // "Dungeon" is not a leaderboard group.
    let q = leaderboard_query(&groups(), "Dungeon", Some(82));
    assert_eq!(q.group_name, "");
    assert_eq!(q.modes, vec![82]);
    assert_eq!(q.key, "82");
    assert!(!q.pvp);
    let none = leaderboard_query(&groups(), "Unknown", None);
    assert_eq!(none.modes, Vec::<i32>::new());
    assert_eq!(none.key, "");
}

#[test]
fn leaderboard_refresh_kinds() {
    let raid = leaderboard_refresh(&group(1, 1, 0, "Raid", "4,5"), vec![4, 5]).unwrap();
    assert_eq!(raid.kind, LeaderboardKind::Raid);
    assert_eq!(raid.modes, vec![4]);
    assert_eq!(raid.key, "4");
    assert!(raid.also_raid);
    let pvp = leaderboard_refresh(&group(3, 1, 0, "Crucible PVP", "69,5"), vec![69, 5]).unwrap();
    assert_eq!(pvp.kind, LeaderboardKind::PvP);
    assert_eq!(pvp.modes, vec![5, 69]);
    assert_eq!(pvp.key, "5,69");
    assert!(!pvp.also_raid);
    let generic = leaderboard_refresh(&group(4, 1, 0, "Strikes", "18"), vec![18]).unwrap();
    assert_eq!(generic.kind, LeaderboardKind::Generic);
    assert!(leaderboard_refresh(&group(2, 0, 1, "Dungeon", "82"), vec![82]).is_none());
}

#[test]
fn leaderboard_names() {
    assert_eq!(
        leaderboard_name(&vec!["Raid".to_string(), "Dungeon".to_string()]),
        "Raid, Dungeon Leaderboard"
    );
}
