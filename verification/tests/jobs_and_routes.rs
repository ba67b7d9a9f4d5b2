use destiny_report::lookups::search_pattern;
use destiny_report::api::{report_step, ReportStep};
use destiny_report::jobs::{profile_search_result, ProfileSearchResults};
use destiny_report::api::{breakdown_by_group, cached_modes, clan_lookup, report_output, season_bounds, ClanLookup, ReportOutput, Setting};
use destiny_report::jobs::{
    collect_instances, first_group_id, merge_roster, needs_membership_lookup, parse_group_ids, season_argument,
    season_clan_label, server_port, u64_setting, usize_setting, DEFAULT_SERVER_PORT,
};
use destiny_report::keyed::{id_find, id_insert, id_insert_absent, text_find, text_insert, text_insert_absent, IdEntry, TextEntry};
use destiny_report::lookups::{
    clan_call_api, clan_key, clan_membership_key, clan_roster_key, clan_slug_key, member_activities_key, member_id_key,
    member_name_key, member_search_count_key, member_search_key, member_titles_key, membership_clan_call_api,
    profile_call_api, route_member_lookup,
};
use destiny_report::merge::{finish_report, merge_reports};
use destiny_report::order::{sort_by_order, text_le};
use destiny_report::ranking::take_first;
use destiny_report::records::{ClanInfoResult, MemberResult, NetworkBreakdownResult, SeasonRecord, SettingModeRecord};
use destiny_report::sync::{character_record, global_display_name, member_record, member_triumph_record, record_stamp, RecordStamp};
use destiny_report::tally::{distinct, id_tally, name_tally, set_insert, IdCount, NameCount};
use destiny_report::windows::MemberLookup;

fn clan_info(is_network: i64, updated_at: i64) -> ClanInfoResult {
    ClanInfoResult {
        group_id: 1,
        name: "C".to_string(),
        slug: "c".to_string(),
        motto: String::new(),
        about: String::new(),
        call_sign: "C".to_string(),
        is_network,
        member_count: 1,
        updated_at,
    }
}

#[test]
fn cache_keys_for_lookups() {
    assert_eq!(member_name_key("Guardian#0001"), "member_bn||guardian#0001");
    assert_eq!(member_id_key(-3), "member_membership_id||-3");
    assert_eq!(member_search_key("gu", 2, 25), "search_members||term||gu||page||2||limit||25");
    assert_eq!(member_search_count_key("gu"), "search_members_count||gu");
    assert_eq!(member_titles_key(9), "member_titles||9");
    assert_eq!(member_activities_key(9, 1, 2, &vec![4, 5]), "member_activities||9||1||2||4,5");
    assert_eq!(clan_key(4123), "clan_info||4123");
    assert_eq!(clan_slug_key("alpha"), "clan_info||slug||alpha");
    assert_eq!(clan_roster_key(4123), "clan_roster||4123");
    assert_eq!(clan_membership_key(9), "clan_info_membership||9");
}

#[test]
fn when_lookups_call_bungie() {
    assert!(profile_call_api(&None, 10));
    let mut m = MemberResult::empty();
    m.updated_at = 100;
    assert!(!profile_call_api(&Some(m.clone()), 100 + 86399));
    assert!(profile_call_api(&Some(m), 100 + 86400));
    assert!(clan_call_api(&None, 10, true));
    assert!(!clan_call_api(&None, 10, false));
    assert!(clan_call_api(&Some(clan_info(1, 0)), 3601, false));
    assert!(!clan_call_api(&Some(clan_info(0, 0)), 3601, false));
    assert!(membership_clan_call_api(&None, 0));
    assert!(!membership_clan_call_api(&Some(clan_info(1, 0)), 86400));
    assert!(membership_clan_call_api(&Some(clan_info(1, 0)), 86401));
    assert_eq!(route_member_lookup("-5"), MemberLookup::ById(-5));
    assert_eq!(route_member_lookup("Name#1"), MemberLookup::ByBungieName);
    assert_eq!(route_member_lookup("0"), MemberLookup::ByBungieName);
}

#[test]
fn job_arguments_and_settings() {
    assert_eq!(parse_group_ids(&vec!["1".to_string(), "x".to_string(), "-2".to_string()]), vec![1, 0, -2]);
    assert_eq!(first_group_id(&vec![]), 0);
    assert_eq!(first_group_id(&vec!["77".to_string(), "1".to_string()]), 77);
    assert!(needs_membership_lookup(0));
    assert!(!needs_membership_lookup(3));
    assert_eq!(u64_setting("250", 100), 250);
    assert_eq!(u64_setting("", 100), 100);
    assert_eq!(usize_setting("4", 1), 4);
    assert_eq!(usize_setting("-4", 1), 1);
    assert_eq!(server_port("8080"), 8080);
    assert_eq!(server_port("70000"), DEFAULT_SERVER_PORT);
    assert_eq!(season_argument(&vec![" Lifetime ".to_string()]), "lifetime");
    assert_eq!(season_argument(&vec![]), "");
    assert_eq!(season_clan_label(22, "Alpha"), "Season 22 | Alpha Overview");
}

#[test]
fn rosters_and_instances_gathered_over_calls() {
    let mut members = vec![IdEntry { key: 1, value: 3 }];
    merge_roster(&mut members, &vec![IdEntry { key: 2, value: 2 }, IdEntry { key: 1, value: 1 }]);
    let mut m: Vec<(i64, i64)> = members.iter().map(|e| (e.key, e.value)).collect();
    m.sort();
    assert_eq!(m, vec![(1, 1), (2, 2)]);
    let mut gathered = vec![5];
    collect_instances(&mut gathered, &vec![5, 6, 6, 7]);
    gathered.sort();
    assert_eq!(gathered, vec![5, 6, 7]);
}

#[test]
fn route_decisions() {
    assert_eq!(clan_lookup("4123"), ClanLookup::ById(4123));
    assert_eq!(clan_lookup("alpha"), ClanLookup::BySlug);
    let season = SeasonRecord {
        id: 1,
        hash: 2,
        name: "S".to_string(),
        pass_hash: 3,
        number: 22,
        starts_at: 10,
        ends_at: 20,
        created_at: 0,
        updated_at: 0,
        deleted_at: 0,
    };
    assert_eq!(season_bounds(&Some(season)), (10, 20, 22));
    assert_eq!(season_bounds(&None), (0, 0, -1));
    match report_output(55, None) {
        ReportOutput::TaskRunning(t) => assert_eq!(t, 55),
        _ => panic!("expected a running task"),
    }
    let report = finish_report(String::new(), String::new(), merge_reports(&vec![], &mode_names(), "Unknown"), vec![], None);
    match report_output(55, Some(report)) {
        ReportOutput::Report(r) => assert_eq!(r.activity_attempts, 0),
        _ => panic!("expected a report"),
    }
    let rows = vec![IdEntry {
        key: 9,
        value: NetworkBreakdownResult {
            group_id: 9,
            name: "N".to_string(),
            total_members: 3,
            activity_attempts: 4,
            activities_completed_with_clan: 1,
            activities_completed: 2,
            percent_with_clan: 25,
            avg_clan_member_amount: 2,
        },
    }];
    let out = breakdown_by_group(rows);
    assert_eq!(out[0].key, "9");
    assert_eq!(out[0].value.percent_with_clan, 25);
    let modes = vec![SettingModeRecord {
        id: 1,
        leaderboard: 1,
        dashboard: 0,
        name: "Raid".to_string(),
        value: "4".to_string(),
        description: String::new(),
        order: 1,
        created_at: 0,
        updated_at: 0,
        deleted_at: 0,
    }];
    assert_eq!(cached_modes(Some(Setting::Modes(modes))).len(), 1);
    assert!(cached_modes(None).is_empty());
}

#[test]
fn stored_records_keep_their_bookkeeping() {
    let fresh = record_stamp(None, 50);
    assert_eq!(fresh, RecordStamp { id: 0, created_at: 50, updated_at: 0, deleted_at: 0 });
    let again = record_stamp(Some(RecordStamp { id: 7, created_at: 10, updated_at: 20, deleted_at: 0 }), 60);
    assert_eq!(again, RecordStamp { id: 7, created_at: 10, updated_at: 60, deleted_at: 0 });
    let twice = record_stamp(Some(again), 70);
    assert_eq!((twice.id, twice.created_at, twice.updated_at), (7, 10, 70));
    assert_eq!(global_display_name("Guardian", 7), "Guardian#0007");
    assert_eq!(global_display_name("Guardian", 12345), "Guardian#12345");
    let m = member_record("4611686018467284386", 3, "Plat", "Guardian", 42, 5, 11, 1000, again);
    assert_eq!(m.membership_id, 4611686018467284386);
    assert_eq!(m.display_name_global, "Guardian#0042");
    assert_eq!((m.id, m.created_at, m.updated_at), (7, 10, 60));
    let c = character_record("12", 3, "x", 1, 1800, 99, 2, "/e.png", "/b.png", "30", "-1", fresh);
    assert_eq!((c.membership_id, c.character_id, c.minutes_played_session, c.minutes_played_lifetime), (12, 0, 30, 0));
    let t = member_triumph_record(12, "3456", 1, 2, 9);
    assert_eq!((t.hash, t.created_at, t.times_completed), (3456, 9, 2));
}

#[test]
fn keyed_lists_behave_as_maps() {
    let mut m: Vec<TextEntry<String>> = vec![];
    text_insert(&mut m, "a".to_string(), "1".to_string());
    text_insert(&mut m, "a".to_string(), "2".to_string());
    text_insert_absent(&mut m, "a".to_string(), "3".to_string());
    text_insert_absent(&mut m, "b".to_string(), "4".to_string());
    assert_eq!(m.len(), 2);
    assert_eq!(m[text_find(&m, "a").unwrap()].value, "2");
    assert_eq!(m[text_find(&m, "b").unwrap()].value, "4");
    assert!(text_find(&m, "c").is_none());
    let mut ids: Vec<IdEntry<u64>> = vec![];
    id_insert(&mut ids, 1, 10);
    id_insert(&mut ids, 1, 11);
    id_insert_absent(&mut ids, 1, 12);
    id_insert_absent(&mut ids, 2, 20);
    assert_eq!(ids[id_find(&ids, 1).unwrap()].value, 11);
    assert_eq!(ids[id_find(&ids, 2).unwrap()].value, 20);
    assert!(id_find(&ids, 3).is_none());
}

#[test]
fn tallies_and_orders() {
    let mut t: Vec<(i64, u64)> = id_tally(&vec![IdCount { id: 1, count: 2 }, IdCount { id: 2, count: 1 }, IdCount { id: 1, count: 3 }])
        .iter()
        .map(|c| (c.id, c.count))
        .collect();
    t.sort();
    assert_eq!(t, vec![(1, 5), (2, 1)]);
    let mut n: Vec<(String, u64)> = name_tally(&vec![
        NameCount { name: "a".to_string(), count: 1 },
        NameCount { name: "a".to_string(), count: 1 },
    ])
    .iter()
    .map(|c| (c.name.clone(), c.count))
    .collect();
    n.sort();
    assert_eq!(n, vec![("a".to_string(), 2)]);
    let mut d = distinct(&vec![3, 1, 3, 2, 1]);
    d.sort();
    assert_eq!(d, vec![1, 2, 3]);
    let mut s = vec![1];
    set_insert(&mut s, 1);
    set_insert(&mut s, 2);
    assert_eq!(s.len(), 2);
    assert!(text_le("abc", "abd"));
    assert!(text_le("ab", "abc"));
    assert!(!text_le("b", "abc"));
    assert!(text_le("", ""));
    assert_eq!(sort_by_order(vec![3, -1, 2]), vec![-1, 2, 3]);
    assert_eq!(take_first(vec![1, 2, 3], 2), vec![1, 2]);
    assert_eq!(take_first(vec![1], 2), vec![1]);
}

fn mode_names() -> Vec<destiny_report::keyed::IdEntry<String>> {
    vec![
        destiny_report::keyed::IdEntry { key: 4, value: "Raid".to_string() },
        destiny_report::keyed::IdEntry { key: 69, value: "PvPCompetitive".to_string() },
    ]
}

#[test]
fn search_patterns_escape_wildcards() {
    assert_eq!(search_pattern("a_b%c"), "%a\\_b\\%c%");
    assert_eq!(search_pattern(""), "%%");
    assert_eq!(search_pattern("Guardian"), "%Guardian%");
}

#[test]
fn report_requests() {
    let report = finish_report(String::new(), String::new(), merge_reports(&vec![], &mode_names(), "Unknown"), vec![], None);
    match report_step(Some(report), 5, 100) {
        ReportStep::Cached(r, t) => {
            assert_eq!(t, 100);
            assert_eq!(r.activity_attempts, 0);
        },
        _ => panic!("expected the cached report"),
    }
    assert!(matches!(report_step(None, 5, 100), ReportStep::Running(5)));
    assert!(matches!(report_step(None, 0, 100), ReportStep::Start(100)));
}

#[test]
fn profile_search_results() {
    assert_eq!(
        profile_search_result("4611686018467284386", 3, "Guardian#0001", vec![1, 2]),
        ProfileSearchResults {
            membership_id: 4611686018467284386,
            membership_type: 3,
            bungie_name: "Guardian#0001".to_string(),
            characters: vec![1, 2],
        }
    );
    assert_eq!(profile_search_result("x", 1, "a", vec![]).membership_id, 0);
}
