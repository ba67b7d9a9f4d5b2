use destiny_report::merge::{window_step, WindowStep};
use destiny_report::merge::coalesce_fellows;
use destiny_report::merge::{
    build_window_report, coalesce_display_name, coalesce_target, finish_report, merge_reports,
    MemberConstructionReport, MemberReportFireteamMember, MEMBER_REPORT_VERSION,
};
use destiny_report::records::{ActivityInstanceResult, ClanInfoResult, MemberResult, NetworkBreakdownResult, SeasonRecord, TriumphTitleResult};
use destiny_report::report::{ActivityAnalysis, FireteamAnalysis, InstanceTimestamp, MemberReportStats};
use destiny_report::responses::{ClanInformation, DestinySeason, MemberResponse, MemberTitle, NetworkActivityClanBreakdown};
use destiny_report::tally::{IdCount, NameCount};

fn stats(kills: u64) -> MemberReportStats {
    MemberReportStats { kills, activities: 1, ..MemberReportStats::default() }
}

fn definition(hash: u32, name: &str, total: i64, total_completed: i64) -> ActivityInstanceResult {
    ActivityInstanceResult {
        activity_name: name.to_string(),
        activity_description: format!("{} description", name),
        activity_hash: hash,
        director_activity_name: String::new(),
        director_activity_description: String::new(),
        director_activity_hash: 0,
        total,
        total_completed,
    }
}

fn named(name: &str, count: u64) -> NameCount {
    NameCount { name: name.to_string(), count }
}

fn window(
    attempts: u64,
    last_played_at: u64,
    defs: Vec<ActivityInstanceResult>,
    stamps: Vec<(i64, i64)>,
    modes: Vec<(i64, u64)>,
    clan: Vec<NameCount>,
    others: Vec<NameCount>,
) -> MemberConstructionReport {
    MemberConstructionReport {
        version: MEMBER_REPORT_VERSION,
        stats_pve: stats(attempts),
        stats_pvp: stats(1),
        stats_gambit: MemberReportStats::default(),
        stats_private_matches: MemberReportStats::default(),
        stats_reckoning: MemberReportStats::default(),
        display_name_global: "Guardian#0001".to_string(),
        membership_id: 77,
        activity_attempts: attempts,
        activity_attempts_with_clan: attempts / 2,
        activity_completions: 1,
        activity_modes: modes.into_iter().map(|(id, count)| IdCount { id, count }).collect(),
        instance_timestamps: stamps
            .into_iter()
            .map(|(instance_id, occurred_at)| InstanceTimestamp { instance_id, occurred_at })
            .collect(),
        instance_members_profiles: vec![],
        instance_members: vec![],
        clan_members: clan,
        non_clan_members: others,
        last_played_at,
        activity_definitions: defs,
    }
}

fn member(id: i64, name: &str, global: &str) -> MemberResult {
    let mut p = MemberResult::empty();
    p.membership_id = id;
    p.platform = 3;
    p.display_name = name.to_string();
    p.display_name_global = global.to_string();
    p
}

fn two_windows() -> Vec<MemberConstructionReport> {
    vec![
        window(
            4,
            100,
            vec![definition(1, "Vault", 3, 1), definition(2, "Strike", 1, 1)],
            vec![(10, 5), (11, 6)],
            vec![(4, 3), (18, 1)],
            vec![named("A#1", 2), named("B#2", 5)],
            vec![named("55", 1)],
        ),
        window(
            6,
            200,
            vec![definition(1, "Vault again", 2, 2), definition(3, "Crucible", 9, 0)],
            vec![(11, 7), (12, 8)],
            vec![(4, 1), (69, 9)],
            vec![named("A#1", 4)],
            vec![],
        ),
    ]
}

#[test]
fn merged_counts_and_statistics_are_sums() {
    let m = merge_reports(&two_windows(), &mode_names(), "Unknown");
    assert_eq!(m.membership_id, 77);
    assert_eq!(m.last_played_at, 200);
    assert_eq!(m.activity_attempts, 10);
    assert_eq!(m.activity_attempts_with_clan, 5);
    assert_eq!(m.activity_completions, 2);
    assert_eq!(m.stats_pve.kills, 10);
    assert_eq!(m.stats_pve.activities, 2);
    assert_eq!(m.stats_pvp.kills, 2);
    assert_eq!(m.stats_gambit, MemberReportStats::default());
}

#[test]
fn merged_activity_map_sums_per_hash() {
    let m = merge_reports(&two_windows(), &mode_names(), "Unknown");
    let mut entries: Vec<(u32, u64, u64, String)> = m
        .activity_map
        .iter()
        .map(|e| (e.hash, e.activity.attempts, e.activity.completions, e.activity.name.clone()))
        .collect();
    entries.sort();
    assert_eq!(
        entries,
        vec![
            (1, 5, 3, "Vault".to_string()),
            (2, 1, 1, "Strike".to_string()),
            (3, 9, 0, "Crucible".to_string()),
        ]
    );
    let top: Vec<u64> = m.top_activities.iter().map(|a| a.attempts).collect();
    assert_eq!(top, vec![9, 5, 1]);
}

#[test]
fn merged_timestamps_keep_one_per_instance() {
    let m = merge_reports(&two_windows(), &mode_names(), "Unknown");
    let mut ids: Vec<i64> = m.activity_timestamps.iter().map(|t| t.instance_id).collect();
    ids.sort();
    assert_eq!(ids, vec![10, 11, 12]);
    for t in &m.activity_timestamps {
        assert!([(10, 5), (11, 6), (11, 7), (12, 8)].contains(&(t.instance_id, t.occurred_at)));
    }
}

#[test]
fn merged_modes_and_fellows_are_tallied_and_ranked() {
    let m = merge_reports(&two_windows(), &mode_names(), "Unknown");
    let mut modes: Vec<(i64, u64)> = m.activity_modes.iter().map(|c| (c.id, c.count)).collect();
    modes.sort();
    assert_eq!(modes, vec![(4, 4), (18, 1), (69, 9)]);
    let top_modes: Vec<(String, u64)> = m.top_activity_modes.iter().map(|t| (t.mode.clone(), t.count)).collect();
    assert_eq!(top_modes, vec![("PvPCompetitive".to_string(), 9), ("Raid".to_string(), 4), ("Unknown".to_string(), 1)]);
    let frequent: Vec<(String, u64)> =
        m.frequent_clan_members.iter().map(|f| (f.display_name.clone(), f.activities)).collect();
    assert_eq!(frequent, vec![("A#1".to_string(), 6), ("B#2".to_string(), 5)]);
    assert_eq!(m.total_clan_members, 2);
    assert_eq!(m.total_non_clan_members, 1);
    assert_eq!(m.frequent_non_clan_members[0].display_name, "55");
}

#[test]
fn frequent_fellows_keep_the_first_ten() {
    let clan: Vec<NameCount> = (0..12).map(|i| named(&format!("P{}", i), i as u64 + 1)).collect();
    let reports = vec![window(1, 1, vec![], vec![], vec![], clan, vec![])];
    let m = merge_reports(&reports, &mode_names(), "Unknown");
    assert_eq!(m.total_clan_members, 12);
    let counts: Vec<u64> = m.frequent_clan_members.iter().map(|f| f.activities).collect();
    assert_eq!(counts, vec![12, 11, 10, 9, 8, 7, 6, 5, 4, 3]);
}

#[test]
fn merging_nothing_gives_an_empty_report() {
    let m = merge_reports(&vec![], &mode_names(), "Unknown");
    assert_eq!(m.membership_id, 0);
    assert_eq!(m.activity_attempts, 0);
    assert!(m.activity_map.is_empty());
    assert!(m.top_activities.is_empty());
}

#[test]
fn fellow_names_that_are_ids_are_completed() {
    assert_eq!(coalesce_target("4611686018467284386"), Some(4611686018467284386));
    assert_eq!(coalesce_target("Name#1234"), None);
    let mut f = MemberReportFireteamMember { display_name: "55".to_string(), activities: 3 };
    coalesce_display_name(&mut f, Some(member(55, "PlatformName", "#0000")));
    assert_eq!(f.display_name, "PlatformName");
    assert_eq!(f.activities, 3);
    let mut g = MemberReportFireteamMember { display_name: "56".to_string(), activities: 1 };
    coalesce_display_name(&mut g, Some(member(56, "Platform", "Global#0056")));
    assert_eq!(g.display_name, "Global#0056");
    let mut h = MemberReportFireteamMember { display_name: "57".to_string(), activities: 1 };
    coalesce_display_name(&mut h, None);
    assert_eq!(h.display_name, "57");
}

#[test]
fn finished_report_carries_the_merge() {
    let m = merge_reports(&two_windows(), &mode_names(), "Unknown");
    let titles = vec![TriumphTitleResult {
        membership_id: 77,
        title: "Conqueror".to_string(),
        has_gilded: 1,
        total_gilds: 3,
        can_equip: 1,
        can_equip_gilded: 0,
    }];
    let r = finish_report("Guardian#0001".to_string(), "Season 22".to_string(), m, titles, Some(member(77, "P", "Guardian#0001")));
    assert_eq!(r.version, MEMBER_REPORT_VERSION);
    assert_eq!(r.snapshot_range, "Season 22");
    assert_eq!(r.activity_attempts, 10);
    assert_eq!(
        r.titles,
        vec![MemberTitle { title: "Conqueror".to_string(), gilded_past: true, gilded_amount: 3, gilded_season: false }]
    );
    assert_eq!(r.member.membership_id, "77");
    assert_eq!(r.member.raid_report, "https://raid.report/pc/77");
    let empty = finish_report(String::new(), String::new(), merge_reports(&vec![], &mode_names(), "Unknown"), vec![], None);
    assert_eq!(empty.member.membership_id, "0");
    assert_eq!(empty.member.clan, None);
}

#[test]
fn window_report_from_its_parts() {
    let activities = ActivityAnalysis {
        attempts: 2,
        instance_ids: vec![1, 2],
        pve_instance_ids: vec![1],
        pvp_instance_ids: vec![2],
        gambit_instance_ids: vec![],
        private_match_instance_ids: vec![],
        reckoning_instance_ids: vec![],
        unknown_instance_ids: vec![],
        instance_timestamps: vec![InstanceTimestamp { instance_id: 1, occurred_at: 9 }],
        activity_modes: vec![IdCount { id: 4, count: 2 }],
    };
    let fireteam = FireteamAnalysis {
        attempts_with_clan: 1,
        clan_instance_ids: vec![1],
        instance_member_counts: vec![IdCount { id: 8, count: 1 }],
        clan_members: vec![named("Eight#8", 1)],
        non_clan_members: vec![],
    };
    let mut me = member(77, "P", "Guardian#0001");
    me.last_played_at = 1234;
    let r = build_window_report(
        me,
        activities,
        &vec![1, 1, 2],
        stats(3),
        stats(4),
        MemberReportStats::default(),
        MemberReportStats::default(),
        MemberReportStats::default(),
        vec![definition(1, "Vault", 1, 1)],
        vec![],
        fireteam,
    );
    assert_eq!(r.membership_id, 77);
    assert_eq!(r.last_played_at, 1234);
    assert_eq!(r.activity_attempts, 2);
    assert_eq!(r.activity_attempts_with_clan, 1);
    assert_eq!(r.activity_completions, 2);
    assert_eq!(r.stats_pve.kills, 3);
    assert_eq!(r.clan_members.len(), 1);
}

#[test]
fn responses_from_rows() {
    let clan = ClanInformation::from_db(ClanInfoResult {
        group_id: 4123,
        name: "Clan".to_string(),
        slug: "clan".to_string(),
        motto: "m".to_string(),
        about: "a".to_string(),
        call_sign: "CL".to_string(),
        is_network: 1,
        member_count: 90,
        updated_at: 0,
    });
    assert_eq!(clan.group_id, "4123");
    assert!(clan.is_network);
    assert_eq!(clan.member_count, Some(90));
    assert_eq!(clan.slug, Some("clan".to_string()));
    let mut row = member(5, "Plat", "Global#5");
    row.clan_group_id = 4123;
    row.clan_name = "Clan".to_string();
    row.clan_group_role = 3;
    let resp = MemberResponse::from_db(row);
    assert_eq!(resp.display_name, "Global#5");
    assert_eq!(resp.display_name_platform, "Plat");
    let c = resp.clan.unwrap();
    assert_eq!(c.info.group_id, "4123");
    assert_eq!(c.role, 3);
    assert_eq!(c.info.slug, None);
    let season = DestinySeason::from_db(SeasonRecord {
        id: 1,
        hash: 2,
        name: "S".to_string(),
        pass_hash: 3,
        number: 22,
        starts_at: 10,
        ends_at: 20,
        created_at: 0,
        updated_at: 0,
        deleted_at: 0,
    });
    assert_eq!(season, DestinySeason { name: "S".to_string(), number: 22, starts_at: 10, ends_at: 20 });
    let b = NetworkActivityClanBreakdown::from_db(NetworkBreakdownResult {
        group_id: 9,
        name: "N".to_string(),
        total_members: 10,
        activity_attempts: 20,
        activities_completed_with_clan: 5,
        activities_completed: 7,
        percent_with_clan: 50,
        avg_clan_member_amount: 5_000_000_000,
    });
    assert_eq!(b.group_id, "9");
    assert_eq!(b.percent_with_clan, 50);
    assert_eq!(b.avg_clan_member_amount, 0);
}

fn mode_names() -> Vec<destiny_report::keyed::IdEntry<String>> {
    vec![
        destiny_report::keyed::IdEntry { key: 4, value: "Raid".to_string() },
        destiny_report::keyed::IdEntry { key: 69, value: "PvPCompetitive".to_string() },
    ]
}

#[test]
fn fellow_lists_are_completed_from_profiles() {
    let mut fellows = vec![
        MemberReportFireteamMember { display_name: "55".to_string(), activities: 9 },
        MemberReportFireteamMember { display_name: "Named#1".to_string(), activities: 5 },
        MemberReportFireteamMember { display_name: "77".to_string(), activities: 2 },
        MemberReportFireteamMember { display_name: "56".to_string(), activities: 1 },
    ];
    let profiles = vec![member(55, "Old", "Old#55"), member(56, "Plat", "#0000"), member(55, "New", "New#55")];
    coalesce_fellows(&mut fellows, &profiles);
    let got: Vec<(String, u64)> = fellows.iter().map(|f| (f.display_name.clone(), f.activities)).collect();
    assert_eq!(
        got,
        vec![
            ("New#55".to_string(), 9),
            ("Named#1".to_string(), 5),
            ("77".to_string(), 2),
            ("Plat".to_string(), 1),
        ]
    );
}

#[test]
fn mode_names_come_from_the_first_table_entry() {
    let reports = vec![window(1, 1, vec![], vec![], vec![(4, 2)], vec![], vec![])];
    let names = vec![
        destiny_report::keyed::IdEntry { key: 4, value: "Raid".to_string() },
        destiny_report::keyed::IdEntry { key: 4, value: "Other".to_string() },
    ];
    let m = merge_reports(&reports, &names, "None");
    assert_eq!(m.top_activity_modes[0].mode, "Raid");
    let unnamed = merge_reports(&reports, &vec![], "None");
    assert_eq!(unnamed.top_activity_modes[0].mode, "None");
}

#[test]
fn window_steps() {
    assert!(matches!(window_step(false, Some(window(1, 1, vec![], vec![], vec![], vec![], vec![]))), WindowStep::NoMember));
    assert!(matches!(window_step(true, None), WindowStep::Build));
    match window_step(true, Some(window(7, 1, vec![], vec![], vec![], vec![], vec![]))) {
        WindowStep::Snapshot(s) => assert_eq!(s.activity_attempts, 7),
        _ => panic!("expected the snapshot"),
    }
}
