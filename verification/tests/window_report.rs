use destiny_report::records::{ActivityHistoryRecord, InstanceMemberRecord, InstanceRecord, MemberResult};
use destiny_report::report::{
    stats_requests,
    analyze_activities, analyze_fireteams, classify_modes, compute_stats, merge_stats, total, ActivityCategory,
    InstanceTimestamp, MemberReportStats,
};
use destiny_report::tally::{IdCount, NameCount};

fn stats(base: u64) -> MemberReportStats {
    MemberReportStats {
        kills: base,
        deaths: base + 1,
        assists: base + 2,
        victories: base + 3,
        defeats: base + 4,
        activities: base + 5,
        activity_completions: base + 6,
        activities_completed_start_to_finish: base + 7,
    }
}

fn activity(membership_id: i64, instance_id: i64, mode: i64, modes: &str, occurred_at: i64) -> ActivityHistoryRecord {
    ActivityHistoryRecord {
        id: 0,
        membership_id,
        character_id: 1,
        platform_played: 3,
        activity_hash: 10,
        activity_hash_director: 11,
        instance_id,
        mode,
        modes: modes.to_string(),
        private: 0,
        occurred_at,
        created_at: 0,
        updated_at: 0,
        deleted_at: 0,
    }
}

fn instance(instance_id: i64, started_from_beginning: i64, completed: i64) -> InstanceRecord {
    InstanceRecord {
        id: 0,
        instance_id,
        occurred_at: 0,
        starting_phase_index: 0,
        started_from_beginning,
        activity_hash: 1,
        activity_director_hash: 2,
        is_private: 0,
        completed,
        completion_reasons: String::new(),
        created_at: 0,
        updated_at: 0,
        deleted_at: 0,
    }
}

fn member_row(instance_id: i64, membership_id: i64) -> InstanceMemberRecord {
    InstanceMemberRecord {
        id: 0,
        instance_id,
        membership_id,
        platform: 3,
        character_id: 1,
        class_name: "Hunter".to_string(),
        class_hash: 1,
        emblem_hash: 2,
        light_level: 1800,
        clan_name: String::new(),
        clan_tag: String::new(),
        completed: 1,
        completion_reason: String::new(),
        created_at: 0,
        updated_at: 0,
        deleted_at: 0,
    }
}

fn profile(membership_id: i64, name: &str, global: &str, network: i8) -> MemberResult {
    let mut p = MemberResult::empty();
    p.membership_id = membership_id;
    p.display_name = name.to_string();
    p.display_name_global = global.to_string();
    p.clan_is_network = network;
    p
}

fn sorted(mut v: Vec<i64>) -> Vec<i64> {
    v.sort();
    v
}

#[test]
fn merge_stats_adds_every_field() {
    let mut a = stats(10);
    merge_stats(&mut a, &stats(100));
    assert_eq!(a, MemberReportStats {
        kills: 110,
        deaths: 112,
        assists: 114,
        victories: 116,
        defeats: 118,
        activities: 120,
        activity_completions: 122,
        activities_completed_start_to_finish: 124,
    });
}

#[test]
fn merge_stats_zero_is_identity() {
    let mut a = MemberReportStats::default();
    merge_stats(&mut a, &stats(5));
    assert_eq!(a, stats(5));
    let mut b = stats(5);
    merge_stats(&mut b, &MemberReportStats::default());
    assert_eq!(b, stats(5));
}

#[test]
fn merge_stats_commutes_and_associates() {
    let mut ab = stats(1);
    merge_stats(&mut ab, &stats(20));
    let mut ba = stats(20);
    merge_stats(&mut ba, &stats(1));
    assert_eq!(ab, ba);
    let mut left = ab;
    merge_stats(&mut left, &stats(300));
    let mut bc = stats(20);
    merge_stats(&mut bc, &stats(300));
    let mut right = stats(1);
    merge_stats(&mut right, &bc);
    assert_eq!(left, right);
}

#[test]
fn totals_sum() {
    assert_eq!(total(&vec![1, 2, 3]), 6);
    assert_eq!(total(&vec![]), 0);
}

#[test]
fn category_statistics() {
    let s = compute_stats(
        &vec![1, 2, 3],
        &vec![1, 1, 3],
        &vec![10, 5],
        &vec![2],
        &vec![],
        2,
        1,
        &vec![instance(1, 1, 1), instance(2, 0, 1), instance(3, 1, 0), instance(4, 1, 1)],
    );
    assert_eq!(s, MemberReportStats {
        kills: 15,
        deaths: 2,
        assists: 0,
        victories: 2,
        defeats: 1,
        activities: 3,
        activity_completions: 2,
        activities_completed_start_to_finish: 2,
    });
}

#[test]
fn categories_from_modes() {
    assert_eq!(classify_modes("2,5,69"), ActivityCategory::Pvp);
    assert_eq!(classify_modes("7,4"), ActivityCategory::Pve);
    assert_eq!(classify_modes("63,64"), ActivityCategory::Gambit);
    assert_eq!(classify_modes("32"), ActivityCategory::PrivateMatch);
    assert_eq!(classify_modes("76,7"), ActivityCategory::Reckoning);
    assert_eq!(classify_modes("7,5"), ActivityCategory::Pve);
    assert_eq!(classify_modes(""), ActivityCategory::Unknown);
    assert_eq!(classify_modes("55"), ActivityCategory::Unknown);
}

#[test]
fn activity_analysis_of_a_window() {
    let acts = vec![
        activity(1, 100, 4, "7,4", 1000),
        activity(1, 100, 4, "7,4", 1000),
        activity(1, 200, 69, "5,69", 2000),
        activity(1, 300, 63, "64,63", 3000),
        activity(1, 400, 99, "", 4000),
        activity(2, 200, 69, "5,69", 2000),
    ];
    let r = analyze_activities(&acts);
    assert_eq!(r.attempts, 4);
    assert_eq!(sorted(r.instance_ids.clone()), vec![100, 200, 300, 400]);
    assert_eq!(r.pve_instance_ids, vec![100]);
    assert_eq!(r.pvp_instance_ids, vec![200]);
    assert_eq!(r.gambit_instance_ids, vec![300]);
    assert_eq!(r.private_match_instance_ids, Vec::<i64>::new());
    assert_eq!(r.reckoning_instance_ids, Vec::<i64>::new());
    assert_eq!(r.unknown_instance_ids, vec![400]);
    let mut stamps: Vec<(i64, i64)> = r.instance_timestamps.iter().map(|t: &InstanceTimestamp| (t.instance_id, t.occurred_at)).collect();
    stamps.sort();
    assert_eq!(stamps, vec![(100, 1000), (200, 2000), (300, 3000), (400, 4000)]);
    let mut modes: Vec<(i64, u64)> = r.activity_modes.iter().map(|m: &IdCount| (m.id, m.count)).collect();
    modes.sort();
    // (instance 200, member 2) is a pair of its own.
    assert_eq!(modes, vec![(4, 1), (63, 1), (69, 2), (99, 1)]);
}

#[test]
fn fireteam_analysis_of_a_window() {
    let rows = vec![
        member_row(100, 1),
        member_row(100, 2),
        member_row(100, 3),
        member_row(200, 1),
        member_row(200, 2),
        member_row(200, 2),
        member_row(300, 4),
    ];
    let profiles = vec![
        profile(2, "Two", "Two#0002", 1),
        profile(3, "Three", "#0000", 0),
    ];
    let r = analyze_fireteams(1, &rows, &profiles);
    assert_eq!(sorted(r.clan_instance_ids.clone()), vec![100, 200]);
    assert_eq!(r.attempts_with_clan, 2);
    let mut counts: Vec<(i64, u64)> = r.instance_member_counts.iter().map(|c: &IdCount| (c.id, c.count)).collect();
    counts.sort();
    assert_eq!(counts, vec![(2, 2), (3, 1), (4, 1)]);
    let clan: Vec<(String, u64)> = r.clan_members.iter().map(|c: &NameCount| (c.name.clone(), c.count)).collect();
    assert_eq!(clan, vec![("Two#0002".to_string(), 2)]);
    let mut others: Vec<(String, u64)> = r.non_clan_members.iter().map(|c: &NameCount| (c.name.clone(), c.count)).collect();
    others.sort();
    // Without a Bungie name (or a profile), a player is listed under the membership id.
    assert_eq!(others, vec![("3".to_string(), 1), ("4".to_string(), 1)]);
}

#[test]
fn statistics_are_requested_per_category() {
    let acts = vec![
        activity(1, 100, 4, "7,4", 1000),
        activity(1, 200, 69, "5,69", 2000),
        activity(1, 300, 63, "64,63", 3000),
    ];
    let a = analyze_activities(&acts);
    let r = stats_requests(&a);
    let got: Vec<(ActivityCategory, Vec<i64>)> = r.iter().map(|q| (q.category, q.instance_ids.clone())).collect();
    assert_eq!(
        got,
        vec![
            (ActivityCategory::Pve, vec![100]),
            (ActivityCategory::Pvp, vec![200]),
            (ActivityCategory::Gambit, vec![300]),
            (ActivityCategory::PrivateMatch, vec![]),
            (ActivityCategory::Reckoning, vec![]),
        ]
    );
}
