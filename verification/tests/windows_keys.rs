use destiny_report::records::SeasonRecord;
use destiny_report::windows::{
    lifetime_cache_key, lifetime_windows, member_lookup, modes_text, report_season_max, season_cache_key,
    season_range_label, season_window, snapshot_key, MemberLookup, ReportWindow, SeasonWindow,
    DEFAULT_REPORT_SEASON_MAX, LAUNCH_MONTH_START,
};

fn season(number: i32, starts_at: u64, ends_at: u64) -> SeasonRecord {
    SeasonRecord {
        id: 1,
        hash: 2,
        name: "Season of Tests".to_string(),
        pass_hash: 3,
        number,
        starts_at,
        ends_at,
        created_at: 0,
        updated_at: 0,
        deleted_at: 0,
    }
}

#[test]
fn modes_are_joined_with_commas() {
    assert_eq!(modes_text(&vec![4, 82, -1]), "4,82,-1");
    assert_eq!(modes_text(&vec![]), "");
}

#[test]
fn cache_keys_have_their_layout() {
    assert_eq!(season_cache_key("Name#1234", 22, &vec![4, 82]), "member_report||season||Name#1234||22||4,82");
    assert_eq!(lifetime_cache_key("Name#1234", &vec![]), "member_report||lifetime||Name#1234||");
    assert_eq!(snapshot_key(4611686018467, 10, 20, &vec![5]), "4611686018467_10_20||5");
    assert_eq!(season_range_label(22), "Season 22");
}

#[test]
fn member_lookup_by_id_or_name() {
    assert_eq!(member_lookup("4611686018467284386"), MemberLookup::ById(4611686018467284386));
    assert_eq!(member_lookup("Name#1234"), MemberLookup::ByBungieName);
    assert_eq!(member_lookup("-5"), MemberLookup::ByBungieName);
    assert_eq!(member_lookup("0"), MemberLookup::ByBungieName);
}

#[test]
fn season_max_setting() {
    assert_eq!(report_season_max("25"), 25);
    assert_eq!(report_season_max(""), DEFAULT_REPORT_SEASON_MAX);
    assert_eq!(report_season_max("x"), 20);
}

#[test]
fn season_windows() {
    let past = Some(season(19, 100, 200));
    assert_eq!(season_window(&past, 20, 999), SeasonWindow { start: 100, end: 200, number: 19 });
    let current = Some(season(21, 300, 400));
    assert_eq!(season_window(&current, 20, 999), SeasonWindow { start: 300, end: 999, number: 21 });
    assert_eq!(season_window(&None, 20, 999), SeasonWindow { start: 0, end: 0, number: -1 });
}

#[test]
fn lifetime_windows_cover_back_to_launch() {
    // 10 days and 5 seconds after the launch month started.
    let now = LAUNCH_MONTH_START + 10 * 86400 + 5;
    let w = lifetime_windows(now);
    assert_eq!(
        w,
        vec![
            ReportWindow { start: LAUNCH_MONTH_START, end: now },
            // 2017-08-01 00:00:00 UTC
            ReportWindow { start: 1501545600, end: LAUNCH_MONTH_START },
        ]
    );
}

#[test]
fn lifetime_windows_are_contiguous() {
    let now = 1700000000;
    let w = lifetime_windows(now);
    assert!(w.len() > 2);
    assert_eq!(w[0].end, now);
    for k in 1..w.len() {
        assert_eq!(w[k].end, w[k - 1].start);
        assert!(w[k].start <= w[k].end);
    }
}

#[test]
fn no_lifetime_windows_long_before_launch() {
    assert_eq!(lifetime_windows(0), vec![]);
}

#[test]
fn snapshot_keys_take_any_time() {
    assert_eq!(snapshot_key(1, 0, u64::MAX, &vec![]), "1_0_18446744073709551615||");
}
