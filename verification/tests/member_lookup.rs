use destiny_report::member::{history_page, HistoryPage};
use destiny_report::member::{
    activities_need_refresh, choose_membership_card, choose_search_card, clan_needs_refresh,
    generate_raid_report_url, get_platform_name, profile_needs_refresh, search_request, UserInfoCard,
};

fn card(id: &str, membership_type: i32, cross_save_override: i32) -> UserInfoCard {
    UserInfoCard {
        membership_id: id.to_string(),
        membership_type,
        cross_save_override,
        display_name: format!("player {}", id),
    }
}

#[test]
fn platform_names() {
    assert_eq!(get_platform_name(0), "none");
    assert_eq!(get_platform_name(1), "xb");
    assert_eq!(get_platform_name(2), "ps");
    assert_eq!(get_platform_name(3), "pc");
    assert_eq!(get_platform_name(254), "pc");
}

#[test]
fn raid_report_links() {
    assert_eq!(generate_raid_report_url(4611686018467284386, 3), "https://raid.report/pc/4611686018467284386");
    assert_eq!(generate_raid_report_url(12, 2), "https://raid.report/ps/12");
}

#[test]
fn refresh_intervals() {
    assert!(profile_needs_refresh(86400, 0));
    assert!(!profile_needs_refresh(86399, 0));
    assert!(activities_need_refresh(86401, 0));
    assert!(!activities_need_refresh(86400, 0));
    assert!(clan_needs_refresh(3601, 0, true));
    assert!(!clan_needs_refresh(3601, 0, false));
    assert!(clan_needs_refresh(86401, 0, false));
}

#[test]
fn bungie_name_search_splits_the_code() {
    let r = search_request("Guardian#0042");
    assert_eq!(r.display_name, "Guardian");
    assert_eq!(r.code, 42);
    let bare = search_request("Guardian");
    assert_eq!(bare.display_name, "Guardian");
    assert_eq!(bare.code, 0);
    let odd = search_request("A#B#99999");
    assert_eq!(odd.display_name, "A#B");
    assert_eq!(odd.code, 0);
}

#[test]
fn membership_card_choice() {
    let only = choose_membership_card(vec![card("9", 1, 0)], 5).unwrap();
    assert_eq!(only.membership_id, "9");
    let by_id = choose_membership_card(vec![card("1", 1, 3), card("5", 3, 3), card("5", 2, 3)], 5).unwrap();
    assert_eq!((by_id.membership_id.as_str(), by_id.membership_type), ("5", 3));
    let primary = choose_membership_card(vec![card("1", 1, 1), card("2", 3, 3), card("4", 2, 0)], 7).unwrap();
    assert_eq!(primary.membership_id, "2");
    assert!(choose_membership_card(vec![card("1", 1, 0), card("2", 2, 0)], 7).is_none());
    assert!(choose_membership_card(vec![], 7).is_none());
}

#[test]
fn search_card_choice() {
    assert!(choose_search_card(vec![]).is_none());
    assert_eq!(choose_search_card(vec![card("1", 1, 0)]).unwrap().membership_id, "1");
    let primary = choose_search_card(vec![card("1", 1, 3), card("2", 3, 3), card("4", 2, 2)]).unwrap();
    assert_eq!(primary.membership_id, "2");
    let last = choose_search_card(vec![card("1", 1, 0), card("2", 2, 0)]).unwrap();
    assert_eq!(last.membership_id, "2");
}

#[test]
fn history_pages_continue_while_they_keep_activities() {
    assert_eq!(history_page(&vec![5, 20, 10, 30], 10, 0), HistoryPage { kept: vec![1, 3], next_page: Some(1) });
    assert_eq!(history_page(&vec![5, 10], 10, 3), HistoryPage { kept: vec![], next_page: None });
    assert_eq!(history_page(&vec![], 10, 3), HistoryPage { kept: vec![], next_page: None });
}
