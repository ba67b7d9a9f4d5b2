use destiny_report::jobs::{server_port, u64_setting, usize_setting};
use destiny_report::lookups::{member_name_key, member_search_key};
use destiny_report::member::search_request;
use destiny_report::text::{contains, equals, is_whitespace_char, join, remove_all, split, split_last, starts_with, substring, trim};
use destiny_report::windows::{member_lookup, report_season_max, season_range_label, MemberLookup};

#[test]
fn integer_text_is_decimal() {
    assert_eq!(season_range_label(-42), "Season -42");
    assert_eq!(season_range_label(0), "Season 0");
    assert_eq!(member_search_key("t", 4294967295, 7), "search_members||term||t||page||4294967295||limit||7");
}

#[test]
fn parsing_follows_std() {
    assert_eq!(member_lookup("9223372036854775807"), MemberLookup::ById(i64::MAX));
    assert_eq!(member_lookup("9223372036854775808"), MemberLookup::ByBungieName);
    assert_eq!(member_lookup("+7"), MemberLookup::ById(7));
    assert_eq!(member_lookup(""), MemberLookup::ByBungieName);
    assert_eq!(member_lookup(" 1"), MemberLookup::ByBungieName);
    assert_eq!(report_season_max("2147483647"), i32::MAX);
    assert_eq!(report_season_max("2147483648"), 20);
    assert_eq!(search_request("a#-32768").code, i16::MIN);
    assert_eq!(search_request("a#32768").code, 0);
    assert_eq!(server_port("3004"), 3004);
    assert_eq!(server_port("-1"), 3003);
    assert_eq!(server_port("+80"), 80);
    assert_eq!(u64_setting("12a", 5), 5);
    assert_eq!(u64_setting("18446744073709551615", 5), u64::MAX);
    assert_eq!(usize_setting("10", 1), 10);
}

#[test]
fn lowercase_changes_letters() {
    assert_eq!(member_name_key("SeAsOn 22"), "member_bn||season 22");
}

#[test]
fn string_pieces() {
    assert_eq!(trim("  a b \t"), "a b");
    assert_eq!(trim("   "), "");
    assert!(starts_with("[Clan] Name", "[Clan]"));
    assert!(!starts_with("Clan", "[Clan]"));
    assert!(contains("abcdef", "cde"));
    assert!(!contains("abc", "abcd"));
    assert!(contains("abc", ""));
    assert_eq!(remove_all("a [1] b [1]", "[1]"), "a  b ");
    assert_eq!(remove_all("aaa", "aa"), "a");
    assert_eq!(remove_all("abc", ""), "abc");
    assert_eq!(split("a,,b", ','), vec!["a".to_string(), "".to_string(), "b".to_string()]);
    assert_eq!(split("", ','), vec!["".to_string()]);
    assert_eq!(split_last("Clan Name [123]", ' '), "[123]");
    assert_eq!(split_last("word", ' '), "word");
    assert_eq!(join(&vec!["1".to_string(), "2".to_string()], ", "), "1, 2");
    assert_eq!(join(&Vec::<String>::new(), ","), "");
    assert_eq!(substring("[123]", 1, 4), "123");
    assert!(equals("x", "x"));
    assert!(!equals("x", "y"));
    assert!(is_whitespace_char('\n'));
    assert!(!is_whitespace_char('a'));
}
