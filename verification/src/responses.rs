//! API response bodies built from database rows.
use vstd::prelude::*;
use crate::member::{generate_raid_report_url, raid_report_url_spec};
use crate::records::{ClanInfoResult, MemberResult, NetworkBreakdownResult, SeasonRecord, TriumphTitleResult};
use crate::text::{i64_text, int_text};

verus! {

/// Public clan information.
#[derive(Debug, PartialEq)]
pub struct ClanInformation {
    pub group_id: String,
    pub name: String,
    pub call_sign: String,
    pub is_network: bool,
    pub member_count: Option<u32>,
    pub slug: Option<String>,
    pub motto: Option<String>,
    pub about: Option<String>,
}

/// `Some(s@)` for `Some(s)`.
pub open spec fn opt_text(o: Option<String>) -> Option<Seq<char>> {
    match o {
        Some(s) => Some(s@),
        None => None,
    }
}

impl ClanInformation {
    /// Clan information from a clan row.
    pub fn from_db(record: ClanInfoResult) -> (r: ClanInformation)
        ensures
            r.group_id@ == int_text(record.group_id as int),
            r.name@ == record.name@,
            r.call_sign@ == record.call_sign@,
            r.is_network == (record.is_network == 1),
            r.member_count == Some(record.member_count as u32),
            opt_text(r.slug) == Some(record.slug@),
            opt_text(r.motto) == Some(record.motto@),
            opt_text(r.about) == Some(record.about@),
    {
        ClanInformation {
            group_id: i64_text(record.group_id),
            name: record.name,
            call_sign: record.call_sign,
            is_network: record.is_network == 1,
            member_count: Some(#[verifier::truncate] (record.member_count as u32)),
            slug: Some(record.slug),
            motto: Some(record.motto),
            about: Some(record.about),
        }
    }
}

/// A member's clan, as shown with the member.
#[derive(Debug, PartialEq)]
pub struct MemberClanInformation {
    pub info: ClanInformation,
    pub timestamp_join_date: u64,
    pub role: i8,
}

/// A member as the API returns it.
#[derive(Debug, PartialEq)]
pub struct MemberResponse {
    pub display_name: String,
    pub display_name_platform: String,
    pub membership_id: String,
    pub membership_platform: i32,
    pub timestamp_last_played: u64,
    pub raid_report: String,
    pub clan: Option<MemberClanInformation>,
}

/// `r` is the member response made from the member row `result`.
pub open spec fn member_response_of(r: MemberResponse, result: MemberResult) -> bool {
    &&& r.display_name@ == result.display_name_global@
    &&& r.display_name_platform@ == result.display_name@
    &&& r.membership_id@ == int_text(result.membership_id as int)
    &&& r.membership_platform == result.platform
    &&& r.timestamp_last_played == result.last_played_at
    &&& r.raid_report@ == raid_report_url_spec(result.membership_id as int, result.platform as int)
    &&& (r.clan is Some <==> result.clan_group_id > 0)
    &&& r.clan matches Some(c) ==> {
        &&& c.info.group_id@ == int_text(result.clan_group_id as int)
        &&& c.info.name@ == result.clan_name@
        &&& c.info.call_sign@ == result.clan_call_sign@
        &&& c.info.is_network == (result.clan_is_network == 1)
        &&& c.info.motto is None && c.info.about is None
        &&& c.info.slug is None && c.info.member_count is None
        &&& c.timestamp_join_date == result.clan_joined_at
        &&& c.role == result.clan_group_role
    }
}

impl MemberResponse {
    /// A member response from a member row; the clan part is present exactly when the
    /// member belongs to a clan (`clan_group_id > 0`).
    pub fn from_db(result: MemberResult) -> (r: MemberResponse)
        ensures
            member_response_of(r, result),
    {
        let raid_report = generate_raid_report_url(result.membership_id, result.platform);
        let membership_id = i64_text(result.membership_id);
        let clan = if result.clan_group_id > 0 {
            Some(
                MemberClanInformation {
                    info: ClanInformation {
                        group_id: i64_text(result.clan_group_id),
                        name: result.clan_name,
                        call_sign: result.clan_call_sign,
                        is_network: result.clan_is_network == 1,
                        motto: None,
                        about: None,
                        slug: None,
                        member_count: None,
                    },
                    timestamp_join_date: result.clan_joined_at,
                    role: result.clan_group_role,
                },
            )
        } else {
            None
        };
        MemberResponse {
            display_name: result.display_name_global,
            display_name_platform: result.display_name,
            membership_id,
            membership_platform: result.platform,
            raid_report,
            clan,
            timestamp_last_played: result.last_played_at,
        }
    }
}

/// A title a member holds, as the API returns it.
#[derive(Debug, PartialEq)]
pub struct MemberTitle {
    pub title: String,
    pub gilded_past: bool,
    pub gilded_amount: i8,
    pub gilded_season: bool,
}

/// `r` is the title made from the title row `record`.
pub open spec fn member_title_of(r: MemberTitle, record: TriumphTitleResult) -> bool {
    &&& r.title@ == record.title@
    &&& r.gilded_past == (record.has_gilded == 1)
    &&& r.gilded_amount == record.total_gilds as i8
    &&& r.gilded_season == (record.can_equip_gilded == 1)
}

impl MemberTitle {
    pub fn from_db(record: TriumphTitleResult) -> (r: MemberTitle)
        ensures
            member_title_of(r, record),
    {
        MemberTitle {
            title: record.title,
            gilded_past: record.has_gilded == 1,
            gilded_amount: #[verifier::truncate] (record.total_gilds as i8),
            gilded_season: record.can_equip_gilded == 1,
        }
    }
}

/// A season, as the API returns it.
#[derive(Debug, PartialEq)]
pub struct DestinySeason {
    pub name: String,
    pub number: i32,
    pub starts_at: u64,
    pub ends_at: u64,
}

impl DestinySeason {
    pub fn from_db(record: SeasonRecord) -> (r: DestinySeason)
        ensures
            r.name@ == record.name@,
            r.number == record.number,
            r.starts_at == record.starts_at,
            r.ends_at == record.ends_at,
    {
        DestinySeason {
            name: record.name,
            number: record.number,
            starts_at: record.starts_at,
            ends_at: record.ends_at,
        }
    }
}

/// What `i64::to_i32` followed by `unwrap_or_default` gives.
pub open spec fn i32_or_zero(x: i64) -> i32 {
    if i32::MIN <= x <= i32::MAX {
        x as i32
    } else {
        0
    }
}

/// Activity breakdown of one network clan, as the API returns it.
#[derive(Debug, PartialEq)]
pub struct NetworkActivityClanBreakdown {
    pub group_id: String,
    pub name: String,
    pub total_members: i32,
    pub activity_attempts: i32,
    pub activities_completed_with_clan: i32,
    pub activities_completed: i32,
    pub percent_with_clan: i32,
    pub avg_clan_member_amount: i32,
}

impl NetworkActivityClanBreakdown {
    pub fn from_db(record: NetworkBreakdownResult) -> (r: NetworkActivityClanBreakdown)
        ensures
            r.group_id@ == int_text(record.group_id as int),
            r.name@ == record.name@,
            r.total_members == record.total_members as i32,
            r.activity_attempts == record.activity_attempts as i32,
            r.activities_completed_with_clan == record.activities_completed_with_clan as i32,
            r.activities_completed == record.activities_completed as i32,
            r.percent_with_clan == i32_or_zero(record.percent_with_clan),
            r.avg_clan_member_amount == i32_or_zero(record.avg_clan_member_amount),
    {
        let percent = record.percent_with_clan;
        let avg = record.avg_clan_member_amount;
        NetworkActivityClanBreakdown {
            group_id: i64_text(record.group_id),
            name: record.name,
            total_members: #[verifier::truncate] (record.total_members as i32),
            activity_attempts: #[verifier::truncate] (record.activity_attempts as i32),
            activities_completed_with_clan: #[verifier::truncate] (record.activities_completed_with_clan as i32),
            activities_completed: #[verifier::truncate] (record.activities_completed as i32),
            percent_with_clan: if i32::MIN as i64 <= percent && percent <= i32::MAX as i64 {
                percent as i32
            } else {
                0
            },
            avg_clan_member_amount: if i32::MIN as i64 <= avg && avg <= i32::MAX as i64 {
                avg as i32
            } else {
                0
            },
        }
    }
}

} // verus!
