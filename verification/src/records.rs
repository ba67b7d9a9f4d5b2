//! Rows the service reads from its database, as plain values.
use vstd::prelude::*;

verus! {

/// One activity of a member's history (`member_activities`).
#[derive(Debug, PartialEq)]
pub struct ActivityHistoryRecord {
    pub id: i64,
    pub membership_id: i64,
    pub character_id: i64,
    pub platform_played: i64,
    pub activity_hash: i64,
    pub activity_hash_director: i64,
    pub instance_id: i64,
    pub mode: i64,
    /// Comma separated activity mode numbers.
    pub modes: String,
    pub private: i64,
    pub occurred_at: i64,
    pub created_at: i64,
    pub updated_at: i64,
    pub deleted_at: i64,
}

/// One character of one member in an activity instance (`instance_members`).
#[derive(Debug, PartialEq)]
pub struct InstanceMemberRecord {
    pub id: i64,
    pub instance_id: i64,
    pub membership_id: i64,
    pub platform: i64,
    pub character_id: i64,
    pub class_name: String,
    pub class_hash: u32,
    pub emblem_hash: u32,
    pub light_level: i64,
    pub clan_name: String,
    pub clan_tag: String,
    pub completed: i64,
    pub completion_reason: String,
    pub created_at: i64,
    pub updated_at: i64,
    pub deleted_at: i64,
}

/// An activity instance (`instances`).
#[derive(Debug, PartialEq)]
pub struct InstanceRecord {
    pub id: i64,
    pub instance_id: i64,
    pub occurred_at: i64,
    pub starting_phase_index: i64,
    pub started_from_beginning: i64,
    pub activity_hash: u32,
    pub activity_director_hash: u32,
    pub is_private: i64,
    pub completed: i64,
    pub completion_reasons: String,
    pub created_at: i64,
    pub updated_at: i64,
    pub deleted_at: i64,
}

/// A member joined with its clan membership.
#[derive(Debug, PartialEq)]
pub struct MemberResult {
    pub membership_id: i64,
    pub platform: i32,
    pub last_played_at: u64,
    pub display_name: String,
    pub display_name_global: String,
    pub clan_group_id: i64,
    pub clan_name: String,
    pub clan_call_sign: String,
    pub clan_joined_at: u64,
    pub clan_group_role: i8,
    pub clan_is_network: i8,
    pub updated_at: u64,
}

impl Clone for MemberResult {
    fn clone(&self) -> (r: Self)
        ensures
            r == *self,
    {
        MemberResult {
            membership_id: self.membership_id,
            platform: self.platform,
            last_played_at: self.last_played_at,
            display_name: self.display_name.clone(),
            display_name_global: self.display_name_global.clone(),
            clan_group_id: self.clan_group_id,
            clan_name: self.clan_name.clone(),
            clan_call_sign: self.clan_call_sign.clone(),
            clan_joined_at: self.clan_joined_at,
            clan_group_role: self.clan_group_role,
            clan_is_network: self.clan_is_network,
            updated_at: self.updated_at,
        }
    }
}

/// Every field of the member row is zero or empty.
pub open spec fn is_empty_member(r: MemberResult) -> bool {
    &&& r.membership_id == 0 && r.platform == 0 && r.last_played_at == 0
    &&& r.display_name@ == Seq::<char>::empty()
    &&& r.display_name_global@ == Seq::<char>::empty()
    &&& r.clan_group_id == 0
    &&& r.clan_name@ == Seq::<char>::empty()
    &&& r.clan_call_sign@ == Seq::<char>::empty()
    &&& r.clan_joined_at == 0 && r.clan_group_role == 0 && r.clan_is_network == 0
    &&& r.updated_at == 0
}

impl MemberResult {
    /// The member row with every field zero or empty.
    pub fn empty() -> (r: MemberResult)
        ensures
            is_empty_member(r),
    {
        MemberResult {
            membership_id: 0,
            platform: 0,
            last_played_at: 0,
            display_name: String::new(),
            display_name_global: String::new(),
            clan_group_id: 0,
            clan_name: String::new(),
            clan_call_sign: String::new(),
            clan_joined_at: 0,
            clan_group_role: 0,
            clan_is_network: 0,
            updated_at: 0,
        }
    }
}

/// Activity definitions with attempt and completion totals over a set of instances.
#[derive(Debug, PartialEq)]
pub struct ActivityInstanceResult {
    pub activity_name: String,
    pub activity_description: String,
    pub activity_hash: u32,
    pub director_activity_name: String,
    pub director_activity_description: String,
    pub director_activity_hash: u32,
    pub total: i64,
    /// Sum of completion flags (a decimal column, read as an integer).
    pub total_completed: i64,
}

impl Clone for ActivityInstanceResult {
    fn clone(&self) -> (r: Self)
        ensures
            r == *self,
    {
        ActivityInstanceResult {
            activity_name: self.activity_name.clone(),
            activity_description: self.activity_description.clone(),
            activity_hash: self.activity_hash,
            director_activity_name: self.director_activity_name.clone(),
            director_activity_description: self.director_activity_description.clone(),
            director_activity_hash: self.director_activity_hash,
            total: self.total,
            total_completed: self.total_completed,
        }
    }
}

/// Clan information joined with its member count.
#[derive(Debug, PartialEq)]
pub struct ClanInfoResult {
    pub group_id: i64,
    pub name: String,
    pub slug: String,
    pub motto: String,
    pub about: String,
    pub call_sign: String,
    pub is_network: i64,
    pub member_count: i64,
    pub updated_at: i64,
}

/// A title a member holds.
#[derive(Debug, PartialEq)]
pub struct TriumphTitleResult {
    pub membership_id: i64,
    pub title: String,
    pub has_gilded: i64,
    pub total_gilds: i64,
    pub can_equip: i64,
    pub can_equip_gilded: i64,
}

/// Activity breakdown of one network clan.
#[derive(Debug, PartialEq)]
pub struct NetworkBreakdownResult {
    pub group_id: i64,
    pub name: String,
    pub total_members: i64,
    pub activity_attempts: i64,
    pub activities_completed_with_clan: i64,
    pub activities_completed: i64,
    pub percent_with_clan: i64,
    pub avg_clan_member_amount: i64,
}

/// A season (`seasons`).
#[derive(Debug, PartialEq)]
pub struct SeasonRecord {
    pub id: i64,
    pub hash: u32,
    pub name: String,
    pub pass_hash: u32,
    pub number: i32,
    pub starts_at: u64,
    pub ends_at: u64,
    pub created_at: u64,
    pub updated_at: u64,
    pub deleted_at: u64,
}

/// A group of activity modes shown on the dashboard or the leaderboards.
#[derive(Debug, PartialEq)]
pub struct SettingModeRecord {
    pub id: i64,
    pub leaderboard: i8,
    pub dashboard: i8,
    pub name: String,
    /// Comma separated activity mode numbers.
    pub value: String,
    pub description: String,
    pub order: i32,
    pub created_at: u64,
    pub updated_at: u64,
    pub deleted_at: u64,
}

/// An activity definition as stored.
#[derive(Debug, PartialEq)]
pub struct ActivityRecord {
    pub id: i64,
    pub activity_type: u32,
    pub name: String,
    pub description: String,
    pub image_url: String,
    pub fireteam_min_size: u32,
    pub fireteam_max_size: u32,
    pub max_players: u32,
    pub requires_guardian_oath: bool,
    pub is_pvp: bool,
    pub matchmaking_enabled: bool,
    pub hash: u32,
    pub index: u32,
    pub created_at: u64,
    pub updated_at: u64,
    pub deleted_at: u64,
}

/// An activity type definition as stored.
#[derive(Debug, PartialEq)]
pub struct ActivityTypeRecord {
    pub id: i64,
    pub hash: i64,
    pub index: i64,
    pub name: String,
    pub description: String,
    pub icon_url: String,
    pub created_at: u64,
    pub updated_at: u64,
    pub deleted_at: u64,
}

/// A class definition as stored.
#[derive(Debug, PartialEq)]
pub struct ClassRecord {
    pub id: i64,
    pub hash: u32,
    pub index: u32,
    pub class_type: u8,
    pub name: String,
    pub created_at: u64,
    pub updated_at: u64,
    pub deleted_at: u64,
}

/// A triumph definition as stored.
#[derive(Debug, PartialEq)]
pub struct TriumphRecord {
    pub id: i64,
    pub hash: u32,
    pub name: String,
    pub description: String,
    pub title: String,
    pub is_title: i64,
    pub gilded: i64,
    pub created_at: u64,
    pub updated_at: u64,
    pub deleted_at: u64,
}

/// A character as stored.
#[derive(Debug, PartialEq)]
pub struct CharacterRecord {
    pub id: i64,
    pub membership_id: i64,
    pub platform: i32,
    pub character_id: i64,
    pub class_hash: u32,
    pub light: i32,
    pub last_played_at: u64,
    pub emblem_hash: u32,
    pub emblem_url: String,
    pub emblem_background_url: String,
    pub minutes_played_session: u32,
    pub minutes_played_lifetime: u32,
    pub created_at: u64,
    pub updated_at: u64,
    pub deleted_at: u64,
}

/// A clan as stored.
#[derive(Debug, PartialEq)]
pub struct ClanRecord {
    pub id: i64,
    pub group_id: i64,
    pub name: String,
    pub slug: String,
    pub motto: String,
    pub about: String,
    pub call_sign: String,
    pub is_network: i64,
    pub created_at: u64,
    pub updated_at: u64,
    pub deleted_at: u64,
}

/// A clan membership as stored.
#[derive(Debug, PartialEq)]
pub struct ClanMemberRecord {
    pub id: i64,
    pub group_id: i64,
    pub group_role: i64,
    pub membership_id: i64,
    pub platform: i64,
    pub joined_at: i64,
    pub created_at: u64,
    pub updated_at: u64,
    pub deleted_at: u64,
}

/// A member seen in an instance whose profile is not stored yet.
#[derive(Debug, PartialEq)]
pub struct InstanceMissingProfileResult {
    pub membership_id: i64,
    pub platform: i32,
    pub timestamp: u64,
}

/// The time of a character's most recent stored activity.
#[derive(Debug, PartialEq)]
pub struct ActivityHistoryLastEntryResult {
    pub timestamp: i64,
}

} // verus!
