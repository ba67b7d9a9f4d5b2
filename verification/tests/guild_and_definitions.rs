use destiny_report::definitions::{
    activity_record, activity_type_record, chunk_records, class_record, default_locale, definition_endpoint,
    definition_name, season_record, triumph_record, DestinyActivityDefinition, DestinyActivityTypeDefinition,
    DestinyClassDefinition, DestinyDefinition, DestinyDisplayProperties, DestinyManifest, DestinyMatchmakingProperties,
    DestinyRecordDefinition, DestinyRecordTitleBlock, DestinySeasonDefinition, RECORDS_PER_CHUNK,
};
use destiny_report::discord::{clan_roles, role_action, GuildRole, RoleAction};
use destiny_report::keyed::{IdEntry, TextEntry};
use destiny_report::workbook::{WorksheetClan, WorksheetClanMember, WorksheetPlayer};

fn display(name: &str) -> DestinyDisplayProperties {
    DestinyDisplayProperties {
        description: format!("{} text", name),
        name: name.to_string(),
        icon: format!("/{}.png", name),
        has_icon: true,
    }
}

fn text_entry(key: &str, value: &str) -> TextEntry<String> {
    TextEntry { key: key.to_string(), value: value.to_string() }
}

fn clan(group_id: i64, name: &str, members: &[i64]) -> IdEntry<WorksheetClan> {
    IdEntry {
        key: group_id,
        value: WorksheetClan {
            name: name.to_string(),
            group_id,
            members: members
                .iter()
                .map(|&id| IdEntry {
                    key: id,
                    value: WorksheetClanMember {
                        name: format!("m{}", id),
                        bungie_id: id,
                        role: 2,
                        last_online: String::new(),
                        seasonal_activities: 0,
                        frequent_clan_members: vec![],
                    },
                })
                .collect(),
            members_sorted: vec![],
        },
    }
}

fn listed(discord_id: &str, membership_id: &str) -> TextEntry<WorksheetPlayer> {
    TextEntry {
        key: membership_id.to_string(),
        value: WorksheetPlayer {
            bungie_name: "p".to_string(),
            discord_name: String::new(),
            discord_id: discord_id.to_string(),
            bungie_membership_id: membership_id.to_string(),
            bungie_platform: "3".to_string(),
        },
    }
}

#[test]
fn clan_roles_by_normalized_name() {
    let clans = vec![clan(1, "Alpha", &[]), clan(2, " Beta ", &[])];
    let roles = vec![
        GuildRole { id: 100, name: "Admin".to_string() },
        GuildRole { id: 101, name: "ALPHA".to_string() },
        GuildRole { id: 102, name: "beta".to_string() },
    ];
    let r = clan_roles(&clans, &roles);
    assert_eq!(r.role_ids, vec![101, 102]);
    let mut by: Vec<(i64, u64)> = r.roles.iter().map(|e| (e.key, e.value)).collect();
    by.sort();
    assert_eq!(by, vec![(1, 101), (2, 102)]);
}

#[test]
fn role_actions_for_server_members() {
    let clans = vec![clan(1, "Alpha", &[11]), clan(2, "Beta", &[12]), clan(3, "Gamma", &[13])];
    let roles = clan_roles(
        &clans,
        &vec![GuildRole { id: 101, name: "alpha".to_string() }, GuildRole { id: 102, name: "beta".to_string() }],
    );
    let players = vec![listed("900", "11"), listed("901", "12"), listed("902", "13"), listed("903", "14")];
    assert_eq!(role_action(&clans, &players, &roles, 900), RoleAction::Assign { remove: vec![101, 102], add: 101 });
    assert_eq!(role_action(&clans, &players, &roles, 901), RoleAction::Assign { remove: vec![101, 102], add: 102 });
    assert_eq!(role_action(&clans, &players, &roles, 902), RoleAction::MissingRole { clan_id: 3 });
    assert_eq!(role_action(&clans, &players, &roles, 903), RoleAction::Nothing);
    assert_eq!(role_action(&clans, &players, &roles, 42), RoleAction::Nothing);
}

#[test]
fn manifest_paths() {
    assert_eq!(default_locale(), "en");
    assert_eq!(definition_name(DestinyDefinition::Seasons), "DestinySeasonDefinition");
    let manifest = DestinyManifest {
        version: "1".to_string(),
        json_world_component_content_paths: vec![
            TextEntry { key: "de".to_string(), value: vec![text_entry("DestinyClassDefinition", "/de/class.json")] },
            TextEntry {
                key: "en".to_string(),
                value: vec![
                    text_entry("DestinyClassDefinition", "/en/class.json"),
                    text_entry("DestinyClassDefinition", "/en/other.json"),
                ],
            },
        ],
        locale: default_locale(),
    };
    assert_eq!(manifest.content_path(DestinyDefinition::Class), "/en/class.json");
    assert_eq!(manifest.content_path(DestinyDefinition::Records), "");
    assert_eq!(definition_endpoint("/en/class.json"), Some("https://bungie.net/en/class.json".to_string()));
    assert_eq!(definition_endpoint(""), None);
}

#[test]
fn definition_records() {
    let activity = DestinyActivityDefinition {
        matchmaking: DestinyMatchmakingProperties {
            is_matchmade: true,
            min_party: 1,
            max_party: 6,
            max_players: 6,
            requires_guardian_oath: false,
        },
        display_properties: display("Vault"),
        original_display_properties: display("Vault"),
        selection_screen_display_properties: display("Vault"),
        activity_type_hash: 7,
        destination_hash: 8,
        place_hash: 9,
        pgcr_image: "/img.jpg".to_string(),
        is_pvp: false,
        is_playlist: false,
        hash: 1234,
        index: 5,
        redacted: false,
        blacklisted: false,
    };
    let a = activity_record(&activity, 99);
    assert_eq!((a.name.as_str(), a.hash, a.fireteam_max_size, a.created_at, a.image_url.as_str()), ("Vault", 1234, 6, 99, "/img.jpg"));
    let t = activity_type_record(
        &DestinyActivityTypeDefinition { display_properties: display("Raid"), hash: 3, index: 4, redacted: false, blacklisted: false },
        5,
    );
    assert_eq!((t.hash, t.index, t.icon_url.as_str()), (3, 4, "/Raid.png"));
    let c = class_record(
        &DestinyClassDefinition { class_type: 1, display_properties: display("Hunter"), hash: 6, index: 0, redacted: false, blacklisted: false },
        5,
    );
    assert_eq!((c.class_type, c.name.as_str()), (1, "Hunter"));
    let s = season_record(
        &DestinySeasonDefinition {
            display_properties: display("Season of Tests"),
            season_number: 22,
            season_pass_hash: 77,
            start_date: 1000,
            end_date: 2000,
            hash: 8,
            index: 1,
            redacted: false,
            blacklisted: false,
        },
        5,
    );
    assert_eq!((s.number, s.starts_at, s.ends_at, s.pass_hash), (22, 1000, 2000, 77));
    let record = DestinyRecordDefinition {
        display_properties: display("Conqueror"),
        scope: 0,
        title_info: DestinyRecordTitleBlock {
            has_title: true,
            titles_by_gender: vec![text_entry("Female", "Conqueror F"), text_entry("Male", "Conqueror")],
        },
        for_title_gilding: false,
        hash: 10,
        index: 2,
        redacted: false,
        blacklisted: false,
    };
    let r = triumph_record(&record, 5);
    assert_eq!((r.title.as_str(), r.is_title, r.gilded), ("Conqueror", 1, 0));
}

#[test]
fn records_are_written_in_chunks() {
    let chunks = chunk_records((0..250).collect::<Vec<u32>>(), RECORDS_PER_CHUNK);
    let sizes: Vec<usize> = chunks.iter().map(|c| c.len()).collect();
    assert_eq!(sizes, vec![100, 100, 50]);
    let flat: Vec<u32> = chunks.into_iter().flatten().collect();
    assert_eq!(flat, (0..250).collect::<Vec<u32>>());
    assert!(chunk_records(Vec::<u32>::new(), 3).is_empty());
    assert_eq!(chunk_records(vec![1, 2, 3], 3), vec![vec![1, 2, 3]]);
}
