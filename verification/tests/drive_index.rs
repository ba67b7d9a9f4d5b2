use destiny_report::drive::plan_report_folders;
use destiny_report::drive::{
    clan_folder_name, extract_workbooks, parse_filelist, read_clan_listing, read_season_listing, season_folder_name,
    season_folder_number, seasons_of_listing, split_tagged_name, worksheet_type_of, DriveDestinyReports, DriveFile,
    FOLDER_MIME, SHEET_MIME,
};
use destiny_report::keyed::{IdEntry, TextEntry};

fn file(id: &str, name: &str, mime: &str) -> DriveFile {
    DriveFile { id: Some(id.to_string()), name: Some(name.to_string()), mime_type: Some(mime.to_string()) }
}

fn entries(list: &[TextEntry<String>]) -> Vec<(String, String)> {
    let mut v: Vec<(String, String)> = list.iter().map(|e| (e.key.clone(), e.value.clone())).collect();
    v.sort();
    v
}

#[test]
fn listing_is_sorted_by_kind() {
    let files = vec![
        file("f1", "Season 22", FOLDER_MIME),
        file("w1", "Lifetime - Overview", SHEET_MIME),
        file("x1", "notes.txt", "text/plain"),
        file("f1", "Season 23", FOLDER_MIME),
        DriveFile { id: None, name: None, mime_type: None },
    ];
    let parsed = parse_filelist(&files);
    assert_eq!(entries(&parsed.folders), vec![("f1".to_string(), "Season 23".to_string())]);
    assert_eq!(entries(&parsed.workbooks), vec![("w1".to_string(), "Lifetime - Overview".to_string())]);
    let mut other: Vec<String> = parsed.nobucket.iter().map(|e| e.key.clone()).collect();
    other.sort();
    assert_eq!(other, vec!["".to_string(), "x1".to_string()]);
}

#[test]
fn worksheet_kinds() {
    assert_eq!(worksheet_type_of("Lifetime - Overview"), "overview");
    assert_eq!(worksheet_type_of("  Season 22 - Clan - Members  "), "members");
    assert_eq!(worksheet_type_of("Roster"), "roster");
    let parsed = parse_filelist(&vec![
        file("a", "Season - Overview", SHEET_MIME),
        file("b", "Season - Members", SHEET_MIME),
    ]);
    let books = extract_workbooks(&parsed);
    assert_eq!(entries(&books), vec![("members".to_string(), "b".to_string()), ("overview".to_string(), "a".to_string())]);
}

#[test]
fn season_folder_numbers() {
    assert_eq!(season_folder_number("Season 22"), Some(22));
    assert_eq!(season_folder_number("SEASON 22 - Name"), Some(22));
    assert_eq!(season_folder_number("  season 7 | Name"), Some(7));
    assert_eq!(season_folder_number("Season x"), Some(0));
    assert_eq!(season_folder_number("Season"), None);
    assert_eq!(season_folder_number("Clan [1]"), None);
}

#[test]
fn season_folder_name_reads_back() {
    let name = season_folder_name(22);
    assert_eq!(name, "Season 22");
    assert_eq!(season_folder_number(&name), Some(22));
}

#[test]
fn tagged_names() {
    let t = split_tagged_name("My Clan [4123]");
    assert_eq!(t.name, "My Clan");
    assert_eq!(t.tag, "4123");
    let short = split_tagged_name("X");
    assert_eq!(short.tag, "");
    assert_eq!(short.name, "");
}

#[test]
fn clan_folder_name_reads_back_its_group() {
    let name = clan_folder_name("My Clan", 4123);
    assert_eq!(name, "My Clan [4123]");
    let t = split_tagged_name(&name);
    assert_eq!(t.tag, "4123");
    assert_eq!(t.name, "My Clan");
}

#[test]
fn seasons_found_in_the_report_folder() {
    let parsed = parse_filelist(&vec![
        file("s22", "Season 22", FOLDER_MIME),
        file("c", "Clans", FOLDER_MIME),
        file("s23", "season 23", FOLDER_MIME),
    ]);
    let mut seasons: Vec<(String, i32)> = seasons_of_listing(&parsed).iter().map(|e| (e.key.clone(), e.value.number)).collect();
    seasons.sort();
    assert_eq!(seasons, vec![("s22".to_string(), 22), ("s23".to_string(), 23)]);
}

#[test]
fn season_listing_reads_clan_folders() {
    let parsed = parse_filelist(&vec![
        file("c1", "Alpha [11]", FOLDER_MIME),
        file("c2", "Beta [12]", FOLDER_MIME),
        file("w", "Season 22 - Overview", SHEET_MIME),
    ]);
    let mut known = vec![IdEntry { key: 11, value: "Old Alpha".to_string() }];
    let listing = read_season_listing(&parsed, &mut known);
    let mut clans: Vec<(String, String, i64)> =
        listing.clans.iter().map(|e| (e.key.clone(), e.value.name.clone(), e.value.group_id)).collect();
    clans.sort();
    assert_eq!(clans, vec![("c1".to_string(), "Alpha".to_string(), 11), ("c2".to_string(), "Beta".to_string(), 12)]);
    let mut k: Vec<(i64, String)> = known.iter().map(|e| (e.key, e.value.clone())).collect();
    k.sort();
    assert_eq!(k, vec![(11, "Old Alpha".to_string()), (12, "Beta".to_string())]);
    assert_eq!(entries(&listing.workbooks), vec![("overview".to_string(), "w".to_string())]);
}

#[test]
fn clan_listing_reads_player_folders() {
    let parsed = parse_filelist(&vec![file("p1", " Guardian [4611686018467284386] ", FOLDER_MIME)]);
    let mut known = vec![];
    let listing = read_clan_listing(&parsed, &mut known);
    assert_eq!(listing.players.len(), 1);
    let p = &listing.players[0].value;
    assert_eq!(p.bungie_id, "4611686018467284386");
    assert_eq!(p.bungie_name, "Guardian");
    assert_eq!(known.len(), 1);
    assert_eq!(known[0].key, 4611686018467284386);
}

#[test]
fn report_index_finds_what_was_added() {
    let mut d = DriveDestinyReports::new("root".to_string());
    assert_eq!(d.get_season(22), None);
    d.add_season("s22".to_string(), 22);
    assert_eq!(d.get_season(22), Some("s22".to_string()));
    assert_eq!(d.get_season_clan(22, 11), None);
    d.add_season_clan("s22", "c11".to_string(), 11, "Alpha".to_string());
    assert_eq!(d.get_season_clan(22, 11), Some("c11".to_string()));
    assert_eq!(d.get_season_clan(23, 11), None);
    d.add_season_clan("missing", "c12".to_string(), 12, "Beta".to_string());
    assert_eq!(d.get_season_clan(22, 12), None);
}

#[test]
fn report_folder_plan() {
    let mut d = DriveDestinyReports::new("root".to_string());
    d.add_season("s22".to_string(), 22);
    d.add_season_clan("s22", "c11".to_string(), 11, "Alpha".to_string());
    d.seasons[0].value.clans[0]
        .value
        .google_workbooks
        .push(TextEntry { key: "overview".to_string(), value: "sheet".to_string() });
    let clans = vec![
        IdEntry { key: 11, value: "Alpha".to_string() },
        IdEntry { key: 12, value: "Beta".to_string() },
        IdEntry { key: 11, value: "Alpha".to_string() },
    ];
    let plan = plan_report_folders(&d, &vec![22, 23, 23], &clans);
    assert_eq!(plan.new_seasons, vec![23]);
    let flags: Vec<Vec<(i32, i64, bool, bool)>> = plan
        .clan_steps
        .iter()
        .map(|steps| steps.iter().map(|s| (s.season, s.group_id, s.create_folder, s.create_overview)).collect())
        .collect();
    assert_eq!(
        flags,
        vec![
            vec![(22, 11, false, false), (23, 11, true, true), (23, 11, false, true)],
            vec![(22, 12, true, true), (23, 12, true, true), (23, 12, false, true)],
            vec![(22, 11, false, false), (23, 11, false, true), (23, 11, false, true)],
        ]
    );
    assert_eq!(plan.clan_steps[1][0].name, "Beta");
}
