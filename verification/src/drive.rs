//! The report folders on Google Drive: how a folder listing is sorted into folders,
//! spreadsheets and other files, how season, clan and player folders and the kind of
//! each spreadsheet are read from their names, and the index of what was found.
//!
//! ```text
//! Reports/Destiny
//! |   Lifetime Overview Sheet : spreadsheet
//! |   [Season ...] : folder
//! |   |   Season Overview Sheet : spreadsheet
//! |   |   [Clan name [group id]] : folder
//! |   |   |   Clan Overview Sheet : spreadsheet
//! |   |   |   [Player name [membership id]] : folder
//! |   |   |   |   Overview : spreadsheet
//! ```
use vstd::prelude::*;
use crate::keyed::{
    IdEntry, TextEntry, id_insert, id_insert_absent, id_keys_unique, id_map, lemma_text_map_at,
    lemma_text_map_dom, lemma_text_map_update, text_find, text_insert, text_keys_unique, text_map,
};
use crate::text::{
    equals, i64_text, int_text, lemma_int_text_reads_back, lemma_parse_in_range_text, lemma_split_append, lowercase_text, parse_i32, parse_i64, parse_in_range, remove_all, remove_all_spec, split,
    split_last, split_spec, starts_with, starts_with_spec, substring, to_lowercase, trim, trim_spec,
};

verus! {

/// The MIME type Drive gives folders.
pub const FOLDER_MIME: &'static str = "application/vnd.google-apps.folder";

/// The MIME type Drive gives spreadsheets.
pub const SHEET_MIME: &'static str = "application/vnd.google-apps.spreadsheet";

/// The fields of a Drive file that the report logic reads.
#[derive(Debug)]
pub struct DriveFile {
    pub id: Option<String>,
    pub name: Option<String>,
    pub mime_type: Option<String>,
}

impl View for DriveFile {
    type V = DriveFile;

    open spec fn view(&self) -> DriveFile {
        *self
    }
}

fn clone_text(o: &Option<String>) -> (r: Option<String>)
    ensures
        r == *o,
{
    match o {
        Some(s) => Some(s.clone()),
        None => None,
    }
}

impl Clone for DriveFile {
    fn clone(&self) -> (r: Self)
        ensures
            r == *self,
    {
        DriveFile { id: clone_text(&self.id), name: clone_text(&self.name), mime_type: clone_text(&self.mime_type) }
    }
}

/// The text of an optional field, empty when it is missing.
pub open spec fn text_of(o: Option<String>) -> Seq<char> {
    match o {
        Some(s) => s@,
        None => Seq::<char>::empty(),
    }
}

fn text_or_empty(o: &Option<String>) -> (r: String)
    ensures
        r@ == text_of(*o),
{
    match o {
        Some(s) => s.clone(),
        None => String::new(),
    }
}

/// A listing sorted by kind: folders and spreadsheets by id with their names, and the
/// other files by id.
#[derive(Debug)]
pub struct DriveFileList {
    pub folders: Vec<TextEntry<String>>,
    pub workbooks: Vec<TextEntry<String>>,
    pub nobucket: Vec<TextEntry<DriveFile>>,
}

impl DriveFileList {
    /// Each of the three lists has distinct ids.
    pub open spec fn wf(&self) -> bool {
        &&& text_keys_unique(self.folders@)
        &&& text_keys_unique(self.workbooks@)
        &&& text_keys_unique(self.nobucket@)
    }
}

/// Names by id of the files of `files` with MIME type `mime`; a later file with the same
/// id replaces an earlier one.
pub open spec fn mime_bucket(files: Seq<DriveFile>, mime: Seq<char>) -> Map<Seq<char>, Seq<char>>
    decreases files.len(),
{
    if files.len() == 0 {
        Map::empty()
    } else if text_of(files.last().mime_type) == mime {
        mime_bucket(files.drop_last(), mime).insert(text_of(files.last().id), text_of(files.last().name))
    } else {
        mime_bucket(files.drop_last(), mime)
    }
}

/// The files of `files` that are neither folders nor spreadsheets, by id.
pub open spec fn other_files(files: Seq<DriveFile>) -> Map<Seq<char>, DriveFile>
    decreases files.len(),
{
    if files.len() == 0 {
        Map::empty()
    } else if text_of(files.last().mime_type) == FOLDER_MIME@ || text_of(files.last().mime_type)
        == SHEET_MIME@ {
        other_files(files.drop_last())
    } else {
        other_files(files.drop_last()).insert(text_of(files.last().id), files.last())
    }
}

/// Sorts a listing into folders, spreadsheets and other files.
pub fn parse_filelist(files: &Vec<DriveFile>) -> (r: DriveFileList)
    ensures
        text_keys_unique(r.folders@),
        text_keys_unique(r.workbooks@),
        text_keys_unique(r.nobucket@),
        text_map(r.folders@) == mime_bucket(files@, FOLDER_MIME@),
        text_map(r.workbooks@) == mime_bucket(files@, SHEET_MIME@),
        text_map(r.nobucket@) == other_files(files@),
{
    proof {
        reveal_strlit("application/vnd.google-apps.folder");
        reveal_strlit("application/vnd.google-apps.spreadsheet");
        assert(FOLDER_MIME@[30] != SHEET_MIME@[30]);
        assert(FOLDER_MIME@ != SHEET_MIME@);
    }
    let mut folders: Vec<TextEntry<String>> = Vec::new();
    let mut workbooks: Vec<TextEntry<String>> = Vec::new();
    let mut nobucket: Vec<TextEntry<DriveFile>> = Vec::new();
    let mut i: usize = 0;
    assert(text_map(folders@) =~= Map::<Seq<char>, Seq<char>>::empty());
    assert(text_map(workbooks@) =~= Map::<Seq<char>, Seq<char>>::empty());
    assert(text_map(nobucket@) =~= Map::<Seq<char>, DriveFile>::empty());
    while i < files.len()
        invariant
            i <= files@.len(),
            FOLDER_MIME@ != SHEET_MIME@,
            text_keys_unique(folders@),
            text_keys_unique(workbooks@),
            text_keys_unique(nobucket@),
            text_map(folders@) == mime_bucket(files@.subrange(0, i as int), FOLDER_MIME@),
            text_map(workbooks@) == mime_bucket(files@.subrange(0, i as int), SHEET_MIME@),
            text_map(nobucket@) == other_files(files@.subrange(0, i as int)),
        decreases files@.len() - i,
    {
        let ghost next = files@.subrange(0, i + 1);
        assert(next.drop_last() =~= files@.subrange(0, i as int));
        let file = &files[i];
        let mime = text_or_empty(&file.mime_type);
        let id = text_or_empty(&file.id);
        let name = text_or_empty(&file.name);
        if equals(mime.as_str(), FOLDER_MIME) {
            text_insert(&mut folders, id, name);
        } else if equals(mime.as_str(), SHEET_MIME) {
            text_insert(&mut workbooks, id, name);
        } else {
            text_insert(&mut nobucket, id, file.clone());
        }
        i = i + 1;
    }
    assert(files@.subrange(0, files@.len() as int) =~= files@);
    DriveFileList { folders, workbooks, nobucket }
}

// ---------------------------------------------------------------------------
// Names
// ---------------------------------------------------------------------------
/// The kind of a spreadsheet: the text after the last `-` of its lower-cased, trimmed
/// name, trimmed (`Lifetime - Overview` is an `overview`).
pub open spec fn worksheet_type(name: Seq<char>) -> Seq<char> {
    trim_spec(split_spec(trim_spec(lowercase_text(name)), '-').last())
}

/// The kind of a spreadsheet from its name.
pub fn worksheet_type_of(name: &str) -> (r: String)
    ensures
        r@ == worksheet_type(name@),
{
    let lower = to_lowercase(name);
    let normalized = trim(lower.as_str());
    let last = split_last(normalized.as_str(), '-');
    trim(last.as_str())
}

/// Spreadsheet ids by kind over the spreadsheets of `s` in order; a later spreadsheet of
/// the same kind replaces an earlier one.
pub open spec fn workbook_kinds(s: Seq<TextEntry<String>>) -> Map<Seq<char>, Seq<char>>
    decreases s.len(),
{
    if s.len() == 0 {
        Map::empty()
    } else {
        workbook_kinds(s.drop_last()).insert(worksheet_type(s.last().value@), s.last().key@)
    }
}

/// The spreadsheets of a listing by kind.
pub fn extract_workbooks(parsed: &DriveFileList) -> (r: Vec<TextEntry<String>>)
    ensures
        text_keys_unique(r@),
        text_map(r@) == workbook_kinds(parsed.workbooks@),
{
    let books = &parsed.workbooks;
    let mut out: Vec<TextEntry<String>> = Vec::new();
    let mut i: usize = 0;
    assert(text_map(out@) =~= Map::<Seq<char>, Seq<char>>::empty());
    while i < books.len()
        invariant
            i <= books@.len(),
            text_keys_unique(out@),
            text_map(out@) == workbook_kinds(books@.subrange(0, i as int)),
        decreases books@.len() - i,
    {
        assert(books@.subrange(0, i + 1).drop_last() =~= books@.subrange(0, i as int));
        let kind = worksheet_type_of(books[i].value.as_str());
        text_insert(&mut out, kind, books[i].key.clone());
        i = i + 1;
    }
    assert(books@.subrange(0, books@.len() as int) =~= books@);
    out
}

/// The season number a folder name gives: a lower-cased, trimmed name starting with
/// `season` gives its second space-separated word, trimmed and read as an `i32` (0 when
/// it does not read); other names, and names with one word, give none.
pub open spec fn season_number(name: Seq<char>) -> Option<int> {
    let n = trim_spec(lowercase_text(name));
    if starts_with_spec(n, "season"@) && split_spec(n, ' ').len() > 1 {
        Some(
            match parse_in_range(trim_spec(split_spec(n, ' ')[1]), true, i32::MIN as int, i32::MAX as int) {
                Some(v) => v,
                None => 0,
            },
        )
    } else {
        None
    }
}

/// The season number of a folder name (`Season 22`, `Season 22 - Name` and
/// `Season 22 | Name` all give 22).
pub fn season_folder_number(name: &str) -> (r: Option<i32>)
    ensures
        r matches Some(v) ==> season_number(name@) == Some(v as int),
        r is None ==> season_number(name@) is None,
{
    let lower = to_lowercase(name);
    let normalized = trim(lower.as_str());
    if starts_with(normalized.as_str(), "season") {
        let words = split(normalized.as_str(), ' ');
        if words.len() > 1 {
            let word = trim(words[1].as_str());
            let number = match parse_i32(word.as_str()) {
                Some(v) => v,
                None => 0,
            };
            Some(number)
        } else {
            None
        }
    } else {
        None
    }
}

/// A folder name of the form `Name [tag]`, split: `tag` is the last space-separated word
/// without its first and last character, `name` the rest.
#[derive(Debug)]
pub struct TaggedName {
    pub name: String,
    pub tag: String,
}

/// The last word of `name` with its enclosing characters removed.
pub open spec fn name_tag(name: Seq<char>) -> Seq<char> {
    let word = trim_spec(split_spec(name, ' ').last());
    if word.len() >= 2 {
        word.subrange(1, word.len() - 1)
    } else {
        Seq::<char>::empty()
    }
}

/// `name` without its last word (every occurrence of it), trimmed.
pub open spec fn name_untagged(name: Seq<char>) -> Seq<char> {
    trim_spec(remove_all_spec(name, split_spec(name, ' ').last()))
}

/// Splits a folder name of the form `Name [tag]`.
pub fn split_tagged_name(name: &str) -> (r: TaggedName)
    ensures
        r.tag@ == name_tag(name@),
        r.name@ == name_untagged(name@),
{
    let last = split_last(name, ' ');
    let word = trim(last.as_str());
    let n = word.as_str().unicode_len();
    let tag = if n >= 2 {
        substring(word.as_str(), 1, n - 1)
    } else {
        String::new()
    };
    let rest = remove_all(name, last.as_str());
    let trimmed = trim(rest.as_str());
    TaggedName { name: trimmed, tag }
}

/// The number a text reads as an `i64`, 0 when it does not read.
pub open spec fn i64_or_zero(s: Seq<char>) -> i64 {
    match parse_in_range(s, true, i64::MIN as int, i64::MAX as int) {
        Some(v) => v as i64,
        None => 0,
    }
}

fn read_i64_or_zero(s: &str) -> (r: i64)
    ensures
        r == i64_or_zero(s@),
{
    match parse_i64(s) {
        Some(v) => v,
        None => 0,
    }
}

// ---------------------------------------------------------------------------
// What the folders hold
// ---------------------------------------------------------------------------
/// A player's folder.
#[derive(Debug)]
pub struct DriveDestinyPlayer {
    pub google_id: String,
    pub google_workbooks: Vec<TextEntry<String>>,
    pub bungie_id: String,
    pub bungie_name: String,
}

impl View for DriveDestinyPlayer {
    type V = DriveDestinyPlayer;

    open spec fn view(&self) -> DriveDestinyPlayer {
        *self
    }
}

/// A clan's folder within a season.
#[derive(Debug)]
pub struct DriveDestinyClans {
    pub google_id: String,
    pub google_workbooks: Vec<TextEntry<String>>,
    pub name: String,
    pub group_id: i64,
    pub players: Vec<TextEntry<DriveDestinyPlayer>>,
}

impl View for DriveDestinyClans {
    type V = DriveDestinyClans;

    open spec fn view(&self) -> DriveDestinyClans {
        *self
    }
}

/// A season's folder.
#[derive(Debug)]
pub struct DriveDestinySeason {
    pub google_id: String,
    pub number: i32,
    pub google_workbooks: Vec<TextEntry<String>>,
    pub clans: Vec<TextEntry<DriveDestinyClans>>,
}

impl View for DriveDestinySeason {
    type V = DriveDestinySeason;

    open spec fn view(&self) -> DriveDestinySeason {
        *self
    }
}

/// The season folders of the report folder's listing: every folder whose name gives a
/// season number, by id.
pub open spec fn season_folders(s: Seq<TextEntry<String>>) -> Map<Seq<char>, int>
    decreases s.len(),
{
    if s.len() == 0 {
        Map::empty()
    } else {
        match season_number(s.last().value@) {
            Some(n) => season_folders(s.drop_last()).insert(s.last().key@, n),
            None => season_folders(s.drop_last()),
        }
    }
}

/// The season folders found in the report folder, without their contents yet.
pub fn seasons_of_listing(parsed: &DriveFileList) -> (r: Vec<TextEntry<DriveDestinySeason>>)
    ensures
        text_keys_unique(r@),
        text_map(r@).dom() == season_folders(parsed.folders@).dom(),
        forall|k: Seq<char>| #[trigger] text_map(r@).dom().contains(k) ==> {
            let s = text_map(r@)[k];
            &&& s.number == season_folders(parsed.folders@)[k]
            &&& s.google_id@ == k
            &&& s.google_workbooks@.len() == 0
            &&& s.clans@.len() == 0
        },
{
    let folders = &parsed.folders;
    let mut out: Vec<TextEntry<DriveDestinySeason>> = Vec::new();
    let mut i: usize = 0;
    assert(text_map(out@) =~= Map::<Seq<char>, DriveDestinySeason>::empty());
    assert(season_folders(folders@.subrange(0, 0)) =~= Map::<Seq<char>, int>::empty());
    while i < folders.len()
        invariant
            i <= folders@.len(),
            text_keys_unique(out@),
            text_map(out@).dom() == season_folders(folders@.subrange(0, i as int)).dom(),
            forall|k: Seq<char>| #[trigger] text_map(out@).dom().contains(k) ==> {
                let s = text_map(out@)[k];
                &&& s.number == season_folders(folders@.subrange(0, i as int))[k]
                &&& s.google_id@ == k
                &&& s.google_workbooks@.len() == 0
                &&& s.clans@.len() == 0
            },
        decreases folders@.len() - i,
    {
        assert(folders@.subrange(0, i + 1).drop_last() =~= folders@.subrange(0, i as int));
        assert(folders@.subrange(0, i + 1).last() == folders@[i as int]);
        match season_folder_number(folders[i].value.as_str()) {
            Some(number) => {
                let season = DriveDestinySeason {
                    google_id: folders[i].key.clone(),
                    number,
                    google_workbooks: Vec::new(),
                    clans: Vec::new(),
                };
                text_insert(&mut out, folders[i].key.clone(), season);
                assert(text_map(out@).dom() =~= season_folders(folders@.subrange(0, i + 1)).dom());
            },
            None => {},
        }
        i = i + 1;
    }
    assert(folders@.subrange(0, folders@.len() as int) =~= folders@);
    out
}

/// A clan folder found in a season folder.
pub open spec fn clan_folder(id: Seq<char>, name: Seq<char>, c: DriveDestinyClans) -> bool {
    &&& c.google_id@ == id
    &&& c.name@ == name_untagged(name)
    &&& c.group_id == i64_or_zero(name_tag(name))
    &&& c.google_workbooks@.len() == 0
    &&& c.players@.len() == 0
}

/// The clan folders of a season folder's listing (`Clan name [group id]`), by id, and the
/// clans they name, by group id (the first name found for a group id is kept).
#[derive(Debug)]
pub struct SeasonListing {
    pub workbooks: Vec<TextEntry<String>>,
    pub clans: Vec<TextEntry<DriveDestinyClans>>,
}

/// Reads a season folder's listing: its spreadsheets by kind and its clan folders, and
/// records the clans in `known_clans` (group id to name) where they are not yet known.
pub fn read_season_listing(parsed: &DriveFileList, known_clans: &mut Vec<IdEntry<String>>) -> (r: SeasonListing)
    requires
        parsed.wf(),
        id_keys_unique(old(known_clans)@),
    ensures
        text_keys_unique(r.workbooks@),
        text_map(r.workbooks@) == workbook_kinds(parsed.workbooks@),
        text_keys_unique(r.clans@),
        text_map(r.clans@).dom() == text_map(parsed.folders@).dom(),
        forall|k: Seq<char>| #[trigger] text_map(r.clans@).dom().contains(k) ==> clan_folder(
            k,
            text_map(parsed.folders@)[k],
            text_map(r.clans@)[k],
        ),
        id_keys_unique(final(known_clans)@),
        forall|g: i64| #[trigger] id_map(old(known_clans)@).dom().contains(g) ==> id_map(final(known_clans)@).dom().contains(g)
            && id_map(final(known_clans)@)[g] == id_map(old(known_clans)@)[g],
        forall|g: i64| #[trigger] id_map(final(known_clans)@).dom().contains(g) ==> id_map(old(known_clans)@).dom().contains(g)
            || exists|k: Seq<char>| #[trigger] text_map(r.clans@).dom().contains(k) && text_map(r.clans@)[k].group_id == g,
{
    let workbooks = extract_workbooks(parsed);
    let folders = &parsed.folders;
    let mut clans: Vec<TextEntry<DriveDestinyClans>> = Vec::new();
    let mut i: usize = 0;
    assert(text_map(clans@) =~= Map::<Seq<char>, DriveDestinyClans>::empty());
    assert(text_map(folders@.subrange(0, 0)) =~= Map::<Seq<char>, Seq<char>>::empty());
    while i < folders.len()
        invariant
            i <= folders@.len(),
            text_keys_unique(folders@),
            text_keys_unique(clans@),
            text_map(clans@).dom() == text_map(folders@.subrange(0, i as int)).dom(),
            forall|k: Seq<char>| #[trigger] text_map(clans@).dom().contains(k) ==> clan_folder(
                k,
                text_map(folders@.subrange(0, i as int))[k],
                text_map(clans@)[k],
            ),
            id_keys_unique(known_clans@),
            forall|g: i64| #[trigger] id_map(old(known_clans)@).dom().contains(g) ==> id_map(known_clans@).dom().contains(g)
                && id_map(known_clans@)[g] == id_map(old(known_clans)@)[g],
            forall|g: i64| #[trigger] id_map(known_clans@).dom().contains(g) ==> id_map(old(known_clans)@).dom().contains(g)
                || exists|k: Seq<char>| #[trigger] text_map(clans@).dom().contains(k) && text_map(clans@)[k].group_id == g,
        decreases folders@.len() - i,
    {
        let ghost pre = folders@.subrange(0, i as int);
        let ghost next = folders@.subrange(0, i + 1);
        assert(next.drop_last() =~= pre);
        let ghost old_clans = clans@;
        let ghost old_known = known_clans@;
        let tagged = split_tagged_name(folders[i].value.as_str());
        let group_id = read_i64_or_zero(tagged.tag.as_str());
        let clan = DriveDestinyClans {
            google_id: folders[i].key.clone(),
            google_workbooks: Vec::new(),
            name: tagged.name,
            group_id,
            players: Vec::new(),
        };
        let ghost cg = clan;
        let name_copy = clan.name.clone();
        text_insert(&mut clans, folders[i].key.clone(), clan);
        id_insert_absent(known_clans, group_id, name_copy);
        proof {
            assert(text_map(clans@).dom().contains(folders@[i as int].key@));
            assert(text_map(clans@)[folders@[i as int].key@] == cg);
            assert(text_map(clans@).dom() =~= text_map(next).dom());
            assert forall|g: i64| #[trigger] id_map(known_clans@).dom().contains(g) implies id_map(old(known_clans)@).dom().contains(g)
                || exists|k: Seq<char>| #[trigger] text_map(clans@).dom().contains(k) && text_map(clans@)[k].group_id == g by {
                if g == group_id && !id_map(old_known).dom().contains(g) {
                    assert(text_map(clans@).dom().contains(folders@[i as int].key@));
                } else if !id_map(old(known_clans)@).dom().contains(g) {
                    assert(id_map(old_known).dom().contains(g));
                    let k = choose|k: Seq<char>| #[trigger] text_map(old_clans).dom().contains(k) && text_map(old_clans)[k].group_id == g;
                    assert(k != folders@[i as int].key@) by {
                        if k == folders@[i as int].key@ {
                            lemma_text_map_dom(pre, k);
                            let q = choose|q: int| 0 <= q < pre.len() && #[trigger] pre[q].key@ == k;
                            assert(folders@[q].key@ == folders@[i as int].key@);
                        }
                    }
                    assert(text_map(clans@).dom().contains(k));
                }
            }
        }
        i = i + 1;
    }
    assert(folders@.subrange(0, folders@.len() as int) =~= folders@);
    SeasonListing { workbooks, clans }
}

/// A player folder found in a clan folder.
pub open spec fn player_folder(id: Seq<char>, name: Seq<char>, p: DriveDestinyPlayer) -> bool {
    &&& p.google_id@ == id
    &&& p.bungie_id@ == name_tag(trim_spec(name))
    &&& p.bungie_name@ == name_untagged(trim_spec(name))
    &&& p.google_workbooks@.len() == 0
}

/// The spreadsheets and player folders (`Player name [membership id]`) of a clan folder.
#[derive(Debug)]
pub struct ClanListing {
    pub workbooks: Vec<TextEntry<String>>,
    pub players: Vec<TextEntry<DriveDestinyPlayer>>,
}

/// Reads a clan folder's listing: its spreadsheets by kind and its player folders, and
/// records the players in `known_players` (membership id to name) where they are not yet known.
pub fn read_clan_listing(parsed: &DriveFileList, known_players: &mut Vec<IdEntry<String>>) -> (r: ClanListing)
    requires
        parsed.wf(),
        id_keys_unique(old(known_players)@),
    ensures
        text_keys_unique(r.workbooks@),
        text_map(r.workbooks@) == workbook_kinds(parsed.workbooks@),
        text_keys_unique(r.players@),
        text_map(r.players@).dom() == text_map(parsed.folders@).dom(),
        forall|k: Seq<char>| #[trigger] text_map(r.players@).dom().contains(k) ==> player_folder(
            k,
            text_map(parsed.folders@)[k],
            text_map(r.players@)[k],
        ),
        id_keys_unique(final(known_players)@),
        forall|g: i64| #[trigger] id_map(old(known_players)@).dom().contains(g) ==> id_map(final(known_players)@).dom().contains(g)
            && id_map(final(known_players)@)[g] == id_map(old(known_players)@)[g],
        forall|g: i64| #[trigger] id_map(final(known_players)@).dom().contains(g) ==> id_map(old(known_players)@).dom().contains(g)
            || exists|k: Seq<char>| #[trigger] text_map(r.players@).dom().contains(k) && i64_or_zero(text_map(r.players@)[k].bungie_id@) == g,
{
    let workbooks = extract_workbooks(parsed);
    let folders = &parsed.folders;
    let mut players: Vec<TextEntry<DriveDestinyPlayer>> = Vec::new();
    let mut i: usize = 0;
    assert(text_map(players@) =~= Map::<Seq<char>, DriveDestinyPlayer>::empty());
    assert(text_map(folders@.subrange(0, 0)) =~= Map::<Seq<char>, Seq<char>>::empty());
    while i < folders.len()
        invariant
            i <= folders@.len(),
            text_keys_unique(folders@),
            text_keys_unique(players@),
            text_map(players@).dom() == text_map(folders@.subrange(0, i as int)).dom(),
            forall|k: Seq<char>| #[trigger] text_map(players@).dom().contains(k) ==> player_folder(
                k,
                text_map(folders@.subrange(0, i as int))[k],
                text_map(players@)[k],
            ),
            id_keys_unique(known_players@),
            forall|g: i64| #[trigger] id_map(old(known_players)@).dom().contains(g) ==> id_map(known_players@).dom().contains(g)
                && id_map(known_players@)[g] == id_map(old(known_players)@)[g],
            forall|g: i64| #[trigger] id_map(known_players@).dom().contains(g) ==> id_map(old(known_players)@).dom().contains(g)
                || exists|k: Seq<char>| #[trigger] text_map(players@).dom().contains(k) && i64_or_zero(text_map(players@)[k].bungie_id@) == g,
        decreases folders@.len() - i,
    {
        let ghost pre = folders@.subrange(0, i as int);
        let ghost next = folders@.subrange(0, i + 1);
        assert(next.drop_last() =~= pre);
        let ghost old_players = players@;
        let ghost old_known = known_players@;
        let name = trim(folders[i].value.as_str());
        let tagged = split_tagged_name(name.as_str());
        let member_id = read_i64_or_zero(tagged.tag.as_str());
        let player_name = tagged.name.clone();
        let player = DriveDestinyPlayer {
            google_id: folders[i].key.clone(),
            google_workbooks: Vec::new(),
            bungie_id: tagged.tag,
            bungie_name: tagged.name,
        };
        let ghost pg = player;
        text_insert(&mut players, folders[i].key.clone(), player);
        id_insert_absent(known_players, member_id, player_name);
        proof {
            assert(text_map(players@).dom().contains(folders@[i as int].key@));
            assert(text_map(players@)[folders@[i as int].key@] == pg);
            assert(text_map(players@).dom() =~= text_map(next).dom());
            assert forall|g: i64| #[trigger] id_map(known_players@).dom().contains(g) implies id_map(old(known_players)@).dom().contains(g)
                || exists|k: Seq<char>| #[trigger] text_map(players@).dom().contains(k) && i64_or_zero(text_map(players@)[k].bungie_id@) == g by {
                if g == member_id && !id_map(old_known).dom().contains(g) {
                    assert(text_map(players@).dom().contains(folders@[i as int].key@));
                } else if !id_map(old(known_players)@).dom().contains(g) {
                    assert(id_map(old_known).dom().contains(g));
                    let k = choose|k: Seq<char>| #[trigger] text_map(old_players).dom().contains(k) && i64_or_zero(text_map(old_players)[k].bungie_id@) == g;
                    assert(k != folders@[i as int].key@) by {
                        if k == folders@[i as int].key@ {
                            lemma_text_map_dom(pre, k);
                            let q = choose|q: int| 0 <= q < pre.len() && #[trigger] pre[q].key@ == k;
                            assert(folders@[q].key@ == folders@[i as int].key@);
                        }
                    }
                    assert(text_map(players@).dom().contains(k));
                }
            }
        }
        i = i + 1;
    }
    assert(folders@.subrange(0, folders@.len() as int) =~= folders@);
    ClanListing { workbooks, players }
}

// ---------------------------------------------------------------------------
// The index of the report folders
// ---------------------------------------------------------------------------
/// What the report folder holds: its spreadsheets by kind, the clans and players named
/// by the folders (by group and membership id), and the season folders by id.
#[derive(Debug)]
pub struct DriveDestinyReports {
    pub google_id: String,
    pub google_workbooks: Vec<TextEntry<String>>,
    pub clans: Vec<IdEntry<String>>,
    pub players: Vec<IdEntry<String>>,
    pub seasons: Vec<TextEntry<DriveDestinySeason>>,
}

/// The season `s` has a clan folder for `group_id`, with id `k`.
pub open spec fn season_has_clan(s: DriveDestinySeason, k: Seq<char>, group_id: i64) -> bool {
    text_map(s.clans@).dom().contains(k) && text_map(s.clans@)[k].group_id == group_id
}

impl DriveDestinyReports {
    /// Distinct keys in every list.
    pub open spec fn wf(&self) -> bool {
        &&& text_keys_unique(self.google_workbooks@)
        &&& id_keys_unique(self.clans@)
        &&& id_keys_unique(self.players@)
        &&& text_keys_unique(self.seasons@)
        &&& forall|i: int| 0 <= i < self.seasons@.len() ==> text_keys_unique(#[trigger] self.seasons@[i].value.clans@)
    }

    /// The seasons by folder id.
    pub open spec fn season_map(&self) -> Map<Seq<char>, DriveDestinySeason> {
        text_map(self.seasons@)
    }

    /// An empty index of the report folder `google_id`.
    pub fn new(google_id: String) -> (r: DriveDestinyReports)
        ensures
            r.wf(),
            r.google_id == google_id,
            r.google_workbooks@.len() == 0,
            r.clans@.len() == 0,
            r.players@.len() == 0,
            r.seasons@.len() == 0,
    {
        DriveDestinyReports {
            google_id,
            google_workbooks: Vec::new(),
            clans: Vec::new(),
            players: Vec::new(),
            seasons: Vec::new(),
        }
    }

    /// The folder id of a season folder with this number.
    pub fn get_season(&self, number: i32) -> (r: Option<String>)
        requires
            self.wf(),
        ensures
            r matches Some(id) ==> self.season_map().dom().contains(id@) && self.season_map()[id@].number
                == number,
            r is None ==> forall|k: Seq<char>| #[trigger]
                self.season_map().dom().contains(k) ==> self.season_map()[k].number != number,
            r is Some <==> has_season(*self, number),
    {
        let mut i: usize = 0;
        while i < self.seasons.len()
            invariant
                self.wf(),
                i <= self.seasons@.len(),
                forall|j: int| 0 <= j < i ==> #[trigger] self.seasons@[j].value.number != number,
            decreases self.seasons@.len() - i,
        {
            if self.seasons[i].value.number == number {
                proof {
                    lemma_text_map_at(self.seasons@, i as int);
                    assert(self.season_map().dom().contains(self.seasons@[i as int].key@));
                }
                return Some(self.seasons[i].key.clone());
            }
            i = i + 1;
        }
        proof {
            assert forall|k: Seq<char>| #[trigger] self.season_map().dom().contains(k) implies self.season_map()[k].number
                != number by {
                lemma_text_map_dom(self.seasons@, k);
                let j = choose|j: int| 0 <= j < self.seasons@.len() && #[trigger] self.seasons@[j].key@ == k;
                lemma_text_map_at(self.seasons@, j);
            }
        }
        None
    }

    /// The folder id of a clan folder for `group_id` in a season folder with number `season`.
    pub fn get_season_clan(&self, season: i32, group_id: i64) -> (r: Option<String>)
        requires
            self.wf(),
        ensures
            r matches Some(id) ==> exists|sk: Seq<char>|
                #[trigger] self.season_map().dom().contains(sk) && self.season_map()[sk].number == season
                    && season_has_clan(self.season_map()[sk], id@, group_id),
            r is None ==> forall|sk: Seq<char>, ck: Seq<char>|
                #[trigger] self.season_map().dom().contains(sk) && self.season_map()[sk].number == season
                    ==> !#[trigger] season_has_clan(self.season_map()[sk], ck, group_id),
            r is Some <==> has_clan_folder(*self, season, group_id),
    {
        let mut i: usize = 0;
        while i < self.seasons.len()
            invariant
                self.wf(),
                i <= self.seasons@.len(),
                forall|j: int, ck: Seq<char>|
                    0 <= j < i && #[trigger] self.seasons@[j].value.number == season ==> !#[trigger] season_has_clan(
                        self.seasons@[j].value,
                        ck,
                        group_id,
                    ),
            decreases self.seasons@.len() - i,
        {
            let clans = &self.seasons[i].value.clans;
            if self.seasons[i].value.number == season {
                assert(text_keys_unique(self.seasons@[i as int].value.clans@));
                let mut c: usize = 0;
                while c < clans.len()
                    invariant
                        self.wf(),
                        i < self.seasons@.len(),
                        self.seasons@[i as int].value.number == season,
                        c <= clans@.len(),
                        *clans == self.seasons@[i as int].value.clans,
                        text_keys_unique(clans@),
                        forall|q: int| 0 <= q < c ==> #[trigger] clans@[q].value.group_id != group_id,
                    decreases clans@.len() - c,
                {
                    if clans[c].value.group_id == group_id {
                        proof {
                            lemma_text_map_at(self.seasons@, i as int);
                            lemma_text_map_at(clans@, c as int);
                            let sk = self.seasons@[i as int].key@;
                            assert(self.season_map().dom().contains(sk));
                            assert(season_has_clan(self.season_map()[sk], clans@[c as int].key@, group_id));
                        }
                        return Some(clans[c].key.clone());
                    }
                    c = c + 1;
                }
                proof {
                    assert forall|ck: Seq<char>| !#[trigger] season_has_clan(self.seasons@[i as int].value, ck, group_id) by {
                        lemma_text_map_dom(clans@, ck);
                        if text_map(clans@).dom().contains(ck) {
                            let q = choose|q: int| 0 <= q < clans@.len() && #[trigger] clans@[q].key@ == ck;
                            lemma_text_map_at(clans@, q);
                        }
                    }
                }
            }
            i = i + 1;
        }
        proof {
            assert forall|sk: Seq<char>, ck: Seq<char>|
                #[trigger] self.season_map().dom().contains(sk) && self.season_map()[sk].number == season
                    implies !#[trigger] season_has_clan(self.season_map()[sk], ck, group_id) by {
                lemma_text_map_dom(self.seasons@, sk);
                let j = choose|j: int| 0 <= j < self.seasons@.len() && #[trigger] self.seasons@[j].key@ == sk;
                lemma_text_map_at(self.seasons@, j);
                assert(self.seasons@[j].value.number == season);
            }
        }
        None
    }

    /// Records a season folder created with id `google_id`.
    pub fn add_season(&mut self, google_id: String, number: i32)
        requires
            old(self).wf(),
        ensures
            final(self).wf(),
            final(self).season_map().dom() == old(self).season_map().dom().insert(google_id@),
            final(self).season_map()[google_id@].number == number,
            final(self).season_map()[google_id@].google_id == google_id,
            final(self).season_map()[google_id@].clans@.len() == 0,
            final(self).season_map()[google_id@].google_workbooks@.len() == 0,
            forall|k: Seq<char>| k != google_id@ ==> #[trigger] final(self).season_map().dom().contains(k)
                ==> final(self).season_map()[k] == old(self).season_map()[k],
            final(self).google_id == old(self).google_id,
            final(self).google_workbooks == old(self).google_workbooks,
            final(self).clans == old(self).clans,
            final(self).players == old(self).players,
    {
        let season = DriveDestinySeason {
            google_id: google_id.clone(),
            number,
            google_workbooks: Vec::new(),
            clans: Vec::new(),
        };
        let ghost before = self.seasons@;
        text_insert(&mut self.seasons, google_id, season);
        proof {
            assert forall|i: int| 0 <= i < self.seasons@.len() implies text_keys_unique(#[trigger] self.seasons@[i].value.clans@) by {
                lemma_text_map_at(self.seasons@, i);
                let k = self.seasons@[i].key@;
                if self.seasons@[i].value.clans@.len() > 0 {
                    lemma_text_map_dom(before, k);
                    let j = choose|j: int| 0 <= j < before.len() && #[trigger] before[j].key@ == k;
                    lemma_text_map_at(before, j);
                    assert(text_keys_unique(before[j].value.clans@));
                }
            }
        }
    }

    /// Records a clan folder created with id `google_id` for `group_id` in the season
    /// folder `season_google_id`, and the clan's name; nothing when that season folder is unknown.
    pub fn add_season_clan(&mut self, season_google_id: &str, google_id: String, group_id: i64, name: String)
        requires
            old(self).wf(),
        ensures
            final(self).wf(),
            final(self).season_map().dom() == old(self).season_map().dom(),
            !old(self).season_map().dom().contains(season_google_id@) ==> final(self).season_map() == old(self).season_map()
                && final(self).clans == old(self).clans,
            old(self).season_map().dom().contains(season_google_id@) ==> {
                let before = old(self).season_map()[season_google_id@];
                let after = final(self).season_map()[season_google_id@];
                &&& after.number == before.number
                &&& after.google_id == before.google_id
                &&& after.google_workbooks == before.google_workbooks
                &&& text_map(after.clans@).dom() == text_map(before.clans@).dom().insert(google_id@)
                &&& text_map(after.clans@)[google_id@].group_id == group_id
                &&& text_map(after.clans@)[google_id@].name@ == name@
                &&& text_map(after.clans@)[google_id@].google_id@ == google_id@
                &&& text_map(after.clans@)[google_id@].google_workbooks@.len() == 0
                &&& text_map(after.clans@)[google_id@].players@.len() == 0
                &&& forall|k: Seq<char>| k != google_id@ && #[trigger] text_map(after.clans@).dom().contains(k)
                    ==> text_map(after.clans@)[k] == text_map(before.clans@)[k]
                &&& id_map(final(self).clans@) == id_map(old(self).clans@).insert(group_id, name@)
            },
            forall|k: Seq<char>| k != season_google_id@ ==> #[trigger] final(self).season_map().dom().contains(k)
                ==> final(self).season_map()[k] == old(self).season_map()[k],
            final(self).google_id == old(self).google_id,
            final(self).google_workbooks == old(self).google_workbooks,
            final(self).players == old(self).players,
    {
        let ghost before = self.seasons@;
        match text_find(&self.seasons, season_google_id) {
            None => {
                proof {
                    lemma_text_map_dom(before, season_google_id@);
                }
            },
            Some(i) => {
                proof {
                    lemma_text_map_at(before, i as int);
                    assert(text_keys_unique(before[i as int].value.clans@));
                }
                let mut entry = self.seasons.remove(i);
                let ghost old_entry = entry;
                let clan = DriveDestinyClans {
                    google_id: google_id.clone(),
                    google_workbooks: Vec::new(),
                    name: name.clone(),
                    group_id,
                    players: Vec::new(),
                };
                text_insert(&mut entry.value.clans, google_id, clan);
                let ghost new_entry = entry;
                self.seasons.insert(i, entry);
                id_insert(&mut self.clans, group_id, name);
                proof {
                    assert(self.seasons@ =~= before.update(i as int, new_entry));
                    lemma_text_map_update(before, i as int, new_entry);
                    assert forall|j: int| 0 <= j < self.seasons@.len() implies text_keys_unique(#[trigger] self.seasons@[j].value.clans@) by {
                        if j != i {
                            assert(self.seasons@[j] == before[j]);
                        }
                    }
                    assert(final(self).season_map().dom() =~= old(self).season_map().dom());
                }
            },
        }
    }
}

/// The name of a season's folder: `Season {number}`.
pub fn season_folder_name(number: i32) -> (r: String)
    ensures
        r@ == "Season "@ + int_text(number as int),
{
    let mut name = String::from_str("Season ");
    let n = i64_text(number as i64);
    name.append(n.as_str());
    name
}

/// The name of a clan's folder: `{name} [{group id}]`.
pub fn clan_folder_name(name: &str, group_id: i64) -> (r: String)
    ensures
        r@ == name@ + " ["@ + int_text(group_id as int) + "]"@,
{
    let mut folder = String::from_str(name);
    folder.append(" [");
    let id = i64_text(group_id);
    folder.append(id.as_str());
    folder.append("]");
    folder
}


/// The group id written into a clan's folder name is the one read back from its tag.
pub proof fn lemma_clan_folder_tag(name: Seq<char>, group_id: i64)
    ensures
        i64_or_zero(name_tag(name + " ["@ + int_text(group_id as int) + "]"@)) == group_id,
{
    reveal_strlit(" [");
    reveal_strlit("]");
    let digits = int_text(group_id as int);
    let b = seq!['['] + digits + seq![']'];
    let s = name + " ["@ + digits + "]"@;
    lemma_int_text_reads_back(group_id as int);
    assert(s =~= name + seq![' '] + b);
    assert(!b.contains(' ')) by {
        if b.contains(' ') {
            let i = choose|i: int| 0 <= i < b.len() && b[i] == ' ';
            assert(digits[i - 1] == ' ');
        }
    }
    lemma_split_append(name, b, ' ');
    assert(split_spec(s, ' ').last() == b);
    assert(trim_spec(b) == b) by {
        assert(!crate::text::is_white_space(b[0]));
        assert(!crate::text::is_white_space(b.last()));
    }
    assert(b.subrange(1, b.len() - 1) =~= digits);
    lemma_parse_in_range_text(group_id as int, true, i64::MIN as int, i64::MAX as int);
}


/// After a season folder with number `n` is recorded, the index holds a season folder with
/// that number, so a lookup of `n` finds one.
pub proof fn lemma_added_season_found(before: DriveDestinyReports, after: DriveDestinyReports, g: Seq<char>, n: i32)
    requires
        after.season_map().dom() == before.season_map().dom().insert(g),
        after.season_map()[g].number == n,
    ensures
        has_season(after, n),
{
    assert(after.season_map().dom().contains(g));
}

/// Creating a clan's folder for a season: once the season folder `sk` with number `n`
/// is there (found, or recorded by `add_season`) and the clan folder `ck` for `group_id`
/// is recorded in it (`add_season_clan`), a lookup of that season finds a folder, a lookup
/// of that clan in that season finds a folder, the new folder holds the clan's id, name
/// and group and nothing else yet, and the clan is known under its group by that name.
pub proof fn lemma_season_clan_created(
    mid: DriveDestinyReports,
    after: DriveDestinyReports,
    sk: Seq<char>,
    ck: Seq<char>,
    group_id: i64,
    name: Seq<char>,
    n: i32,
)
    requires
        mid.season_map().dom().contains(sk),
        mid.season_map()[sk].number == n,
        after.season_map().dom() == mid.season_map().dom(),
        after.season_map()[sk].number == mid.season_map()[sk].number,
        text_map(after.season_map()[sk].clans@).dom().contains(ck),
        text_map(after.season_map()[sk].clans@)[ck].group_id == group_id,
        text_map(after.season_map()[sk].clans@)[ck].name@ == name,
        text_map(after.season_map()[sk].clans@)[ck].google_id@ == ck,
        text_map(after.season_map()[sk].clans@)[ck].google_workbooks@.len() == 0,
        text_map(after.season_map()[sk].clans@)[ck].players@.len() == 0,
        id_map(after.clans@) == id_map(mid.clans@).insert(group_id, name),
    ensures
        has_season(after, n),
        has_clan_folder(after, n, group_id),
        season_has_clan(after.season_map()[sk], ck, group_id),
        ({
            let c = text_map(after.season_map()[sk].clans@)[ck];
            &&& c.google_id@ == ck
            &&& c.name@ == name
            &&& c.google_workbooks@.len() == 0
            &&& c.players@.len() == 0
        }),
        id_map(after.clans@).dom().contains(group_id),
        id_map(after.clans@)[group_id] == name,
{
    assert(after.season_map().dom().contains(sk));
    assert(season_has_clan(after.season_map()[sk], ck, group_id));
}

// ---------------------------------------------------------------------------
// Planning the report folders
// ---------------------------------------------------------------------------
/// The index has a season folder with number `n`.
pub open spec fn has_season(d: DriveDestinyReports, n: i32) -> bool {
    exists|k: Seq<char>| #[trigger] d.season_map().dom().contains(k) && d.season_map()[k].number == n
}

/// The index has a clan folder for `group_id` in a season folder with number `n`.
pub open spec fn has_clan_folder(d: DriveDestinyReports, n: i32, group_id: i64) -> bool {
    exists|sk: Seq<char>, ck: Seq<char>|
        #[trigger] d.season_map().dom().contains(sk) && d.season_map()[sk].number == n
            && #[trigger] season_has_clan(d.season_map()[sk], ck, group_id)
}

/// The clan folder `ck` of season `s` holds an overview spreadsheet.
pub open spec fn clan_has_overview(s: DriveDestinySeason, ck: Seq<char>) -> bool {
    text_map(text_map(s.clans@)[ck].google_workbooks@).dom().contains("overview"@)
}

/// The index has a clan folder for `group_id`, in a season folder with number `n`, that
/// holds an overview spreadsheet.
pub open spec fn has_overview(d: DriveDestinyReports, n: i32, group_id: i64) -> bool {
    exists|sk: Seq<char>, ck: Seq<char>|
        #[trigger] d.season_map().dom().contains(sk) && d.season_map()[sk].number == n
            && #[trigger] season_has_clan(d.season_map()[sk], ck, group_id) && clan_has_overview(
            d.season_map()[sk],
            ck,
        )
}

/// The season folders to create for the active seasons `seasons`, in order: each season
/// without a folder, once.
pub open spec fn seasons_to_create(d: DriveDestinyReports, seasons: Seq<i32>) -> Seq<i32>
    decreases seasons.len(),
{
    if seasons.len() == 0 {
        Seq::<i32>::empty()
    } else {
        let before = seasons_to_create(d, seasons.drop_last());
        if !has_season(d, seasons.last()) && !before.contains(seasons.last()) {
            before.push(seasons.last())
        } else {
            before
        }
    }
}

/// An earlier clan of the list has the same group id as clan `ci`.
pub open spec fn clan_seen_before(clans: Seq<IdEntry<String>>, ci: int) -> bool {
    exists|j: int| 0 <= j < ci && #[trigger] clans[j].key == clans[ci].key
}

/// An earlier season of the list has the same number as season `si`.
pub open spec fn season_seen_before(seasons: Seq<i32>, si: int) -> bool {
    exists|j: int| 0 <= j < si && #[trigger] seasons[j] == seasons[si]
}

/// What the report folders need for one clan in one season.
#[derive(Debug)]
pub struct ClanFolderStep {
    pub season: i32,
    pub group_id: i64,
    pub name: String,
    /// The clan's folder for the season is created (`{name} [{group id}]`).
    pub create_folder: bool,
    /// The clan's overview spreadsheet for the season is copied in.
    pub create_overview: bool,
}

/// What the report folders need: the season folders to create, then for each clan and
/// each season (clans outside, seasons inside) the step for that clan's folder.
#[derive(Debug)]
pub struct ReportFolderPlan {
    pub new_seasons: Vec<i32>,
    pub clan_steps: Vec<Vec<ClanFolderStep>>,
}

fn season_known(d: &DriveDestinyReports, n: i32) -> (r: bool)
    requires
        d.wf(),
    ensures
        r == has_season(*d, n),
{
    let found = d.get_season(n);
    match found {
        Some(id) => {
            assert(d.season_map().dom().contains(id@));
            true
        },
        None => false,
    }
}

fn clan_folder_known(d: &DriveDestinyReports, n: i32, group_id: i64) -> (r: bool)
    requires
        d.wf(),
    ensures
        r == has_clan_folder(*d, n, group_id),
{
    let found = d.get_season_clan(n, group_id);
    match found {
        Some(id) => {
            proof {
                let sk = choose|sk: Seq<char>|
                    #[trigger] d.season_map().dom().contains(sk) && d.season_map()[sk].number == n
                        && season_has_clan(d.season_map()[sk], id@, group_id);
                assert(season_has_clan(d.season_map()[sk], id@, group_id));
            }
            true
        },
        None => false,
    }
}

fn overview_known(d: &DriveDestinyReports, n: i32, group_id: i64) -> (r: bool)
    requires
        d.wf(),
    ensures
        r == has_overview(*d, n, group_id),
{
    let mut i: usize = 0;
    while i < d.seasons.len()
        invariant
            d.wf(),
            i <= d.seasons@.len(),
            forall|j: int, ck: Seq<char>|
                0 <= j < i && #[trigger] d.seasons@[j].value.number == n ==> !(#[trigger] season_has_clan(
                    d.seasons@[j].value,
                    ck,
                    group_id,
                ) && clan_has_overview(d.seasons@[j].value, ck)),
        decreases d.seasons@.len() - i,
    {
        let clans = &d.seasons[i].value.clans;
        if d.seasons[i].value.number == n {
            assert(text_keys_unique(d.seasons@[i as int].value.clans@));
            let mut c: usize = 0;
            while c < clans.len()
                invariant
                    d.wf(),
                    i < d.seasons@.len(),
                    d.seasons@[i as int].value.number == n,
                    c <= clans@.len(),
                    *clans == d.seasons@[i as int].value.clans,
                    text_keys_unique(clans@),
                    forall|q: int|
                        0 <= q < c ==> !(#[trigger] clans@[q].value.group_id == group_id && text_map(
                            clans@[q].value.google_workbooks@,
                        ).dom().contains("overview"@)),
                decreases clans@.len() - c,
            {
                if clans[c].value.group_id == group_id {
                    let w = text_find(&clans[c].value.google_workbooks, "overview");
                    proof {
                        lemma_text_map_dom(clans@[c as int].value.google_workbooks@, "overview"@);
                    }
                    if w.is_some() {
                        proof {
                            lemma_text_map_at(d.seasons@, i as int);
                            lemma_text_map_at(clans@, c as int);
                            let sk = d.seasons@[i as int].key@;
                            let ck = clans@[c as int].key@;
                            assert(d.season_map().dom().contains(sk));
                            assert(season_has_clan(d.season_map()[sk], ck, group_id));
                            assert(clan_has_overview(d.season_map()[sk], ck));
                        }
                        return true;
                    }
                }
                c = c + 1;
            }
            proof {
                assert forall|ck: Seq<char>|
                    !(#[trigger] season_has_clan(d.seasons@[i as int].value, ck, group_id) && clan_has_overview(
                        d.seasons@[i as int].value,
                        ck,
                    )) by {
                    lemma_text_map_dom(clans@, ck);
                    if text_map(clans@).dom().contains(ck) {
                        let q = choose|q: int| 0 <= q < clans@.len() && #[trigger] clans@[q].key@ == ck;
                        lemma_text_map_at(clans@, q);
                        if clans@[q].value.group_id == group_id {
                            lemma_text_map_dom(clans@[q].value.google_workbooks@, "overview"@);
                        }
                    }
                }
            }
        }
        i = i + 1;
    }
    proof {
        assert forall|sk: Seq<char>, ck: Seq<char>|
            #[trigger] d.season_map().dom().contains(sk) && d.season_map()[sk].number == n
                && #[trigger] season_has_clan(d.season_map()[sk], ck, group_id) implies !clan_has_overview(
            d.season_map()[sk],
            ck,
        ) by {
            lemma_text_map_dom(d.seasons@, sk);
            let j = choose|j: int| 0 <= j < d.seasons@.len() && #[trigger] d.seasons@[j].key@ == sk;
            lemma_text_map_at(d.seasons@, j);
            assert(d.seasons@[j].value.number == n);
        }
    }
    false
}

fn contains_i32(v: &Vec<i32>, x: i32) -> (r: bool)
    ensures
        r == v@.contains(x),
{
    let mut i: usize = 0;
    while i < v.len()
        invariant
            i <= v@.len(),
            forall|j: int| 0 <= j < i ==> v@[j] != x,
        decreases v@.len() - i,
    {
        if v[i] == x {
            assert(v@[i as int] == x);
            return true;
        }
        i = i + 1;
    }
    false
}

fn clan_seen(clans: &Vec<IdEntry<String>>, ci: usize) -> (r: bool)
    requires
        ci < clans@.len(),
    ensures
        r == clan_seen_before(clans@, ci as int),
{
    let mut j: usize = 0;
    while j < ci
        invariant
            ci < clans@.len(),
            j <= ci,
            forall|q: int| 0 <= q < j ==> clans@[q].key != clans@[ci as int].key,
        decreases ci - j,
    {
        if clans[j].key == clans[ci].key {
            assert(clans@[j as int].key == clans@[ci as int].key);
            return true;
        }
        j = j + 1;
    }
    false
}

fn season_seen(seasons: &Vec<i32>, si: usize) -> (r: bool)
    requires
        si < seasons@.len(),
    ensures
        r == season_seen_before(seasons@, si as int),
{
    let mut j: usize = 0;
    while j < si
        invariant
            si < seasons@.len(),
            j <= si,
            forall|q: int| 0 <= q < j ==> seasons@[q] != seasons@[si as int],
        decreases si - j,
    {
        if seasons[j] == seasons[si] {
            assert(seasons@[j as int] == seasons@[si as int]);
            return true;
        }
        j = j + 1;
    }
    false
}

/// What the report folders need for the active seasons `seasons` and the network clans
/// `clans` (group id and name): the season folders to create, and for each clan and
/// season whether its folder is created (it has none yet and no earlier step creates it)
/// and whether its overview spreadsheet is copied in (no clan folder of that season and
/// group holds one).
pub fn plan_report_folders(d: &DriveDestinyReports, seasons: &Vec<i32>, clans: &Vec<IdEntry<String>>) -> (p: ReportFolderPlan)
    requires
        d.wf(),
    ensures
        p.new_seasons@ == seasons_to_create(*d, seasons@),
        p.clan_steps@.len() == clans@.len(),
        forall|ci: int|
            0 <= ci < clans@.len() ==> (#[trigger] p.clan_steps@[ci])@.len() == seasons@.len(),
        forall|ci: int, si: int|
            0 <= ci < clans@.len() && 0 <= si < seasons@.len() ==> {
                let step = #[trigger] p.clan_steps@[ci]@[si];
                &&& step.season == seasons@[si]
                &&& step.group_id == clans@[ci].key
                &&& step.name@ == clans@[ci].value@
                &&& step.create_folder == (!has_clan_folder(*d, seasons@[si], clans@[ci].key)
                    && !clan_seen_before(clans@, ci) && !season_seen_before(seasons@, si))
                &&& step.create_overview == !has_overview(*d, seasons@[si], clans@[ci].key)
            },
{
    let mut new_seasons: Vec<i32> = Vec::new();
    let mut i: usize = 0;
    while i < seasons.len()
        invariant
            d.wf(),
            i <= seasons@.len(),
            new_seasons@ == seasons_to_create(*d, seasons@.subrange(0, i as int)),
        decreases seasons@.len() - i,
    {
        let ghost next = seasons@.subrange(0, i + 1);
        assert(next.drop_last() =~= seasons@.subrange(0, i as int));
        assert(next.last() == seasons@[i as int]);
        let known = season_known(d, seasons[i]);
        let listed = contains_i32(&new_seasons, seasons[i]);
        if !known && !listed {
            new_seasons.push(seasons[i]);
        }
        i = i + 1;
    }
    assert(seasons@.subrange(0, seasons@.len() as int) =~= seasons@);
    let mut clan_steps: Vec<Vec<ClanFolderStep>> = Vec::new();
    let mut ci: usize = 0;
    while ci < clans.len()
        invariant
            d.wf(),
            ci <= clans@.len(),
            clan_steps@.len() == ci,
            forall|c: int| 0 <= c < ci ==> (#[trigger] clan_steps@[c])@.len() == seasons@.len(),
            forall|c: int, si: int|
                0 <= c < ci && 0 <= si < seasons@.len() ==> {
                    let step = #[trigger] clan_steps@[c]@[si];
                    &&& step.season == seasons@[si]
                    &&& step.group_id == clans@[c].key
                    &&& step.name@ == clans@[c].value@
                    &&& step.create_folder == (!has_clan_folder(*d, seasons@[si], clans@[c].key)
                        && !clan_seen_before(clans@, c) && !season_seen_before(seasons@, si))
                    &&& step.create_overview == !has_overview(*d, seasons@[si], clans@[c].key)
                },
        decreases clans@.len() - ci,
    {
        let group_id = clans[ci].key;
        let earlier_clan = clan_seen(clans, ci);
        let mut steps: Vec<ClanFolderStep> = Vec::new();
        let mut si: usize = 0;
        while si < seasons.len()
            invariant
                d.wf(),
                ci < clans@.len(),
                group_id == clans@[ci as int].key,
                earlier_clan == clan_seen_before(clans@, ci as int),
                si <= seasons@.len(),
                steps@.len() == si,
                forall|s: int|
                    0 <= s < si ==> {
                        let step = #[trigger] steps@[s];
                        &&& step.season == seasons@[s]
                        &&& step.group_id == clans@[ci as int].key
                        &&& step.name@ == clans@[ci as int].value@
                        &&& step.create_folder == (!has_clan_folder(*d, seasons@[s], clans@[ci as int].key)
                            && !clan_seen_before(clans@, ci as int) && !season_seen_before(seasons@, s))
                        &&& step.create_overview == !has_overview(*d, seasons@[s], clans@[ci as int].key)
                    },
            decreases seasons@.len() - si,
        {
            let n = seasons[si];
            let folder = clan_folder_known(d, n, group_id);
            let earlier_season = season_seen(seasons, si);
            let overview = overview_known(d, n, group_id);
            let step = ClanFolderStep {
                season: n,
                group_id,
                name: clans[ci].value.clone(),
                create_folder: !folder && !earlier_clan && !earlier_season,
                create_overview: !overview,
            };
            let ghost prev = steps@;
            steps.push(step);
            assert(forall|s: int| 0 <= s < si ==> steps@[s] == prev[s]);
            si = si + 1;
        }
        let ghost prev = clan_steps@;
        clan_steps.push(steps);
        assert(forall|c: int| 0 <= c < ci ==> clan_steps@[c] == prev[c]);
        ci = ci + 1;
    }
    ReportFolderPlan { new_seasons, clan_steps }
}

} // verus!
