//! Bungie's manifest: where each kind of definition is published, and the stored records
//! made from the definitions.
use vstd::prelude::*;
use crate::keyed::{TextEntry, text_find, text_keys_unique, text_map, lemma_text_map_at, lemma_text_map_dom};
use crate::records::{ActivityRecord, ActivityTypeRecord, ClassRecord, SeasonRecord, TriumphRecord};
use crate::text::equals;

verus! {

/// Display properties shared by the definitions.
#[derive(Debug)]
pub struct DestinyDisplayProperties {
    pub description: String,
    pub name: String,
    pub icon: String,
    pub has_icon: bool,
}

/// Matchmaking properties of an activity.
#[derive(Debug)]
pub struct DestinyMatchmakingProperties {
    pub is_matchmade: bool,
    pub min_party: u32,
    pub max_party: u32,
    pub max_players: u32,
    pub requires_guardian_oath: bool,
}

#[derive(Debug)]
pub struct DestinyActivityDefinition {
    pub matchmaking: DestinyMatchmakingProperties,
    pub display_properties: DestinyDisplayProperties,
    pub original_display_properties: DestinyDisplayProperties,
    pub selection_screen_display_properties: DestinyDisplayProperties,
    pub activity_type_hash: u32,
    pub destination_hash: u32,
    pub place_hash: u32,
    pub pgcr_image: String,
    pub is_pvp: bool,
    pub is_playlist: bool,
    pub hash: u32,
    pub index: u32,
    pub redacted: bool,
    pub blacklisted: bool,
}

#[derive(Debug)]
pub struct DestinyClassDefinition {
    pub class_type: u8,
    pub display_properties: DestinyDisplayProperties,
    pub hash: u32,
    pub index: u32,
    pub redacted: bool,
    pub blacklisted: bool,
}

#[derive(Debug)]
pub struct DestinyActivityTypeDefinition {
    pub display_properties: DestinyDisplayProperties,
    pub hash: u32,
    pub index: u32,
    pub redacted: bool,
    pub blacklisted: bool,
}

/// A season definition; its start and end as seconds since the epoch.
#[derive(Debug)]
pub struct DestinySeasonDefinition {
    pub display_properties: DestinyDisplayProperties,
    pub season_number: i32,
    pub season_pass_hash: u32,
    pub start_date: i64,
    pub end_date: i64,
    pub hash: u32,
    pub index: u32,
    pub redacted: bool,
    pub blacklisted: bool,
}

/// Whether a record grants a title, and the title's text by gender.
#[derive(Debug)]
pub struct DestinyRecordTitleBlock {
    pub has_title: bool,
    pub titles_by_gender: Vec<TextEntry<String>>,
}

/// The part of a record (triumph) definition the service reads.
#[derive(Debug)]
pub struct DestinyRecordDefinition {
    pub display_properties: DestinyDisplayProperties,
    pub scope: i32,
    pub title_info: DestinyRecordTitleBlock,
    pub for_title_gilding: bool,
    pub hash: u32,
    pub index: u32,
    pub redacted: bool,
    pub blacklisted: bool,
}

/// The kinds of definitions the service reads from the manifest.
#[derive(Clone, Copy, Debug, PartialEq, Eq)]
pub enum DestinyDefinition {
    Activity,
    ActivityType,
    Class,
    Seasons,
    Records,
}

/// The manifest's name of a kind of definitions.
pub open spec fn definition_name_spec(d: DestinyDefinition) -> Seq<char> {
    match d {
        DestinyDefinition::Activity => "DestinyActivityDefinition"@,
        DestinyDefinition::ActivityType => "DestinyActivityTypeDefinition"@,
        DestinyDefinition::Class => "DestinyClassDefinition"@,
        DestinyDefinition::Seasons => "DestinySeasonDefinition"@,
        DestinyDefinition::Records => "DestinyRecordDefinition"@,
    }
}

/// The manifest's name of a kind of definitions.
pub fn definition_name(d: DestinyDefinition) -> (r: &'static str)
    ensures
        r@ == definition_name_spec(d),
{
    match d {
        DestinyDefinition::Activity => "DestinyActivityDefinition",
        DestinyDefinition::ActivityType => "DestinyActivityTypeDefinition",
        DestinyDefinition::Class => "DestinyClassDefinition",
        DestinyDefinition::Seasons => "DestinySeasonDefinition",
        DestinyDefinition::Records => "DestinyRecordDefinition",
    }
}

impl View for TextEntry<String> {
    type V = Seq<char>;

    open spec fn view(&self) -> Seq<char> {
        self.value@
    }
}

/// The manifest: for each locale, the path of each kind of definitions.
#[derive(Debug)]
pub struct DestinyManifest {
    pub version: String,
    pub json_world_component_content_paths: Vec<TextEntry<Vec<TextEntry<String>>>>,
    pub locale: String,
}

/// The locale a manifest is read in when it names none: `en`.
pub fn default_locale() -> (r: String)
    ensures
        r@ == "en"@,
{
    String::from_str("en")
}

/// The paths of a locale, empty when the manifest has none for it.
pub open spec fn locale_paths(m: DestinyManifest) -> Seq<TextEntry<String>> {
    let s = m.json_world_component_content_paths@;
    let i = first_key_index(s, m.locale@);
    if 0 <= i < s.len() {
        s[i].value@
    } else {
        Seq::<TextEntry<String>>::empty()
    }
}

/// Position of the first entry with key `k`, -1 when none.
pub open spec fn first_key_index<V>(s: Seq<TextEntry<V>>, k: Seq<char>) -> int
    decreases s.len(),
{
    if s.len() == 0 {
        -1
    } else if first_key_index(s.drop_last(), k) >= 0 {
        first_key_index(s.drop_last(), k)
    } else if s.last().key@ == k {
        s.len() - 1
    } else {
        -1
    }
}

proof fn lemma_first_key_index<V>(s: Seq<TextEntry<V>>, k: Seq<char>)
    ensures
        -1 <= first_key_index(s, k) < s.len(),
        first_key_index(s, k) >= 0 ==> s[first_key_index(s, k)].key@ == k,
        first_key_index(s, k) >= 0 ==> forall|j: int| 0 <= j < first_key_index(s, k) ==> #[trigger] s[j].key@ != k,
        first_key_index(s, k) == -1 ==> forall|j: int| 0 <= j < s.len() ==> #[trigger] s[j].key@ != k,
    decreases s.len(),
{
    if s.len() > 0 {
        let t = s.drop_last();
        lemma_first_key_index(t, k);
        assert forall|j: int| 0 <= j < t.len() implies t[j] == s[j] by {}
    }
}

fn find_first<V>(m: &Vec<TextEntry<V>>, key: &str) -> (r: Option<usize>)
    ensures
        r matches Some(i) ==> i as int == first_key_index(m@, key@),
        r is None ==> first_key_index(m@, key@) == -1,
{
    proof {
        lemma_first_key_index(m@, key@);
    }
    let found = text_find(m, key);
    proof {
        match found {
            Some(i) => {
                let f = first_key_index(m@, key@);
                assert(f >= 0) by {
                    if f == -1 {
                        assert(m@[i as int].key@ != key@);
                    }
                }
                if f < i as int {
                    assert(m@[f].key@ != key@);
                }
                if f > i as int {
                    assert(m@[i as int].key@ != key@);
                }
            },
            None => {},
        }
    }
    found
}

/// The path of a kind of definitions in the manifest's locale, empty when there is none
/// (the maps are read by their first entry with a key).
pub open spec fn content_path_spec(m: DestinyManifest, d: DestinyDefinition) -> Seq<char> {
    let paths = locale_paths(m);
    let i = first_key_index(paths, definition_name_spec(d));
    if 0 <= i < paths.len() {
        paths[i].value@
    } else {
        Seq::<char>::empty()
    }
}

impl DestinyManifest {
    /// The path of a kind of definitions in the manifest's locale, empty when there is none.
    pub fn content_path(&self, d: DestinyDefinition) -> (r: String)
        ensures
            r@ == content_path_spec(*self, d),
    {
        proof {
            lemma_first_key_index(self.json_world_component_content_paths@, self.locale@);
        }
        match find_first(&self.json_world_component_content_paths, self.locale.as_str()) {
            Some(i) => {
                let paths = &self.json_world_component_content_paths[i].value;
                proof {
                    lemma_first_key_index(paths@, definition_name_spec(d));
                }
                match find_first(paths, definition_name(d)) {
                    Some(j) => paths[j].value.clone(),
                    None => String::new(),
                }
            },
            None => String::new(),
        }
    }
}

/// The address a definitions file is fetched from: `https://bungie.net{path}`, none for
/// an empty path.
pub fn definition_endpoint(path: &str) -> (r: Option<String>)
    ensures
        path@.len() == 0 ==> r is None,
        path@.len() > 0 ==> (r matches Some(u) && u@ == "https://bungie.net"@ + path@),
{
    if path.unicode_len() == 0 {
        None
    } else {
        let mut url = String::from_str("https://bungie.net");
        url.append(path);
        Some(url)
    }
}

// ---------------------------------------------------------------------------
// Records made from definitions
// ---------------------------------------------------------------------------
/// The stored record of an activity definition, created at `now`.
pub fn activity_record(d: &DestinyActivityDefinition, now: u64) -> (r: ActivityRecord)
    ensures
        r.id == 0,
        r.activity_type == d.activity_type_hash,
        r.name@ == d.display_properties.name@,
        r.description@ == d.display_properties.description@,
        r.image_url@ == d.pgcr_image@,
        r.fireteam_min_size == d.matchmaking.min_party,
        r.fireteam_max_size == d.matchmaking.max_party,
        r.max_players == d.matchmaking.max_players,
        r.requires_guardian_oath == d.matchmaking.requires_guardian_oath,
        r.is_pvp == d.is_pvp,
        r.matchmaking_enabled == d.matchmaking.is_matchmade,
        r.hash == d.hash,
        r.index == d.index,
        r.created_at == now,
        r.updated_at == 0,
        r.deleted_at == 0,
{
    ActivityRecord {
        id: 0,
        activity_type: d.activity_type_hash,
        name: d.display_properties.name.clone(),
        description: d.display_properties.description.clone(),
        image_url: d.pgcr_image.clone(),
        fireteam_min_size: d.matchmaking.min_party,
        fireteam_max_size: d.matchmaking.max_party,
        max_players: d.matchmaking.max_players,
        requires_guardian_oath: d.matchmaking.requires_guardian_oath,
        is_pvp: d.is_pvp,
        matchmaking_enabled: d.matchmaking.is_matchmade,
        hash: d.hash,
        index: d.index,
        created_at: now,
        updated_at: 0,
        deleted_at: 0,
    }
}

/// The stored record of an activity type definition, created at `now`.
pub fn activity_type_record(d: &DestinyActivityTypeDefinition, now: u64) -> (r: ActivityTypeRecord)
    ensures
        r.id == 0,
        r.hash == d.hash as i64,
        r.index == d.index as i64,
        r.name@ == d.display_properties.name@,
        r.description@ == d.display_properties.description@,
        r.icon_url@ == d.display_properties.icon@,
        r.created_at == now,
        r.updated_at == 0,
        r.deleted_at == 0,
{
    ActivityTypeRecord {
        id: 0,
        hash: d.hash as i64,
        index: d.index as i64,
        name: d.display_properties.name.clone(),
        description: d.display_properties.description.clone(),
        icon_url: d.display_properties.icon.clone(),
        created_at: now,
        updated_at: 0,
        deleted_at: 0,
    }
}

/// The stored record of a class definition, created at `now`.
pub fn class_record(d: &DestinyClassDefinition, now: u64) -> (r: ClassRecord)
    ensures
        r.id == 0,
        r.hash == d.hash,
        r.index == d.index,
        r.class_type == d.class_type,
        r.name@ == d.display_properties.name@,
        r.created_at == now,
        r.updated_at == 0,
        r.deleted_at == 0,
{
    ClassRecord {
        id: 0,
        hash: d.hash,
        index: d.index,
        class_type: d.class_type,
        name: d.display_properties.name.clone(),
        created_at: now,
        updated_at: 0,
        deleted_at: 0,
    }
}

/// The stored record of a season definition, created at `now`; the dates are kept as
/// unsigned seconds (`as u64`).
pub fn season_record(d: &DestinySeasonDefinition, now: u64) -> (r: SeasonRecord)
    ensures
        r.id == 0,
        r.hash == d.hash,
        r.name@ == d.display_properties.name@,
        r.pass_hash == d.season_pass_hash,
        r.number == d.season_number,
        r.starts_at == d.start_date as u64,
        r.ends_at == d.end_date as u64,
        r.created_at == now,
        r.updated_at == 0,
        r.deleted_at == 0,
{
    SeasonRecord {
        id: 0,
        hash: d.hash,
        name: d.display_properties.name.clone(),
        pass_hash: d.season_pass_hash,
        number: d.season_number,
        starts_at: #[verifier::truncate] (d.start_date as u64),
        ends_at: #[verifier::truncate] (d.end_date as u64),
        created_at: now,
        updated_at: 0,
        deleted_at: 0,
    }
}

/// The title text a record gives: the one listed for `Male` (Bungie lists the same text
/// for every gender), empty when there is none.
pub open spec fn record_title(d: DestinyRecordDefinition) -> Seq<char> {
    let s = d.title_info.titles_by_gender@;
    let i = first_key_index(s, "Male"@);
    if 0 <= i < s.len() {
        s[i].value@
    } else {
        Seq::<char>::empty()
    }
}

/// The stored record of a record (triumph) definition, created at `now`.
pub fn triumph_record(d: &DestinyRecordDefinition, now: u64) -> (r: TriumphRecord)
    ensures
        r.id == 0,
        r.hash == d.hash,
        r.name@ == d.display_properties.name@,
        r.description@ == d.display_properties.description@,
        r.title@ == record_title(*d),
        r.is_title == (if d.title_info.has_title { 1int } else { 0int }),
        r.gilded == (if d.for_title_gilding { 1int } else { 0int }),
        r.created_at == now,
        r.updated_at == 0,
        r.deleted_at == 0,
{
    proof {
        lemma_first_key_index(d.title_info.titles_by_gender@, "Male"@);
    }
    let title = match find_first(&d.title_info.titles_by_gender, "Male") {
        Some(i) => d.title_info.titles_by_gender[i].value.clone(),
        None => String::new(),
    };
    TriumphRecord {
        id: 0,
        hash: d.hash,
        name: d.display_properties.name.clone(),
        description: d.display_properties.description.clone(),
        title,
        is_title: if d.title_info.has_title { 1 } else { 0 },
        gilded: if d.for_title_gilding { 1 } else { 0 },
        created_at: now,
        updated_at: 0,
        deleted_at: 0,
    }
}

/// Records written to the database at a time.
pub const RECORDS_PER_CHUNK: usize = 100;

/// The concatenation of the chunks.
pub open spec fn flatten<T>(chunks: Seq<Vec<T>>) -> Seq<T>
    decreases chunks.len(),
{
    if chunks.len() == 0 {
        Seq::<T>::empty()
    } else {
        flatten(chunks.drop_last()) + chunks.last()@
    }
}

/// The records in chunks of `size` (`chunks(size)`): every chunk but the last holds `size`
/// records, the last one at least one.
pub fn chunk_records<T>(records: Vec<T>, size: usize) -> (chunks: Vec<Vec<T>>)
    requires
        size > 0,
    ensures
        flatten(chunks@) == records@,
        forall|i: int| 0 <= i < chunks@.len() ==> 0 < (#[trigger] chunks@[i])@.len() <= size,
        forall|i: int| 0 <= i < chunks@.len() - 1 ==> (#[trigger] chunks@[i])@.len() == size,
{
    let mut src = records;
    let ghost orig = src@;
    let mut chunks: Vec<Vec<T>> = Vec::new();
    let mut current: Vec<T> = Vec::new();
    let mut taken: usize = 0;
    let total = src.len();
    assert(orig.subrange(0, 0) =~= flatten(chunks@) + current@);
    while src.len() > 0
        invariant
            orig.len() == total,
            taken <= total,
            src@ == orig.subrange(taken as int, total as int),
            flatten(chunks@) + current@ == orig.subrange(0, taken as int),
            current@.len() < size,
            forall|i: int| 0 <= i < chunks@.len() ==> (#[trigger] chunks@[i])@.len() == size,
        decreases src@.len(),
    {
        let x = src.remove(0);
        assert(x == orig[taken as int]);
        let ghost prev_flat = flatten(chunks@);
        current.push(x);
        assert(orig.subrange(0, taken + 1) =~= orig.subrange(0, taken as int).push(x));
        if current.len() == size {
            let full = current;
            current = Vec::new();
            let ghost before = chunks@;
            chunks.push(full);
            assert(chunks@.drop_last() =~= before);
            assert(flatten(chunks@) + current@ =~= prev_flat + full@);
        }
        taken = taken + 1;
        assert(src@ =~= orig.subrange(taken as int, total as int));
    }
    if current.len() > 0 {
        let ghost before = chunks@;
        let ghost prev_flat = flatten(chunks@);
        let last = current;
        chunks.push(last);
        assert(chunks@.drop_last() =~= before);
    } else {
        assert(current@ =~= Seq::<T>::empty());
        assert(flatten(chunks@) + current@ =~= flatten(chunks@));
    }
    assert(orig.subrange(0, total as int) =~= orig);
    chunks
}

} // verus!
