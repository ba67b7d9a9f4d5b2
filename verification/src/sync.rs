//! Records made from what Bungie returns for a profile, its characters and its triumphs,
//! and how a record already stored is carried over.
use vstd::prelude::*;
use crate::drive::i64_or_zero;
use crate::records::CharacterRecord;
use crate::text::{i64_text, int_text, parse_i64, parse_in_range, parse_u32};

verus! {

/// A member profile as stored.
#[derive(Debug, PartialEq)]
pub struct MemberRecord {
    pub id: i64,
    pub membership_id: i64,
    pub platform: i32,
    pub display_name: String,
    pub display_name_global: String,
    pub guardian_rank_current: u8,
    pub guardian_rank_lifetime: u8,
    pub last_played_at: u64,
    pub created_at: u64,
    pub updated_at: u64,
    pub deleted_at: u64,
}

/// A member's progress on a triumph, as stored.
#[derive(Debug, PartialEq)]
pub struct MemberTriumphRecord {
    pub id: i64,
    pub membership_id: i64,
    pub hash: i64,
    pub state: i64,
    pub times_completed: i64,
    pub created_at: u64,
    pub updated_at: u64,
    pub deleted_at: u64,
}

/// The bookkeeping fields of a stored record.
#[derive(Clone, Copy, Debug, PartialEq, Eq)]
pub struct RecordStamp {
    pub id: i64,
    pub created_at: u64,
    pub updated_at: u64,
    pub deleted_at: u64,
}

/// The bookkeeping of a record written at `now`: an update keeps the stored record's id,
/// creation and deletion times and is updated now; a new record has id 0, is created now
/// and was never updated or deleted.
pub open spec fn stamp_spec(existing: Option<RecordStamp>, now: u64) -> RecordStamp {
    match existing {
        Some(e) => RecordStamp { id: e.id, created_at: e.created_at, updated_at: now, deleted_at: e.deleted_at },
        None => RecordStamp { id: 0, created_at: now, updated_at: 0, deleted_at: 0 },
    }
}

/// The bookkeeping of a record about to be written at `now`, given the stored record.
pub fn record_stamp(existing: Option<RecordStamp>, now: u64) -> (r: RecordStamp)
    ensures
        r == stamp_spec(existing, now),
{
    match existing {
        Some(e) => RecordStamp { id: e.id, created_at: e.created_at, updated_at: now, deleted_at: e.deleted_at },
        None => RecordStamp { id: 0, created_at: now, updated_at: 0, deleted_at: 0 },
    }
}

/// Syncing a stored record again keeps its id and its creation and deletion times; only
/// the update time moves to the time of the latest sync.
pub proof fn lemma_resync_keeps_identity(existing: Option<RecordStamp>, first: u64, second: u64)
    ensures
        ({
            let once = stamp_spec(existing, first);
            let twice = stamp_spec(Some(once), second);
            &&& twice.id == once.id
            &&& twice.created_at == once.created_at
            &&& twice.deleted_at == once.deleted_at
            &&& twice.updated_at == second
            &&& existing matches Some(e) ==> twice.id == e.id && twice.created_at == e.created_at
            &&& existing is None ==> twice.created_at == first
        }),
{
}

/// `s` padded on the left with `fill` to at least `width` characters.
pub open spec fn pad_left(s: Seq<char>, width: nat, fill: char) -> Seq<char> {
    if s.len() >= width {
        s
    } else {
        Seq::new((width - s.len()) as nat, |i: int| fill) + s
    }
}

/// A member's Bungie name: the global display name, `#` and the name code padded with
/// zeros to four characters (`{}#{:0>4}`).
pub fn global_display_name(name: &str, code: i16) -> (r: String)
    ensures
        r@ == name@ + seq!['#'] + pad_left(int_text(code as int), 4, '0'),
{
    let digits = i64_text(code as i64);
    let n = digits.as_str().unicode_len();
    let mut out = String::from_str(name);
    proof {
        reveal_strlit("#");
        reveal_strlit("0");
        assert("0"@ =~= seq!['0']);
        assert("#"@ =~= seq!['#']);
    }
    out.append("#");
    let ghost base = out@;
    let mut k: usize = n;
    while k < 4
        invariant
            "0"@ == seq!['0'],
            n == digits@.len(),
            n <= k <= 4 || (n > 4 && k == n),
            out@ == base + Seq::new((k - n) as nat, |i: int| '0'),
        decreases 4 - k,
    {
        out.append("0");
        assert(out@ =~= base + Seq::new((k + 1 - n) as nat, |i: int| '0'));
        k = k + 1;
    }
    let ghost padded = out@;
    out.append(digits.as_str());
    proof {
        if n >= 4 {
            assert(k == n);
            assert(Seq::new(0nat, |i: int| '0') =~= Seq::<char>::empty());
            assert(out@ =~= name@ + seq!['#'] + digits@);
        } else {
            assert(k == 4);
            assert(out@ =~= name@ + seq!['#'] + (Seq::new((4 - n) as nat, |i: int| '0') + digits@));
        }
    }
    out
}

/// A member profile record, before its bookkeeping fields are set.
pub fn member_record(
    membership_id_text: &str,
    membership_type: i32,
    display_name: &str,
    global_name: &str,
    global_code: i16,
    guardian_rank_current: u8,
    guardian_rank_lifetime: u8,
    last_played: u64,
    stamp: RecordStamp,
) -> (r: MemberRecord)
    ensures
        r.membership_id == i64_or_zero(membership_id_text@),
        r.platform == membership_type,
        r.display_name@ == display_name@,
        r.display_name_global@ == global_name@ + seq!['#'] + pad_left(int_text(global_code as int), 4, '0'),
        r.guardian_rank_current == guardian_rank_current,
        r.guardian_rank_lifetime == guardian_rank_lifetime,
        r.last_played_at == last_played,
        r.id == stamp.id,
        r.created_at == stamp.created_at,
        r.updated_at == stamp.updated_at,
        r.deleted_at == stamp.deleted_at,
{
    let membership_id = match parse_i64(membership_id_text) {
        Some(v) => v,
        None => 0,
    };
    MemberRecord {
        id: stamp.id,
        membership_id,
        platform: membership_type,
        display_name: String::from_str(display_name),
        display_name_global: global_display_name(global_name, global_code),
        guardian_rank_current,
        guardian_rank_lifetime,
        last_played_at: last_played,
        created_at: stamp.created_at,
        updated_at: stamp.updated_at,
        deleted_at: stamp.deleted_at,
    }
}

/// The number a text reads as a `u32`, 0 when it does not read.
pub open spec fn u32_or_zero(s: Seq<char>) -> u32 {
    match parse_in_range(s, false, 0, u32::MAX as int) {
        Some(v) => v as u32,
        None => 0,
    }
}

fn read_u32_or_zero(s: &str) -> (r: u32)
    ensures
        r == u32_or_zero(s@),
{
    match parse_u32(s) {
        Some(v) => v,
        None => 0,
    }
}

fn read_i64_or_zero(s: &str) -> (r: i64)
    ensures
        r == i64_or_zero(s@),
{
    match parse_i64(s) {
        Some(v) => v,
        None => 0,
    }
}

/// A character record from what Bungie returns for a character (ids and minutes as text,
/// the last played time in seconds), with its bookkeeping fields.
pub fn character_record(
    membership_id_text: &str,
    membership_type: i32,
    character_id_text: &str,
    class_hash: u32,
    light: i32,
    last_played: u64,
    emblem_hash: u32,
    emblem_path: &str,
    emblem_background_path: &str,
    minutes_played_session: &str,
    minutes_played_total: &str,
    stamp: RecordStamp,
) -> (r: CharacterRecord)
    ensures
        r.membership_id == i64_or_zero(membership_id_text@),
        r.platform == membership_type,
        r.character_id == i64_or_zero(character_id_text@),
        r.class_hash == class_hash,
        r.light == light,
        r.last_played_at == last_played,
        r.emblem_hash == emblem_hash,
        r.emblem_url@ == emblem_path@,
        r.emblem_background_url@ == emblem_background_path@,
        r.minutes_played_session == u32_or_zero(minutes_played_session@),
        r.minutes_played_lifetime == u32_or_zero(minutes_played_total@),
        r.id == stamp.id,
        r.created_at == stamp.created_at,
        r.updated_at == stamp.updated_at,
        r.deleted_at == stamp.deleted_at,
{
    CharacterRecord {
        id: stamp.id,
        membership_id: read_i64_or_zero(membership_id_text),
        platform: membership_type,
        character_id: read_i64_or_zero(character_id_text),
        class_hash,
        light,
        last_played_at: last_played,
        emblem_hash,
        emblem_url: String::from_str(emblem_path),
        emblem_background_url: String::from_str(emblem_background_path),
        minutes_played_session: read_u32_or_zero(minutes_played_session),
        minutes_played_lifetime: read_u32_or_zero(minutes_played_total),
        created_at: stamp.created_at,
        updated_at: stamp.updated_at,
        deleted_at: stamp.deleted_at,
    }
}

/// Triumph progress records written to the database at a time.
pub const CHUNK_SIZE_TRIUMPH: usize = 500;

/// A member's progress on a triumph (its hash as text), created at `now`.
pub fn member_triumph_record(membership_id: i64, hash_text: &str, state: i64, completed_count: i64, now: u64) -> (r: MemberTriumphRecord)
    ensures
        r.id == 0,
        r.membership_id == membership_id,
        r.hash == i64_or_zero(hash_text@),
        r.state == state,
        r.times_completed == completed_count,
        r.created_at == now,
        r.updated_at == 0,
        r.deleted_at == 0,
{
    MemberTriumphRecord {
        id: 0,
        membership_id,
        hash: read_i64_or_zero(hash_text),
        state,
        times_completed: completed_count,
        created_at: now,
        updated_at: 0,
        deleted_at: 0,
    }
}

} // verus!
