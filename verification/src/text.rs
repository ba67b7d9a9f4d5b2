//! Text primitives shared by the report, drive and workbook logic:
//! trimming, splitting, joining, prefix tests, removal of a substring,
//! decimal rendering and decimal parsing of integers.
use vstd::prelude::*;

verus! {

// ---------------------------------------------------------------------------
// Specifications
// ---------------------------------------------------------------------------
/// Characters with the Unicode `White_Space` property (what `char::is_whitespace` accepts).
pub open spec fn is_white_space(c: char) -> bool {
    let u = c as u32;
    ||| (0x9 <= u && u <= 0xD)
    ||| u == 0x20
    ||| u == 0x85
    ||| u == 0xA0
    ||| u == 0x1680
    ||| (0x2000 <= u && u <= 0x200A)
    ||| u == 0x2028
    ||| u == 0x2029
    ||| u == 0x202F
    ||| u == 0x205F
    ||| u == 0x3000
}

/// `s` without its leading white space.
pub open spec fn trim_start_spec(s: Seq<char>) -> Seq<char>
    decreases s.len(),
{
    if s.len() > 0 && is_white_space(s[0]) {
        trim_start_spec(s.drop_first())
    } else {
        s
    }
}

/// `s` without its trailing white space.
pub open spec fn trim_end_spec(s: Seq<char>) -> Seq<char>
    decreases s.len(),
{
    if s.len() > 0 && is_white_space(s.last()) {
        trim_end_spec(s.drop_last())
    } else {
        s
    }
}

/// `s` without leading and trailing white space (what `str::trim` returns).
pub open spec fn trim_spec(s: Seq<char>) -> Seq<char> {
    trim_end_spec(trim_start_spec(s))
}

/// The pieces of `s` between occurrences of `sep` (what `str::split` with a
/// `char` pattern yields): always at least one piece.
pub open spec fn split_spec(s: Seq<char>, sep: char) -> Seq<Seq<char>>
    decreases s.len(),
{
    if s.len() == 0 {
        seq![Seq::<char>::empty()]
    } else {
        let prev = split_spec(s.drop_last(), sep);
        if s.last() == sep {
            prev.push(Seq::<char>::empty())
        } else {
            prev.update(prev.len() - 1, prev.last().push(s.last()))
        }
    }
}

/// `s` starts with `p`.
pub open spec fn starts_with_spec(s: Seq<char>, p: Seq<char>) -> bool {
    p.len() <= s.len() && s.subrange(0, p.len() as int) == p
}

/// `s` with every non-overlapping occurrence of `p` removed, scanning from the
/// left (what `str::replace(p, "")` returns; an empty `p` removes nothing).
pub open spec fn remove_all_spec(s: Seq<char>, p: Seq<char>) -> Seq<char>
    decreases s.len(),
{
    if s.len() == 0 {
        s
    } else if p.len() > 0 && starts_with_spec(s, p) {
        remove_all_spec(s.subrange(p.len() as int, s.len() as int), p)
    } else {
        seq![s[0]] + remove_all_spec(s.drop_first(), p)
    }
}

/// The parts joined with `sep` between consecutive parts.
pub open spec fn join_spec(parts: Seq<Seq<char>>, sep: Seq<char>) -> Seq<char>
    decreases parts.len(),
{
    if parts.len() == 0 {
        Seq::<char>::empty()
    } else if parts.len() == 1 {
        parts[0]
    } else {
        join_spec(parts.drop_last(), sep) + sep + parts.last()
    }
}

/// The ASCII digit for `d` in `0..10`.
pub open spec fn digit_char(d: int) -> char {
    if d == 0 { '0' }
    else if d == 1 { '1' }
    else if d == 2 { '2' }
    else if d == 3 { '3' }
    else if d == 4 { '4' }
    else if d == 5 { '5' }
    else if d == 6 { '6' }
    else if d == 7 { '7' }
    else if d == 8 { '8' }
    else { '9' }
}

/// Decimal digits of a natural number, without leading zeros.
pub open spec fn nat_text(n: nat) -> Seq<char>
    decreases n,
{
    if n < 10 {
        seq![digit_char(n as int)]
    } else {
        nat_text(n / 10).push(digit_char((n % 10) as int))
    }
}

/// Decimal rendering of an integer, as `Display` writes it for Rust's integers.
pub open spec fn int_text(x: int) -> Seq<char> {
    if x < 0 {
        seq!['-'] + nat_text((-x) as nat)
    } else {
        nat_text(x as nat)
    }
}

pub open spec fn is_digit(c: char) -> bool {
    '0' <= c && c <= '9'
}

pub open spec fn all_digits(s: Seq<char>) -> bool {
    forall|i: int| 0 <= i < s.len() ==> #[trigger] is_digit(s[i])
}

/// The value of a sequence of ASCII digits.
pub open spec fn digits_value(s: Seq<char>) -> nat
    decreases s.len(),
{
    if s.len() == 0 {
        0
    } else {
        digits_value(s.drop_last()) * 10 + ((s.last() as u32) - ('0' as u32)) as nat
    }
}

/// What Rust's integer `FromStr` reads from `s`, before the range check: an
/// optional `+` (or `-` for signed types) followed by at least one ASCII digit.
pub open spec fn parse_int_spec(s: Seq<char>, signed: bool) -> Option<int> {
    if s.len() == 0 {
        None
    } else {
        let neg = signed && s[0] == '-';
        let body = if s[0] == '+' || neg { s.drop_first() } else { s };
        if body.len() == 0 || !all_digits(body) {
            None
        } else if neg {
            Some(-(digits_value(body) as int))
        } else {
            Some(digits_value(body) as int)
        }
    }
}

/// What `s.parse::<T>().ok()` returns for an integer type whose values are `lo..=hi`.
pub open spec fn parse_in_range(s: Seq<char>, signed: bool, lo: int, hi: int) -> Option<int> {
    match parse_int_spec(s, signed) {
        Some(v) => if lo <= v && v <= hi { Some(v) } else { None },
        None => None,
    }
}

/// Lower-case form of a string, as `str::to_lowercase` computes it.
pub uninterp spec fn lowercase_text(s: Seq<char>) -> Seq<char>;

// ---------------------------------------------------------------------------
// Trusted calls into std
// ---------------------------------------------------------------------------
/// Calls `i64::to_string`; std's `Display` for integers writes the decimal
/// digits without leading zeros, preceded by `-` for negative values.
#[verifier::external_body]
pub(crate) fn i64_text(x: i64) -> (r: String)
    ensures
        r@ == int_text(x as int),
{
    x.to_string()
}

/// Calls `u64::to_string`; std's `Display` for integers writes the decimal digits
/// without leading zeros.
#[verifier::external_body]
pub(crate) fn u64_text(x: u64) -> (r: String)
    ensures
        r@ == int_text(x as int),
{
    x.to_string()
}

/// Calls `str::parse::<i64>`; std documents the accepted form as an optional
/// sign followed by ASCII digits, the value within `i64`'s range.
#[verifier::external_body]
pub(crate) fn parse_i64(s: &str) -> (r: Option<i64>)
    ensures
        r matches Some(v) ==> parse_in_range(s@, true, i64::MIN as int, i64::MAX as int) == Some(v as int),
        r is None ==> parse_in_range(s@, true, i64::MIN as int, i64::MAX as int) is None,
{
    s.parse::<i64>().ok()
}

/// Calls `str::parse::<i32>`; same documented form as for `i64`, with `i32`'s range.
#[verifier::external_body]
pub(crate) fn parse_i32(s: &str) -> (r: Option<i32>)
    ensures
        r matches Some(v) ==> parse_in_range(s@, true, i32::MIN as int, i32::MAX as int) == Some(v as int),
        r is None ==> parse_in_range(s@, true, i32::MIN as int, i32::MAX as int) is None,
{
    s.parse::<i32>().ok()
}

/// Calls `str::parse::<i16>`; same documented form as for `i64`, with `i16`'s range.
#[verifier::external_body]
pub(crate) fn parse_i16(s: &str) -> (r: Option<i16>)
    ensures
        r matches Some(v) ==> parse_in_range(s@, true, i16::MIN as int, i16::MAX as int) == Some(v as int),
        r is None ==> parse_in_range(s@, true, i16::MIN as int, i16::MAX as int) is None,
{
    s.parse::<i16>().ok()
}

/// Calls `str::parse::<u16>`; an optional `+` followed by ASCII digits, within `u16`'s range.
#[verifier::external_body]
pub(crate) fn parse_u16(s: &str) -> (r: Option<u16>)
    ensures
        r matches Some(v) ==> parse_in_range(s@, false, 0, u16::MAX as int) == Some(v as int),
        r is None ==> parse_in_range(s@, false, 0, u16::MAX as int) is None,
{
    s.parse::<u16>().ok()
}

/// Calls `str::parse::<usize>`; an optional `+` followed by ASCII digits, within `usize`'s range.
#[verifier::external_body]
pub(crate) fn parse_usize(s: &str) -> (r: Option<usize>)
    ensures
        r matches Some(v) ==> parse_in_range(s@, false, 0, usize::MAX as int) == Some(v as int),
        r is None ==> parse_in_range(s@, false, 0, usize::MAX as int) is None,
{
    s.parse::<usize>().ok()
}

/// Calls `str::parse::<u32>`; an optional `+` followed by ASCII digits, within `u32`'s range.
#[verifier::external_body]
pub(crate) fn parse_u32(s: &str) -> (r: Option<u32>)
    ensures
        r matches Some(v) ==> parse_in_range(s@, false, 0, u32::MAX as int) == Some(v as int),
        r is None ==> parse_in_range(s@, false, 0, u32::MAX as int) is None,
{
    s.parse::<u32>().ok()
}

/// Calls `str::parse::<u64>`; an optional `+` followed by ASCII digits, within `u64`'s range.
#[verifier::external_body]
pub(crate) fn parse_u64(s: &str) -> (r: Option<u64>)
    ensures
        r matches Some(v) ==> parse_in_range(s@, false, 0, u64::MAX as int) == Some(v as int),
        r is None ==> parse_in_range(s@, false, 0, u64::MAX as int) is None,
{
    s.parse::<u64>().ok()
}

/// Calls `str::to_lowercase`. Unicode case mapping is not restated here: the
/// result is named `lowercase_text` of the argument.
#[verifier::external_body]
pub(crate) fn to_lowercase(s: &str) -> (r: String)
    ensures
        r@ == lowercase_text(s@),
{
    s.to_lowercase()
}

// ---------------------------------------------------------------------------
// Verified text operations
// ---------------------------------------------------------------------------
/// `char::is_whitespace`.
pub fn is_whitespace_char(c: char) -> (r: bool)
    ensures
        r == is_white_space(c),
{
    let u = c as u32;
    (0x9 <= u && u <= 0xD) || u == 0x20 || u == 0x85 || u == 0xA0 || u == 0x1680 || (0x2000 <= u
        && u <= 0x200A) || u == 0x2028 || u == 0x2029 || u == 0x202F || u == 0x205F || u == 0x3000
}

/// A copy of the characters `from..to` of `s`.
pub fn substring(s: &str, from: usize, to: usize) -> (r: String)
    requires
        from <= to <= s@.len(),
    ensures
        r@ == s@.subrange(from as int, to as int),
{
    String::from_str(s.substring_char(from, to))
}

/// `a` followed by `b`.
pub fn concat(a: &str, b: &str) -> (r: String)
    ensures
        r@ == a@ + b@,
{
    let mut r = String::from_str(a);
    r.append(b);
    r
}

proof fn lemma_trim_start_skip(s: Seq<char>, i: int)
    requires
        0 <= i <= s.len(),
        forall|k: int| 0 <= k < i ==> is_white_space(#[trigger] s[k]),
    ensures
        trim_start_spec(s) == trim_start_spec(s.subrange(i, s.len() as int)),
    decreases i,
{
    if i > 0 {
        lemma_trim_start_skip(s.drop_first(), i - 1);
        assert(s.drop_first().subrange(i - 1, s.drop_first().len() as int) =~= s.subrange(
            i,
            s.len() as int,
        ));
    } else {
        assert(s.subrange(0, s.len() as int) =~= s);
    }
}

proof fn lemma_trim_end_take(s: Seq<char>, j: int)
    requires
        0 <= j <= s.len(),
        forall|k: int| j <= k < s.len() ==> is_white_space(#[trigger] s[k]),
    ensures
        trim_end_spec(s) == trim_end_spec(s.subrange(0, j)),
    decreases s.len() - j,
{
    if j < s.len() {
        assert(s.drop_last().subrange(0, j) =~= s.subrange(0, j));
        lemma_trim_end_take(s.drop_last(), j);
    } else {
        assert(s.subrange(0, j) =~= s);
    }
}

/// `s` without leading and trailing white space.
pub fn trim(s: &str) -> (r: String)
    ensures
        r@ == trim_spec(s@),
{
    let n = s.unicode_len();
    let mut i: usize = 0;
    while i < n && is_whitespace_char(s.get_char(i))
        invariant
            n == s@.len(),
            i <= n,
            forall|k: int| 0 <= k < i ==> is_white_space(#[trigger] s@[k]),
        decreases n - i,
    {
        i = i + 1;
    }
    proof {
        lemma_trim_start_skip(s@, i as int);
    }
    let ghost rest = s@.subrange(i as int, n as int);
    assert(rest.len() == 0 || !is_white_space(rest[0]));
    assert(trim_start_spec(rest) == rest);
    let mut j: usize = n;
    while j > i && is_whitespace_char(s.get_char(j - 1))
        invariant
            n == s@.len(),
            i <= j <= n,
            forall|k: int| j <= k < n ==> is_white_space(#[trigger] s@[k]),
        decreases j,
    {
        j = j - 1;
    }
    proof {
        let t = s@.subrange(i as int, n as int);
        lemma_trim_end_take(t, (j - i) as int);
        assert(t.subrange(0, (j - i) as int) =~= s@.subrange(i as int, j as int));
        let u = s@.subrange(i as int, j as int);
        assert(u.len() == 0 || !is_white_space(u.last()));
    }
    substring(s, i, j)
}

/// `s` starts with `p`.
pub fn starts_with(s: &str, p: &str) -> (r: bool)
    ensures
        r == starts_with_spec(s@, p@),
{
    let n = s.unicode_len();
    let m = p.unicode_len();
    if m > n {
        return false;
    }
    let mut k: usize = 0;
    while k < m
        invariant
            n == s@.len(),
            m == p@.len(),
            m <= n,
            k <= m,
            forall|q: int| 0 <= q < k ==> s@[q] == p@[q],
        decreases m - k,
    {
        if s.get_char(k) != p.get_char(k) {
            assert(s@.subrange(0, m as int)[k as int] != p@[k as int]);
            return false;
        }
        k = k + 1;
    }
    assert(s@.subrange(0, m as int) =~= p@);
    true
}

/// Whether `p` occurs in `s` at character position `at`.
fn occurs_at(s: &str, p: &str, at: usize) -> (r: bool)
    requires
        at <= s@.len(),
    ensures
        r == starts_with_spec(s@.subrange(at as int, s@.len() as int), p@),
{
    let n = s.unicode_len();
    let m = p.unicode_len();
    let ghost t = s@.subrange(at as int, s@.len() as int);
    if m > n - at {
        return false;
    }
    let mut k: usize = 0;
    while k < m
        invariant
            n == s@.len(),
            m == p@.len(),
            at + m <= n,
            k <= m,
            t == s@.subrange(at as int, n as int),
            forall|q: int| 0 <= q < k ==> t[q] == p@[q],
        decreases m - k,
    {
        if s.get_char(at + k) != p.get_char(k) {
            assert(t.subrange(0, m as int)[k as int] != p@[k as int]);
            return false;
        }
        k = k + 1;
    }
    assert(t.subrange(0, m as int) =~= p@);
    true
}

/// `p` occurs somewhere in `s`.
pub open spec fn contains_spec(s: Seq<char>, p: Seq<char>) -> bool {
    exists|i: int| 0 <= i <= s.len() && #[trigger] starts_with_spec(s.subrange(i, s.len() as int), p)
}

/// Whether `p` occurs in `s` (`s.contains(p)`).
pub fn contains(s: &str, p: &str) -> (r: bool)
    ensures
        r == contains_spec(s@, p@),
{
    let n = s.unicode_len();
    let mut i: usize = 0;
    while i < n
        invariant
            n == s@.len(),
            i <= n,
            forall|j: int| 0 <= j < i ==> !#[trigger] starts_with_spec(s@.subrange(j, s@.len() as int), p@),
        decreases n - i,
    {
        if occurs_at(s, p, i) {
            return true;
        }
        i = i + 1;
    }
    occurs_at(s, p, n)
}

proof fn lemma_remove_all_suffix(s: Seq<char>, p: Seq<char>, i: int)
    requires
        0 <= i < s.len(),
    ensures
        (p.len() > 0 && starts_with_spec(s.subrange(i, s.len() as int), p)) ==> remove_all_spec(
            s.subrange(i, s.len() as int),
            p,
        ) == remove_all_spec(s.subrange(i + p.len(), s.len() as int), p),
        !(p.len() > 0 && starts_with_spec(s.subrange(i, s.len() as int), p)) ==> remove_all_spec(
            s.subrange(i, s.len() as int),
            p,
        ) == seq![s[i]] + remove_all_spec(s.subrange(i + 1, s.len() as int), p),
{
    let t = s.subrange(i, s.len() as int);
    if p.len() > 0 && starts_with_spec(t, p) {
        assert(t.subrange(p.len() as int, t.len() as int) =~= s.subrange(
            i + p.len(),
            s.len() as int,
        ));
    } else {
        assert(t.drop_first() =~= s.subrange(i + 1, s.len() as int));
    }
}

/// `s` with every non-overlapping occurrence of `p` removed (`s.replace(p, "")`).
pub fn remove_all(s: &str, p: &str) -> (r: String)
    ensures
        r@ == remove_all_spec(s@, p@),
{
    let n = s.unicode_len();
    let m = p.unicode_len();
    let mut out = String::new();
    let mut i: usize = 0;
    assert(s@.subrange(0, n as int) =~= s@);
    while i < n
        invariant
            n == s@.len(),
            m == p@.len(),
            i <= n,
            remove_all_spec(s@, p@) == out@ + remove_all_spec(s@.subrange(i as int, n as int), p@),
        decreases n - i,
    {
        proof {
            lemma_remove_all_suffix(s@, p@, i as int);
        }
        if m > 0 && occurs_at(s, p, i) {
            i = i + m;
        } else {
            let piece = s.substring_char(i, i + 1);
            assert(piece@ =~= seq![s@[i as int]]);
            let ghost before = out@;
            out.append(piece);
            assert(out@ + remove_all_spec(s@.subrange(i + 1, n as int), p@) =~= before + (seq![
                s@[i as int],
            ] + remove_all_spec(s@.subrange(i + 1, n as int), p@)));
            i = i + 1;
        }
    }
    assert(s@.subrange(n as int, n as int) =~= Seq::<char>::empty());
    assert(out@ + Seq::<char>::empty() =~= out@);
    out
}

proof fn lemma_split_step(s: Seq<char>, sep: char, i: int)
    requires
        0 <= i < s.len(),
    ensures
        s.subrange(0, i + 1).drop_last() == s.subrange(0, i),
        s.subrange(0, i + 1).last() == s[i],
{
    assert(s.subrange(0, i + 1).drop_last() =~= s.subrange(0, i));
}

/// The pieces of `s` between occurrences of `sep` (`s.split(sep)`).
pub fn split(s: &str, sep: char) -> (r: Vec<String>)
    ensures
        r@.len() == split_spec(s@, sep).len(),
        forall|k: int| 0 <= k < r@.len() ==> #[trigger] r@[k]@ == split_spec(s@, sep)[k],
{
    let n = s.unicode_len();
    let mut pieces: Vec<String> = Vec::new();
    let mut start: usize = 0;
    let mut i: usize = 0;
    assert(s@.subrange(0, 0) =~= Seq::<char>::empty());
    while i < n
        invariant
            n == s@.len(),
            start <= i <= n,
            pieces@.len() + 1 == split_spec(s@.subrange(0, i as int), sep).len(),
            forall|k: int|
                0 <= k < pieces@.len() ==> #[trigger] pieces@[k]@ == split_spec(
                    s@.subrange(0, i as int),
                    sep,
                )[k],
            split_spec(s@.subrange(0, i as int), sep).last() == s@.subrange(
                start as int,
                i as int,
            ),
        decreases n - i,
    {
        proof {
            lemma_split_step(s@, sep, i as int);
        }
        let c = s.get_char(i);
        if c == sep {
            let piece = substring(s, start, i);
            pieces.push(piece);
            start = i + 1;
            assert(s@.subrange(start as int, (i + 1) as int) =~= Seq::<char>::empty());
        } else {
            assert(s@.subrange(start as int, i as int).push(c) =~= s@.subrange(
                start as int,
                (i + 1) as int,
            ));
        }
        i = i + 1;
    }
    let last = substring(s, start, n);
    pieces.push(last);
    assert(s@.subrange(0, n as int) =~= s@);
    pieces
}

/// The last piece of `s.split(sep)`.
pub fn split_last(s: &str, sep: char) -> (r: String)
    ensures
        r@ == split_spec(s@, sep).last(),
{
    let mut pieces = split(s, sep);
    proof {
        lemma_split_nonempty(s@, sep);
    }
    let r = pieces.pop().unwrap();
    r
}

/// Splitting always gives at least one piece.
pub proof fn lemma_split_nonempty(s: Seq<char>, sep: char)
    ensures
        split_spec(s, sep).len() >= 1,
    decreases s.len(),
{
    if s.len() > 0 {
        lemma_split_nonempty(s.drop_last(), sep);
    }
}

/// The parts joined with `sep` between consecutive parts (`parts.join(sep)`).
pub fn join(parts: &Vec<String>, sep: &str) -> (r: String)
    ensures
        r@ == join_spec(parts@.map_values(|p: String| p@), sep@),
{
    let ghost views = parts@.map_values(|p: String| p@);
    let mut out = String::new();
    let mut i: usize = 0;
    while i < parts.len()
        invariant
            views == parts@.map_values(|p: String| p@),
            i <= parts@.len(),
            out@ == join_spec(views.subrange(0, i as int), sep@),
        decreases parts@.len() - i,
    {
        let ghost prefix = views.subrange(0, (i + 1) as int);
        assert(prefix.drop_last() =~= views.subrange(0, i as int));
        if i > 0 {
            out.append(sep);
        } else {
            assert(views.subrange(0, i as int).len() == 0);
        }
        out.append(parts[i].as_str());
        i = i + 1;
        proof {
            if i == 1 {
                assert(out@ =~= prefix[0]);
            }
        }
    }
    assert(views.subrange(0, parts@.len() as int) =~= views);
    out
}

/// `a` and `b` hold the same characters.
pub fn equals(a: &str, b: &str) -> (r: bool)
    ensures
        r == (a@ == b@),
{
    let n = a.unicode_len();
    if n != b.unicode_len() {
        return false;
    }
    let mut k: usize = 0;
    while k < n
        invariant
            n == a@.len(),
            n == b@.len(),
            k <= n,
            forall|q: int| 0 <= q < k ==> a@[q] == b@[q],
        decreases n - k,
    {
        if a.get_char(k) != b.get_char(k) {
            return false;
        }
        k = k + 1;
    }
    assert(a@ =~= b@);
    true
}

// ---------------------------------------------------------------------------
// Numbers written as text read back
// ---------------------------------------------------------------------------
proof fn lemma_digit_char(d: int)
    requires
        0 <= d < 10,
    ensures
        is_digit(digit_char(d)),
        (digit_char(d) as u32) - ('0' as u32) == d,
        digit_char(d) != '-',
        digit_char(d) != '+',
{
}

/// The decimal digits of `n` are digits, at least one, and their value is `n`.
pub proof fn lemma_nat_text(n: nat)
    ensures
        nat_text(n).len() >= 1,
        all_digits(nat_text(n)),
        digits_value(nat_text(n)) == n,
        is_digit(nat_text(n)[0]),
    decreases n,
{
    if n < 10 {
        lemma_digit_char(n as int);
        assert(nat_text(n) =~= seq![digit_char(n as int)]);
        assert(nat_text(n).drop_last() =~= Seq::<char>::empty());
        assert(digits_value(nat_text(n).drop_last()) == 0);
        assert(nat_text(n).last() == digit_char(n as int));
        assert(digits_value(nat_text(n)) == digits_value(nat_text(n).drop_last()) * 10 + ((nat_text(n).last() as u32) - ('0' as u32)) as nat);
    } else {
        let q = n / 10;
        let r = n % 10;
        lemma_nat_text(q);
        lemma_digit_char(r as int);
        let t = nat_text(n);
        assert(t.drop_last() =~= nat_text(q));
        assert(t.last() == digit_char(r as int));
        assert forall|i: int| 0 <= i < t.len() implies #[trigger] is_digit(t[i]) by {
            if i < t.len() - 1 {
                assert(t[i] == nat_text(q)[i]);
            }
        }
        assert(t[0] == nat_text(q)[0]);
        assert(q * 10 + r == n) by {
            vstd::arithmetic::div_mod::lemma_fundamental_div_mod(n as int, 10);
        }
        assert(digits_value(t) == digits_value(t.drop_last()) * 10 + ((t.last() as u32) - ('0' as u32)) as nat);
    }
}

/// Every integer written in decimal reads back as itself: as a signed number, and, when it
/// is not negative, as an unsigned one.
pub proof fn lemma_int_text_reads_back(x: int)
    ensures
        parse_int_spec(int_text(x), true) == Some(x),
        x >= 0 ==> parse_int_spec(int_text(x), false) == Some(x),
        int_text(x).len() >= 1,
        !int_text(x).contains(','),
        !int_text(x).contains(' '),
        int_text(x)[0] != '[',
        int_text(x).last() != ']',
{
    if x < 0 {
        let t = int_text(x);
        let body = nat_text((-x) as nat);
        lemma_nat_text((-x) as nat);
        assert(t.drop_first() =~= body);
        assert(t[0] == '-');
        assert(t.last() == body.last());
        assert(is_digit(body[body.len() - 1]));
        assert forall|i: int| 0 <= i < t.len() implies t[i] != ',' && t[i] != ' ' by {
            if i > 0 {
                assert(t[i] == body[i - 1]);
                assert(is_digit(body[i - 1]));
            }
        }
    } else {
        let t = int_text(x);
        lemma_nat_text(x as nat);
        assert(is_digit(t[0]));
        assert(is_digit(t[t.len() - 1]));
        assert forall|i: int| 0 <= i < t.len() implies t[i] != ',' && t[i] != ' ' by {
            assert(is_digit(t[i]));
        }
    }
}

/// A number of a type's range written in decimal is read back by that type's `parse`.
pub proof fn lemma_parse_in_range_text(x: int, signed: bool, lo: int, hi: int)
    requires
        lo <= x <= hi,
        signed || x >= 0,
    ensures
        parse_in_range(int_text(x), signed, lo, hi) == Some(x),
{
    lemma_int_text_reads_back(x);
}

/// Splitting a text with no separator gives the text alone.
pub proof fn lemma_split_no_sep(b: Seq<char>, sep: char)
    requires
        !b.contains(sep),
    ensures
        split_spec(b, sep) == seq![b],
    decreases b.len(),
{
    if b.len() > 0 {
        assert(!b.drop_last().contains(sep)) by {
            if b.drop_last().contains(sep) {
                let i = choose|i: int| 0 <= i < b.drop_last().len() && b.drop_last()[i] == sep;
                assert(b[i] == sep);
            }
        }
        lemma_split_no_sep(b.drop_last(), sep);
        assert(b.last() != sep) by {
            if b.last() == sep {
                assert(b[b.len() - 1] == sep);
            }
        }
        assert(b.drop_last().push(b.last()) =~= b);
        assert(split_spec(b, sep) =~= seq![b]);
    } else {
        assert(b =~= Seq::<char>::empty());
    }
}

/// Splitting `a`, a separator and a text `b` without separators gives the pieces of `a`
/// followed by `b`.
pub proof fn lemma_split_append(a: Seq<char>, b: Seq<char>, sep: char)
    requires
        !b.contains(sep),
    ensures
        split_spec(a + seq![sep] + b, sep) == split_spec(a, sep).push(b),
    decreases b.len(),
{
    let s = a + seq![sep] + b;
    if b.len() == 0 {
        assert(s.drop_last() =~= a);
        assert(s.last() == sep);
        assert(b =~= Seq::<char>::empty());
        assert(split_spec(s, sep) == split_spec(s.drop_last(), sep).push(Seq::<char>::empty()));
    } else {
        assert(!b.drop_last().contains(sep)) by {
            if b.drop_last().contains(sep) {
                let i = choose|i: int| 0 <= i < b.drop_last().len() && b.drop_last()[i] == sep;
                assert(b[i] == sep);
            }
        }
        lemma_split_append(a, b.drop_last(), sep);
        assert(s.drop_last() =~= a + seq![sep] + b.drop_last());
        assert(s.last() == b.last());
        assert(b.last() != sep) by {
            if b.last() == sep {
                assert(b[b.len() - 1] == sep);
            }
        }
        assert(b.drop_last().push(b.last()) =~= b);
        assert(split_spec(s, sep) =~= split_spec(a, sep).push(b));
    }
}

/// Joining texts without the separator and splitting the result gives the texts back.
pub proof fn lemma_split_join(parts: Seq<Seq<char>>, sep: char)
    requires
        parts.len() >= 1,
        forall|i: int| 0 <= i < parts.len() ==> !(#[trigger] parts[i]).contains(sep),
    ensures
        split_spec(join_spec(parts, seq![sep]), sep) == parts,
    decreases parts.len(),
{
    if parts.len() == 1 {
        lemma_split_no_sep(parts[0], sep);
        assert(parts =~= seq![parts[0]]);
    } else {
        let init = parts.drop_last();
        assert forall|i: int| 0 <= i < init.len() implies !(#[trigger] init[i]).contains(sep) by {
            assert(init[i] == parts[i]);
        }
        lemma_split_join(init, sep);
        assert(!parts.last().contains(sep)) by {
            assert(parts.last() == parts[parts.len() - 1]);
        }
        lemma_split_append(join_spec(init, seq![sep]), parts.last(), sep);
        assert(init.push(parts.last()) =~= parts);
    }
}

} // verus!
