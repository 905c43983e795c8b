//! Character-level building blocks shared by the URL matcher and the
//! filters: ASCII case folding, searching, trimming and decimal digits.
//!
//! Every executable helper here is stated over `Seq<char>`, the view of
//! `&str` and `String`, so that the contracts of the public functions can
//! be written as plain sequence expressions.

use vstd::prelude::*;

verus! {

// ---------------------------------------------------------------------------
// Character classes
// ---------------------------------------------------------------------------

/// `char::is_ascii_uppercase`.
pub open spec fn is_ascii_upper(c: char) -> bool {
    'A' <= c && c <= 'Z'
}

/// `char::is_ascii_alphanumeric`.
pub open spec fn is_ascii_alnum(c: char) -> bool {
    ('A' <= c && c <= 'Z') || ('a' <= c && c <= 'z') || ('0' <= c && c <= '9')
}

/// `char::is_ascii_digit`.
pub open spec fn is_ascii_digit(c: char) -> bool {
    '0' <= c && c <= '9'
}

/// `char::to_ascii_lowercase`: ASCII upper-case letters map to their
/// lower-case counterpart, every other character is left alone.
pub open spec fn lower_char(c: char) -> char {
    if is_ascii_upper(c) {
        ((c as u32) + 32) as char
    } else {
        c
    }
}

/// `str::to_ascii_lowercase` on the character sequence.
pub open spec fn lower(s: Seq<char>) -> Seq<char> {
    s.map_values(|c: char| lower_char(c))
}

/// The Unicode `White_Space` property, which is what `char::is_whitespace`
/// (and therefore `str::trim`) tests.
pub open spec fn is_unicode_whitespace(c: char) -> bool {
    ('\u{9}' <= c && c <= '\u{D}') || c == '\u{20}' || c == '\u{85}' || c == '\u{A0}'
        || c == '\u{1680}' || ('\u{2000}' <= c && c <= '\u{200A}') || c == '\u{2028}'
        || c == '\u{2029}' || c == '\u{202F}' || c == '\u{205F}' || c == '\u{3000}'
}

pub fn char_is_ascii_alnum(c: char) -> (b: bool)
    ensures
        b == is_ascii_alnum(c),
{
    ('A' <= c && c <= 'Z') || ('a' <= c && c <= 'z') || ('0' <= c && c <= '9')
}

pub fn char_is_whitespace(c: char) -> (b: bool)
    ensures
        b == is_unicode_whitespace(c),
{
    ('\u{9}' <= c && c <= '\u{D}') || c == '\u{20}' || c == '\u{85}' || c == '\u{A0}'
        || c == '\u{1680}' || ('\u{2000}' <= c && c <= '\u{200A}') || c == '\u{2028}'
        || c == '\u{2029}' || c == '\u{202F}' || c == '\u{205F}' || c == '\u{3000}'
}

pub fn char_to_ascii_lowercase(c: char) -> (r: char)
    ensures
        r == lower_char(c),
{
    if 'A' <= c && c <= 'Z' {
        ((c as u8) + 32) as char
    } else {
        c
    }
}

// ---------------------------------------------------------------------------
// Searching
// ---------------------------------------------------------------------------

/// Index of the first `c` in `s` at or after `i`.
pub open spec fn find_char_from(s: Seq<char>, c: char, i: int) -> Option<int>
    decreases s.len() - i,
{
    if i < 0 || i >= s.len() {
        None
    } else if s[i] == c {
        Some(i)
    } else {
        find_char_from(s, c, i + 1)
    }
}

/// Index of the first `c` in `s` (`str::find` with a `char` pattern).
pub open spec fn find_char(s: Seq<char>, c: char) -> Option<int> {
    find_char_from(s, c, 0)
}

/// Index of the last `c` in `s` strictly before position `j`.
pub open spec fn rfind_char_before(s: Seq<char>, c: char, j: int) -> Option<int>
    decreases j,
{
    if j <= 0 || j > s.len() {
        None
    } else if s[j - 1] == c {
        Some(j - 1)
    } else {
        rfind_char_before(s, c, j - 1)
    }
}

/// Index of the last `c` in `s` (`str::rfind` with a `char` pattern).
pub open spec fn rfind_char(s: Seq<char>, c: char) -> Option<int> {
    rfind_char_before(s, c, s.len() as int)
}

/// Whether `p` occurs in `s` at position `i`.
pub open spec fn occurs_at(s: Seq<char>, p: Seq<char>, i: int) -> bool {
    0 <= i && i + p.len() <= s.len() && s.subrange(i, i + p.len()) == p
}

/// Index of the first occurrence of `p` in `s` at or after `i`.
pub open spec fn find_seq_from(s: Seq<char>, p: Seq<char>, i: int) -> Option<int>
    decreases s.len() + 1 - i,
{
    if i < 0 || i + p.len() > s.len() {
        None
    } else if occurs_at(s, p, i) {
        Some(i)
    } else {
        find_seq_from(s, p, i + 1)
    }
}

/// What `s.split(c).next()` yields: everything before the first `c`.
pub open spec fn before_first(s: Seq<char>, c: char) -> Seq<char> {
    match find_char(s, c) {
        Some(i) => s.take(i),
        None => s,
    }
}

/// What `s.rsplit(c).next()` yields: everything after the last `c`.
pub open spec fn after_last(s: Seq<char>, c: char) -> Seq<char> {
    match rfind_char(s, c) {
        Some(i) => s.skip(i + 1),
        None => s,
    }
}

/// Whether `s` ends with `p`.
pub open spec fn ends_with(s: Seq<char>, p: Seq<char>) -> bool {
    p.len() <= s.len() && s.skip(s.len() - p.len()) == p
}

/// Whether `s` starts with `p`.
pub open spec fn starts_with(s: Seq<char>, p: Seq<char>) -> bool {
    occurs_at(s, p, 0)
}

// ---------------------------------------------------------------------------
// Trimming
// ---------------------------------------------------------------------------

/// `str::trim_end_matches` with a `char` pattern: every trailing `c` goes.
pub open spec fn trim_end_char(s: Seq<char>, c: char) -> Seq<char>
    decreases s.len(),
{
    if s.len() > 0 && s.last() == c {
        trim_end_char(s.drop_last(), c)
    } else {
        s
    }
}

/// `str::trim_end_matches` with a non-empty string pattern: every trailing
/// copy of `p` goes.
pub open spec fn trim_end_seq(s: Seq<char>, p: Seq<char>) -> Seq<char>
    decreases s.len(),
{
    if p.len() > 0 && ends_with(s, p) {
        trim_end_seq(s.take(s.len() - p.len()), p)
    } else {
        s
    }
}

/// Position of the first non-whitespace character at or after `i`
/// (`s.len()` when there is none).
pub open spec fn ws_start_from(s: Seq<char>, i: int) -> int
    decreases s.len() - i,
{
    if i < 0 || i >= s.len() {
        s.len() as int
    } else if is_unicode_whitespace(s[i]) {
        ws_start_from(s, i + 1)
    } else {
        i
    }
}

/// One past the last non-whitespace character before `j` (0 when there
/// is none).
pub open spec fn ws_end_before(s: Seq<char>, j: int) -> int
    decreases j,
{
    if j <= 0 || j > s.len() {
        0
    } else if is_unicode_whitespace(s[j - 1]) {
        ws_end_before(s, j - 1)
    } else {
        j
    }
}

/// `str::trim`: leading and trailing Unicode whitespace removed.
pub open spec fn trim_ws(s: Seq<char>) -> Seq<char> {
    let a = ws_start_from(s, 0);
    let b = ws_end_before(s, s.len() as int);
    if b <= a {
        Seq::empty()
    } else {
        s.subrange(a, b)
    }
}

// ---------------------------------------------------------------------------
// Decimal numbers
// ---------------------------------------------------------------------------

/// The ASCII digit for `d < 10`.
pub open spec fn digit_char(d: int) -> char {
    ((48 + d) as u8) as char
}

/// The value of an ASCII digit character.
pub open spec fn digit_value(c: char) -> int {
    (c as int) - 48
}

/// The shortest decimal representation of `n`.
pub open spec fn decimal(n: nat) -> Seq<char>
    decreases n,
{
    if n < 10 {
        seq![digit_char(n as int)]
    } else {
        decimal(n / 10).push(digit_char((n % 10) as int))
    }
}

/// Whether every character of `s` is an ASCII digit.
pub open spec fn all_ascii_digits(s: Seq<char>) -> bool {
    forall|i: int| 0 <= i < s.len() ==> is_ascii_digit(#[trigger] s[i])
}

/// The value of a string of ASCII digits, most significant first.
pub open spec fn digits_value(s: Seq<char>) -> nat
    decreases s.len(),
{
    if s.len() == 0 {
        0
    } else {
        (digits_value(s.drop_last()) * 10 + digit_value(s.last())) as nat
    }
}

/// `u32::from_str`: an optional `+`, then one or more ASCII digits whose
/// value fits in a `u32`.
pub open spec fn parse_u32(s: Seq<char>) -> Option<u32> {
    let d = if s.len() > 0 && s[0] == '+' {
        s.drop_first()
    } else {
        s
    };
    if d.len() == 0 || !all_ascii_digits(d) || digits_value(d) > u32::MAX {
        None
    } else {
        Some(digits_value(d) as u32)
    }
}

/// `a` sorts strictly before `b`: at the first position where they differ
/// `a` has the smaller character, or `a` is a proper prefix of `b`.
/// (On UTF-8 text this is also the byte order.)
pub open spec fn lex_lt(a: Seq<char>, b: Seq<char>) -> bool {
    exists|k: int|
        #![trigger a.take(k), b.take(k)]
        0 <= k <= a.len() && k <= b.len() && a.take(k) == b.take(k) && ((k < a.len() && k
            < b.len() && (a[k] as u32) < (b[k] as u32)) || (k == a.len() && k < b.len()))
}

// ---------------------------------------------------------------------------
// Facts
// ---------------------------------------------------------------------------

/// The digit characters read back as their values.
pub proof fn lemma_digit_char(d: int)
    requires
        0 <= d < 10,
    ensures
        is_ascii_digit(digit_char(d)),
        digit_value(digit_char(d)) == d,
        !is_unicode_whitespace(digit_char(d)),
        digit_char(d) != '+',
        digit_char(d) != 'x',
        lower_char(digit_char(d)) == digit_char(d),
{
}

/// The decimal representation is a non-empty string of ASCII digits that
/// reads back as the number.
pub proof fn lemma_decimal(n: nat)
    ensures
        decimal(n).len() >= 1,
        all_ascii_digits(decimal(n)),
        digits_value(decimal(n)) == n,
    decreases n,
{
    if n < 10 {
        lemma_digit_char(n as int);
        assert(seq![digit_char(n as int)].drop_last() =~= Seq::<char>::empty());
        assert(digits_value(Seq::<char>::empty()) == 0);
        assert(digits_value(seq![digit_char(n as int)]) == n);
    } else {
        lemma_decimal(n / 10);
        lemma_digit_char((n % 10) as int);
        let d = decimal(n / 10);
        let e = d.push(digit_char((n % 10) as int));
        assert(e.drop_last() =~= d);
        assert forall|i: int| 0 <= i < e.len() implies is_ascii_digit(#[trigger] e[i]) by {
            if i < d.len() {
                assert(e[i] == d[i]);
            }
        }
        vstd::arithmetic::div_mod::lemma_fundamental_div_mod(n as int, 10);
        assert(digits_value(e) == digits_value(d) * 10 + digit_value(e.last()));
        assert(e.last() == digit_char((n % 10) as int));
    }
}

/// A string with no whitespace is its own trim.
pub proof fn lemma_trim_without_whitespace(s: Seq<char>)
    requires
        forall|i: int| 0 <= i < s.len() ==> !is_unicode_whitespace(#[trigger] s[i]),
    ensures
        trim_ws(s) == s,
{
    if s.len() > 0 {
        assert(ws_start_from(s, 0) == 0);
        assert(ws_end_before(s, s.len() as int) == s.len());
        assert(s.subrange(0, s.len() as int) =~= s);
    } else {
        assert(trim_ws(s) =~= s);
    }
}

/// The first `c` at or after `i` is at `j` when `s[j]` is `c` and no
/// earlier position from `i` on holds it.
pub proof fn lemma_find_char_from_at(s: Seq<char>, c: char, i: int, j: int)
    requires
        0 <= i <= j < s.len(),
        s[j] == c,
        forall|k: int| i <= k < j ==> s[k] != c,
    ensures
        find_char_from(s, c, i) == Some(j),
    decreases j - i,
{
    if i < j {
        lemma_find_char_from_at(s, c, i + 1, j);
    }
}

/// `find_char_from` finds the first `c` at or after `i`, if any.
pub proof fn lemma_find_char_from(s: Seq<char>, c: char, i: int)
    requires
        0 <= i <= s.len(),
    ensures
        match find_char_from(s, c, i) {
            Some(k) => i <= k < s.len() && s[k] == c && forall|m: int| i <= m < k ==> s[m] != c,
            None => forall|m: int| i <= m < s.len() ==> s[m] != c,
        },
    decreases s.len() - i,
{
    if i < s.len() && s[i] != c {
        lemma_find_char_from(s, c, i + 1);
    }
}

/// What precedes the first `c` holds no `c` and is a prefix of `s`.
pub proof fn lemma_before_first(s: Seq<char>, c: char)
    ensures
        before_first(s, c).len() <= s.len(),
        before_first(s, c) == s.take(before_first(s, c).len() as int),
        forall|i: int| 0 <= i < before_first(s, c).len() ==> #[trigger] before_first(s, c)[i] != c,
        (forall|i: int| 0 <= i < s.len() ==> s[i] != c) ==> before_first(s, c) == s,
{
    lemma_find_char_from(s, c, 0);
    if find_char(s, c) is None {
        assert(s.take(s.len() as int) =~= s);
    }
}

/// Trimming a character off the end keeps a prefix that no longer ends
/// with it, and trims nothing from a string that does not end with it.
pub proof fn lemma_trim_end_char(s: Seq<char>, c: char)
    ensures
        trim_end_char(s, c).len() <= s.len(),
        trim_end_char(s, c) == s.take(trim_end_char(s, c).len() as int),
        trim_end_char(s, c).len() > 0 ==> trim_end_char(s, c).last() != c,
        (s.len() == 0 || s.last() != c) ==> trim_end_char(s, c) == s,
    decreases s.len(),
{
    if s.len() > 0 && s.last() == c {
        lemma_trim_end_char(s.drop_last(), c);
        let t = trim_end_char(s.drop_last(), c);
        assert(s.drop_last().take(t.len() as int) =~= s.take(t.len() as int));
    } else {
        assert(s.take(s.len() as int) =~= s);
    }
}

/// Lower-casing twice is lower-casing once.
pub proof fn lemma_lower_idempotent(s: Seq<char>)
    ensures
        lower(lower(s)) == lower(s),
{
    assert(lower(lower(s)) =~= lower(s));
}

/// `find_seq_from` finds an occurrence at or after `i`.
pub proof fn lemma_find_seq_from_some(s: Seq<char>, p: Seq<char>, i: int)
    requires
        find_seq_from(s, p, i) is Some,
    ensures
        i <= find_seq_from(s, p, i)->0,
        occurs_at(s, p, find_seq_from(s, p, i)->0),
    decreases s.len() + 1 - i,
{
    if !(i < 0 || i + p.len() > s.len()) && !occurs_at(s, p, i) {
        lemma_find_seq_from_some(s, p, i + 1);
    }
}

/// Appending text after the first occurrence of `p` does not move it.
pub proof fn lemma_find_seq_from_append(s: Seq<char>, p: Seq<char>, t: Seq<char>, i: int)
    requires
        find_seq_from(s, p, i) is Some,
    ensures
        find_seq_from(s + t, p, i) == find_seq_from(s, p, i),
    decreases s.len() + 1 - i,
{
    lemma_find_seq_from_some(s, p, i);
    let k = find_seq_from(s, p, i)->0;
    assert(i >= 0 && i + p.len() <= s.len());
    assert((s + t).subrange(i, i + p.len()) =~= s.subrange(i, i + p.len()));
    if !occurs_at(s, p, i) {
        lemma_find_seq_from_append(s, p, t, i + 1);
    }
}

/// The first occurrence of `p` at or after `i` is at `k` when it occurs
/// there and at no earlier position from `i` on.
pub proof fn lemma_find_seq_from_at(s: Seq<char>, p: Seq<char>, i: int, k: int)
    requires
        0 <= i <= k,
        occurs_at(s, p, k),
        forall|j: int| i <= j < k ==> !occurs_at(s, p, j),
    ensures
        find_seq_from(s, p, i) == Some(k),
    decreases k - i,
{
    if i < k {
        lemma_find_seq_from_at(s, p, i + 1, k);
    }
}

/// An occurrence inside `s` is still one inside `s + t`.
pub proof fn lemma_occurs_at_append(s: Seq<char>, p: Seq<char>, t: Seq<char>, i: int)
    requires
        occurs_at(s, p, i),
    ensures
        occurs_at(s + t, p, i),
{
    assert((s + t).subrange(i, i + p.len()) =~= s.subrange(i, i + p.len()));
}

/// The first `c` of `s + t`: the first of `s` if there is one, else the
/// first of `t` shifted past `s`.
pub proof fn lemma_find_char_append(s: Seq<char>, t: Seq<char>, c: char)
    ensures
        find_char(s + t, c) == (match find_char(s, c) {
            Some(k) => Some(k),
            None => match find_char(t, c) {
                Some(m) => Some(s.len() + m),
                None => None,
            },
        }),
{
    let st = s + t;
    lemma_find_char_from(s, c, 0);
    lemma_find_char_from(t, c, 0);
    lemma_find_char_from(st, c, 0);
    match find_char(s, c) {
        Some(k) => {
            assert forall|m: int| 0 <= m < k implies st[m] != c by {
                assert(st[m] == s[m]);
            }
            lemma_find_char_from_at(st, c, 0, k);
        },
        None => match find_char(t, c) {
            Some(m) => {
                assert forall|x: int| 0 <= x < s.len() + m implies st[x] != c by {
                    if x < s.len() {
                        assert(st[x] == s[x]);
                    } else {
                        assert(st[x] == t[x - s.len()]);
                    }
                }
                assert(st[s.len() + m] == t[m]);
                lemma_find_char_from_at(st, c, 0, s.len() + m);
            },
            None => {
                if find_char(st, c) is Some {
                    let x = find_char(st, c)->0;
                    if x < s.len() {
                        assert(st[x] == s[x]);
                    } else {
                        assert(st[x] == t[x - s.len()]);
                    }
                }
            },
        },
    }
}

/// What precedes the first `c` of `s + t`.
pub proof fn lemma_before_first_append(s: Seq<char>, t: Seq<char>, c: char)
    ensures
        before_first(s + t, c) == (if find_char(s, c) is Some {
            before_first(s, c)
        } else {
            s + before_first(t, c)
        }),
{
    lemma_find_char_append(s, t, c);
    lemma_find_char_from(s, c, 0);
    match find_char(s, c) {
        Some(k) => {
            assert((s + t).take(k) =~= s.take(k));
        },
        None => {
            lemma_before_first(s, c);
            lemma_find_char_from(t, c, 0);
            match find_char(t, c) {
                Some(m) => {
                    assert((s + t).take(s.len() + m) =~= s + t.take(m));
                },
                None => {},
            }
        },
    }
}

/// The last `c` before `j` is at `k` when `s[k]` is `c` and nothing
/// between them is.
pub proof fn lemma_rfind_char_at(s: Seq<char>, c: char, j: int, k: int)
    requires
        0 <= k < j <= s.len(),
        s[k] == c,
        forall|m: int| k < m < j ==> s[m] != c,
    ensures
        rfind_char_before(s, c, j) == Some(k),
    decreases j - k,
{
    if k < j - 1 {
        lemma_rfind_char_at(s, c, j - 1, k);
    }
}

/// Lower-casing does not move the first non-whitespace position.
proof fn lemma_ws_start_from_lower(s: Seq<char>, i: int)
    ensures
        ws_start_from(lower(s), i) == ws_start_from(s, i),
    decreases s.len() - i,
{
    if 0 <= i < s.len() {
        assert(lower(s)[i] == lower_char(s[i]));
        lemma_ws_start_from_lower(s, i + 1);
    }
}

/// Lower-casing does not move the last non-whitespace position.
proof fn lemma_ws_end_before_lower(s: Seq<char>, j: int)
    ensures
        ws_end_before(lower(s), j) == ws_end_before(s, j),
    decreases j,
{
    if 0 < j <= s.len() {
        assert(lower(s)[j - 1] == lower_char(s[j - 1]));
        lemma_ws_end_before_lower(s, j - 1);
    }
}

/// The trim bounds stay within the string.
pub proof fn lemma_ws_bounds(s: Seq<char>, i: int, j: int)
    requires
        0 <= i <= s.len(),
        0 <= j <= s.len(),
    ensures
        i <= ws_start_from(s, i) <= s.len(),
        0 <= ws_end_before(s, j) <= j,
    decreases s.len() - i + j,
{
    if i < s.len() && is_unicode_whitespace(s[i]) {
        lemma_ws_bounds(s, i + 1, j);
    } else if j > 0 && is_unicode_whitespace(s[j - 1]) {
        lemma_ws_bounds(s, i, j - 1);
    }
}

/// Trimming and lower-casing commute.
pub proof fn lemma_trim_lower(s: Seq<char>)
    ensures
        trim_ws(lower(s)) == lower(trim_ws(s)),
{
    lemma_ws_start_from_lower(s, 0);
    lemma_ws_end_before_lower(s, s.len() as int);
    lemma_ws_bounds(s, 0, s.len() as int);
    assert(lower(s).len() == s.len());
    assert(trim_ws(lower(s)) =~= lower(trim_ws(s)));
}

/// The first non-whitespace position from `i` is at most `k` when `s[k]`
/// is not whitespace; from `i` on, an all-whitespace rest gives `s.len()`.
pub proof fn lemma_ws_start_from_bound(s: Seq<char>, i: int, k: int)
    requires
        0 <= i <= s.len(),
    ensures
        i <= k < s.len() && !is_unicode_whitespace(s[k]) ==> ws_start_from(s, i) <= k,
        (forall|m: int| i <= m < s.len() ==> is_unicode_whitespace(#[trigger] s[m])) ==> ws_start_from(
            s,
            i,
        ) == s.len(),
    decreases s.len() - i,
{
    if i < s.len() {
        lemma_ws_start_from_bound(s, i + 1, k);
    }
}

/// One past the last non-whitespace position before `j` is beyond `k`
/// when `s[k]` is not whitespace.
pub proof fn lemma_ws_end_before_bound(s: Seq<char>, j: int, k: int)
    requires
        0 <= k < j <= s.len(),
        !is_unicode_whitespace(s[k]),
    ensures
        ws_end_before(s, j) > k,
    decreases j,
{
    if j - 1 > k && is_unicode_whitespace(s[j - 1]) {
        lemma_ws_end_before_bound(s, j - 1, k);
    }
}

/// Lower-casing leaves a string without ASCII upper-case letters alone.
pub proof fn lemma_lower_identity(s: Seq<char>)
    requires
        forall|i: int| 0 <= i < s.len() ==> !is_ascii_upper(#[trigger] s[i]),
    ensures
        lower(s) == s,
{
    assert(lower(s) =~= s);
}

/// What follows the last `c` holds no `c`.
pub proof fn lemma_after_last_has_no(s: Seq<char>, c: char)
    ensures
        forall|i: int| 0 <= i < after_last(s, c).len() ==> #[trigger] after_last(s, c)[i] != c,
{
    lemma_rfind_char_before(s, c, s.len() as int);
    match rfind_char(s, c) {
        Some(j) => {
            assert forall|i: int| 0 <= i < after_last(s, c).len() implies #[trigger] after_last(
                s,
                c,
            )[i] != c by {
                assert(after_last(s, c)[i] == s[j + 1 + i]);
            }
        },
        None => {},
    }
}

/// `rfind_char_before` finds the last `c` before `j`, if any.
pub proof fn lemma_rfind_char_before(s: Seq<char>, c: char, j: int)
    requires
        0 <= j <= s.len(),
    ensures
        match rfind_char_before(s, c, j) {
            Some(k) => 0 <= k < j && s[k] == c && forall|m: int| k < m < j ==> s[m] != c,
            None => forall|m: int| 0 <= m < j ==> s[m] != c,
        },
    decreases j,
{
    if j > 0 && s[j - 1] != c {
        lemma_rfind_char_before(s, c, j - 1);
    }
}

// ---------------------------------------------------------------------------
// Executable helpers
// ---------------------------------------------------------------------------

/// `String::push`.
/// Trusted: std documents that it appends the character to the end of the
/// string, so the new character sequence is the old one with `c` after it.
#[verifier::external_body]
pub fn push_char(s: &mut String, c: char)
    ensures
        final(s)@ == old(s)@.push(c),
{
    s.push(c);
}

/// The characters of `s`, one per element.
pub fn chars_of(s: &str) -> (v: Vec<char>)
    ensures
        v@ == s@,
{
    let mut v: Vec<char> = Vec::new();
    for c in it: s.chars()
        invariant
            v@ == it.seq().take(it.index() as int),
    {
        v.push(c);
    }
    v
}

/// A `String` holding `v[from..to]`.
pub fn string_from_chars(v: &Vec<char>, from: usize, to: usize) -> (s: String)
    requires
        from <= to <= v.len(),
    ensures
        s@ == v@.subrange(from as int, to as int),
{
    let mut s = String::new();
    let mut i = from;
    while i < to
        invariant
            from <= i <= to <= v.len(),
            s@ == v@.subrange(from as int, i as int),
        decreases to - i,
    {
        push_char(&mut s, v[i]);
        assert(v@.subrange(from as int, i + 1) == v@.subrange(from as int, i as int).push(v@[i as int]));
        i = i + 1;
    }
    s
}

/// Whether `v[from..]` holds exactly the characters of `lit` at `from`.
pub fn occurs_at_exec(v: &Vec<char>, lit: &str, from: usize) -> (b: bool)
    ensures
        b == occurs_at(v@, lit@, from as int),
{
    let n = lit.unicode_len();
    if n > v.len() || from > v.len() - n {
        return false;
    }
    let mut i: usize = 0;
    while i < n
        invariant
            n == lit@.len(),
            from + n <= v.len(),
            i <= n,
            forall|k: int| 0 <= k < i ==> v@[from + k] == lit@[k],
        decreases n - i,
    {
        if v[from + i] != lit.get_char(i) {
            assert(v@.subrange(from as int, from + n)[i as int] != lit@[i as int]);
            return false;
        }
        i = i + 1;
    }
    assert(v@.subrange(from as int, from + n) =~= lit@);
    true
}

/// Whether `v` holds exactly the characters of `lit`.
pub fn chars_eq_str(v: &Vec<char>, lit: &str) -> (b: bool)
    ensures
        b == (v@ == lit@),
{
    if v.len() != lit.unicode_len() {
        return false;
    }
    let r = occurs_at_exec(v, lit, 0);
    assert(v@.subrange(0, v@.len() as int) =~= v@);
    r
}

/// Character-wise equality of two string slices.
pub fn str_eq(a: &str, b: &str) -> (r: bool)
    ensures
        r == (a@ == b@),
{
    let av = chars_of(a);
    chars_eq_str(&av, b)
}

/// The ASCII lower-case form of `v[from..to]` as a `String`.
pub fn lowercase_string(v: &Vec<char>, from: usize, to: usize) -> (s: String)
    requires
        from <= to <= v.len(),
    ensures
        s@ == lower(v@.subrange(from as int, to as int)),
{
    let mut s = String::new();
    let mut i = from;
    while i < to
        invariant
            from <= i <= to <= v.len(),
            s@ == lower(v@.subrange(from as int, i as int)),
        decreases to - i,
    {
        push_char(&mut s, char_to_ascii_lowercase(v[i]));
        assert(lower(v@.subrange(from as int, i + 1)) =~= lower(
            v@.subrange(from as int, i as int),
        ).push(lower_char(v@[i as int])));
        i = i + 1;
    }
    s
}

/// The ASCII lower-case form of `v[from..to]`, as characters.
pub fn lowercase_chars_range(v: &Vec<char>, from: usize, to: usize) -> (r: Vec<char>)
    requires
        from <= to <= v.len(),
    ensures
        r@ == lower(v@.subrange(from as int, to as int)),
{
    let mut r: Vec<char> = Vec::new();
    let mut i = from;
    while i < to
        invariant
            from <= i <= to <= v.len(),
            r@ == lower(v@.subrange(from as int, i as int)),
        decreases to - i,
    {
        r.push(char_to_ascii_lowercase(v[i]));
        assert(lower(v@.subrange(from as int, i + 1)) =~= lower(
            v@.subrange(from as int, i as int),
        ).push(lower_char(v@[i as int])));
        i = i + 1;
    }
    r
}

/// First index of `c` in `v[..to]` at or after `from`.
pub fn find_char_exec(v: &Vec<char>, c: char, from: usize, to: usize) -> (r: Option<usize>)
    requires
        to <= v.len(),
    ensures
        match find_char_from(v@.take(to as int), c, from as int) {
            Some(i) => r matches Some(k) && k == i,
            None => r is None,
        },
        r matches Some(i) ==> from <= i < to,
{
    let mut i = from;
    while i < to
        invariant
            from <= i,
            to <= v.len(),
            find_char_from(v@.take(to as int), c, from as int) == find_char_from(
                v@.take(to as int),
                c,
                i as int,
            ),
        decreases to - i,
    {
        if v[i] == c {
            return Some(i);
        }
        i = i + 1;
    }
    None
}

/// Last index of `c` in `v[..before]`.
pub fn rfind_char_exec(v: &Vec<char>, c: char, before: usize) -> (r: Option<usize>)
    requires
        before <= v.len(),
    ensures
        match rfind_char(v@.take(before as int), c) {
            Some(j) => r matches Some(k) && k == j,
            None => r is None,
        },
        r matches Some(i) ==> i < before,
{
    let ghost s = v@.take(before as int);
    let mut j = before;
    while j > 0
        invariant
            j <= before <= v.len(),
            s == v@.take(before as int),
            rfind_char_before(s, c, before as int) == rfind_char_before(s, c, j as int),
        decreases j,
    {
        if v[j - 1] == c {
            return Some(j - 1);
        }
        j = j - 1;
    }
    None
}

/// First occurrence of `lit` in `v` at or after `from`.
pub fn find_str_exec(v: &Vec<char>, lit: &str, from: usize) -> (r: Option<usize>)
    ensures
        match find_seq_from(v@, lit@, from as int) {
            Some(i) => r matches Some(k) && k == i,
            None => r is None,
        },
        r matches Some(i) ==> from <= i && i + lit@.len() <= v.len(),
{
    let n = lit.unicode_len();
    let mut i = from;
    while i <= v.len() && n <= v.len() - i
        invariant
            from <= i,
            n == lit@.len(),
            find_seq_from(v@, lit@, from as int) == find_seq_from(v@, lit@, i as int),
        decreases v.len() + 1 - i,
    {
        if occurs_at_exec(v, lit, i) {
            return Some(i);
        }
        proof {
            if n == 0 {
                assert(v@.subrange(i as int, i as int) =~= lit@);
            }
        }
        i = i + 1;
    }
    None
}

/// Length of `v[..to]` once every trailing `c` is removed.
pub fn trim_end_char_len(v: &Vec<char>, c: char, to: usize) -> (n: usize)
    requires
        to <= v.len(),
    ensures
        n <= to,
        v@.take(n as int) == trim_end_char(v@.take(to as int), c),
{
    let mut n = to;
    while n > 0 && v[n - 1] == c
        invariant
            n <= to <= v.len(),
            trim_end_char(v@.take(n as int), c) == trim_end_char(v@.take(to as int), c),
        decreases n,
    {
        assert(v@.take(n as int).drop_last() =~= v@.take(n - 1));
        n = n - 1;
    }
    n
}

/// Length of `v[..to]` once every trailing copy of `lit` is removed.
pub fn trim_end_str_len(v: &Vec<char>, lit: &str, to: usize) -> (n: usize)
    requires
        to <= v.len(),
        lit@.len() > 0,
    ensures
        n <= to,
        v@.take(n as int) == trim_end_seq(v@.take(to as int), lit@),
{
    let k = lit.unicode_len();
    let mut n = to;
    while n >= k && text_occurs_before(v, lit, n)
        invariant
            n <= to <= v.len(),
            k == lit@.len(),
            k > 0,
            trim_end_seq(v@.take(n as int), lit@) == trim_end_seq(v@.take(to as int), lit@),
        decreases n,
    {
        assert(v@.take(n as int).skip(n - k) =~= v@.subrange(n - k, n as int));
        assert(v@.take(n as int).take(n - k) =~= v@.take(n - k));
        n = n - k;
    }
    proof {
        if n >= k {
            assert(v@.take(n as int).skip(n - k) =~= v@.subrange(n - k, n as int));
        }
    }
    n
}

/// Whether `v[..n]` ends with `lit` (`n >= lit.len()`).
fn text_occurs_before(v: &Vec<char>, lit: &str, n: usize) -> (b: bool)
    requires
        n <= v.len(),
        lit@.len() <= n,
    ensures
        b == occurs_at(v@, lit@, n - lit@.len()),
{
    occurs_at_exec(v, lit, n - lit.unicode_len())
}

/// A copy of `v[from..to]`.
pub fn sub_chars(v: &Vec<char>, from: usize, to: usize) -> (r: Vec<char>)
    requires
        from <= to <= v.len(),
    ensures
        r@ == v@.subrange(from as int, to as int),
{
    let mut r: Vec<char> = Vec::new();
    let mut i = from;
    while i < to
        invariant
            from <= i <= to <= v.len(),
            r@ == v@.subrange(from as int, i as int),
        decreases to - i,
    {
        r.push(v[i]);
        assert(v@.subrange(from as int, i + 1) =~= v@.subrange(from as int, i as int).push(v@[i as int]));
        i = i + 1;
    }
    r
}

/// A prefix of a string of digits is worth no more than the whole string.
pub proof fn lemma_digits_value_prefix(s: Seq<char>, j: int)
    requires
        0 <= j <= s.len(),
        all_ascii_digits(s),
    ensures
        digits_value(s.take(j)) <= digits_value(s),
    decreases s.len(),
{
    if j < s.len() {
        assert(s.drop_last().take(j) =~= s.take(j));
        assert(is_ascii_digit(s[s.len() - 1]));
        assert(all_ascii_digits(s.drop_last())) by {
            assert forall|i: int| 0 <= i < s.drop_last().len() implies is_ascii_digit(
                #[trigger] s.drop_last()[i],
            ) by {
                assert(s.drop_last()[i] == s[i]);
            }
        }
        lemma_digits_value_prefix(s.drop_last(), j);
    } else {
        assert(s.take(j) =~= s);
    }
}

/// `parse_u32` of `v[from..to]`.
pub fn parse_u32_range(v: &Vec<char>, from: usize, to: usize) -> (r: Option<u32>)
    requires
        from <= to <= v.len(),
    ensures
        r == parse_u32(v@.subrange(from as int, to as int)),
{
    let ghost s = v@.subrange(from as int, to as int);
    let mut start = from;
    if start < to && v[start] == '+' {
        start = start + 1;
    }
    let ghost d = v@.subrange(start as int, to as int);
    assert(d == (if s.len() > 0 && s[0] == '+' {
        s.drop_first()
    } else {
        s
    }));
    if start == to {
        return None;
    }
    let mut i = start;
    let mut val: u64 = 0;
    while i < to
        invariant
            start <= i <= to <= v.len(),
            d == v@.subrange(start as int, to as int),
            s == v@.subrange(from as int, to as int),
            d == (if s.len() > 0 && s[0] == '+' {
                s.drop_first()
            } else {
                s
            }),
            d.len() > 0,
            all_ascii_digits(v@.subrange(start as int, i as int)),
            val == digits_value(v@.subrange(start as int, i as int)),
            val <= u32::MAX,
        decreases to - i,
    {
        let c = v[i];
        if !('0' <= c && c <= '9') {
            assert(d[i - start] == c);
            assert(!is_ascii_digit(d[i - start]));
            assert(!all_ascii_digits(d));
            return None;
        }
        let ghost next = v@.subrange(start as int, i + 1);
        assert(next.drop_last() =~= v@.subrange(start as int, i as int));
        assert(next.last() == c);
        let nv = val * 10 + ((c as u64) - 48);
        if nv > 4294967295u64 {
            proof {
                assert(d.take(i + 1 - start) =~= next);
                if all_ascii_digits(d) {
                    lemma_digits_value_prefix(d, i + 1 - start);
                    assert(digits_value(d) > u32::MAX);
                }
            }
            return None;
        }
        val = nv;
        i = i + 1;
    }
    Some(val as u32)
}

/// Bounds `(a, b)` of `trim_ws(v)`: leading and trailing whitespace cut.
pub fn trim_ws_bounds(v: &Vec<char>) -> (r: (usize, usize))
    ensures
        r.0 <= r.1 <= v.len(),
        v@.subrange(r.0 as int, r.1 as int) == trim_ws(v@),
{
    let mut a: usize = 0;
    while a < v.len() && char_is_whitespace(v[a])
        invariant
            a <= v.len(),
            ws_start_from(v@, 0) == ws_start_from(v@, a as int),
        decreases v.len() - a,
    {
        a = a + 1;
    }
    let mut b: usize = v.len();
    while b > 0 && char_is_whitespace(v[b - 1])
        invariant
            b <= v.len(),
            ws_end_before(v@, v.len() as int) == ws_end_before(v@, b as int),
        decreases b,
    {
        b = b - 1;
    }
    if b <= a {
        (a, a)
    } else {
        (a, b)
    }
}

/// Appends the shortest decimal representation of `n`.
pub fn push_decimal(s: &mut String, n: usize)
    ensures
        final(s)@ == old(s)@ + decimal(n as nat),
    decreases n,
{
    if n >= 10 {
        push_decimal(s, n / 10);
    }
    let d = (n % 10) as u8;
    push_char(s, (48u8 + d) as char);
    proof {
        if n >= 10 {
            assert(decimal(n as nat) == decimal((n / 10) as nat).push(digit_char((n % 10) as int)));
        }
    }
}

} // verus!
