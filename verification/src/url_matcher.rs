//! Gallery URL detection and provider routing.
//!
//! Each recognised URL is routed to exactly one [`Provider`] based on a
//! host + path shape check. Unknown URLs fall through to
//! [`Provider::Generic`] only if the URL scheme is http(s); everything
//! else is rejected.
//!
//! The three path shapes are small grammars over the normalised path
//! (query, fragment and trailing slashes removed):
//!
//! - Imgur: `/a/<id>` or `/gallery/<id>`, `<id>` one or more ASCII
//!   letters or digits;
//! - Reddit: `/r/<sub>/comments/<id>`, `<sub>` one or more ASCII letters,
//!   digits or `_`, `<id>` one or more ASCII letters or digits;
//! - Flickr: `/photos/<user>/albums/<album>`, `<user>` one or more
//!   characters other than `/`, `<album>` one or more Unicode decimal
//!   digits (general category `Nd`).
//!
//! In each, the last segment must be followed by the end of the path or
//! by a `/`, so that trailing junk glued to a segment is rejected.

use vstd::prelude::*;

use crate::text;

verus! {

/// Gallery provider for a given URL.
#[derive(Debug, Clone, Copy, PartialEq, Eq, Structural)]
pub enum Provider {
    /// Imgur album or gallery: `imgur.com/a/<id>` or `imgur.com/gallery/<id>`
    Imgur,
    /// Reddit submission / gallery: `reddit.com/r/<sub>/comments/<id>/…`
    Reddit,
    /// Flickr photoset / album: `flickr.com/photos/<user>/albums/<id>`
    Flickr,
    /// Generic HTML page — parse `<img>` tags.
    Generic,
}

// ---------------------------------------------------------------------------
// Character classes of the path grammars
// ---------------------------------------------------------------------------

/// The character classes that path segments are made of.
#[derive(Clone, Copy)]
pub enum SegmentClass {
    /// `[A-Za-z0-9]`
    AsciiAlnum,
    /// `[A-Za-z0-9_]`
    AsciiWord,
    /// `[^/]`
    NotSlash,
    /// Unicode general category `Nd`
    DecimalDigit,
}

/// Unicode general category `Nd` (decimal numbers), Unicode 16.0.
pub open spec fn is_decimal_digit(c: char) -> bool {
    match c {
        '\u{30}'..='\u{39}' | '\u{660}'..='\u{669}' | '\u{6F0}'..='\u{6F9}' | '\u{7C0}'..='\u{7C9}'
        | '\u{966}'..='\u{96F}' | '\u{9E6}'..='\u{9EF}' | '\u{A66}'..='\u{A6F}'
        | '\u{AE6}'..='\u{AEF}' | '\u{B66}'..='\u{B6F}' | '\u{BE6}'..='\u{BEF}'
        | '\u{C66}'..='\u{C6F}' | '\u{CE6}'..='\u{CEF}' | '\u{D66}'..='\u{D6F}'
        | '\u{DE6}'..='\u{DEF}' | '\u{E50}'..='\u{E59}' | '\u{ED0}'..='\u{ED9}'
        | '\u{F20}'..='\u{F29}' | '\u{1040}'..='\u{1049}' | '\u{1090}'..='\u{1099}'
        | '\u{17E0}'..='\u{17E9}' | '\u{1810}'..='\u{1819}' | '\u{1946}'..='\u{194F}'
        | '\u{19D0}'..='\u{19D9}' | '\u{1A80}'..='\u{1A89}' | '\u{1A90}'..='\u{1A99}'
        | '\u{1B50}'..='\u{1B59}' | '\u{1BB0}'..='\u{1BB9}' | '\u{1C40}'..='\u{1C49}'
        | '\u{1C50}'..='\u{1C59}' | '\u{A620}'..='\u{A629}' | '\u{A8D0}'..='\u{A8D9}'
        | '\u{A900}'..='\u{A909}' | '\u{A9D0}'..='\u{A9D9}' | '\u{A9F0}'..='\u{A9F9}'
        | '\u{AA50}'..='\u{AA59}' | '\u{ABF0}'..='\u{ABF9}' | '\u{FF10}'..='\u{FF19}'
        | '\u{104A0}'..='\u{104A9}' | '\u{10D30}'..='\u{10D39}' | '\u{10D40}'..='\u{10D49}'
        | '\u{11066}'..='\u{1106F}' | '\u{110F0}'..='\u{110F9}' | '\u{11136}'..='\u{1113F}'
        | '\u{111D0}'..='\u{111D9}' | '\u{112F0}'..='\u{112F9}' | '\u{11450}'..='\u{11459}'
        | '\u{114D0}'..='\u{114D9}' | '\u{11650}'..='\u{11659}' | '\u{116C0}'..='\u{116C9}'
        | '\u{116D0}'..='\u{116E3}' | '\u{11730}'..='\u{11739}' | '\u{118E0}'..='\u{118E9}'
        | '\u{11950}'..='\u{11959}' | '\u{11BF0}'..='\u{11BF9}' | '\u{11C50}'..='\u{11C59}'
        | '\u{11D50}'..='\u{11D59}' | '\u{11DA0}'..='\u{11DA9}' | '\u{11F50}'..='\u{11F59}'
        | '\u{16130}'..='\u{16139}' | '\u{16A60}'..='\u{16A69}' | '\u{16AC0}'..='\u{16AC9}'
        | '\u{16B50}'..='\u{16B59}' | '\u{16D70}'..='\u{16D79}' | '\u{1CCF0}'..='\u{1CCF9}'
        | '\u{1D7CE}'..='\u{1D7FF}' | '\u{1E140}'..='\u{1E149}' | '\u{1E2F0}'..='\u{1E2F9}'
        | '\u{1E4F0}'..='\u{1E4F9}' | '\u{1E5F1}'..='\u{1E5FA}' | '\u{1E950}'..='\u{1E959}'
        | '\u{1FBF0}'..='\u{1FBF9}' => true,
        _ => false,
    }
}

pub open spec fn in_class(cls: SegmentClass, c: char) -> bool {
    match cls {
        SegmentClass::AsciiAlnum => text::is_ascii_alnum(c),
        SegmentClass::AsciiWord => text::is_ascii_alnum(c) || c == '_',
        SegmentClass::NotSlash => c != '/',
        SegmentClass::DecimalDigit => is_decimal_digit(c),
    }
}

fn char_is_decimal_digit(c: char) -> (b: bool)
    ensures
        b == is_decimal_digit(c),
{
    match c {
        '\u{30}'..='\u{39}' | '\u{660}'..='\u{669}' | '\u{6F0}'..='\u{6F9}' | '\u{7C0}'..='\u{7C9}'
        | '\u{966}'..='\u{96F}' | '\u{9E6}'..='\u{9EF}' | '\u{A66}'..='\u{A6F}'
        | '\u{AE6}'..='\u{AEF}' | '\u{B66}'..='\u{B6F}' | '\u{BE6}'..='\u{BEF}'
        | '\u{C66}'..='\u{C6F}' | '\u{CE6}'..='\u{CEF}' | '\u{D66}'..='\u{D6F}'
        | '\u{DE6}'..='\u{DEF}' | '\u{E50}'..='\u{E59}' | '\u{ED0}'..='\u{ED9}'
        | '\u{F20}'..='\u{F29}' | '\u{1040}'..='\u{1049}' | '\u{1090}'..='\u{1099}'
        | '\u{17E0}'..='\u{17E9}' | '\u{1810}'..='\u{1819}' | '\u{1946}'..='\u{194F}'
        | '\u{19D0}'..='\u{19D9}' | '\u{1A80}'..='\u{1A89}' | '\u{1A90}'..='\u{1A99}'
        | '\u{1B50}'..='\u{1B59}' | '\u{1BB0}'..='\u{1BB9}' | '\u{1C40}'..='\u{1C49}'
        | '\u{1C50}'..='\u{1C59}' | '\u{A620}'..='\u{A629}' | '\u{A8D0}'..='\u{A8D9}'
        | '\u{A900}'..='\u{A909}' | '\u{A9D0}'..='\u{A9D9}' | '\u{A9F0}'..='\u{A9F9}'
        | '\u{AA50}'..='\u{AA59}' | '\u{ABF0}'..='\u{ABF9}' | '\u{FF10}'..='\u{FF19}'
        | '\u{104A0}'..='\u{104A9}' | '\u{10D30}'..='\u{10D39}' | '\u{10D40}'..='\u{10D49}'
        | '\u{11066}'..='\u{1106F}' | '\u{110F0}'..='\u{110F9}' | '\u{11136}'..='\u{1113F}'
        | '\u{111D0}'..='\u{111D9}' | '\u{112F0}'..='\u{112F9}' | '\u{11450}'..='\u{11459}'
        | '\u{114D0}'..='\u{114D9}' | '\u{11650}'..='\u{11659}' | '\u{116C0}'..='\u{116C9}'
        | '\u{116D0}'..='\u{116E3}' | '\u{11730}'..='\u{11739}' | '\u{118E0}'..='\u{118E9}'
        | '\u{11950}'..='\u{11959}' | '\u{11BF0}'..='\u{11BF9}' | '\u{11C50}'..='\u{11C59}'
        | '\u{11D50}'..='\u{11D59}' | '\u{11DA0}'..='\u{11DA9}' | '\u{11F50}'..='\u{11F59}'
        | '\u{16130}'..='\u{16139}' | '\u{16A60}'..='\u{16A69}' | '\u{16AC0}'..='\u{16AC9}'
        | '\u{16B50}'..='\u{16B59}' | '\u{16D70}'..='\u{16D79}' | '\u{1CCF0}'..='\u{1CCF9}'
        | '\u{1D7CE}'..='\u{1D7FF}' | '\u{1E140}'..='\u{1E149}' | '\u{1E2F0}'..='\u{1E2F9}'
        | '\u{1E4F0}'..='\u{1E4F9}' | '\u{1E5F1}'..='\u{1E5FA}' | '\u{1E950}'..='\u{1E959}'
        | '\u{1FBF0}'..='\u{1FBF9}' => true,
        _ => false,
    }
}

fn class_contains(cls: SegmentClass, c: char) -> (b: bool)
    ensures
        b == in_class(cls, c),
{
    match cls {
        SegmentClass::AsciiAlnum => text::char_is_ascii_alnum(c),
        SegmentClass::AsciiWord => text::char_is_ascii_alnum(c) || c == '_',
        SegmentClass::NotSlash => c != '/',
        SegmentClass::DecimalDigit => char_is_decimal_digit(c),
    }
}

/// End of the longest run of `cls` characters of `s` that starts at `i`.
pub open spec fn span_from(s: Seq<char>, i: int, cls: SegmentClass) -> int
    decreases s.len() - i,
{
    if 0 <= i < s.len() && in_class(cls, s[i]) {
        span_from(s, i + 1, cls)
    } else {
        i
    }
}

/// A non-empty segment of `cls` characters starting at `start` that ends
/// the path or is followed by `/`: its end, if there is one.
pub open spec fn closing_segment(p: Seq<char>, start: int, cls: SegmentClass) -> Option<int> {
    let e = span_from(p, start, cls);
    if e > start && (e == p.len() || p[e] == '/') {
        Some(e)
    } else {
        None
    }
}

fn span_end(v: &Vec<char>, from: usize, cls: SegmentClass) -> (e: usize)
    requires
        from <= v.len(),
    ensures
        e == span_from(v@, from as int, cls),
        from <= e <= v.len(),
{
    let mut i = from;
    while i < v.len() && class_contains(cls, v[i])
        invariant
            from <= i <= v.len(),
            span_from(v@, from as int, cls) == span_from(v@, i as int, cls),
        decreases v.len() - i,
    {
        i = i + 1;
    }
    i
}

fn closing_segment_exec(v: &Vec<char>, from: usize, cls: SegmentClass) -> (r: Option<usize>)
    requires
        from <= v.len(),
    ensures
        match closing_segment(v@, from as int, cls) {
            Some(e) => r matches Some(k) && k == e,
            None => r is None,
        },
        r matches Some(e) ==> from < e <= v.len(),
{
    let e = span_end(v, from, cls);
    if e > from && (e == v.len() || v[e] == '/') {
        Some(e)
    } else {
        None
    }
}

// ---------------------------------------------------------------------------
// Path grammars
// ---------------------------------------------------------------------------

/// Bounds of the Imgur album id in a normalised path.
pub open spec fn imgur_id_bounds(p: Seq<char>) -> Option<(int, int)> {
    let start = if text::starts_with(p, "/a/"@) {
        "/a/"@.len() as int
    } else if text::starts_with(p, "/gallery/"@) {
        "/gallery/"@.len() as int
    } else {
        -1
    };
    if start < 0 {
        None
    } else {
        match closing_segment(p, start, SegmentClass::AsciiAlnum) {
            Some(e) => Some((start, e)),
            None => None,
        }
    }
}

/// The Imgur album id of a normalised path, if it has the Imgur shape.
pub open spec fn imgur_path_id(p: Seq<char>) -> Option<Seq<char>> {
    match imgur_id_bounds(p) {
        Some((a, b)) => Some(p.subrange(a, b)),
        None => None,
    }
}

/// Whether a normalised path has the Reddit submission shape.
pub open spec fn reddit_path_matches(p: Seq<char>) -> bool {
    let sub_start = "/r/"@.len() as int;
    let sub_end = span_from(p, sub_start, SegmentClass::AsciiWord);
    &&& text::starts_with(p, "/r/"@)
    &&& sub_end > sub_start
    &&& text::occurs_at(p, "/comments/"@, sub_end)
    &&& closing_segment(p, sub_end + "/comments/"@.len(), SegmentClass::AsciiAlnum) is Some
}

/// Bounds of the Flickr user and album in a normalised path.
pub open spec fn flickr_bounds(p: Seq<char>) -> Option<(int, int, int, int)> {
    let user_start = "/photos/"@.len() as int;
    let user_end = span_from(p, user_start, SegmentClass::NotSlash);
    let album_start = user_end + "/albums/"@.len();
    if text::starts_with(p, "/photos/"@) && user_end > user_start && text::occurs_at(p, "/albums/"@, user_end) {
        match closing_segment(p, album_start, SegmentClass::DecimalDigit) {
            Some(e) => Some((user_start, user_end, album_start, e)),
            None => None,
        }
    } else {
        None
    }
}

/// The Flickr `(user, album)` of a normalised path, if it has the Flickr shape.
pub open spec fn flickr_path_ids(p: Seq<char>) -> Option<(Seq<char>, Seq<char>)> {
    match flickr_bounds(p) {
        Some((a, b, c, d)) => Some((p.subrange(a, b), p.subrange(c, d))),
        None => None,
    }
}

fn imgur_id_bounds_exec(p: &Vec<char>) -> (r: Option<(usize, usize)>)
    ensures
        match imgur_id_bounds(p@) {
            Some((a, b)) => r matches Some((x, y)) && x == a && y == b,
            None => r is None,
        },
        r matches Some((a, b)) ==> a <= b <= p.len(),
{
    let start = if text::occurs_at_exec(p, "/a/", 0) {
        "/a/".unicode_len()
    } else if text::occurs_at_exec(p, "/gallery/", 0) {
        "/gallery/".unicode_len()
    } else {
        return None;
    };
    match closing_segment_exec(p, start, SegmentClass::AsciiAlnum) {
        Some(e) => Some((start, e)),
        None => None,
    }
}

fn reddit_path_matches_exec(p: &Vec<char>) -> (b: bool)
    ensures
        b == reddit_path_matches(p@),
{
    if !text::occurs_at_exec(p, "/r/", 0) {
        return false;
    }
    let sub_start = "/r/".unicode_len();
    let sub_end = span_end(p, sub_start, SegmentClass::AsciiWord);
    if sub_end <= sub_start || !text::occurs_at_exec(p, "/comments/", sub_end) {
        return false;
    }
    let id_start = sub_end + "/comments/".unicode_len();
    closing_segment_exec(p, id_start, SegmentClass::AsciiAlnum).is_some()
}

fn flickr_bounds_exec(p: &Vec<char>) -> (r: Option<(usize, usize, usize, usize)>)
    ensures
        match flickr_bounds(p@) {
            Some((a, b, c, d)) => r matches Some((w, x, y, z)) && w == a && x == b && y == c && z
                == d,
            None => r is None,
        },
        r matches Some((a, b, c, d)) ==> a <= b <= c <= d <= p.len(),
{
    if !text::occurs_at_exec(p, "/photos/", 0) {
        return None;
    }
    let user_start = "/photos/".unicode_len();
    let user_end = span_end(p, user_start, SegmentClass::NotSlash);
    if user_end <= user_start || !text::occurs_at_exec(p, "/albums/", user_end) {
        return None;
    }
    let album_start = user_end + "/albums/".unicode_len();
    match closing_segment_exec(p, album_start, SegmentClass::DecimalDigit) {
        Some(e) => Some((user_start, user_end, album_start, e)),
        None => None,
    }
}

// ---------------------------------------------------------------------------
// Hosts
// ---------------------------------------------------------------------------

pub open spec fn spec_is_imgur_host(h: Seq<char>) -> bool {
    h == "imgur.com"@ || h == "www.imgur.com"@ || h == "i.imgur.com"@ || h == "m.imgur.com"@
}

pub open spec fn spec_is_reddit_host(h: Seq<char>) -> bool {
    h == "reddit.com"@ || h == "www.reddit.com"@ || h == "old.reddit.com"@ || h
        == "m.reddit.com"@
}

pub open spec fn spec_is_flickr_host(h: Seq<char>) -> bool {
    h == "flickr.com"@ || h == "www.flickr.com"@ || h == "m.flickr.com"@
}

fn is_imgur_host(host: &str) -> (b: bool)
    ensures
        b == spec_is_imgur_host(host@),
{
    text::str_eq(host, "imgur.com") || text::str_eq(host, "www.imgur.com") || text::str_eq(host, "i.imgur.com")
        || text::str_eq(host, "m.imgur.com")
}

fn is_reddit_host(host: &str) -> (b: bool)
    ensures
        b == spec_is_reddit_host(host@),
{
    text::str_eq(host, "reddit.com") || text::str_eq(host, "www.reddit.com") || text::str_eq(host, "old.reddit.com")
        || text::str_eq(host, "m.reddit.com")
}

fn is_flickr_host(host: &str) -> (b: bool)
    ensures
        b == spec_is_flickr_host(host@),
{
    text::str_eq(host, "flickr.com") || text::str_eq(host, "www.flickr.com") || text::str_eq(host, "m.flickr.com")
}

// ---------------------------------------------------------------------------
// Splitting a URL
// ---------------------------------------------------------------------------

/// The host of an authority (port and user info already cut where
/// applicable): an IPv6 literal keeps its brackets; a plain host is
/// everything before the first `:`. Empty or unterminated `[` gives none.
pub open spec fn spec_extract_host(a: Seq<char>) -> Option<Seq<char>> {
    if a.len() == 0 {
        None
    } else if a[0] == '[' {
        match text::find_char(a, ']') {
            Some(i) => Some(a.take(i + 1)),
            None => None,
        }
    } else {
        let h = text::before_first(a, ':');
        if h.len() == 0 {
            None
        } else {
            Some(h)
        }
    }
}

/// Strip `?query`, `#fragment`, and every trailing `/` from a raw path.
pub open spec fn spec_normalize_path(p: Seq<char>) -> Seq<char> {
    text::trim_end_char(text::before_first(text::before_first(p, '#'), '?'), '/')
}

/// An http(s) URL split into its lower-cased host and its path-and-query.
pub open spec fn spec_split_url(url: Seq<char>) -> Option<(Seq<char>, Seq<char>)> {
    match text::find_seq_from(url, "://"@, 0) {
        None => None,
        Some(k) => {
            let scheme = text::lower(url.take(k));
            let rest = url.skip(k + "://"@.len());
            let authority = text::before_first(rest, '/');
            let path = match text::find_char(rest, '/') {
                Some(j) => rest.skip(j),
                None => Seq::empty(),
            };
            if scheme != "http"@ && scheme != "https"@ {
                None
            } else {
                match spec_extract_host(text::after_last(authority, '@')) {
                    Some(h) => Some((text::lower(h), path)),
                    None => None,
                }
            }
        }
    }
}

/// Extract the host portion (without port) from an authority string.
///
/// Handles both plain hostnames/IPv4 (`example.com:8080`, `1.2.3.4`)
/// and IPv6 literals (`[::1]:8080`, `[2001:db8::1]`). For IPv6, the
/// host is the substring between `[` and `]`, keeping the brackets
/// so downstream host-allowlist matches still behave as expected.
/// For plain hosts, the host is the substring before the first `:`.
///
/// Returns `None` when the authority is empty or malformed (e.g. a
/// lone `[` with no closing `]`).
pub fn extract_host(authority: &str) -> (r: Option<&str>)
    ensures
        r.deep_view() == spec_extract_host(authority@),
{
    let v = text::chars_of(authority);
    let n = v.len();
    if n == 0 {
        return None;
    }
    if v[0] == '[' {
        match text::find_char_exec(&v, ']', 0, n) {
            Some(close) => {
                proof {
                    assert(v@.take(n as int) =~= v@);
                }
                Some(authority.substring_char(0, close + 1))
            },
            None => {
                proof {
                    assert(v@.take(n as int) =~= v@);
                }
                None
            },
        }
    } else {
        let end = match text::find_char_exec(&v, ':', 0, n) {
            Some(i) => i,
            None => n,
        };
        proof {
            assert(v@.take(n as int) =~= v@);
        }
        if end == 0 {
            None
        } else {
            Some(authority.substring_char(0, end))
        }
    }
}

/// Strip `?query`, `#fragment`, and trailing `/` from the raw path.
/// Fragments are split first so that `path?q#frag` still works.
fn normalize_path(path: &str) -> (r: &str)
    ensures
        r@ == spec_normalize_path(path@),
{
    let v = text::chars_of(path);
    let n = v.len();
    let no_frag = match text::find_char_exec(&v, '#', 0, n) {
        Some(i) => i,
        None => n,
    };
    proof {
        assert(v@.take(n as int) =~= v@);
    }
    let no_query = match text::find_char_exec(&v, '?', 0, no_frag) {
        Some(i) => i,
        None => no_frag,
    };
    proof {
        assert(text::before_first(v@, '#') =~= v@.take(no_frag as int));
        assert(text::before_first(v@.take(no_frag as int), '?') =~= v@.take(no_query as int)) by {
            assert(v@.take(no_frag as int).take(no_query as int) =~= v@.take(no_query as int));
        }
    }
    let end = text::trim_end_char_len(&v, '/', no_query);
    path.substring_char(0, end)
}

fn validate_and_split(url: &str) -> (r: Option<(String, &str)>)
    ensures
        r.deep_view() == spec_split_url(url@),
{
    let v = text::chars_of(url);
    let n = v.len();
    let k = match text::find_str_exec(&v, "://", 0) {
        Some(k) => k,
        None => return None,
    };
    let sep = "://".unicode_len();
    let scheme = text::lowercase_chars_range(&v, 0, k);
    let rest = url.substring_char(k + sep, n);
    let rv = text::chars_of(rest);
    let rn = rv.len();
    let (authority, path_and_query) = match text::find_char_exec(&rv, '/', 0, rn) {
        Some(j) => (rest.substring_char(0, j), rest.substring_char(j, rn)),
        None => (rest, rest.substring_char(rn, rn)),
    };
    proof {
        assert(rv@.take(rn as int) =~= rv@);
        assert(v@.take(k as int) =~= v@.subrange(0, k as int));
        assert(url@.skip(k + sep) =~= url@.subrange(k + sep, n as int));
    }
    if !text::chars_eq_str(&scheme, "http") && !text::chars_eq_str(&scheme, "https") {
        return None;
    }
    let av = text::chars_of(authority);
    let an = av.len();
    let authority_no_user = match text::rfind_char_exec(&av, '@', an) {
        Some(i) => authority.substring_char(i + 1, an),
        None => authority,
    };
    proof {
        assert(av@.take(an as int) =~= av@);
    }
    let host = match extract_host(authority_no_user) {
        Some(h) => h,
        None => return None,
    };
    let hv = text::chars_of(host);
    let host_lower = text::lowercase_string(&hv, 0, hv.len());
    proof {
        assert(hv@.subrange(0, hv@.len() as int) =~= hv@);
    }
    Some((host_lower, path_and_query))
}

// ---------------------------------------------------------------------------
// Classification and extraction
// ---------------------------------------------------------------------------

/// The provider that a URL is routed to: none for anything that is not a
/// well-formed http(s) URL, a recognised provider when host and path shape
/// both match it, and the generic fallback otherwise.
pub open spec fn spec_classify_url(url: Seq<char>) -> Option<Provider> {
    match spec_split_url(url) {
        None => None,
        Some((host, path)) => {
            let p = spec_normalize_path(path);
            if spec_is_imgur_host(host) && imgur_path_id(p) is Some {
                Some(Provider::Imgur)
            } else if spec_is_reddit_host(host) && reddit_path_matches(p) {
                Some(Provider::Reddit)
            } else if spec_is_flickr_host(host) && flickr_path_ids(p) is Some {
                Some(Provider::Flickr)
            } else {
                Some(Provider::Generic)
            }
        }
    }
}

/// Whether the provider is one of the three recognised galleries.
pub open spec fn is_recognised(p: Option<Provider>) -> bool {
    p == Some(Provider::Imgur) || p == Some(Provider::Reddit) || p == Some(Provider::Flickr)
}

/// The Imgur album id of an http(s) URL (the host is not checked).
pub open spec fn spec_extract_imgur_id(url: Seq<char>) -> Option<Seq<char>> {
    match spec_split_url(url) {
        None => None,
        Some((_host, path)) => imgur_path_id(spec_normalize_path(path)),
    }
}

/// The Reddit JSON endpoint of a Reddit submission URL: the canonical
/// permalink on `www.reddit.com`, with `.json` appended unless the path
/// already ends with it.
pub open spec fn spec_extract_reddit_permalink(url: Seq<char>) -> Option<Seq<char>> {
    match spec_split_url(url) {
        None => None,
        Some((host, path)) => {
            let p = spec_normalize_path(path);
            if spec_is_reddit_host(host) && reddit_path_matches(p) {
                let suffix = if text::ends_with(p, ".json"@) {
                    Seq::empty()
                } else {
                    ".json"@
                };
                Some("https://www.reddit.com"@ + p + suffix)
            } else {
                None
            }
        }
    }
}

/// The Flickr `(user, album)` of an http(s) URL (the host is not checked).
pub open spec fn spec_extract_flickr_album_id(url: Seq<char>) -> Option<(Seq<char>, Seq<char>)> {
    match spec_split_url(url) {
        None => None,
        Some((_host, path)) => flickr_path_ids(spec_normalize_path(path)),
    }
}

pub fn classify_url(url: &str) -> (r: Option<Provider>)
    ensures
        r == spec_classify_url(url@),
{
    let (host_lower, path) = match validate_and_split(url) {
        Some(parts) => parts,
        None => return None,
    };
    let path_only = normalize_path(path);
    let pv = text::chars_of(path_only);
    let host = host_lower.as_str();

    if is_imgur_host(host) && imgur_id_bounds_exec(&pv).is_some() {
        return Some(Provider::Imgur);
    }
    if is_reddit_host(host) && reddit_path_matches_exec(&pv) {
        return Some(Provider::Reddit);
    }
    if is_flickr_host(host) && flickr_bounds_exec(&pv).is_some() {
        return Some(Provider::Flickr);
    }
    // Generic fallback: any http(s) URL is eligible, callers decide
    // whether to actually scrape it based on their own policy.
    Some(Provider::Generic)
}

pub fn is_recognised_provider(url: &str) -> (b: bool)
    ensures
        b == is_recognised(spec_classify_url(url@)),
{
    match classify_url(url) {
        Some(Provider::Imgur) | Some(Provider::Reddit) | Some(Provider::Flickr) => true,
        _ => false,
    }
}

pub fn extract_imgur_id(url: &str) -> (r: Option<String>)
    ensures
        r.deep_view() == spec_extract_imgur_id(url@),
{
    let (_, path) = match validate_and_split(url) {
        Some(parts) => parts,
        None => return None,
    };
    let path_only = normalize_path(path);
    let pv = text::chars_of(path_only);
    match imgur_id_bounds_exec(&pv) {
        Some((a, b)) => Some(text::string_from_chars(&pv, a, b)),
        None => None,
    }
}

pub fn extract_reddit_permalink(url: &str) -> (r: Option<String>)
    ensures
        r.deep_view() == spec_extract_reddit_permalink(url@),
{
    // Reddit JSON endpoint = <permalink>.json
    let (host, path) = match validate_and_split(url) {
        Some(parts) => parts,
        None => return None,
    };
    if !is_reddit_host(host.as_str()) {
        return None;
    }
    let path_only = normalize_path(path);
    let pv = text::chars_of(path_only);
    if !reddit_path_matches_exec(&pv) {
        return None;
    }
    // Reddit's JSON endpoint is `<permalink>.json`. Users sometimes
    // paste the already-terminated `.json` URL; appending another
    // `.json` would produce a `title.json.json` request that 404s, so
    // we detect that case and pass the path through unchanged.
    let suffix_len = ".json".unicode_len();
    let already_json = suffix_len <= pv.len() && text::occurs_at_exec(&pv, ".json", pv.len() - suffix_len);
    let mut out = "https://www.reddit.com".to_owned();
    out.append(path_only);
    if !already_json {
        out.append(".json");
    }
    proof {
        let empty: Seq<char> = Seq::empty();
        assert(already_json == text::ends_with(pv@, ".json"@));
        if already_json {
            assert(out@ =~= "https://www.reddit.com"@ + pv@ + empty);
        }
    }
    Some(out)
}

pub fn extract_flickr_album_id(url: &str) -> (r: Option<(String, String)>)
    ensures
        r.deep_view() == spec_extract_flickr_album_id(url@),
{
    let (_, path) = match validate_and_split(url) {
        Some(parts) => parts,
        None => return None,
    };
    let path_only = normalize_path(path);
    let pv = text::chars_of(path_only);
    match flickr_bounds_exec(&pv) {
        Some((a, b, c, d)) => {
            let user = text::string_from_chars(&pv, a, b);
            let album = text::string_from_chars(&pv, c, d);
            Some((user, album))
        },
        None => None,
    }
}


// ---------------------------------------------------------------------------
// Laws
// ---------------------------------------------------------------------------

/// A URL routed to a recognised provider always yields what that
/// provider's extractor needs: the Imgur id, the Reddit JSON permalink or
/// the Flickr album.
pub proof fn lemma_recognised_url_has_id(url: Seq<char>)
    ensures
        spec_classify_url(url) == Some(Provider::Imgur) ==> spec_extract_imgur_id(url) is Some,
        spec_classify_url(url) == Some(Provider::Reddit) ==> spec_extract_reddit_permalink(url) is Some,
        spec_classify_url(url) == Some(Provider::Flickr) ==> spec_extract_flickr_album_id(url) is Some,
{
}

/// Only http(s) URLs are classified at all (the generic fallback
/// included); everything else is rejected.
pub proof fn lemma_only_http_urls_are_classified(url: Seq<char>)
    ensures
        spec_classify_url(url) is Some <==> spec_split_url(url) is Some,
        spec_classify_url(url) is Some ==> (find_seq_from_sep(url) matches Some(k) && (text::lower(
            url.take(k),
        ) == "http"@ || text::lower(url.take(k)) == "https"@)),
{
}

/// A path with a query, a fragment or one more trailing `/` appended
/// normalises to the same path.
proof fn lemma_normalize_path_append(p: Seq<char>, q: Seq<char>)
    ensures
        spec_normalize_path(p + ("?"@ + q)) == spec_normalize_path(p),
        spec_normalize_path(p + ("#"@ + q)) == spec_normalize_path(p),
        spec_normalize_path(p + "/"@) == spec_normalize_path(p),
{
    reveal_strlit("?");
    reveal_strlit("#");
    reveal_strlit("/");
    text::lemma_before_first(p, '#');
    text::lemma_before_first(p, '?');
    text::lemma_find_char_from(p, '#', 0);
    text::lemma_find_char_from(p, '?', 0);
    // A query.
    let tq = "?"@ + q;
    text::lemma_before_first_append(p, tq, '#');
    if text::find_char(p, '#') is None {
        let bq = text::before_first(tq, '#');
        text::lemma_find_char_from(tq, '#', 0);
        text::lemma_before_first(tq, '#');
        assert(tq[0] == '?');
        assert(bq.len() > 0 && bq[0] == '?');
        text::lemma_find_char_from_at(bq, '?', 0, 0);
        assert(text::before_first(bq, '?') =~= Seq::<char>::empty());
        text::lemma_before_first_append(p, bq, '?');
        assert(p + Seq::<char>::empty() =~= p);
    }
    // A fragment.
    let tf = "#"@ + q;
    text::lemma_before_first_append(p, tf, '#');
    if text::find_char(p, '#') is None {
        text::lemma_find_char_from_at(tf, '#', 0, 0);
        assert(text::before_first(tf, '#') =~= Seq::<char>::empty());
        assert(p + Seq::<char>::empty() =~= p);
    }
    // A trailing slash.
    let ts = "/"@;
    text::lemma_before_first_append(p, ts, '#');
    if text::find_char(p, '#') is None {
        text::lemma_before_first(ts, '#');
        text::lemma_before_first_append(p, ts, '?');
        if text::find_char(p, '?') is None {
            text::lemma_before_first(ts, '?');
            assert((p + ts).drop_last() =~= p);
        }
    }
}

/// Where the scheme separator `://` first occurs in `url`.
pub open spec fn find_seq_from_sep(url: Seq<char>) -> Option<int> {
    text::find_seq_from(url, "://"@, 0)
}

/// Whether `url` has a `://` whose remainder holds a `/`, so that text
/// appended to it lands in the path.
pub open spec fn has_path_separator(url: Seq<char>) -> bool {
    find_seq_from_sep(url) matches Some(k) && text::find_char(url.skip(k + "://"@.len()), '/') is Some
}

/// Appending text to a URL that already has a path leaves scheme and host
/// alone and appends the text to the path.
proof fn lemma_split_url_append(url: Seq<char>, t: Seq<char>)
    requires
        has_path_separator(url),
    ensures
        spec_split_url(url + t) == (match spec_split_url(url) {
            Some((h, p)) => Some((h, p + t)),
            None => None,
        }),
{
    let sep = "://"@;
    let k = find_seq_from_sep(url)->0;
    text::lemma_find_seq_from_some(url, sep, 0);
    text::lemma_find_seq_from_append(url, sep, t, 0);
    let ut = url + t;
    assert(ut.take(k) =~= url.take(k));
    let rest = url.skip(k + sep.len());
    let rest_t = ut.skip(k + sep.len());
    assert(rest_t =~= rest + t);
    text::lemma_find_char_append(rest, t, '/');
    text::lemma_find_char_from(rest, '/', 0);
    let j = text::find_char(rest, '/')->0;
    assert(rest_t.take(j) =~= rest.take(j));
    assert(rest_t.skip(j) =~= rest.skip(j) + t);
}

/// A query, a fragment or a trailing `/` added to a URL that has a path
/// never changes how it is routed, nor what is extracted from it.
pub proof fn lemma_routing_ignores_query_fragment_and_trailing_slash(url: Seq<char>, q: Seq<char>)
    requires
        has_path_separator(url),
    ensures
        spec_classify_url(url + "?"@ + q) == spec_classify_url(url),
        spec_classify_url(url + "#"@ + q) == spec_classify_url(url),
        spec_classify_url(url + "/"@) == spec_classify_url(url),
        spec_extract_imgur_id(url + "?"@ + q) == spec_extract_imgur_id(url),
        spec_extract_imgur_id(url + "#"@ + q) == spec_extract_imgur_id(url),
        spec_extract_imgur_id(url + "/"@) == spec_extract_imgur_id(url),
        spec_extract_reddit_permalink(url + "?"@ + q) == spec_extract_reddit_permalink(url),
        spec_extract_reddit_permalink(url + "#"@ + q) == spec_extract_reddit_permalink(url),
        spec_extract_reddit_permalink(url + "/"@) == spec_extract_reddit_permalink(url),
        spec_extract_flickr_album_id(url + "?"@ + q) == spec_extract_flickr_album_id(url),
        spec_extract_flickr_album_id(url + "#"@ + q) == spec_extract_flickr_album_id(url),
        spec_extract_flickr_album_id(url + "/"@) == spec_extract_flickr_album_id(url),
{
    assert(url + "?"@ + q =~= url + ("?"@ + q));
    assert(url + "#"@ + q =~= url + ("#"@ + q));
    lemma_split_url_append(url, "?"@ + q);
    lemma_split_url_append(url, "#"@ + q);
    lemma_split_url_append(url, "/"@);
    if let Some((_h, p)) = spec_split_url(url) {
        lemma_normalize_path_append(p, q);
    }
}

/// A run that stops inside `s` stops at the same place in `s + t`.
proof fn lemma_span_from_append(s: Seq<char>, t: Seq<char>, i: int, cls: SegmentClass)
    requires
        0 <= i,
        span_from(s, i, cls) < s.len(),
    ensures
        span_from(s + t, i, cls) == span_from(s, i, cls),
    decreases s.len() - i,
{
    if i < s.len() {
        assert((s + t)[i] == s[i]);
        if in_class(cls, s[i]) {
            lemma_span_from_append(s, t, i + 1, cls);
        }
    }
}

/// Whether the submission id is the last segment of a normalised Reddit
/// path (nothing follows it).
pub open spec fn reddit_id_ends_path(p: Seq<char>) -> bool {
    let sub_end = span_from(p, "/r/"@.len() as int, SegmentClass::AsciiWord);
    closing_segment(p, sub_end + "/comments/"@.len(), SegmentClass::AsciiAlnum) == Some(
        p.len() as int,
    )
}

/// A run of `cls` characters starting inside `s` ends inside `s` or at
/// its end.
proof fn lemma_span_from_at_most(s: Seq<char>, i: int, cls: SegmentClass)
    requires
        0 <= i <= s.len(),
    ensures
        span_from(s, i, cls) <= s.len(),
    decreases s.len() - i,
{
    if i < s.len() && in_class(cls, s[i]) {
        lemma_span_from_at_most(s, i + 1, cls);
    }
}

/// `https://www.reddit.com` followed by a path splits into the Reddit host
/// and that path.
proof fn lemma_split_reddit_endpoint(w: Seq<char>)
    requires
        w.len() > 0,
        w[0] == '/',
    ensures
        spec_split_url("https://www.reddit.com"@ + w) == Some(("www.reddit.com"@, w)),
{
    reveal_strlit("https://www.reddit.com");
    reveal_strlit("www.reddit.com");
    reveal_strlit("://");
    reveal_strlit("https");
    let base = "https://www.reddit.com"@;
    let host = "www.reddit.com"@;
    let pl = base + w;
    let sep = "://"@;
    assert forall|j: int| 0 <= j < 5 implies !text::occurs_at(pl, sep, j) by {
        assert(pl.subrange(j, j + 3)[0] == pl[j]);
    }
    assert(pl.subrange(5, 8) =~= sep);
    text::lemma_find_seq_from_at(pl, sep, 0, 5);
    assert(pl.take(5) =~= "https"@);
    text::lemma_lower_identity(pl.take(5));
    let rest = pl.skip(8);
    assert(rest =~= host + w);
    text::lemma_find_char_from(host, '/', 0);
    text::lemma_find_char_from_at(w, '/', 0, 0);
    text::lemma_find_char_append(host, w, '/');
    assert(rest.take(14) =~= host);
    assert(rest.skip(14) =~= w);
    text::lemma_rfind_char_before(host, '@', 14);
    text::lemma_find_char_from(host, ':', 0);
    text::lemma_before_first(host, ':');
    text::lemma_lower_identity(host);
}

/// A Reddit path whose submission id is followed by `/` keeps the Reddit
/// shape when text is appended.
proof fn lemma_reddit_shape_append(q: Seq<char>, t: Seq<char>)
    requires
        reddit_path_matches(q),
        !reddit_id_ends_path(q),
    ensures
        reddit_path_matches(q + t),
{
    let r = "/r/"@;
    let cm = "/comments/"@;
    let w = q + t;
    let sub_end = span_from(q, r.len() as int, SegmentClass::AsciiWord);
    let id_start = sub_end + cm.len();
    let e = closing_segment(q, id_start, SegmentClass::AsciiAlnum)->0;
    lemma_span_from_at_most(q, id_start, SegmentClass::AsciiAlnum);
    assert(e < q.len());
    lemma_span_from_append(q, t, r.len() as int, SegmentClass::AsciiWord);
    lemma_span_from_append(q, t, id_start, SegmentClass::AsciiAlnum);
    text::lemma_occurs_at_append(q, r, t, 0);
    text::lemma_occurs_at_append(q, cm, t, sub_end);
    assert(w[e] == q[e]);
}

/// Extracting the JSON endpoint from a JSON endpoint gives it back
/// unchanged: an already-terminated `.json` permalink passes through and
/// never becomes `….json.json`. This needs a path segment after the
/// submission id (trailing slashes are dropped when the path is
/// normalised): otherwise the appended `.json` sticks to the id and the
/// result is no Reddit submission path any more.
pub proof fn lemma_reddit_permalink_fixed_point(url: Seq<char>)
    requires
        spec_split_url(url) matches Some((_h, p)) && !reddit_id_ends_path(spec_normalize_path(p)),
    ensures
        spec_extract_reddit_permalink(url) matches Some(pl) ==> spec_extract_reddit_permalink(pl)
            == Some(pl),
{
    if let Some(pl) = spec_extract_reddit_permalink(url) {
        reveal_strlit(".json");
        reveal_strlit("/r/");
        let (_h, path) = spec_split_url(url).unwrap();
        let q = spec_normalize_path(path);
        let sfx: Seq<char> = if text::ends_with(q, ".json"@) {
            Seq::empty()
        } else {
            ".json"@
        };
        let w = q + sfx;
        let base = "https://www.reddit.com"@;
        assert(pl =~= base + w);
        lemma_normalize_path(path);
        assert(q.len() >= 3 && q[0] == '/') by {
            assert(q.subrange(0, 3)[0] == q[0]);
        }
        assert(w[0] == q[0]);
        lemma_split_reddit_endpoint(w);
        // `w` is already normalised.
        assert forall|i: int| 0 <= i < w.len() implies #[trigger] w[i] != '#' && w[i] != '?' by {
            if i < q.len() {
                assert(w[i] == q[i]);
            } else {
                assert(w[i] == sfx[i - q.len()]);
            }
        }
        text::lemma_before_first(w, '#');
        text::lemma_before_first(w, '?');
        assert(w.last() != '/') by {
            if sfx.len() == 0 {
                assert(w =~= q);
            } else {
                assert(w.last() == sfx.last());
            }
        }
        text::lemma_trim_end_char(w, '/');
        assert(spec_normalize_path(w) == w);
        // `w` still has the Reddit shape and ends with `.json`.
        if sfx.len() == 0 {
            assert(w =~= q);
        } else {
            lemma_reddit_shape_append(q, sfx);
            assert(w.skip(w.len() - 5) =~= sfx);
        }
        assert(base + w + Seq::<char>::empty() =~= pl);
    }
}

/// Whether every character of `s` is an ASCII lower-case letter or `.`,
/// as in the listed host names.
pub open spec fn host_name_chars(s: Seq<char>) -> bool {
    forall|i: int| 0 <= i < s.len() ==> ('a' <= #[trigger] s[i] <= 'z' || s[i] == '.')
}

/// A host that lower-cases to a listed host name holds no `/`, `@`, `:`,
/// `[`, `?` or `#`, and lower-cases to itself when spelt in lower case.
proof fn lemma_host_of_listed_name(host: Seq<char>, name: Seq<char>)
    requires
        text::lower(host) == name,
        host_name_chars(name),
    ensures
        forall|i: int|
            0 <= i < host.len() ==> #[trigger] host[i] != '/' && host[i] != '@' && host[i] != ':'
                && host[i] != '[' && host[i] != '?' && host[i] != '#',
{
    assert forall|i: int| 0 <= i < host.len() implies #[trigger] host[i] != '/' && host[i] != '@'
        && host[i] != ':' && host[i] != '[' && host[i] != '?' && host[i] != '#' by {
        assert(text::lower(host)[i] == text::lower_char(host[i]));
        assert('a' <= name[i] <= 'z' || name[i] == '.');
    }
}

/// An `https` URL with a plain host and a path splits into the
/// lower-cased host and that path.
proof fn lemma_split_https(host: Seq<char>, w: Seq<char>)
    requires
        host.len() > 0,
        forall|i: int|
            0 <= i < host.len() ==> #[trigger] host[i] != '/' && host[i] != '@' && host[i] != ':'
                && host[i] != '[',
        w.len() > 0,
        w[0] == '/',
    ensures
        spec_split_url("https://"@ + host + w) == Some((text::lower(host), w)),
{
    reveal_strlit("https://");
    reveal_strlit("://");
    reveal_strlit("https");
    let pl = "https://"@ + host + w;
    let sep = "://"@;
    assert forall|j: int| 0 <= j < 5 implies !text::occurs_at(pl, sep, j) by {
        assert(pl.subrange(j, j + 3)[0] == pl[j]);
    }
    assert(pl.subrange(5, 8) =~= sep);
    text::lemma_find_seq_from_at(pl, sep, 0, 5);
    assert(pl.take(5) =~= "https"@);
    text::lemma_lower_identity(pl.take(5));
    let rest = pl.skip(8);
    assert(rest =~= host + w);
    text::lemma_find_char_from(host, '/', 0);
    text::lemma_find_char_from_at(w, '/', 0, 0);
    text::lemma_find_char_append(host, w, '/');
    assert(rest.take(host.len() as int) =~= host);
    assert(rest.skip(host.len() as int) =~= w);
    text::lemma_rfind_char_before(host, '@', host.len() as int);
    text::lemma_before_first(host, ':');
}

/// A run of `cls` characters from `i` that stops at `e`.
proof fn lemma_span_until(s: Seq<char>, i: int, e: int, cls: SegmentClass)
    requires
        0 <= i <= e <= s.len(),
        forall|j: int| i <= j < e ==> in_class(cls, #[trigger] s[j]),
        e == s.len() || !in_class(cls, s[e]),
    ensures
        span_from(s, i, cls) == e,
    decreases e - i,
{
    if i < e {
        lemma_span_until(s, i + 1, e, cls);
    }
}

/// A path with no `?` or `#` that does not end with `/` is already
/// normalised.
proof fn lemma_normal_path(p: Seq<char>)
    requires
        p.len() > 0,
        p.last() != '/',
        forall|i: int| 0 <= i < p.len() ==> #[trigger] p[i] != '?' && p[i] != '#',
    ensures
        spec_normalize_path(p) == p,
{
    text::lemma_before_first(p, '#');
    text::lemma_before_first(p, '?');
    text::lemma_trim_end_char(p, '/');
}

/// Whether `c` is an ASCII letter or digit, spelt out.
pub open spec fn ascii_letter_or_digit(c: char) -> bool {
    'a' <= c <= 'z' || 'A' <= c <= 'Z' || '0' <= c <= '9'
}

/// Every listed Imgur host, in any ASCII case, routes its album and gallery
/// URLs to Imgur and yields the album id.
pub proof fn lemma_imgur_hosts_route_to_imgur(host: Seq<char>, id: Seq<char>)
    requires
        text::lower(host) == "imgur.com"@ || text::lower(host) == "www.imgur.com"@ || text::lower(
            host,
        ) == "i.imgur.com"@ || text::lower(host) == "m.imgur.com"@,
        id.len() > 0,
        forall|i: int| 0 <= i < id.len() ==> ascii_letter_or_digit(#[trigger] id[i]),
    ensures
        spec_classify_url("https://"@ + host + "/a/"@ + id) == Some(Provider::Imgur),
        spec_classify_url("https://"@ + host + "/gallery/"@ + id) == Some(Provider::Imgur),
        spec_extract_imgur_id("https://"@ + host + "/a/"@ + id) == Some(id),
        spec_extract_imgur_id("https://"@ + host + "/gallery/"@ + id) == Some(id),
{
    reveal_strlit("imgur.com");
    reveal_strlit("www.imgur.com");
    reveal_strlit("i.imgur.com");
    reveal_strlit("m.imgur.com");
    reveal_strlit("/a/");
    reveal_strlit("/gallery/");
    let name = text::lower(host);
    assert(host_name_chars(name));
    lemma_host_of_listed_name(host, name);
    assert(name.len() > 0);
    assert(name.len() == host.len());
    lemma_imgur_path("/a/"@, host, id);
    lemma_imgur_path("/gallery/"@, host, id);
    assert(!text::starts_with("/gallery/"@ + id, "/a/"@)) by {
        assert(("/gallery/"@ + id).subrange(0, 3)[1] == 'g');
    }
}

/// The Imgur path `lead + id` of an https URL on `host`.
proof fn lemma_imgur_path(lead: Seq<char>, host: Seq<char>, id: Seq<char>)
    requires
        lead == "/a/"@ || lead == "/gallery/"@,
        spec_is_imgur_host(text::lower(host)),
        host.len() > 0,
        forall|i: int|
            0 <= i < host.len() ==> #[trigger] host[i] != '/' && host[i] != '@' && host[i] != ':'
                && host[i] != '[',
        id.len() > 0,
        forall|i: int| 0 <= i < id.len() ==> ascii_letter_or_digit(#[trigger] id[i]),
    ensures
        lead == "/a/"@ || !text::starts_with(lead + id, "/a/"@) ==> (spec_classify_url(
            "https://"@ + host + lead + id,
        ) == Some(Provider::Imgur) && spec_extract_imgur_id("https://"@ + host + lead + id)
            == Some(id)),
{
    reveal_strlit("/a/");
    reveal_strlit("/gallery/");
    let p = lead + id;
    let url = "https://"@ + host + lead + id;
    assert(url =~= "https://"@ + host + p);
    assert(p[0] == '/');
    lemma_split_https(host, p);
    assert forall|i: int| 0 <= i < p.len() implies #[trigger] p[i] != '?' && p[i] != '#' by {
        if i >= lead.len() {
            assert(p[i] == id[i - lead.len()]);
        }
    }
    assert(p.last() == id.last());
    lemma_normal_path(p);
    assert(text::starts_with(p, lead)) by {
        assert(p.subrange(0, lead.len() as int) =~= lead);
    }
    assert forall|j: int| lead.len() <= j < p.len() implies in_class(
        SegmentClass::AsciiAlnum,
        #[trigger] p[j],
    ) by {
        assert(p[j] == id[j - lead.len()]);
    }
    lemma_span_until(p, lead.len() as int, p.len() as int, SegmentClass::AsciiAlnum);
    assert(p.subrange(lead.len() as int, p.len() as int) =~= id);
}

/// Every listed Reddit host, in any ASCII case, routes its submission URLs
/// to Reddit, and their JSON endpoint is the canonical permalink on
/// `www.reddit.com` with `.json` appended.
pub proof fn lemma_reddit_hosts_route_to_reddit(host: Seq<char>, sub: Seq<char>, id: Seq<char>)
    requires
        text::lower(host) == "reddit.com"@ || text::lower(host) == "www.reddit.com"@ || text::lower(
            host,
        ) == "old.reddit.com"@ || text::lower(host) == "m.reddit.com"@,
        sub.len() > 0,
        forall|i: int| 0 <= i < sub.len() ==> ascii_letter_or_digit(#[trigger] sub[i]) || sub[i] == '_',
        id.len() > 0,
        forall|i: int| 0 <= i < id.len() ==> ascii_letter_or_digit(#[trigger] id[i]),
    ensures
        spec_classify_url("https://"@ + host + "/r/"@ + sub + "/comments/"@ + id) == Some(
            Provider::Reddit,
        ),
        spec_extract_reddit_permalink("https://"@ + host + "/r/"@ + sub + "/comments/"@ + id) == Some(
            "https://www.reddit.com/r/"@ + sub + "/comments/"@ + id + ".json"@,
        ),
{
    reveal_strlit("reddit.com");
    reveal_strlit("www.reddit.com");
    reveal_strlit("old.reddit.com");
    reveal_strlit("m.reddit.com");
    reveal_strlit("/r/");
    reveal_strlit("/comments/");
    reveal_strlit("/a/");
    reveal_strlit("/gallery/");
    reveal_strlit(".json");
    reveal_strlit("https://www.reddit.com");
    reveal_strlit("https://www.reddit.com/r/");
    let name = text::lower(host);
    assert(host_name_chars(name));
    lemma_host_of_listed_name(host, name);
    assert(name.len() > 0);
    assert(name.len() == host.len());
    let p = "/r/"@ + sub + "/comments/"@ + id;
    let url = "https://"@ + host + "/r/"@ + sub + "/comments/"@ + id;
    assert(url =~= "https://"@ + host + p);
    let e1: int = 3 + sub.len() as int;
    let e2: int = e1 + 10;
    assert forall|i: int| 0 <= i < p.len() implies #[trigger] p[i] != '?' && p[i] != '#' && p[i]
        != '.' by {
        if 3 <= i < e1 {
            assert(p[i] == sub[i - 3]);
        } else if i >= e2 {
            assert(p[i] == id[i - e2]);
        }
    }
    assert(p[0] == '/');
    lemma_split_https(host, p);
    assert(p.last() == id.last());
    lemma_normal_path(p);
    // The Reddit shape.
    assert(p.subrange(0, 3) =~= "/r/"@);
    assert forall|j: int| 3 <= j < e1 implies in_class(SegmentClass::AsciiWord, #[trigger] p[j]) by {
        assert(p[j] == sub[j - 3]);
    }
    assert(p[e1] == '/');
    lemma_span_until(p, 3, e1, SegmentClass::AsciiWord);
    assert(p.subrange(e1, e2) =~= "/comments/"@);
    assert forall|j: int| e2 <= j < p.len() implies in_class(SegmentClass::AsciiAlnum, #[trigger] p[j])
        by {
        assert(p[j] == id[j - e2]);
    }
    lemma_span_until(p, e2, p.len() as int, SegmentClass::AsciiAlnum);
    assert(reddit_path_matches(p));
    // Not an Imgur path.
    assert(!text::starts_with(p, "/a/"@)) by {
        assert(p.subrange(0, 3)[1] == 'r');
    }
    assert(!text::starts_with(p, "/gallery/"@)) by {
        assert(p.subrange(0, 9)[1] == 'r');
    }
    // No `.json` at the end: the path holds no `.`.
    assert(!text::ends_with(p, ".json"@)) by {
        if text::ends_with(p, ".json"@) {
            assert(p.skip(p.len() - 5)[0] == p[p.len() - 5]);
        }
    }
    assert("https://www.reddit.com"@ + p + ".json"@ =~= "https://www.reddit.com/r/"@ + sub
        + "/comments/"@ + id + ".json"@);
}

/// Every listed Flickr host, in any ASCII case, routes its album URLs to
/// Flickr and yields the user and the album.
pub proof fn lemma_flickr_hosts_route_to_flickr(host: Seq<char>, user: Seq<char>, album: Seq<char>)
    requires
        text::lower(host) == "flickr.com"@ || text::lower(host) == "www.flickr.com"@ || text::lower(
            host,
        ) == "m.flickr.com"@,
        user.len() > 0,
        forall|i: int|
            0 <= i < user.len() ==> #[trigger] user[i] != '/' && user[i] != '?' && user[i] != '#',
        album.len() > 0,
        forall|i: int| 0 <= i < album.len() ==> '0' <= #[trigger] album[i] <= '9',
    ensures
        spec_classify_url("https://"@ + host + "/photos/"@ + user + "/albums/"@ + album) == Some(
            Provider::Flickr,
        ),
        spec_extract_flickr_album_id("https://"@ + host + "/photos/"@ + user + "/albums/"@ + album)
            == Some((user, album)),
{
    reveal_strlit("flickr.com");
    reveal_strlit("www.flickr.com");
    reveal_strlit("m.flickr.com");
    reveal_strlit("/photos/");
    reveal_strlit("/albums/");
    reveal_strlit("/a/");
    reveal_strlit("/gallery/");
    reveal_strlit("/r/");
    let name = text::lower(host);
    assert(host_name_chars(name));
    lemma_host_of_listed_name(host, name);
    assert(name.len() > 0);
    assert(name.len() == host.len());
    let p = "/photos/"@ + user + "/albums/"@ + album;
    let url = "https://"@ + host + "/photos/"@ + user + "/albums/"@ + album;
    assert(url =~= "https://"@ + host + p);
    let e1: int = 8 + user.len() as int;
    let e2: int = e1 + 8;
    assert forall|i: int| 0 <= i < p.len() implies #[trigger] p[i] != '?' && p[i] != '#' by {
        if 8 <= i < e1 {
            assert(p[i] == user[i - 8]);
        } else if i >= e2 {
            assert(p[i] == album[i - e2]);
        }
    }
    assert(p[0] == '/');
    lemma_split_https(host, p);
    assert(p.last() == album.last());
    lemma_normal_path(p);
    // The Flickr shape.
    assert(p.subrange(0, 8) =~= "/photos/"@);
    assert forall|j: int| 8 <= j < e1 implies in_class(SegmentClass::NotSlash, #[trigger] p[j]) by {
        assert(p[j] == user[j - 8]);
    }
    assert(p[e1] == '/');
    lemma_span_until(p, 8, e1, SegmentClass::NotSlash);
    assert(p.subrange(e1, e2) =~= "/albums/"@);
    assert forall|j: int| e2 <= j < p.len() implies in_class(
        SegmentClass::DecimalDigit,
        #[trigger] p[j],
    ) by {
        assert(p[j] == album[j - e2]);
    }
    lemma_span_until(p, e2, p.len() as int, SegmentClass::DecimalDigit);
    assert(p.subrange(8, e1) =~= user);
    assert(p.subrange(e2, p.len() as int) =~= album);
    // Neither an Imgur nor a Reddit path.
    assert(!text::starts_with(p, "/a/"@)) by {
        assert(p.subrange(0, 3)[1] == 'p');
    }
    assert(!text::starts_with(p, "/gallery/"@)) by {
        assert(p.subrange(0, 9)[1] == 'p');
    }
    assert(!text::starts_with(p, "/r/"@)) by {
        assert(p.subrange(0, 3)[1] == 'p');
    }
}

/// A normalised path is a prefix of the raw path, holds no `?` and no `#`,
/// does not end with `/`, and normalising it again changes nothing.
pub proof fn lemma_normalize_path(p: Seq<char>)
    ensures
        ({
            let q = spec_normalize_path(p);
            &&& q == p.take(q.len() as int)
            &&& forall|i: int| 0 <= i < q.len() ==> #[trigger] q[i] != '?' && q[i] != '#'
            &&& q.len() > 0 ==> q.last() != '/'
            &&& spec_normalize_path(q) == q
        }),
{
    let a = text::before_first(p, '#');
    let b = text::before_first(a, '?');
    let q = spec_normalize_path(p);
    text::lemma_before_first(p, '#');
    text::lemma_before_first(a, '?');
    text::lemma_trim_end_char(b, '/');
    assert(q == p.take(q.len() as int)) by {
        assert(b.take(q.len() as int) =~= p.take(q.len() as int));
    }
    assert forall|i: int| 0 <= i < q.len() implies #[trigger] q[i] != '?' && q[i] != '#' by {
        assert(q[i] == b[i]);
        assert(b[i] == a[i]);
    }
    text::lemma_before_first(q, '#');
    text::lemma_before_first(q, '?');
    text::lemma_trim_end_char(q, '/');
}

/// The Reddit JSON endpoint is always on `https://www.reddit.com` and
/// always ends with a single `.json` added at most once.
pub proof fn lemma_reddit_permalink_shape(url: Seq<char>)
    ensures
        spec_extract_reddit_permalink(url) matches Some(pl) ==> text::starts_with(
            pl,
            "https://www.reddit.com"@,
        ) && text::ends_with(pl, ".json"@),
{
    if let Some(pl) = spec_extract_reddit_permalink(url) {
        let (_host, path) = spec_split_url(url).unwrap();
        let p = spec_normalize_path(path);
        let base = "https://www.reddit.com"@;
        assert(pl.subrange(0, base.len() as int) =~= base);
        if text::ends_with(p, ".json"@) {
            assert(pl =~= base + p);
            assert(pl.skip(pl.len() - ".json"@.len()) =~= p.skip(p.len() - ".json"@.len()));
        } else {
            assert(pl.skip(pl.len() - ".json"@.len()) =~= ".json"@);
        }
    }
}

} // verus!
