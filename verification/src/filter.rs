//! Post-extraction filtering and naming helpers.
//!
//! - [`parse_min_resolution`] turns a user-facing `"WxH"` string into a
//!   `(width, height)` tuple.
//! - [`filter_by_min_resolution`] drops images that are known to be
//!   below the threshold. Images with unknown dimensions are kept,
//!   because the HTTP HEAD check to discover them is out of scope for
//!   the plugin (the download engine may re-check later).
//! - [`dedupe_links`] removes duplicate URLs while preserving order.
//! - [`auto_name`] produces a stable filename from provider + id + index.

use vstd::prelude::*;

use crate::error::PluginError;
use crate::link::{ImageLink, Provider};
use crate::text;

verus! {

// ---------------------------------------------------------------------------
// Minimum resolution
// ---------------------------------------------------------------------------

/// The `(width, height)` that a `"WxH"` setting stands for: blank and
/// `0x0` mean no minimum; otherwise the text is cut at the first `x`
/// (case-insensitively) and each side, trimmed, must be a `u32`.
pub open spec fn spec_parse_min_resolution(input: Seq<char>) -> Option<(u32, u32)> {
    let t = text::lower(text::trim_ws(input));
    if t.len() == 0 || t == "0x0"@ {
        Some((0, 0))
    } else {
        match text::find_char(t, 'x') {
            None => None,
            Some(i) => match (
                text::parse_u32(text::trim_ws(t.take(i))),
                text::parse_u32(text::trim_ws(t.skip(i + 1))),
            ) {
                (Some(w), Some(h)) => Some((w, h)),
                _ => None,
            },
        }
    }
}

/// Parse a `"WxH"` string into `(width, height)`.
pub fn parse_min_resolution(input: &str) -> (r: Result<(u32, u32), PluginError>)
    ensures
        match spec_parse_min_resolution(input@) {
            Some(wh) => r == Ok::<(u32, u32), PluginError>(wh),
            None => r matches Err(PluginError::InvalidMinResolution(m)) && m@ == input@,
        },
{
    let v = text::chars_of(input);
    let (a, b) = text::trim_ws_bounds(&v);
    let t = text::lowercase_chars_range(&v, a, b);
    if t.len() == 0 || text::chars_eq_str(&t, "0x0") {
        return Ok((0, 0));
    }
    let n = t.len();
    let x = match text::find_char_exec(&t, 'x', 0, n) {
        Some(x) => x,
        None => {
            proof {
                assert(t@.take(n as int) =~= t@);
            }
            return Err(PluginError::InvalidMinResolution(input.to_owned()));
        },
    };
    proof {
        assert(t@.take(n as int) =~= t@);
    }
    let wv = text::sub_chars(&t, 0, x);
    let hv = text::sub_chars(&t, x + 1, n);
    let (wa, wb) = text::trim_ws_bounds(&wv);
    let (ha, hb) = text::trim_ws_bounds(&hv);
    proof {
        assert(wv@ =~= t@.take(x as int));
        assert(hv@ =~= t@.skip(x + 1));
    }
    let w = match text::parse_u32_range(&wv, wa, wb) {
        Some(w) => w,
        None => return Err(PluginError::InvalidMinResolution(input.to_owned())),
    };
    let h = match text::parse_u32_range(&hv, ha, hb) {
        Some(h) => h,
        None => return Err(PluginError::InvalidMinResolution(input.to_owned())),
    };
    Ok((w, h))
}

/// Writing a resolution out as `WxH` and parsing it back gives the same
/// resolution.
pub proof fn lemma_parse_min_resolution_roundtrip(w: u32, h: u32)
    ensures
        spec_parse_min_resolution(text::decimal(w as nat) + "x"@ + text::decimal(h as nat)) == Some(
            (w, h),
        ),
{
    reveal_strlit("x");
    reveal_strlit("0x0");
    let dw = text::decimal(w as nat);
    let dh = text::decimal(h as nat);
    text::lemma_decimal(w as nat);
    text::lemma_decimal(h as nat);
    let s = dw + "x"@ + dh;
    assert forall|i: int| 0 <= i < s.len() implies (!text::is_unicode_whitespace(#[trigger] s[i])
        && !text::is_ascii_upper(s[i]) && (i != dw.len() ==> text::is_ascii_digit(s[i]))) by {
        if i < dw.len() {
            assert(s[i] == dw[i]);
            assert(text::is_ascii_digit(dw[i]));
        } else if i > dw.len() {
            assert(s[i] == dh[i - dw.len() - 1]);
            assert(text::is_ascii_digit(dh[i - dw.len() - 1]));
        }
    }
    text::lemma_trim_without_whitespace(s);
    text::lemma_lower_identity(s);
    let t = text::lower(text::trim_ws(s));
    assert(t == s);
    assert forall|i: int| 0 <= i < dw.len() implies !text::is_unicode_whitespace(#[trigger] dw[i])
        by {
        assert(text::is_ascii_digit(dw[i]));
    }
    assert forall|i: int| 0 <= i < dh.len() implies !text::is_unicode_whitespace(#[trigger] dh[i])
        by {
        assert(text::is_ascii_digit(dh[i]));
    }
    text::lemma_trim_without_whitespace(dw);
    text::lemma_trim_without_whitespace(dh);
    assert(text::is_ascii_digit(dw[0]));
    assert(text::is_ascii_digit(dh[0]));
    assert(text::parse_u32(dw) == Some(w));
    assert(text::parse_u32(dh) == Some(h));
    if t == "0x0"@ {
        assert(dw.len() == 1 && dh.len() == 1);
        assert(dw[0] == s[0]);
        assert(dh[0] == s[2]);
        assert(dw.drop_last() =~= Seq::<char>::empty());
        assert(dh.drop_last() =~= Seq::<char>::empty());
        assert(text::digits_value(Seq::<char>::empty()) == 0);
    } else {
        assert forall|k: int| 0 <= k < dw.len() implies s[k] != 'x' by {
            assert(s[k] == dw[k]);
            assert(text::is_ascii_digit(dw[k]));
        }
        text::lemma_find_char_from_at(s, 'x', 0, dw.len() as int);
        assert(s.take(dw.len() as int) =~= dw);
        assert(s.skip(dw.len() as int + 1) =~= dh);
    }
}

/// The setting is read case-insensitively: a setting and its ASCII
/// lower-case form mean the same resolution (`1920X1080` is `1920x1080`).
pub proof fn lemma_parse_min_resolution_ignores_case(input: Seq<char>)
    ensures
        spec_parse_min_resolution(text::lower(input)) == spec_parse_min_resolution(input),
{
    text::lemma_trim_lower(input);
    text::lemma_lower_idempotent(text::trim_ws(input));
}

/// A blank setting (empty or all whitespace) means no minimum, and a
/// setting with some text but no `x` or `X` is refused.
pub proof fn lemma_parse_min_resolution_blank_and_malformed(input: Seq<char>)
    ensures
        (forall|i: int| 0 <= i < input.len() ==> text::is_unicode_whitespace(#[trigger] input[i]))
            ==> spec_parse_min_resolution(input) == Some((0u32, 0u32)),
        ((exists|k: int| 0 <= k < input.len() && !text::is_unicode_whitespace(#[trigger] input[k]))
            && (forall|i: int| 0 <= i < input.len() ==> #[trigger] input[i] != 'x' && input[i] != 'X'))
            ==> spec_parse_min_resolution(input) is None,
{
    reveal_strlit("0x0");
    let a = text::ws_start_from(input, 0);
    let b = text::ws_end_before(input, input.len() as int);
    text::lemma_ws_start_from_bound(input, 0, 0);
    text::lemma_ws_bounds(input, 0, input.len() as int);
    if forall|i: int| 0 <= i < input.len() ==> text::is_unicode_whitespace(#[trigger] input[i]) {
        assert(text::trim_ws(input).len() == 0);
        assert(text::lower(text::trim_ws(input)).len() == 0);
    }
    if (exists|k: int| 0 <= k < input.len() && !text::is_unicode_whitespace(#[trigger] input[k]))
        && (forall|i: int| 0 <= i < input.len() ==> #[trigger] input[i] != 'x' && input[i] != 'X') {
        let k = choose|k: int| 0 <= k < input.len() && !text::is_unicode_whitespace(input[k]);
        text::lemma_ws_start_from_bound(input, 0, k);
        text::lemma_ws_end_before_bound(input, input.len() as int, k);
        let tr = text::trim_ws(input);
        let t = text::lower(tr);
        assert(tr =~= input.subrange(a, b));
        assert forall|i: int| 0 <= i < t.len() implies #[trigger] t[i] != 'x' by {
            assert(t[i] == text::lower_char(tr[i]));
            assert(tr[i] == input[a + i]);
        }
        assert(t.len() > 0);
        assert(t != "0x0"@) by {
            if t == "0x0"@ {
                assert(t[1] == 'x');
            }
        }
        text::lemma_find_char_from(t, 'x', 0);
    }
}

// ---------------------------------------------------------------------------
// Filtering by resolution
// ---------------------------------------------------------------------------

/// Whether an image survives the `min_w × min_h` threshold.
///
/// - Both dimensions unknown → keep (benefit-of-the-doubt; downstream
///   HEAD check can re-verify).
/// - Both known → drop if either axis is below the minimum.
/// - Only one axis known → drop if *that* axis is below its minimum,
///   otherwise keep.
pub open spec fn meets_min_resolution(l: ImageLink, min_w: u32, min_h: u32) -> bool {
    match (l.width, l.height) {
        (Some(w), Some(h)) => w >= min_w && h >= min_h,
        (Some(w), None) => w >= min_w,
        (None, Some(h)) => h >= min_h,
        (None, None) => true,
    }
}

/// The images of `links` that survive the threshold, in their order.
pub open spec fn spec_filter_by_min_resolution(links: Seq<ImageLink>, min_w: u32, min_h: u32) -> Seq<
    ImageLink,
> {
    links.filter(|l: ImageLink| meets_min_resolution(l, min_w, min_h))
}

fn meets_min_resolution_exec(l: &ImageLink, min_w: u32, min_h: u32) -> (b: bool)
    ensures
        b == meets_min_resolution(*l, min_w, min_h),
{
    match (l.width, l.height) {
        (Some(w), Some(h)) => w >= min_w && h >= min_h,
        (Some(w), None) => w >= min_w,
        (None, Some(h)) => h >= min_h,
        (None, None) => true,
    }
}

/// Drop images strictly smaller than `min_w × min_h`.
///
/// Policy for partial information:
///
/// - Both dimensions unknown → keep (benefit-of-the-doubt; downstream
///   HEAD check can re-verify).
/// - Both known → drop if either axis is below the minimum.
/// - Only one axis known → drop if *that* axis is below its minimum,
///   otherwise keep. A known small width is a firm "too small" signal
///   and should not leak through just because the height is missing.
pub fn filter_by_min_resolution(links: Vec<ImageLink>, min_w: u32, min_h: u32) -> (r: Vec<
    ImageLink,
>)
    ensures
        r@ == spec_filter_by_min_resolution(links@, min_w, min_h),
{
    let ghost input = links@;
    if min_w == 0 && min_h == 0 {
        proof {
            lemma_filter_keeps_all(input, min_w, min_h);
        }
        return links;
    }
    let ghost pred = |l: ImageLink| meets_min_resolution(l, min_w, min_h);
    let mut out: Vec<ImageLink> = Vec::new();
    for link in it: links.into_iter()
        invariant
            it.seq() == input,
            pred == (|l: ImageLink| meets_min_resolution(l, min_w, min_h)),
            out@ == input.take(it.index() as int).filter(pred),
    {
        proof {
            reveal_with_fuel(Seq::<_>::filter, 1);
            assert(input.take(it.index() + 1).drop_last() =~= input.take(it.index() as int));
        }
        if meets_min_resolution_exec(&link, min_w, min_h) {
            out.push(link);
        }
    }
    proof {
        assert(input.take(input.len() as int) =~= input);
    }
    out
}

/// With no minimum every image is kept.
pub proof fn lemma_filter_keeps_all(links: Seq<ImageLink>, min_w: u32, min_h: u32)
    requires
        min_w == 0,
        min_h == 0,
    ensures
        spec_filter_by_min_resolution(links, min_w, min_h) == links,
    decreases links.len(),
{
    reveal_with_fuel(Seq::<_>::filter, 1);
    if links.len() > 0 {
        lemma_filter_keeps_all(links.drop_last(), min_w, min_h);
        assert(links.drop_last().push(links.last()) =~= links);
    }
}

// ---------------------------------------------------------------------------
// De-duplication
// ---------------------------------------------------------------------------

/// The URLs of a sequence of images.
pub open spec fn urls_of(links: Seq<ImageLink>) -> Seq<Seq<char>> {
    links.map_values(|l: ImageLink| l.url@)
}

/// `links` with every image whose URL already occurred earlier removed.
pub open spec fn spec_dedupe_links(links: Seq<ImageLink>) -> Seq<ImageLink>
    decreases links.len(),
{
    if links.len() == 0 {
        links
    } else {
        let kept = spec_dedupe_links(links.drop_last());
        if urls_of(kept).contains(links.last().url@) {
            kept
        } else {
            kept.push(links.last())
        }
    }
}

fn contains_url(links: &Vec<ImageLink>, url: &String) -> (b: bool)
    ensures
        b == urls_of(links@).contains(url@),
{
    let mut j: usize = 0;
    while j < links.len()
        invariant
            j <= links.len(),
            forall|k: int| 0 <= k < j ==> links@[k].url@ != url@,
        decreases links.len() - j,
    {
        if links[j].url == *url {
            assert(urls_of(links@)[j as int] == url@);
            return true;
        }
        j = j + 1;
    }
    assert(!urls_of(links@).contains(url@)) by {
        if urls_of(links@).contains(url@) {
            let k = choose|k: int| 0 <= k < urls_of(links@).len() && urls_of(links@)[k] == url@;
            assert(links@[k].url@ == url@);
        }
    }
    false
}

/// Remove duplicate URLs while preserving first-seen order.
pub fn dedupe_links(links: Vec<ImageLink>) -> (r: Vec<ImageLink>)
    ensures
        r@ == spec_dedupe_links(links@),
{
    let ghost input = links@;
    let mut out: Vec<ImageLink> = Vec::new();
    for link in it: links.into_iter()
        invariant
            it.seq() == input,
            out@ == spec_dedupe_links(input.take(it.index() as int)),
    {
        proof {
            assert(input.take(it.index() + 1).drop_last() =~= input.take(it.index() as int));
        }
        if !contains_url(&out, &link.url) {
            out.push(link);
        }
    }
    proof {
        assert(input.take(input.len() as int) =~= input);
    }
    out
}

/// Filtering twice by the same threshold keeps what filtering once kept.
pub proof fn lemma_filter_idempotent(links: Seq<ImageLink>, min_w: u32, min_h: u32)
    ensures
        spec_filter_by_min_resolution(spec_filter_by_min_resolution(links, min_w, min_h), min_w, min_h)
            == spec_filter_by_min_resolution(links, min_w, min_h),
    decreases links.len(),
{
    reveal_with_fuel(Seq::<_>::filter, 1);
    if links.len() > 0 {
        lemma_filter_idempotent(links.drop_last(), min_w, min_h);
        let once = spec_filter_by_min_resolution(links.drop_last(), min_w, min_h);
        if meets_min_resolution(links.last(), min_w, min_h) {
            assert(once.push(links.last()).drop_last() =~= once);
        }
    }
}

/// Exactly the images that meet the threshold are kept: every kept image
/// meets it, and every input image that meets it is kept.
pub proof fn lemma_filter_keeps_exactly_the_large_enough(
    links: Seq<ImageLink>,
    min_w: u32,
    min_h: u32,
)
    ensures
        forall|i: int|
            0 <= i < spec_filter_by_min_resolution(links, min_w, min_h).len() ==> meets_min_resolution(
                #[trigger] spec_filter_by_min_resolution(links, min_w, min_h)[i],
                min_w,
                min_h,
            ),
        forall|i: int|
            0 <= i < links.len() && meets_min_resolution(links[i], min_w, min_h)
                ==> #[trigger] spec_filter_by_min_resolution(links, min_w, min_h).contains(links[i]),
{
    broadcast use vstd::seq_lib::group_filter_ensures;

}

/// Whether every known dimension of `l` reaches its minimum.
pub open spec fn known_dimensions_reach(l: ImageLink, min_w: u32, min_h: u32) -> bool {
    &&& (l.width matches Some(w) ==> w >= min_w)
    &&& (l.height matches Some(h) ==> h >= min_h)
}

/// The resolution policy, stated on the dimensions themselves: every kept
/// image has each known dimension at or above its minimum (so with both
/// known, width >= `min_w` and height >= `min_h`); every input image whose
/// known dimensions all reach their minimum is kept; an input image with a
/// known dimension below its minimum is never kept. (The output holds input
/// images only: `lemma_filter_from_input`.)
pub proof fn lemma_filter_policy(links: Seq<ImageLink>, min_w: u32, min_h: u32)
    ensures
        ({
            let out = spec_filter_by_min_resolution(links, min_w, min_h);
            &&& forall|i: int|
                0 <= i < out.len() ==> {
                    &&& ((#[trigger] out[i]).width matches Some(w) ==> w >= min_w)
                    &&& (out[i].height matches Some(h) ==> h >= min_h)
                }
            &&& forall|i: int|
                0 <= i < out.len() ==> (#[trigger] out[i]).width is Some && out[i].height is Some
                    ==> out[i].width->0 >= min_w && out[i].height->0 >= min_h
            &&& forall|k: int|
                0 <= k < links.len() && known_dimensions_reach(links[k], min_w, min_h)
                    ==> #[trigger] out.contains(links[k])
            &&& forall|k: int|
                0 <= k < links.len() && ((links[k].width matches Some(w) && w < min_w) || (
                links[k].height matches Some(h) && h < min_h)) ==> !#[trigger] out.contains(links[k])
        }),
{
    let out = spec_filter_by_min_resolution(links, min_w, min_h);
    lemma_filter_keeps_exactly_the_large_enough(links, min_w, min_h);
    assert forall|i: int| 0 <= i < out.len() implies {
        &&& ((#[trigger] out[i]).width matches Some(w) ==> w >= min_w)
        &&& (out[i].height matches Some(h) ==> h >= min_h)
    } by {
        assert(meets_min_resolution(out[i], min_w, min_h));
    }
    assert forall|i: int|
        0 <= i < out.len() && (#[trigger] out[i]).width is Some && out[i].height is Some implies out[i].width->0
            >= min_w && out[i].height->0 >= min_h by {
        assert(meets_min_resolution(out[i], min_w, min_h));
    }
    assert forall|k: int|
        0 <= k < links.len() && known_dimensions_reach(links[k], min_w, min_h) implies #[trigger] out.contains(
        links[k],
    ) by {
        assert(meets_min_resolution(links[k], min_w, min_h));
    }
    assert forall|k: int|
        0 <= k < links.len() && ((links[k].width matches Some(w) && w < min_w) || (
        links[k].height matches Some(h) && h < min_h)) implies !#[trigger] out.contains(links[k]) by {
        if out.contains(links[k]) {
            let i = choose|i: int| 0 <= i < out.len() && out[i] == links[k];
            assert(meets_min_resolution(out[i], min_w, min_h));
        }
    }
}

/// Images whose size is unknown are never dropped.
pub proof fn lemma_unknown_dimensions_kept(links: Seq<ImageLink>, min_w: u32, min_h: u32, i: int)
    requires
        0 <= i < links.len(),
        links[i].width is None,
        links[i].height is None,
    ensures
        spec_filter_by_min_resolution(links, min_w, min_h).contains(links[i]),
{
    lemma_filter_keeps_exactly_the_large_enough(links, min_w, min_h);
}

/// Every image that filtering keeps comes from the input.
pub proof fn lemma_filter_from_input(links: Seq<ImageLink>, min_w: u32, min_h: u32)
    ensures
        forall|i: int|
            0 <= i < spec_filter_by_min_resolution(links, min_w, min_h).len() ==> exists|k: int|
                0 <= k < links.len() && links[k] == #[trigger] spec_filter_by_min_resolution(
                    links,
                    min_w,
                    min_h,
                )[i],
    decreases links.len(),
{
    reveal_with_fuel(Seq::<_>::filter, 1);
    if links.len() > 0 {
        let prev = links.drop_last();
        lemma_filter_from_input(prev, min_w, min_h);
        let f = spec_filter_by_min_resolution(prev, min_w, min_h);
        let out = spec_filter_by_min_resolution(links, min_w, min_h);
        assert forall|i: int| 0 <= i < out.len() implies exists|k: int|
            0 <= k < links.len() && links[k] == #[trigger] out[i] by {
            if i < f.len() {
                assert(out[i] == f[i]);
                let k = choose|k: int| 0 <= k < prev.len() && prev[k] == f[i];
                assert(links[k] == out[i]);
            } else {
                assert(links[links.len() - 1] == out[i]);
            }
        }
    }
}

/// Filtering a list whose URLs are distinct keeps them distinct.
pub proof fn lemma_filter_keeps_urls_distinct(links: Seq<ImageLink>, min_w: u32, min_h: u32)
    requires
        forall|i: int, j: int|
            0 <= i < j < links.len() ==> (#[trigger] links[i]).url@ != (#[trigger] links[j]).url@,
    ensures
        ({
            let out = spec_filter_by_min_resolution(links, min_w, min_h);
            forall|i: int, j: int|
                0 <= i < j < out.len() ==> (#[trigger] out[i]).url@ != (#[trigger] out[j]).url@
        }),
    decreases links.len(),
{
    reveal_with_fuel(Seq::<_>::filter, 1);
    if links.len() > 0 {
        let prev = links.drop_last();
        lemma_filter_keeps_urls_distinct(prev, min_w, min_h);
        lemma_filter_from_input(prev, min_w, min_h);
        let f = spec_filter_by_min_resolution(prev, min_w, min_h);
        let out = spec_filter_by_min_resolution(links, min_w, min_h);
        assert forall|i: int, j: int| 0 <= i < j < out.len() implies (#[trigger] out[i]).url@
            != (#[trigger] out[j]).url@ by {
            if j < f.len() {
                assert(out[i] == f[i] && out[j] == f[j]);
            } else {
                assert(out[i] == f[i]);
                let k = choose|k: int| 0 <= k < prev.len() && prev[k] == f[i];
                assert(links[k] == prev[k]);
                assert(out[j] == links[links.len() - 1]);
            }
        }
    }
}

/// No two images of a deduplicated list share a URL.
pub proof fn lemma_dedupe_urls_distinct(links: Seq<ImageLink>)
    ensures
        forall|i: int, j: int|
            0 <= i < j < spec_dedupe_links(links).len() ==> (#[trigger] spec_dedupe_links(links)[i]).url@
                != (#[trigger] spec_dedupe_links(links)[j]).url@,
    decreases links.len(),
{
    if links.len() > 0 {
        lemma_dedupe_urls_distinct(links.drop_last());
        let kept = spec_dedupe_links(links.drop_last());
        if !urls_of(kept).contains(links.last().url@) {
            let out = kept.push(links.last());
            assert forall|i: int, j: int| 0 <= i < j < out.len() implies (#[trigger] out[i]).url@
                != (#[trigger] out[j]).url@ by {
                if j == out.len() - 1 {
                    assert(urls_of(kept)[i] == kept[i].url@);
                }
            }
        }
    }
}

/// Deduplication loses no URL and invents none.
pub proof fn lemma_dedupe_same_urls(links: Seq<ImageLink>)
    ensures
        forall|u: Seq<char>|
            #[trigger] urls_of(spec_dedupe_links(links)).contains(u) <==> urls_of(links).contains(u),
    decreases links.len(),
{
    if links.len() > 0 {
        lemma_dedupe_same_urls(links.drop_last());
        let prev = links.drop_last();
        let kept = spec_dedupe_links(prev);
        let out = spec_dedupe_links(links);
        let present = urls_of(kept).contains(links.last().url@);
        assert forall|u: Seq<char>| #[trigger] urls_of(out).contains(u) <==> urls_of(links).contains(
            u,
        ) by {
            if urls_of(links).contains(u) {
                let k = choose|k: int| 0 <= k < urls_of(links).len() && urls_of(links)[k] == u;
                if k < links.len() - 1 {
                    assert(urls_of(prev)[k] == u);
                    assert(urls_of(prev).contains(u));
                    assert(urls_of(kept).contains(u));
                    let m = choose|m: int| 0 <= m < urls_of(kept).len() && urls_of(kept)[m] == u;
                    if !present {
                        assert(out[m] == kept[m]);
                        assert(urls_of(out)[m] == u);
                    }
                } else {
                    assert(u == links.last().url@);
                    if !present {
                        assert(urls_of(out)[out.len() - 1] == u);
                    }
                }
            }
            if urls_of(out).contains(u) {
                let m = choose|m: int| 0 <= m < urls_of(out).len() && urls_of(out)[m] == u;
                if m < kept.len() {
                    assert(out[m] == kept[m]);
                    assert(urls_of(kept)[m] == u);
                    assert(urls_of(kept).contains(u));
                    assert(urls_of(prev).contains(u));
                    let k = choose|k: int| 0 <= k < urls_of(prev).len() && urls_of(prev)[k] == u;
                    assert(urls_of(links)[k] == u);
                } else {
                    assert(urls_of(links)[links.len() - 1] == u);
                }
            }
        }
    }
}

/// A list whose URLs are already distinct is left as it is.
pub proof fn lemma_dedupe_of_distinct(links: Seq<ImageLink>)
    requires
        forall|i: int, j: int|
            0 <= i < j < links.len() ==> (#[trigger] links[i]).url@ != (#[trigger] links[j]).url@,
    ensures
        spec_dedupe_links(links) == links,
    decreases links.len(),
{
    if links.len() > 0 {
        let prev = links.drop_last();
        lemma_dedupe_of_distinct(prev);
        if urls_of(prev).contains(links.last().url@) {
            let k = choose|k: int| 0 <= k < urls_of(prev).len() && urls_of(prev)[k] == links.last().url@;
            assert(links[k].url@ == links[links.len() - 1].url@);
        }
        assert(prev.push(links.last()) =~= links);
    }
}

/// Deduplicating twice is deduplicating once.
pub proof fn lemma_dedupe_idempotent(links: Seq<ImageLink>)
    ensures
        spec_dedupe_links(spec_dedupe_links(links)) == spec_dedupe_links(links),
{
    lemma_dedupe_urls_distinct(links);
    lemma_dedupe_of_distinct(spec_dedupe_links(links));
}

/// First-seen order: the deduplicated list picks, in increasing order,
/// positions of the input that hold the first image with their URL.
pub proof fn lemma_dedupe_first_seen(links: Seq<ImageLink>) -> (pos: Seq<int>)
    ensures
        pos.len() == spec_dedupe_links(links).len(),
        forall|i: int, j: int| 0 <= i < j < pos.len() ==> #[trigger] pos[i] < #[trigger] pos[j],
        forall|i: int|
            #![trigger pos[i]]
            0 <= i < pos.len() ==> {
                &&& 0 <= pos[i] < links.len()
                &&& links[pos[i]] == spec_dedupe_links(links)[i]
                &&& forall|k: int| 0 <= k < pos[i] ==> (#[trigger] links[k]).url@ != links[pos[i]].url@
            },
    decreases links.len(),
{
    if links.len() == 0 {
        Seq::empty()
    } else {
        let prev = links.drop_last();
        let p = lemma_dedupe_first_seen(prev);
        let kept = spec_dedupe_links(prev);
        if urls_of(kept).contains(links.last().url@) {
            assert forall|i: int| #![trigger p[i]] 0 <= i < p.len() implies {
                &&& 0 <= p[i] < links.len()
                &&& links[p[i]] == spec_dedupe_links(links)[i]
                &&& forall|k: int| 0 <= k < p[i] ==> (#[trigger] links[k]).url@ != links[p[i]].url@
            } by {
                assert forall|k: int| 0 <= k < p[i] implies (#[trigger] links[k]).url@
                    != links[p[i]].url@ by {
                    assert(links[k] == prev[k]);
                }
            }
            p
        } else {
            lemma_dedupe_same_urls(prev);
            let q = p.push(links.len() - 1);
            assert forall|i: int| #![trigger q[i]] 0 <= i < q.len() implies {
                &&& 0 <= q[i] < links.len()
                &&& links[q[i]] == spec_dedupe_links(links)[i]
                &&& forall|k: int| 0 <= k < q[i] ==> (#[trigger] links[k]).url@ != links[q[i]].url@
            } by {
                if i == q.len() - 1 {
                    assert forall|k: int| 0 <= k < q[i] implies (#[trigger] links[k]).url@
                        != links[q[i]].url@ by {
                        if links[k].url@ == links.last().url@ {
                            assert(urls_of(prev)[k] == links.last().url@);
                        }
                    }
                } else {
                    assert(q[i] == p[i]);
                    assert forall|k: int| 0 <= k < q[i] implies (#[trigger] links[k]).url@
                        != links[q[i]].url@ by {
                        assert(links[k] == prev[k]);
                    }
                }
            }
            q
        }
    }
}

// ---------------------------------------------------------------------------
// Naming
// ---------------------------------------------------------------------------

/// The provider part of an auto-generated filename.
pub open spec fn provider_slug(provider: Provider) -> Seq<char> {
    match provider {
        Provider::Imgur => "imgur"@,
        Provider::Reddit => "reddit"@,
        Provider::Flickr => "flickr"@,
        Provider::Generic => "web"@,
    }
}

/// Filename-safe form of a character: ASCII letters, digits and `-` stay,
/// everything else becomes `_`.
pub open spec fn sanitize_char(c: char) -> char {
    if text::is_ascii_alnum(c) || c == '-' {
        c
    } else {
        '_'
    }
}

/// Filename-safe form of a string, character by character.
pub open spec fn spec_sanitize(s: Seq<char>) -> Seq<char> {
    s.map_values(|c: char| sanitize_char(c))
}

/// `d` left-padded with `0` to at least three characters.
pub open spec fn zero_pad3(d: Seq<char>) -> Seq<char> {
    if d.len() >= 3 {
        d
    } else {
        Seq::new((3 - d.len()) as nat, |_i: int| '0') + d
    }
}

/// The extension of a URL's path (query and fragment cut): what follows
/// the last `.`, when that is one to five ASCII letters or digits.
pub open spec fn spec_guess_ext(url: Seq<char>) -> Option<Seq<char>> {
    let path = text::before_first(text::before_first(url, '#'), '?');
    match text::rfind_char(path, '.') {
        None => None,
        Some(d) => {
            let ext = path.skip(d + 1);
            if 1 <= ext.len() <= 5 && (forall|i: int|
                0 <= i < ext.len() ==> text::is_ascii_alnum(#[trigger] ext[i])) {
                Some(ext)
            } else {
                None
            }
        },
    }
}

/// `<provider>_<album>_<index>.<ext>`: the album sanitised, the index in
/// decimal zero-padded to three digits, the extension guessed from the URL
/// with `jpg` when there is none.
pub open spec fn spec_auto_name(provider: Provider, album_id: Seq<char>, index: nat, url: Seq<char>) -> Seq<
    char,
> {
    let ext = match spec_guess_ext(url) {
        Some(e) => e,
        None => "jpg"@,
    };
    provider_slug(provider) + "_"@ + spec_sanitize(album_id) + "_"@ + zero_pad3(
        text::decimal(index),
    ) + "."@ + ext
}

/// Produce `<provider>_<album>_<index><ext>` as a stable auto-name when
/// `auto_name` is enabled. Index is zero-padded to 3 digits so files
/// sort lexicographically.
pub fn auto_name(provider: Provider, album_id: &str, index: usize, url: &str) -> (r: String)
    ensures
        r@ == spec_auto_name(provider, album_id@, index as nat, url@),
{
    let slug = match provider {
        Provider::Imgur => "imgur",
        Provider::Reddit => "reddit",
        Provider::Flickr => "flickr",
        Provider::Generic => "web",
    };
    let ext = match guess_ext_from_url(url) {
        Some(e) => e,
        None => "jpg",
    };
    let safe_album = sanitize(album_id);

    let mut digits = String::new();
    text::push_decimal(&mut digits, index);
    let ghost d = digits@;
    assert(d =~= text::decimal(index as nat));

    let mut out = slug.to_owned();
    out.append("_");
    out.append(safe_album.as_str());
    out.append("_");
    let ghost before_pad = out@;
    let dl = digits.as_str().unicode_len();
    let mut k: usize = 0;
    let pad: usize = if dl < 3 {
        3 - dl
    } else {
        0
    };
    while k < pad
        invariant
            k <= pad,
            out@ == before_pad + Seq::new(k as nat, |_i: int| '0'),
        decreases pad - k,
    {
        text::push_char(&mut out, '0');
        assert(before_pad + Seq::new((k + 1) as nat, |_i: int| '0') =~= (before_pad + Seq::new(
            k as nat,
            |_i: int| '0',
        )).push('0'));
        k = k + 1;
    }
    out.append(digits.as_str());
    proof {
        assert(Seq::new(pad as nat, |_i: int| '0') + d =~= zero_pad3(d));
    }
    out.append(".");
    out.append(ext);
    proof {
        assert(out@ =~= spec_auto_name(provider, album_id@, index as nat, url@));
    }
    out
}

/// Below 1000 the padded index is exactly three digits, hundreds first, so
/// the auto-names of one album sort lexicographically by index.
pub proof fn lemma_index_three_digits(n: int)
    requires
        0 <= n < 1000,
    ensures
        zero_pad3(text::decimal(n as nat)) == seq![
            text::digit_char(n / 100),
            text::digit_char((n / 10) % 10),
            text::digit_char(n % 10),
        ],
{
    reveal_with_fuel(text::decimal, 3);
    if n < 10 {
        assert(zero_pad3(text::decimal(n as nat)) =~= seq![
            text::digit_char(n / 100),
            text::digit_char((n / 10) % 10),
            text::digit_char(n % 10),
        ]);
    } else if n < 100 {
        assert(text::decimal((n / 10) as nat) == seq![text::digit_char(n / 10)]);
        assert(zero_pad3(text::decimal(n as nat)) =~= seq![
            text::digit_char(n / 100),
            text::digit_char((n / 10) % 10),
            text::digit_char(n % 10),
        ]);
    } else {
        assert((n / 10) / 10 == n / 100);
        assert(text::decimal((n / 10) as nat) == text::decimal(((n / 10) / 10) as nat).push(
            text::digit_char((n / 10) % 10),
        ));
        assert(text::decimal(((n / 10) / 10) as nat) == seq![text::digit_char((n / 10) / 10)]);
        assert(zero_pad3(text::decimal(n as nat)) =~= seq![
            text::digit_char(n / 100),
            text::digit_char((n / 10) % 10),
            text::digit_char(n % 10),
        ]);
    }
}

/// A number below 1000 is its three decimal digits.
proof fn lemma_three_digit_value(n: int)
    requires
        0 <= n < 1000,
    ensures
        n == 100 * (n / 100) + 10 * ((n / 10) % 10) + n % 10,
        0 <= n / 100 < 10,
        0 <= (n / 10) % 10 < 10,
        0 <= n % 10 < 10,
{
    vstd::arithmetic::div_mod::lemma_fundamental_div_mod(n, 10);
    vstd::arithmetic::div_mod::lemma_fundamental_div_mod(n / 10, 10);
    assert((n / 10) / 10 == n / 100);
}

/// Auto-names of one album sort by index: below 1000, a smaller index
/// gives a name that comes first in lexicographic order, whatever the
/// extensions of the two images.
pub proof fn lemma_auto_names_sort_by_index(
    provider: Provider,
    album_id: Seq<char>,
    i: nat,
    j: nat,
    url1: Seq<char>,
    url2: Seq<char>,
)
    requires
        i < j <= 999,
    ensures
        text::lex_lt(
            spec_auto_name(provider, album_id, i, url1),
            spec_auto_name(provider, album_id, j, url2),
        ),
{
    let pre = provider_slug(provider) + "_"@ + spec_sanitize(album_id) + "_"@;
    let di = zero_pad3(text::decimal(i));
    let dj = zero_pad3(text::decimal(j));
    lemma_index_three_digits(i as int);
    lemma_index_three_digits(j as int);
    lemma_three_digit_value(i as int);
    lemma_three_digit_value(j as int);
    let e1 = match spec_guess_ext(url1) {
        Some(e) => e,
        None => "jpg"@,
    };
    let e2 = match spec_guess_ext(url2) {
        Some(e) => e,
        None => "jpg"@,
    };
    let a = spec_auto_name(provider, album_id, i, url1);
    let b = spec_auto_name(provider, album_id, j, url2);
    assert(a =~= pre + di + ("."@ + e1));
    assert(b =~= pre + dj + ("."@ + e2));
    let m: int = if i / 100 != j / 100 {
        0
    } else if (i / 10) % 10 != (j / 10) % 10 {
        1
    } else {
        2
    };
    assert(di[m] != dj[m] ==> (di[m] as u32) < (dj[m] as u32)) by {
        text::lemma_digit_char((i / 100) as int);
        text::lemma_digit_char((j / 100) as int);
        text::lemma_digit_char(((i / 10) % 10) as int);
        text::lemma_digit_char(((j / 10) % 10) as int);
        text::lemma_digit_char((i % 10) as int);
        text::lemma_digit_char((j % 10) as int);
    }
    assert(di.take(m) =~= dj.take(m));
    assert(di[m] != dj[m]);
    let k = pre.len() + m;
    assert(a.take(k) =~= pre + di.take(m));
    assert(b.take(k) =~= pre + dj.take(m));
    assert(a[k] == di[m]);
    assert(b[k] == dj[m]);
}

/// A URL whose path ends with `.` and one to five ASCII letters or digits
/// (with no query or fragment) gives a name that ends with exactly that
/// extension, digits included; a URL without any `.` gives `.jpg`.
pub proof fn lemma_auto_name_extension(
    provider: Provider,
    album_id: Seq<char>,
    index: nat,
    prefix: Seq<char>,
    ext: Seq<char>,
)
    requires
        forall|i: int| 0 <= i < prefix.len() ==> #[trigger] prefix[i] != '?' && prefix[i] != '#',
    ensures
        (1 <= ext.len() <= 5 && forall|i: int|
            0 <= i < ext.len() ==> ('a' <= #[trigger] ext[i] <= 'z' || 'A' <= ext[i] <= 'Z' || '0'
                <= ext[i] <= '9')) ==> text::ends_with(
            spec_auto_name(provider, album_id, index, prefix + "."@ + ext),
            "."@ + ext,
        ),
        (forall|i: int| 0 <= i < prefix.len() ==> #[trigger] prefix[i] != '.') ==> text::ends_with(
            spec_auto_name(provider, album_id, index, prefix),
            ".jpg"@,
        ),
{
    reveal_strlit(".");
    reveal_strlit(".jpg");
    reveal_strlit("jpg");
    let head = provider_slug(provider) + "_"@ + spec_sanitize(album_id) + "_"@ + zero_pad3(
        text::decimal(index),
    );
    // With an extension.
    if 1 <= ext.len() <= 5 && forall|i: int|
        0 <= i < ext.len() ==> ('a' <= #[trigger] ext[i] <= 'z' || 'A' <= ext[i] <= 'Z' || '0'
            <= ext[i] <= '9') {
        let url = prefix + "."@ + ext;
        let d = prefix.len() as int;
        assert forall|i: int| 0 <= i < url.len() implies #[trigger] url[i] != '?' && url[i] != '#' by {
            if i < d {
                assert(url[i] == prefix[i]);
            } else if i > d {
                assert(url[i] == ext[i - d - 1]);
            }
        }
        text::lemma_before_first(url, '#');
        text::lemma_before_first(url, '?');
        assert forall|m: int| d < m < url.len() implies url[m] != '.' by {
            assert(url[m] == ext[m - d - 1]);
        }
        text::lemma_rfind_char_at(url, '.', url.len() as int, d);
        assert(url.skip(d + 1) =~= ext);
        assert forall|i: int| 0 <= i < ext.len() implies text::is_ascii_alnum(#[trigger] ext[i]) by {
        }
        assert(spec_guess_ext(url) == Some(ext));
        let name = spec_auto_name(provider, album_id, index, url);
        assert(name =~= head + ("."@ + ext));
        assert(name.skip(name.len() - ("."@ + ext).len()) =~= "."@ + ext);
    }
    // Without any `.`.
    if forall|i: int| 0 <= i < prefix.len() ==> #[trigger] prefix[i] != '.' {
        text::lemma_before_first(prefix, '#');
        text::lemma_before_first(prefix, '?');
        text::lemma_rfind_char_before(prefix, '.', prefix.len() as int);
        assert(spec_guess_ext(prefix) is None);
        let name = spec_auto_name(provider, album_id, index, prefix);
        assert(name =~= head + ".jpg"@);
        assert(name.skip(name.len() - 4) =~= ".jpg"@);
    }
}

/// Sanitising keeps the length, yields only ASCII letters, digits, `-` and
/// `_`, and leaves an already sanitised string unchanged.
pub proof fn lemma_sanitize_is_filename_safe(s: Seq<char>)
    ensures
        spec_sanitize(s).len() == s.len(),
        forall|i: int|
            0 <= i < s.len() ==> {
                let c = #[trigger] spec_sanitize(s)[i];
                text::is_ascii_alnum(c) || c == '-' || c == '_'
            },
        spec_sanitize(spec_sanitize(s)) == spec_sanitize(s),
{
    assert(spec_sanitize(spec_sanitize(s)) =~= spec_sanitize(s));
}

/// Sanitising keeps every ASCII letter, digit and `-` where it is and
/// turns every other character into `_`.
pub proof fn lemma_sanitize_characters(s: Seq<char>)
    ensures
        spec_sanitize(s).len() == s.len(),
        forall|i: int|
            0 <= i < s.len() ==> {
                &&& (('a' <= s[i] <= 'z' || 'A' <= s[i] <= 'Z' || '0' <= s[i] <= '9' || s[i] == '-')
                    ==> #[trigger] spec_sanitize(s)[i] == s[i])
                &&& (!('a' <= s[i] <= 'z' || 'A' <= s[i] <= 'Z' || '0' <= s[i] <= '9' || s[i] == '-')
                    ==> spec_sanitize(s)[i] == '_')
            },
{
}

/// Every auto-name starts with its provider's name and an `_`: `imgur_`,
/// `reddit_`, `flickr_`, or `web_` for the generic fallback.
pub proof fn lemma_auto_name_provider_prefix(
    provider: Provider,
    album_id: Seq<char>,
    index: nat,
    url: Seq<char>,
)
    ensures
        ({
            let name = spec_auto_name(provider, album_id, index, url);
            let prefix = match provider {
                Provider::Imgur => "imgur_"@,
                Provider::Reddit => "reddit_"@,
                Provider::Flickr => "flickr_"@,
                Provider::Generic => "web_"@,
            };
            text::starts_with(name, prefix)
        }),
{
    reveal_strlit("imgur_");
    reveal_strlit("reddit_");
    reveal_strlit("flickr_");
    reveal_strlit("web_");
    reveal_strlit("imgur");
    reveal_strlit("reddit");
    reveal_strlit("flickr");
    reveal_strlit("web");
    reveal_strlit("_");
    let name = spec_auto_name(provider, album_id, index, url);
    let head = provider_slug(provider) + "_"@;
    let ext = match spec_guess_ext(url) {
        Some(e) => e,
        None => "jpg"@,
    };
    assert(name =~= head + (spec_sanitize(album_id) + "_"@ + zero_pad3(text::decimal(index)) + "."@
        + ext));
    let prefix = match provider {
        Provider::Imgur => "imgur_"@,
        Provider::Reddit => "reddit_"@,
        Provider::Flickr => "flickr_"@,
        Provider::Generic => "web_"@,
    };
    assert(head =~= prefix);
    assert(name.subrange(0, head.len() as int) =~= head);
}

/// The extension of `url`, see [`spec_guess_ext`].
pub fn guess_ext_from_url(url: &str) -> (r: Option<&str>)
    ensures
        r.deep_view() == spec_guess_ext(url@),
{
    // Strip the fragment first, then the query — an input like
    // `image.avif#foo` would otherwise leave `avif#foo` in `ext`
    // and fail the alphanumeric check.
    let v = text::chars_of(url);
    let n = v.len();
    let no_frag = match text::find_char_exec(&v, '#', 0, n) {
        Some(i) => i,
        None => n,
    };
    let no_query = match text::find_char_exec(&v, '?', 0, no_frag) {
        Some(i) => i,
        None => no_frag,
    };
    let ghost path = v@.take(no_query as int);
    proof {
        assert(v@.take(n as int) =~= v@);
        assert(text::before_first(v@, '#') =~= v@.take(no_frag as int));
        assert(v@.take(no_frag as int).take(no_query as int) =~= path);
        assert(text::before_first(v@.take(no_frag as int), '?') =~= path);
    }
    let dot = match text::rfind_char_exec(&v, '.', no_query) {
        Some(d) => d,
        None => return None,
    };
    let len = no_query - (dot + 1);
    if len < 1 || len > 5 {
        return None;
    }
    let mut i = dot + 1;
    while i < no_query
        invariant
            dot + 1 <= i <= no_query <= v.len(),
            path == v@.take(no_query as int),
            path == text::before_first(text::before_first(url@, '#'), '?'),
            text::rfind_char(path, '.') == Some(dot as int),
            1 <= no_query - (dot + 1) <= 5,
            forall|k: int| dot + 1 <= k < i ==> text::is_ascii_alnum(#[trigger] v@[k]),
        decreases no_query - i,
    {
        if !text::char_is_ascii_alnum(v[i]) {
            assert(path.skip(dot + 1)[i - (dot + 1)] == v@[i as int]);
            return None;
        }
        i = i + 1;
    }
    proof {
        let ext = path.skip(dot + 1);
        assert forall|k: int| 0 <= k < ext.len() implies text::is_ascii_alnum(#[trigger] ext[k]) by {
            assert(ext[k] == v@[dot + 1 + k]);
        }
    }
    Some(url.substring_char(dot + 1, no_query))
}

/// Filename-safe copy of `input`, see [`spec_sanitize`].
pub fn sanitize(input: &str) -> (r: String)
    ensures
        r@ == spec_sanitize(input@),
{
    let v = text::chars_of(input);
    let mut out = String::new();
    let mut i: usize = 0;
    while i < v.len()
        invariant
            i <= v.len(),
            out@ == spec_sanitize(v@.take(i as int)),
        decreases v.len() - i,
    {
        let c = v[i];
        let safe = if text::char_is_ascii_alnum(c) || c == '-' {
            c
        } else {
            '_'
        };
        text::push_char(&mut out, safe);
        assert(spec_sanitize(v@.take(i + 1)) =~= spec_sanitize(v@.take(i as int)).push(
            sanitize_char(c),
        ));
        i = i + 1;
    }
    assert(v@.take(v.len() as int) =~= v@);
    out
}

} // verus!
