//! Vortex Gallery plugin logic.
//!
//! Extracts direct image links from Imgur albums, Reddit galleries,
//! Flickr photosets, and a generic `<img>` fallback for any HTTP page.
//!
//! Implements the routing and post-processing side of the CrawlerModule
//! contract:
//! - `can_handle(url)` → `"true"` / `"false"` (recognised providers only)
//! - `extract_links(url)` → an [`ExtractLinksResponse`] with deduplicated,
//!   size-filtered and optionally auto-named [`ImageLink`] entries.

pub mod error;
pub mod filter;
pub mod link;
pub mod plugin_api;
pub mod text;
pub mod url_matcher;

use vstd::prelude::*;

use crate::error::PluginError;
use crate::link::ImageLink;
use crate::url_matcher::Provider;

verus! {

// ── IPC DTOs ──────────────────────────────────────────────────────────────────

/// What `extract_links` answers: the kind of listing, the provider that
/// produced it, and the images in order.
#[derive(Debug, PartialEq, Eq)]
pub struct ExtractLinksResponse {
    pub kind: &'static str,
    pub provider: Provider,
    pub images: Vec<ImageLink>,
}

// ── Routing helpers ──────────────────────────────────────────────────────────

/// `"true"` or `"false"`.
pub open spec fn bool_text(b: bool) -> Seq<char> {
    if b {
        "true"@
    } else {
        "false"@
    }
}

/// Returns `"true"` if the URL maps to a *recognised* provider. The
/// generic fallback is **not** reported as handleable — that would
/// amount to claiming ownership of every HTTP(S) page on the internet,
/// which would break other plugin ranking heuristics.
pub fn handle_can_handle(url: &str) -> (r: String)
    ensures
        r@ == bool_text(url_matcher::is_recognised(url_matcher::spec_classify_url(url@))),
{
    bool_to_string(url_matcher::is_recognised_provider(url))
}

/// Every recognised provider is a multi-image collection, so a URL
/// supports playlists exactly when it can be handled.
pub fn handle_supports_playlist(url: &str) -> (r: String)
    ensures
        r@ == bool_text(url_matcher::is_recognised(url_matcher::spec_classify_url(url@))),
{
    handle_can_handle(url)
}

pub fn bool_to_string(b: bool) -> (r: String)
    ensures
        r@ == bool_text(b),
{
    if b {
        "true".to_owned()
    } else {
        "false".to_owned()
    }
}

/// The recognised provider of `url`, or `UnsupportedUrl(url)` for the
/// generic fallback and for anything that is not an http(s) URL.
pub fn ensure_recognised_url(url: &str) -> (r: Result<Provider, PluginError>)
    ensures
        url_matcher::is_recognised(url_matcher::spec_classify_url(url@)) ==> r == Ok::<
            Provider,
            PluginError,
        >(url_matcher::spec_classify_url(url@)->0),
        !url_matcher::is_recognised(url_matcher::spec_classify_url(url@)) ==> (r matches Err(
            PluginError::UnsupportedUrl(m),
        ) && m@ == url@),
{
    match url_matcher::classify_url(url) {
        Some(Provider::Imgur) => Ok(Provider::Imgur),
        Some(Provider::Reddit) => Ok(Provider::Reddit),
        Some(Provider::Flickr) => Ok(Provider::Flickr),
        _ => Err(PluginError::UnsupportedUrl(url.to_owned())),
    }
}

// ── Response building ────────────────────────────────────────────────────────

/// `out` is `inp` with an auto-generated filename attached to every image:
/// the i-th image (counting from 0) is named by its position and URL.
pub open spec fn named_links(
    out: Seq<ImageLink>,
    inp: Seq<ImageLink>,
    provider: Provider,
    album_id: Seq<char>,
) -> bool {
    &&& out.len() == inp.len()
    &&& forall|i: int|
        #![trigger out[i]]
        0 <= i < inp.len() ==> {
            &&& out[i].url == inp[i].url
            &&& out[i].width == inp[i].width
            &&& out[i].height == inp[i].height
            &&& out[i].title == inp[i].title
            &&& out[i].filename matches Some(f) && f@ == filter::spec_auto_name(
                provider,
                album_id,
                i as nat,
                inp[i].url@,
            )
        }
}

/// The images that survive post-processing: deduplicated by URL, then
/// filtered by the minimum resolution.
pub open spec fn kept_links(images: Seq<ImageLink>, min_w: u32, min_h: u32) -> Seq<ImageLink> {
    filter::spec_filter_by_min_resolution(filter::spec_dedupe_links(images), min_w, min_h)
}

/// A post-processed listing never names the same image URL twice.
pub proof fn lemma_kept_links_urls_distinct(images: Seq<ImageLink>, min_w: u32, min_h: u32)
    ensures
        ({
            let out = kept_links(images, min_w, min_h);
            forall|i: int, j: int|
                0 <= i < j < out.len() ==> (#[trigger] out[i]).url@ != (#[trigger] out[j]).url@
        }),
{
    filter::lemma_dedupe_urls_distinct(images);
    filter::lemma_filter_keeps_urls_distinct(filter::spec_dedupe_links(images), min_w, min_h);
}

/// What post-processing answers: `InvalidMinResolution` carrying the
/// setting when it does not parse; otherwise a `gallery` response of the
/// provider holding the kept images, auto-named when that is enabled.
pub open spec fn finalized(
    r: Result<ExtractLinksResponse, PluginError>,
    provider: Provider,
    album_id: Seq<char>,
    images: Seq<ImageLink>,
    min_resolution: Seq<char>,
    auto_name_enabled: bool,
) -> bool {
    match filter::spec_parse_min_resolution(min_resolution) {
        None => r matches Err(PluginError::InvalidMinResolution(m)) && m@ == min_resolution,
        Some((w, h)) => r matches Ok(resp) && {
            &&& resp.kind@ == "gallery"@
            &&& resp.provider == provider
            &&& if auto_name_enabled {
                named_links(resp.images@, kept_links(images, w, h), provider, album_id)
            } else {
                resp.images@ == kept_links(images, w, h)
            }
        },
    }
}

/// Auto-naming changes nothing but the filenames: post-processing the same
/// images with and without it gives lists of the same length whose images
/// agree, position by position, in URL, width, height and title; with it
/// every image has a filename, without it every image keeps its own.
pub proof fn lemma_auto_naming_only_sets_filenames(
    named: Result<ExtractLinksResponse, PluginError>,
    plain: Result<ExtractLinksResponse, PluginError>,
    provider: Provider,
    album_id: Seq<char>,
    images: Seq<ImageLink>,
    min_resolution: Seq<char>,
)
    requires
        finalized(named, provider, album_id, images, min_resolution, true),
        finalized(plain, provider, album_id, images, min_resolution, false),
        filter::spec_parse_min_resolution(min_resolution) is Some,
    ensures
        named is Ok && plain is Ok,
        ({
            let a = named->Ok_0.images@;
            let b = plain->Ok_0.images@;
            &&& a.len() == b.len()
            &&& forall|i: int|
                0 <= i < a.len() ==> {
                    &&& (#[trigger] a[i]).url == b[i].url
                    &&& a[i].width == b[i].width
                    &&& a[i].height == b[i].height
                    &&& a[i].title == b[i].title
                    &&& a[i].filename is Some
                }
        }),
{
}

/// Post-processing with a minimum resolution `w×h` answers a gallery in
/// which every known width is at least `w` and every known height at least
/// `h`, whatever the auto-naming setting.
pub proof fn lemma_finalized_respects_minimum(
    r: Result<ExtractLinksResponse, PluginError>,
    provider: Provider,
    album_id: Seq<char>,
    images: Seq<ImageLink>,
    min_resolution: Seq<char>,
    auto_name_enabled: bool,
    w: u32,
    h: u32,
)
    requires
        finalized(r, provider, album_id, images, min_resolution, auto_name_enabled),
        filter::spec_parse_min_resolution(min_resolution) == Some((w, h)),
    ensures
        r is Ok,
        forall|i: int|
            0 <= i < r->Ok_0.images@.len() ==> {
                &&& ((#[trigger] r->Ok_0.images@[i]).width matches Some(x) ==> x >= w)
                &&& (r->Ok_0.images@[i].height matches Some(y) ==> y >= h)
            },
{
    let kept = kept_links(images, w, h);
    filter::lemma_filter_policy(filter::spec_dedupe_links(images), w, h);
    let out = r->Ok_0.images@;
    assert forall|i: int| 0 <= i < out.len() implies {
        &&& ((#[trigger] out[i]).width matches Some(x) ==> x >= w)
        &&& (out[i].height matches Some(y) ==> y >= h)
    } by {
        assert(kept[i].width == out[i].width && kept[i].height == out[i].height);
    }
}

/// Post-process raw provider images: dedupe, filter by minimum
/// resolution, then optionally attach auto-generated filenames.
pub fn finalize_links(
    provider: Provider,
    album_id: &str,
    images: Vec<ImageLink>,
    min_resolution: &str,
    auto_name_enabled: bool,
) -> (r: Result<ExtractLinksResponse, PluginError>)
    ensures
        finalized(r, provider, album_id@, images@, min_resolution@, auto_name_enabled),
{
    let (min_w, min_h) = match filter::parse_min_resolution(min_resolution) {
        Ok(wh) => wh,
        Err(e) => return Err(e),
    };
    let deduped = filter::dedupe_links(images);
    let filtered = filter::filter_by_min_resolution(deduped, min_w, min_h);

    let images: Vec<ImageLink> = if auto_name_enabled {
        let total = filtered.len();
        let ghost kept = filtered@;
        let mut named: Vec<ImageLink> = Vec::new();
        let mut idx: usize = 0;
        for link in it: filtered.into_iter()
            invariant
                it.seq() == kept,
                kept.len() == total,
                idx == it.index(),
                named_links(named@, kept.take(idx as int), provider, album_id@),
        {
            let mut link = link;
            let name = filter::auto_name(provider, album_id, idx, link.url.as_str());
            link.filename = Some(name);
            named.push(link);
            idx = idx + 1;
        }
        proof {
            assert(kept.take(kept.len() as int) =~= kept);
        }
        named
    } else {
        filtered
    };

    let kind = "gallery";
    Ok(ExtractLinksResponse { kind, provider, images })
}

} // verus!
