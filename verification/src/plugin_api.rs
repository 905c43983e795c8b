//! The decisions behind the plugin's host-facing exports: what to fetch
//! for a URL, which album id its images are filed under, how raw
//! configuration values read, and how the fetched images are finished.
//! Talking to the host (HTTP, configuration) is left to the caller.

use vstd::prelude::*;

use crate::error::PluginError;
use crate::link::ImageLink;
use crate::text;
use crate::url_matcher;
use crate::url_matcher::Provider;
use crate::ExtractLinksResponse;

verus! {

/// The album id that auto-generated filenames of `url` are built from.
///
/// For Reddit it is taken from the *canonical* permalink, not from the
/// raw input URL, so that a `?utm_source=...` query string or a
/// `#comment` fragment cannot leak into filenames: the `.json` suffix and
/// trailing slashes are removed and the final path segment is kept.
pub open spec fn spec_album_id_for(provider: Provider, url: Seq<char>) -> Seq<char> {
    match provider {
        Provider::Imgur => match url_matcher::spec_extract_imgur_id(url) {
            Some(id) => id,
            None => Seq::empty(),
        },
        Provider::Flickr => match url_matcher::spec_extract_flickr_album_id(url) {
            Some((_user, album)) => album,
            None => Seq::empty(),
        },
        Provider::Reddit => match url_matcher::spec_extract_reddit_permalink(url) {
            Some(permalink) => text::after_last(
                text::trim_end_char(text::trim_end_seq(permalink, ".json"@), '/'),
                '/',
            ),
            None => "reddit"@,
        },
        Provider::Generic => "page"@,
    }
}

pub fn album_id_for(provider: Provider, url: &str) -> (r: String)
    ensures
        r@ == spec_album_id_for(provider, url@),
{
    match provider {
        Provider::Imgur => match url_matcher::extract_imgur_id(url) {
            Some(id) => id,
            None => String::new(),
        },
        Provider::Flickr => match url_matcher::extract_flickr_album_id(url) {
            Some((_, album)) => album,
            None => String::new(),
        },
        Provider::Reddit => match url_matcher::extract_reddit_permalink(url) {
            Some(permalink) => {
                // The permalink has already been normalised (no query, no
                // fragment, trailing `.json` appended), so stripping the
                // `.json` suffix and taking the final path segment yields
                // a clean id.
                let v = text::chars_of(permalink.as_str());
                let n = v.len();
                proof {
                    reveal_strlit(".json");
                }
                let no_json = text::trim_end_str_len(&v, ".json", n);
                let end = text::trim_end_char_len(&v, '/', no_json);
                let start = match text::rfind_char_exec(&v, '/', end) {
                    Some(i) => i + 1,
                    None => 0,
                };
                proof {
                    assert(v@.take(n as int) =~= v@);
                    assert(v@.take(no_json as int).take(end as int) =~= v@.take(end as int));
                    assert(v@.take(end as int).skip(start as int) =~= v@.subrange(
                        start as int,
                        end as int,
                    ));
                    assert(v@.take(end as int).skip(0) =~= v@.take(end as int));
                }
                text::string_from_chars(&v, start, end)
            },
            None => "reddit".to_owned(),
        },
        Provider::Generic => "page".to_owned(),
    }
}

/// A configuration value, or `default` when the host returned none.
pub fn config_value_or(value: String, default: &str) -> (r: String)
    ensures
        r@ == (if value@.len() == 0 {
            default@
        } else {
            value@
        }),
{
    if value.as_str().is_empty() {
        default.to_owned()
    } else {
        value
    }
}

/// How a boolean configuration value reads: `true`, `1`, `yes` and
/// `false`, `0`, `no` in any ASCII case; anything else falls back to
/// `default`.
pub open spec fn spec_bool_config_value(value: Seq<char>, default: bool) -> bool {
    let l = text::lower(value);
    if l == "true"@ || l == "1"@ || l == "yes"@ {
        true
    } else if l == "false"@ || l == "0"@ || l == "no"@ {
        false
    } else {
        default
    }
}

pub fn bool_config_value(value: &str, default: bool) -> (b: bool)
    ensures
        b == spec_bool_config_value(value@, default),
{
    let v = text::chars_of(value);
    let l = text::lowercase_chars_range(&v, 0, v.len());
    proof {
        assert(v@.subrange(0, v@.len() as int) =~= v@);
    }
    if text::chars_eq_str(&l, "true") || text::chars_eq_str(&l, "1") || text::chars_eq_str(
        &l,
        "yes",
    ) {
        true
    } else if text::chars_eq_str(&l, "false") || text::chars_eq_str(&l, "0")
        || text::chars_eq_str(&l, "no") {
        false
    } else {
        default
    }
}


/// What `extract_links` fetches for a recognised URL: the provider and its
/// resource key — the Imgur album id, the Reddit JSON endpoint or the
/// Flickr album id.
#[derive(Debug, PartialEq, Eq)]
pub struct ExtractionTarget {
    pub provider: Provider,
    pub key: String,
}

/// The resource key of `url` for `provider`, see [`ExtractionTarget`].
pub open spec fn spec_extraction_key(provider: Provider, url: Seq<char>) -> Option<Seq<char>> {
    match provider {
        Provider::Imgur => url_matcher::spec_extract_imgur_id(url),
        Provider::Reddit => url_matcher::spec_extract_reddit_permalink(url),
        Provider::Flickr => match url_matcher::spec_extract_flickr_album_id(url) {
            Some((_user, album)) => Some(album),
            None => None,
        },
        Provider::Generic => None,
    }
}

/// The first decision of `extract_links`: which provider a URL goes to and
/// what to fetch from it. Anything but a recognised gallery URL is
/// answered with `UnsupportedUrl(url)`.
pub fn extraction_target(url: &str) -> (r: Result<ExtractionTarget, PluginError>)
    ensures
        url_matcher::is_recognised(url_matcher::spec_classify_url(url@)) ==> (r matches Ok(t) && {
            let p = url_matcher::spec_classify_url(url@)->0;
            &&& t.provider == p
            &&& spec_extraction_key(p, url@) matches Some(k) && t.key@ == k
        }),
        !url_matcher::is_recognised(url_matcher::spec_classify_url(url@)) ==> (r matches Err(
            PluginError::UnsupportedUrl(m),
        ) && m@ == url@),
{
    let provider = match crate::ensure_recognised_url(url) {
        Ok(p) => p,
        Err(e) => return Err(e),
    };
    proof {
        url_matcher::lemma_recognised_url_has_id(url@);
    }
    let key = match provider {
        Provider::Imgur => match url_matcher::extract_imgur_id(url) {
            Some(id) => id,
            None => return Err(PluginError::UnsupportedUrl(url.to_owned())),
        },
        Provider::Reddit => match url_matcher::extract_reddit_permalink(url) {
            Some(json_url) => json_url,
            None => return Err(PluginError::UnsupportedUrl(url.to_owned())),
        },
        Provider::Flickr => match url_matcher::extract_flickr_album_id(url) {
            Some((_, album)) => album,
            None => return Err(PluginError::UnsupportedUrl(url.to_owned())),
        },
        Provider::Generic => {
            // `ensure_recognised_url` already rejected Generic; the contract
            // shows this arm cannot be reached.
            return Err(
                PluginError::UnsupportedUrl(
                    "generic HTML fallback is not wired into extract_links".to_owned(),
                ),
            );
        },
    };
    Ok(ExtractionTarget { provider, key })
}

/// The guard of `extract_generic`: the generic scraper still requires an
/// http(s) URL, and anything else is answered with `UnsupportedUrl(url)`
/// before any fetch.
pub fn generic_target(url: &str) -> (r: Result<(), PluginError>)
    ensures
        url_matcher::spec_classify_url(url@) is None <==> (r matches Err(
            PluginError::UnsupportedUrl(m),
        ) && m@ == url@),
        url_matcher::spec_classify_url(url@) is Some <==> r is Ok,
{
    if url_matcher::classify_url(url).is_none() {
        return Err(PluginError::UnsupportedUrl(url.to_owned()));
    }
    Ok(())
}

/// The minimum resolution used when the host has none configured.
pub open spec fn default_min_resolution() -> Seq<char> {
    "800x600"@
}

/// The default minimum resolution reads as 800 wide and 600 high.
pub proof fn lemma_default_min_resolution_is_800_by_600()
    ensures
        crate::filter::spec_parse_min_resolution(default_min_resolution()) == Some((800u32, 600u32)),
        crate::filter::spec_parse_min_resolution("800x600"@) == Some((800u32, 600u32)),
{
    reveal_strlit("800x600");
    reveal_strlit("x");
    reveal_with_fuel(text::decimal, 3);
    crate::filter::lemma_parse_min_resolution_roundtrip(800, 600);
    assert(text::decimal(800) =~= seq!['8', '0', '0']);
    assert(text::decimal(600) =~= seq!['6', '0', '0']);
    assert(text::decimal(800) + "x"@ + text::decimal(600) =~= "800x600"@);
}

/// The last decision of `extract_links`: post-process the images of `url`
/// with the configured settings (`800x600` and auto-naming on when the
/// host has no value), filing them under the URL's album id.
pub fn finish_extraction(
    provider: Provider,
    url: &str,
    images: Vec<ImageLink>,
    min_resolution_setting: String,
    auto_name_setting: &str,
) -> (r: Result<ExtractLinksResponse, PluginError>)
    ensures
        crate::finalized(
            r,
            provider,
            spec_album_id_for(provider, url@),
            images@,
            if min_resolution_setting@.len() == 0 {
                default_min_resolution()
            } else {
                min_resolution_setting@
            },
            spec_bool_config_value(auto_name_setting@, true),
        ),
        min_resolution_setting@.len() == 0 ==> crate::finalized(
            r,
            provider,
            spec_album_id_for(provider, url@),
            images@,
            "800x600"@,
            spec_bool_config_value(auto_name_setting@, true),
        ),
{
    let album_id = album_id_for(provider, url);
    let min_res = config_value_or(min_resolution_setting, "800x600");
    let auto_name = bool_config_value(auto_name_setting, true);
    crate::finalize_links(provider, album_id.as_str(), images, min_res.as_str(), auto_name)
}

/// The Reddit album id is a single path segment: it never holds a `/`, so
/// it cannot smuggle a directory into a generated filename.
pub proof fn lemma_reddit_album_id_is_one_segment(url: Seq<char>)
    ensures
        forall|i: int|
            0 <= i < spec_album_id_for(Provider::Reddit, url).len() ==> #[trigger] spec_album_id_for(
                Provider::Reddit,
                url,
            )[i] != '/',
{
    reveal_strlit("reddit");
    match url_matcher::spec_extract_reddit_permalink(url) {
        Some(permalink) => {
            text::lemma_after_last_has_no(
                text::trim_end_char(text::trim_end_seq(permalink, ".json"@), '/'),
                '/',
            );
        },
        None => {},
    }
}

/// Boolean settings are read case-insensitively: a value reads the same
/// as its ASCII lower-case form.
pub proof fn lemma_bool_config_value_ignores_case(value: Seq<char>, default: bool)
    ensures
        spec_bool_config_value(text::lower(value), default) == spec_bool_config_value(value, default),
{
    text::lemma_lower_idempotent(value);
}

} // verus!
