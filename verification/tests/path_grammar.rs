//! Differential checks: the path shapes the matcher accepts are exactly
//! those that the patterns below, run by the `regex` crate, accept, and
//! they capture the same segments.

use regex::Regex;
use vortex_mod_gallery::url_matcher::{
    classify_url, extract_flickr_album_id, extract_imgur_id, Provider,
};

const IMGUR: &str = r"^/(?:a|gallery)/([A-Za-z0-9]+)(?:$|/)";
const REDDIT: &str = r"^/r/[A-Za-z0-9_]+/comments/[A-Za-z0-9]+(?:$|/)";
const FLICKR: &str = r"^/photos/([^/]+)/albums/(\d+)(?:$|/)";

fn paths() -> Vec<String> {
    let atoms = [
        "", "/", "a", "gallery", "r", "comments", "photos", "albums", "abc", "X9", "a_b", "12",
        "\u{661}\u{662}", "\u{1D7CE}", "-", "é", "x y", ".json", "_",
    ];
    let mut out = vec![String::new()];
    for a in atoms {
        for b in atoms {
            out.push(format!("/{a}/{b}"));
            out.push(format!("/{a}/{b}/"));
            for c in ["abc", "12", "a_b", "\u{661}", "9z", ""] {
                out.push(format!("/{a}/{b}/{c}"));
                out.push(format!("/{a}/{b}/albums/{c}"));
                out.push(format!("/{a}/{b}/comments/{c}/x"));
            }
        }
    }
    out.push("/photos/bob/albums/123junk".into());
    out.push("/r/pics/comments/1abcjunk-extra".into());
    out.push("/gallery/abc-typo".into());
    out
}

#[test]
fn imgur_shape_matches_the_pattern() {
    let re = Regex::new(IMGUR).unwrap();
    for p in paths() {
        let url = format!("https://imgur.com{p}");
        let expected = re.captures(p.trim_end_matches('/')).map(|c| c[1].to_string());
        assert_eq!(extract_imgur_id(&url), expected, "{p:?}");
        assert_eq!(
            classify_url(&url) == Some(Provider::Imgur),
            expected.is_some(),
            "{p:?}"
        );
    }
}

#[test]
fn reddit_shape_matches_the_pattern() {
    let re = Regex::new(REDDIT).unwrap();
    for p in paths() {
        let url = format!("https://reddit.com{p}");
        let expected = re.is_match(p.trim_end_matches('/'));
        assert_eq!(classify_url(&url) == Some(Provider::Reddit), expected, "{p:?}");
    }
}

#[test]
fn flickr_shape_matches_the_pattern() {
    let re = Regex::new(FLICKR).unwrap();
    for p in paths() {
        let url = format!("https://flickr.com{p}");
        let expected = re
            .captures(p.trim_end_matches('/'))
            .map(|c| (c[1].to_string(), c[2].to_string()));
        assert_eq!(extract_flickr_album_id(&url), expected, "{p:?}");
        assert_eq!(
            classify_url(&url) == Some(Provider::Flickr),
            expected.is_some(),
            "{p:?}"
        );
    }
}

#[test]
fn decimal_digit_class_matches_the_pattern() {
    let re = Regex::new(r"^\d$").unwrap();
    let mut c: u32 = 0;
    while c <= 0x10FFFF {
        if let Some(ch) = char::from_u32(c) {
            let url = format!("https://flickr.com/photos/u/albums/{ch}");
            let ours = extract_flickr_album_id(&url).is_some();
            assert_eq!(ours, re.is_match(&ch.to_string()), "U+{c:04X}");
        }
        c += if c < 0x20000 { 1 } else { 0x101 };
    }
}
