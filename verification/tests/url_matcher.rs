use vortex_mod_gallery::url_matcher::{
    classify_url, extract_flickr_album_id, extract_host, extract_imgur_id,
    extract_reddit_permalink, is_recognised_provider, Provider,
};

#[test]
fn classify_url_table() {
    let cases: [(&str, Option<Provider>); 8] = [
        ("https://imgur.com/a/abcd123", Some(Provider::Imgur)),
        ("https://imgur.com/gallery/XyZ99", Some(Provider::Imgur)),
        ("https://www.reddit.com/r/pics/comments/1abc/title/", Some(Provider::Reddit)),
        ("https://old.reddit.com/r/pics/comments/1abc/", Some(Provider::Reddit)),
        (
            "https://www.flickr.com/photos/bob/albums/72177720313121212",
            Some(Provider::Flickr),
        ),
        ("https://example.com/page", Some(Provider::Generic)),
        ("ftp://example.com/page", None),
        ("not a url", None),
    ];
    for (url, expected) in cases {
        assert_eq!(classify_url(url), expected, "{url}");
    }
}

#[test]
fn classify_url_rejects_malformed_imgur_with_junk_suffix() {
    // The segment-boundary anchor rejects trailing junk.
    assert_eq!(classify_url("https://imgur.com/a/abc-typo"), Some(Provider::Generic));
}

#[test]
fn classify_url_rejects_malformed_flickr_album_suffix() {
    assert_eq!(
        classify_url("https://www.flickr.com/photos/bob/albums/123junk"),
        Some(Provider::Generic)
    );
}

#[test]
fn classify_url_rejects_malformed_reddit_permalink_suffix() {
    assert_eq!(
        classify_url("https://www.reddit.com/r/pics/comments/1abcjunk-extra"),
        Some(Provider::Generic)
    );
}

#[test]
fn classify_url_accepts_imgur_with_trailing_slash() {
    assert_eq!(classify_url("https://imgur.com/a/abcd123/"), Some(Provider::Imgur));
}

#[test]
fn classify_url_scheme_host_and_path_details() {
    // Scheme and host are case-insensitive; user info and port are ignored.
    assert_eq!(classify_url("HTTPS://IMGUR.COM/a/abc"), Some(Provider::Imgur));
    assert_eq!(classify_url("https://user:pw@imgur.com:443/a/abc"), Some(Provider::Imgur));
    // Path case matters.
    assert_eq!(classify_url("https://imgur.com/A/abc"), Some(Provider::Generic));
    // Query, fragment and repeated trailing slashes are ignored.
    assert_eq!(classify_url("https://imgur.com/a/abc///?x=1#y"), Some(Provider::Imgur));
    // Host must be one of the listed ones.
    assert_eq!(classify_url("https://evilimgur.com/a/abc"), Some(Provider::Generic));
    // Authority problems reject the URL altogether.
    assert_eq!(classify_url("https:///a/abc"), None);
    assert_eq!(classify_url("https://[::1/a/abc"), None);
    assert_eq!(classify_url("https://:80/a/abc"), None);
    assert_eq!(classify_url("https://[::1]:80/"), Some(Provider::Generic));
    // Flickr albums accept any Unicode decimal digits.
    assert_eq!(
        classify_url("https://flickr.com/photos/bob/albums/\u{661}\u{662}"),
        Some(Provider::Flickr)
    );
    assert_eq!(classify_url("https://flickr.com/photos//albums/1"), Some(Provider::Generic));
}

#[test]
fn is_recognised_provider_rejects_generic() {
    assert!(is_recognised_provider("https://imgur.com/a/abc"));
    assert!(!is_recognised_provider("https://example.com/page"));
}

#[test]
fn extract_host_handles_plain_and_ipv6() {
    // Plain host: everything before the first `:` is the host.
    assert_eq!(extract_host("example.com"), Some("example.com"));
    assert_eq!(extract_host("example.com:8080"), Some("example.com"));
    assert_eq!(extract_host("1.2.3.4:443"), Some("1.2.3.4"));
    // IPv6 literal: host is the substring between `[` and `]`, brackets included.
    assert_eq!(extract_host("[::1]"), Some("[::1]"));
    assert_eq!(extract_host("[::1]:8080"), Some("[::1]"));
    assert_eq!(extract_host("[2001:db8::1]:443"), Some("[2001:db8::1]"));
    // Malformed: lone `[` with no `]` → None.
    assert_eq!(extract_host("[::1"), None);
    // Empty authority → None.
    assert_eq!(extract_host(""), None);
}

#[test]
fn extract_host_edge_cases() {
    assert_eq!(extract_host(":8080"), None);
    assert_eq!(extract_host("[]"), Some("[]"));
    assert_eq!(extract_host("héllo:1"), Some("héllo"));
}

#[test]
fn extract_imgur_id_works() {
    assert_eq!(extract_imgur_id("https://imgur.com/a/abcd123"), Some("abcd123".into()));
    assert_eq!(
        extract_imgur_id("https://imgur.com/gallery/XyZ99?foo=bar"),
        Some("XyZ99".into())
    );
}

#[test]
fn extract_imgur_id_ignores_host_but_needs_shape() {
    assert_eq!(extract_imgur_id("https://example.com/a/zz9/x"), Some("zz9".into()));
    assert_eq!(extract_imgur_id("https://imgur.com/a/"), None);
    assert_eq!(extract_imgur_id("ftp://imgur.com/a/abc"), None);
}

#[test]
fn extract_reddit_permalink_adds_json_suffix() {
    assert_eq!(
        extract_reddit_permalink("https://www.reddit.com/r/pics/comments/1abc/title/"),
        Some("https://www.reddit.com/r/pics/comments/1abc/title.json".into())
    );
}

#[test]
fn extract_reddit_permalink_keeps_existing_json_and_checks_host() {
    assert_eq!(
        extract_reddit_permalink("https://old.reddit.com/r/pics/comments/1abc/title.json?x#y"),
        Some("https://www.reddit.com/r/pics/comments/1abc/title.json".into())
    );
    assert_eq!(
        extract_reddit_permalink("https://example.com/r/pics/comments/1abc/title/"),
        None
    );
    assert_eq!(extract_reddit_permalink("https://reddit.com/r/pics/"), None);
}

#[test]
fn extract_flickr_album_id_tuple() {
    assert_eq!(
        extract_flickr_album_id("https://www.flickr.com/photos/bob/albums/72177720313121212"),
        Some(("bob".into(), "72177720313121212".into()))
    );
}

#[test]
fn extract_flickr_album_id_edge_cases() {
    assert_eq!(
        extract_flickr_album_id("https://flickr.com/photos/a b@c/albums/9/extra?q"),
        Some(("a b@c".into(), "9".into()))
    );
    assert_eq!(extract_flickr_album_id("https://flickr.com/photos/bob/albums/x9"), None);
}

#[test]
fn recognised_provider_always_yields_an_id() {
    for url in [
        "https://imgur.com/a/abcd123",
        "https://i.imgur.com/gallery/Q/",
        "https://www.reddit.com/r/pics/comments/1abc",
        "https://m.reddit.com/r/x_y/comments/Z/extra/.json",
        "https://www.flickr.com/photos/bob/albums/72177",
    ] {
        match classify_url(url) {
            Some(Provider::Imgur) => assert!(extract_imgur_id(url).is_some(), "{url}"),
            Some(Provider::Reddit) => assert!(extract_reddit_permalink(url).is_some(), "{url}"),
            Some(Provider::Flickr) => assert!(extract_flickr_album_id(url).is_some(), "{url}"),
            other => panic!("{url}: {other:?}"),
        }
    }
}

#[test]
fn routing_ignores_query_fragment_and_trailing_slash() {
    for url in [
        "https://imgur.com/a/abcd123",
        "https://www.reddit.com/r/pics/comments/1abc/title",
        "https://www.flickr.com/photos/bob/albums/72177",
        "https://example.com/page",
        "https://imgur.com/a/abc-typo",
    ] {
        for suffix in ["?x=1", "#frag", "/", "?a#b", "#?/", "?"] {
            let longer = format!("{url}{suffix}");
            assert_eq!(classify_url(&longer), classify_url(url), "{longer}");
            assert_eq!(extract_imgur_id(&longer), extract_imgur_id(url), "{longer}");
            assert_eq!(extract_reddit_permalink(&longer), extract_reddit_permalink(url), "{longer}");
            assert_eq!(extract_flickr_album_id(&longer), extract_flickr_album_id(url), "{longer}");
        }
    }
}

#[test]
fn reddit_permalink_is_stable_when_re_extracted() {
    for url in [
        "https://www.reddit.com/r/pics/comments/1abc/title/",
        "https://old.reddit.com/r/pics/comments/1abc/title.json",
        "https://reddit.com/r/a_b/comments/x9/t/",
    ] {
        let p = extract_reddit_permalink(url).unwrap();
        assert_eq!(extract_reddit_permalink(&p), Some(p.clone()), "{url}");
        assert!(!p.ends_with(".json.json"));
    }
    // Without a segment after the id (a trailing `/` is dropped), `.json`
    // sticks to the id.
    let p = extract_reddit_permalink("https://reddit.com/r/pics/comments/1abc/").unwrap();
    assert_eq!(p, "https://www.reddit.com/r/pics/comments/1abc.json");
    assert_eq!(extract_reddit_permalink(&p), None);
}
