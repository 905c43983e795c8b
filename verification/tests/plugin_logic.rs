use vortex_mod_gallery::plugin_api::{album_id_for, bool_config_value, config_value_or};
use vortex_mod_gallery::url_matcher::Provider;

#[test]
fn album_id_for_each_provider() {
    assert_eq!(album_id_for(Provider::Imgur, "https://imgur.com/a/abcd123"), "abcd123");
    assert_eq!(
        album_id_for(Provider::Flickr, "https://www.flickr.com/photos/bob/albums/72177"),
        "72177"
    );
    assert_eq!(
        album_id_for(
            Provider::Reddit,
            "https://www.reddit.com/r/pics/comments/1abc/title/?utm_source=x#c"
        ),
        "title"
    );
    assert_eq!(
        album_id_for(Provider::Reddit, "https://www.reddit.com/r/pics/comments/1abc"),
        "1abc"
    );
    assert_eq!(album_id_for(Provider::Generic, "https://example.com/"), "page");
}

#[test]
fn album_id_for_falls_back_when_the_url_does_not_fit() {
    assert_eq!(album_id_for(Provider::Imgur, "https://example.com/"), "");
    assert_eq!(album_id_for(Provider::Flickr, "nonsense"), "");
    assert_eq!(album_id_for(Provider::Reddit, "https://example.com/"), "reddit");
}

#[test]
fn config_value_or_uses_default_only_when_empty() {
    assert_eq!(config_value_or(String::new(), "800x600"), "800x600");
    assert_eq!(config_value_or("1x1".to_string(), "800x600"), "1x1");
    assert_eq!(config_value_or(" ".to_string(), "800x600"), " ");
}

#[test]
fn bool_config_value_reads_known_spellings() {
    for v in ["true", "TRUE", "1", "Yes"] {
        assert!(bool_config_value(v, false), "{v}");
    }
    for v in ["false", "False", "0", "NO"] {
        assert!(!bool_config_value(v, true), "{v}");
    }
    assert!(bool_config_value("", true));
    assert!(!bool_config_value("maybe", false));
    assert!(bool_config_value(" true", true));
    assert!(!bool_config_value(" true", false));
}

use vortex_mod_gallery::error::PluginError;
use vortex_mod_gallery::link::ImageLink;
use vortex_mod_gallery::plugin_api::{extraction_target, finish_extraction, ExtractionTarget};

fn img(url: &str, w: Option<u32>) -> ImageLink {
    ImageLink {
        url: url.to_string(),
        width: w,
        height: None,
        title: None,
        filename: None,
    }
}

#[test]
fn extraction_target_for_each_provider() {
    assert_eq!(
        extraction_target("https://imgur.com/a/abc123").unwrap(),
        ExtractionTarget { provider: Provider::Imgur, key: "abc123".into() }
    );
    assert_eq!(
        extraction_target("https://www.reddit.com/r/pics/comments/1abc/title/?utm_source=x").unwrap(),
        ExtractionTarget {
            provider: Provider::Reddit,
            key: "https://www.reddit.com/r/pics/comments/1abc/title.json".into()
        }
    );
    assert_eq!(
        extraction_target("https://www.flickr.com/photos/bob/albums/72177").unwrap(),
        ExtractionTarget { provider: Provider::Flickr, key: "72177".into() }
    );
}

#[test]
fn extraction_target_rejects_unrecognised_urls() {
    for url in ["https://example.com/page", "ftp://imgur.com/a/abcd", "not a url"] {
        match extraction_target(url) {
            Err(PluginError::UnsupportedUrl(m)) => assert_eq!(m, url),
            other => panic!("{url}: {other:?}"),
        }
    }
}

#[test]
fn finish_extraction_uses_defaults_and_album_id() {
    let images = vec![img("https://i.imgur.com/x.png", Some(1920)), img("https://i.imgur.com/y", Some(10))];
    let resp = finish_extraction(
        Provider::Imgur,
        "https://imgur.com/a/abc123",
        images,
        String::new(),
        "",
    )
    .unwrap();
    assert_eq!(resp.kind, "gallery");
    assert_eq!(resp.images.len(), 1);
    assert_eq!(resp.images[0].filename.as_deref(), Some("imgur_abc123_000.png"));

    let images = vec![img("https://i.imgur.com/x.png", Some(1920)), img("https://i.imgur.com/y", Some(10))];
    let resp = finish_extraction(
        Provider::Generic,
        "https://example.com/gallery",
        images,
        "0x0".to_string(),
        "no",
    )
    .unwrap();
    assert_eq!(resp.provider, Provider::Generic);
    assert_eq!(resp.images.len(), 2);
    assert!(resp.images.iter().all(|i| i.filename.is_none()));

    match finish_extraction(Provider::Reddit, "x", vec![], "big".to_string(), "yes") {
        Err(PluginError::InvalidMinResolution(m)) => assert_eq!(m, "big"),
        other => panic!("unexpected {other:?}"),
    }
}

use vortex_mod_gallery::plugin_api::generic_target;

#[test]
fn generic_target_requires_http() {
    assert!(generic_target("https://example.com/gallery/page.html").is_ok());
    assert!(generic_target("http://imgur.com/a/abc").is_ok());
    for url in ["ftp://example.com/page", "not a url", "https://:80/"] {
        match generic_target(url) {
            Err(PluginError::UnsupportedUrl(m)) => assert_eq!(m, url),
            other => panic!("{url}: {other:?}"),
        }
    }
}
