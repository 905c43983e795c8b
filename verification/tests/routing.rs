use vortex_mod_gallery::error::PluginError;
use vortex_mod_gallery::link::ImageLink;
use vortex_mod_gallery::url_matcher::Provider;
use vortex_mod_gallery::{
    bool_to_string, ensure_recognised_url, finalize_links, handle_can_handle,
    handle_supports_playlist,
};

fn sample_images() -> Vec<ImageLink> {
    vec![
        ImageLink {
            url: "https://i.imgur.com/a.jpg".into(),
            width: Some(1920),
            height: Some(1080),
            title: Some("one".into()),
            filename: None,
        },
        ImageLink {
            url: "https://i.imgur.com/a.jpg".into(), // duplicate
            width: Some(1920),
            height: Some(1080),
            title: Some("one".into()),
            filename: None,
        },
        ImageLink {
            url: "https://i.imgur.com/b.png".into(),
            width: Some(400),
            height: Some(300),
            title: Some("small".into()),
            filename: None,
        },
        ImageLink {
            url: "https://i.imgur.com/c.gif".into(),
            width: None,
            height: None,
            title: None,
            filename: None,
        },
    ]
}

#[test]
fn can_handle_true_for_imgur() {
    assert_eq!(handle_can_handle("https://imgur.com/a/abcd"), "true");
}

#[test]
fn can_handle_true_for_reddit() {
    assert_eq!(
        handle_can_handle("https://www.reddit.com/r/pics/comments/1abc/title"),
        "true"
    );
}

#[test]
fn can_handle_true_for_flickr() {
    assert_eq!(
        handle_can_handle("https://www.flickr.com/photos/bob/albums/72177"),
        "true"
    );
}

#[test]
fn can_handle_false_for_unrelated() {
    assert_eq!(handle_can_handle("https://example.com/"), "false");
}

#[test]
fn can_handle_false_for_ftp() {
    assert_eq!(handle_can_handle("ftp://imgur.com/a/abcd"), "false");
}

#[test]
fn supports_playlist_agrees_with_can_handle() {
    for url in [
        "https://imgur.com/a/abcd",
        "https://example.com/",
        "ftp://imgur.com/a/abcd",
        "https://old.reddit.com/r/pics/comments/1abc/",
        "not a url",
    ] {
        assert_eq!(handle_supports_playlist(url), handle_can_handle(url));
    }
    assert_eq!(handle_supports_playlist("https://m.flickr.com/photos/x/albums/1"), "true");
}

#[test]
fn bool_to_string_spells_both_values() {
    assert_eq!(bool_to_string(true), "true");
    assert_eq!(bool_to_string(false), "false");
}

#[test]
fn finalize_dedupes_filters_and_auto_names() {
    let resp =
        finalize_links(Provider::Imgur, "abcd", sample_images(), "800x600", true).unwrap();
    assert_eq!(resp.kind, "gallery");
    assert_eq!(resp.provider, Provider::Imgur);
    // 4 input → dedupe to 3 → filter drops 400x300 → 2 kept
    assert_eq!(resp.images.len(), 2);
    assert_eq!(resp.images[0].filename.as_deref(), Some("imgur_abcd_000.jpg"));
    assert_eq!(resp.images[1].filename.as_deref(), Some("imgur_abcd_001.gif"));
}

#[test]
fn finalize_without_auto_name_preserves_filename_none() {
    let resp = finalize_links(Provider::Imgur, "abcd", sample_images(), "0x0", false).unwrap();
    assert!(resp.images.iter().all(|img| img.filename.is_none()));
}

#[test]
fn finalize_invalid_min_resolution_errors() {
    let err = finalize_links(Provider::Imgur, "abcd", vec![], "bad", false).unwrap_err();
    assert!(matches!(err, PluginError::InvalidMinResolution(_)));
}

#[test]
fn finalize_keeps_fields_and_names_by_position() {
    let resp =
        finalize_links(Provider::Flickr, "72177", sample_images(), "0x0", true).unwrap();
    assert_eq!(resp.provider, Provider::Flickr);
    assert_eq!(resp.images.len(), 3);
    let names: Vec<_> = resp.images.iter().map(|i| i.filename.clone().unwrap()).collect();
    assert_eq!(
        names,
        vec!["flickr_72177_000.jpg", "flickr_72177_001.png", "flickr_72177_002.gif"]
    );
    assert_eq!(resp.images[1].title.as_deref(), Some("small"));
    assert_eq!(resp.images[1].width, Some(400));
    assert_eq!(resp.images[2].url, "https://i.imgur.com/c.gif");
}

#[test]
fn finalize_error_carries_the_setting() {
    match finalize_links(Provider::Reddit, "x", sample_images(), "wide", true) {
        Err(PluginError::InvalidMinResolution(m)) => assert_eq!(m, "wide"),
        other => panic!("unexpected {other:?}"),
    }
}

#[test]
fn ensure_recognised_url_rejects_generic_fallback() {
    let err = ensure_recognised_url("https://example.com/page").unwrap_err();
    assert!(matches!(err, PluginError::UnsupportedUrl(_)));
}

#[test]
fn ensure_recognised_url_accepts_each_provider() {
    assert_eq!(
        ensure_recognised_url("https://imgur.com/gallery/XyZ99").unwrap(),
        Provider::Imgur
    );
    assert_eq!(
        ensure_recognised_url("https://reddit.com/r/a_b/comments/z9").unwrap(),
        Provider::Reddit
    );
    assert_eq!(
        ensure_recognised_url("http://flickr.com/photos/u/albums/12").unwrap(),
        Provider::Flickr
    );
    match ensure_recognised_url("mailto:x@y") {
        Err(PluginError::UnsupportedUrl(m)) => assert_eq!(m, "mailto:x@y"),
        other => panic!("unexpected {other:?}"),
    }
}
