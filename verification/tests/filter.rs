use vortex_mod_gallery::error::PluginError;
use vortex_mod_gallery::filter::{
    auto_name, dedupe_links, filter_by_min_resolution, guess_ext_from_url, parse_min_resolution,
    sanitize,
};
use vortex_mod_gallery::link::{ImageLink, Provider};

fn link(url: &str, w: Option<u32>, h: Option<u32>) -> ImageLink {
    ImageLink {
        url: url.to_string(),
        width: w,
        height: h,
        title: None,
        filename: None,
    }
}

fn urls(links: &[ImageLink]) -> Vec<&str> {
    links.iter().map(|l| l.url.as_str()).collect()
}

#[test]
fn parse_min_resolution_happy_path() {
    assert_eq!(parse_min_resolution("800x600").unwrap(), (800, 600));
    assert_eq!(parse_min_resolution("1920X1080").unwrap(), (1920, 1080));
}

#[test]
fn parse_min_resolution_zero_returns_0x0() {
    assert_eq!(parse_min_resolution("0x0").unwrap(), (0, 0));
    assert_eq!(parse_min_resolution("").unwrap(), (0, 0));
}

#[test]
fn parse_min_resolution_invalid() {
    let err = parse_min_resolution("tall").unwrap_err();
    assert!(matches!(err, PluginError::InvalidMinResolution(_)));
}

#[test]
fn parse_min_resolution_trims_each_side_and_accepts_plus() {
    assert_eq!(parse_min_resolution("  800 x 600\t").unwrap(), (800, 600));
    assert_eq!(parse_min_resolution("+640x+480").unwrap(), (640, 480));
    assert_eq!(parse_min_resolution("\u{3000}1x2\u{a0}").unwrap(), (1, 2));
    assert_eq!(parse_min_resolution("0X0").unwrap(), (0, 0));
    assert_eq!(parse_min_resolution("   ").unwrap(), (0, 0));
    assert_eq!(parse_min_resolution("4294967295x0").unwrap(), (4294967295, 0));
}

#[test]
fn parse_min_resolution_rejects_malformed_sides() {
    for bad in [
        "4294967296x1",
        "800x",
        "x600",
        "+x600",
        "-1x600",
        "8 0x600",
        "800x600x1",
        "\u{661}x1",
    ] {
        match parse_min_resolution(bad) {
            Err(PluginError::InvalidMinResolution(m)) => assert_eq!(m, bad),
            other => panic!("{bad:?} gave {other:?}"),
        }
    }
}

#[test]
fn filter_by_min_resolution_drops_small_keeps_unknown() {
    let input = vec![
        link("a.jpg", Some(400), Some(300)),  // drop
        link("b.jpg", Some(1200), Some(800)), // keep
        link("c.jpg", None, None),            // keep (unknown)
        link("d.jpg", Some(800), Some(600)),  // keep (exact match)
    ];
    let out = filter_by_min_resolution(input, 800, 600);
    assert_eq!(urls(&out), vec!["b.jpg", "c.jpg", "d.jpg"]);
}

#[test]
fn filter_by_min_resolution_drops_known_partial_below_threshold() {
    // A firmly-known small width must drop even if height is unknown.
    let input = vec![
        link("small-w.jpg", Some(400), None), // drop (width too small)
        link("big-w.jpg", Some(1920), None),  // keep
        link("small-h.jpg", None, Some(300)), // drop (height too small)
        link("big-h.jpg", None, Some(1080)),  // keep
        link("both-none.jpg", None, None),    // keep (unknown)
    ];
    let out = filter_by_min_resolution(input, 800, 600);
    assert_eq!(urls(&out), vec!["big-w.jpg", "big-h.jpg", "both-none.jpg"]);
}

#[test]
fn filter_by_min_resolution_zero_is_noop() {
    let input = vec![link("a.jpg", Some(1), Some(1))];
    let out = filter_by_min_resolution(input, 0, 0);
    assert_eq!(out.len(), 1);
}

#[test]
fn filter_by_min_resolution_is_idempotent_on_example() {
    let input = vec![
        link("a.jpg", Some(400), Some(300)),
        link("b.jpg", None, Some(900)),
        link("c.jpg", Some(900), None),
    ];
    let once = filter_by_min_resolution(input, 800, 600);
    let twice = filter_by_min_resolution(once.clone(), 800, 600);
    assert_eq!(once, twice);
    assert_eq!(urls(&twice), vec!["b.jpg", "c.jpg"]);
}

#[test]
fn dedupe_links_preserves_first_seen_order() {
    let input = vec![
        link("a.jpg", None, None),
        link("b.jpg", None, None),
        link("a.jpg", None, None),
        link("c.jpg", None, None),
    ];
    let out = dedupe_links(input);
    assert_eq!(urls(&out), vec!["a.jpg", "b.jpg", "c.jpg"]);
}

#[test]
fn dedupe_links_keeps_the_first_copy_and_is_idempotent() {
    let input = vec![
        link("a.jpg", Some(1), None),
        link("a.jpg", Some(2), None),
        link("b.jpg", None, None),
        link("b.jpg", None, Some(3)),
    ];
    let once = dedupe_links(input);
    assert_eq!(urls(&once), vec!["a.jpg", "b.jpg"]);
    assert_eq!(once[0].width, Some(1));
    assert_eq!(once[1].height, None);
    let twice = dedupe_links(once.clone());
    assert_eq!(once, twice);
    assert!(dedupe_links(vec![]).is_empty());
}

#[test]
fn auto_name_pads_index_and_uses_extension() {
    let name = auto_name(Provider::Imgur, "abcd123", 0, "https://i.imgur.com/xyz.png");
    assert_eq!(name, "imgur_abcd123_000.png");
}

#[test]
fn auto_name_defaults_extension_when_missing() {
    let name = auto_name(Provider::Reddit, "1abc", 7, "https://preview.redd.it/noext");
    assert_eq!(name, "reddit_1abc_007.jpg");
}

#[test]
fn auto_name_sanitizes_album_id() {
    let name = auto_name(Provider::Flickr, "72177/bad id", 12, "a.jpeg");
    assert_eq!(name, "flickr_72177_bad_id_012.jpeg");
}

#[test]
fn auto_name_generic_and_wide_indices() {
    assert_eq!(auto_name(Provider::Generic, "page", 999, "x.gif"), "web_page_999.gif");
    assert_eq!(auto_name(Provider::Generic, "page", 1000, "x.gif"), "web_page_1000.gif");
    assert_eq!(auto_name(Provider::Imgur, "", 45, "x"), "imgur__045.jpg");
    assert_eq!(auto_name(Provider::Imgur, "é-1", 3, "x.toolong"), "imgur__-1_003.jpg");
}

#[test]
fn sanitize_maps_every_unsafe_character() {
    assert_eq!(sanitize("a-B_9/ ."), "a-B_9___");
    assert_eq!(sanitize("é✓x"), "__x");
    assert_eq!(sanitize(""), "");
}

#[test]
fn guess_ext_strips_query_string() {
    assert_eq!(guess_ext_from_url("https://x.com/a.webp?sig=abc"), Some("webp"));
}

#[test]
fn guess_ext_strips_fragment() {
    assert_eq!(guess_ext_from_url("https://x.com/a.avif#foo"), Some("avif"));
}

#[test]
fn guess_ext_strips_fragment_and_query() {
    assert_eq!(guess_ext_from_url("https://x.com/a.png?v=2#frag"), Some("png"));
}

#[test]
fn guess_ext_rejects_long_empty_and_symbolic_extensions() {
    assert_eq!(guess_ext_from_url("https://x.com/a.abcdef"), None);
    assert_eq!(guess_ext_from_url("https://x.com/a.abcde"), Some("abcde"));
    assert_eq!(guess_ext_from_url("https://x.com/a."), None);
    assert_eq!(guess_ext_from_url("https://x.com/noext"), None);
    assert_eq!(guess_ext_from_url("https://x.com/a.j-g"), None);
    assert_eq!(guess_ext_from_url("https://x.com/a.é"), None);
    assert_eq!(guess_ext_from_url("a.b.c"), Some("c"));
}

#[test]
fn parse_min_resolution_reads_back_what_was_written() {
    for (w, h) in [(0u32, 0u32), (0, 7), (800, 600), (1, 4294967295), (4294967295, 4294967295)] {
        assert_eq!(parse_min_resolution(&format!("{w}x{h}")).unwrap(), (w, h));
    }
}

#[test]
fn auto_names_sort_by_index_below_one_thousand() {
    let names: Vec<String> = [0usize, 5, 9, 10, 42, 99, 100, 512, 999]
        .iter()
        .map(|&i| auto_name(Provider::Imgur, "alb", i, "x.png"))
        .collect();
    let mut sorted = names.clone();
    sorted.sort();
    assert_eq!(names, sorted);
    assert!(names.iter().all(|n| n.len() == "imgur_alb_000.png".len()));
}

#[test]
fn auto_names_sort_by_index_whatever_the_extension() {
    let a = auto_name(Provider::Flickr, "alb", 9, "x.zip");
    let b = auto_name(Provider::Flickr, "alb", 10, "x.aaa");
    let c = auto_name(Provider::Flickr, "alb", 998, "noext");
    let d = auto_name(Provider::Flickr, "alb", 999, "x.a");
    assert!(a < b && b < c && c < d);
}
