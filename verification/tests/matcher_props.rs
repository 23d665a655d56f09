use editorial::matcher::{Candidate, find_best_album_match, is_close_length, simple_url_decode};
use editorial::allmusic::{extract_album_links, parse_review_ajax, album_search_url, join_query};
use editorial::num::{Dec, normalize_rating, Rating};

fn cand(url: &str, context: &str) -> Candidate {
    Candidate { url: url.to_string(), context: context.to_string() }
}

fn rating_is(r: &Rating, tenths: u128) -> bool {
    // r == tenths / 10, compared by cross-multiplication
    r.num * 10 == tenths * r.den
}

#[test]
fn matcher_prefers_verified_exact_match() {
    let cands = vec![
        cand("https://www.allmusic.com/album/album-name-mw0000000001", "by Other Artist"),
        cand("https://www.allmusic.com/album/album-name-2020-mw0000000002", "by The Artist"),
    ];
    // Context of the exact candidate does not verify: the matcher falls
    // back to the first exact-slug candidate regardless of artist.
    let got = find_best_album_match(&cands, "album-name", "the-artist");
    assert_eq!(got.as_deref(), Some("https://www.allmusic.com/album/album-name-mw0000000001"));

    // With the artist in the exact candidate's context, pass one wins.
    let cands2 = vec![
        cand("https://www.allmusic.com/album/album-name-mw0000000001", "by The Artist"),
        cand("https://www.allmusic.com/album/album-name-2020-mw0000000002", "by Someone"),
    ];
    let got2 = find_best_album_match(&cands2, "album-name", "the-artist");
    assert_eq!(got2.as_deref(), Some("https://www.allmusic.com/album/album-name-mw0000000001"));
}

#[test]
fn matcher_substring_pass_needs_artist_context() {
    let cands = vec![
        cand("https://www.allmusic.com/album/the-album-name-mw0000000003", "by The Artist"),
    ];
    let got = find_best_album_match(&cands, "album-name", "the-artist");
    assert_eq!(
        got.as_deref(),
        Some("https://www.allmusic.com/album/the-album-name-mw0000000003")
    );
    // Same candidate, wrong artist context, not an exact slug: nothing.
    let cands2 = vec![
        cand("https://www.allmusic.com/album/the-album-name-mw0000000003", "by Nobody"),
    ];
    assert_eq!(find_best_album_match(&cands2, "album-name", "the-artist"), None);
}

#[test]
fn length_ratio_guard_rejects_short_titles_in_long_slugs() {
    assert!(!is_close_length("baby", "plays-pretty-for-baby"));
    assert!(is_close_length("baby", "baby"));
    let cands = vec![
        cand("https://www.allmusic.com/album/plays-pretty-for-baby-mw0000000004", "by The Artist"),
    ];
    assert_eq!(find_best_album_match(&cands, "baby", "the-artist"), None);
}

#[test]
fn url_decoding_is_per_byte() {
    assert_eq!(simple_url_decode("%41bc%2D"), "Abc-");
    assert_eq!(simple_url_decode("100%"), "100%");
    assert_eq!(simple_url_decode("a%zzb"), "a%zzb");
}

#[test]
fn album_links_are_filtered_and_deduplicated() {
    let html = r#"<a href="/album/first-mw0000000001">x</a>by The Artist
        <a href="/album/first-mw0000000001">dup</a>
        <a href="/album/no-marker">skipped</a>
        <a href="/album/second-mw0000000002">y</a> trailing text to keep the scan window open"#;
    let links = extract_album_links(html);
    assert_eq!(links.len(), 2);
    assert_eq!(links[0].url, "https://www.allmusic.com/album/first-mw0000000001");
    assert!(links[0].context.contains("by The Artist"));
    assert_eq!(links[1].url, "https://www.allmusic.com/album/second-mw0000000002");
}

#[test]
fn review_fragment_yields_text_and_reviewer() {
    let html = "<h3>Album Review by Jane Doe</h3> <p>Good <i>album</i>.</p>";
    let (excerpt, reviewer) = parse_review_ajax(html);
    assert_eq!(excerpt.as_deref(), Some("Good album."));
    assert_eq!(reviewer.as_deref(), Some("Jane Doe"));
    let (e2, r2) = parse_review_ajax("<h3>No marker</h3><p>  </p>");
    assert_eq!(e2, None);
    assert_eq!(r2, None);
}

#[test]
fn rating_normalization_follows_the_scale() {
    // 8 of 10 stays 8.
    let r = normalize_rating(Dec { mant: 8, scale: 0 }, Some(Dec { mant: 10, scale: 0 })).unwrap();
    assert!(rating_is(&r, 80));
    // 80 of 100 rescales to 8.
    let r2 =
        normalize_rating(Dec { mant: 80, scale: 0 }, Some(Dec { mant: 100, scale: 0 })).unwrap();
    assert!(rating_is(&r2, 80));
    // A zero best rating is rejected.
    assert_eq!(
        normalize_rating(Dec { mant: 8, scale: 0 }, Some(Dec { mant: 0, scale: 0 })),
        None
    );
    // A result past the scale is rejected.
    assert_eq!(normalize_rating(Dec { mant: 105, scale: 1 }, None), None);
    // 7.5 with no best rating stays 7.5.
    let r3 = normalize_rating(Dec { mant: 75, scale: 1 }, None).unwrap();
    assert!(rating_is(&r3, 75));
}

#[test]
fn search_urls_are_built_from_encoded_queries() {
    assert_eq!(join_query("The Artist", "Album"), "The Artist Album");
    assert_eq!(
        album_search_url("a b"),
        "https://www.allmusic.com/search/albums/a+b"
    );
}
