use lyrsync::titles::{
    clean_filename_component, parse_artist_title_query, parse_filename_for_tags,
    strip_bracketed_sections,
};

fn pair(artist: &str, title: &str) -> Option<(String, String)> {
    Some((artist.to_string(), title.to_string()))
}

fn from_name(stem: &str) -> Option<(String, String)> {
    let mut log = String::new();
    parse_filename_for_tags(stem, false, &mut log)
}

#[test]
fn bracketed_sections_are_dropped() {
    assert_eq!(strip_bracketed_sections("Creep (Acoustic Version)"), "Creep ");
    assert_eq!(strip_bracketed_sections("Creep [2011 Remaster] live"), "Creep  live");
    assert_eq!(strip_bracketed_sections("a(b[c)d]e"), "ae");
    assert_eq!(strip_bracketed_sections("a(b(c)d)e"), "ae");
}

#[test]
fn stray_brackets_are_dropped() {
    assert_eq!(strip_bracketed_sections("a)b]c"), "abc");
    assert_eq!(strip_bracketed_sections("a(b"), "a");
    assert_eq!(strip_bracketed_sections(""), "");
    assert_eq!(strip_bracketed_sections("plain"), "plain");
}

#[test]
fn components_are_cleaned() {
    assert_eq!(clean_filename_component("  The__Beatles  "), "The Beatles");
    assert_eq!(clean_filename_component("Fake\tPlastic \n Trees"), "Fake Plastic Trees");
    assert_eq!(clean_filename_component("...Title!? "), "Title");
    assert_eq!(clean_filename_component("Title (Live) [HD]"), "Title");
    assert_eq!(clean_filename_component("(all of it)"), "");
    assert_eq!(clean_filename_component("don't stop"), "don't stop");
    assert_eq!(clean_filename_component("\u{3000}Jóga\u{a0}"), "Jóga");
}

#[test]
fn cleaning_twice_is_cleaning_once() {
    for raw in ["  a__b (c) ", "-x- ", "_", "a ) b", "Ünï  cödé_!"] {
        let once = clean_filename_component(raw);
        assert_eq!(clean_filename_component(&once), once);
    }
}

#[test]
fn query_splits() {
    assert_eq!(
        parse_artist_title_query("Radiohead - Fake Plastic Trees"),
        pair("Radiohead", "Fake Plastic Trees")
    );
    assert_eq!(parse_artist_title_query("  Björk \u{2013} Jóga  "), pair("Björk", "Jóga"));
    assert_eq!(parse_artist_title_query("Björk \u{2014} Jóga"), pair("Björk", "Jóga"));
    assert_eq!(parse_artist_title_query("Björk-Jóga"), pair("Björk", "Jóga"));
}

#[test]
fn query_prefers_the_spaced_hyphen() {
    assert_eq!(parse_artist_title_query("Jay-Z - 99 Problems"), pair("Jay-Z", "99 Problems"));
    assert_eq!(
        parse_artist_title_query("A \u{2014} B \u{2013} C - D"),
        pair("A \u{2014} B \u{2013} C", "D")
    );
    assert_eq!(parse_artist_title_query("A - B - C"), pair("A", "B - C"));
}

#[test]
fn query_without_artist_or_title() {
    assert_eq!(parse_artist_title_query("Radiohead"), None);
    assert_eq!(parse_artist_title_query(""), None);
    assert_eq!(parse_artist_title_query(" - Title"), None);
    assert_eq!(parse_artist_title_query("Artist - (Live)"), None);
}

#[test]
fn query_reads_back() {
    for (artist, title) in [("Sigur Rós", "Sæglópur"), ("AC/DC", "T.N.T"), ("a", "b - c")] {
        assert_eq!(parse_artist_title_query(&format!("{} - {}", artist, title)), pair(artist, title));
    }
}

#[test]
fn file_name_with_track_number() {
    assert_eq!(from_name("01 - Artist - Title"), pair("Artist", "Title"));
    assert_eq!(from_name("01. Artist - Title"), pair("Artist", "Title"));
    assert_eq!(from_name("1-02_Artist-Title (Remix)"), pair("Artist", "Title"));
    assert_eq!(from_name("Artist - Title"), pair("Artist", "Title"));
}

#[test]
fn file_name_without_names() {
    let mut log = String::new();
    assert_eq!(parse_filename_for_tags("Untitled", true, &mut log), None);
    assert_eq!(log, "");
    assert_eq!(parse_filename_for_tags("Artist - (x)", true, &mut log), None);
    assert_eq!(log, "[DEBUG] Filename 'Artist - (x)' produced empty tags after cleanup.\n");
    let mut quiet = String::new();
    assert_eq!(parse_filename_for_tags("Artist - (x)", false, &mut quiet), None);
    assert_eq!(quiet, "");
}
