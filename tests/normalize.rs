use anime_match::normalize::{clean_title, sanitize_title};

#[test]
fn clean_none_stays_none() {
    assert_eq!(clean_title(None), None);
}

#[test]
fn clean_folds_punctuation_and_spaces() {
    assert_eq!(clean_title(Some("  Steins;Gate:  0 ")), Some("Steins Gate 0".to_string()));
}

#[test]
fn clean_applies_compatibility_forms() {
    assert_eq!(clean_title(Some("ｆｕｌｌ ｍｅｔａｌ")), Some("full metal".to_string()));
}

#[test]
fn clean_caps_length_in_characters() {
    let long = "é".repeat(150);
    let c = clean_title(Some(&long)).unwrap();
    assert_eq!(c.chars().count(), 100);
}

#[test]
fn clean_empty_stays_empty() {
    assert_eq!(clean_title(Some("!!!")), Some(String::new()));
}

#[test]
fn clean_twice_is_clean_once() {
    for s in ["Attack on Titan!!", "  a\tb\nc ", "Bleach: Sennen Kessen-hen", "ﬁve"] {
        let once = clean_title(Some(s)).unwrap();
        let twice = clean_title(Some(&once)).unwrap();
        assert_eq!(once, twice);
    }
}

#[test]
fn sanitize_none_stays_none() {
    assert_eq!(sanitize_title(None), None);
}

#[test]
fn sanitize_season_forms() {
    // The bare season word goes before the numbered pattern is tried, so an
    // ordinal before it stays.
    assert_eq!(sanitize_title(Some("Naruto Season 2")), Some("naruto 2".to_string()));
    assert_eq!(sanitize_title(Some("Naruto 2nd Season")), Some("naruto 2nd".to_string()));
    assert_eq!(sanitize_title(Some("Naruto Season")), Some("naruto".to_string()));
}

#[test]
fn sanitize_lowercases_and_strips_accents() {
    assert_eq!(sanitize_title(Some("Pokémon")), Some("pokemon".to_string()));
}

#[test]
fn sanitize_unifies_spellings() {
    assert_eq!(sanitize_title(Some("Yuu Yuu Hakusho")), Some("yu yu hakusho".to_string()));
    assert_eq!(sanitize_title(Some("Ouh Yaa")), Some("oh ya".to_string()));
}

#[test]
fn sanitize_drops_format_notes() {
    // Brackets are folded to spaces before format notes go, so an aside
    // keeps its words.
    assert_eq!(sanitize_title(Some("One Piece (TV) Dubbed")), Some("one piece tv".to_string()));
    assert_eq!(sanitize_title(Some("Bleach Sub")), Some("bleach".to_string()));
    assert_eq!(sanitize_title(Some("Bleach Uncut")), Some("bleach".to_string()));
}

#[test]
fn sanitize_singularizes_chapters() {
    assert_eq!(sanitize_title(Some("Attack on Titan Final Chapters")), Some("attack on titan final".to_string()));
}
