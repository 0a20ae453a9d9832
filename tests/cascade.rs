use anime_match::cascade::{find_best_match, MatchMethod};
use anime_match::record::{get_all_titles, AnimeTitle, ExpectAnime};

fn entry(id: i64, en: &str, ro: &str, na: &str, up: &str, year: i32, episodes: i32) -> ExpectAnime {
    ExpectAnime {
        id: Some(serde_json::Value::from(id)),
        title: Some(AnimeTitle {
            english: Some(en.to_string()),
            romaji: Some(ro.to_string()),
            native: Some(na.to_string()),
            user_preferred: Some(up.to_string()),
        }),
        year: Some(year),
        episodes: Some(episodes),
    }
}

fn catalog() -> Vec<ExpectAnime> {
    vec![
        entry(1, "Attack on Titan", "Shingeki no Kyojin", "進撃の巨人", "Shingeki no Kyojin", 2013, 25),
        entry(2, "Demon Slayer: Kimetsu no Yaiba", "Kimetsu no Yaiba", "鬼滅の刃", "Kimetsu no Yaiba", 2019, 26),
        entry(3, "My Hero Academia Season 2", "Boku no Hero Academia 2nd Season", "僕のヒーローアカデミア 第2期", "Boku no Hero Academia 2nd Season", 2017, 25),
        entry(4, "Steins;Gate", "Steins;Gate", "シュタインズ・ゲート", "Steins Gate", 2011, 24),
        entry(5, "Fullmetal Alchemist: Brotherhood", "Hagane no Renkinjutsushi: Fullmetal Alchemist", "鋼の錬金術師 FULLMETAL ALCHEMIST", "FMA Brotherhood", 2009, 64),
        entry(6, "Naruto Shippuden", "Naruto: Shippuuden", "ナルト 疾風伝", "Naruto Shippuuden", 2007, 500),
        entry(7, "One Piece", "One Piece", "ワンピース", "One Piece", 1999, 1000),
        entry(8, "Bleach: Thousand-Year Blood War", "Bleach: Sennen Kessen-hen", "BLEACH 千年血戦篇", "Bleach TYBW", 2022, 13),
    ]
}

fn value(n: u128, d: u128) -> f64 {
    n as f64 / d as f64
}

#[test]
fn exact_year_and_episodes() {
    let list = catalog();
    let q = ExpectAnime::from_string_title("Attack on Titan".to_string(), Some(2013), Some(25));
    let m = find_best_match(&q, &list, |a| a).unwrap();
    assert_eq!(m.method, MatchMethod::ExactYearEpisodeRaw);
    assert_eq!(m.similarity.numerator, m.similarity.denominator);
    assert_eq!(m.title, Some("Attack on Titan".to_string()));
    assert_eq!(m.normalized, None);
    assert_eq!(m.year, Some(2013));
    assert_eq!(m.episodes, Some(25));
    assert_eq!(m.result.id, Some(serde_json::Value::from(1)));
}

#[test]
fn exact_romaji_title() {
    let list = catalog();
    let q = ExpectAnime::from_string_title("Shingeki no Kyojin".to_string(), None, None);
    let m = find_best_match(&q, &list, |a| a).unwrap();
    assert_eq!(m.method, MatchMethod::Exact);
    assert_eq!(m.similarity.numerator, m.similarity.denominator);
    assert_eq!(m.title, Some("Shingeki no Kyojin".to_string()));
    assert_eq!(m.result.id, Some(serde_json::Value::from(1)));
}

#[test]
fn loose_match_on_typo() {
    let list = catalog();
    let q = ExpectAnime::from_string_title("Shingeki no Kyojinn".to_string(), None, None);
    let m = find_best_match(&q, &list, |a| a).unwrap();
    assert_eq!(m.method, MatchMethod::Loose);
    let v = value(m.similarity.numerator, m.similarity.denominator);
    assert!((v - 0.95).abs() < 0.05);
    assert!(v >= 0.8 && v < 1.0);
    assert_eq!(m.normalized, Some("shingeki no kyojinn".to_string()));
    assert_eq!(m.title, None);
    assert_eq!(m.result.id, Some(serde_json::Value::from(1)));
}

#[test]
fn unrelated_title_falls_to_best_possible() {
    // Against "bleach thousand year blood war" the query still scores about
    // 0.635: above the 0.6 floor of the last tier, below every other floor.
    let list = catalog();
    let q = ExpectAnime::from_string_title("Completely Unrelated Show Xyz".to_string(), None, None);
    let m = find_best_match(&q, &list, |a| a).unwrap();
    assert_eq!(m.method, MatchMethod::NullMethod);
    assert_eq!((m.similarity.numerator, m.similarity.denominator), (33170000, 52200000));
    assert_eq!(m.result.id, Some(serde_json::Value::from(8)));
    assert_eq!(m.normalized, Some("completely unrelated show xyz".to_string()));
}

#[test]
fn title_below_every_floor_matches_nothing() {
    let list = catalog();
    let q = ExpectAnime::from_string_title("Zzqx".to_string(), None, None);
    assert!(find_best_match(&q, &list, |a| a).is_none());
}

#[test]
fn empty_catalog_matches_nothing() {
    let list: Vec<ExpectAnime> = Vec::new();
    let q = ExpectAnime::from_string_title("One Piece".to_string(), None, None);
    assert!(find_best_match(&q, &list, |a| a).is_none());
}

#[test]
fn query_without_titles_matches_nothing() {
    let list = catalog();
    let q = ExpectAnime { id: None, title: None, year: Some(2013), episodes: Some(25) };
    assert!(find_best_match(&q, &list, |a| a).is_none());
}

#[test]
fn stricter_tier_wins_over_earlier_candidate() {
    // The first candidate only matches on its cleaned title; the second matches
    // the raw title with year and episode count.
    let list = vec![
        entry(10, "Steins Gate!", "x", "y", "z", 1990, 1),
        entry(11, "Steins;Gate", "p", "q", "r", 2011, 24),
    ];
    let q = ExpectAnime::from_string_title("Steins;Gate".to_string(), Some(2011), Some(24));
    let m = find_best_match(&q, &list, |a| a).unwrap();
    assert_eq!(m.method, MatchMethod::ExactYearEpisodeRaw);
    assert_eq!(m.result.id, Some(serde_json::Value::from(11)));
}

#[test]
fn cleaned_title_tier() {
    let list = vec![entry(10, "Steins Gate", "x", "y", "z", 2011, 24)];
    let q = ExpectAnime::from_string_title("Steins;Gate".to_string(), Some(2011), Some(24));
    let m = find_best_match(&q, &list, |a| a).unwrap();
    assert_eq!(m.method, MatchMethod::ExactYearEpisodeNormalized);
    assert_eq!(m.normalized, Some("Steins Gate".to_string()));
    assert_eq!(m.title, None);
}

#[test]
fn year_tiers() {
    let list = vec![entry(10, "One Piece", "x", "y", "z", 1999, 1)];
    let q = ExpectAnime::from_string_title("One Piece".to_string(), Some(1999), Some(1000));
    let m = find_best_match(&q, &list, |a| a).unwrap();
    assert_eq!(m.method, MatchMethod::ExactYearRaw);
    assert_eq!(m.year, Some(1999));
    assert_eq!(m.episodes, None);
    let q = ExpectAnime::from_string_title("One-Piece".to_string(), Some(1999), None);
    let m = find_best_match(&q, &list, |a| a).unwrap();
    assert_eq!(m.method, MatchMethod::ExactYearNormalized);
}

#[test]
fn loose_year_tier() {
    let list = vec![
        entry(10, "Shingeki no Kyojin", "x", "y", "z", 2000, 1),
        entry(11, "Shingeki no Kyojim", "x", "y", "z", 2013, 1),
    ];
    let q = ExpectAnime::from_string_title("Shingeki no Kyojinn".to_string(), Some(2013), None);
    let m = find_best_match(&q, &list, |a| a).unwrap();
    assert_eq!(m.method, MatchMethod::LooseYear);
    assert_eq!(m.result.id, Some(serde_json::Value::from(11)));
    assert_eq!(m.year, Some(2013));
}

#[test]
fn accessor_reads_inside_a_wrapper_type() {
    let list: Vec<(u8, ExpectAnime)> = catalog().into_iter().map(|e| (0u8, e)).collect();
    let q = ExpectAnime::from_string_title("One Piece".to_string(), None, None);
    let m = find_best_match(&q, &list, |p| &p.1).unwrap();
    assert_eq!(m.method, MatchMethod::Exact);
    assert_eq!(m.result.1.id, Some(serde_json::Value::from(7)));
}

#[test]
fn all_titles_in_priority_order() {
    let t = Some(AnimeTitle {
        english: Some("E".to_string()),
        romaji: Some(String::new()),
        native: Some("N".to_string()),
        user_preferred: Some("U".to_string()),
    });
    assert_eq!(get_all_titles(&t), vec!["U".to_string(), "E".to_string(), "N".to_string()]);
    assert!(get_all_titles(&None).is_empty());
}

#[test]
fn query_from_flat_title() {
    let q = ExpectAnime::from_string_title("X".to_string(), Some(1), None);
    assert!(q.id.is_none());
    let t = q.title.unwrap();
    assert_eq!(t.english, Some("X".to_string()));
    assert!(t.romaji.is_none() && t.native.is_none() && t.user_preferred.is_none());
    assert_eq!(q.year, Some(1));
    assert_eq!(q.episodes, None);
}

#[test]
fn cleaned_title_without_year() {
    let list = vec![entry(10, "Naruto Season 2!", "x", "y", "z", 2000, 1)];
    let q = ExpectAnime::from_string_title("Naruto: Season 2".to_string(), None, None);
    let m = find_best_match(&q, &list, |a| a).unwrap();
    assert_eq!(m.method, MatchMethod::ExactNormalized);
    assert_eq!(m.normalized, Some("Naruto Season 2".to_string()));
    assert_eq!(m.year, None);
}

#[test]
fn sanitized_equality_is_a_loose_match() {
    let list = vec![entry(10, "Naruto 2 (Dub)", "x", "y", "z", 2000, 1)];
    let q = ExpectAnime::from_string_title("Naruto Season 2".to_string(), None, None);
    let m = find_best_match(&q, &list, |a| a).unwrap();
    assert_eq!(m.method, MatchMethod::Loose);
    assert_eq!(m.similarity.numerator, m.similarity.denominator);
    assert_eq!(m.normalized, Some("naruto 2".to_string()));
}

#[test]
fn last_resort_band() {
    let list = vec![entry(10, "abcxyzwv", "qqqq", "rrrr", "ssss", 2000, 1)];
    let q = ExpectAnime::from_string_title("abcdefgh".to_string(), None, None);
    let m = find_best_match(&q, &list, |a| a).unwrap();
    assert_eq!(m.method, MatchMethod::LastResort);
    let v = value(m.similarity.numerator, m.similarity.denominator);
    assert!((v - 0.708333).abs() < 1e-5);
}
