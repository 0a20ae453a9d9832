//! The record shapes that the cascade reads: a title in its language
//! variants, with an optional year and episode count.

use vstd::prelude::*;

verus! {

#[verifier::external_type_specification]
#[verifier::external_body]
pub struct ExJsonValue(serde_json::Value);

/// The known title variants of a work.
#[derive(Clone, Debug)]
pub struct AnimeTitle {
    pub english: Option<String>,
    pub romaji: Option<String>,
    pub native: Option<String>,
    pub user_preferred: Option<String>,
}

/// A record to resolve, or a catalog entry: an opaque identifier, titles,
/// release year and episode count.
#[derive(Clone, Debug)]
pub struct ExpectAnime {
    pub id: Option<serde_json::Value>,
    pub title: Option<AnimeTitle>,
    pub year: Option<i32>,
    pub episodes: Option<i32>,
}

/// The views of a sequence of strings.
pub open spec fn views(v: Seq<String>) -> Seq<Seq<char>> {
    v.map_values(|s: String| s@)
}

/// A title variant as a list of at most one non-empty title.
pub open spec fn variant(o: Option<String>) -> Seq<Seq<char>> {
    match o {
        Some(s) => if s@.len() > 0 { seq![s@] } else { Seq::empty() },
        None => Seq::empty(),
    }
}

/// The title set: user-preferred, English, romaji, native, without the
/// absent or empty ones.
pub open spec fn all_titles(t: Option<AnimeTitle>) -> Seq<Seq<char>> {
    match t {
        None => Seq::empty(),
        Some(t) => variant(t.user_preferred) + variant(t.english) + variant(t.romaji) + variant(
            t.native,
        ),
    }
}

fn push_variant(titles: &mut Vec<String>, o: &Option<String>)
    ensures
        views(final(titles)@) == views(old(titles)@) + variant(*o),
{
    if let Some(s) = o {
        if !s.as_str().is_empty() {
            titles.push(s.clone());
            assert(views(final(titles)@) =~= views(old(titles)@) + variant(*o));
            return;
        }
    }
    assert(views(final(titles)@) =~= views(old(titles)@) + variant(*o));
}

/// All non-empty titles of a record, in priority order.
pub fn get_all_titles(title: &Option<AnimeTitle>) -> (r: Vec<String>)
    ensures
        views(r@) == all_titles(*title),
{
    let mut titles: Vec<String> = Vec::new();
    match title {
        None => {
            assert(views(titles@) =~= all_titles(*title));
        },
        Some(t) => {
            assert(views(titles@) =~= Seq::<Seq<char>>::empty());
            push_variant(&mut titles, &t.user_preferred);
            push_variant(&mut titles, &t.english);
            push_variant(&mut titles, &t.romaji);
            push_variant(&mut titles, &t.native);
            assert(views(titles@) =~= all_titles(*title));
        },
    }
    titles
}

impl ExpectAnime {
    /// A record with no identifier whose only title is the English `title`.
    pub fn from_string_title(title: String, year: Option<i32>, episodes: Option<i32>) -> (r: Self)
        ensures
            r.id is None,
            r.title == Some(
                AnimeTitle { english: Some(title), romaji: None, native: None, user_preferred: None },
            ),
            r.year == year,
            r.episodes == episodes,
    {
        ExpectAnime {
            id: None,
            title: Some(
                AnimeTitle { english: Some(title), romaji: None, native: None, user_preferred: None },
            ),
            year,
            episodes,
        }
    }
}

} // verus!
