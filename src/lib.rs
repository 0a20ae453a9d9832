//! Resolution of a media title record against a catalog through a cascade of
//! progressively looser matching tiers.

pub mod text;
pub mod normalize;
pub mod similarity;
pub mod record;
pub mod cascade;
pub mod laws;

pub use cascade::{find_best_match, MatchMethod, MatchResult};
pub use normalize::{clean_title, sanitize_title};
pub use record::{get_all_titles, AnimeTitle, ExpectAnime};
pub use similarity::{jaro_winkler_distance, Similarity};
