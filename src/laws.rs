//! Properties of the cascade as a whole.

use vstd::prelude::*;
use crate::cascade::{
    any_floor, best_among, best_among_queries, best_among_titles, cascade, consider, first_exact,
    first_shared, gated, last_resort_floor, lemma_normal_titles_short, loose_floor, raw_titles,
    sane_titles, score, MatchMethod, Pick,
};
use crate::similarity::{lemma_small_score, DEFAULT_SCALE_PER_MILLE};
use crate::record::ExpectAnime;

verus! {

proof fn lemma_first_exact_finds(q: ExpectAnime, cands: Seq<ExpectAnime>, i: int, a: int)
    requires
        0 <= i <= a < cands.len(),
        gated(q, cands[a], true, true),
        first_shared(raw_titles(q), raw_titles(cands[a]), 0) < raw_titles(q).len(),
        forall|k: int|
            0 <= k < cands.len() && k != a ==> !(gated(q, cands[k], true, true) && first_shared(
                raw_titles(q),
                raw_titles(#[trigger] cands[k]),
                0,
            ) < raw_titles(q).len()),
    ensures
        first_exact(q, cands, false, true, true, i) matches Some((x, y)) && x == a,
    decreases a - i,
{
    if i < a {
        lemma_first_exact_finds(q, cands, i + 1, a);
    }
}

/// A candidate that meets the strictest tier (same year and episode count,
/// and a raw title in common) is returned whatever the other candidates
/// would meet in looser tiers, provided no other candidate meets that tier
/// too.
pub proof fn lemma_strictest_tier_wins(q: ExpectAnime, cands: Seq<ExpectAnime>, a: int)
    requires
        q.year is Some,
        q.episodes is Some,
        sane_titles(q).len() > 0,
        0 <= a < cands.len(),
        gated(q, cands[a], true, true),
        first_shared(raw_titles(q), raw_titles(cands[a]), 0) < raw_titles(q).len(),
        forall|k: int|
            0 <= k < cands.len() && k != a ==> !(gated(q, cands[k], true, true) && first_shared(
                raw_titles(q),
                raw_titles(#[trigger] cands[k]),
                0,
            ) < raw_titles(q).len()),
    ensures
        cascade(q, cands) matches Some((m, p)) && m == MatchMethod::ExactYearEpisodeRaw && p.0 == a,
{
    lemma_first_exact_finds(q, cands, 0, a);
}

/// With one candidate, one Sanitize form on each side, no year on the query
/// and no exact title match, a score under 0.6 yields nothing, and a score
/// of at least 0.6 but under 0.7 yields a best-possible match.
pub proof fn lemma_threshold_gate(q: ExpectAnime, c: ExpectAnime)
    requires
        q.year is None,
        sane_titles(q).len() == 1,
        sane_titles(c).len() == 1,
        first_exact(q, seq![c], false, false, false, 0) is None,
        first_exact(q, seq![c], true, false, false, 0) is None,
    ensures
        ({
            let s = score(sane_titles(q)[0], sane_titles(c)[0]);
            &&& s.0 * 10 < 6 * s.1 ==> cascade(q, seq![c]) is None
            &&& 6 * s.1 <= s.0 * 10 < 7 * s.1 ==> (cascade(q, seq![c]) matches Some((m, p))
                && m == MatchMethod::NullMethod)
        }),
{
    let cands = seq![c];
    assert(cands[0] == c);
    let qs = sane_titles(q);
    let ts = sane_titles(c);
    lemma_normal_titles_short(raw_titles(q), true);
    lemma_normal_titles_short(raw_titles(c), true);
    assert(qs[0].len() <= 100);
    assert(ts[0].len() <= 100);
    lemma_small_score(qs[0], ts[0], DEFAULT_SCALE_PER_MILLE as int);
    lemma_single_pair(q, c, loose_floor());
    lemma_single_pair(q, c, last_resort_floor());
    lemma_single_pair(q, c, any_floor());
    assert(raw_titles(q).len() > 0) by {
        if raw_titles(q).len() == 0 {
            assert(sane_titles(q).len() == 0);
        }
    }
    let s = score(qs[0], ts[0]);
    assert(cands.len() == 1);
    assert(0 < s.1);
    if s.0 * 10 < 7 * s.1 {
        assert(best_among(q, cands, false, 1, loose_floor()) is None);
        assert(best_among(q, cands, false, 1, last_resort_floor()) is None);
        if s.0 * 10 < 6 * s.1 {
            assert(cascade(q, cands) is None);
        } else {
            assert(s.0 * 1 > 0 * s.1) by (nonlinear_arith)
                requires 6 * s.1 <= s.0 * 10, 0 < s.1;
            assert(best_among(q, cands, false, 1, any_floor()) == Some((0int, 0int, s.0, s.1)));
            assert(cascade(q, cands) == Some((MatchMethod::NullMethod, (0int, 0int, s.0, s.1))));
        }
    }
}

proof fn lemma_single_pair(q: ExpectAnime, c: ExpectAnime, floor: (int, int, bool))
    requires
        sane_titles(q).len() == 1,
        sane_titles(c).len() == 1,
    ensures
        best_among(q, seq![c], false, 1, floor) == consider(
            None,
            0,
            0,
            score(sane_titles(q)[0], sane_titles(c)[0]),
            floor,
        ),
{
    let cands = seq![c];
    assert(cands[0] == c);
    let qs = sane_titles(q);
    let ts = sane_titles(c);
    assert(best_among(q, cands, false, 0, floor) == None::<Pick>);
    assert(best_among_queries(qs, ts, 0, None, 0, floor) == None::<Pick>);
    assert(best_among_titles(qs[0], ts, 0, 0, None, 0, floor) == None::<Pick>);
    assert(best_among_titles(qs[0], ts, 0, 0, None, 1, floor) == consider(
        None,
        0,
        0,
        score(qs[0], ts[0]),
        floor,
    ));
    assert(best_among_queries(qs, ts, 0, None, 1, floor) == best_among_titles(
        qs[0],
        ts,
        0,
        0,
        None,
        1,
        floor,
    ));
}

} // verus!
