//! The match cascade: ten tiers from strictest to loosest, the first that
//! yields a candidate deciding the result.

use vstd::prelude::*;
use crate::normalize::{clean_title, cleaned, noise_patterns_compile, sanitize_title, sanitized};
use crate::record::{all_titles, get_all_titles, views, ExpectAnime};
use crate::similarity::{
    jaro_winkler, jaro_winkler_distance, lemma_small_score, Similarity, DEFAULT_SCALE_PER_MILLE,
};

verus! {

/// The tier that produced a match, strictest first.
#[derive(Clone, Copy, Debug, PartialEq, Eq, Structural)]
pub enum MatchMethod {
    ExactYearEpisodeRaw,
    ExactYearEpisodeNormalized,
    ExactYearRaw,
    ExactYearNormalized,
    Exact,
    ExactNormalized,
    LooseYear,
    Loose,
    LastResort,
    NullMethod,
}

/// The outcome of a successful resolution.
#[derive(Clone, Debug)]
pub struct MatchResult<T> {
    pub similarity: Similarity,
    pub method: MatchMethod,
    pub result: T,
    pub title: Option<String>,
    pub normalized: Option<String>,
    pub year: Option<i32>,
    pub episodes: Option<i32>,
}

/// The Clean form (`loose` false) or the Sanitize form (`loose` true) of a title.
pub open spec fn normal_form(s: Seq<char>, loose: bool) -> Seq<char> {
    if loose {
        sanitized(s)
    } else {
        cleaned(s)
    }
}

/// The non-empty normal forms of `ts`, in order. Sanitize yields nothing
/// when the regex engine refuses its fixed patterns.
pub open spec fn normal_titles(ts: Seq<Seq<char>>, loose: bool) -> Seq<Seq<char>>
    decreases ts.len(),
{
    if ts.len() == 0 {
        Seq::empty()
    } else {
        let rest = normal_titles(ts.drop_last(), loose);
        let f = normal_form(ts.last(), loose);
        if (loose ==> noise_patterns_compile()) && f.len() > 0 {
            rest.push(f)
        } else {
            rest
        }
    }
}

/// The title set of a record.
pub open spec fn raw_titles(e: ExpectAnime) -> Seq<Seq<char>> {
    all_titles(e.title)
}

/// The non-empty Clean forms of a record's titles.
pub open spec fn clean_titles(e: ExpectAnime) -> Seq<Seq<char>> {
    normal_titles(raw_titles(e), false)
}

/// The non-empty Sanitize forms of a record's titles.
pub open spec fn sane_titles(e: ExpectAnime) -> Seq<Seq<char>> {
    normal_titles(raw_titles(e), true)
}

/// Raw titles, or Clean forms when `normalized`.
pub open spec fn exact_forms(e: ExpectAnime, normalized: bool) -> Seq<Seq<char>> {
    if normalized {
        clean_titles(e)
    } else {
        raw_titles(e)
    }
}

/// Whether candidate `c` agrees with query `q` on the fields a tier gates on.
pub open spec fn gated(q: ExpectAnime, c: ExpectAnime, by_year: bool, by_episodes: bool) -> bool {
    &&& by_year ==> c.year == q.year
    &&& by_episodes ==> c.episodes == q.episodes
}

/// Position of the first of `qs`, from `j` on, that `ts` holds; `qs.len()` if none.
pub open spec fn first_shared(qs: Seq<Seq<char>>, ts: Seq<Seq<char>>, j: int) -> int
    decreases qs.len() - j,
{
    if j >= qs.len() {
        qs.len() as int
    } else if ts.contains(qs[j]) {
        j
    } else {
        first_shared(qs, ts, j + 1)
    }
}

/// The first candidate from position `i` on that agrees on the tier's fields
/// and shares a title with the query, and the position of that query title.
pub open spec fn first_exact(
    q: ExpectAnime,
    cands: Seq<ExpectAnime>,
    normalized: bool,
    by_year: bool,
    by_episodes: bool,
    i: int,
) -> Option<(int, int)>
    decreases cands.len() - i,
{
    if i >= cands.len() {
        None
    } else {
        let qs = exact_forms(q, normalized);
        let j = first_shared(qs, exact_forms(cands[i], normalized), 0);
        if gated(q, cands[i], by_year, by_episodes) && j < qs.len() {
            Some((i, j))
        } else {
            first_exact(q, cands, normalized, by_year, by_episodes, i + 1)
        }
    }
}

/// The score of two titles at the default prefix scale, as (numerator, denominator).
pub open spec fn score(a: Seq<char>, b: Seq<char>) -> (int, int) {
    jaro_winkler(a, b, DEFAULT_SCALE_PER_MILLE as int)
}

/// A score passes a floor `(num, den, strict)`: above it when strict, at least it otherwise.
pub open spec fn reaches(s: (int, int), floor: (int, int, bool)) -> bool {
    if floor.2 {
        s.0 * floor.1 > floor.0 * s.1
    } else {
        s.0 * floor.1 >= floor.0 * s.1
    }
}

/// A scored pick: (candidate, query title, numerator, denominator).
pub type Pick = (int, int, int, int);

/// The running best after one more scored pair: replaced only by a score that
/// passes the floor and is strictly higher, so the earliest best stays.
pub open spec fn consider(acc: Option<Pick>, i: int, j: int, s: (int, int), floor: (int, int, bool)) -> Option<Pick> {
    if reaches(s, floor) && (acc matches Some(b) ==> s.0 * b.3 > b.2 * s.1) {
        Some((i, j, s.0, s.1))
    } else {
        acc
    }
}

/// The running best after query title `qt` (position `j`) met `ts[..k]` of candidate `i`.
pub open spec fn best_among_titles(
    qt: Seq<char>,
    ts: Seq<Seq<char>>,
    i: int,
    j: int,
    acc: Option<Pick>,
    k: int,
    floor: (int, int, bool),
) -> Option<Pick>
    decreases k,
{
    if k <= 0 {
        acc
    } else {
        consider(best_among_titles(qt, ts, i, j, acc, k - 1, floor), i, j, score(qt, ts[k - 1]), floor)
    }
}

/// The running best after `qs[..j]` met every title `ts` of candidate `i`.
pub open spec fn best_among_queries(
    qs: Seq<Seq<char>>,
    ts: Seq<Seq<char>>,
    i: int,
    acc: Option<Pick>,
    j: int,
    floor: (int, int, bool),
) -> Option<Pick>
    decreases j,
{
    if j <= 0 {
        acc
    } else {
        best_among_titles(
            qs[j - 1],
            ts,
            i,
            j - 1,
            best_among_queries(qs, ts, i, acc, j - 1, floor),
            ts.len() as int,
            floor,
        )
    }
}

/// The best pick over the gated candidates among `cands[..n]`, Sanitize forms
/// scored against each other, in scan order.
pub open spec fn best_among(
    q: ExpectAnime,
    cands: Seq<ExpectAnime>,
    by_year: bool,
    n: int,
    floor: (int, int, bool),
) -> Option<Pick>
    decreases n,
{
    if n <= 0 {
        None
    } else {
        let acc = best_among(q, cands, by_year, n - 1, floor);
        if gated(q, cands[n - 1], by_year, false) {
            best_among_queries(
                sane_titles(q),
                sane_titles(cands[n - 1]),
                n - 1,
                acc,
                sane_titles(q).len() as int,
                floor,
            )
        } else {
            acc
        }
    }
}

/// Floor of the loose tiers: at least 0.8.
pub open spec fn loose_floor() -> (int, int, bool) {
    (8, 10, false)
}

/// Floor of the last-resort tier: at least 0.7.
pub open spec fn last_resort_floor() -> (int, int, bool) {
    (7, 10, false)
}

/// Floor of the best-possible scan: above 0.
pub open spec fn any_floor() -> (int, int, bool) {
    (0, 1, true)
}

/// What the best-possible tier must reach to be returned: at least 0.6.
pub open spec fn null_floor() -> (int, int, bool) {
    (6, 10, false)
}

/// The score of a pick, as (numerator, denominator).
pub open spec fn pick_score(p: Pick) -> (int, int) {
    (p.2, p.3)
}

/// The pick of an exact tier: its candidate and query title, with score 1.
pub open spec fn exact_pick(o: Option<(int, int)>) -> Pick {
    match o {
        Some((i, j)) => (i, j, 1, 1),
        None => (0, 0, 1, 1),
    }
}

/// The resolution of query `q` against `cands`: the tier that fired and its pick.
pub open spec fn cascade(q: ExpectAnime, cands: Seq<ExpectAnime>) -> Option<(MatchMethod, Pick)> {
    let n = cands.len() as int;
    let ye = q.year is Some && q.episodes is Some;
    let y = q.year is Some;
    let t1 = first_exact(q, cands, false, true, true, 0);
    let t2 = first_exact(q, cands, true, true, true, 0);
    let t3 = first_exact(q, cands, false, true, false, 0);
    let t4 = first_exact(q, cands, true, true, false, 0);
    let t5 = first_exact(q, cands, false, false, false, 0);
    let t6 = first_exact(q, cands, true, false, false, 0);
    let t7 = best_among(q, cands, true, n, loose_floor());
    let t8 = best_among(q, cands, false, n, loose_floor());
    let t9 = best_among(q, cands, false, n, last_resort_floor());
    let t10 = best_among(q, cands, false, n, any_floor());
    if n == 0 || raw_titles(q).len() == 0 || sane_titles(q).len() == 0 {
        None
    } else if ye && t1 is Some {
        Some((MatchMethod::ExactYearEpisodeRaw, exact_pick(t1)))
    } else if ye && t2 is Some {
        Some((MatchMethod::ExactYearEpisodeNormalized, exact_pick(t2)))
    } else if y && t3 is Some {
        Some((MatchMethod::ExactYearRaw, exact_pick(t3)))
    } else if y && t4 is Some {
        Some((MatchMethod::ExactYearNormalized, exact_pick(t4)))
    } else if t5 is Some {
        Some((MatchMethod::Exact, exact_pick(t5)))
    } else if t6 is Some {
        Some((MatchMethod::ExactNormalized, exact_pick(t6)))
    } else if y && t7 is Some {
        Some((MatchMethod::LooseYear, t7->0))
    } else if t8 is Some {
        Some((MatchMethod::Loose, t8->0))
    } else if t9 is Some {
        Some((MatchMethod::LastResort, t9->0))
    } else if t10 is Some && reaches(pick_score(t10->0), null_floor()) {
        Some((MatchMethod::NullMethod, t10->0))
    } else {
        None
    }
}

/// Whether a method comes from a tier that compares raw titles.
pub open spec fn raw_method(m: MatchMethod) -> bool {
    m is ExactYearEpisodeRaw || m is ExactYearRaw || m is Exact
}

/// Whether a method comes from a tier that compares Clean forms.
pub open spec fn clean_method(m: MatchMethod) -> bool {
    m is ExactYearEpisodeNormalized || m is ExactYearNormalized || m is ExactNormalized
}

/// `r` reports the pick `p` of tier `m` for query `q` over `results`.
pub open spec fn reports<T: Clone>(r: MatchResult<T>, q: ExpectAnime, m: MatchMethod, p: Pick, results: Seq<T>) -> bool {
    &&& r.method == m
    &&& r.similarity.numerator == p.2
    &&& r.similarity.denominator == p.3
    &&& 0 <= p.0 < results.len()
    &&& cloned(results[p.0], r.result)
    &&& raw_method(m) ==> (r.title matches Some(t) && t@ == raw_titles(q)[p.1])
    &&& !raw_method(m) ==> r.title is None
    &&& raw_method(m) ==> r.normalized is None
    &&& clean_method(m) ==> (r.normalized matches Some(t) && t@ == clean_titles(q)[p.1])
    &&& !raw_method(m) && !clean_method(m) ==> (r.normalized matches Some(t) && t@ == sane_titles(q)[p.1])
    &&& r.year == if m is ExactYearEpisodeRaw || m is ExactYearEpisodeNormalized || m is ExactYearRaw
        || m is ExactYearNormalized || m is LooseYear { q.year } else { None }
    &&& r.episodes == if m is ExactYearEpisodeRaw || m is ExactYearEpisodeNormalized { q.episodes } else { None }
}

/// The titles of one record in the three forms the tiers compare.
struct Prepared {
    raw: Vec<String>,
    clean: Vec<String>,
    sane: Vec<String>,
    year: Option<i32>,
    episodes: Option<i32>,
}

impl Prepared {
    spec fn of(self, e: ExpectAnime) -> bool {
        &&& views(self.raw@) == raw_titles(e)
        &&& views(self.clean@) == clean_titles(e)
        &&& views(self.sane@) == sane_titles(e)
        &&& self.year == e.year
        &&& self.episodes == e.episodes
    }
}

fn prepare(e: &ExpectAnime) -> (r: Prepared)
    ensures
        r.of(*e),
{
    let raw = get_all_titles(&e.title);
    let ghost ts = raw_titles(*e);
    let mut clean: Vec<String> = Vec::new();
    let mut sane: Vec<String> = Vec::new();
    let mut i: usize = 0;
    while i < raw.len()
        invariant
            i <= raw.len(),
            views(raw@) == ts,
            views(clean@) == normal_titles(ts.take(i as int), false),
            views(sane@) == normal_titles(ts.take(i as int), true),
        decreases raw.len() - i,
    {
        assert(ts.take(i as int + 1).drop_last() =~= ts.take(i as int));
        assert(ts.take(i as int + 1).last() == raw@[i as int]@);
        let c = clean_title(Some(raw[i].as_str()));
        if let Some(c) = c {
            if !c.as_str().is_empty() {
                clean.push(c);
            }
        }
        let z = sanitize_title(Some(raw[i].as_str()));
        if let Some(z) = z {
            if !z.as_str().is_empty() {
                sane.push(z);
            }
        }
        i += 1;
    }
    assert(ts.take(i as int) =~= ts);
    Prepared { raw, clean, sane, year: e.year, episodes: e.episodes }
}

fn has_title(ts: &Vec<String>, t: &String) -> (r: bool)
    ensures
        r == views(ts@).contains(t@),
{
    let mut i: usize = 0;
    while i < ts.len()
        invariant
            i <= ts.len(),
            forall|k: int| 0 <= k < i ==> ts@[k]@ != t@,
        decreases ts.len() - i,
    {
        if ts[i] == *t {
            assert(views(ts@)[i as int] == t@);
            return true;
        }
        i += 1;
    }
    assert(!views(ts@).contains(t@)) by {
        if views(ts@).contains(t@) {
            let k = choose|k: int| 0 <= k < views(ts@).len() && views(ts@)[k] == t@;
            assert(ts@[k]@ == t@);
        }
    }
    false
}

fn same_count(a: Option<i32>, b: Option<i32>) -> (r: bool)
    ensures
        r == (a == b),
{
    match (a, b) {
        (None, None) => true,
        (Some(x), Some(y)) => x == y,
        _ => false,
    }
}

fn exact_tier(
    q: &Prepared,
    cands: &Vec<Prepared>,
    normalized: bool,
    by_year: bool,
    by_episodes: bool,
    Ghost(qe): Ghost<ExpectAnime>,
    Ghost(data): Ghost<Seq<ExpectAnime>>,
) -> (r: Option<(usize, usize)>)
    requires
        q.of(qe),
        cands.len() == data.len(),
        forall|i: int| 0 <= i < data.len() ==> cands[i].of(#[trigger] data[i]),
    ensures
        r is None <==> first_exact(qe, data, normalized, by_year, by_episodes, 0) is None,
        r matches Some((i, j)) ==> first_exact(qe, data, normalized, by_year, by_episodes, 0)
            == Some((i as int, j as int)),
        r matches Some((i, j)) ==> i < cands.len() && j < exact_forms(qe, normalized).len(),
{
    let qs = if normalized {
        &q.clean
    } else {
        &q.raw
    };
    assert(views(qs@) == exact_forms(qe, normalized));
    let mut i: usize = 0;
    while i < cands.len()
        invariant
            i <= cands.len(),
            cands.len() == data.len(),
            views(qs@) == exact_forms(qe, normalized),
            q.of(qe),
            forall|i: int| 0 <= i < data.len() ==> cands[i].of(#[trigger] data[i]),
            first_exact(qe, data, normalized, by_year, by_episodes, 0) == first_exact(
                qe,
                data,
                normalized,
                by_year,
                by_episodes,
                i as int,
            ),
        decreases cands.len() - i,
    {
        let c = &cands[i];
        assert(c.of(data[i as int]));
        let gate = (!by_year || same_count(c.year, q.year)) && (!by_episodes || same_count(
            c.episodes,
            q.episodes,
        ));
        if gate {
            let ts = if normalized {
                &c.clean
            } else {
                &c.raw
            };
            let ghost cs = exact_forms(data[i as int], normalized);
            assert(views(ts@) == cs);
            let mut j: usize = 0;
            while j < qs.len()
                invariant
                    j <= qs.len(),
                    views(qs@) == exact_forms(qe, normalized),
                    views(ts@) == cs,
                    first_shared(views(qs@), cs, 0) == first_shared(views(qs@), cs, j as int),
                    i < data.len(),
                    cands.len() == data.len(),
                    cs == exact_forms(data[i as int], normalized),
                    gated(qe, data[i as int], by_year, by_episodes),
                    first_exact(qe, data, normalized, by_year, by_episodes, 0) == first_exact(
                        qe,
                        data,
                        normalized,
                        by_year,
                        by_episodes,
                        i as int,
                    ),
                decreases qs.len() - j,
            {
                if has_title(ts, &qs[j]) {
                    assert(views(qs@)[j as int] == qs@[j as int]@);
                    assert(first_shared(views(qs@), cs, j as int) == j);
                    return Some((i, j));
                }
                j += 1;
            }
        }
        i += 1;
    }
    None
}

pub(crate) proof fn lemma_normal_titles_short(ts: Seq<Seq<char>>, loose: bool)
    ensures
        forall|k: int|
            0 <= k < normal_titles(ts, loose).len() ==> #[trigger] normal_titles(ts, loose)[k].len()
                <= 100,
    decreases ts.len(),
{
    if ts.len() > 0 {
        lemma_normal_titles_short(ts.drop_last(), loose);
        let f = normal_form(ts.last(), loose);
        assert(f.len() <= 100);
        let rest = normal_titles(ts.drop_last(), loose);
        assert(forall|k: int| 0 <= k < rest.len() ==> rest.push(f)[k] == rest[k]);
    }
}

spec fn pick_of(o: Option<(usize, usize, Similarity)>) -> Option<Pick> {
    match o {
        None => None,
        Some((i, j, s)) => Some((i as int, j as int, s.numerator as int, s.denominator as int)),
    }
}

spec fn small(o: Option<(usize, usize, Similarity)>) -> bool {
    o matches Some((i, j, s)) ==> s.numerator <= s.denominator <= 3_000_000_000
}

fn best_tier(
    q: &Prepared,
    cands: &Vec<Prepared>,
    by_year: bool,
    floor_num: u128,
    floor_den: u128,
    strict: bool,
    Ghost(qe): Ghost<ExpectAnime>,
    Ghost(data): Ghost<Seq<ExpectAnime>>,
) -> (r: Option<(usize, usize, Similarity)>)
    requires
        q.of(qe),
        cands.len() == data.len(),
        forall|i: int| 0 <= i < data.len() ==> cands[i].of(#[trigger] data[i]),
        floor_num <= 10,
        floor_den <= 10,
    ensures
        pick_of(r) == best_among(
            qe,
            data,
            by_year,
            data.len() as int,
            (floor_num as int, floor_den as int, strict),
        ),
        small(r),
        r matches Some((i, j, s)) ==> i < cands.len() && j < q.sane.len(),
{
    let ghost floor = (floor_num as int, floor_den as int, strict);
    let ghost qs = sane_titles(qe);
    proof {
        lemma_normal_titles_short(raw_titles(qe), true);
    }
    let mut best: Option<(usize, usize, Similarity)> = None;
    let mut i: usize = 0;
    while i < cands.len()
        invariant
            i <= cands.len(),
            cands.len() == data.len(),
            q.of(qe),
            qs == sane_titles(qe),
            forall|k: int| 0 <= k < qs.len() ==> #[trigger] qs[k].len() <= 100,
            forall|i: int| 0 <= i < data.len() ==> cands[i].of(#[trigger] data[i]),
            floor_num <= 10,
            floor_den <= 10,
            floor == (floor_num as int, floor_den as int, strict),
            pick_of(best) == best_among(qe, data, by_year, i as int, floor),
            small(best),
            best matches Some((a, b, s)) ==> a < cands.len() && b < q.sane.len(),
        decreases cands.len() - i,
    {
        let c = &cands[i];
        assert(c.of(data[i as int]));
        if !by_year || same_count(c.year, q.year) {
            let ghost ts = sane_titles(data[i as int]);
            proof {
                lemma_normal_titles_short(raw_titles(data[i as int]), true);
            }
            let ghost acc0 = pick_of(best);
            let mut j: usize = 0;
            while j < q.sane.len()
                invariant
                    j <= q.sane.len(),
                    i < cands.len(),
                    views(q.sane@) == qs,
                    views(c.sane@) == ts,
                    forall|k: int| 0 <= k < qs.len() ==> #[trigger] qs[k].len() <= 100,
                    forall|k: int| 0 <= k < ts.len() ==> #[trigger] ts[k].len() <= 100,
                    floor_num <= 10,
                    floor_den <= 10,
                    floor == (floor_num as int, floor_den as int, strict),
                    pick_of(best) == best_among_queries(qs, ts, i as int, acc0, j as int, floor),
                    small(best),
                    cands.len() == data.len(),
                    best matches Some((a, b, s)) ==> a < cands.len() && b < q.sane.len(),
                decreases q.sane.len() - j,
            {
                let ghost acc1 = pick_of(best);
                let qt = &q.sane[j];
                assert(qt@ == qs[j as int]);
                let mut k: usize = 0;
                while k < c.sane.len()
                    invariant
                        k <= c.sane.len(),
                        j < q.sane.len(),
                        i < cands.len(),
                        views(q.sane@) == qs,
                        qt@ == qs[j as int],
                        views(c.sane@) == ts,
                        qt@.len() <= 100,
                        forall|k: int| 0 <= k < ts.len() ==> #[trigger] ts[k].len() <= 100,
                        floor_num <= 10,
                        floor_den <= 10,
                        floor == (floor_num as int, floor_den as int, strict),
                        pick_of(best) == best_among_titles(
                            qs[j as int],
                            ts,
                            i as int,
                            j as int,
                            acc1,
                            k as int,
                            floor,
                        ),
                        small(best),
                        best matches Some((a, b, s)) ==> a < cands.len() && b < q.sane.len(),
                    decreases c.sane.len() - k,
                {
                    let ct = &c.sane[k];
                    assert(ct@ == ts[k as int]);
                    let s = jaro_winkler_distance(qt.as_str(), ct.as_str(), None);
                    proof {
                        lemma_small_score(qt@, ct@, DEFAULT_SCALE_PER_MILLE as int);
                    }
                    let n = s.numerator;
                    let d = s.denominator;
                    assert(n * floor_den <= 30_000_000_000 && floor_num * d <= 30_000_000_000)
                        by (nonlinear_arith)
                        requires n <= 3_000_000_000, d <= 3_000_000_000, floor_num <= 10, floor_den <= 10;
                    let passes = if strict {
                        n * floor_den > floor_num * d
                    } else {
                        n * floor_den >= floor_num * d
                    };
                    let higher = match best {
                        None => true,
                        Some((_, _, b)) => {
                            assert(n * b.denominator <= 9_000_000_000_000_000_000
                                && b.numerator * d <= 9_000_000_000_000_000_000) by (nonlinear_arith)
                                requires
                                    n <= 3_000_000_000,
                                    d <= 3_000_000_000,
                                    b.numerator <= 3_000_000_000,
                                    b.denominator <= 3_000_000_000;
                            n * b.denominator > b.numerator * d
                        },
                    };
                    if passes && higher {
                        best = Some((i, j, s));
                    }
                    k += 1;
                }
                j += 1;
            }
        }
        i += 1;
    }
    best
}

/// `r` is what the cascade decides for query `q` over candidates whose
/// comparable records are `data`.
pub open spec fn answers<T: Clone>(
    r: Option<MatchResult<T>>,
    q: ExpectAnime,
    data: Seq<ExpectAnime>,
    results: Seq<T>,
) -> bool {
    match cascade(q, data) {
        None => r is None,
        Some((m, p)) => r matches Some(x) && reports(x, q, m, p, results),
    }
}

fn report<T: Clone>(
    results: &[T],
    q: &Prepared,
    i: usize,
    j: usize,
    method: MatchMethod,
    similarity: Similarity,
    Ghost(qe): Ghost<ExpectAnime>,
) -> (r: MatchResult<T>)
    requires
        q.of(qe),
        i < results@.len(),
        raw_method(method) ==> j < q.raw.len(),
        clean_method(method) ==> j < q.clean.len(),
        !raw_method(method) && !clean_method(method) ==> j < q.sane.len(),
    ensures
        reports(
            r,
            qe,
            method,
            (i as int, j as int, similarity.numerator as int, similarity.denominator as int),
            results@,
        ),
{
    let (title, normalized) = match method {
        MatchMethod::ExactYearEpisodeRaw | MatchMethod::ExactYearRaw | MatchMethod::Exact => (
            Some(q.raw[j].clone()),
            None,
        ),
        MatchMethod::ExactYearEpisodeNormalized
        | MatchMethod::ExactYearNormalized
        | MatchMethod::ExactNormalized => (None, Some(q.clean[j].clone())),
        _ => (None, Some(q.sane[j].clone())),
    };
    let year = match method {
        MatchMethod::ExactYearEpisodeRaw
        | MatchMethod::ExactYearEpisodeNormalized
        | MatchMethod::ExactYearRaw
        | MatchMethod::ExactYearNormalized
        | MatchMethod::LooseYear => q.year,
        _ => None,
    };
    let episodes = match method {
        MatchMethod::ExactYearEpisodeRaw | MatchMethod::ExactYearEpisodeNormalized => q.episodes,
        _ => None,
    };
    MatchResult { similarity, method, result: results[i].clone(), title, normalized, year, episodes }
}

fn resolve<T: Clone>(
    results: &[T],
    q: &Prepared,
    cands: &Vec<Prepared>,
    Ghost(qe): Ghost<ExpectAnime>,
    Ghost(data): Ghost<Seq<ExpectAnime>>,
) -> (r: Option<MatchResult<T>>)
    requires
        q.of(qe),
        cands.len() == data.len(),
        results@.len() == data.len(),
        forall|i: int| 0 <= i < data.len() ==> cands[i].of(#[trigger] data[i]),
    ensures
        answers(r, qe, data, results@),
{
    let one = Similarity { numerator: 1, denominator: 1 };
    if cands.len() == 0 || q.raw.len() == 0 || q.sane.len() == 0 {
        return None;
    }
    let has_year = q.year.is_some();
    let has_both = has_year && q.episodes.is_some();
    if has_both {
        if let Some((i, j)) = exact_tier(q, cands, false, true, true, Ghost(qe), Ghost(data)) {
            return Some(report(results, q, i, j, MatchMethod::ExactYearEpisodeRaw, one, Ghost(qe)));
        }
        if let Some((i, j)) = exact_tier(q, cands, true, true, true, Ghost(qe), Ghost(data)) {
            return Some(
                report(results, q, i, j, MatchMethod::ExactYearEpisodeNormalized, one, Ghost(qe)),
            );
        }
    }
    if has_year {
        if let Some((i, j)) = exact_tier(q, cands, false, true, false, Ghost(qe), Ghost(data)) {
            return Some(report(results, q, i, j, MatchMethod::ExactYearRaw, one, Ghost(qe)));
        }
        if let Some((i, j)) = exact_tier(q, cands, true, true, false, Ghost(qe), Ghost(data)) {
            return Some(report(results, q, i, j, MatchMethod::ExactYearNormalized, one, Ghost(qe)));
        }
    }
    if let Some((i, j)) = exact_tier(q, cands, false, false, false, Ghost(qe), Ghost(data)) {
        return Some(report(results, q, i, j, MatchMethod::Exact, one, Ghost(qe)));
    }
    if let Some((i, j)) = exact_tier(q, cands, true, false, false, Ghost(qe), Ghost(data)) {
        return Some(report(results, q, i, j, MatchMethod::ExactNormalized, one, Ghost(qe)));
    }
    if has_year {
        if let Some((i, j, s)) = best_tier(q, cands, true, 8, 10, false, Ghost(qe), Ghost(data)) {
            return Some(report(results, q, i, j, MatchMethod::LooseYear, s, Ghost(qe)));
        }
    }
    if let Some((i, j, s)) = best_tier(q, cands, false, 8, 10, false, Ghost(qe), Ghost(data)) {
        return Some(report(results, q, i, j, MatchMethod::Loose, s, Ghost(qe)));
    }
    if let Some((i, j, s)) = best_tier(q, cands, false, 7, 10, false, Ghost(qe), Ghost(data)) {
        return Some(report(results, q, i, j, MatchMethod::LastResort, s, Ghost(qe)));
    }
    if let Some((i, j, s)) = best_tier(q, cands, false, 0, 1, true, Ghost(qe), Ghost(data)) {
        if s.numerator * 10 >= 6 * s.denominator {
            return Some(report(results, q, i, j, MatchMethod::NullMethod, s, Ghost(qe)));
        }
    }
    None
}

/// Resolves `search` against `results`, reading each candidate through
/// `get_anime_data` once, by the first of the ten tiers that yields a match.
pub fn find_best_match<T: Clone>(
    search: &ExpectAnime,
    results: &[T],
    get_anime_data: impl Fn(&T) -> &ExpectAnime,
) -> (r: Option<MatchResult<T>>)
    requires
        forall|i: int| 0 <= i < results@.len() ==> get_anime_data.requires((&results@[i],)),
    ensures
        exists|data: Seq<ExpectAnime>|
            {
                &&& data.len() == results@.len()
                &&& forall|i: int|
                    0 <= i < data.len() ==> get_anime_data.ensures(
                        (&results@[i],),
                        &#[trigger] data[i],
                    )
                &&& answers(r, *search, data, results@)
            },
{
    if results.len() == 0 {
        let ghost data = Seq::<ExpectAnime>::empty();
        assert(answers(None::<MatchResult<T>>, *search, data, results@));
        return None;
    }
    let q = prepare(search);
    let mut cands: Vec<Prepared> = Vec::new();
    let ghost mut data: Seq<ExpectAnime> = Seq::empty();
    let mut i: usize = 0;
    while i < results.len()
        invariant
            i <= results@.len(),
            cands.len() == i,
            data.len() == i,
            forall|k: int| 0 <= k < results@.len() ==> get_anime_data.requires((&results@[k],)),
            forall|k: int| 0 <= k < i ==> cands[k].of(#[trigger] data[k]),
            forall|k: int|
                0 <= k < i ==> get_anime_data.ensures((&results@[k],), &#[trigger] data[k]),
        decreases results.len() - i,
    {
        let e = get_anime_data(&results[i]);
        cands.push(prepare(e));
        proof {
            data = data.push(*e);
        }
        i += 1;
    }
    let r = resolve(results, &q, &cands, Ghost(*search), Ghost(data));
    assert(answers(r, *search, data, results@));
    r
}

} // verus!
