//! Jaro-Winkler similarity, computed exactly as a fraction.

use vstd::prelude::*;
use crate::text::chars_of;

verus! {

/// Prefix scale used when the caller gives none: 0.1, in thousandths.
pub const DEFAULT_SCALE_PER_MILLE: u32 = 100;

/// Largest prefix scale, 0.25 in thousandths: above it a score could pass 1.
pub const MAX_SCALE_PER_MILLE: u32 = 250;

/// Longest string, in characters, that the scorer accepts.
pub const MAX_SCORED_CHARS: usize = 0xffff_ffff;

/// A similarity score in [0, 1], held exactly as `numerator / denominator`.
#[derive(Clone, Copy, Debug)]
pub struct Similarity {
    pub numerator: u128,
    pub denominator: u128,
}

impl Similarity {
    /// A score is a fraction in [0, 1] with a positive denominator.
    pub open spec fn wf(self) -> bool {
        0 < self.denominator && self.numerator <= self.denominator
    }
}

/// The prefix scale in thousandths: the default when absent, at most 0.25.
pub open spec fn clamped_scale(p: Option<u32>) -> int {
    match p {
        None => DEFAULT_SCALE_PER_MILLE as int,
        Some(x) => if x <= MAX_SCALE_PER_MILLE { x as int } else { MAX_SCALE_PER_MILLE as int },
    }
}

/// Matching window radius: half the longer length, less one, never negative.
pub open spec fn radius(a: int, b: int) -> int {
    let m = if a >= b { a } else { b };
    if m / 2 >= 1 { m / 2 - 1 } else { 0 }
}

/// First position of `s2` searched for `s1[i]`.
pub open spec fn window_start(i: int, r: int) -> int {
    if i >= r { i - r } else { 0 }
}

/// Position just past the last one of `s2` searched for `s1[i]`.
pub open spec fn window_end(i: int, r: int, n: int) -> int {
    if i + r + 1 <= n { i + r + 1 } else { n }
}

/// The first position in `[j, end)` not yet taken whose character is `c`; `end` if none.
pub open spec fn first_free(s2: Seq<char>, taken: Seq<bool>, c: char, j: int, end: int) -> int
    decreases end - j,
{
    if j >= end {
        end
    } else if !taken[j] && s2[j] == c {
        j
    } else {
        first_free(s2, taken, c, j + 1, end)
    }
}

/// The match flags of both strings once the greedy scan has passed `s1[..i]`.
pub open spec fn scan(s1: Seq<char>, s2: Seq<char>, i: nat) -> (Seq<bool>, Seq<bool>)
    decreases i,
{
    if i == 0 {
        (Seq::new(s1.len(), |k: int| false), Seq::new(s2.len(), |k: int| false))
    } else {
        let (f1, f2) = scan(s1, s2, (i - 1) as nat);
        let r = radius(s1.len() as int, s2.len() as int);
        let end = window_end(i - 1, r, s2.len() as int);
        let j = first_free(s2, f2, s1[i - 1], window_start(i - 1, r), end);
        if j < end {
            (f1.update(i - 1, true), f2.update(j, true))
        } else {
            (f1, f2)
        }
    }
}

/// The flagged characters of `s[..n]`, in order.
pub open spec fn picked(s: Seq<char>, f: Seq<bool>, n: int) -> Seq<char>
    decreases n,
{
    if n <= 0 {
        Seq::empty()
    } else if f[n - 1] {
        picked(s, f, n - 1).push(s[n - 1])
    } else {
        picked(s, f, n - 1)
    }
}

/// The number of positions below `n` where `p` and `q` differ.
pub open spec fn mismatches(p: Seq<char>, q: Seq<char>, n: int) -> int
    decreases n,
{
    if n <= 0 {
        0
    } else {
        mismatches(p, q, n - 1) + if p[n - 1] != q[n - 1] { 1int } else { 0int }
    }
}

/// Length of the common prefix from position `i` on, counting up to position 4.
pub open spec fn common_prefix(s1: Seq<char>, s2: Seq<char>, i: int) -> int
    decreases 4 - i,
{
    if i >= 4 || i >= s1.len() || i >= s2.len() || s1[i] != s2[i] {
        0
    } else {
        1 + common_prefix(s1, s2, i + 1)
    }
}

/// The Jaro-Winkler score from its parts, as (numerator, denominator):
/// `j + l * p * (1 - j)` with `j = (m/a + m/b + (m - t)/m) / 3`, `p = pn / 1000`.
pub open spec fn score_of(m: int, t: int, a: int, b: int, l: int, pn: int) -> (int, int) {
    let n0 = m * m * b + m * m * a + (m - t) * a * b;
    let d0 = 3 * a * b * m;
    (n0 * 1000 + l * pn * (d0 - n0), d0 * 1000)
}

/// The Jaro-Winkler similarity of two strings, as (numerator, denominator).
pub open spec fn jaro_winkler(s1: Seq<char>, s2: Seq<char>, pn: int) -> (int, int) {
    if s1 == s2 {
        (1, 1)
    } else if s1.len() == 0 || s2.len() == 0 {
        (0, 1)
    } else {
        let (f1, f2) = scan(s1, s2, s1.len());
        let p1 = picked(s1, f1, s1.len() as int);
        let p2 = picked(s2, f2, s2.len() as int);
        let m = p1.len() as int;
        if m == 0 {
            (0, 1)
        } else {
            score_of(m, mismatches(p1, p2, m) / 2, s1.len() as int, s2.len() as int,
                common_prefix(s1, s2, 0), pn)
        }
    }
}

proof fn lemma_first_free(s2: Seq<char>, taken: Seq<bool>, c: char, j: int, end: int)
    requires
        0 <= j <= end <= s2.len(),
        taken.len() == s2.len(),
    ensures
        j <= first_free(s2, taken, c, j, end) <= end,
        first_free(s2, taken, c, j, end) < end ==> {
            let r = first_free(s2, taken, c, j, end);
            !taken[r] && s2[r] == c
        },
    decreases end - j,
{
    if j < end && !(!taken[j] && s2[j] == c) {
        lemma_first_free(s2, taken, c, j + 1, end);
    }
}

proof fn lemma_picked_len(s: Seq<char>, f: Seq<bool>, n: int)
    requires
        0 <= n,
    ensures
        picked(s, f, n).len() <= n,
    decreases n,
{
    if n > 0 {
        lemma_picked_len(s, f, n - 1);
    }
}

proof fn lemma_picked_agree(s: Seq<char>, f: Seq<bool>, g: Seq<bool>, n: int)
    requires
        forall|k: int| 0 <= k < n ==> f[k] == g[k],
    ensures
        picked(s, f, n) == picked(s, g, n),
    decreases n,
{
    if n > 0 {
        lemma_picked_agree(s, f, g, n - 1);
    }
}

proof fn lemma_picked_update(s: Seq<char>, f: Seq<bool>, j: int, n: int)
    requires
        0 <= j < n <= f.len(),
        !f[j],
    ensures
        picked(s, f.update(j, true), n).len() == picked(s, f, n).len() + 1,
    decreases n,
{
    let g = f.update(j, true);
    if n - 1 == j {
        lemma_picked_agree(s, f, g, n - 1);
    } else {
        lemma_picked_update(s, f, j, n - 1);
    }
}

proof fn lemma_picked_prefix(s: Seq<char>, f: Seq<bool>, n1: int, n2: int)
    requires
        0 <= n1 <= n2,
    ensures
        picked(s, f, n1).len() <= picked(s, f, n2).len(),
        forall|k: int|
            0 <= k < picked(s, f, n1).len() ==> picked(s, f, n2)[k] == picked(s, f, n1)[k],
    decreases n2,
{
    if n1 < n2 {
        lemma_picked_prefix(s, f, n1, n2 - 1);
    }
}

proof fn lemma_scan(s1: Seq<char>, s2: Seq<char>, i: nat)
    requires
        i <= s1.len(),
    ensures
        scan(s1, s2, i).0.len() == s1.len(),
        scan(s1, s2, i).1.len() == s2.len(),
        forall|k: int| i <= k < s1.len() ==> !scan(s1, s2, i).0[k],
        picked(s1, scan(s1, s2, i).0, s1.len() as int).len() == picked(
            s2,
            scan(s1, s2, i).1,
            s2.len() as int,
        ).len(),
    decreases i,
{
    if i == 0 {
        let f1 = Seq::new(s1.len(), |k: int| false);
        let f2 = Seq::new(s2.len(), |k: int| false);
        lemma_picked_none(s1, f1, s1.len() as int);
        lemma_picked_none(s2, f2, s2.len() as int);
    } else {
        lemma_scan(s1, s2, (i - 1) as nat);
        let (f1, f2) = scan(s1, s2, (i - 1) as nat);
        let r = radius(s1.len() as int, s2.len() as int);
        let end = window_end(i - 1, r, s2.len() as int);
        let st = window_start(i - 1, r);
        if st <= end {
            lemma_first_free(s2, f2, s1[i - 1], st, end);
        }
        let j = first_free(s2, f2, s1[i - 1], st, end);
        if j < end {
            lemma_picked_update(s1, f1, i - 1, s1.len() as int);
            lemma_picked_update(s2, f2, j, s2.len() as int);
        }
    }
}

proof fn lemma_picked_none(s: Seq<char>, f: Seq<bool>, n: int)
    requires
        forall|k: int| 0 <= k < n ==> !f[k],
    ensures
        picked(s, f, n).len() == 0,
    decreases n,
{
    if n > 0 {
        lemma_picked_none(s, f, n - 1);
    }
}

proof fn lemma_mismatches_bound(p: Seq<char>, q: Seq<char>, n: int)
    requires
        0 <= n,
    ensures
        0 <= mismatches(p, q, n) <= n,
    decreases n,
{
    if n > 0 {
        lemma_mismatches_bound(p, q, n - 1);
    }
}

proof fn lemma_common_prefix_bound(s1: Seq<char>, s2: Seq<char>, i: int)
    requires
        0 <= i <= 4,
    ensures
        0 <= common_prefix(s1, s2, i) <= 4 - i,
    decreases 4 - i,
{
    if i < 4 && i < s1.len() && i < s2.len() && s1[i] == s2[i] {
        lemma_common_prefix_bound(s1, s2, i + 1);
    }
}

proof fn lemma_score_bounds(m: int, t: int, a: int, b: int, l: int, pn: int)
    requires
        0 < m <= a,
        m <= b,
        0 <= t <= m,
        0 <= l <= 4,
        0 <= pn <= 250,
    ensures
        0 <= score_of(m, t, a, b, l, pn).0 <= score_of(m, t, a, b, l, pn).1,
        0 < score_of(m, t, a, b, l, pn).1,
        0 <= m * m * b + m * m * a + (m - t) * a * b <= 3 * a * b * m,
{
    let n0 = m * m * b + m * m * a + (m - t) * a * b;
    let d0 = 3 * a * b * m;
    assert(m * m * b <= a * b * m) by (nonlinear_arith)
        requires 0 < m <= a, 0 < b;
    assert(m * m * a <= a * b * m) by (nonlinear_arith)
        requires 0 < m <= b, 0 < a;
    assert((m - t) * a * b <= a * b * m) by (nonlinear_arith)
        requires 0 <= m - t <= m, 0 < a, 0 < b;
    assert(0 <= (m - t) * a * b) by (nonlinear_arith)
        requires 0 <= m - t, 0 < a, 0 < b;
    assert(0 < m * m * b) by (nonlinear_arith)
        requires 0 < m, 0 < b;
    assert(0 < m * m * a) by (nonlinear_arith)
        requires 0 < m, 0 < a;
    assert(0 < d0) by (nonlinear_arith)
        requires d0 == 3 * a * b * m, 0 < m, 0 < a, 0 < b;
    let x = a * b * m;
    assert(d0 == 3 * x) by (nonlinear_arith)
        requires d0 == 3 * a * b * m, x == a * b * m;
    assert(0 <= n0 <= d0);
    assert(0 <= l * pn <= 1000) by (nonlinear_arith)
        requires 0 <= l <= 4, 0 <= pn <= 250;
    assert(0 <= l * pn * (d0 - n0) <= 1000 * (d0 - n0)) by (nonlinear_arith)
        requires 0 <= l * pn <= 1000, 0 <= d0 - n0;
}

/// Between strings of at most `MAX_TITLE_CHARS` characters the score is a
/// fraction whose denominator is at most 3 * 10^9.
pub proof fn lemma_small_score(s1: Seq<char>, s2: Seq<char>, pn: int)
    requires
        s1.len() <= 100,
        s2.len() <= 100,
        0 <= pn <= 250,
    ensures
        0 <= jaro_winkler(s1, s2, pn).0 <= jaro_winkler(s1, s2, pn).1 <= 3_000_000_000,
        0 < jaro_winkler(s1, s2, pn).1,
{
    if s1 != s2 && s1.len() > 0 && s2.len() > 0 {
        let (f1, f2) = scan(s1, s2, s1.len());
        lemma_scan(s1, s2, s1.len());
        let p1 = picked(s1, f1, s1.len() as int);
        let p2 = picked(s2, f2, s2.len() as int);
        lemma_picked_len(s1, f1, s1.len() as int);
        lemma_picked_len(s2, f2, s2.len() as int);
        let m = p1.len() as int;
        if m > 0 {
            let a = s1.len() as int;
            let b = s2.len() as int;
            lemma_mismatches_bound(p1, p2, m);
            lemma_common_prefix_bound(s1, s2, 0);
            lemma_score_bounds(m, mismatches(p1, p2, m) / 2, a, b, common_prefix(s1, s2, 0), pn);
            assert(3 * a * b * m * 1000 <= 3_000_000_000) by (nonlinear_arith)
                requires 0 < a <= 100, 0 < b <= 100, 0 < m <= 100;
        }
    }
}

fn same_chars(a: &Vec<char>, b: &Vec<char>) -> (r: bool)
    ensures
        r == (a@ == b@),
{
    if a.len() != b.len() {
        return false;
    }
    let mut i: usize = 0;
    while i < a.len()
        invariant
            i <= a.len(),
            a.len() == b.len(),
            forall|k: int| 0 <= k < i ==> a@[k] == b@[k],
        decreases a.len() - i,
    {
        if a[i] != b[i] {
            return false;
        }
        i += 1;
    }
    assert(a@ =~= b@);
    true
}

fn find_free(c2: &Vec<char>, f2: &Vec<bool>, c: char, start: usize, end: usize) -> (r: usize)
    requires
        end <= c2.len(),
        f2.len() == c2.len(),
    ensures
        r == first_free(c2@, f2@, c, start as int, end as int),
{
    let mut j: usize = start;
    if j >= end {
        return end;
    }
    while j < end && !(!f2[j] && c2[j] == c)
        invariant
            start <= j <= end,
            end <= c2.len(),
            f2.len() == c2.len(),
            first_free(c2@, f2@, c, start as int, end as int) == first_free(
                c2@,
                f2@,
                c,
                j as int,
                end as int,
            ),
        decreases end - j,
    {
        j += 1;
    }
    j
}

fn false_flags(n: usize) -> (r: Vec<bool>)
    ensures
        r@ == Seq::new(n as nat, |k: int| false),
{
    let mut out: Vec<bool> = Vec::new();
    while out.len() < n
        invariant
            out.len() <= n,
            forall|k: int| 0 <= k < out.len() ==> !out@[k],
        decreases n - out.len(),
    {
        out.push(false);
    }
    assert(out@ =~= Seq::new(n as nat, |k: int| false));
    out
}

/// Jaro-Winkler similarity of two strings, counted on characters, with a
/// prefix scale `p` in thousandths (default 100, clamped to at most 250).
/// Identical strings score 1, a non-empty string against an empty one 0.
pub fn jaro_winkler_distance(s1: &str, s2: &str, p: Option<u32>) -> (r: Similarity)
    requires
        s1@.len() <= MAX_SCORED_CHARS,
        s2@.len() <= MAX_SCORED_CHARS,
    ensures
        r.wf(),
        (r.numerator as int, r.denominator as int) == jaro_winkler(s1@, s2@, clamped_scale(p)),
        s1@ == s2@ ==> r.numerator == r.denominator,
        s1@ != s2@ && (s1@.len() == 0 || s2@.len() == 0) ==> r.numerator == 0,
{
    let pn: u32 = match p {
        None => DEFAULT_SCALE_PER_MILLE,
        Some(x) => if x <= MAX_SCALE_PER_MILLE { x } else { MAX_SCALE_PER_MILLE },
    };
    let c1 = chars_of(s1);
    let c2 = chars_of(s2);
    if same_chars(&c1, &c2) {
        return Similarity { numerator: 1, denominator: 1 };
    }
    if c1.len() == 0 || c2.len() == 0 {
        return Similarity { numerator: 0, denominator: 1 };
    }
    let ghost g1 = c1@;
    let ghost g2 = c2@;
    let n1 = c1.len();
    let n2 = c2.len();
    let longer = if n1 >= n2 { n1 } else { n2 };
    let r: usize = if longer / 2 >= 1 { longer / 2 - 1 } else { 0 };
    let mut f1 = false_flags(n1);
    let mut f2 = false_flags(n2);
    let mut i: usize = 0;
    while i < n1
        invariant
            c1@ == g1,
            c2@ == g2,
            n1 == g1.len(),
            n2 == g2.len(),
            n1 <= MAX_SCORED_CHARS,
            n2 <= MAX_SCORED_CHARS,
            r == radius(n1 as int, n2 as int),
            i <= n1,
            f1@.len() == n1,
            f2@.len() == n2,
            (f1@, f2@) == scan(g1, g2, i as nat),
        decreases n1 - i,
    {
        let start: usize = if i >= r { i - r } else { 0 };
        let end: usize = if i as u64 + r as u64 + 1 <= n2 as u64 { i + r + 1 } else { n2 };
        let c = c1[i];
        let found = find_free(&c2, &f2, c, start, end);
        assert(found == first_free(g2, f2@, c, start as int, end as int));
        if found < end {
            f1.set(i, true);
            f2.set(found, true);
        }
        i += 1;
    }
    proof {
        lemma_scan(g1, g2, n1 as nat);
    }
    let ghost p1 = picked(g1, f1@, n1 as int);
    let ghost p2 = picked(g2, f2@, n2 as int);
    let mut m: u64 = 0;
    let mut raw: u64 = 0;
    let mut k: usize = 0;
    let mut i: usize = 0;
    while i < n1
        invariant
            c1@ == g1,
            c2@ == g2,
            n1 == g1.len(),
            n2 == g2.len(),
            n1 <= MAX_SCORED_CHARS,
            f1@.len() == n1,
            f2@.len() == n2,
            p1 == picked(g1, f1@, n1 as int),
            p2 == picked(g2, f2@, n2 as int),
            p1.len() == p2.len(),
            i <= n1,
            k <= n2,
            m == picked(g1, f1@, i as int).len(),
            m == picked(g2, f2@, k as int).len(),
            raw == mismatches(p1, p2, m as int),
            raw <= m,
            m <= i,
        decreases n1 - i,
    {
        if f1[i] {
            proof {
                lemma_picked_prefix(g1, f1@, i as int + 1, n1 as int);
                lemma_picked_prefix(g2, f2@, k as int, n2 as int);
            }
            while !f2[k]
                invariant
                    k <= n2,
                    f2@.len() == n2,
                    m == picked(g2, f2@, k as int).len(),
                    m < p2.len(),
                    p2 == picked(g2, f2@, n2 as int),
                decreases n2 - k,
            {
                k += 1;
            }
            proof {
                lemma_picked_prefix(g2, f2@, k as int + 1, n2 as int);
            }
            if c1[i] != c2[k] {
                raw += 1;
            }
            k += 1;
            m += 1;
        }
        i += 1;
    }
    proof {
        lemma_picked_prefix(g1, f1@, n1 as int, n1 as int);
        lemma_picked_len(g1, f1@, n1 as int);
        lemma_picked_len(g2, f2@, n2 as int);
    }
    assert(m as int == p1.len());
    if m == 0 {
        return Similarity { numerator: 0, denominator: 1 };
    }
    let t: u64 = raw / 2;
    let mut l: u64 = 0;
    let mut q: usize = 0;
    while q < 4 && q < n1 && q < n2 && c1[q] == c2[q]
        invariant
            c1@ == g1,
            c2@ == g2,
            n1 == g1.len(),
            n2 == g2.len(),
            q <= 4,
            l == q,
            common_prefix(g1, g2, 0) == q + common_prefix(g1, g2, q as int),
        decreases 4 - q,
    {
        l += 1;
        q += 1;
    }
    proof {
        lemma_mismatches_bound(p1, p2, m as int);
        lemma_score_bounds(m as int, t as int, n1 as int, n2 as int, l as int, pn as int);
    }
    let (num, den) = score_parts(m, t, n1 as u64, n2 as u64, l, pn as u64);
    Similarity { numerator: num, denominator: den }
}

fn score_parts(m: u64, t: u64, a: u64, b: u64, l: u64, pn: u64) -> (r: (u128, u128))
    requires
        0 < m <= a <= MAX_SCORED_CHARS,
        m <= b <= MAX_SCORED_CHARS,
        t <= m,
        l <= 4,
        pn <= 250,
    ensures
        (r.0 as int, r.1 as int) == score_of(m as int, t as int, a as int, b as int, l as int, pn as int),
{
    let m = m as u128;
    let t = t as u128;
    let a = a as u128;
    let b = b as u128;
    assert((l as u128) * (pn as u128) <= 1000) by (nonlinear_arith)
        requires l <= 4, pn <= 250;
    let lp = (l as u128) * (pn as u128);
    assert(m * m <= 0xffff_ffff_ffff_ffff) by (nonlinear_arith)
        requires m <= 0xffff_ffff;
    let mm = m * m;
    assert(mm * b <= 0xffff_ffff_ffff_ffff * 0xffff_ffff) by (nonlinear_arith)
        requires mm <= 0xffff_ffff_ffff_ffff, b <= 0xffff_ffff;
    assert(mm * a <= 0xffff_ffff_ffff_ffff * 0xffff_ffff) by (nonlinear_arith)
        requires mm <= 0xffff_ffff_ffff_ffff, a <= 0xffff_ffff;
    assert(a * b <= 0xffff_ffff_ffff_ffff) by (nonlinear_arith)
        requires a <= 0xffff_ffff, b <= 0xffff_ffff;
    let ab = a * b;
    assert((m - t) * ab <= 0xffff_ffff * 0xffff_ffff_ffff_ffff) by (nonlinear_arith)
        requires m - t <= 0xffff_ffff, ab <= 0xffff_ffff_ffff_ffff;
    assert(3 * ab * m <= 3 * 0xffff_ffff_ffff_ffff * 0xffff_ffff) by (nonlinear_arith)
        requires m <= 0xffff_ffff, ab <= 0xffff_ffff_ffff_ffff;
    let n0 = mm * b + mm * a + (m - t) * ab;
    let d0 = 3 * ab * m;
    proof {
        lemma_score_bounds(m as int, t as int, a as int, b as int, l as int, pn as int);
    }
    assert(d0 == 3 * a * b * m) by (nonlinear_arith)
        requires ab == a * b, d0 == 3 * ab * m;
    assert(n0 == m * m * b + m * m * a + (m - t) * a * b) by (nonlinear_arith)
        requires ab == a * b, mm == m * m, n0 == mm * b + mm * a + (m - t) * ab;
    assert(n0 <= d0);
    assert(lp * (d0 - n0) <= 1000 * (3 * 0xffff_ffff_ffff_ffff * 0xffff_ffff)) by (nonlinear_arith)
        requires lp <= 1000, d0 - n0 <= d0, d0 <= 3 * 0xffff_ffff_ffff_ffff * 0xffff_ffff;
    assert(lp * (d0 - n0) == (l as int) * (pn as int) * (d0 - n0)) by (nonlinear_arith)
        requires lp == (l as int) * (pn as int);
    (n0 * 1000 + lp * (d0 - n0), d0 * 1000)
}

} // verus!
