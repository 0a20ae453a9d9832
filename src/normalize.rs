//! Title normalization: the minimal `Clean` pass and the aggressive
//! `Sanitize` pass built on it.

use vstd::prelude::*;
use crate::text::{
    alnum_char, chars_of, is_alnum, is_mark, is_space, lower_of, mark_char, nfd, nfd_of, nfkc,
    nfkc_of, regex_compiles, regex_replace_all, regex_replaced, replace_str, space_char, string_of,
    substituted, to_lower,
};

verus! {

/// Longest cleaned title, in characters.
pub const MAX_TITLE_CHARS: usize = 100;

/// A character kept as it is when alphanumeric or whitespace, else a space.
pub open spec fn fold_char(c: char) -> char {
    if alnum_char(c) || space_char(c) {
        c
    } else {
        ' '
    }
}

/// Every character that is neither alphanumeric nor whitespace turned into a space.
pub open spec fn folded(s: Seq<char>) -> Seq<char> {
    Seq::new(s.len(), |i: int| fold_char(s[i]))
}

/// Left-to-right whitespace collapse of `s`: the text produced so far, and
/// whether a separator is owed before the next word character.
pub open spec fn squeeze(s: Seq<char>) -> (Seq<char>, bool)
    decreases s.len(),
{
    if s.len() == 0 {
        (Seq::empty(), false)
    } else {
        let (o, pending) = squeeze(s.drop_last());
        let c = s.last();
        if space_char(c) {
            (o, o.len() > 0)
        } else if pending {
            (o.push(' ').push(c), false)
        } else {
            (o.push(c), false)
        }
    }
}

/// The whitespace-separated words of `s` joined by single spaces.
pub open spec fn collapsed(s: Seq<char>) -> Seq<char> {
    squeeze(s).0
}

/// The first `MAX_TITLE_CHARS` characters.
pub open spec fn capped(s: Seq<char>) -> Seq<char> {
    if s.len() <= MAX_TITLE_CHARS {
        s
    } else {
        s.take(MAX_TITLE_CHARS as int)
    }
}

/// The `Clean` form of a title.
pub open spec fn cleaned(s: Seq<char>) -> Seq<char> {
    capped(collapsed(folded(nfkc_of(s))))
}

fn fold_chars(cs: &Vec<char>) -> (r: Vec<char>)
    ensures
        r@ == folded(cs@),
{
    let mut out: Vec<char> = Vec::new();
    let mut i: usize = 0;
    while i < cs.len()
        invariant
            i <= cs.len(),
            out@ == folded(cs@.take(i as int)),
        decreases cs.len() - i,
    {
        let c = cs[i];
        let k = if is_alnum(c) || is_space(c) {
            c
        } else {
            ' '
        };
        out.push(k);
        i += 1;
        assert(out@ =~= folded(cs@.take(i as int)));
    }
    assert(cs@.take(i as int) =~= cs@);
    out
}

fn collapse_chars(cs: &Vec<char>) -> (r: Vec<char>)
    ensures
        r@ == collapsed(cs@),
{
    let mut out: Vec<char> = Vec::new();
    let mut pending = false;
    let mut i: usize = 0;
    while i < cs.len()
        invariant
            i <= cs.len(),
            (out@, pending) == squeeze(cs@.take(i as int)),
        decreases cs.len() - i,
    {
        let c = cs[i];
        assert(cs@.take(i as int + 1).drop_last() =~= cs@.take(i as int));
        if is_space(c) {
            pending = out.len() > 0;
        } else {
            if pending {
                out.push(' ');
                pending = false;
            }
            out.push(c);
        }
        i += 1;
    }
    assert(cs@.take(i as int) =~= cs@);
    out
}

/// Cleans a title for comparison: NFKC, punctuation folded to spaces,
/// whitespace collapsed, and at most `MAX_TITLE_CHARS` characters.
pub fn clean_title(title: Option<&str>) -> (r: Option<String>)
    ensures
        title is None ==> r is None,
        title matches Some(t) ==> r matches Some(c) && c@ == cleaned(t@),
{
    match title {
        None => None,
        Some(t) => {
            let composed = nfkc(t);
            let cs = chars_of(composed.as_str());
            let words = collapse_chars(&fold_chars(&cs));
            let mut out: Vec<char> = Vec::new();
            let mut i: usize = 0;
            while i < words.len() && i < MAX_TITLE_CHARS
                invariant
                    i <= words.len(),
                    i <= MAX_TITLE_CHARS,
                    out@ == words@.take(i as int),
                decreases words.len() - i,
            {
                out.push(words[i]);
                i += 1;
                assert(out@ =~= words@.take(i as int));
            }
            assert(out@ =~= capped(words@));
            Some(string_of(&out))
        }
    }
}

/// `s` without the characters that are combining marks.
pub open spec fn unmarked(s: Seq<char>) -> Seq<char>
    decreases s.len(),
{
    if s.len() == 0 {
        s
    } else if mark_char(s.last()) {
        unmarked(s.drop_last())
    } else {
        unmarked(s.drop_last()).push(s.last())
    }
}

/// The three fixed noise patterns of `Sanitize` are accepted by the regex engine.
pub open spec fn noise_patterns_compile() -> bool {
    &&& regex_compiles(r"\b(season|cour|part|chapter|special)\b"@)
    &&& regex_compiles(r"(\d+)(?:th|rd|nd|st)?\s*(?:season|cour|part|chapter|special)\b"@)
    &&& regex_compiles(
        r"\b(?:uncut|uncensored|dub(?:bed)?|censored|sub(?:bed)?|the final chapters)\b|\([^)]*\)|\bBD\b|\(TV\)"@,
    )
}

/// Text as `Clean` leaves it: alphanumeric characters and single spaces,
/// with no space first and no two spaces in a row.
pub open spec fn tidy(x: Seq<char>) -> bool {
    &&& forall|i: int|
        0 <= i < x.len() ==> #[trigger] x[i] == ' ' || (alnum_char(x[i]) && !space_char(x[i]))
    &&& forall|i: int| 0 <= i < x.len() - 1 ==> #[trigger] x[i] == ' ' ==> x[i + 1] != ' '
    &&& x.len() > 0 ==> x[0] != ' '
}

proof fn lemma_squeeze_tidy(t: Seq<char>)
    requires
        forall|i: int| 0 <= i < t.len() ==> space_char(#[trigger] t[i]) || alnum_char(t[i]),
        space_char(' '),
    ensures
        tidy(squeeze(t).0),
        squeeze(t).0.len() > 0 ==> squeeze(t).0.last() != ' ',
        squeeze(t).1 ==> squeeze(t).0.len() > 0,
    decreases t.len(),
{
    if t.len() > 0 {
        let p = t.drop_last();
        assert(forall|i: int| 0 <= i < p.len() ==> p[i] == t[i]);
        lemma_squeeze_tidy(p);
        let (o, pending) = squeeze(p);
        let c = t.last();
        if !space_char(c) {
            if pending {
                let r = o.push(' ').push(c);
                assert(forall|i: int| 0 <= i < o.len() ==> r[i] == o[i]);
            } else {
                let r = o.push(c);
                assert(forall|i: int| 0 <= i < o.len() ==> r[i] == o[i]);
            }
        }
    }
}

proof fn lemma_tidy_squeeze(x: Seq<char>, n: int)
    requires
        tidy(x),
        space_char(' '),
        0 <= n <= x.len(),
    ensures
        n > 0 && x[n - 1] == ' ' ==> squeeze(x.take(n)) == (x.take(n - 1), true),
        !(n > 0 && x[n - 1] == ' ') ==> squeeze(x.take(n)) == (x.take(n), false),
    decreases n,
{
    if n > 0 {
        lemma_tidy_squeeze(x, n - 1);
        assert(x.take(n).drop_last() =~= x.take(n - 1));
        assert(x.take(n).last() == x[n - 1]);
        if n >= 2 && x[n - 2] == ' ' {
            assert(x.take(n - 1) =~= x.take(n - 2).push(' '));
            assert(x.take(n - 2).push(' ').push(x[n - 1]) =~= x.take(n));
        }
        assert(x.take(n - 1).push(x[n - 1]) =~= x.take(n));
    }
}

/// Cleaning text twice gives what cleaning it once gives, for any title whose
/// cleaned form NFKC leaves as it is and does not end in a space (the cut
/// at `MAX_TITLE_CHARS` may land just after one). The ASCII space counting as
/// whitespace is the one Unicode fact the proof uses.
pub proof fn lemma_clean_idempotent(s: Seq<char>)
    requires
        space_char(' '),
        nfkc_of(cleaned(s)) == cleaned(s),
        cleaned(s).len() > 0 ==> cleaned(s).last() != ' ',
    ensures
        cleaned(cleaned(s)) == cleaned(s),
{
    let u = folded(nfkc_of(s));
    let c = cleaned(s);
    lemma_squeeze_tidy(u);
    let w = collapsed(u);
    assert(c == capped(w));
    assert(tidy(c)) by {
        if w.len() > MAX_TITLE_CHARS {
            assert(forall|i: int| 0 <= i < c.len() ==> c[i] == w[i]);
        }
    }
    assert(folded(c) =~= c);
    lemma_tidy_squeeze(c, c.len() as int);
    assert(c.take(c.len() as int) =~= c);
    assert(collapsed(c) == c);
}

/// Season, format and spelling noise removed, before the final `Clean` pass.
pub open spec fn denoised(s: Seq<char>) -> Seq<char> {
    let lowered = lower_of(s);
    let singular = substituted(lowered, "chapters"@, "chapter"@);
    let no_words = regex_replaced(
        r"\b(season|cour|part|chapter|special)\b"@,
        singular,
        ""@,
    );
    let numbered = regex_replaced(
        r"(\d+)(?:th|rd|nd|st)?\s*(?:season|cour|part|chapter|special)\b"@,
        no_words,
        " $1 "@,
    );
    let spaced = folded(numbered);
    let spelled = substituted(
        substituted(substituted(spaced, "yuu"@, "yu"@), "ouh"@, "oh"@),
        "yaa"@,
        "ya"@,
    );
    let no_format = regex_replaced(
        r"\b(?:uncut|uncensored|dub(?:bed)?|censored|sub(?:bed)?|the final chapters)\b|\([^)]*\)|\bBD\b|\(TV\)"@,
        spelled,
        ""@,
    );
    unmarked(nfd_of(no_format))
}

/// The `Sanitize` form of a title.
pub open spec fn sanitized(s: Seq<char>) -> Seq<char> {
    cleaned(denoised(s))
}

fn fold_string(s: &str) -> (r: String)
    ensures
        r@ == folded(s@),
{
    string_of(&fold_chars(&chars_of(s)))
}

fn drop_marks(s: &str) -> (r: String)
    ensures
        r@ == unmarked(s@),
{
    let cs = chars_of(s);
    let mut out: Vec<char> = Vec::new();
    let mut i: usize = 0;
    while i < cs.len()
        invariant
            i <= cs.len(),
            cs@ == s@,
            out@ == unmarked(cs@.take(i as int)),
        decreases cs.len() - i,
    {
        let c = cs[i];
        assert(cs@.take(i as int + 1).drop_last() =~= cs@.take(i as int));
        if !is_mark(c) {
            out.push(c);
        }
        i += 1;
    }
    assert(cs@.take(i as int) =~= cs@);
    string_of(&out)
}

/// Sanitizes a title for loose comparison: lower case, season/part/chapter
/// words dropped (a numbered one kept as its number), punctuation folded,
/// a few spellings unified, format notes and parenthesized asides removed,
/// diacritics stripped, then `Clean`. `None` stays `None`; a title also
/// gives `None` only if the regex engine refuses one of the fixed patterns.
pub fn sanitize_title(title: Option<&str>) -> (r: Option<String>)
    ensures
        title is None ==> r is None,
        title matches Some(t) ==> (r is Some <==> noise_patterns_compile()),
        title matches Some(t) ==> (r matches Some(c) ==> c@ == sanitized(t@)),
{
    match title {
        None => None,
        Some(t) => {
            proof {
                reveal_strlit("chapters");
                reveal_strlit("yuu");
                reveal_strlit("ouh");
                reveal_strlit("yaa");
            }
            let lowered = to_lower(t);
            let singular = replace_str(lowered.as_str(), "chapters", "chapter");
            let no_words = regex_replace_all(
                r"\b(season|cour|part|chapter|special)\b",
                singular.as_str(),
                "",
            );
            let no_words = match no_words {
                Some(x) => x,
                None => return None,
            };
            let numbered = regex_replace_all(
                r"(\d+)(?:th|rd|nd|st)?\s*(?:season|cour|part|chapter|special)\b",
                no_words.as_str(),
                " $1 ",
            );
            let numbered = match numbered {
                Some(x) => x,
                None => return None,
            };
            let spaced = fold_string(numbered.as_str());
            let spelled = replace_str(spaced.as_str(), "yuu", "yu");
            let spelled = replace_str(spelled.as_str(), "ouh", "oh");
            let spelled = replace_str(spelled.as_str(), "yaa", "ya");
            let no_format = regex_replace_all(
                r"\b(?:uncut|uncensored|dub(?:bed)?|censored|sub(?:bed)?|the final chapters)\b|\([^)]*\)|\bBD\b|\(TV\)",
                spelled.as_str(),
                "",
            );
            let no_format = match no_format {
                Some(x) => x,
                None => return None,
            };
            let plain = drop_marks(nfd(no_format.as_str()).as_str());
            clean_title(Some(plain.as_str()))
        }
    }
}

} // verus!
