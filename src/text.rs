//! Character-level primitives: Unicode properties and transforms provided by
//! std and outside crates, and verified helpers for building strings.

use vstd::prelude::*;

verus! {

/// What `char::is_alphanumeric` reports for a character.
pub uninterp spec fn alnum_char(c: char) -> bool;

/// What `char::is_whitespace` reports for a character.
pub uninterp spec fn space_char(c: char) -> bool;

/// What `unicode_categories::UnicodeCategories::is_mark` reports for a character.
pub uninterp spec fn mark_char(c: char) -> bool;

/// The NFKC form of a character sequence.
pub uninterp spec fn nfkc_of(s: Seq<char>) -> Seq<char>;

/// The NFD form of a character sequence.
pub uninterp spec fn nfd_of(s: Seq<char>) -> Seq<char>;

/// The lower-case mapping of a character sequence.
pub uninterp spec fn lower_of(s: Seq<char>) -> Seq<char>;

/// Relies on `char::is_alphanumeric`: a property of the character alone.
#[verifier::external_body]
pub(crate) fn is_alnum(c: char) -> (r: bool)
    ensures
        r == alnum_char(c),
{
    c.is_alphanumeric()
}

/// Relies on `char::is_whitespace`: a property of the character alone; the
/// ASCII space is whitespace.
#[verifier::external_body]
pub(crate) fn is_space(c: char) -> (r: bool)
    ensures
        r == space_char(c),
        c == ' ' ==> r,
{
    c.is_whitespace()
}

/// Relies on `unicode_categories::UnicodeCategories::is_mark`: whether the
/// character's general category is one of Mn, Mc, Me.
#[verifier::external_body]
pub(crate) fn is_mark(c: char) -> (r: bool)
    ensures
        r == mark_char(c),
{
    unicode_categories::UnicodeCategories::is_mark(c)
}

/// Relies on `unicode_normalization::UnicodeNormalization::nfkc`: the
/// compatibility composition of the text, a function of its characters.
#[verifier::external_body]
pub(crate) fn nfkc(s: &str) -> (r: String)
    ensures
        r@ == nfkc_of(s@),
{
    unicode_normalization::UnicodeNormalization::nfkc(s).collect::<String>()
}

/// Relies on `unicode_normalization::UnicodeNormalization::nfd`: the
/// canonical decomposition of the text, a function of its characters.
#[verifier::external_body]
pub(crate) fn nfd(s: &str) -> (r: String)
    ensures
        r@ == nfd_of(s@),
{
    unicode_normalization::UnicodeNormalization::nfd(s).collect::<String>()
}

/// Relies on `str::to_lowercase`: the lower-case mapping of the text.
#[verifier::external_body]
pub(crate) fn to_lower(s: &str) -> (r: String)
    ensures
        r@ == lower_of(s@),
{
    s.to_lowercase()
}

/// Whether a regular expression pattern is accepted by `regex::Regex::new`.
pub uninterp spec fn regex_compiles(pattern: Seq<char>) -> bool;

/// What `regex::Regex::replace_all` makes of `text` for a compiled `pattern`
/// and a replacement template.
pub uninterp spec fn regex_replaced(pattern: Seq<char>, text: Seq<char>, rep: Seq<char>) -> Seq<char>;

/// `s` with every non-overlapping occurrence of `from`, scanned from the
/// left, replaced by `to`.
pub open spec fn substituted(s: Seq<char>, from: Seq<char>, to: Seq<char>) -> Seq<char>
    decreases s.len(),
{
    if s.len() == 0 || from.len() == 0 {
        s
    } else if from.len() <= s.len() && s.take(from.len() as int) == from {
        to + substituted(s.skip(from.len() as int), from, to)
    } else {
        seq![s[0]] + substituted(s.skip(1), from, to)
    }
}

/// Relies on `regex::Regex::new` and `regex::Regex::replace_all`: compiles
/// `pattern` and replaces all of its non-overlapping matches in `text` by the
/// template `rep`; `None` when the pattern is refused.
#[verifier::external_body]
pub(crate) fn regex_replace_all(pattern: &str, text: &str, rep: &str) -> (r: Option<String>)
    ensures
        r is Some <==> regex_compiles(pattern@),
        r matches Some(t) ==> t@ == regex_replaced(pattern@, text@, rep@),
{
    match regex::Regex::new(pattern) {
        Ok(re) => Some(re.replace_all(text, rep).into_owned()),
        Err(_) => None,
    }
}

/// Relies on `str::replace`: every non-overlapping occurrence of a non-empty
/// `from`, taken from the left, is replaced by `to`.
#[verifier::external_body]
pub(crate) fn replace_str(s: &str, from: &str, to: &str) -> (r: String)
    requires
        from@.len() > 0,
    ensures
        r@ == substituted(s@, from@, to@),
{
    s.replace(from, to)
}

/// Relies on `String::push`: appends one character.
#[verifier::external_body]
pub(crate) fn push_char(s: &mut String, c: char)
    ensures
        final(s)@ == old(s)@.push(c),
{
    s.push(c)
}

/// The characters of a string, in order.
pub fn chars_of(s: &str) -> (r: Vec<char>)
    ensures
        r@ == s@,
{
    let mut out: Vec<char> = Vec::new();
    for c in it: s.chars()
        invariant
            it.seq() == s@,
            out@ == s@.take(it.index() as int),
    {
        proof {
            assert(s@.take(it.index() as int + 1) == s@.take(it.index() as int).push(c));
        }
        out.push(c);
    }
    assert(out@ == s@.take(s@.len() as int));
    assert(s@.take(s@.len() as int) == s@);
    out
}

/// The string made of the given characters.
pub fn string_of(cs: &Vec<char>) -> (r: String)
    ensures
        r@ == cs@,
{
    let mut out = String::new();
    let mut i: usize = 0;
    while i < cs.len()
        invariant
            i <= cs.len(),
            out@ == cs@.take(i as int),
        decreases cs.len() - i,
    {
        push_char(&mut out, cs[i]);
        assert(cs@.take(i as int + 1) == cs@.take(i as int).push(cs@[i as int]));
        i += 1;
    }
    assert(cs@.take(cs.len() as int) == cs@);
    out
}

} // verus!
