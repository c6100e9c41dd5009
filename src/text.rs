//! Text primitives over `str`, each stated over `Seq<char>` views.

use vstd::prelude::*;

verus! {

/// `needle` occurs in `hay` starting at position `i`.
pub open spec fn occurs_at(hay: Seq<char>, needle: Seq<char>, i: int) -> bool {
    0 <= i && i + needle.len() <= hay.len() && hay.subrange(i, i + needle.len()) == needle
}

/// `needle` occurs somewhere in `hay`.
pub open spec fn contains_seq(hay: Seq<char>, needle: Seq<char>) -> bool {
    exists|i: int| occurs_at(hay, needle, i)
}

/// `p` is a prefix of `s`.
pub open spec fn starts_with(s: Seq<char>, p: Seq<char>) -> bool {
    p.len() <= s.len() && s.subrange(0, p.len() as int) == p
}

/// `s` with every comma removed.
pub open spec fn without_commas(s: Seq<char>) -> Seq<char> {
    s.filter(|c: char| c != ',')
}

pub open spec fn is_digit(c: char) -> bool {
    '0' <= c && c <= '9'
}

/// The number written by a sequence of decimal digits.
pub open spec fn digits_value(s: Seq<char>) -> nat
    decreases s.len(),
{
    if s.len() == 0 {
        0
    } else {
        digits_value(s.drop_last()) * 10 + ((s.last() as u32) - ('0' as u32)) as nat
    }
}

/// The digits of an unsigned decimal literal: a leading `+` is allowed.
pub open spec fn unsigned_digits(s: Seq<char>) -> Seq<char> {
    if s.len() > 0 && s[0] == '+' {
        s.drop_first()
    } else {
        s
    }
}

/// What reading `s` as a `u64` gives: one or more digits after an optional
/// `+`, with a value that fits.
pub open spec fn u64_of_text(s: Seq<char>) -> Option<u64> {
    let d = unsigned_digits(s);
    if d.len() > 0 && (forall|i: int| 0 <= i < d.len() ==> is_digit(#[trigger] d[i]))
        && digits_value(d) <= u64::MAX {
        Some(digits_value(d) as u64)
    } else {
        None
    }
}

/// What `str::trim` leaves of a text.
pub uninterp spec fn trim_of(s: Seq<char>) -> Seq<char>;

/// The first item of `str::lines`.
pub uninterp spec fn first_line_of(s: Seq<char>) -> Option<Seq<char>>;

/// The first item of `str::split_whitespace`.
pub uninterp spec fn first_word_of(s: Seq<char>) -> Option<Seq<char>>;

/// The pieces that `str::split` cuts a text into at a separator.
pub uninterp spec fn split_pieces(s: Seq<char>, sep: Seq<char>) -> Seq<Seq<char>>;

/// What `str::to_lowercase` makes of a text.
pub uninterp spec fn lower_of(s: Seq<char>) -> Seq<char>;

/// The views of a sequence of strings.
pub open spec fn views(v: Seq<String>) -> Seq<Seq<char>> {
    v.map_values(|s: String| s@)
}

/// Relies on `str::contains` with a `&str` pattern: true when the pattern
/// occurs as a substring.
#[verifier::external_body]
pub(crate) fn contains_text(hay: &str, needle: &str) -> (r: bool)
    ensures
        r == contains_seq(hay@, needle@),
{
    hay.contains(needle)
}

/// Relies on `str::strip_prefix` with a `&str` pattern: the rest of the text
/// when it starts with the prefix, `None` otherwise.
#[verifier::external_body]
pub(crate) fn strip_prefix_text(s: &str, p: &str) -> (r: Option<String>)
    ensures
        match r {
            Some(t) => starts_with(s@, p@) && t@ == s@.skip(p@.len() as int),
            None => !starts_with(s@, p@),
        },
{
    s.strip_prefix(p).map(|t| t.to_string())
}

/// Relies on `str::trim`: leading and trailing white space removed.
#[verifier::external_body]
pub(crate) fn trim_text(s: &str) -> (r: String)
    ensures
        r@ == trim_of(s@),
{
    s.trim().to_string()
}

/// Relies on `str::lines`: its first line, if any.
#[verifier::external_body]
pub(crate) fn first_line(s: &str) -> (r: Option<String>)
    ensures
        match r {
            Some(t) => first_line_of(s@) == Some(t@),
            None => first_line_of(s@) is None,
        },
{
    s.lines().next().map(|t| t.to_string())
}

/// Relies on `str::split_whitespace`: its first word, if any.
#[verifier::external_body]
pub(crate) fn first_word(s: &str) -> (r: Option<String>)
    ensures
        match r {
            Some(t) => first_word_of(s@) == Some(t@),
            None => first_word_of(s@) is None,
        },
{
    s.split_whitespace().next().map(|t| t.to_string())
}

/// Relies on `str::split` with a `&str` separator: the pieces in order.
#[verifier::external_body]
pub(crate) fn split_text(s: &str, sep: &str) -> (r: Vec<String>)
    ensures
        views(r@) == split_pieces(s@, sep@),
{
    s.split(sep).map(|t| t.to_string()).collect()
}

/// Relies on `str::replace` with the pattern `","` and an empty replacement:
/// every comma removed, the rest kept in order.
#[verifier::external_body]
pub(crate) fn remove_commas(s: &str) -> (r: String)
    ensures
        r@ == without_commas(s@),
{
    s.replace(",", "")
}

/// Relies on `<u64 as FromStr>::from_str`: an optional `+` and decimal digits
/// whose value fits, nothing else.
#[verifier::external_body]
pub(crate) fn parse_u64(s: &str) -> (r: Option<u64>)
    ensures
        r == u64_of_text(s@),
{
    s.parse::<u64>().ok()
}

/// Relies on `str::to_lowercase`: the result depends on the characters alone.
#[verifier::external_body]
pub(crate) fn lowercase(s: &str) -> (r: String)
    ensures
        r@ == lower_of(s@),
{
    s.to_lowercase()
}

/// The parts joined with a comma between each two.
pub open spec fn join_comma(parts: Seq<Seq<char>>) -> Seq<char>
    decreases parts.len(),
{
    if parts.len() == 0 {
        Seq::empty()
    } else if parts.len() == 1 {
        parts[0]
    } else {
        join_comma(parts.drop_last()) + seq![','] + parts.last()
    }
}

/// Joins the parts with a comma between each two.
pub fn join(parts: &Vec<String>) -> (r: String)
    ensures
        r@ == join_comma(views(parts@)),
{
    let mut out = String::new();
    let mut i: usize = 0;
    while i < parts.len()
        invariant
            i <= parts.len(),
            out@ == join_comma(views(parts@.subrange(0, i as int))),
        decreases parts.len() - i,
    {
        proof {
            let next = parts@.subrange(0, i as int + 1);
            assert(next.drop_last() == parts@.subrange(0, i as int));
            assert(views(next).drop_last() == views(next.drop_last()));
            assert(views(next).last() == parts@[i as int]@);
            reveal_strlit(",");
        }
        if i > 0 {
            out.append(",");
        }
        out.append(parts[i].as_str());
        i = i + 1;
    }
    assert(parts@.subrange(0, parts.len() as int) == parts@);
    out
}

} // verus!
