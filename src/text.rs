//! Characters of strings, and the Unicode facts that the layout of PO text
//! needs: display width, line-break opportunities, grapheme clusters and the
//! natural order of keys.

use vstd::prelude::*;
use vstd::std_specs::iter::IteratorSpec;

verus! {

broadcast use vstd::string::group_string_axioms;

/// Display width of a string, as unicode-width measures it (ambiguous
/// characters count as narrow).
pub uninterp spec fn display_width_of(s: Seq<char>) -> nat;

/// Byte offsets of the line-break opportunities of a string, in the order in
/// which the Unicode line breaking algorithm yields them.
pub uninterp spec fn linebreaks_of(s: Seq<char>) -> Seq<usize>;

/// Number of extended grapheme clusters of a string.
pub uninterp spec fn grapheme_count_of(s: Seq<char>) -> nat;

/// Natural order of two strings: runs of digits compare by value and
/// whitespace is skipped.
pub uninterp spec fn natural_order(a: Seq<char>, b: Seq<char>) -> std::cmp::Ordering;

/// Relies on `UnicodeWidthStr::width` of unicode-width for the display width
/// of a string.
#[verifier::external_body]
pub(crate) fn str_width(s: &str) -> (r: usize)
    ensures
        r == display_width_of(s@),
{
    unicode_width::UnicodeWidthStr::width(s)
}

/// Relies on `unicode_linebreak::linebreaks` for the byte offsets of the break
/// opportunities of a string; the kind of each opportunity is dropped.
#[verifier::external_body]
pub(crate) fn linebreak_offsets(s: &str) -> (r: Vec<usize>)
    ensures
        r@ == linebreaks_of(s@),
{
    unicode_linebreak::linebreaks(s).map(|(i, _)| i).collect()
}

/// Relies on `UnicodeSegmentation::graphemes` of unicode-segmentation (extended
/// clusters) for the number of grapheme clusters of a string.
#[verifier::external_body]
pub(crate) fn grapheme_count(s: &str) -> (r: usize)
    ensures
        r == grapheme_count_of(s@),
{
    unicode_segmentation::UnicodeSegmentation::graphemes(s, true).count()
}

/// Relies on `natord::compare` for the natural order of two strings. The
/// comparison treats both sides alike, so swapping them reverses the result.
#[verifier::external_body]
pub(crate) fn natural_cmp(a: &str, b: &str) -> (r: std::cmp::Ordering)
    ensures
        r == natural_order(a@, b@),
        r == std::cmp::Ordering::Less <==> natural_order(b@, a@) == std::cmp::Ordering::Greater,
        r == std::cmp::Ordering::Greater <==> natural_order(b@, a@) == std::cmp::Ordering::Less,
{
    natord::compare(a, b)
}

/// Relies on `String::push`: the character is added at the end.
#[verifier::external_body]
pub(crate) fn push_char(s: &mut String, c: char)
    ensures
        final(s)@ == old(s)@.push(c),
{
    s.push(c)
}

/// The characters of `t` from `start` to `end`.
pub(crate) fn sub_string(t: &Vec<char>, start: usize, end: usize) -> (r: String)
    requires
        start <= end <= t@.len(),
    ensures
        r@ == t@.subrange(start as int, end as int),
{
    let mut piece = String::new();
    let mut c: usize = start;
    while c < end
        invariant
            start <= c <= end <= t@.len(),
            piece@ == t@.subrange(start as int, c as int),
        decreases end - c,
    {
        push_char(&mut piece, t[c]);
        c = c + 1;
        assert(piece@ =~= t@.subrange(start as int, c as int));
    }
    piece
}

/// The characters of `s`, in order.
pub fn chars_of(s: &str) -> (r: Vec<char>)
    ensures
        r@ == s@,
{
    let mut it = s.chars();
    let mut r: Vec<char> = Vec::new();
    loop
        invariant
            r@ + it.remaining() == s@,
            it.decrease() is Some,
        ensures
            r@ == s@,
        decreases it.decrease()->0,
    {
        match it.next() {
            Some(c) => r.push(c),
            None => {
                assert(r@ + it.remaining() =~= r@);
                break;
            },
        }
    }
    r
}

} // verus!

verus! {

/// Relies on `String::pop`: the last character is taken off, if there is one.
#[verifier::external_body]
pub(crate) fn pop_char(s: &mut String) -> (r: Option<char>)
    ensures
        old(s)@.len() == 0 ==> r is None && final(s)@ == old(s)@,
        old(s)@.len() > 0 ==> r == Some(old(s)@.last()) && final(s)@ == old(s)@.drop_last(),
{
    s.pop()
}

} // verus!

verus! {

/// Relies on `std::str::from_utf8`: the bytes decode when, and only when,
/// they are valid UTF-8.
#[verifier::external_body]
pub(crate) fn utf8_decode(b: &[u8]) -> (r: Option<String>)
    ensures
        r is Some <==> vstd::utf8::valid_utf8(b@),
        r matches Some(s) ==> s@ == vstd::utf8::decode_utf8(b@),
{
    std::str::from_utf8(b).ok().map(|s| s.to_string())
}

} // verus!
