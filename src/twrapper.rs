//! Unicode-aware wrapping of text into pieces, breaking only at line-break
//! opportunities and keeping each piece within a display width where the
//! opportunities allow it.

use vstd::prelude::*;
use crate::text::{chars_of, display_width_of, linebreak_offsets, linebreaks_of, push_char, str_width, sub_string};
use crate::values::strs_view;

verus! {

/// Number of bytes of the UTF-8 encoding of `c`.
pub open spec fn utf8_len(c: char) -> int {
    if (c as u32) < 0x80 {
        1
    } else if (c as u32) < 0x800 {
        2
    } else if (c as u32) < 0x10000 {
        3
    } else {
        4
    }
}

/// Byte offset, in the UTF-8 encoding of `t`, of the character at position `p`.
pub open spec fn byte_pos(t: Seq<char>, p: int) -> int
    decreases p,
{
    if p <= 0 || p > t.len() {
        0
    } else {
        byte_pos(t, p - 1) + utf8_len(t[p - 1])
    }
}

/// The character position whose byte offset is `b`, if there is one.
pub open spec fn pos_of_byte(t: Seq<char>, b: int) -> Option<int> {
    if exists|p: int| 0 <= p <= t.len() && byte_pos(t, p) == b {
        Some(choose|p: int| 0 <= p <= t.len() && byte_pos(t, p) == b)
    } else {
        None
    }
}

/// Display width of one character.
pub open spec fn char_width(c: char) -> int {
    display_width_of(seq![c]) as int
}

/// Display width of the first `p` characters of `t`: the sum of their widths,
/// held at `usize::MAX`.
pub open spec fn cum_width(t: Seq<char>, p: int) -> int
    decreases p,
{
    if p <= 0 || p > t.len() {
        0
    } else {
        let s = cum_width(t, p - 1) + char_width(t[p - 1]);
        if s > usize::MAX {
            usize::MAX as int
        } else {
            s
        }
    }
}

/// The last of a list of positions, or 0 for an empty one.
pub open spec fn last_or_zero(s: Seq<int>) -> int {
    if s.len() == 0 {
        0
    } else {
        s.last()
    }
}

/// The break opportunities among the first `k` byte offsets of `bs`, as
/// character positions: an offset is kept when it falls on a character
/// boundary after the last kept one.
pub open spec fn kept_ops(t: Seq<char>, bs: Seq<usize>, k: int) -> Seq<int>
    decreases k,
{
    if k <= 0 || k > bs.len() {
        Seq::empty()
    } else {
        let prev = kept_ops(t, bs, k - 1);
        match pos_of_byte(t, bs[k - 1] as int) {
            Some(p) => if last_or_zero(prev) < p {
                prev.push(p)
            } else {
                prev
            },
            None => prev,
        }
    }
}

/// The breaks committed among the first `j` opportunities: an opportunity is
/// committed when the text from the last committed break to the next
/// opportunity is wider than `width`.
pub open spec fn committed(t: Seq<char>, ops: Seq<int>, j: int, width: int) -> Seq<int>
    decreases j,
{
    if j <= 0 || j >= ops.len() {
        Seq::empty()
    } else {
        let prev = committed(t, ops, j - 1, width);
        if cum_width(t, ops[j]) - cum_width(t, last_or_zero(prev)) > width {
            prev.push(ops[j - 1])
        } else {
            prev
        }
    }
}

/// `t` cut at the positions `brs`: one piece more than there are breaks.
pub open spec fn pieces(t: Seq<char>, brs: Seq<int>) -> Seq<Seq<char>> {
    Seq::new(
        brs.len() + 1,
        |i: int|
            t.subrange(
                if i == 0 {
                    0
                } else {
                    brs[i - 1]
                },
                if i < brs.len() {
                    brs[i]
                } else {
                    t.len() as int
                },
            ),
    )
}

/// All break opportunities of `t`, as character positions.
pub open spec fn opportunities(t: Seq<char>) -> Seq<int> {
    kept_ops(t, linebreaks_of(t), linebreaks_of(t).len() as int)
}

/// The breaks at which `t` is wrapped to `width`.
pub open spec fn wrap_breaks(t: Seq<char>, width: int) -> Seq<int> {
    let ops = opportunities(t);
    committed(t, ops, ops.len() - 1, width)
}

/// The pieces of `t` wrapped to `width`.
pub open spec fn wrapped(t: Seq<char>, width: int) -> Seq<Seq<char>> {
    pieces(t, wrap_breaks(t, width))
}

fn utf8_len_of(c: char) -> (r: u128)
    ensures
        r == utf8_len(c),
{
    let u = c as u32;
    if u < 0x80 {
        1
    } else if u < 0x800 {
        2
    } else if u < 0x10000 {
        3
    } else {
        4
    }
}

/// Byte offsets of every character position of `t`, the end included.
fn byte_offsets(t: &Vec<char>) -> (r: Vec<u128>)
    ensures
        r@.len() == t@.len() + 1,
        forall|p: int| 0 <= p <= t@.len() ==> r@[p] == byte_pos(t@, p),
{
    let mut r: Vec<u128> = Vec::new();
    r.push(0);
    let mut p: usize = 0;
    while p < t.len()
        invariant
            p <= t@.len(),
            r@.len() == p + 1,
            forall|q: int| 0 <= q <= p ==> r@[q] == byte_pos(t@, q),
            r@[p as int] <= 4 * p,
        decreases t.len() - p,
    {
        let next = r[p] + utf8_len_of(t[p]);
        r.push(next);
        p = p + 1;
    }
    r
}

/// Display width of the first `p` characters of `t`, for each `p`.
fn cumulative_widths(t: &Vec<char>) -> (r: Vec<usize>)
    ensures
        r@.len() == t@.len() + 1,
        forall|p: int| 0 <= p <= t@.len() ==> r@[p] == cum_width(t@, p),
{
    let mut r: Vec<usize> = Vec::new();
    r.push(0);
    let mut p: usize = 0;
    while p < t.len()
        invariant
            p <= t@.len(),
            r@.len() == p + 1,
            forall|q: int| 0 <= q <= p ==> r@[q] == cum_width(t@, q),
        decreases t.len() - p,
    {
        let mut one = String::new();
        push_char(&mut one, t[p]);
        assert(one@ =~= seq![t@[p as int]]);
        let w = str_width(one.as_str());
        let next = r[p].saturating_add(w);
        r.push(next);
        p = p + 1;
    }
    r
}

/// The position whose byte offset is `b`, searching `offsets`.
fn find_offset(offsets: &Vec<u128>, t: Ghost<Seq<char>>, b: usize) -> (r: Option<usize>)
    requires
        offsets@.len() == t@.len() + 1,
        forall|p: int| 0 <= p <= t@.len() ==> offsets@[p] == byte_pos(t@, p),
    ensures
        r == match pos_of_byte(t@, b as int) {
            Some(p) => Some(p as usize),
            None => None::<usize>,
        },
{
    let mut p: usize = 0;
    while p < offsets.len()
        invariant
            offsets@.len() == t@.len() + 1,
            forall|q: int| 0 <= q <= t@.len() ==> offsets@[q] == byte_pos(t@, q),
            p <= offsets@.len(),
            forall|q: int| 0 <= q < p ==> byte_pos(t@, q) != b,
        decreases offsets.len() - p,
    {
        if offsets[p] == b as u128 {
            assert(0 <= p <= t@.len() && byte_pos(t@, p as int) == b);
            assert(pos_of_byte(t@, b as int) == Some(p as int)) by {
                let q = choose|q: int| 0 <= q <= t@.len() && byte_pos(t@, q) == b;
                lemma_byte_pos_strictly_increasing(t@);
                if q != p {
                    if q < p {
                        assert(byte_pos(t@, q) < byte_pos(t@, p as int));
                    } else {
                        assert(byte_pos(t@, p as int) < byte_pos(t@, q));
                    }
                }
            }
            return Some(p);
        }
        p = p + 1;
    }
    None
}

proof fn lemma_byte_pos_strictly_increasing(t: Seq<char>)
    ensures
        forall|p: int, q: int| 0 <= p < q <= t.len() ==> byte_pos(t, p) < byte_pos(t, q),
{
    assert forall|p: int, q: int| 0 <= p < q <= t.len() implies byte_pos(t, p) < byte_pos(t, q) by {
        lemma_byte_pos_lt(t, p, q);
    }
}

proof fn lemma_byte_pos_lt(t: Seq<char>, p: int, q: int)
    requires
        0 <= p < q <= t.len(),
    ensures
        byte_pos(t, p) < byte_pos(t, q),
    decreases q - p,
{
    if q - 1 > p {
        lemma_byte_pos_lt(t, p, q - 1);
    }
}

/// Wraps `text` into pieces no wider than `wrapwidth` where the break
/// opportunities allow it. A break is committed at an opportunity when the
/// text from the last break to the next opportunity is wider than
/// `wrapwidth`; each piece keeps the characters before its break, so the
/// pieces joined give `text` back.
pub fn wrap(text: &str, wrapwidth: usize) -> (r: Vec<String>)
    ensures
        strs_view(r@) == wrapped(text@, wrapwidth as int),
{
    let t = chars_of(text);
    let n = t.len();
    let offsets = byte_offsets(&t);
    let widths = cumulative_widths(&t);
    let bs = linebreak_offsets(text);

    // opportunities as character positions
    let mut ops: Vec<usize> = Vec::new();
    let mut k: usize = 0;
    while k < bs.len()
        invariant
            t@ == text@,
            n == t@.len(),
            bs@ == linebreaks_of(text@),
            offsets@.len() == t@.len() + 1,
            forall|p: int| 0 <= p <= t@.len() ==> offsets@[p] == byte_pos(t@, p),
            k <= bs@.len(),
            ops@.map_values(|p: usize| p as int) == kept_ops(t@, bs@, k as int),
            forall|i: int| 0 <= i < ops@.len() ==> 0 < #[trigger] ops@[i] <= n,
            forall|i: int| 0 <= i < ops@.len() - 1 ==> #[trigger] ops@[i] < ops@[i + 1],
        decreases bs.len() - k,
    {
        let ghost prev = ops@.map_values(|p: usize| p as int);
        let found = find_offset(&offsets, Ghost(t@), bs[k]);
        proof {
            if let Some(p) = pos_of_byte(t@, bs@[k as int] as int) {
                assert(0 <= p <= t@.len() && byte_pos(t@, p) == bs@[k as int]);
            }
        }
        let last: usize = if ops.len() == 0 {
            0
        } else {
            ops[ops.len() - 1]
        };
        assert(last as int == last_or_zero(prev));
        match found {
            Some(p) => {
                if last < p {
                    ops.push(p);
                    assert(ops@.map_values(|p: usize| p as int) =~= prev.push(p as int));
                }
            },
            None => {},
        }
        k = k + 1;
    }

    // committed breaks
    let mut brs: Vec<usize> = Vec::new();
    let ghost opsi = ops@.map_values(|p: usize| p as int);
    if ops.len() > 1 {
        let mut j: usize = 1;
        while j < ops.len()
            invariant
                t@ == text@,
                n == t@.len(),
                opsi == ops@.map_values(|p: usize| p as int),
                widths@.len() == t@.len() + 1,
                forall|p: int| 0 <= p <= t@.len() ==> widths@[p] == cum_width(t@, p),
                forall|i: int| 0 <= i < ops@.len() ==> 0 < #[trigger] ops@[i] <= n,
                forall|i: int| 0 <= i < ops@.len() - 1 ==> #[trigger] ops@[i] < ops@[i + 1],
                1 <= j <= ops@.len(),
                brs@.map_values(|p: usize| p as int) == committed(t@, opsi, j - 1, wrapwidth as int),
                forall|i: int| 0 <= i < brs@.len() ==> 0 < #[trigger] brs@[i] <= n,
                forall|i: int| 0 <= i < brs@.len() - 1 ==> #[trigger] brs@[i] < brs@[i + 1],
                brs@.len() > 0 ==> brs@.last() < ops@[j - 1],
            decreases ops.len() - j,
        {
            let ghost prev = brs@.map_values(|p: usize| p as int);
            let last: usize = if brs.len() == 0 {
                0
            } else {
                brs[brs.len() - 1]
            };
            assert(last as int == last_or_zero(prev));
            let next = ops[j];
            if widths[next] > widths[last] && widths[next] - widths[last] > wrapwidth {
                brs.push(ops[j - 1]);
                assert(brs@.map_values(|p: usize| p as int) =~= prev.push(opsi[j - 1]));
            }
            assert(ops@[j as int - 1] < ops@[j as int]);
            j = j + 1;
        }
    }
    assert(brs@.map_values(|p: usize| p as int) == wrap_breaks(text@, wrapwidth as int));

    // pieces
    let mut r: Vec<String> = Vec::new();
    let mut i: usize = 0;
    let ghost brsi = brs@.map_values(|p: usize| p as int);
    let mut start: usize = 0;
    while i < brs.len()
        invariant
            t@ == text@,
            n == t@.len(),
            brsi == brs@.map_values(|p: usize| p as int),
            brsi == wrap_breaks(text@, wrapwidth as int),
            forall|q: int| 0 <= q < brs@.len() ==> 0 < #[trigger] brs@[q] <= n,
            forall|q: int| 0 <= q < brs@.len() - 1 ==> #[trigger] brs@[q] < brs@[q + 1],
            i <= brs@.len(),
            start == (if i == 0 { 0 } else { brs@[i - 1] }),
            r@.len() == i,
            forall|q: int| 0 <= q < i ==> #[trigger] r@[q]@ == pieces(t@, brsi)[q],
        decreases brs.len() - i,
    {
        let end = brs[i];
        assert(start <= end) by {
            if i > 0 {
                assert(brs@[i - 1] < brs@[i as int]);
            }
        }
        let piece = sub_string(&t, start, end);
        r.push(piece);
        start = end;
        i = i + 1;
    }
    let piece = sub_string(&t, start, n);
    r.push(piece);
    assert(strs_view(r@) =~= wrapped(text@, wrapwidth as int));
    r
}

} // verus!
