//! Lines of text and trailing whitespace.

use vstd::prelude::*;
use crate::text::{chars_of, push_char};
use crate::values::strs_view;

verus! {

/// `l` without a final carriage return.
pub open spec fn strip_cr(l: Seq<char>) -> Seq<char> {
    if l.len() > 0 && l.last() == '\r' {
        l.drop_last()
    } else {
        l
    }
}

/// The segments of `s` between newlines, at least one; a segment that a
/// newline ends loses a final carriage return.
pub open spec fn segments(s: Seq<char>) -> Seq<Seq<char>>
    decreases s.len(),
{
    if s.len() == 0 {
        seq![Seq::empty()]
    } else {
        let rest = segments(s.drop_last());
        if s.last() == '\n' {
            rest.update(rest.len() - 1, strip_cr(rest.last())).push(Seq::empty())
        } else {
            rest.update(rest.len() - 1, rest.last().push(s.last()))
        }
    }
}

/// The lines of `s`: its segments, without a final empty one.
pub open spec fn text_lines(s: Seq<char>) -> Seq<Seq<char>> {
    let segs = segments(s);
    if segs.last().len() == 0 {
        segs.drop_last()
    } else {
        segs
    }
}

proof fn lemma_segments_nonempty(s: Seq<char>)
    ensures
        segments(s).len() >= 1,
    decreases s.len(),
{
    if s.len() > 0 {
        lemma_segments_nonempty(s.drop_last());
    }
}

/// The lines of `s`, as `str::lines` reads them.
pub fn split_lines(s: &str) -> (r: Vec<String>)
    ensures
        strs_view(r@) == text_lines(s@),
{
    let cs = chars_of(s);
    let mut done: Vec<String> = Vec::new();
    let mut cur = String::new();
    let mut i: usize = 0;
    while i < cs.len()
        invariant
            cs@ == s@,
            i <= cs@.len(),
            strs_view(done@).push(cur@) == segments(cs@.subrange(0, i as int)),
        decreases cs.len() - i,
    {
        let c = cs[i];
        let ghost before = cs@.subrange(0, i as int);
        proof {
            lemma_segments_nonempty(before);
            assert(cs@.subrange(0, i + 1).drop_last() =~= before);
        }
        if c == '\n' {
            let ghost old_cur = cur@;
            if cur.as_str().is_empty() {
            } else {
                let line = strip_final_cr(&cur);
                cur = line;
            }
            assert(cur@ == strip_cr(old_cur));
            let ghost prev_done = strs_view(done@);
            done.push(cur);
            cur = String::new();
            assert(strs_view(done@) =~= prev_done.push(strip_cr(old_cur)));
            assert(strs_view(done@).push(cur@) =~= segments(cs@.subrange(0, i + 1)));
        } else {
            let ghost old_cur = cur@;
            push_char(&mut cur, c);
            assert(strs_view(done@).push(cur@) =~= segments(cs@.subrange(0, i + 1)));
        }
        i = i + 1;
    }
    assert(cs@.subrange(0, i as int) =~= cs@);
    if !cur.as_str().is_empty() {
        done.push(cur);
    }
    proof {
        let segs = segments(s@);
        if segs.last().len() == 0 {
            assert(strs_view(done@) =~= segs.drop_last());
        } else {
            assert(strs_view(done@) =~= segs);
        }
    }
    done
}

/// `l` without a final carriage return.
fn strip_final_cr(l: &String) -> (r: String)
    ensures
        r@ == strip_cr(l@),
{
    let cs = chars_of(l.as_str());
    let n = cs.len();
    let end = if n > 0 && cs[n - 1] == '\r' {
        n - 1
    } else {
        n
    };
    let mut r = String::new();
    let mut i: usize = 0;
    while i < end
        invariant
            end <= cs@.len(),
            i <= end,
            r@ == cs@.subrange(0, i as int),
        decreases end - i,
    {
        push_char(&mut r, cs[i]);
        i = i + 1;
        assert(r@ =~= cs@.subrange(0, i as int));
    }
    proof {
        if n > 0 && cs@[n - 1] == '\r' {
            assert(r@ =~= l@.drop_last());
        } else {
            assert(r@ =~= l@);
        }
    }
    r
}

/// Whether `c` is white space in the sense of Unicode's `White_Space`
/// property.
pub open spec fn is_white(c: char) -> bool {
    let u = c as u32;
    (0x9 <= u && u <= 0xd) || u == 0x20 || u == 0x85 || u == 0xa0 || u == 0x1680 || (0x2000 <= u
        && u <= 0x200a) || u == 0x2028 || u == 0x2029 || u == 0x202f || u == 0x205f || u == 0x3000
}

/// `s` without its trailing white space.
pub open spec fn trimmed_end(s: Seq<char>) -> Seq<char>
    decreases s.len(),
{
    if s.len() > 0 && is_white(s.last()) {
        trimmed_end(s.drop_last())
    } else {
        s
    }
}

} // verus!
