//! The pieces inside PO lines: quoted strings, flags, occurrences and
//! metadata lines.

use vstd::prelude::*;
use crate::escaping::{escape_char, escaped, lemma_escaped_cons, lemma_unescape_inverts_escape, unescape, unescaped};
use crate::lines::{is_white, split_lines, text_lines, trimmed_end};
use crate::potoken::{find_char_from, find_from, has_prefix_at, is_blank, tokenize, Field, Token};
use crate::text::{chars_of, sub_string};
use crate::values::{pairs_view, strs_view};
use crate::pofile::{first_where, lemma_first_where_found, lemma_first_where_none, lemma_first_where_range};

verus! {

/// Position of the first double quote of `s` that no backslash escapes.
pub open spec fn first_bare_quote(s: Seq<char>) -> Option<int>
    decreases s.len(),
{
    if s.len() == 0 {
        None
    } else if s[0] == '\\' {
        if s.len() >= 2 {
            match first_bare_quote(s.subrange(2, s.len() as int)) {
                Some(j) => Some(j + 2),
                None => None,
            }
        } else {
            None
        }
    } else if s[0] == '"' {
        Some(0)
    } else {
        match first_bare_quote(s.drop_first()) {
            Some(j) => Some(j + 1),
            None => None,
        }
    }
}

/// Why a quoted string cannot be read: a bare double quote at a position of
/// the line, or another fault described by a message.
pub enum QuoteFault {
    BareQuote(int),
    Message(Seq<char>),
}

/// The value of the quoted string that starts at `p` in `l` and runs to the
/// end of the line.
pub open spec fn quoted_value(l: Seq<char>, p: int) -> Result<Seq<char>, QuoteFault> {
    let rest = l.subrange(p, l.len() as int);
    if rest.len() < 2 || rest[0] != '"' || rest.last() != '"' {
        Err(QuoteFault::Message("missing double quotes around string"@))
    } else {
        let inner = rest.subrange(1, rest.len() - 1);
        match first_bare_quote(inner) {
            Some(j) => Err(QuoteFault::BareQuote(p + 1 + j + 1)),
            None => match unescaped(inner, false) {
                Ok(v) => Ok(v),
                Err(_) => Err(QuoteFault::Message("invalid escape sequence"@)),
            },
        }
    }
}

fn bare_quote(s: &Vec<char>, from: usize, to: usize) -> (r: Option<usize>)
    requires
        from <= to <= s@.len(),
    ensures
        match first_bare_quote(s@.subrange(from as int, to as int)) {
            Some(j) => r is Some && r->Some_0 as int == j,
            None => r is None,
        },
        r is Some ==> r->Some_0 < to - from,
{
    let mut i = from;
    while i < to
        invariant
            from <= i <= to + 1,
            to <= s@.len(),
            i <= to ==> first_bare_quote(s@.subrange(from as int, to as int)) == match first_bare_quote(
                s@.subrange(i as int, to as int),
            ) {
                Some(j) => Some(j + (i - from)),
                None => None,
            },
            i > to ==> first_bare_quote(s@.subrange(from as int, to as int)) is None,
        decreases to - i,
    {
        let ghost t = s@.subrange(i as int, to as int);
        if s[i] == '\\' {
            if i + 1 < to {
                assert(t.subrange(2, t.len() as int) =~= s@.subrange(i + 2, to as int));
                i = i + 2;
            } else {
                return None;
            }
        } else if s[i] == '"' {
            return Some(i - from);
        } else {
            assert(t.drop_first() =~= s@.subrange(i + 1, to as int));
            i = i + 1;
        }
    }
    if i == to {
        assert(s@.subrange(i as int, to as int).len() == 0);
    }
    None
}

/// The value of the quoted string at `p` in `l`.
pub fn quoted_value_of(l: &Vec<char>, p: usize) -> (r: Result<String, QuoteFaultKind>)
    requires
        p <= l@.len(),
    ensures
        match quoted_value(l@, p as int) {
            Ok(v) => r is Ok && r->Ok_0@ == v,
            Err(QuoteFault::BareQuote(i)) => r matches Err(QuoteFaultKind::BareQuote(k)) && k as int == i,
            Err(QuoteFault::Message(m)) => r matches Err(QuoteFaultKind::Message(s)) && s@ == m,
        },
{
    let n = l.len();
    let ghost rest = l@.subrange(p as int, n as int);
    if n - p < 2 || l[p] != '"' || l[n - 1] != '"' {
        return Err(QuoteFaultKind::Message(String::from_str("missing double quotes around string")));
    }
    assert(rest.subrange(1, rest.len() - 1) =~= l@.subrange(p + 1, n - 1));
    match bare_quote(l, p + 1, n - 1) {
        Some(j) => Err(QuoteFaultKind::BareQuote(p + 1 + j + 1)),
        None => {
            let inner = sub_string(l, p + 1, n - 1);
            match unescape(inner.as_str()) {
                Ok(v) => Ok(v),
                Err(_) => Err(QuoteFaultKind::Message(String::from_str("invalid escape sequence"))),
            }
        },
    }
}

/// Why a quoted string cannot be read, as a value.
pub enum QuoteFaultKind {
    BareQuote(usize),
    Message(String),
}

/// The segments of `s` between the characters `c`, at least one.
pub open spec fn split_on(s: Seq<char>, c: char) -> Seq<Seq<char>>
    decreases s.len(),
{
    if s.len() == 0 {
        seq![Seq::empty()]
    } else {
        let r = split_on(s.drop_last(), c);
        if s.last() == c {
            r.push(Seq::empty())
        } else {
            r.update(r.len() - 1, r.last().push(s.last()))
        }
    }
}

/// The non-empty strings of `xs`, in order.
pub open spec fn drop_empty(xs: Seq<Seq<char>>) -> Seq<Seq<char>>
    decreases xs.len(),
{
    if xs.len() == 0 {
        Seq::empty()
    } else if xs.last().len() == 0 {
        drop_empty(xs.drop_last())
    } else {
        drop_empty(xs.drop_last()).push(xs.last())
    }
}

/// `s` without its leading white space.
pub open spec fn trimmed_start(s: Seq<char>) -> Seq<char>
    decreases s.len(),
{
    if s.len() > 0 && is_white(s[0]) {
        trimmed_start(s.drop_first())
    } else {
        s
    }
}

/// `s` without white space at either end.
pub open spec fn trimmed(s: Seq<char>) -> Seq<char> {
    trimmed_start(trimmed_end(s))
}

/// The flags of a `#,` line: its comma-separated words, trimmed, without
/// empty ones.
pub open spec fn flags_of(s: Seq<char>) -> Seq<Seq<char>> {
    drop_empty(split_on(s, ',').map_values(|x: Seq<char>| trimmed(x)))
}

/// The last position of `c` in `s`.
pub open spec fn rfind(s: Seq<char>, c: char) -> Option<int>
    decreases s.len(),
{
    if s.len() == 0 {
        None
    } else if s.last() == c {
        Some(s.len() - 1)
    } else {
        rfind(s.drop_last(), c)
    }
}

/// Whether `s` is a non-empty run of decimal digits.
pub open spec fn all_digits(s: Seq<char>) -> bool {
    s.len() > 0 && forall|i: int| 0 <= i < s.len() ==> '0' <= #[trigger] s[i] <= '9'
}

/// An occurrence `path:line`; without a number after the last colon, the
/// whole word is the path and the line is empty.
pub open spec fn occurrence_of(tok: Seq<char>) -> (Seq<char>, Seq<char>) {
    match rfind(tok, ':') {
        Some(k) => if all_digits(tok.subrange(k + 1, tok.len() as int)) {
            (tok.subrange(0, k), tok.subrange(k + 1, tok.len() as int))
        } else {
            (tok, Seq::empty())
        },
        None => (tok, Seq::empty()),
    }
}

/// The occurrences of a `#:` line: its space-separated words.
pub open spec fn occurrences_of(s: Seq<char>) -> Seq<(Seq<char>, Seq<char>)> {
    drop_empty(split_on(s, ' ')).map_values(|t: Seq<char>| occurrence_of(t))
}

/// The metadata pairs of lines `Key: Value`: the key before the first colon,
/// the value after it without leading white space. A line without a colon
/// gives none; a key that comes again takes the later value.
pub open spec fn metadata_pairs(lines: Seq<Seq<char>>) -> Seq<(Seq<char>, Seq<char>)>
    decreases lines.len(),
{
    if lines.len() == 0 {
        Seq::empty()
    } else {
        let prev = metadata_pairs(lines.drop_last());
        let l = lines.last();
        match find_from(l, 0, ':') {
            Some(k) => upsert(prev, l.subrange(0, k), trimmed_start(l.subrange(k + 1, l.len() as int))),
            None => prev,
        }
    }
}

/// Whether no two pairs of `p` share a key.
pub open spec fn keys_unique(p: Seq<(Seq<char>, Seq<char>)>) -> bool {
    forall|i: int, j: int| 0 <= i < j < p.len() ==> #[trigger] p[i].0 != #[trigger] p[j].0
}

/// Whether a pair has the key `key`.
pub open spec fn has_key(key: Seq<char>) -> spec_fn((Seq<char>, Seq<char>)) -> bool {
    |q: (Seq<char>, Seq<char>)| q.0 == key
}

/// `p` with `key` set to `value`: the first pair with that key takes the
/// value, or else a new pair comes at the end.
pub open spec fn upsert(p: Seq<(Seq<char>, Seq<char>)>, key: Seq<char>, value: Seq<char>) -> Seq<
    (Seq<char>, Seq<char>),
> {
    match first_where(p, has_key(key)) {
        Some(i) => p.update(i, (key, value)),
        None => p.push((key, value)),
    }
}

/// Setting a key keeps the keys unique.
pub proof fn lemma_upsert_unique(p: Seq<(Seq<char>, Seq<char>)>, key: Seq<char>, value: Seq<char>)
    requires
        keys_unique(p),
    ensures
        keys_unique(upsert(p, key, value)),
{
    lemma_first_where_range(p, has_key(key));
    let r = upsert(p, key, value);
    match first_where(p, has_key(key)) {
        Some(i) => {
            assert forall|a: int, b: int| 0 <= a < b < r.len() implies #[trigger] r[a].0 != #[trigger] r[b].0 by {
                if a == i {
                    assert(p[i].0 == key);
                    assert(p[a].0 != p[b].0);
                } else if b == i {
                    assert(p[a].0 != p[b].0);
                } else {
                    assert(p[a].0 != p[b].0);
                }
            }
        },
        None => {
            assert forall|a: int, b: int| 0 <= a < b < r.len() implies #[trigger] r[a].0 != #[trigger] r[b].0 by {
                if b == p.len() {
                    assert(!has_key(key)(p[a])) by {
                        if has_key(key)(p[a]) {
                            lemma_first_none_fails(p, has_key(key), a);
                        }
                    }
                } else {
                    assert(p[a].0 != p[b].0);
                }
            }
        },
    }
}

proof fn lemma_first_none_fails(p: Seq<(Seq<char>, Seq<char>)>, f: spec_fn((Seq<char>, Seq<char>)) -> bool, a: int)
    requires
        0 <= a < p.len(),
        f(p[a]),
    ensures
        first_where(p, f) is Some,
    decreases a,
{
    if a > 0 && !f(p[0]) {
        lemma_first_none_fails(p.drop_first(), f, a - 1);
    }
}

/// The metadata that `metadata_of` reads has unique keys.
pub proof fn lemma_metadata_pairs_unique(lines: Seq<Seq<char>>)
    ensures
        keys_unique(metadata_pairs(lines)),
    decreases lines.len(),
{
    if lines.len() > 0 {
        lemma_metadata_pairs_unique(lines.drop_last());
        let l = lines.last();
        if let Some(k) = find_from(l, 0, ':') {
            lemma_upsert_unique(
                metadata_pairs(lines.drop_last()),
                l.subrange(0, k),
                trimmed_start(l.subrange(k + 1, l.len() as int)),
            );
        }
    }
}

/// Sets `key` to `value` in `r`.
pub fn upsert_pair(r: &mut Vec<(String, String)>, key: String, value: String)
    ensures
        pairs_view(final(r)@) == upsert(pairs_view(old(r)@), key@, value@),
{
    let ghost s = pairs_view(r@);
    let ghost p = has_key(key@);
    let mut i: usize = 0;
    while i < r.len()
        invariant
            s == pairs_view(r@),
            s == pairs_view(old(r)@),
            p == has_key(key@),
            i <= s.len(),
            forall|k: int| 0 <= k < i ==> !p(#[trigger] s[k]),
        decreases r.len() - i,
    {
        if r[i].0 == key {
            proof {
                lemma_first_where_found(s, p, i as int);
            }
            let kv = (key, value);
            let ghost kvv = (kv.0@, kv.1@);
            r.set(i, kv);
            assert(pairs_view(r@) =~= s.update(i as int, kvv));
            return;
        }
        i = i + 1;
    }
    proof {
        lemma_first_where_none(s, p);
    }
    let ghost kvv = (key@, value@);
    r.push((key, value));
    assert(pairs_view(r@) =~= s.push(kvv));
}

/// The metadata of the metadata entry's translation.
pub open spec fn metadata_of(msgstr: Seq<char>) -> Seq<(Seq<char>, Seq<char>)> {
    metadata_pairs(text_lines(msgstr))
}

fn is_white_char(c: char) -> (r: bool)
    ensures
        r == is_white(c),
{
    let u = c as u32;
    (0x9 <= u && u <= 0xd) || u == 0x20 || u == 0x85 || u == 0xa0 || u == 0x1680 || (0x2000 <= u
        && u <= 0x200a) || u == 0x2028 || u == 0x2029 || u == 0x202f || u == 0x205f || u == 0x3000
}

/// The lines of a comment block: its segments between newlines.
pub fn split_newlines(s: &str) -> (r: Vec<String>)
    ensures
        strs_view(r@) == split_on(s@, '\n'),
{
    let cs = chars_of(s);
    let parts = split_chars(&cs, 0, '\n');
    assert(cs@.subrange(0, cs@.len() as int) =~= cs@);
    let mut r: Vec<String> = Vec::new();
    let mut i: usize = 0;
    while i < parts.len()
        invariant
            i <= parts@.len(),
            r@.len() == i,
            forall|k: int| 0 <= k < i ==> #[trigger] r@[k]@ == parts@[k]@,
        decreases parts.len() - i,
    {
        let line = sub_string(&parts[i], 0, parts[i].len());
        assert(parts@[i as int]@.subrange(0, parts@[i as int]@.len() as int) =~= parts@[i as int]@);
        r.push(line);
        i = i + 1;
    }
    assert(strs_view(r@) =~= parts@.map_values(|v: Vec<char>| v@));
    r
}

/// Segments of `l` from `from` on between NUL characters.
pub fn split_chars_pub(l: &Vec<char>, from: usize) -> (r: Vec<Vec<char>>)
    requires
        from <= l@.len(),
    ensures
        r@.map_values(|v: Vec<char>| v@) == split_on(l@.subrange(from as int, l@.len() as int), '\0'),
{
    split_chars(l, from, '\0')
}

/// Segments of `l` from `from` on between the characters `c`.
fn split_chars(l: &Vec<char>, from: usize, c: char) -> (r: Vec<Vec<char>>)
    requires
        from <= l@.len(),
    ensures
        r@.map_values(|v: Vec<char>| v@) == split_on(l@.subrange(from as int, l@.len() as int), c),
{
    let mut r: Vec<Vec<char>> = Vec::new();
    let mut cur: Vec<char> = Vec::new();
    let mut i = from;
    assert(l@.subrange(from as int, from as int) =~= Seq::<char>::empty());
    while i < l.len()
        invariant
            from <= i <= l@.len(),
            r@.map_values(|v: Vec<char>| v@).push(cur@) == split_on(l@.subrange(from as int, i as int), c),
        decreases l.len() - i,
    {
        let ghost before = r@.map_values(|v: Vec<char>| v@);
        assert(l@.subrange(from as int, i + 1).drop_last() =~= l@.subrange(from as int, i as int));
        if l[i] == c {
            r.push(cur);
            cur = Vec::new();
            assert(r@.map_values(|v: Vec<char>| v@).push(cur@) =~= split_on(l@.subrange(from as int, i + 1), c));
        } else {
            cur.push(l[i]);
            assert(r@.map_values(|v: Vec<char>| v@).push(cur@) =~= split_on(l@.subrange(from as int, i + 1), c));
        }
        i = i + 1;
    }
    r.push(cur);
    r
}

fn trim_chars(v: &Vec<char>) -> (r: String)
    ensures
        r@ == trimmed(v@),
{
    let mut end = v.len();
    assert(v@.subrange(0, end as int) =~= v@);
    while end > 0 && is_white_char(v[end - 1])
        invariant
            end <= v@.len(),
            trimmed_end(v@) == trimmed_end(v@.subrange(0, end as int)),
        decreases end,
    {
        assert(v@.subrange(0, end as int).drop_last() =~= v@.subrange(0, end - 1));
        end = end - 1;
    }
    let ghost te = v@.subrange(0, end as int);
    assert(trimmed_end(te) == te);
    let mut start: usize = 0;
    assert(te.subrange(0, end as int) =~= te);
    while start < end && is_white_char(v[start])
        invariant
            start <= end <= v@.len(),
            te == v@.subrange(0, end as int),
            trimmed_start(te) == trimmed_start(v@.subrange(start as int, end as int)),
        decreases end - start,
    {
        assert(v@.subrange(start as int, end as int).drop_first() =~= v@.subrange(start + 1, end as int));
        start = start + 1;
    }
    sub_string(v, start, end)
}

/// The flags of the `#,` line `l`.
pub fn flags_of_line(l: &Vec<char>, from: usize) -> (r: Vec<String>)
    requires
        from <= l@.len(),
    ensures
        strs_view(r@) == flags_of(l@.subrange(from as int, l@.len() as int)),
{
    let parts = split_chars(l, from, ',');
    let ghost ps = parts@.map_values(|v: Vec<char>| v@);
    let ghost tr = ps.map_values(|x: Seq<char>| trimmed(x));
    let mut r: Vec<String> = Vec::new();
    let mut i: usize = 0;
    while i < parts.len()
        invariant
            i <= parts@.len(),
            ps == parts@.map_values(|v: Vec<char>| v@),
            tr == ps.map_values(|x: Seq<char>| trimmed(x)),
            strs_view(r@) == drop_empty(tr.subrange(0, i as int)),
        decreases parts.len() - i,
    {
        let t = trim_chars(&parts[i]);
        assert(tr.subrange(0, i + 1).drop_last() =~= tr.subrange(0, i as int));
        if !t.as_str().is_empty() {
            let ghost prev = strs_view(r@);
            r.push(t);
            assert(strs_view(r@) =~= prev.push(t@));
        }
        i = i + 1;
    }
    assert(tr.subrange(0, i as int) =~= tr);
    r
}

fn rfind_char(v: &Vec<char>, c: char) -> (r: Option<usize>)
    ensures
        match rfind(v@, c) {
            Some(k) => r is Some && r->Some_0 as int == k && k < v@.len(),
            None => r is None,
        },
{
    let mut i = v.len();
    assert(v@.subrange(0, i as int) =~= v@);
    while i > 0
        invariant
            i <= v@.len(),
            rfind(v@, c) == rfind(v@.subrange(0, i as int), c),
        decreases i,
    {
        if v[i - 1] == c {
            return Some(i - 1);
        }
        assert(v@.subrange(0, i as int).drop_last() =~= v@.subrange(0, i - 1));
        i = i - 1;
    }
    None
}

fn occurrence_of_word(t: &Vec<char>) -> (r: (String, String))
    ensures
        (r.0@, r.1@) == occurrence_of(t@),
{
    let n = t.len();
    match rfind_char(t, ':') {
        Some(k) => {
            let mut digits = k + 1 < n;
            let mut j = k + 1;
            while j < n
                invariant
                    k + 1 <= j <= n,
                    n == t@.len(),
                    digits == (k + 1 < n && forall|q: int| k + 1 <= q < j ==> '0' <= #[trigger] t@[q] <= '9'),
                decreases n - j,
            {
                if !('0' <= t[j] && t[j] <= '9') {
                    digits = false;
                }
                j = j + 1;
            }
            assert(digits == all_digits(t@.subrange(k + 1, n as int))) by {
                let s = t@.subrange(k + 1, n as int);
                if digits {
                    assert forall|i: int| 0 <= i < s.len() implies '0' <= #[trigger] s[i] <= '9' by {
                        assert(s[i] == t@[k + 1 + i]);
                    }
                } else if s.len() > 0 {
                    let q = choose|q: int| k + 1 <= q < n && !('0' <= #[trigger] t@[q] <= '9');
                    assert(s[q - k - 1] == t@[q]);
                }
            }
            if digits {
                (sub_string(t, 0, k), sub_string(t, k + 1, n))
            } else {
                (sub_string(t, 0, n), String::new())
            }
        },
        None => (sub_string(t, 0, n), String::new()),
    }
}

/// The occurrences of the `#:` line `l`.
pub fn occurrences_of_line(l: &Vec<char>, from: usize) -> (r: Vec<(String, String)>)
    requires
        from <= l@.len(),
    ensures
        pairs_view(r@) == occurrences_of(l@.subrange(from as int, l@.len() as int)),
{
    let parts = split_chars(l, from, ' ');
    let ghost ps = parts@.map_values(|v: Vec<char>| v@);
    let mut r: Vec<(String, String)> = Vec::new();
    let mut i: usize = 0;
    while i < parts.len()
        invariant
            i <= parts@.len(),
            ps == parts@.map_values(|v: Vec<char>| v@),
            pairs_view(r@) == drop_empty(ps.subrange(0, i as int)).map_values(|t: Seq<char>| occurrence_of(t)),
        decreases parts.len() - i,
    {
        assert(ps.subrange(0, i + 1).drop_last() =~= ps.subrange(0, i as int));
        let ghost prev = pairs_view(r@);
        if parts[i].len() > 0 {
            let o = occurrence_of_word(&parts[i]);
            r.push(o);
            assert(pairs_view(r@) =~= prev.push(occurrence_of(ps[i as int])));
            assert(drop_empty(ps.subrange(0, i + 1)) == drop_empty(ps.subrange(0, i as int)).push(ps[i as int]));
            assert(pairs_view(r@) =~= drop_empty(ps.subrange(0, i + 1)).map_values(|t: Seq<char>| occurrence_of(t)));
        }
        i = i + 1;
    }
    assert(ps.subrange(0, i as int) =~= ps);
    r
}

/// The metadata of the metadata entry's translation `msgstr`.
pub fn metadata_of_msgstr(msgstr: &str) -> (r: Vec<(String, String)>)
    ensures
        pairs_view(r@) == metadata_of(msgstr@),
        keys_unique(pairs_view(r@)),
{
    proof {
        lemma_metadata_pairs_unique(text_lines(msgstr@));
    }
    let lines = split_lines(msgstr);
    let ghost ls = strs_view(lines@);
    let mut r: Vec<(String, String)> = Vec::new();
    let mut i: usize = 0;
    while i < lines.len()
        invariant
            i <= lines@.len(),
            ls == strs_view(lines@),
            ls == text_lines(msgstr@),
            pairs_view(r@) == metadata_pairs(ls.subrange(0, i as int)),
        decreases lines.len() - i,
    {
        assert(ls.subrange(0, i + 1).drop_last() =~= ls.subrange(0, i as int));
        let l = chars_of(lines[i].as_str());
        let n = l.len();
        let ghost prev = pairs_view(r@);
        match find_char_from(&l, 0, ':') {
            Some(k) => {
                let key = sub_string(&l, 0, k);
                let mut s = k + 1;
                assert(l@.subrange(s as int, n as int) =~= l@.subrange(k + 1, n as int));
                while s < n && is_white_char(l[s])
                    invariant
                        k + 1 <= s <= n,
                        n == l@.len(),
                        trimmed_start(l@.subrange(k + 1, n as int)) == trimmed_start(l@.subrange(s as int, n as int)),
                    decreases n - s,
                {
                    assert(l@.subrange(s as int, n as int).drop_first() =~= l@.subrange(s + 1, n as int));
                    s = s + 1;
                }
                let value = sub_string(&l, s, n);
                upsert_pair(&mut r, key, value);
            },
            None => {},
        }
        i = i + 1;
    }
    assert(ls.subrange(0, i as int) =~= ls);
    r
}

} // verus!

verus! {

proof fn lemma_escaped_has_no_bare_quote(v: Seq<char>)
    ensures
        first_bare_quote(escaped(v)) is None,
    decreases v.len(),
{
    if v.len() > 0 {
        let rest = v.drop_first();
        assert(v =~= seq![v[0]] + rest);
        lemma_escaped_cons(v[0], rest);
        lemma_escaped_has_no_bare_quote(rest);
        let e = escaped(v);
        let er = escaped(rest);
        let ec = escape_char(v[0]);
        assert(e == ec + er);
        if ec.len() == 2 {
            assert(e[0] == '\\');
            assert(e.subrange(2, e.len() as int) =~= er);
        } else {
            assert(e[0] == v[0]);
            assert(e.drop_first() =~= er);
        }
    } else {
        assert(escaped(v) =~= Seq::<char>::empty());
    }
}

/// A string written between double quotes with its escapes reads back as
/// the string itself.
pub proof fn lemma_quoted_escaped_reads_back(pre: Seq<char>, v: Seq<char>)
    ensures
        quoted_value(pre + seq!['"'] + escaped(v) + seq!['"'], pre.len() as int) == Ok::<
            Seq<char>,
            QuoteFault,
        >(v),
{
    let l = pre + seq!['"'] + escaped(v) + seq!['"'];
    let rest = l.subrange(pre.len() as int, l.len() as int);
    assert(rest =~= seq!['"'] + escaped(v) + seq!['"']);
    assert(rest.subrange(1, rest.len() - 1) =~= escaped(v));
    lemma_escaped_has_no_bare_quote(v);
    lemma_unescape_inverts_escape(v);
}

} // verus!

verus! {

/// A `msgid` line that holds a string on one line, as the PO writer emits
/// it, reads back as the string: the tokenizer finds the keyword and the
/// quoted string after it gives the string itself.
pub proof fn lemma_msgid_line_reads_back(v: Seq<char>)
    ensures
        ({
            let l = "msgid"@ + seq![' ', '"'] + escaped(v) + seq!['"'];
            &&& tokenize(l) == (
                false,
                Token::Keyword {
                    field: Field::Msgid,
                    idx_start: 0,
                    idx_end: 0,
                    payload: 6,
                },
            )
            &&& quoted_value(l, 6) == Ok::<Seq<char>, QuoteFault>(v)
        }),
{
    reveal_strlit("msgid");
    reveal_strlit("msgid ");
    reveal_strlit("msgctxt ");
    reveal_strlit("msgid_plural ");
    reveal_strlit("#~| ");
    reveal_strlit("#| ");
    reveal_strlit("#~ ");
    reveal_strlit("#");
    let esc = escaped(v);
    let l = "msgid"@ + seq![' ', '"'] + esc + seq!['"'];
    let pre = "msgid"@ + seq![' '];
    assert(l =~= pre + seq!['"'] + esc + seq!['"']);
    assert(pre.len() == 6);
    lemma_quoted_escaped_reads_back(pre, v);
    assert(l[0] == 'm');
    assert(l[3] == 'i');
    assert(l[5] == ' ');
    assert(!is_blank(l)) by {
        assert(!is_white(l[0]));
    }
    assert(!has_prefix_at(l, 0, "#~| "@)) by {
        assert(l.subrange(0, 4)[0] != "#~| "@[0]);
    }
    assert(!has_prefix_at(l, 0, "#| "@)) by {
        assert(l.subrange(0, 3)[0] != "#| "@[0]);
    }
    assert(!has_prefix_at(l, 0, "#~ "@)) by {
        assert(l.subrange(0, 3)[0] != "#~ "@[0]);
    }
    assert(!has_prefix_at(l, 0, "#"@)) by {
        assert(l.subrange(0, 1)[0] != "#"@[0]);
    }
    assert(!has_prefix_at(l, 0, "msgctxt "@)) by {
        if l.len() >= 8 {
            assert(l.subrange(0, 8)[3] != "msgctxt "@[3]);
        }
    }
    assert(!has_prefix_at(l, 0, "msgid_plural "@)) by {
        if l.len() >= 13 {
            assert(l.subrange(0, 13)[5] != "msgid_plural "@[5]);
        }
    }
    assert(has_prefix_at(l, 0, "msgid "@)) by {
        assert(l.subrange(0, 6) =~= "msgid "@);
    }
}

} // verus!
