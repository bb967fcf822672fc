//! The lines of PO text: what each one says, and the pieces inside them.

use vstd::prelude::*;
use crate::lines::is_white;
use crate::text::chars_of;

verus! {

/// The field that a keyword line opens, or that continuation lines extend.
#[derive(Clone, Copy, Debug, PartialEq, Eq, Structural)]
pub enum Field {
    Nothing,
    Msgctxt,
    Msgid,
    MsgidPlural,
    Msgstr,
    MsgstrPlural,
    PrevMsgctxt,
    PrevMsgid,
    PrevMsgidPlural,
}

/// What a line of PO text says. Positions are character indices in the line.
#[derive(Clone, Copy, Debug, PartialEq, Eq, Structural)]
pub enum Token {
    /// An empty line, or one of white space: the end of an entry.
    Blank,
    /// A keyword: the plural index lies in `idx_start..idx_end` and the
    /// quoted string starts at `payload`.
    Keyword { field: Field, idx_start: usize, idx_end: usize, payload: usize },
    /// A quoted string that extends the open field.
    Continuation { payload: usize },
    /// `#:` followed by occurrences.
    Occurrences,
    /// `#,` followed by flags.
    Flags,
    /// An extracted comment, its text starting at `start`.
    TComment { start: usize },
    /// A translator comment, its text starting at `start`.
    Comment { start: usize },
    /// An unknown keyword, the word in `start..end`.
    Unknown { start: usize, end: usize },
    /// A line that none of the others describes.
    Bad,
}

/// Whether `l`, from position `off`, starts with `p`.
pub open spec fn has_prefix_at(l: Seq<char>, off: int, p: Seq<char>) -> bool {
    0 <= off && off + p.len() <= l.len() && l.subrange(off, off + p.len()) == p
}

/// Whether every character of `l` is white space.
pub open spec fn is_blank(l: Seq<char>) -> bool {
    forall|i: int| 0 <= i < l.len() ==> is_white(#[trigger] l[i])
}

/// The first position from `off` on that holds `c`.
pub open spec fn find_from(l: Seq<char>, off: int, c: char) -> Option<int>
    decreases l.len() - off,
{
    if off < 0 || off >= l.len() {
        None
    } else if l[off] == c {
        Some(off)
    } else {
        find_from(l, off + 1, c)
    }
}

/// End of the word that starts at `off`: the next space, or the end.
pub open spec fn word_end(l: Seq<char>, off: int) -> int {
    match find_from(l, off, ' ') {
        Some(k) => k,
        None => l.len() as int,
    }
}

/// The line after `off` when it is no keyword that a live or obsolete entry
/// knows.
pub open spec fn unknown_body(l: Seq<char>, off: int) -> Token {
    if off == 0 {
        Token::Bad
    } else {
        Token::Unknown { start: off as usize, end: word_end(l, off) as usize }
    }
}

/// What the field part of a line, from `off` on, says.
pub open spec fn body_token(l: Seq<char>, off: int) -> Token {
    if has_prefix_at(l, off, "msgctxt "@) {
        Token::Keyword { field: Field::Msgctxt, idx_start: 0, idx_end: 0, payload: (off + "msgctxt "@.len()) as usize }
    } else if has_prefix_at(l, off, "msgid_plural "@) {
        Token::Keyword {
            field: Field::MsgidPlural,
            idx_start: 0,
            idx_end: 0,
            payload: (off + "msgid_plural "@.len()) as usize,
        }
    } else if has_prefix_at(l, off, "msgid "@) {
        Token::Keyword { field: Field::Msgid, idx_start: 0, idx_end: 0, payload: (off + "msgid "@.len()) as usize }
    } else if has_prefix_at(l, off, "msgstr["@) {
        let s = off + "msgstr["@.len();
        match find_from(l, s, ']') {
            Some(k) => if k + 1 < l.len() && l[k + 1] == ' ' {
                Token::Keyword { field: Field::MsgstrPlural, idx_start: s as usize, idx_end: k as usize, payload: (k + 2) as usize }
            } else {
                Token::Bad
            },
            None => Token::Bad,
        }
    } else if has_prefix_at(l, off, "msgstr "@) {
        Token::Keyword { field: Field::Msgstr, idx_start: 0, idx_end: 0, payload: (off + "msgstr "@.len()) as usize }
    } else if has_prefix_at(l, off, "\""@) {
        Token::Continuation { payload: off as usize }
    } else {
        unknown_body(l, off)
    }
}

/// What the part of a previous-value line after `off` says.
pub open spec fn prev_token(l: Seq<char>, off: int) -> Token {
    if has_prefix_at(l, off, "msgctxt "@) {
        Token::Keyword { field: Field::PrevMsgctxt, idx_start: 0, idx_end: 0, payload: (off + "msgctxt "@.len()) as usize }
    } else if has_prefix_at(l, off, "msgid_plural "@) {
        Token::Keyword {
            field: Field::PrevMsgidPlural,
            idx_start: 0,
            idx_end: 0,
            payload: (off + "msgid_plural "@.len()) as usize,
        }
    } else if has_prefix_at(l, off, "msgid "@) {
        Token::Keyword { field: Field::PrevMsgid, idx_start: 0, idx_end: 0, payload: (off + "msgid "@.len()) as usize }
    } else if has_prefix_at(l, off, "\""@) {
        Token::Continuation { payload: off as usize }
    } else {
        Token::Unknown { start: off as usize, end: word_end(l, off) as usize }
    }
}

/// What a comment line says.
pub open spec fn comment_token(l: Seq<char>) -> Token {
    if has_prefix_at(l, 0, "#:"@) {
        Token::Occurrences
    } else if has_prefix_at(l, 0, "#,"@) {
        Token::Flags
    } else if has_prefix_at(l, 0, "#."@) {
        Token::TComment { start: if l.len() > 2 && l[2] == ' ' { 3 } else { 2 } }
    } else if has_prefix_at(l, 0, "# "@) {
        Token::Comment { start: 2 }
    } else if l.len() == 1 {
        Token::Comment { start: 1 }
    } else {
        Token::Unknown { start: 0, end: word_end(l, 0) as usize }
    }
}

/// What a line says, and whether it belongs to an obsolete entry.
pub open spec fn tokenize(l: Seq<char>) -> (bool, Token) {
    if is_blank(l) {
        (false, Token::Blank)
    } else if has_prefix_at(l, 0, "#~| "@) {
        (true, prev_token(l, "#~| "@.len() as int))
    } else if has_prefix_at(l, 0, "#| "@) {
        (false, prev_token(l, "#| "@.len() as int))
    } else if has_prefix_at(l, 0, "#~ "@) {
        (true, body_token(l, "#~ "@.len() as int))
    } else if has_prefix_at(l, 0, "#"@) {
        (false, comment_token(l))
    } else {
        (false, body_token(l, 0))
    }
}

/// Whether the positions that `tok` names lie within a line of `len`
/// characters.
pub open spec fn within(tok: Token, len: int) -> bool {
    match tok {
        Token::Keyword { idx_start, idx_end, payload, .. } => idx_start <= idx_end <= len && payload <= len,
        Token::Continuation { payload } => payload <= len,
        Token::TComment { start } => start <= len,
        Token::Comment { start } => start <= len,
        Token::Unknown { start, end } => start <= end <= len,
        Token::Occurrences => 2 <= len,
        Token::Flags => 2 <= len,
        _ => true,
    }
}

/// Whether `l`, from position `off`, starts with `p`.
pub fn starts_with_at(l: &Vec<char>, off: usize, p: &str) -> (r: bool)
    ensures
        r == has_prefix_at(l@, off as int, p@),
{
    let pc = chars_of(p);
    let n = l.len();
    if off > l.len() || pc.len() > l.len() - off {
        return false;
    }
    let mut i: usize = 0;
    while i < pc.len()
        invariant
            off + pc@.len() <= l@.len(),
            n == l@.len(),
            pc@ == p@,
            i <= pc@.len(),
            forall|k: int| 0 <= k < i ==> l@[off + k] == pc@[k],
        decreases pc.len() - i,
    {
        if l[off + i] != pc[i] {
            assert(l@.subrange(off as int, off + pc@.len())[i as int] != p@[i as int]);
            return false;
        }
        i = i + 1;
    }
    assert(l@.subrange(off as int, off + pc@.len()) =~= p@);
    true
}

fn lit_len(p: &str) -> (r: usize)
    ensures
        r == p@.len(),
{
    chars_of(p).len()
}

/// The first position from `off` on that holds `c`.
pub fn find_char_from(l: &Vec<char>, off: usize, c: char) -> (r: Option<usize>)
    ensures
        match find_from(l@, off as int, c) {
            Some(k) => r is Some && r->Some_0 as int == k && off <= k < l@.len(),
            None => r is None,
        },
{
    let mut i = off;
    while i < l.len()
        invariant
            off <= i,
            find_from(l@, off as int, c) == find_from(l@, i as int, c),
        decreases l.len() - i,
    {
        if l[i] == c {
            return Some(i);
        }
        i = i + 1;
    }
    None
}

fn word_end_of(l: &Vec<char>, off: usize) -> (r: usize)
    requires
        off <= l@.len(),
    ensures
        r == word_end(l@, off as int),
        off <= r <= l@.len(),
{
    match find_char_from(l, off, ' ') {
        Some(k) => k,
        None => l.len(),
    }
}

fn blank(l: &Vec<char>) -> (r: bool)
    ensures
        r == is_blank(l@),
{
    let mut i: usize = 0;
    while i < l.len()
        invariant
            i <= l@.len(),
            forall|k: int| 0 <= k < i ==> is_white(#[trigger] l@[k]),
        decreases l.len() - i,
    {
        let u = l[i] as u32;
        let w = (0x9 <= u && u <= 0xd) || u == 0x20 || u == 0x85 || u == 0xa0 || u == 0x1680 || (0x2000
            <= u && u <= 0x200a) || u == 0x2028 || u == 0x2029 || u == 0x202f || u == 0x205f || u
            == 0x3000;
        if !w {
            return false;
        }
        i = i + 1;
    }
    true
}

fn body_token_of(l: &Vec<char>, off: usize) -> (r: Token)
    requires
        off <= l@.len(),
    ensures
        r == body_token(l@, off as int),
        within(r, l@.len() as int),
{
    let n = l.len();
    if starts_with_at(l, off, "msgctxt ") {
        Token::Keyword { field: Field::Msgctxt, idx_start: 0, idx_end: 0, payload: off + lit_len("msgctxt ") }
    } else if starts_with_at(l, off, "msgid_plural ") {
        Token::Keyword { field: Field::MsgidPlural, idx_start: 0, idx_end: 0, payload: off + lit_len("msgid_plural ") }
    } else if starts_with_at(l, off, "msgid ") {
        Token::Keyword { field: Field::Msgid, idx_start: 0, idx_end: 0, payload: off + lit_len("msgid ") }
    } else if starts_with_at(l, off, "msgstr[") {
        let s = off + lit_len("msgstr[");
        match find_char_from(l, s, ']') {
            Some(k) => if k + 1 < l.len() && l[k + 1] == ' ' {
                Token::Keyword { field: Field::MsgstrPlural, idx_start: s, idx_end: k, payload: k + 2 }
            } else {
                Token::Bad
            },
            None => Token::Bad,
        }
    } else if starts_with_at(l, off, "msgstr ") {
        Token::Keyword { field: Field::Msgstr, idx_start: 0, idx_end: 0, payload: off + lit_len("msgstr ") }
    } else if starts_with_at(l, off, "\"") {
        Token::Continuation { payload: off }
    } else if off == 0 {
        Token::Bad
    } else {
        Token::Unknown { start: off, end: word_end_of(l, off) }
    }
}

fn prev_token_of(l: &Vec<char>, off: usize) -> (r: Token)
    requires
        off <= l@.len(),
    ensures
        r == prev_token(l@, off as int),
        within(r, l@.len() as int),
{
    let n = l.len();
    if starts_with_at(l, off, "msgctxt ") {
        Token::Keyword { field: Field::PrevMsgctxt, idx_start: 0, idx_end: 0, payload: off + lit_len("msgctxt ") }
    } else if starts_with_at(l, off, "msgid_plural ") {
        Token::Keyword {
            field: Field::PrevMsgidPlural,
            idx_start: 0,
            idx_end: 0,
            payload: off + lit_len("msgid_plural "),
        }
    } else if starts_with_at(l, off, "msgid ") {
        Token::Keyword { field: Field::PrevMsgid, idx_start: 0, idx_end: 0, payload: off + lit_len("msgid ") }
    } else if starts_with_at(l, off, "\"") {
        Token::Continuation { payload: off }
    } else {
        Token::Unknown { start: off, end: word_end_of(l, off) }
    }
}

fn comment_token_of(l: &Vec<char>) -> (r: Token)
    ensures
        r == comment_token(l@),
        within(r, l@.len() as int),
{
    proof {
        reveal_strlit("#:");
        reveal_strlit("#,");
        reveal_strlit("#.");
        reveal_strlit("# ");
    }
    if starts_with_at(l, 0, "#:") {
        Token::Occurrences
    } else if starts_with_at(l, 0, "#,") {
        Token::Flags
    } else if starts_with_at(l, 0, "#.") {
        Token::TComment { start: if l.len() > 2 && l[2] == ' ' { 3 } else { 2 } }
    } else if starts_with_at(l, 0, "# ") {
        Token::Comment { start: 2 }
    } else if l.len() == 1 {
        Token::Comment { start: 1 }
    } else {
        Token::Unknown { start: 0, end: word_end_of(l, 0) }
    }
}

/// What the line `l` says, and whether it belongs to an obsolete entry.
pub fn tokenize_line(l: &Vec<char>) -> (r: (bool, Token))
    ensures
        r == tokenize(l@),
        within(r.1, l@.len() as int),
{
    if blank(l) {
        (false, Token::Blank)
    } else if starts_with_at(l, 0, "#~| ") {
        (true, prev_token_of(l, lit_len("#~| ")))
    } else if starts_with_at(l, 0, "#| ") {
        (false, prev_token_of(l, lit_len("#| ")))
    } else if starts_with_at(l, 0, "#~ ") {
        (true, body_token_of(l, lit_len("#~ ")))
    } else if starts_with_at(l, 0, "#") {
        (false, comment_token_of(l))
    } else {
        (false, body_token_of(l, 0))
    }
}

} // verus!
