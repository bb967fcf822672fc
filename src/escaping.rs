//! The escapes of PO strings: backslash, double quote, newline, tab and
//! carriage return are written with a backslash.

use vstd::prelude::*;
use crate::errors::EscapingError;
use crate::text::{chars_of, push_char};

verus! {

/// How one character is written inside a PO string.
pub open spec fn escape_char(c: char) -> Seq<char> {
    if c == '\\' {
        seq!['\\', '\\']
    } else if c == '"' {
        seq!['\\', '"']
    } else if c == '\n' {
        seq!['\\', 'n']
    } else if c == '\t' {
        seq!['\\', 't']
    } else if c == '\r' {
        seq!['\\', 'r']
    } else {
        seq![c]
    }
}

/// `s` with every character written as `escape_char` writes it.
pub open spec fn escaped(s: Seq<char>) -> Seq<char>
    decreases s.len(),
{
    if s.len() == 0 {
        Seq::empty()
    } else {
        escaped(s.drop_last()) + escape_char(s.last())
    }
}

/// The character that `\c` stands for, if `c` names an escape.
pub open spec fn unescape_char(c: char) -> Option<char> {
    if c == 'n' {
        Some('\n')
    } else if c == 't' {
        Some('\t')
    } else if c == 'r' {
        Some('\r')
    } else if c == '\\' {
        Some('\\')
    } else if c == '"' {
        Some('"')
    } else {
        None
    }
}

/// What an escape failure is, in the model: `None` for a backslash at the
/// end, `Some(c)` for a backslash followed by `c`, which names no escape.
pub type UnescapeFailure = Option<char>;

/// `rest`'s result with `pre` put in front of a success.
pub open spec fn prefixed(pre: Seq<char>, rest: Result<Seq<char>, UnescapeFailure>) -> Result<
    Seq<char>,
    UnescapeFailure,
> {
    match rest {
        Ok(t) => Ok(pre + t),
        Err(e) => Err(e),
    }
}

/// Reading `s` from left to right, each escape replaced by the character it
/// stands for; with `keep_quotes`, `\"` stays as it is. The first bad escape
/// decides the failure.
pub open spec fn unescaped(s: Seq<char>, keep_quotes: bool) -> Result<Seq<char>, UnescapeFailure>
    decreases s.len(),
{
    if s.len() == 0 {
        Ok(Seq::empty())
    } else if s[0] != '\\' {
        prefixed(seq![s[0]], unescaped(s.drop_first(), keep_quotes))
    } else if s.len() == 1 {
        Err(None)
    } else if keep_quotes && s[1] == '"' {
        prefixed(seq!['\\', '"'], unescaped(s.subrange(2, s.len() as int), keep_quotes))
    } else {
        match unescape_char(s[1]) {
            Some(c) => prefixed(seq![c], unescaped(s.subrange(2, s.len() as int), keep_quotes)),
            None => Err(Some(s[1])),
        }
    }
}

proof fn lemma_prefixed_empty(x: Result<Seq<char>, UnescapeFailure>)
    ensures
        prefixed(Seq::empty(), x) == x,
{
    if let Ok(t) = x {
        assert(Seq::<char>::empty() + t =~= t);
    }
}

proof fn lemma_prefixed_assoc(a: Seq<char>, b: Seq<char>, x: Result<Seq<char>, UnescapeFailure>)
    ensures
        prefixed(a, prefixed(b, x)) == prefixed(a + b, x),
{
    if let Ok(t) = x {
        assert(a + (b + t) =~= (a + b) + t);
    }
}

/// Writes `text` as it stands between the quotes of a PO string.
pub fn escape(text: &str) -> (r: String)
    ensures
        r@ == escaped(text@),
{
    let cs = chars_of(text);
    let mut r = String::new();
    let mut i: usize = 0;
    while i < cs.len()
        invariant
            cs@ == text@,
            i <= cs@.len(),
            r@ == escaped(cs@.subrange(0, i as int)),
        decreases cs.len() - i,
    {
        let c = cs[i];
        if c == '\\' {
            push_char(&mut r, '\\');
            push_char(&mut r, '\\');
        } else if c == '"' {
            push_char(&mut r, '\\');
            push_char(&mut r, '"');
        } else if c == '\n' {
            push_char(&mut r, '\\');
            push_char(&mut r, 'n');
        } else if c == '\t' {
            push_char(&mut r, '\\');
            push_char(&mut r, 't');
        } else if c == '\r' {
            push_char(&mut r, '\\');
            push_char(&mut r, 'r');
        } else {
            push_char(&mut r, c);
        }
        assert(cs@.subrange(0, i + 1).drop_last() =~= cs@.subrange(0, i as int));
        assert(r@ =~= escaped(cs@.subrange(0, i + 1)));
        i = i + 1;
    }
    assert(cs@.subrange(0, i as int) =~= cs@);
    r
}

fn unescape_with(text: &str, keep_quotes: bool) -> (r: Result<String, EscapingError>)
    ensures
        match unescaped(text@, keep_quotes) {
            Ok(t) => r is Ok && r->Ok_0@ == t,
            Err(None) => r matches Err(EscapingError::EscapeAtEndOfString { text: tx }) && tx@ == text@,
            Err(Some(c)) => r matches Err(EscapingError::InvalidEscapedCharacter { text: tx, character })
                && tx@ == text@ && character == c,
        },
{
    let cs = chars_of(text);
    let n = cs.len();
    let mut r = String::new();
    let mut i: usize = 0;
    proof {
        assert(cs@.subrange(0, n as int) =~= cs@);
        lemma_prefixed_empty(unescaped(text@, keep_quotes));
    }
    while i < n
        invariant
            cs@ == text@,
            n == cs@.len(),
            i <= n,
            unescaped(text@, keep_quotes) == prefixed(r@, unescaped(cs@.subrange(i as int, n as int), keep_quotes)),
        decreases n - i,
    {
        let ghost rest = cs@.subrange(i as int, n as int);
        let ghost r0 = r@;
        let c = cs[i];
        if c != '\\' {
            assert(rest.drop_first() =~= cs@.subrange(i + 1, n as int));
            assert(rest[0] == c);
            push_char(&mut r, c);
            proof {
                assert(r@ =~= r0 + seq![c]);
                lemma_prefixed_assoc(r0, seq![c], unescaped(cs@.subrange(i + 1, n as int), keep_quotes));
            }
            i = i + 1;
        } else if i + 1 == n {
            return Err(EscapingError::EscapeAtEndOfString { text: text.to_owned() });
        } else {
            let d = cs[i + 1];
            assert(rest.subrange(2, rest.len() as int) =~= cs@.subrange(i + 2, n as int));
            let ghost mut pushed: Seq<char> = Seq::empty();
            if keep_quotes && d == '"' {
                push_char(&mut r, '\\');
                push_char(&mut r, '"');
                proof {
                    pushed = seq!['\\', '"'];
                }
            } else {
                let e = if d == 'n' {
                    '\n'
                } else if d == 't' {
                    '\t'
                } else if d == 'r' {
                    '\r'
                } else if d == '\\' {
                    '\\'
                } else if d == '"' {
                    '"'
                } else {
                    return Err(EscapingError::InvalidEscapedCharacter { text: text.to_owned(), character: d });
                };
                push_char(&mut r, e);
                proof {
                    pushed = seq![e];
                }
            }
            proof {
                let tail = unescaped(cs@.subrange(i + 2, n as int), keep_quotes);
                assert(rest[0] == c && rest[1] == d && rest.len() >= 2);
                assert(r@ =~= r0 + pushed);
                assert(unescaped(rest, keep_quotes) == prefixed(pushed, tail));
                lemma_prefixed_assoc(r0, pushed, tail);
            }
            i = i + 2;
        }
    }
    Ok(r)
}

} // verus!

verus! {

/// Reads the escapes of `text`: `\n`, `\t`, `\r`, `\\` and `\"` become the
/// character they stand for. A lone backslash at the end, or a backslash
/// before any other character, is an error.
pub fn unescape(text: &str) -> (r: Result<String, EscapingError>)
    ensures
        match unescaped(text@, false) {
            Ok(t) => r is Ok && r->Ok_0@ == t,
            Err(None) => r matches Err(EscapingError::EscapeAtEndOfString { text: tx }) && tx@ == text@,
            Err(Some(c)) => r matches Err(EscapingError::InvalidEscapedCharacter { text: tx, character })
                && tx@ == text@ && character == c,
        },
{
    unescape_with(text, false)
}

/// As `unescape`, but `\"` stays as it is.
pub fn unescape_except_double_quotes(text: &str) -> (r: Result<String, EscapingError>)
    ensures
        match unescaped(text@, true) {
            Ok(t) => r is Ok && r->Ok_0@ == t,
            Err(None) => r matches Err(EscapingError::EscapeAtEndOfString { text: tx }) && tx@ == text@,
            Err(Some(c)) => r matches Err(EscapingError::InvalidEscapedCharacter { text: tx, character })
                && tx@ == text@ && character == c,
        },
{
    unescape_with(text, true)
}

} // verus!

verus! {

/// Escaping a string that starts with `c` writes `c`'s escape first.
pub proof fn lemma_escaped_cons(c: char, s: Seq<char>)
    ensures
        escaped(seq![c] + s) == escape_char(c) + escaped(s),
    decreases s.len(),
{
    if s.len() == 0 {
        assert(seq![c] + s =~= seq![c]);
        assert(seq![c].drop_last() =~= Seq::<char>::empty());
        assert(escape_char(c) + escaped(s) =~= escape_char(c));
        assert(escaped(seq![c]) =~= escaped(Seq::<char>::empty()) + escape_char(c));
    } else {
        lemma_escaped_cons(c, s.drop_last());
        assert((seq![c] + s).drop_last() =~= seq![c] + s.drop_last());
        assert((seq![c] + s).last() == s.last());
        assert(escape_char(c) + escaped(s.drop_last()) + escape_char(s.last()) =~= escape_char(c) + (escaped(
            s.drop_last(),
        ) + escape_char(s.last())));
    }
}

proof fn lemma_unescape_escape_char(c: char, t: Seq<char>)
    ensures
        unescaped(escape_char(c) + t, false) == prefixed(seq![c], unescaped(t, false)),
{
    let e = escape_char(c) + t;
    if escape_char(c).len() == 2 {
        assert(e[0] == '\\');
        assert(e.subrange(2, e.len() as int) =~= t);
    } else {
        assert(e.drop_first() =~= t);
    }
}

/// Reading the escapes of an escaped string gives the string back.
pub proof fn lemma_unescape_inverts_escape(s: Seq<char>)
    ensures
        unescaped(escaped(s), false) == Ok::<Seq<char>, UnescapeFailure>(s),
    decreases s.len(),
{
    if s.len() == 0 {
        assert(escaped(s) =~= Seq::<char>::empty());
        assert(s =~= Seq::<char>::empty());
        assert(unescaped(Seq::<char>::empty(), false) == Ok::<Seq<char>, UnescapeFailure>(Seq::<char>::empty()));
    } else {
        let rest = s.drop_first();
        assert(s =~= seq![s[0]] + rest);
        lemma_escaped_cons(s[0], rest);
        lemma_unescape_escape_char(s[0], escaped(rest));
        lemma_unescape_inverts_escape(rest);
        assert(escaped(s) == escape_char(s[0]) + escaped(rest));
        assert(unescaped(escaped(s), false) == prefixed(seq![s[0]], Ok::<Seq<char>, UnescapeFailure>(rest)));
        assert(prefixed(seq![s[0]], Ok::<Seq<char>, UnescapeFailure>(rest)) == Ok::<Seq<char>, UnescapeFailure>(
            seq![s[0]] + rest,
        ));
        assert(seq![s[0]] + rest == s);
    }
}

} // verus!
