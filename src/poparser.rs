//! The PO parser: a state machine over the lines of the text.

use vstd::prelude::*;
use crate::entry::{empty_po_entry, po_fuzzy, POEntry, POEntryView};
use crate::errors::{MaybeFilename, SyntaxError};
use crate::file::Options;
use crate::lines::{split_lines, text_lines};
use crate::natsort::Pairs;
use crate::pofile::{entries_view, first_where, lemma_first_where_found, lemma_first_where_none, POFile};
use crate::popieces::{
    flags_of, flags_of_line, metadata_of, metadata_of_msgstr, occurrences_of, occurrences_of_line,
    quoted_value, quoted_value_of, QuoteFault, QuoteFaultKind, has_key, keys_unique,
};
use crate::potoken::{tokenize, tokenize_line, within, Field, Token};
use crate::text::{chars_of, push_char, sub_string};
use crate::values::{opt_view, pairs_view, strs_view};

verus! {

/// What stops the parser, in the model.
pub enum Failure {
    UnescapedQuote { line: int, index: int },
    Custom { line: int, index: int, message: Seq<char> },
    Generic { line: int, index: int },
}

/// The model of the parser's state.
pub ghost struct ParseState {
    /// Entries read so far, the metadata entry aside.
    pub done: Seq<POEntryView>,
    pub metadata: Pairs,
    pub metadata_seen: bool,
    pub metadata_is_fuzzy: bool,
    pub header: Option<Seq<char>>,
    /// The entry being read.
    pub cur: POEntryView,
    /// The field that continuation lines extend.
    pub field: Field,
}

pub open spec fn initial_state() -> ParseState {
    ParseState {
        done: Seq::empty(),
        metadata: Seq::empty(),
        metadata_seen: false,
        metadata_is_fuzzy: false,
        header: None,
        cur: empty_po_entry(0),
        field: Field::Nothing,
    }
}

/// Whether no line has set anything of `e`.
pub open spec fn untouched(e: POEntryView) -> bool {
    e == empty_po_entry(e.linenum)
}

/// Whether `e` has a translation, so that a new msgid or comment starts the
/// next entry.
pub open spec fn complete(e: POEntryView) -> bool {
    e.msgstr is Some || e.msgstr_plural.len() > 0
}

/// Whether an entry of `done` has the msgid and context of `e`.
pub open spec fn duplicate_of(done: Seq<POEntryView>, e: POEntryView) -> bool {
    exists|i: int| 0 <= i < done.len() && #[trigger] done[i].msgid == e.msgid && done[i].msgctxt == e.msgctxt
}

/// The translation of `e`, or an empty string.
pub open spec fn msgstr_or_empty(e: POEntryView) -> Seq<char> {
    match e.msgstr {
        Some(s) => s,
        None => Seq::empty(),
    }
}

#[verifier::opaque]
/// Ends the entry being read: nothing when no line set anything of it; the
/// catalog's metadata for the first entry with empty msgid, no context and
/// not obsolete; else the next entry, unless it repeats one and repeats are
/// refused.
pub open spec fn finalize(s: ParseState, dups: bool) -> Result<ParseState, Failure> {
    let s0 = ParseState { cur: empty_po_entry(0), field: Field::Nothing, ..s };
    if untouched(s.cur) {
        Ok(s0)
    } else if !s.metadata_seen && s.cur.msgid.len() == 0 && s.cur.msgctxt is None && !s.cur.obsolete {
        Ok(
            ParseState {
                metadata: metadata_of(msgstr_or_empty(s.cur)),
                metadata_seen: true,
                metadata_is_fuzzy: po_fuzzy(s.cur),
                header: s.cur.comment,
                ..s0
            },
        )
    } else if dups && duplicate_of(s.done, s.cur) {
        Err(Failure::Custom { line: s.cur.linenum as int, index: 0, message: "duplicate entry"@ })
    } else {
        Ok(ParseState { done: s.done.push(s.cur), ..s0 })
    }
}

/// `e` as it starts a line `n`: the line number is taken when nothing was
/// set yet, and the entry becomes obsolete on an obsolete line.
pub open spec fn begin(e: POEntryView, n: int, obsolete: bool) -> POEntryView {
    let e1 = if untouched(e) {
        POEntryView { linenum: n as usize, ..e }
    } else {
        e
    };
    if obsolete {
        POEntryView { obsolete: true, ..e1 }
    } else {
        e1
    }
}

/// `e` with the field `f` opened with the value `v` (`idx` for a plural
/// translation).
pub open spec fn set_field(e: POEntryView, f: Field, idx: Seq<char>, v: Seq<char>) -> POEntryView {
    match f {
        Field::Msgctxt => POEntryView { msgctxt: Some(v), ..e },
        Field::Msgid => POEntryView { msgid: v, ..e },
        Field::MsgidPlural => POEntryView { msgid_plural: Some(v), ..e },
        Field::Msgstr => POEntryView { msgstr: Some(v), ..e },
        Field::MsgstrPlural => POEntryView { msgstr_plural: e.msgstr_plural.push((idx, v)), ..e },
        Field::PrevMsgctxt => POEntryView { previous_msgctxt: Some(v), ..e },
        Field::PrevMsgid => POEntryView { previous_msgid: Some(v), ..e },
        Field::PrevMsgidPlural => POEntryView { previous_msgid_plural: Some(v), ..e },
        Field::Nothing => e,
    }
}

/// An optional string extended by `v`.
pub open spec fn extended(o: Option<Seq<char>>, v: Seq<char>) -> Option<Seq<char>> {
    match o {
        Some(x) => Some(x + v),
        None => Some(v),
    }
}

/// `e` with `v` added at the end of the field `f`.
pub open spec fn append_field(e: POEntryView, f: Field, v: Seq<char>) -> POEntryView {
    match f {
        Field::Msgctxt => POEntryView { msgctxt: extended(e.msgctxt, v), ..e },
        Field::Msgid => POEntryView { msgid: e.msgid + v, ..e },
        Field::MsgidPlural => POEntryView { msgid_plural: extended(e.msgid_plural, v), ..e },
        Field::Msgstr => POEntryView { msgstr: extended(e.msgstr, v), ..e },
        Field::MsgstrPlural => if e.msgstr_plural.len() > 0 {
            let last = e.msgstr_plural.last();
            POEntryView {
                msgstr_plural: e.msgstr_plural.update(e.msgstr_plural.len() - 1, (last.0, last.1 + v)),
                ..e
            }
        } else {
            e
        },
        Field::PrevMsgctxt => POEntryView { previous_msgctxt: extended(e.previous_msgctxt, v), ..e },
        Field::PrevMsgid => POEntryView { previous_msgid: extended(e.previous_msgid, v), ..e },
        Field::PrevMsgidPlural => POEntryView {
            previous_msgid_plural: extended(e.previous_msgid_plural, v),
            ..e
        },
        Field::Nothing => e,
    }
}

/// A comment block with the line `text` added.
pub open spec fn comment_added(o: Option<Seq<char>>, text: Seq<char>) -> Option<Seq<char>> {
    match o {
        Some(x) => Some(x + seq!['\n'] + text),
        None => Some(text),
    }
}

/// `e` with what the comment line `l` says.
pub open spec fn add_comment(e: POEntryView, tok: Token, l: Seq<char>) -> POEntryView {
    match tok {
        Token::Occurrences => POEntryView {
            occurrences: e.occurrences + occurrences_of(l.subrange(2, l.len() as int)),
            ..e
        },
        Token::Flags => POEntryView { flags: e.flags + flags_of(l.subrange(2, l.len() as int)), ..e },
        Token::TComment { start } => POEntryView {
            tcomment: comment_added(e.tcomment, l.subrange(start as int, l.len() as int)),
            ..e
        },
        Token::Comment { start } => POEntryView {
            comment: comment_added(e.comment, l.subrange(start as int, l.len() as int)),
            ..e
        },
        _ => e,
    }
}

/// Whether a keyword for the field `f` starts a new entry after a complete one.
pub open spec fn opens_entry(f: Field) -> bool {
    f == Field::Msgctxt || f == Field::Msgid || f == Field::PrevMsgctxt || f == Field::PrevMsgid || f
        == Field::PrevMsgidPlural
}

/// The failure of a quoted string on line `n`.
pub open spec fn quote_failure(f: QuoteFault, n: int, p: int) -> Failure {
    match f {
        QuoteFault::BareQuote(i) => Failure::UnescapedQuote { line: n, index: i },
        QuoteFault::Message(m) => Failure::Custom { line: n, index: p, message: m },
    }
}

#[verifier::opaque]
/// The state after line `n`, whose text is `l`.
pub open spec fn step(s: ParseState, n: int, l: Seq<char>, dups: bool) -> Result<ParseState, Failure> {
    let (obsolete, tok) = tokenize(l);
    match tok {
        Token::Blank => finalize(s, dups),
        Token::Bad => Err(Failure::Generic { line: n, index: 0 }),
        Token::Unknown { start, end } => Err(
            Failure::Custom {
                line: n,
                index: 0,
                message: "unknown keyword "@ + l.subrange(start as int, end as int),
            },
        ),
        Token::Keyword { field, idx_start, idx_end, payload } => match quoted_value(l, payload as int) {
            Err(f) => Err(quote_failure(f, n, payload as int)),
            Ok(v) => {
                let pre = if opens_entry(field) && complete(s.cur) {
                    finalize(s, dups)
                } else {
                    Ok(s)
                };
                let idx = l.subrange(idx_start as int, idx_end as int);
                match pre {
                    Err(f) => Err(f),
                    Ok(s1) => if field == Field::MsgstrPlural && first_where(s1.cur.msgstr_plural, has_key(idx)) is Some {
                        Err(Failure::Custom { line: n, index: idx_start as int, message: "duplicate plural index"@ })
                    } else {
                        Ok(ParseState { cur: set_field(begin(s1.cur, n, obsolete), field, idx, v), field, ..s1 })
                    },
                }
            },
        },
        Token::Continuation { payload } => match quoted_value(l, payload as int) {
            Err(f) => Err(quote_failure(f, n, payload as int)),
            Ok(v) => if s.field == Field::Nothing {
                Err(Failure::Generic { line: n, index: 0 })
            } else {
                Ok(ParseState { cur: append_field(s.cur, s.field, v), ..s })
            },
        },
        _ => {
            let pre = if complete(s.cur) {
                finalize(s, dups)
            } else {
                Ok(s)
            };
            match pre {
                Err(f) => Err(f),
                Ok(s1) => Ok(
                    ParseState { cur: add_comment(begin(s1.cur, n, false), tok, l), field: Field::Nothing, ..s1 },
                ),
            }
        },
    }
}

/// The state after the first `k` lines.
pub open spec fn run(lines: Seq<Seq<char>>, k: int, dups: bool) -> Result<ParseState, Failure>
    decreases k,
{
    if k <= 0 {
        Ok(initial_state())
    } else {
        match run(lines, k - 1, dups) {
            Ok(s) => step(s, k, lines[k - 1], dups),
            Err(f) => Err(f),
        }
    }
}

/// The outcome of parsing PO text: the state after the last line and the
/// end of the last entry, or the first failure.
pub open spec fn parsed(content: Seq<char>, dups: bool) -> Result<ParseState, Failure> {
    let lines = text_lines(content);
    match run(lines, lines.len() as int, dups) {
        Ok(s) => finalize(s, dups),
        Err(f) => Err(f),
    }
}

/// Whether `e` reports the failure `f` of the content `src`.
pub open spec fn reports(e: SyntaxError, f: Failure, src: Seq<char>) -> bool {
    match f {
        Failure::UnescapedQuote { line, index } => e matches SyntaxError::UnescapedDoubleQuoteFound {
            maybe_filename,
            line: l2,
            index: i2,
        } && l2 == line && i2 == index && maybe_filename.filename@ == src && !maybe_filename.filename_is_path,
        Failure::Custom { line, index, message } => e matches SyntaxError::Custom {
            maybe_filename,
            line: l2,
            index: i2,
            message: m2,
        } && l2 == line && i2 == index && m2@ == message && maybe_filename.filename@ == src
            && !maybe_filename.filename_is_path,
        Failure::Generic { line, index } => e matches SyntaxError::Generic {
            maybe_filename,
            line: l2,
            index: i2,
        } && l2 == line && i2 == index && maybe_filename.filename@ == src && !maybe_filename.filename_is_path,
    }
}

/// Whether the catalog `f` holds what the state `s` read.
pub open spec fn holds_state(f: POFile, s: ParseState) -> bool {
    &&& entries_view(f.entries@) == s.done
    &&& pairs_view(f.metadata@) == s.metadata
    &&& f.metadata_is_fuzzy == s.metadata_is_fuzzy
    &&& opt_view(f.header) == s.header
}

/// The state of the PO parser.
pub struct Parser {
    pub done: Vec<POEntry>,
    pub metadata: Vec<(String, String)>,
    pub metadata_seen: bool,
    pub metadata_is_fuzzy: bool,
    pub header: Option<String>,
    pub cur: POEntry,
    pub field: Field,
}

impl View for Parser {
    type V = ParseState;

    open spec fn view(&self) -> ParseState {
        ParseState {
            done: entries_view(self.done@),
            metadata: pairs_view(self.metadata@),
            metadata_seen: self.metadata_seen,
            metadata_is_fuzzy: self.metadata_is_fuzzy,
            header: opt_view(self.header),
            cur: self.cur@,
            field: self.field,
        }
    }
}

fn custom(src: &str, line: usize, index: usize, message: String) -> (r: SyntaxError)
    ensures
        r matches SyntaxError::Custom { maybe_filename, line: l2, index: i2, message: m2 } && l2 == line && i2
            == index && m2@ == message@ && maybe_filename.filename@ == src@ && !maybe_filename.filename_is_path,
{
    SyntaxError::Custom { maybe_filename: MaybeFilename::new(src, false), line, index, message }
}

fn is_untouched(e: &POEntry) -> (r: bool)
    ensures
        r == untouched(e@),
{
    let r = e.msgid.as_str().is_empty() && e.msgstr.is_none() && e.msgid_plural.is_none() && e.msgstr_plural.len()
        == 0 && e.msgctxt.is_none() && !e.obsolete && e.comment.is_none() && e.tcomment.is_none()
        && e.occurrences.len() == 0 && e.flags.len() == 0 && e.previous_msgctxt.is_none()
        && e.previous_msgid.is_none() && e.previous_msgid_plural.is_none();
    proof {
        assert(e@.msgstr_plural.len() == e.msgstr_plural@.len());
        assert(e@.occurrences.len() == e.occurrences@.len());
        assert(e@.flags.len() == e.flags@.len());
        if r {
            assert(e@.msgid =~= Seq::empty());
            assert(e@.msgstr_plural =~= Seq::empty());
            assert(e@.occurrences =~= Seq::empty());
            assert(e@.flags =~= Seq::empty());
            assert(e@ =~= empty_po_entry(e@.linenum));
        }
    }
    r
}

fn is_duplicate(done: &Vec<POEntry>, e: &POEntry) -> (r: bool)
    ensures
        r == duplicate_of(entries_view(done@), e@),
{
    let mut i: usize = 0;
    while i < done.len()
        invariant
            i <= done@.len(),
            forall|k: int| 0 <= k < i ==> !(#[trigger] done@[k]@.msgid == e@.msgid && done@[k]@.msgctxt == e@.msgctxt),
        decreases done.len() - i,
    {
        if done[i].msgid == e.msgid && crate::values::eq_opt(&done[i].msgctxt, &e.msgctxt) {
            assert(entries_view(done@)[i as int].msgid == e@.msgid);
            return true;
        }
        i = i + 1;
    }
    assert(!duplicate_of(entries_view(done@), e@)) by {
        if duplicate_of(entries_view(done@), e@) {
            let k = choose|k: int| 0 <= k < entries_view(done@).len() && #[trigger] entries_view(done@)[k].msgid
                == e@.msgid && entries_view(done@)[k].msgctxt == e@.msgctxt;
            assert(done@[k]@.msgid == e@.msgid);
        }
    }
    false
}

impl Parser {
    fn new() -> (r: Parser)
        ensures
            r@ == initial_state(),
    {
        let p = Parser {
            done: Vec::new(),
            metadata: Vec::new(),
            metadata_seen: false,
            metadata_is_fuzzy: false,
            header: None,
            cur: POEntry::new(0),
            field: Field::Nothing,
        };
        assert(p@.done =~= initial_state().done);
        assert(p@.metadata =~= initial_state().metadata);
        assert(p@ =~= initial_state());
        p
    }

    fn finalize(&mut self, dups: bool, src: &str) -> (r: Result<(), SyntaxError>)
        ensures
            match finalize(old(self)@, dups) {
                Ok(s) => r is Ok && final(self)@ == s,
                Err(f) => r is Err && reports(r->Err_0, f, src@),
            },
    {
        reveal(finalize);
        if is_untouched(&self.cur) {
            self.cur = POEntry::new(0);
            self.field = Field::Nothing;
            return Ok(());
        }
        if !self.metadata_seen && self.cur.msgid.as_str().is_empty() && self.cur.msgctxt.is_none()
            && !self.cur.obsolete {
            let empty = String::new();
            let msgstr: &str = match &self.cur.msgstr {
                Some(m) => m.as_str(),
                None => empty.as_str(),
            };
            self.metadata = metadata_of_msgstr(msgstr);
            self.metadata_seen = true;
            self.metadata_is_fuzzy = self.cur.fuzzy();
            self.header = crate::values::copy_opt(&self.cur.comment);
            self.cur = POEntry::new(0);
            self.field = Field::Nothing;
            return Ok(());
        }
        if dups && is_duplicate(&self.done, &self.cur) {
            return Err(custom(src, self.cur.linenum, 0, String::from_str("duplicate entry")));
        }
        let e = self.cur.duplicate();
        self.cur = POEntry::new(0);
        let ghost before = entries_view(self.done@);
        self.done.push(e);
        assert(entries_view(self.done@) =~= before.push(old(self)@.cur));
        self.field = Field::Nothing;
        Ok(())
    }
}

fn has_pair_key(p: &Vec<(String, String)>, key: &String) -> (r: bool)
    ensures
        r == first_where(pairs_view(p@), has_key(key@)) is Some,
{
    let ghost s = pairs_view(p@);
    let mut i: usize = 0;
    while i < p.len()
        invariant
            s == pairs_view(p@),
            i <= s.len(),
            forall|k: int| 0 <= k < i ==> !has_key(key@)(#[trigger] s[k]),
        decreases p.len() - i,
    {
        if p[i].0 == *key {
            proof {
                lemma_first_where_found(s, has_key(key@), i as int);
            }
            return true;
        }
        i = i + 1;
    }
    proof {
        lemma_first_where_none(s, has_key(key@));
    }
    false
}

fn opens_entry_field(f: Field) -> (r: bool)
    ensures
        r == opens_entry(f),
{
    f == Field::Msgctxt || f == Field::Msgid || f == Field::PrevMsgctxt || f == Field::PrevMsgid || f
        == Field::PrevMsgidPlural
}

fn is_complete(e: &POEntry) -> (r: bool)
    ensures
        r == complete(e@),
{
    e.msgstr.is_some() || e.msgstr_plural.len() > 0
}

fn extended_str(o: &Option<String>, v: &String) -> (r: String)
    ensures
        Some(r@) == extended(opt_view(*o), v@),
{
    match o {
        Some(x) => {
            let mut y = x.clone();
            y.append(v.as_str());
            y
        },
        None => v.clone(),
    }
}

fn comment_added_str(o: &Option<String>, text: String) -> (r: String)
    ensures
        Some(r@) == comment_added(opt_view(*o), text@),
{
    match o {
        Some(x) => {
            let mut y = x.clone();
            push_char(&mut y, '\n');
            y.append(text.as_str());
            y
        },
        None => text,
    }
}

fn generic(src: &str, line: usize, index: usize) -> (r: SyntaxError)
    ensures
        r matches SyntaxError::Generic { maybe_filename, line: l2, index: i2 } && l2 == line && i2 == index
            && maybe_filename.filename@ == src@ && !maybe_filename.filename_is_path,
{
    SyntaxError::Generic { maybe_filename: MaybeFilename::new(src, false), line, index }
}

fn quote_error(src: &str, line: usize, payload: usize, f: QuoteFaultKind) -> (r: SyntaxError)
    ensures
        match f {
            QuoteFaultKind::BareQuote(i) => reports(r, Failure::UnescapedQuote { line: line as int, index: i as int }, src@),
            QuoteFaultKind::Message(m) => reports(
                r,
                Failure::Custom { line: line as int, index: payload as int, message: m@ },
                src@,
            ),
        },
{
    match f {
        QuoteFaultKind::BareQuote(i) => SyntaxError::UnescapedDoubleQuoteFound {
            maybe_filename: MaybeFilename::new(src, false),
            line,
            index: i,
        },
        QuoteFaultKind::Message(m) => custom(src, line, payload, m),
    }
}

proof fn lemma_run_err(lines: Seq<Seq<char>>, k: int, j: int, dups: bool)
    requires
        0 <= k <= j,
        run(lines, k, dups) is Err,
    ensures
        run(lines, j, dups) == run(lines, k, dups),
    decreases j - k,
{
    if j > k {
        lemma_run_err(lines, k, j - 1, dups);
    }
}

impl Parser {
    fn begin(&mut self, n: usize, obsolete: bool)
        ensures
            final(self)@ == (ParseState { cur: begin(old(self)@.cur, n as int, obsolete), ..old(self)@ }),
    {
        if is_untouched(&self.cur) {
            self.cur.linenum = n;
        }
        if obsolete {
            self.cur.obsolete = true;
        }
    }

    fn set_field(&mut self, f: Field, idx: String, v: String)
        ensures
            final(self)@ == (ParseState { cur: set_field(old(self)@.cur, f, idx@, v@), ..old(self)@ }),
    {
        match f {
            Field::Msgctxt => self.cur.msgctxt = Some(v),
            Field::Msgid => self.cur.msgid = v,
            Field::MsgidPlural => self.cur.msgid_plural = Some(v),
            Field::Msgstr => self.cur.msgstr = Some(v),
            Field::MsgstrPlural => {
                let ghost before = pairs_view(self.cur.msgstr_plural@);
                self.cur.msgstr_plural.push((idx, v));
                assert(pairs_view(self.cur.msgstr_plural@) =~= before.push((idx@, v@)));
            },
            Field::PrevMsgctxt => self.cur.previous_msgctxt = Some(v),
            Field::PrevMsgid => self.cur.previous_msgid = Some(v),
            Field::PrevMsgidPlural => self.cur.previous_msgid_plural = Some(v),
            Field::Nothing => {},
        }
        assert(self@.cur =~= set_field(old(self)@.cur, f, idx@, v@));
    }

    fn append_field(&mut self, v: String)
        ensures
            final(self)@ == (ParseState { cur: append_field(old(self)@.cur, old(self)@.field, v@), ..old(self)@ }),
    {
        match self.field {
            Field::Msgctxt => self.cur.msgctxt = Some(extended_str(&self.cur.msgctxt, &v)),
            Field::Msgid => {
                let mut m = self.cur.msgid.clone();
                m.append(v.as_str());
                self.cur.msgid = m;
            },
            Field::MsgidPlural => self.cur.msgid_plural = Some(extended_str(&self.cur.msgid_plural, &v)),
            Field::Msgstr => self.cur.msgstr = Some(extended_str(&self.cur.msgstr, &v)),
            Field::MsgstrPlural => {
                let n = self.cur.msgstr_plural.len();
                if n > 0 {
                    let ghost before = pairs_view(self.cur.msgstr_plural@);
                    let a = self.cur.msgstr_plural[n - 1].0.clone();
                    let mut b = self.cur.msgstr_plural[n - 1].1.clone();
                    b.append(v.as_str());
                    self.cur.msgstr_plural.set(n - 1, (a, b));
                    assert(pairs_view(self.cur.msgstr_plural@) =~= before.update(
                        n - 1,
                        (before.last().0, before.last().1 + v@),
                    ));
                }
            },
            Field::PrevMsgctxt => self.cur.previous_msgctxt = Some(
                extended_str(&self.cur.previous_msgctxt, &v),
            ),
            Field::PrevMsgid => self.cur.previous_msgid = Some(extended_str(&self.cur.previous_msgid, &v)),
            Field::PrevMsgidPlural => self.cur.previous_msgid_plural = Some(
                extended_str(&self.cur.previous_msgid_plural, &v),
            ),
            Field::Nothing => {},
        }
        assert(self@.cur =~= append_field(old(self)@.cur, old(self)@.field, v@));
    }

    fn add_comment(&mut self, tok: Token, l: &Vec<char>)
        requires
            within(tok, l@.len() as int),
        ensures
            final(self)@ == (ParseState { cur: add_comment(old(self)@.cur, tok, l@), ..old(self)@ }),
    {
        let n = l.len();
        match tok {
            Token::Occurrences => {
                let occ = occurrences_of_line(l, 2);
                let ghost before = pairs_view(self.cur.occurrences@);
                let mut i: usize = 0;
                while i < occ.len()
                    invariant
                        i <= occ@.len(),
                        pairs_view(self.cur.occurrences@) == before + pairs_view(occ@).subrange(0, i as int),
                        self.cur.msgid == old(self).cur.msgid,
                        self.cur.msgstr == old(self).cur.msgstr,
                        self.cur.msgid_plural == old(self).cur.msgid_plural,
                        self.cur.msgstr_plural == old(self).cur.msgstr_plural,
                        self.cur.msgctxt == old(self).cur.msgctxt,
                        self.cur.obsolete == old(self).cur.obsolete,
                        self.cur.comment == old(self).cur.comment,
                        self.cur.tcomment == old(self).cur.tcomment,
                        self.cur.flags == old(self).cur.flags,
                        self.cur.previous_msgctxt == old(self).cur.previous_msgctxt,
                        self.cur.previous_msgid == old(self).cur.previous_msgid,
                        self.cur.previous_msgid_plural == old(self).cur.previous_msgid_plural,
                        self.cur.linenum == old(self).cur.linenum,
                        self.done == old(self).done,
                        self.metadata == old(self).metadata,
                        self.metadata_seen == old(self).metadata_seen,
                        self.metadata_is_fuzzy == old(self).metadata_is_fuzzy,
                        self.header == old(self).header,
                        self.field == old(self).field,
                    decreases occ.len() - i,
                {
                    let ghost prev = pairs_view(self.cur.occurrences@);
                    self.cur.occurrences.push((occ[i].0.clone(), occ[i].1.clone()));
                    assert(pairs_view(self.cur.occurrences@) =~= prev.push(pairs_view(occ@)[i as int]));
                    i = i + 1;
                    assert(pairs_view(self.cur.occurrences@) =~= before + pairs_view(occ@).subrange(0, i as int));
                }
                assert(pairs_view(occ@).subrange(0, i as int) =~= pairs_view(occ@));
            },
            Token::Flags => {
                let fl = flags_of_line(l, 2);
                let ghost before = strs_view(self.cur.flags@);
                let mut i: usize = 0;
                while i < fl.len()
                    invariant
                        i <= fl@.len(),
                        strs_view(self.cur.flags@) == before + strs_view(fl@).subrange(0, i as int),
                        self.cur.msgid == old(self).cur.msgid,
                        self.cur.msgstr == old(self).cur.msgstr,
                        self.cur.msgid_plural == old(self).cur.msgid_plural,
                        self.cur.msgstr_plural == old(self).cur.msgstr_plural,
                        self.cur.msgctxt == old(self).cur.msgctxt,
                        self.cur.obsolete == old(self).cur.obsolete,
                        self.cur.comment == old(self).cur.comment,
                        self.cur.tcomment == old(self).cur.tcomment,
                        self.cur.occurrences == old(self).cur.occurrences,
                        self.cur.previous_msgctxt == old(self).cur.previous_msgctxt,
                        self.cur.previous_msgid == old(self).cur.previous_msgid,
                        self.cur.previous_msgid_plural == old(self).cur.previous_msgid_plural,
                        self.cur.linenum == old(self).cur.linenum,
                        self.done == old(self).done,
                        self.metadata == old(self).metadata,
                        self.metadata_seen == old(self).metadata_seen,
                        self.metadata_is_fuzzy == old(self).metadata_is_fuzzy,
                        self.header == old(self).header,
                        self.field == old(self).field,
                    decreases fl.len() - i,
                {
                    let ghost prev = strs_view(self.cur.flags@);
                    self.cur.flags.push(fl[i].clone());
                    assert(strs_view(self.cur.flags@) =~= prev.push(strs_view(fl@)[i as int]));
                    i = i + 1;
                    assert(strs_view(self.cur.flags@) =~= before + strs_view(fl@).subrange(0, i as int));
                }
                assert(strs_view(fl@).subrange(0, i as int) =~= strs_view(fl@));
            },
            Token::TComment { start } => {
                let text = sub_string(l, start, n);
                self.cur.tcomment = Some(comment_added_str(&self.cur.tcomment, text));
            },
            Token::Comment { start } => {
                let text = sub_string(l, start, n);
                self.cur.comment = Some(comment_added_str(&self.cur.comment, text));
            },
            _ => {},
        }
        assert(self@.cur =~= add_comment(old(self)@.cur, tok, l@));
    }

    fn step(&mut self, n: usize, l: &Vec<char>, dups: bool, src: &str) -> (r: Result<(), SyntaxError>)
        ensures
            match step(old(self)@, n as int, l@, dups) {
                Ok(s) => r is Ok && final(self)@ == s,
                Err(f) => r is Err && reports(r->Err_0, f, src@),
            },
    {
        reveal(step);
        let (obsolete, tok) = tokenize_line(l);
        match tok {
            Token::Blank => self.finalize(dups, src),
            Token::Bad => Err(generic(src, n, 0)),
            Token::Unknown { start, end } => {
                let mut m = String::from_str("unknown keyword ");
                let w = sub_string(l, start, end);
                m.append(w.as_str());
                Err(custom(src, n, 0, m))
            },
            Token::Keyword { field, idx_start, idx_end, payload } => {
                let v = match quoted_value_of(l, payload) {
                    Ok(v) => v,
                    Err(f) => {
                        return Err(quote_error(src, n, payload, f));
                    },
                };
                if opens_entry_field(field) && is_complete(&self.cur) {
                    match self.finalize(dups, src) {
                        Ok(()) => {},
                        Err(e) => {
                            return Err(e);
                        },
                    }
                }
                let ghost s1 = self@;
                let idx = sub_string(l, idx_start, idx_end);
                if field == Field::MsgstrPlural && has_pair_key(&self.cur.msgstr_plural, &idx) {
                    return Err(custom(src, n, idx_start, String::from_str("duplicate plural index")));
                }
                self.begin(n, obsolete);
                self.set_field(field, idx, v);
                self.field = field;
                assert(self@ =~= (ParseState {
                    cur: set_field(begin(s1.cur, n as int, obsolete), field, l@.subrange(idx_start as int, idx_end as int), v@),
                    field,
                    ..s1
                }));
                Ok(())
            },
            Token::Continuation { payload } => {
                let v = match quoted_value_of(l, payload) {
                    Ok(v) => v,
                    Err(f) => {
                        return Err(quote_error(src, n, payload, f));
                    },
                };
                if self.field == Field::Nothing {
                    return Err(generic(src, n, 0));
                }
                self.append_field(v);
                Ok(())
            },
            _ => {
                if is_complete(&self.cur) {
                    match self.finalize(dups, src) {
                        Ok(()) => {},
                        Err(e) => {
                            return Err(e);
                        },
                    }
                }
                let ghost s1 = self@;
                self.begin(n, false);
                self.add_comment(tok, l);
                self.field = Field::Nothing;
                assert(self@ =~= (ParseState {
                    cur: add_comment(begin(s1.cur, n as int, false), tok, l@),
                    field: Field::Nothing,
                    ..s1
                }));
                Ok(())
            },
        }
    }
}

/// Reads PO text: the content of `options`, with its duplicate policy.
pub(crate) fn parse_po<'a>(options: Options<'a>) -> (r: Result<POFile<'a>, SyntaxError>)
    ensures
        match parsed(options.path_or_content@, options.check_for_duplicates) {
            Ok(s) => r is Ok && holds_state(r->Ok_0, s) && r->Ok_0.options == options,
            Err(f) => r is Err && reports(r->Err_0, f, options.path_or_content@),
        },
{
    let src = options.path_or_content;
    let dups = options.check_for_duplicates;
    let lines = split_lines(src);
    let ghost ls = text_lines(src@);
    let mut p = Parser::new();
    let mut k: usize = 0;
    while k < lines.len()
        invariant
            k <= lines@.len(),
            strs_view(lines@) == ls,
            ls == text_lines(src@),
            src == options.path_or_content,
            dups == options.check_for_duplicates,
            run(ls, k as int, dups) == Ok::<ParseState, Failure>(p@),
        decreases lines.len() - k,
    {
        let l = chars_of(lines[k].as_str());
        assert(l@ == ls[k as int]);
        match p.step(k + 1, &l, dups, src) {
            Ok(()) => {},
            Err(e) => {
                proof {
                    assert(run(ls, k + 1, dups) == step(run(ls, k as int, dups)->Ok_0, k + 1, ls[k as int], dups));
                    lemma_run_err(ls, k + 1, ls.len() as int, dups);
                }
                return Err(e);
            },
        }
        k = k + 1;
    }
    assert(run(ls, ls.len() as int, dups) == Ok::<ParseState, Failure>(p@));
    match p.finalize(dups, src) {
        Ok(()) => {},
        Err(e) => {
            return Err(e);
        },
    }
    Ok(POFile {
        header: p.header,
        metadata: p.metadata,
        metadata_is_fuzzy: p.metadata_is_fuzzy,
        entries: p.done,
        options,
    })
}

} // verus!

verus! {

/// Whether the plural translations of every entry read, and the metadata,
/// have unique keys.
pub open spec fn state_keys_unique(s: ParseState) -> bool {
    &&& forall|i: int| 0 <= i < s.done.len() ==> keys_unique(#[trigger] s.done[i].msgstr_plural)
    &&& keys_unique(s.cur.msgstr_plural)
    &&& keys_unique(s.metadata)
}

proof fn lemma_finalize_unique(s: ParseState, dups: bool)
    requires
        state_keys_unique(s),
    ensures
        finalize(s, dups) matches Ok(t) ==> state_keys_unique(t),
{
    reveal(finalize);
    crate::popieces::lemma_metadata_pairs_unique(text_lines(msgstr_or_empty(s.cur)));
    if let Ok(t) = finalize(s, dups) {
        assert(keys_unique(t.cur.msgstr_plural));
        assert forall|i: int| 0 <= i < t.done.len() implies keys_unique(#[trigger] t.done[i].msgstr_plural) by {
            if i < s.done.len() {
                assert(t.done[i] == s.done[i]);
            }
        }
    }
}

proof fn lemma_set_field_unique(e: POEntryView, f: Field, idx: Seq<char>, v: Seq<char>)
    requires
        keys_unique(e.msgstr_plural),
        f == Field::MsgstrPlural ==> first_where(e.msgstr_plural, has_key(idx)) is None,
    ensures
        keys_unique(set_field(e, f, idx, v).msgstr_plural),
{
    if f == Field::MsgstrPlural {
        crate::popieces::lemma_upsert_unique(e.msgstr_plural, idx, v);
    }
}

proof fn lemma_append_field_unique(e: POEntryView, f: Field, v: Seq<char>)
    requires
        keys_unique(e.msgstr_plural),
    ensures
        keys_unique(append_field(e, f, v).msgstr_plural),
{
    let p = e.msgstr_plural;
    if f == Field::MsgstrPlural && p.len() > 0 {
        let q = append_field(e, f, v).msgstr_plural;
        assert forall|a: int, b: int| 0 <= a < b < q.len() implies #[trigger] q[a].0 != #[trigger] q[b].0 by {
            assert(q[a].0 == p[a].0 && q[b].0 == p[b].0);
        }
    }
}

proof fn lemma_step_unique(s: ParseState, n: int, l: Seq<char>, dups: bool)
    requires
        state_keys_unique(s),
    ensures
        step(s, n, l, dups) matches Ok(t) ==> state_keys_unique(t),
{
    reveal(step);
    lemma_finalize_unique(s, dups);
    let (obsolete, tok) = tokenize(l);
    if let Ok(t) = step(s, n, l, dups) {
        match tok {
            Token::Keyword { field, idx_start, idx_end, payload } => {
                let pre = if opens_entry(field) && complete(s.cur) {
                    finalize(s, dups)
                } else {
                    Ok(s)
                };
                let s1 = pre->Ok_0;
                let idx = l.subrange(idx_start as int, idx_end as int);
                let c = begin(s1.cur, n, obsolete);
                assert(c.msgstr_plural == s1.cur.msgstr_plural);
                lemma_set_field_unique(c, field, idx, quoted_value(l, payload as int)->Ok_0);
            },
            Token::Continuation { payload } => {
                lemma_append_field_unique(s.cur, s.field, quoted_value(l, payload as int)->Ok_0);
            },
            Token::Blank => {},
            _ => {
                let pre = if complete(s.cur) {
                    finalize(s, dups)
                } else {
                    Ok(s)
                };
                let s1 = pre->Ok_0;
                assert(add_comment(begin(s1.cur, n, false), tok, l).msgstr_plural == s1.cur.msgstr_plural);
            },
        }
    }
}

proof fn lemma_run_unique(lines: Seq<Seq<char>>, k: int, dups: bool)
    ensures
        run(lines, k, dups) matches Ok(s) ==> state_keys_unique(s),
    decreases k,
{
    if k <= 0 {
        assert(initial_state().cur.msgstr_plural =~= Seq::<(Seq<char>, Seq<char>)>::empty());
    } else {
        lemma_run_unique(lines, k - 1, dups);
        if let Ok(s) = run(lines, k - 1, dups) {
            lemma_step_unique(s, k, lines[k - 1], dups);
        }
    }
}

/// What the PO parser reads has unique plural indices in every entry and
/// unique metadata keys.
pub proof fn lemma_parsed_unique(content: Seq<char>, dups: bool)
    ensures
        parsed(content, dups) matches Ok(s) ==> state_keys_unique(s),
{
    let lines = text_lines(content);
    lemma_run_unique(lines, lines.len() as int, dups);
    if let Ok(s) = run(lines, lines.len() as int, dups) {
        lemma_finalize_unique(s, dups);
    }
}

} // verus!
