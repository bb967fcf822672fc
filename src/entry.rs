//! Catalog entries: the `MOEntry` of compiled catalogs, the `POEntry` of
//! textual ones, and what they share.

use vstd::prelude::*;
use crate::values::{
    copy_opt, copy_opt_pairs, copy_pairs, copy_strs, eq_opt, eq_pairs, eq_strs, opt_view,
    pairs_view, strs_view,
};
use crate::text::push_char;

verus! {

/// Marks the entry types of a catalog.
pub trait Entry {}

/// Whether an entry carries a usable translation.
pub trait Translated {
    spec fn is_translated(&self) -> bool;

    fn translated(&self) -> (r: bool)
        ensures
            r == self.is_translated(),
    ;
}

/// The key under which a compiled catalog stores an entry: the context, an
/// EOT character and the msgid, or the msgid alone when there is no context.
pub trait MsgidEotMsgctxt {
    spec fn eot_key(&self) -> Seq<char>;

    fn msgid_eot_msgctxt(&self) -> (r: String)
        ensures
            r@ == self.eot_key(),
    ;
}

/// Taking over the values of another entry or catalog.
pub trait Merge: Sized {
    spec fn merged(before: &Self, other: &Self, after: &Self) -> bool;

    fn merge(&mut self, other: Self)
        ensures
            Self::merged(old(self), &other, final(self)),
    ;
}

/// The lookup key of a compiled catalog, over characters.
pub open spec fn eot_key_of(msgid: Seq<char>, msgctxt: Option<Seq<char>>) -> Seq<char> {
    match msgctxt {
        Some(c) => c.push('\u{4}') + msgid,
        None => msgid,
    }
}

/// Whether a list of plural translations is non-empty with no empty one.
pub open spec fn plurals_translated(p: Seq<(Seq<char>, Seq<char>)>) -> bool {
    p.len() > 0 && forall|i: int| 0 <= i < p.len() ==> #[trigger] p[i].1.len() > 0
}

fn msgid_msgctxt_eot_split(msgid: &String, msgctxt: &Option<String>) -> (r: String)
    ensures
        r@ == eot_key_of(msgid@, opt_view(*msgctxt)),
{
    match msgctxt {
        Some(ctx) => {
            let mut ret = ctx.clone();
            push_char(&mut ret, '\u{4}');
            ret.append(msgid.as_str());
            ret
        },
        None => msgid.clone(),
    }
}

fn plural_values_nonempty(p: &Vec<(String, String)>) -> (r: bool)
    ensures
        r == plurals_translated(pairs_view(p@)),
{
    if p.len() == 0 {
        return false;
    }
    let mut i: usize = 0;
    while i < p.len()
        invariant
            i <= p@.len(),
            forall|k: int| 0 <= k < i ==> p@[k].1@.len() > 0,
        decreases p.len() - i,
    {
        if p[i].1.as_str().is_empty() {
            assert(pairs_view(p@)[i as int].1.len() == 0);
            return false;
        }
        i = i + 1;
    }
    true
}

/// The model of an `MOEntry`.
pub ghost struct MOEntryView {
    pub msgid: Seq<char>,
    pub msgstr: Option<Seq<char>>,
    pub msgid_plural: Option<Seq<char>>,
    pub msgstr_plural: Option<Seq<(Seq<char>, Seq<char>)>>,
    pub msgctxt: Option<Seq<char>>,
}

/// An entry of a compiled catalog. The plural translations are pairs of a
/// decimal index and its translation.
#[derive(Debug)]
pub struct MOEntry {
    pub msgid: String,
    pub msgstr: Option<String>,
    pub msgid_plural: Option<String>,
    pub msgstr_plural: Option<Vec<(String, String)>>,
    pub msgctxt: Option<String>,
}

impl View for MOEntry {
    type V = MOEntryView;

    open spec fn view(&self) -> MOEntryView {
        MOEntryView {
            msgid: self.msgid@,
            msgstr: opt_view(self.msgstr),
            msgid_plural: opt_view(self.msgid_plural),
            msgstr_plural: match self.msgstr_plural {
                Some(p) => Some(pairs_view(p@)),
                None => None,
            },
            msgctxt: opt_view(self.msgctxt),
        }
    }
}

/// Whether a compiled entry is translated: a non-empty `msgstr`, or plural
/// translations, at least one, that are all non-empty.
pub open spec fn mo_translated(e: MOEntryView) -> bool {
    (e.msgstr matches Some(s) && s.len() > 0) || (e.msgstr_plural matches Some(p) && plurals_translated(p))
}

impl MOEntry {
    pub fn new(
        msgid: String,
        msgstr: Option<String>,
        msgid_plural: Option<String>,
        msgstr_plural: Option<Vec<(String, String)>>,
        msgctxt: Option<String>,
    ) -> (r: MOEntry)
        ensures
            r.msgid == msgid,
            r.msgstr == msgstr,
            r.msgid_plural == msgid_plural,
            r.msgstr_plural == msgstr_plural,
            r.msgctxt == msgctxt,
    {
        MOEntry { msgid, msgstr, msgid_plural, msgstr_plural, msgctxt }
    }

    /// A copy with the same model.
    pub fn duplicate(&self) -> (r: MOEntry)
        ensures
            r@ == self@,
    {
        MOEntry {
            msgid: self.msgid.clone(),
            msgstr: copy_opt(&self.msgstr),
            msgid_plural: copy_opt(&self.msgid_plural),
            msgstr_plural: copy_opt_pairs(&self.msgstr_plural),
            msgctxt: copy_opt(&self.msgctxt),
        }
    }

    /// The lookup key of the entry in a compiled catalog.
    pub fn msgid_eot_msgctxt_string(&self) -> (r: String)
        ensures
            r@ == eot_key_of(self.msgid@, opt_view(self.msgctxt)),
    {
        msgid_msgctxt_eot_split(&self.msgid, &self.msgctxt)
    }

    /// The entry whose msgid is `s`, with nothing else set.
    pub fn from_msgid(s: &str) -> (r: MOEntry)
        ensures
            r@ == (MOEntryView { msgid: s@, msgstr: None, msgid_plural: None, msgstr_plural: None, msgctxt: None }),
    {
        MOEntry::new(s.to_owned(), None, None, None, None)
    }

    /// The fields that a compiled entry has of a PO entry; an empty list of
    /// plural translations becomes none.
    pub fn from_po_entry(entry: &POEntry) -> (r: MOEntry)
        ensures
            r@ == mo_of_po(entry@),
    {
        let msgstr_plural = if entry.msgstr_plural.len() == 0 {
            None
        } else {
            Some(copy_pairs(&entry.msgstr_plural))
        };
        MOEntry {
            msgid: entry.msgid.clone(),
            msgstr: copy_opt(&entry.msgstr),
            msgid_plural: copy_opt(&entry.msgid_plural),
            msgstr_plural,
            msgctxt: copy_opt(&entry.msgctxt),
        }
    }
}

impl Entry for MOEntry {}

impl MsgidEotMsgctxt for MOEntry {
    open spec fn eot_key(&self) -> Seq<char> {
        eot_key_of(self.msgid@, opt_view(self.msgctxt))
    }

    fn msgid_eot_msgctxt(&self) -> (r: String) {
        msgid_msgctxt_eot_split(&self.msgid, &self.msgctxt)
    }
}

impl Translated for MOEntry {
    open spec fn is_translated(&self) -> bool {
        mo_translated(self@)
    }

    fn translated(&self) -> (r: bool) {
        if let Some(msgstr) = &self.msgstr {
            if !msgstr.as_str().is_empty() {
                return true;
            }
        }
        if let Some(msgstr_plural) = &self.msgstr_plural {
            return plural_values_nonempty(msgstr_plural);
        }
        false
    }
}

impl Merge for MOEntry {
    open spec fn merged(before: &Self, other: &Self, after: &Self) -> bool {
        after@ == other@
    }

    fn merge(&mut self, other: Self) {
        self.msgid = other.msgid;
        self.msgstr = other.msgstr;
        self.msgid_plural = other.msgid_plural;
        self.msgstr_plural = other.msgstr_plural;
        self.msgctxt = other.msgctxt;
    }
}

impl PartialEq for MOEntry {
    fn eq(&self, other: &MOEntry) -> (r: bool) {
        let plural_eq = match (&self.msgstr_plural, &other.msgstr_plural) {
            (Some(a), Some(b)) => eq_pairs(a, b),
            (None, None) => true,
            _ => false,
        };
        self.msgid == other.msgid && eq_opt(&self.msgstr, &other.msgstr) && eq_opt(
            &self.msgid_plural,
            &other.msgid_plural,
        ) && plural_eq && eq_opt(&self.msgctxt, &other.msgctxt)
    }
}

impl vstd::std_specs::cmp::PartialEqSpecImpl for MOEntry {
    open spec fn obeys_eq_spec() -> bool {
        true
    }

    open spec fn eq_spec(&self, other: &MOEntry) -> bool {
        self@ == other@
    }
}

impl Clone for MOEntry {
    fn clone(&self) -> (r: MOEntry)
        ensures
            r@ == self@,
    {
        self.duplicate()
    }
}

impl From<&str> for MOEntry {
    fn from(s: &str) -> MOEntry {
        MOEntry::from_msgid(s)
    }
}

impl vstd::std_specs::convert::FromSpecImpl<&str> for MOEntry {
    open spec fn obeys_from_spec() -> bool {
        false
    }

    open spec fn from_spec(s: &str) -> MOEntry {
        arbitrary()
    }
}

impl From<&POEntry> for MOEntry {
    fn from(entry: &POEntry) -> MOEntry {
        MOEntry::from_po_entry(entry)
    }
}

impl vstd::std_specs::convert::FromSpecImpl<&POEntry> for MOEntry {
    open spec fn obeys_from_spec() -> bool {
        false
    }

    open spec fn from_spec(entry: &POEntry) -> MOEntry {
        arbitrary()
    }
}

/// The model of a `POEntry`.
pub ghost struct POEntryView {
    pub msgid: Seq<char>,
    pub msgstr: Option<Seq<char>>,
    pub msgid_plural: Option<Seq<char>>,
    pub msgstr_plural: Seq<(Seq<char>, Seq<char>)>,
    pub msgctxt: Option<Seq<char>>,
    pub obsolete: bool,
    pub comment: Option<Seq<char>>,
    pub tcomment: Option<Seq<char>>,
    pub occurrences: Seq<(Seq<char>, Seq<char>)>,
    pub flags: Seq<Seq<char>>,
    pub previous_msgctxt: Option<Seq<char>>,
    pub previous_msgid: Option<Seq<char>>,
    pub previous_msgid_plural: Option<Seq<char>>,
    pub linenum: usize,
}

/// An entry of a textual catalog.
#[derive(Debug)]
pub struct POEntry {
    pub msgid: String,
    pub msgstr: Option<String>,
    pub msgid_plural: Option<String>,
    /// Plural translations: pairs of a decimal index and its translation;
    /// empty when there are none.
    pub msgstr_plural: Vec<(String, String)>,
    pub msgctxt: Option<String>,
    pub obsolete: bool,
    /// Translator comment (`# ` lines).
    pub comment: Option<String>,
    /// Extracted comment (`#.` lines).
    pub tcomment: Option<String>,
    /// Pairs of a file path and a line number, which may be empty.
    pub occurrences: Vec<(String, String)>,
    pub flags: Vec<String>,
    pub previous_msgctxt: Option<String>,
    pub previous_msgid: Option<String>,
    pub previous_msgid_plural: Option<String>,
    /// Line on which the entry started, from 1; 0 for an entry not parsed.
    pub linenum: usize,
}

impl View for POEntry {
    type V = POEntryView;

    open spec fn view(&self) -> POEntryView {
        POEntryView {
            msgid: self.msgid@,
            msgstr: opt_view(self.msgstr),
            msgid_plural: opt_view(self.msgid_plural),
            msgstr_plural: pairs_view(self.msgstr_plural@),
            msgctxt: opt_view(self.msgctxt),
            obsolete: self.obsolete,
            comment: opt_view(self.comment),
            tcomment: opt_view(self.tcomment),
            occurrences: pairs_view(self.occurrences@),
            flags: strs_view(self.flags@),
            previous_msgctxt: opt_view(self.previous_msgctxt),
            previous_msgid: opt_view(self.previous_msgid),
            previous_msgid_plural: opt_view(self.previous_msgid_plural),
            linenum: self.linenum,
        }
    }
}

/// The empty entry that starts on line `linenum`.
pub open spec fn empty_po_entry(linenum: usize) -> POEntryView {
    POEntryView {
        msgid: Seq::empty(),
        msgstr: None,
        msgid_plural: None,
        msgstr_plural: Seq::empty(),
        msgctxt: None,
        obsolete: false,
        comment: None,
        tcomment: None,
        occurrences: Seq::empty(),
        flags: Seq::empty(),
        previous_msgctxt: None,
        previous_msgid: None,
        previous_msgid_plural: None,
        linenum,
    }
}

/// The flag that marks a translation for review.
pub open spec fn fuzzy_flag() -> Seq<char> {
    seq!['f', 'u', 'z', 'z', 'y']
}

/// Whether the flags of an entry hold `fuzzy`.
pub open spec fn po_fuzzy(e: POEntryView) -> bool {
    e.flags.contains(fuzzy_flag())
}

/// Whether a PO entry is translated: neither obsolete nor fuzzy, and a
/// non-empty `msgstr` or plural translations, at least one, that are all
/// non-empty.
pub open spec fn po_translated(e: POEntryView) -> bool {
    !e.obsolete && !po_fuzzy(e) && ((e.msgstr matches Some(s) && s.len() > 0) || plurals_translated(
        e.msgstr_plural,
    ))
}

/// The compiled entry of a PO entry.
pub open spec fn mo_of_po(e: POEntryView) -> MOEntryView {
    MOEntryView {
        msgid: e.msgid,
        msgstr: e.msgstr,
        msgid_plural: e.msgid_plural,
        msgstr_plural: if e.msgstr_plural.len() == 0 {
            None
        } else {
            Some(e.msgstr_plural)
        },
        msgctxt: e.msgctxt,
    }
}

/// The PO entry of a compiled entry, on line 0.
pub open spec fn po_of_mo(e: MOEntryView) -> POEntryView {
    POEntryView {
        msgid: e.msgid,
        msgstr: e.msgstr,
        msgid_plural: e.msgid_plural,
        msgstr_plural: match e.msgstr_plural {
            Some(p) => p,
            None => Seq::empty(),
        },
        msgctxt: e.msgctxt,
        ..empty_po_entry(0)
    }
}

pub fn fuzzy_str() -> (r: String)
    ensures
        r@ == fuzzy_flag(),
{
    let mut r = String::new();
    push_char(&mut r, 'f');
    push_char(&mut r, 'u');
    push_char(&mut r, 'z');
    push_char(&mut r, 'z');
    push_char(&mut r, 'y');
    r
}

impl POEntry {
    pub fn new(linenum: usize) -> (r: Self)
        ensures
            r@ == empty_po_entry(linenum),
    {
        let r = POEntry {
            msgid: String::new(),
            msgstr: None,
            msgid_plural: None,
            msgstr_plural: Vec::new(),
            msgctxt: None,
            obsolete: false,
            comment: None,
            tcomment: None,
            occurrences: Vec::new(),
            flags: Vec::new(),
            previous_msgctxt: None,
            previous_msgid: None,
            previous_msgid_plural: None,
            linenum,
        };
        assert(r@.msgstr_plural =~= Seq::empty());
        assert(r@.occurrences =~= Seq::empty());
        assert(r@.flags =~= Seq::empty());
        r
    }

    /// Whether `fuzzy` is among the flags.
    pub fn fuzzy(&self) -> (r: bool)
        ensures
            r == po_fuzzy(self@),
    {
        let fz = fuzzy_str();
        let mut i: usize = 0;
        while i < self.flags.len()
            invariant
                fz@ == fuzzy_flag(),
                i <= self.flags@.len(),
                forall|k: int| 0 <= k < i ==> self.flags@[k]@ != fuzzy_flag(),
            decreases self.flags.len() - i,
        {
            if self.flags[i] == fz {
                assert(strs_view(self.flags@)[i as int] == fuzzy_flag());
                return true;
            }
            i = i + 1;
        }
        assert(!strs_view(self.flags@).contains(fuzzy_flag())) by {
            if strs_view(self.flags@).contains(fuzzy_flag()) {
                let k = choose|k: int| 0 <= k < self.flags@.len() && strs_view(self.flags@)[k] == fuzzy_flag();
                assert(self.flags@[k]@ != fuzzy_flag());
            }
        }
        false
    }

    /// A copy with the same model.
    pub fn duplicate(&self) -> (r: POEntry)
        ensures
            r@ == self@,
    {
        POEntry {
            msgid: self.msgid.clone(),
            msgstr: copy_opt(&self.msgstr),
            msgid_plural: copy_opt(&self.msgid_plural),
            msgstr_plural: copy_pairs(&self.msgstr_plural),
            msgctxt: copy_opt(&self.msgctxt),
            obsolete: self.obsolete,
            comment: copy_opt(&self.comment),
            tcomment: copy_opt(&self.tcomment),
            occurrences: copy_pairs(&self.occurrences),
            flags: copy_strs(&self.flags),
            previous_msgctxt: copy_opt(&self.previous_msgctxt),
            previous_msgid: copy_opt(&self.previous_msgid),
            previous_msgid_plural: copy_opt(&self.previous_msgid_plural),
            linenum: self.linenum,
        }
    }

    /// The PO entry with the fields of a compiled entry, on line 0.
    pub fn from_mo_entry(mo_entry: &MOEntry) -> (r: POEntry)
        ensures
            r@ == po_of_mo(mo_entry@),
    {
        let mut entry = POEntry::new(0);
        entry.msgid = mo_entry.msgid.clone();
        entry.msgstr = copy_opt(&mo_entry.msgstr);
        entry.msgid_plural = copy_opt(&mo_entry.msgid_plural);
        entry.msgstr_plural = match &mo_entry.msgstr_plural {
            Some(plural) => copy_pairs(plural),
            None => Vec::new(),
        };
        entry.msgctxt = copy_opt(&mo_entry.msgctxt);
        assert(entry@.msgstr_plural =~= po_of_mo(mo_entry@).msgstr_plural);
        assert(entry@ =~= po_of_mo(mo_entry@));
        entry
    }
}

impl Entry for POEntry {}

impl MsgidEotMsgctxt for POEntry {
    open spec fn eot_key(&self) -> Seq<char> {
        eot_key_of(self.msgid@, opt_view(self.msgctxt))
    }

    fn msgid_eot_msgctxt(&self) -> (r: String) {
        msgid_msgctxt_eot_split(&self.msgid, &self.msgctxt)
    }
}

impl Translated for POEntry {
    open spec fn is_translated(&self) -> bool {
        po_translated(self@)
    }

    fn translated(&self) -> (r: bool) {
        if self.obsolete || self.fuzzy() {
            return false;
        }
        if let Some(msgstr) = &self.msgstr {
            if !msgstr.as_str().is_empty() {
                return true;
            }
        }
        plural_values_nonempty(&self.msgstr_plural)
    }
}

impl Merge for POEntry {
    open spec fn merged(before: &Self, other: &Self, after: &Self) -> bool {
        after@ == other@
    }

    fn merge(&mut self, other: Self) {
        self.msgid = other.msgid;
        self.msgstr = other.msgstr;
        self.msgid_plural = other.msgid_plural;
        self.msgstr_plural = other.msgstr_plural;
        self.msgctxt = other.msgctxt;
        self.obsolete = other.obsolete;
        self.comment = other.comment;
        self.tcomment = other.tcomment;
        self.occurrences = other.occurrences;
        self.flags = other.flags;
        self.previous_msgctxt = other.previous_msgctxt;
        self.previous_msgid = other.previous_msgid;
        self.previous_msgid_plural = other.previous_msgid_plural;
        self.linenum = other.linenum;
    }
}

impl PartialEq for POEntry {
    fn eq(&self, other: &POEntry) -> (r: bool) {
        self.msgid == other.msgid && eq_opt(&self.msgstr, &other.msgstr) && eq_opt(
            &self.msgid_plural,
            &other.msgid_plural,
        ) && eq_pairs(&self.msgstr_plural, &other.msgstr_plural) && eq_opt(
            &self.msgctxt,
            &other.msgctxt,
        ) && self.obsolete == other.obsolete && eq_opt(&self.comment, &other.comment) && eq_opt(
            &self.tcomment,
            &other.tcomment,
        ) && eq_pairs(&self.occurrences, &other.occurrences) && eq_strs(&self.flags, &other.flags)
            && eq_opt(&self.previous_msgctxt, &other.previous_msgctxt) && eq_opt(
            &self.previous_msgid,
            &other.previous_msgid,
        ) && eq_opt(&self.previous_msgid_plural, &other.previous_msgid_plural) && self.linenum
            == other.linenum
    }
}

impl vstd::std_specs::cmp::PartialEqSpecImpl for POEntry {
    open spec fn obeys_eq_spec() -> bool {
        true
    }

    open spec fn eq_spec(&self, other: &POEntry) -> bool {
        self@ == other@
    }
}

impl Clone for POEntry {
    fn clone(&self) -> (r: POEntry)
        ensures
            r@ == self@,
    {
        self.duplicate()
    }
}

impl From<&str> for POEntry {
    fn from(s: &str) -> POEntry {
        let mut entry = POEntry::new(0);
        entry.msgid = s.to_owned();
        entry
    }
}

impl vstd::std_specs::convert::FromSpecImpl<&str> for POEntry {
    open spec fn obeys_from_spec() -> bool {
        false
    }

    open spec fn from_spec(s: &str) -> POEntry {
        arbitrary()
    }
}

impl From<usize> for POEntry {
    fn from(linenum: usize) -> POEntry {
        POEntry::new(linenum)
    }
}

impl vstd::std_specs::convert::FromSpecImpl<usize> for POEntry {
    open spec fn obeys_from_spec() -> bool {
        false
    }

    open spec fn from_spec(linenum: usize) -> POEntry {
        arbitrary()
    }
}

impl From<(&str, &str)> for POEntry {
    fn from(pair: (&str, &str)) -> POEntry {
        let mut entry = POEntry::new(0);
        entry.msgid = pair.0.to_owned();
        entry.msgstr = Some(pair.1.to_owned());
        entry
    }
}

impl vstd::std_specs::convert::FromSpecImpl<(&str, &str)> for POEntry {
    open spec fn obeys_from_spec() -> bool {
        false
    }

    open spec fn from_spec(pair: (&str, &str)) -> POEntry {
        arbitrary()
    }
}

impl From<&MOEntry> for POEntry {
    fn from(mo_entry: &MOEntry) -> POEntry {
        POEntry::from_mo_entry(mo_entry)
    }
}

impl vstd::std_specs::convert::FromSpecImpl<&MOEntry> for POEntry {
    open spec fn obeys_from_spec() -> bool {
        false
    }

    open spec fn from_spec(mo_entry: &MOEntry) -> POEntry {
        arbitrary()
    }
}

} // verus!
