//! Textual catalogs: their entries, metadata and header, the queries and
//! changes on them, and their PO text.

use vstd::prelude::*;
use crate::entry::{
    empty_po_entry, fuzzy_flag, fuzzy_str, mo_of_po, po_fuzzy, po_translated, Merge, MOEntry,
    POEntry, POEntryView, Translated,
};
use crate::file::{metadata_hashmap_to_msgstr, metadata_order_holds, metadata_text, Options};
use crate::poparser::{holds_state, lemma_parsed_unique, parsed, reports};
use crate::popieces::keys_unique;
use crate::popieces::{split_newlines, split_on};
use crate::poformat::{concat, mo_entry_text, mo_metadata_entry_to_string, po_entry_text};
use crate::text::{pop_char, push_char};
use crate::values::{opt_view, pairs_view, strs_view};

verus! {

/// The models of a list of entries.
pub open spec fn entries_view(v: Seq<POEntry>) -> Seq<POEntryView> {
    v.map_values(|e: POEntry| e@)
}

/// Index of the first element of `s` that meets `p`.
pub open spec fn first_where<T>(s: Seq<T>, p: spec_fn(T) -> bool) -> Option<int>
    decreases s.len(),
{
    if s.len() == 0 {
        None
    } else if p(s[0]) {
        Some(0)
    } else {
        match first_where(s.drop_first(), p) {
            Some(i) => Some(i + 1),
            None => None,
        }
    }
}

/// The first index where `p` holds, when every earlier one fails it.
pub proof fn lemma_first_where_found<T>(s: Seq<T>, p: spec_fn(T) -> bool, i: int)
    requires
        0 <= i < s.len(),
        p(s[i]),
        forall|k: int| 0 <= k < i ==> !p(#[trigger] s[k]),
    ensures
        first_where(s, p) == Some(i),
    decreases i,
{
    if i > 0 {
        assert(!p(s[0]));
        let t = s.drop_first();
        assert forall|k: int| 0 <= k < i - 1 implies !p(#[trigger] t[k]) by {
            assert(t[k] == s[k + 1]);
        }
        lemma_first_where_found(t, p, i - 1);
    }
}

/// No index, when `p` fails everywhere.
pub proof fn lemma_first_where_none<T>(s: Seq<T>, p: spec_fn(T) -> bool)
    requires
        forall|k: int| 0 <= k < s.len() ==> !p(#[trigger] s[k]),
    ensures
        first_where(s, p) is None,
    decreases s.len(),
{
    if s.len() > 0 {
        let t = s.drop_first();
        assert forall|k: int| 0 <= k < t.len() implies !p(#[trigger] t[k]) by {
            assert(t[k] == s[k + 1]);
        }
        lemma_first_where_none(t, p);
    }
}

/// A found index lies in `s` and meets `p`.
pub proof fn lemma_first_where_range<T>(s: Seq<T>, p: spec_fn(T) -> bool)
    ensures
        first_where(s, p) matches Some(i) ==> 0 <= i < s.len() && p(s[i]),
    decreases s.len(),
{
    if s.len() > 0 {
        lemma_first_where_range(s.drop_first(), p);
    }
}

/// The entries of `s` that meet `p`, in order.
pub open spec fn kept(s: Seq<POEntryView>, p: spec_fn(POEntryView) -> bool) -> Seq<POEntryView>
    decreases s.len(),
{
    if s.len() == 0 {
        Seq::empty()
    } else {
        let prev = kept(s.drop_last(), p);
        if p(s.last()) {
            prev.push(s.last())
        } else {
            prev
        }
    }
}

/// The context of an entry, or an empty one.
pub open spec fn ctx_or_empty(e: POEntryView) -> Seq<char> {
    match e.msgctxt {
        Some(c) => c,
        None => Seq::empty(),
    }
}

/// Whether `e` has msgid `msgid`.
pub open spec fn has_msgid(msgid: Seq<char>) -> spec_fn(POEntryView) -> bool {
    |e: POEntryView| e.msgid == msgid
}

/// Whether `e` has msgid `msgid` and context `msgctxt`, a missing context
/// counting as an empty one.
pub open spec fn has_msgid_msgctxt(msgid: Seq<char>, msgctxt: Seq<char>) -> spec_fn(POEntryView) -> bool {
    |e: POEntryView| e.msgid == msgid && ctx_or_empty(e) == msgctxt
}

/// The entry that stands for the metadata of a catalog.
pub open spec fn metadata_entry(metadata: Seq<(Seq<char>, Seq<char>)>, fuzzy: bool) -> POEntryView {
    POEntryView {
        flags: if fuzzy {
            seq![fuzzy_flag()]
        } else {
            Seq::empty()
        },
        msgstr: if metadata.len() == 0 {
            None
        } else {
            Some(metadata_text(metadata))
        },
        ..empty_po_entry(0)
    }
}

/// One line of the header comment: `#` alone for an empty line.
pub open spec fn header_line(l: Seq<char>) -> Seq<char> {
    if l.len() == 0 {
        seq!['#', '\n']
    } else {
        seq!['#', ' '] + l + seq!['\n']
    }
}

/// The header comment block: one comment line for each segment between
/// newlines.
pub open spec fn header_text(h: Option<Seq<char>>) -> Seq<char> {
    match h {
        Some(x) => concat(split_on(x, '\n').map_values(|l: Seq<char>| header_line(l))),
        None => Seq::empty(),
    }
}

/// The texts of the entries of `s` that are (or are not) obsolete, each
/// followed by an empty line.
pub open spec fn entries_text(s: Seq<POEntryView>, obsolete: bool, width: int) -> Seq<char> {
    concat(
        kept(s, |e: POEntryView| e.obsolete == obsolete).map_values(
            |e: POEntryView| po_entry_text(e, width) + seq!['\n'],
        ),
    )
}

/// `s` without its last character, if it has one.
pub open spec fn without_last(s: Seq<char>) -> Seq<char> {
    if s.len() == 0 {
        s
    } else {
        s.drop_last()
    }
}

/// The PO text of a catalog: header, metadata entry (with a fuzzy flag when
/// the metadata is fuzzy), live entries, then obsolete ones; entries are
/// separated by empty lines.
pub open spec fn pofile_text(
    header: Option<Seq<char>>,
    metadata: Seq<(Seq<char>, Seq<char>)>,
    metadata_is_fuzzy: bool,
    entries: Seq<POEntryView>,
    width: int,
) -> Seq<char> {
    without_last(
        header_text(header) + (if metadata_is_fuzzy {
            "#, fuzzy\n"@
        } else {
            Seq::empty()
        }) + mo_entry_text(mo_of_po(metadata_entry(metadata, metadata_is_fuzzy)), 78, ""@, true)
            + seq!['\n'] + entries_text(entries, false, width) + entries_text(entries, true, width),
    )
}

/// A textual catalog.
pub struct POFile<'a> {
    /// Comment block before the metadata entry.
    pub header: Option<String>,
    /// Metadata pairs of key and value.
    pub metadata: Vec<(String, String)>,
    pub metadata_is_fuzzy: bool,
    pub entries: Vec<POEntry>,
    pub options: Options<'a>,
}

/// Reads a textual catalog from the content in `options`: the first failure
/// of the PO state machine, or the entries, metadata and header it read.
pub fn pofile<'a>(options: Options<'a>) -> (r: Result<POFile<'a>, crate::errors::SyntaxError>)
    ensures
        match parsed(options.path_or_content@, options.check_for_duplicates) {
            Ok(s) => r is Ok && holds_state(r->Ok_0, s) && r->Ok_0.options == options,
            Err(f) => r is Err && reports(r->Err_0, f, options.path_or_content@),
        },
        r is Ok ==> keys_unique(pairs_view(r->Ok_0.metadata@)) && forall|i: int|
            0 <= i < r->Ok_0.entries@.len() ==> keys_unique(#[trigger] r->Ok_0.entries@[i]@.msgstr_plural),
{
    proof {
        lemma_parsed_unique(options.path_or_content@, options.check_for_duplicates);
    }
    let r = crate::poparser::parse_po(options);
    proof {
        if r is Ok {
            let f = r->Ok_0;
            assert forall|i: int| 0 <= i < f.entries@.len() implies keys_unique(
                #[trigger] f.entries@[i]@.msgstr_plural,
            ) by {
                assert(f.entries@[i]@ == entries_view(f.entries@)[i]);
            }
        }
    }
    r
}

impl<'a> POFile<'a> {
    pub fn new(options: Options<'a>) -> (r: Self)
        ensures
            r.options == options,
            r.header is None,
            r.metadata@.len() == 0,
            !r.metadata_is_fuzzy,
            r.entries@.len() == 0,
    {
        POFile { options, header: None, metadata: Vec::new(), metadata_is_fuzzy: false, entries: Vec::new() }
    }

    /// Removes the first entry equal to `entry`, if there is one.
    pub fn remove(&mut self, entry: &POEntry)
        ensures
            match first_where(entries_view(old(self).entries@), |e: POEntryView| e == entry@) {
                Some(i) => entries_view(final(self).entries@) == entries_view(old(self).entries@).remove(i),
                None => entries_view(final(self).entries@) == entries_view(old(self).entries@),
            },
            final(self).metadata == old(self).metadata,
            final(self).header == old(self).header,
            final(self).metadata_is_fuzzy == old(self).metadata_is_fuzzy,
            final(self).options == old(self).options,
    {
        let ghost s = entries_view(self.entries@);
        let ghost p = |e: POEntryView| e == entry@;
        let mut i: usize = 0;
        while i < self.entries.len()
            invariant
                *self == *old(self),
                s == entries_view(self.entries@),
                p == (|e: POEntryView| e == entry@),
                i <= s.len(),
                forall|k: int| 0 <= k < i ==> !p(#[trigger] s[k]),
            decreases self.entries.len() - i,
        {
            if self.entries[i] == *entry {
                proof {
                    lemma_first_where_found(s, p, i as int);
                }
                self.entries.remove(i);
                assert(entries_view(self.entries@) =~= s.remove(i as int));
                return;
            }
            i = i + 1;
        }
        proof {
            lemma_first_where_none(s, p);
        }
    }

    fn index_by_msgid(&self, msgid: &str) -> (r: Option<usize>)
        ensures
            match first_where(entries_view(self.entries@), has_msgid(msgid@)) {
                Some(i) => r is Some && r->Some_0 as int == i,
                None => r is None,
            },
            r is Some ==> r->Some_0 < self.entries@.len(),
    {
        let ghost s = entries_view(self.entries@);
        let ghost p = has_msgid(msgid@);
        let target = String::from_str(msgid);
        let mut i: usize = 0;
        while i < self.entries.len()
            invariant
                s == entries_view(self.entries@),
                p == has_msgid(msgid@),
                target@ == msgid@,
                i <= s.len(),
                forall|k: int| 0 <= k < i ==> !p(#[trigger] s[k]),
            decreases self.entries.len() - i,
        {
            if self.entries[i].msgid == target {
                proof {
                    lemma_first_where_found(s, p, i as int);
                }
                return Some(i);
            }
            i = i + 1;
        }
        proof {
            lemma_first_where_none(s, p);
        }
        None
    }

    fn index_by_msgid_msgctxt(&self, msgid: &str, msgctxt: &str) -> (r: Option<usize>)
        ensures
            match first_where(entries_view(self.entries@), has_msgid_msgctxt(msgid@, msgctxt@)) {
                Some(i) => r is Some && r->Some_0 as int == i,
                None => r is None,
            },
            r is Some ==> r->Some_0 < self.entries@.len(),
    {
        let ghost s = entries_view(self.entries@);
        let ghost p = has_msgid_msgctxt(msgid@, msgctxt@);
        let target = String::from_str(msgid);
        let ctx = String::from_str(msgctxt);
        let empty = String::new();
        let mut i: usize = 0;
        while i < self.entries.len()
            invariant
                s == entries_view(self.entries@),
                p == has_msgid_msgctxt(msgid@, msgctxt@),
                target@ == msgid@,
                ctx@ == msgctxt@,
                empty@ == Seq::<char>::empty(),
                i <= s.len(),
                forall|k: int| 0 <= k < i ==> !p(#[trigger] s[k]),
            decreases self.entries.len() - i,
        {
            let e_ctx: &String = match &self.entries[i].msgctxt {
                Some(c) => c,
                None => &empty,
            };
            if self.entries[i].msgid == target && *e_ctx == ctx {
                proof {
                    lemma_first_where_found(s, p, i as int);
                }
                return Some(i);
            }
            i = i + 1;
        }
        proof {
            lemma_first_where_none(s, p);
        }
        None
    }

    /// A copy of the first entry with msgid `msgid`.
    pub fn find_by_msgid(&self, msgid: &str) -> (r: Option<POEntry>)
        ensures
            match first_where(entries_view(self.entries@), has_msgid(msgid@)) {
                Some(i) => r is Some && r->Some_0@ == self.entries@[i]@,
                None => r is None,
            },
    {
        proof {
            lemma_first_where_range(entries_view(self.entries@), has_msgid(msgid@));
        }
        match self.index_by_msgid(msgid) {
            Some(i) => Some(self.entries[i].duplicate()),
            None => None,
        }
    }

    /// A copy of the first entry with msgid `msgid` and context `msgctxt`; an
    /// entry without context matches an empty `msgctxt`.
    pub fn find_by_msgid_msgctxt(&self, msgid: &str, msgctxt: &str) -> (r: Option<POEntry>)
        ensures
            match first_where(entries_view(self.entries@), has_msgid_msgctxt(msgid@, msgctxt@)) {
                Some(i) => r is Some && r->Some_0@ == self.entries@[i]@,
                None => r is None,
            },
    {
        proof {
            lemma_first_where_range(entries_view(self.entries@), has_msgid_msgctxt(msgid@, msgctxt@));
        }
        match self.index_by_msgid_msgctxt(msgid, msgctxt) {
            Some(i) => Some(self.entries[i].duplicate()),
            None => None,
        }
    }

    /// Removes the first entry with msgid `msgid`, if there is one.
    pub fn remove_by_msgid(&mut self, msgid: &str)
        ensures
            match first_where(entries_view(old(self).entries@), has_msgid(msgid@)) {
                Some(i) => entries_view(final(self).entries@) == entries_view(old(self).entries@).remove(i),
                None => entries_view(final(self).entries@) == entries_view(old(self).entries@),
            },
            final(self).metadata == old(self).metadata,
            final(self).header == old(self).header,
            final(self).metadata_is_fuzzy == old(self).metadata_is_fuzzy,
            final(self).options == old(self).options,
    {
        if let Some(i) = self.index_by_msgid(msgid) {
            let ghost s = entries_view(self.entries@);
            self.entries.remove(i);
            assert(entries_view(self.entries@) =~= s.remove(i as int));
        }
    }

    /// Removes the first entry with msgid `msgid` and context `msgctxt` (a
    /// missing context counting as an empty one), if there is one.
    pub fn remove_by_msgid_msgctxt(&mut self, msgid: &str, msgctxt: &str)
        ensures
            match first_where(entries_view(old(self).entries@), has_msgid_msgctxt(msgid@, msgctxt@)) {
                Some(i) => entries_view(final(self).entries@) == entries_view(old(self).entries@).remove(i),
                None => entries_view(final(self).entries@) == entries_view(old(self).entries@),
            },
            final(self).metadata == old(self).metadata,
            final(self).header == old(self).header,
            final(self).metadata_is_fuzzy == old(self).metadata_is_fuzzy,
            final(self).options == old(self).options,
    {
        if let Some(i) = self.index_by_msgid_msgctxt(msgid, msgctxt) {
            let ghost s = entries_view(self.entries@);
            self.entries.remove(i);
            assert(entries_view(self.entries@) =~= s.remove(i as int));
        }
    }

    /// Adds `entry` at the end.
    pub fn append(&mut self, entry: POEntry)
        ensures
            entries_view(final(self).entries@) == entries_view(old(self).entries@).push(entry@),
            final(self).metadata == old(self).metadata,
            final(self).header == old(self).header,
            final(self).metadata_is_fuzzy == old(self).metadata_is_fuzzy,
            final(self).options == old(self).options,
    {
        let ghost s = entries_view(self.entries@);
        let ghost v = entry@;
        self.entries.push(entry);
        assert(entries_view(self.entries@) =~= s.push(v));
    }

    /// The translated entries, in order.
    pub fn translated_entries(&self) -> (r: Vec<&POEntry>)
        ensures
            r@.map_values(|e: &POEntry| e@) == kept(entries_view(self.entries@), |e: POEntryView| po_translated(e)),
    {
        let ghost s = entries_view(self.entries@);
        let mut entries: Vec<&POEntry> = Vec::new();
        let mut i: usize = 0;
        while i < self.entries.len()
            invariant
                s == entries_view(self.entries@),
                i <= s.len(),
                entries@.map_values(|e: &POEntry| e@) == kept(s.subrange(0, i as int), |e: POEntryView| po_translated(e)),
            decreases self.entries.len() - i,
        {
            assert(s.subrange(0, i + 1).drop_last() =~= s.subrange(0, i as int));
            let ghost prev = entries@.map_values(|e: &POEntry| e@);
            let entry = &self.entries[i];
            if entry.translated() {
                entries.push(entry);
                assert(entries@.map_values(|e: &POEntry| e@) =~= prev.push(s[i as int]));
            }
            i = i + 1;
        }
        assert(s.subrange(0, i as int) =~= s);
        entries
    }

    /// The entries that are not translated, in order.
    pub fn untranslated_entries(&self) -> (r: Vec<&POEntry>)
        ensures
            r@.map_values(|e: &POEntry| e@) == kept(entries_view(self.entries@), |e: POEntryView| !po_translated(e)),
    {
        let ghost s = entries_view(self.entries@);
        let mut entries: Vec<&POEntry> = Vec::new();
        let mut i: usize = 0;
        while i < self.entries.len()
            invariant
                s == entries_view(self.entries@),
                i <= s.len(),
                entries@.map_values(|e: &POEntry| e@) == kept(s.subrange(0, i as int), |e: POEntryView| !po_translated(e)),
            decreases self.entries.len() - i,
        {
            assert(s.subrange(0, i + 1).drop_last() =~= s.subrange(0, i as int));
            let ghost prev = entries@.map_values(|e: &POEntry| e@);
            let entry = &self.entries[i];
            if !entry.translated() {
                entries.push(entry);
                assert(entries@.map_values(|e: &POEntry| e@) =~= prev.push(s[i as int]));
            }
            i = i + 1;
        }
        assert(s.subrange(0, i as int) =~= s);
        entries
    }

    /// The obsolete entries, in order.
    pub fn obsolete_entries(&self) -> (r: Vec<&POEntry>)
        ensures
            r@.map_values(|e: &POEntry| e@) == kept(entries_view(self.entries@), |e: POEntryView| e.obsolete),
    {
        let ghost s = entries_view(self.entries@);
        let mut entries: Vec<&POEntry> = Vec::new();
        let mut i: usize = 0;
        while i < self.entries.len()
            invariant
                s == entries_view(self.entries@),
                i <= s.len(),
                entries@.map_values(|e: &POEntry| e@) == kept(s.subrange(0, i as int), |e: POEntryView| e.obsolete),
            decreases self.entries.len() - i,
        {
            assert(s.subrange(0, i + 1).drop_last() =~= s.subrange(0, i as int));
            let ghost prev = entries@.map_values(|e: &POEntry| e@);
            let entry = &self.entries[i];
            if entry.obsolete {
                entries.push(entry);
                assert(entries@.map_values(|e: &POEntry| e@) =~= prev.push(s[i as int]));
            }
            i = i + 1;
        }
        assert(s.subrange(0, i as int) =~= s);
        entries
    }

    /// The fuzzy entries that are not obsolete, in order.
    pub fn fuzzy_entries(&self) -> (r: Vec<&POEntry>)
        ensures
            r@.map_values(|e: &POEntry| e@) == kept(
                entries_view(self.entries@),
                |e: POEntryView| po_fuzzy(e) && !e.obsolete,
            ),
    {
        let ghost s = entries_view(self.entries@);
        let mut entries: Vec<&POEntry> = Vec::new();
        let mut i: usize = 0;
        while i < self.entries.len()
            invariant
                s == entries_view(self.entries@),
                i <= s.len(),
                entries@.map_values(|e: &POEntry| e@) == kept(
                    s.subrange(0, i as int),
                    |e: POEntryView| po_fuzzy(e) && !e.obsolete,
                ),
            decreases self.entries.len() - i,
        {
            assert(s.subrange(0, i + 1).drop_last() =~= s.subrange(0, i as int));
            let ghost prev = entries@.map_values(|e: &POEntry| e@);
            let entry = &self.entries[i];
            if entry.fuzzy() && !entry.obsolete {
                entries.push(entry);
                assert(entries@.map_values(|e: &POEntry| e@) =~= prev.push(s[i as int]));
            }
            i = i + 1;
        }
        assert(s.subrange(0, i as int) =~= s);
        entries
    }

    /// The entry that stands for the metadata: empty msgid, the `fuzzy` flag
    /// when the metadata is fuzzy, and the metadata lines as `msgstr` unless
    /// there is no metadata.
    pub fn metadata_as_entry(&self) -> (r: POEntry)
        ensures
            r@ == metadata_entry(pairs_view(self.metadata@), self.metadata_is_fuzzy),
            self.metadata@.len() > 0 ==> metadata_order_holds(pairs_view(self.metadata@)),
    {
        let mut entry = POEntry::new(0);
        if self.metadata_is_fuzzy {
            entry.flags.push(fuzzy_str());
        }
        if self.metadata.len() > 0 {
            entry.msgstr = Some(metadata_hashmap_to_msgstr(&self.metadata));
        }
        assert(entry@.flags =~= metadata_entry(pairs_view(self.metadata@), self.metadata_is_fuzzy).flags);
        assert(entry@ =~= metadata_entry(pairs_view(self.metadata@), self.metadata_is_fuzzy));
        entry
    }
}

/// Where the merge puts an entry of the other catalog: the first entry with
/// the same msgid and context when it has a context, else the first with the
/// same msgid.
pub open spec fn merge_target(s: Seq<POEntryView>, o: POEntryView) -> Option<int> {
    match o.msgctxt {
        Some(c) => first_where(s, has_msgid_msgctxt(o.msgid, c)),
        None => first_where(s, has_msgid(o.msgid)),
    }
}

/// `s` with `o` taken over by its target, or added at the end.
pub open spec fn merge_one(s: Seq<POEntryView>, o: POEntryView) -> Seq<POEntryView> {
    match merge_target(s, o) {
        Some(i) => s.update(i, o),
        None => s.push(o),
    }
}

/// `s` with each entry of `os` merged in, in order.
pub open spec fn merge_all(s: Seq<POEntryView>, os: Seq<POEntryView>) -> Seq<POEntryView>
    decreases os.len(),
{
    if os.len() == 0 {
        s
    } else {
        merge_one(merge_all(s, os.drop_last()), os.last())
    }
}

/// `e`, made obsolete unless some entry of `os` has its msgid.
pub open spec fn marked(e: POEntryView, os: Seq<POEntryView>) -> POEntryView {
    if first_where(os, has_msgid(e.msgid)) is Some {
        e
    } else {
        POEntryView { obsolete: true, ..e }
    }
}

/// The entries of a catalog after merging the entries `os` into `s`.
pub open spec fn merged_entries(s: Seq<POEntryView>, os: Seq<POEntryView>) -> Seq<POEntryView> {
    merge_all(s, os).map_values(|e: POEntryView| marked(e, os))
}

impl<'a> Merge for POFile<'a> {
    open spec fn merged(before: &Self, other: &Self, after: &Self) -> bool {
        &&& entries_view(after.entries@) == merged_entries(
            entries_view(before.entries@),
            entries_view(other.entries@),
        )
        &&& after.header == before.header
        &&& after.metadata == before.metadata
        &&& after.metadata_is_fuzzy == before.metadata_is_fuzzy
        &&& after.options == before.options
    }

    fn merge(&mut self, other: Self) {
        let ghost os = entries_view(other.entries@);
        let ghost s0 = entries_view(self.entries@);
        let mut k: usize = 0;
        while k < other.entries.len()
            invariant
                os == entries_view(other.entries@),
                k <= os.len(),
                entries_view(self.entries@) == merge_all(s0, os.subrange(0, k as int)),
                self.header == old(self).header,
                self.metadata == old(self).metadata,
                self.metadata_is_fuzzy == old(self).metadata_is_fuzzy,
                self.options == old(self).options,
                s0 == entries_view(old(self).entries@),
            decreases other.entries.len() - k,
        {
            let o = &other.entries[k];
            let ghost s = entries_view(self.entries@);
            assert(os.subrange(0, k + 1).drop_last() =~= os.subrange(0, k as int));
            assert(os.subrange(0, k + 1).last() == o@);
            let target = match &o.msgctxt {
                Some(c) => self.index_by_msgid_msgctxt(o.msgid.as_str(), c.as_str()),
                None => self.index_by_msgid(o.msgid.as_str()),
            };
            match target {
                Some(i) => {
                    self.entries.set(i, o.duplicate());
                    assert(entries_view(self.entries@) =~= s.update(i as int, o@));
                },
                None => {
                    self.entries.push(o.duplicate());
                    assert(entries_view(self.entries@) =~= s.push(o@));
                },
            }
            k = k + 1;
        }
        assert(os.subrange(0, k as int) =~= os);
        let ghost m = entries_view(self.entries@);
        let mut i: usize = 0;
        while i < self.entries.len()
            invariant
                os == entries_view(other.entries@),
                m.len() == self.entries@.len(),
                i <= m.len(),
                forall|j: int| 0 <= j < i ==> #[trigger] self.entries@[j]@ == marked(m[j], os),
                forall|j: int| i <= j < m.len() ==> #[trigger] self.entries@[j]@ == m[j],
                self.header == old(self).header,
                self.metadata == old(self).metadata,
                self.metadata_is_fuzzy == old(self).metadata_is_fuzzy,
                self.options == old(self).options,
            decreases self.entries.len() - i,
        {
            let found = other.index_by_msgid(self.entries[i].msgid.as_str());
            if found.is_none() {
                let mut e = self.entries[i].duplicate();
                e.obsolete = true;
                self.entries.set(i, e);
            }
            assert(self.entries@[i as int]@ == marked(m[i as int], os));
            i = i + 1;
        }
        assert(entries_view(self.entries@) =~= merged_entries(s0, os));
    }
}

impl<'a> POFile<'a> {
    /// The PO text of the catalog, entries wrapped to the catalog's width.
    /// Its metadata lines hold the canonical keys first, then the others in
    /// natural order.
    pub fn to_string(&self) -> (r: String)
        ensures
            r@ == pofile_text(
                opt_view(self.header),
                pairs_view(self.metadata@),
                self.metadata_is_fuzzy,
                entries_view(self.entries@),
                self.options.wrapwidth as int,
            ),
            self.metadata@.len() > 0 ==> metadata_order_holds(pairs_view(self.metadata@)),
    {
        let mut ret = String::new();
        if let Some(header) = &self.header {
            let lines = split_newlines(header.as_str());
            let ghost parts = split_on(header@, '\n').map_values(|l: Seq<char>| header_line(l));
            let mut i: usize = 0;
            while i < lines.len()
                invariant
                    i <= lines@.len(),
                    strs_view(lines@) == split_on(header@, '\n'),
                    parts == split_on(header@, '\n').map_values(|l: Seq<char>| header_line(l)),
                    ret@ == concat(parts.subrange(0, i as int)),
                decreases lines.len() - i,
            {
                if lines[i].as_str().is_empty() {
                    push_char(&mut ret, '#');
                    push_char(&mut ret, '\n');
                } else {
                    push_char(&mut ret, '#');
                    push_char(&mut ret, ' ');
                    ret.append(lines[i].as_str());
                    push_char(&mut ret, '\n');
                }
                assert(parts[i as int] == header_line(lines@[i as int]@));
                assert(parts.subrange(0, i + 1).drop_last() =~= parts.subrange(0, i as int));
                assert(ret@ =~= concat(parts.subrange(0, i + 1)));
                i = i + 1;
            }
            assert(parts.subrange(0, i as int) =~= parts);
        }
        assert(ret@ =~= header_text(opt_view(self.header)));
        if self.metadata_is_fuzzy {
            ret.append("#, fuzzy\n");
        }
        let md = MOEntry::from_po_entry(&self.metadata_as_entry());
        let mdt = mo_metadata_entry_to_string(&md);
        ret.append(mdt.as_str());
        push_char(&mut ret, '\n');
        let ghost head = ret@;
        let live = self.entries_text(false);
        ret.append(live.as_str());
        let obsolete = self.entries_text(true);
        ret.append(obsolete.as_str());
        let _ = pop_char(&mut ret);
        proof {
            reveal_strlit("");
        }
        ret
    }

    fn entries_text(&self, obsolete: bool) -> (r: String)
        ensures
            r@ == entries_text(entries_view(self.entries@), obsolete, self.options.wrapwidth as int),
    {
        let ghost s = entries_view(self.entries@);
        let ghost w = self.options.wrapwidth as int;
        let mut ret = String::new();
        let mut i: usize = 0;
        while i < self.entries.len()
            invariant
                s == entries_view(self.entries@),
                w == self.options.wrapwidth as int,
                i <= s.len(),
                ret@ == concat(
                    kept(s.subrange(0, i as int), |e: POEntryView| e.obsolete == obsolete).map_values(
                        |e: POEntryView| po_entry_text(e, w) + seq!['\n'],
                    ),
                ),
            decreases self.entries.len() - i,
        {
            let ghost prev = kept(s.subrange(0, i as int), |e: POEntryView| e.obsolete == obsolete);
            assert(s.subrange(0, i + 1).drop_last() =~= s.subrange(0, i as int));
            if self.entries[i].obsolete == obsolete {
                let t = self.entries[i].to_string_with_wrapwidth(self.options.wrapwidth);
                ret.append(t.as_str());
                push_char(&mut ret, '\n');
                let ghost next = prev.push(s[i as int]);
                assert(next.map_values(|e: POEntryView| po_entry_text(e, w) + seq!['\n']).drop_last() =~= prev.map_values(
                    |e: POEntryView| po_entry_text(e, w) + seq!['\n'],
                ));
            }
            i = i + 1;
        }
        assert(s.subrange(0, i as int) =~= s);
        ret
    }
}

} // verus!

verus! {

/// Whether the field that `by` names (`msgid`, `msgstr`, `msgctxt`,
/// `previous_msgid`, or `occurrences` for the path of an occurrence) of `e`
/// holds `value`. Any other `by` matches nothing.
pub open spec fn found_by(e: POEntryView, value: Seq<char>, by: Seq<char>) -> bool {
    if by == "msgid"@ {
        e.msgid == value
    } else if by == "msgstr"@ {
        e.msgstr == Some(value)
    } else if by == "msgctxt"@ {
        e.msgctxt == Some(value)
    } else if by == "previous_msgid"@ {
        e.previous_msgid == Some(value)
    } else if by == "occurrences"@ {
        exists|i: int| 0 <= i < e.occurrences.len() && #[trigger] e.occurrences[i].0 == value
    } else {
        false
    }
}

/// What `find` keeps: the field matches, and so does the context when one is
/// asked for (a missing context counting as an empty one).
pub open spec fn find_match(value: Seq<char>, by: Seq<char>, msgctxt: Option<Seq<char>>) -> spec_fn(
    POEntryView,
) -> bool {
    |e: POEntryView|
        found_by(e, value, by) && match msgctxt {
            Some(c) => ctx_or_empty(e) == c,
            None => true,
        }
}

fn opt_is(o: &Option<String>, value: &String) -> (r: bool)
    ensures
        r == (opt_view(*o) == Some(value@)),
{
    match o {
        Some(x) => *x == *value,
        None => false,
    }
}

fn entry_found(e: &POEntry, value: &String, by: &String) -> (r: bool)
    ensures
        r == found_by(e@, value@, by@),
{
    if *by == String::from_str("msgid") {
        e.msgid == *value
    } else if *by == String::from_str("msgstr") {
        opt_is(&e.msgstr, value)
    } else if *by == String::from_str("msgctxt") {
        opt_is(&e.msgctxt, value)
    } else if *by == String::from_str("previous_msgid") {
        opt_is(&e.previous_msgid, value)
    } else if *by == String::from_str("occurrences") {
        let mut i: usize = 0;
        while i < e.occurrences.len()
            invariant
                i <= e.occurrences@.len(),
                forall|k: int| 0 <= k < i ==> e.occurrences@[k].0@ != value@,
                by@ != "msgid"@ && by@ != "msgstr"@ && by@ != "msgctxt"@ && by@ != "previous_msgid"@,
                by@ == "occurrences"@,
            decreases e.occurrences.len() - i,
        {
            if e.occurrences[i].0 == *value {
                assert(e@.occurrences[i as int].0 == value@);
                return true;
            }
            i = i + 1;
        }
        assert(!found_by(e@, value@, by@)) by {
            if exists|k: int| 0 <= k < e@.occurrences.len() && #[trigger] e@.occurrences[k].0 == value@ {
                let k = choose|k: int| 0 <= k < e@.occurrences.len() && #[trigger] e@.occurrences[k].0 == value@;
                assert(e.occurrences@[k].0@ == value@);
            }
        }
        false
    } else {
        false
    }
}

impl<'a> POFile<'a> {
    /// The entries whose field named by `by` holds `value`, and, when
    /// `msgctxt` is given, whose context is `msgctxt`; in order.
    pub fn find(&self, value: &str, by: &str, msgctxt: Option<&str>) -> (r: Vec<&POEntry>)
        ensures
            r@.map_values(|e: &POEntry| e@) == kept(
                entries_view(self.entries@),
                find_match(
                    value@,
                    by@,
                    match msgctxt {
                        Some(c) => Some(c@),
                        None => None,
                    },
                ),
            ),
    {
        let ghost s = entries_view(self.entries@);
        let ghost p = find_match(
            value@,
            by@,
            match msgctxt {
                Some(c) => Some(c@),
                None => None,
            },
        );
        let v = String::from_str(value);
        let b = String::from_str(by);
        let ctx: Option<String> = match msgctxt {
            Some(c) => Some(String::from_str(c)),
            None => None,
        };
        let empty = String::new();
        let mut entries: Vec<&POEntry> = Vec::new();
        let mut i: usize = 0;
        while i < self.entries.len()
            invariant
                s == entries_view(self.entries@),
                p == find_match(
                    value@,
                    by@,
                    match msgctxt {
                        Some(c) => Some(c@),
                        None => None,
                    },
                ),
                v@ == value@,
                b@ == by@,
                empty@ == Seq::<char>::empty(),
                ctx is Some == msgctxt is Some,
                ctx is Some ==> ctx->Some_0@ == msgctxt->Some_0@,
                i <= s.len(),
                entries@.map_values(|e: &POEntry| e@) == kept(s.subrange(0, i as int), p),
            decreases self.entries.len() - i,
        {
            assert(s.subrange(0, i + 1).drop_last() =~= s.subrange(0, i as int));
            let ghost prev = entries@.map_values(|e: &POEntry| e@);
            let entry = &self.entries[i];
            let ctx_ok = match &ctx {
                None => true,
                Some(c) => {
                    let ec: &String = match &entry.msgctxt {
                        Some(x) => x,
                        None => &empty,
                    };
                    *ec == *c
                },
            };
            if entry_found(entry, &v, &b) && ctx_ok {
                entries.push(entry);
                assert(entries@.map_values(|e: &POEntry| e@) =~= prev.push(s[i as int]));
            }
            i = i + 1;
        }
        assert(s.subrange(0, i as int) =~= s);
        entries
    }
}

} // verus!
