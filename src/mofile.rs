//! Compiled catalogs: their entries and metadata, conversion from textual
//! catalogs, and their bytes.

use vstd::prelude::*;
use vstd::utf8::encode_utf8;
use crate::entry::{mo_of_po, mo_translated, po_of_mo, MOEntry, MOEntryView, POEntryView, Translated};
use crate::errors::IOError;
use crate::file::{metadata_hashmap_to_msgstr, metadata_text, AsBytes, Options};
use crate::moparser::{io_reports, lemma_mo_parsed_unique, mo_parsed, parse_mo, plural_keys_unique};
use crate::popieces::keys_unique;
use crate::mowriter::{key_sorted, keys_ascending, mo_bytes, mo_bytes_of, mo_fits, mo_item, MAGIC, MAGIC_SWAPPED};
use crate::natsort::Pairs;
use crate::pofile::{
    entries_view, first_where, kept, lemma_first_where_found, lemma_first_where_none, lemma_first_where_range,
    POFile,
};
use crate::entry::POEntry;
use crate::entry::po_translated;
use crate::values::{copy_pairs, pairs_view};

verus! {

/// The models of a list of compiled entries.
pub open spec fn mo_entries_view(v: Seq<MOEntry>) -> Seq<MOEntryView> {
    v.map_values(|e: MOEntry| e@)
}

/// The compiled entry that holds metadata `m`.
pub open spec fn mo_metadata_entry(m: Pairs) -> MOEntryView {
    MOEntryView {
        msgid: Seq::empty(),
        msgstr: Some(metadata_text(m)),
        msgid_plural: None,
        msgstr_plural: None,
        msgctxt: None,
    }
}

/// The translated entries of `s`, in order.
pub open spec fn mo_kept(s: Seq<MOEntryView>) -> Seq<MOEntryView>
    decreases s.len(),
{
    if s.len() == 0 {
        Seq::empty()
    } else if mo_translated(s.last()) {
        mo_kept(s.drop_last()).push(s.last())
    } else {
        mo_kept(s.drop_last())
    }
}

/// What the compiled bytes of a catalog hold: the metadata entry, then the
/// translated entries.
pub open spec fn mo_written(m: Pairs, s: Seq<MOEntryView>) -> Seq<MOEntryView> {
    seq![mo_metadata_entry(m)] + mo_kept(s)
}

/// The bytes that a catalog is read from: the byte content when there is
/// one, else the UTF-8 bytes of the text.
pub open spec fn content_bytes(o: Options) -> Seq<u8> {
    match o.byte_content {
        Some(v) => v@,
        None => encode_utf8(o.path_or_content@),
    }
}

/// A compiled catalog.
pub struct MOFile<'a> {
    pub options: Options<'a>,
    /// Magic number as read, least significant byte first.
    pub magic_number: Option<u32>,
    /// Revision as read.
    pub version: Option<u32>,
    pub metadata: Vec<(String, String)>,
    pub entries: Vec<MOEntry>,
}

/// Reads a compiled catalog from the bytes of `options`.
pub fn mofile<'a>(options: Options<'a>) -> (r: Result<MOFile<'a>, IOError>)
    ensures
        match mo_parsed(content_bytes(options)) {
            Ok((m, v, rd)) => r is Ok && r->Ok_0.magic_number == Some(m) && r->Ok_0.version == Some(v)
                && mo_entries_view(r->Ok_0.entries@) == rd.entries && pairs_view(r->Ok_0.metadata@)
                == rd.metadata && r->Ok_0.options == options,
            Err(f) => r is Err && io_reports(r->Err_0, f),
        },
        r is Ok ==> keys_unique(pairs_view(r->Ok_0.metadata@)) && forall|i: int|
            0 <= i < r->Ok_0.entries@.len() ==> plural_keys_unique(#[trigger] r->Ok_0.entries@[i]@),
{
    proof {
        lemma_mo_parsed_unique(content_bytes(options));
    }
    let parsed = match &options.byte_content {
        Some(b) => parse_mo(b),
        None => {
            let b = vstd::slice::slice_to_vec(options.path_or_content.as_bytes());
            parse_mo(&b)
        },
    };
    match parsed {
        Ok((m, v, entries, metadata)) => {
            assert(mo_entries_view(entries@) =~= entries@.map_values(|e: MOEntry| e@));
            assert forall|i: int| 0 <= i < entries@.len() implies plural_keys_unique(#[trigger] entries@[i]@) by {
                assert(entries@[i]@ == mo_entries_view(entries@)[i]);
            }
            Ok(MOFile { options, magic_number: Some(m), version: Some(v), metadata, entries })
        },
        Err(e) => Err(e),
    }
}

impl<'a> MOFile<'a> {
    pub fn new(options: Options<'a>) -> (r: Self)
        ensures
            r.options == options,
            r.magic_number is None,
            r.version is None,
            r.metadata@.len() == 0,
            r.entries@.len() == 0,
    {
        MOFile { options, magic_number: None, version: None, metadata: Vec::new(), entries: Vec::new() }
    }

    /// The compiled catalog of a textual one: its translated entries and its
    /// metadata.
    pub fn from_pofile(file: &POFile<'a>) -> (r: MOFile<'a>)
        ensures
            mo_entries_view(r.entries@) == compiled_entries(entries_view(file.entries@)),
            pairs_view(r.metadata@) == pairs_view(file.metadata@),
            r.magic_number is None,
            r.version is None,
    {
        let ghost s = entries_view(file.entries@);
        let mut entries: Vec<MOEntry> = Vec::new();
        let mut i: usize = 0;
        while i < file.entries.len()
            invariant
                s == entries_view(file.entries@),
                i <= s.len(),
                mo_entries_view(entries@) == kept(s.subrange(0, i as int), |e: POEntryView| po_translated(e)).map_values(
                    |e: POEntryView| mo_of_po(e),
                ),
            decreases file.entries.len() - i,
        {
            assert(s.subrange(0, i + 1).drop_last() =~= s.subrange(0, i as int));
            let ghost prev = mo_entries_view(entries@);
            if file.entries[i].translated() {
                entries.push(MOEntry::from_po_entry(&file.entries[i]));
                assert(mo_entries_view(entries@) =~= prev.push(mo_of_po(s[i as int])));
            }
            i = i + 1;
        }
        assert(s.subrange(0, i as int) =~= s);
        MOFile {
            options: file.options.copy(),
            magic_number: None,
            version: None,
            metadata: copy_pairs(&file.metadata),
            entries,
        }
    }

    /// The entry that holds the metadata.
    pub fn metadata_as_entry(&self) -> (r: MOEntry)
        ensures
            r@ == mo_metadata_entry(pairs_view(self.metadata@)),
    {
        MOEntry::new(String::new(), Some(metadata_hashmap_to_msgstr(&self.metadata)), None, None, None)
    }

    /// The MO bytes of the catalog with the given magic number and revision:
    /// the metadata entry and the translated entries, sorted by key, in the
    /// byte order the magic number selects. Empty when an offset would not
    /// fit in 32 bits.
    pub fn as_bytes_with(&self, magic: u32, revision: u32) -> (r: Vec<u8>)
        ensures
            ({
                let items = written_items(pairs_view(self.metadata@), mo_entries_view(self.entries@));
                &&& mo_fits(items) ==> r@ == mo_bytes(items, magic, revision)
                &&& !mo_fits(items) ==> r@.len() == 0
                &&& keys_ascending(key_sorted(items))
            }),
    {
        let ghost s = mo_entries_view(self.entries@);
        let mut written: Vec<MOEntry> = Vec::new();
        written.push(self.metadata_as_entry());
        let mut i: usize = 0;
        assert(mo_entries_view(written@) =~= seq![mo_metadata_entry(pairs_view(self.metadata@))] + mo_kept(s.subrange(0, 0)));
        while i < self.entries.len()
            invariant
                s == mo_entries_view(self.entries@),
                i <= s.len(),
                mo_entries_view(written@) == seq![mo_metadata_entry(pairs_view(self.metadata@))] + mo_kept(s.subrange(0, i as int)),
            decreases self.entries.len() - i,
        {
            assert(s.subrange(0, i + 1).drop_last() =~= s.subrange(0, i as int));
            let ghost prev = mo_entries_view(written@);
            if self.entries[i].translated() {
                written.push(self.entries[i].duplicate());
                assert(mo_entries_view(written@) =~= prev.push(s[i as int]));
            }
            i = i + 1;
        }
        assert(s.subrange(0, i as int) =~= s);
        let ghost items = mo_written(pairs_view(self.metadata@), s).map_values(|e: MOEntryView| mo_item(e));
        assert(written@.map_values(|e: MOEntry| mo_item(e@)) =~= items);
        mo_bytes_of(&written, magic, revision)
    }
}

/// What the compiled bytes of a catalog with metadata `m` and entries `s`
/// hold.
pub open spec fn written_items(m: Pairs, s: Seq<MOEntryView>) -> Seq<crate::mowriter::MOItem> {
    mo_written(m, s).map_values(|e: MOEntryView| mo_item(e))
}

/// The compiled entries of the translated entries of PO entries `s`.
pub open spec fn compiled_entries(s: Seq<POEntryView>) -> Seq<MOEntryView> {
    kept(s, |e: POEntryView| po_translated(e)).map_values(|e: POEntryView| mo_of_po(e))
}

/// The compiled entries of a textual catalog are all translated.
pub proof fn lemma_mo_kept_compiled(s: Seq<POEntryView>)
    ensures
        mo_kept(compiled_entries(s)) == compiled_entries(s),
    decreases s.len(),
{
    let c = compiled_entries(s);
    if s.len() > 0 {
        lemma_mo_kept_compiled(s.drop_last());
        let prev = kept(s.drop_last(), |e: POEntryView| po_translated(e));
        if po_translated(s.last()) {
            assert(kept(s, |e: POEntryView| po_translated(e)) == prev.push(s.last()));
            assert(c =~= compiled_entries(s.drop_last()).push(mo_of_po(s.last())));
            assert(c.drop_last() =~= compiled_entries(s.drop_last()));
            assert(mo_translated(mo_of_po(s.last())));
        } else {
            assert(c =~= compiled_entries(s.drop_last()));
        }
    } else {
        assert(c =~= Seq::<MOEntryView>::empty());
    }
}

impl<'a> AsBytes for MOFile<'a> {
    open spec fn mo_items(&self) -> Seq<crate::mowriter::MOItem> {
        written_items(pairs_view(self.metadata@), mo_entries_view(self.entries@))
    }

    fn as_bytes(&self) -> Vec<u8> {
        self.as_bytes_with(MAGIC, 0)
    }

    fn as_bytes_le(&self) -> Vec<u8> {
        self.as_bytes_with(MAGIC, 0)
    }

    fn as_bytes_be(&self) -> Vec<u8> {
        self.as_bytes_with(MAGIC_SWAPPED, 0)
    }
}

impl<'a> AsBytes for POFile<'a> {
    open spec fn mo_items(&self) -> Seq<crate::mowriter::MOItem> {
        written_items(pairs_view(self.metadata@), compiled_entries(entries_view(self.entries@)))
    }

    fn as_bytes(&self) -> Vec<u8> {
        self.as_bytes_le()
    }

    fn as_bytes_le(&self) -> Vec<u8> {
        proof {
            lemma_mo_kept_compiled(entries_view(self.entries@));
        }
        MOFile::from_pofile(self).as_bytes_with(MAGIC, 0)
    }

    fn as_bytes_be(&self) -> Vec<u8> {
        proof {
            lemma_mo_kept_compiled(entries_view(self.entries@));
        }
        MOFile::from_pofile(self).as_bytes_with(MAGIC_SWAPPED, 0)
    }
}

impl<'a> From<&POFile<'a>> for MOFile<'a> {
    fn from(file: &POFile<'a>) -> MOFile<'a> {
        MOFile::from_pofile(file)
    }
}

impl<'a> vstd::std_specs::convert::FromSpecImpl<&POFile<'a>> for MOFile<'a> {
    open spec fn obeys_from_spec() -> bool {
        false
    }

    open spec fn from_spec(file: &POFile<'a>) -> MOFile<'a> {
        arbitrary()
    }
}

} // verus!

verus! {

/// Whether a compiled entry has msgid `msgid`.
pub open spec fn mo_has_msgid(msgid: Seq<char>) -> spec_fn(MOEntryView) -> bool {
    |e: MOEntryView| e.msgid == msgid
}

/// Whether a compiled entry has msgid `msgid` and context `msgctxt`, a
/// missing context counting as an empty one.
pub open spec fn mo_has_msgid_msgctxt(msgid: Seq<char>, msgctxt: Seq<char>) -> spec_fn(MOEntryView) -> bool {
    |e: MOEntryView|
        e.msgid == msgid && match e.msgctxt {
            Some(c) => c == msgctxt,
            None => msgctxt.len() == 0,
        }
}

impl<'a> MOFile<'a> {
    fn index_where(&self, msgid: &str, msgctxt: Option<&str>) -> (r: Option<usize>)
        ensures
            ({
                let p = match msgctxt {
                    Some(c) => mo_has_msgid_msgctxt(msgid@, c@),
                    None => mo_has_msgid(msgid@),
                };
                &&& match first_where(mo_entries_view(self.entries@), p) {
                    Some(i) => r is Some && r->Some_0 as int == i,
                    None => r is None,
                }
                &&& r is Some ==> r->Some_0 < self.entries@.len()
            }),
    {
        let ghost s = mo_entries_view(self.entries@);
        let ghost p = match msgctxt {
            Some(c) => mo_has_msgid_msgctxt(msgid@, c@),
            None => mo_has_msgid(msgid@),
        };
        let target = String::from_str(msgid);
        let ctx: Option<String> = match msgctxt {
            Some(c) => Some(String::from_str(c)),
            None => None,
        };
        let mut i: usize = 0;
        while i < self.entries.len()
            invariant
                s == mo_entries_view(self.entries@),
                p == (match msgctxt {
                    Some(c) => mo_has_msgid_msgctxt(msgid@, c@),
                    None => mo_has_msgid(msgid@),
                }),
                target@ == msgid@,
                ctx is Some == msgctxt is Some,
                ctx is Some ==> ctx->Some_0@ == msgctxt->Some_0@,
                i <= s.len(),
                forall|k: int| 0 <= k < i ==> !p(#[trigger] s[k]),
            decreases self.entries.len() - i,
        {
            let e = &self.entries[i];
            let ctx_ok = match &ctx {
                None => true,
                Some(c) => match &e.msgctxt {
                    Some(ec) => *ec == *c,
                    None => c.as_str().is_empty(),
                },
            };
            if e.msgid == target && ctx_ok {
                proof {
                    lemma_first_where_found(s, p, i as int);
                }
                return Some(i);
            }
            i = i + 1;
        }
        proof {
            lemma_first_where_none(s, p);
        }
        None
    }

    /// A copy of the first entry with msgid `msgid`.
    pub fn find_by_msgid(&self, msgid: &str) -> (r: Option<MOEntry>)
        ensures
            match first_where(mo_entries_view(self.entries@), mo_has_msgid(msgid@)) {
                Some(i) => r is Some && r->Some_0@ == self.entries@[i]@,
                None => r is None,
            },
    {
        proof {
            lemma_first_where_range(mo_entries_view(self.entries@), mo_has_msgid(msgid@));
        }
        match self.index_where(msgid, None) {
            Some(i) => Some(self.entries[i].duplicate()),
            None => None,
        }
    }

    /// A copy of the first entry with msgid `msgid` and context `msgctxt`; an
    /// entry without context matches an empty `msgctxt`.
    pub fn find_by_msgid_msgctxt(&self, msgid: &str, msgctxt: &str) -> (r: Option<MOEntry>)
        ensures
            match first_where(mo_entries_view(self.entries@), mo_has_msgid_msgctxt(msgid@, msgctxt@)) {
                Some(i) => r is Some && r->Some_0@ == self.entries@[i]@,
                None => r is None,
            },
    {
        proof {
            lemma_first_where_range(mo_entries_view(self.entries@), mo_has_msgid_msgctxt(msgid@, msgctxt@));
        }
        match self.index_where(msgid, Some(msgctxt)) {
            Some(i) => Some(self.entries[i].duplicate()),
            None => None,
        }
    }

    /// Removes the first entry with msgid `msgid`, if there is one.
    pub fn remove_by_msgid(&mut self, msgid: &str)
        ensures
            match first_where(mo_entries_view(old(self).entries@), mo_has_msgid(msgid@)) {
                Some(i) => mo_entries_view(final(self).entries@) == mo_entries_view(old(self).entries@).remove(i),
                None => mo_entries_view(final(self).entries@) == mo_entries_view(old(self).entries@),
            },
            final(self).metadata == old(self).metadata,
            final(self).options == old(self).options,
            final(self).magic_number == old(self).magic_number,
            final(self).version == old(self).version,
    {
        if let Some(i) = self.index_where(msgid, None) {
            let ghost s = mo_entries_view(self.entries@);
            self.entries.remove(i);
            assert(mo_entries_view(self.entries@) =~= s.remove(i as int));
        }
    }

    /// Removes the first entry with msgid `msgid` and context `msgctxt` (a
    /// missing context counting as an empty one), if there is one.
    pub fn remove_by_msgid_msgctxt(&mut self, msgid: &str, msgctxt: &str)
        ensures
            match first_where(mo_entries_view(old(self).entries@), mo_has_msgid_msgctxt(msgid@, msgctxt@)) {
                Some(i) => mo_entries_view(final(self).entries@) == mo_entries_view(old(self).entries@).remove(i),
                None => mo_entries_view(final(self).entries@) == mo_entries_view(old(self).entries@),
            },
            final(self).metadata == old(self).metadata,
            final(self).options == old(self).options,
            final(self).magic_number == old(self).magic_number,
            final(self).version == old(self).version,
    {
        if let Some(i) = self.index_where(msgid, Some(msgctxt)) {
            let ghost s = mo_entries_view(self.entries@);
            self.entries.remove(i);
            assert(mo_entries_view(self.entries@) =~= s.remove(i as int));
        }
    }

    /// Adds `entry` at the end.
    pub fn append(&mut self, entry: MOEntry)
        ensures
            mo_entries_view(final(self).entries@) == mo_entries_view(old(self).entries@).push(entry@),
            final(self).metadata == old(self).metadata,
            final(self).options == old(self).options,
            final(self).magic_number == old(self).magic_number,
            final(self).version == old(self).version,
    {
        let ghost s = mo_entries_view(self.entries@);
        let ghost v = entry@;
        self.entries.push(entry);
        assert(mo_entries_view(self.entries@) =~= s.push(v));
    }

    /// The textual catalog of the compiled one: its entries as PO entries
    /// and its metadata, with no header.
    pub fn to_pofile(&self) -> (r: POFile<'a>)
        ensures
            entries_view(r.entries@) == mo_entries_view(self.entries@).map_values(|e: MOEntryView| po_of_mo(e)),
            pairs_view(r.metadata@) == pairs_view(self.metadata@),
            r.header is None,
            !r.metadata_is_fuzzy,
            r.options.wrapwidth == self.options.wrapwidth,
    {
        let mut entries: Vec<POEntry> = Vec::new();
        let mut i: usize = 0;
        while i < self.entries.len()
            invariant
                i <= self.entries@.len(),
                entries@.len() == i,
                forall|k: int| 0 <= k < i ==> #[trigger] entries@[k]@ == po_of_mo(self.entries@[k]@),
            decreases self.entries.len() - i,
        {
            entries.push(POEntry::from_mo_entry(&self.entries[i]));
            i = i + 1;
        }
        assert(entries_view(entries@) =~= mo_entries_view(self.entries@).map_values(|e: MOEntryView| po_of_mo(e)));
        POFile {
            header: None,
            metadata: copy_pairs(&self.metadata),
            metadata_is_fuzzy: false,
            entries,
            options: self.options.copy(),
        }
    }

    /// The PO text of the catalog, wrapped to its width.
    pub fn to_string(&self) -> (r: String)
        ensures
            r@ == crate::pofile::pofile_text(
                None,
                pairs_view(self.metadata@),
                false,
                mo_entries_view(self.entries@).map_values(|e: MOEntryView| po_of_mo(e)),
                self.options.wrapwidth as int,
            ),
    {
        let f = self.to_pofile();
        f.to_string()
    }
}

} // verus!
