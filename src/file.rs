//! What the catalogs share: the options they are read with, the order of
//! metadata keys, and their compiled bytes.

use vstd::prelude::*;
use crate::natsort::{nat_sorted, naturally_ordered, sort_pairs_natural, Pairs};
use crate::poformat::{join_strs, joined};
use crate::text::push_char;
use crate::values::{pairs_view, strs_view};
use crate::mowriter::{mo_bytes, mo_fits, MOItem, MAGIC, MAGIC_SWAPPED};

verus! {

/// How a catalog is read and written.
#[derive(Debug)]
pub struct Options<'a> {
    /// The content of the catalog (or, for a caller that reads files, its path).
    pub path_or_content: &'a str,
    /// Whether a second entry with the same msgid and context is an error.
    pub check_for_duplicates: bool,
    /// Display width to which PO text is wrapped.
    pub wrapwidth: usize,
    /// The bytes of a compiled catalog, when given directly.
    pub byte_content: Option<Vec<u8>>,
}

impl<'a> Default for Options<'a> {
    fn default() -> (r: Options<'a>)
        ensures
            r.path_or_content@ == ""@,
            !r.check_for_duplicates,
            r.wrapwidth == 0,
            r.byte_content is None,
    {
        Options { path_or_content: "", check_for_duplicates: false, wrapwidth: 0, byte_content: None }
    }
}

impl<'a> Options<'a> {
    /// The same options, without the bytes.
    pub fn copy(&self) -> (r: Options<'a>)
        ensures
            r.path_or_content == self.path_or_content,
            r.check_for_duplicates == self.check_for_duplicates,
            r.wrapwidth == self.wrapwidth,
            r.byte_content is None,
    {
        Options {
            path_or_content: self.path_or_content,
            check_for_duplicates: self.check_for_duplicates,
            wrapwidth: self.wrapwidth,
            byte_content: None,
        }
    }
}

impl<'a> From<&Options<'a>> for Options<'a> {
    fn from(options: &Options<'a>) -> Options<'a> {
        options.copy()
    }
}

impl<'a> vstd::std_specs::convert::FromSpecImpl<&Options<'a>> for Options<'a> {
    open spec fn obeys_from_spec() -> bool {
        true
    }

    open spec fn from_spec(options: &Options<'a>) -> Options<'a> {
        Options {
            path_or_content: options.path_or_content,
            check_for_duplicates: options.check_for_duplicates,
            wrapwidth: options.wrapwidth,
            byte_content: None,
        }
    }
}

impl<'a> From<&'a str> for Options<'a> {
    fn from(path_or_content: &'a str) -> Options<'a> {
        Options { path_or_content, wrapwidth: 78, check_for_duplicates: false, byte_content: None }
    }
}

impl<'a> vstd::std_specs::convert::FromSpecImpl<&'a str> for Options<'a> {
    open spec fn obeys_from_spec() -> bool {
        true
    }

    open spec fn from_spec(path_or_content: &'a str) -> Options<'a> {
        Options { path_or_content, wrapwidth: 78, check_for_duplicates: false, byte_content: None }
    }
}

impl<'a> From<(&'a str, usize)> for Options<'a> {
    fn from(opts: (&'a str, usize)) -> Options<'a> {
        Options { path_or_content: opts.0, wrapwidth: opts.1, check_for_duplicates: false, byte_content: None }
    }
}

impl<'a> vstd::std_specs::convert::FromSpecImpl<(&'a str, usize)> for Options<'a> {
    open spec fn obeys_from_spec() -> bool {
        true
    }

    open spec fn from_spec(opts: (&'a str, usize)) -> Options<'a> {
        Options { path_or_content: opts.0, wrapwidth: opts.1, check_for_duplicates: false, byte_content: None }
    }
}

impl<'a> From<(&'a str, bool)> for Options<'a> {
    fn from(opts: (&'a str, bool)) -> Options<'a> {
        Options { path_or_content: opts.0, wrapwidth: 78, check_for_duplicates: opts.1, byte_content: None }
    }
}

impl<'a> vstd::std_specs::convert::FromSpecImpl<(&'a str, bool)> for Options<'a> {
    open spec fn obeys_from_spec() -> bool {
        true
    }

    open spec fn from_spec(opts: (&'a str, bool)) -> Options<'a> {
        Options { path_or_content: opts.0, wrapwidth: 78, check_for_duplicates: opts.1, byte_content: None }
    }
}

impl<'a> From<Vec<u8>> for Options<'a> {
    fn from(byte_content: Vec<u8>) -> Options<'a> {
        Options { path_or_content: "", wrapwidth: 78, check_for_duplicates: false, byte_content: Some(byte_content) }
    }
}

impl<'a> vstd::std_specs::convert::FromSpecImpl<Vec<u8>> for Options<'a> {
    open spec fn obeys_from_spec() -> bool {
        true
    }

    open spec fn from_spec(byte_content: Vec<u8>) -> Options<'a> {
        Options { path_or_content: "", wrapwidth: 78, check_for_duplicates: false, byte_content: Some(byte_content) }
    }
}

/// The compiled bytes of a catalog: empty when an offset would not fit in
/// 32 bits.
pub trait AsBytes {
    /// What the compiled bytes hold: the metadata entry and the translated
    /// entries, as lookup key, original string and translation.
    spec fn mo_items(&self) -> Seq<MOItem>;

    /// Little-endian bytes, revision 0.
    fn as_bytes(&self) -> (r: Vec<u8>)
        ensures
            mo_fits(self.mo_items()) ==> r@ == mo_bytes(self.mo_items(), MAGIC, 0),
            !mo_fits(self.mo_items()) ==> r@.len() == 0,
    ;

    /// Little-endian bytes, revision 0.
    fn as_bytes_le(&self) -> (r: Vec<u8>)
        ensures
            mo_fits(self.mo_items()) ==> r@ == mo_bytes(self.mo_items(), MAGIC, 0),
            !mo_fits(self.mo_items()) ==> r@.len() == 0,
    ;

    /// Big-endian bytes, revision 0.
    fn as_bytes_be(&self) -> (r: Vec<u8>)
        ensures
            mo_fits(self.mo_items()) ==> r@ == mo_bytes(self.mo_items(), MAGIC_SWAPPED, 0),
            !mo_fits(self.mo_items()) ==> r@.len() == 0,
    ;
}

/// The metadata keys of gettext, in the order in which they are written.
pub open spec fn canonical_keys() -> Seq<Seq<char>> {
    seq![
        "Project-Id-Version"@,
        "Report-Msgid-Bugs-To"@,
        "POT-Creation-Date"@,
        "PO-Revision-Date"@,
        "Last-Translator"@,
        "Language-Team"@,
        "Language"@,
        "MIME-Version"@,
        "Content-Type"@,
        "Content-Transfer-Encoding"@,
        "Plural-Forms"@,
    ]
}

const N_CANONICAL_KEYS: usize = 11;

fn canonical_key(i: usize) -> (r: &'static str)
    requires
        i < 11,
    ensures
        r@ == canonical_keys()[i as int],
{
    match i {
        0 => "Project-Id-Version",
        1 => "Report-Msgid-Bugs-To",
        2 => "POT-Creation-Date",
        3 => "PO-Revision-Date",
        4 => "Last-Translator",
        5 => "Language-Team",
        6 => "Language",
        7 => "MIME-Version",
        8 => "Content-Type",
        9 => "Content-Transfer-Encoding",
        _ => "Plural-Forms",
    }
}

/// The value of the first pair of `m` whose key is `key`.
pub open spec fn lookup(m: Pairs, key: Seq<char>) -> Option<Seq<char>>
    decreases m.len(),
{
    if m.len() == 0 {
        None
    } else if m[0].0 == key {
        Some(m[0].1)
    } else {
        lookup(m.drop_first(), key)
    }
}

/// The canonical keys among the first `k` that `m` holds, each with its value.
pub open spec fn canonical_part(m: Pairs, k: int) -> Pairs
    decreases k,
{
    if k <= 0 {
        Seq::empty()
    } else {
        let prev = canonical_part(m, k - 1);
        match lookup(m, canonical_keys()[k - 1]) {
            Some(v) => prev.push((canonical_keys()[k - 1], v)),
            None => prev,
        }
    }
}

/// The pairs of `m` whose keys are not canonical, in their order.
pub open spec fn non_canonical(m: Pairs) -> Pairs
    decreases m.len(),
{
    if m.len() == 0 {
        Seq::empty()
    } else {
        let prev = non_canonical(m.drop_last());
        if canonical_keys().contains(m.last().0) {
            prev
        } else {
            prev.push(m.last())
        }
    }
}

/// The metadata in the order in which it is written: the canonical keys in
/// their fixed order, then the others in natural order.
pub open spec fn ordered_metadata(m: Pairs) -> Pairs {
    canonical_part(m, 11) + nat_sorted(non_canonical(m))
}

/// One metadata line: `key: value`.
pub open spec fn metadata_line_text(p: (Seq<char>, Seq<char>)) -> Seq<char> {
    p.0 + seq![':', ' '] + p.1
}

/// The `msgstr` of the metadata entry: one line for each pair, in the
/// written order.
pub open spec fn metadata_text(m: Pairs) -> Seq<char> {
    joined(seq!['\n'], ordered_metadata(m).map_values(|p: (Seq<char>, Seq<char>)| metadata_line_text(p)))
}

/// The order of written metadata: the canonical part holds canonical keys
/// only, the rest holds none and is in natural order of the keys.
pub open spec fn metadata_order_holds(m: Pairs) -> bool {
    let c = canonical_part(m, 11);
    let rest = nat_sorted(non_canonical(m));
    &&& forall|i: int| 0 <= i < c.len() ==> canonical_keys().contains(#[trigger] c[i].0)
    &&& forall|i: int| 0 <= i < rest.len() ==> !canonical_keys().contains(#[trigger] rest[i].0)
    &&& naturally_ordered(rest)
}

proof fn lemma_canonical_part_keys(m: Pairs, k: int)
    requires
        0 <= k <= 11,
    ensures
        forall|i: int| 0 <= i < canonical_part(m, k).len() ==> canonical_keys().contains(
            #[trigger] canonical_part(m, k)[i].0,
        ),
    decreases k,
{
    if k > 0 {
        lemma_canonical_part_keys(m, k - 1);
        let prev = canonical_part(m, k - 1);
        assert(canonical_keys()[k - 1] == canonical_keys()[k - 1]);
        assert(canonical_keys().contains(canonical_keys()[k - 1]));
    }
}

proof fn lemma_non_canonical_keys(m: Pairs)
    ensures
        forall|i: int| 0 <= i < non_canonical(m).len() ==> !canonical_keys().contains(
            #[trigger] non_canonical(m)[i].0,
        ),
    decreases m.len(),
{
    if m.len() > 0 {
        lemma_non_canonical_keys(m.drop_last());
        let prev = non_canonical(m.drop_last());
        if !canonical_keys().contains(m.last().0) {
            assert forall|i: int| 0 <= i < prev.push(m.last()).len() implies !canonical_keys().contains(
                #[trigger] prev.push(m.last())[i].0,
            ) by {
                if i < prev.len() {
                    assert(prev.push(m.last())[i] == prev[i]);
                }
            }
        }
    }
}

fn lookup_value(m: &Vec<(String, String)>, key: &String) -> (r: Option<usize>)
    ensures
        match lookup(pairs_view(m@), key@) {
            Some(v) => r is Some && r->Some_0 < m@.len() && m@[r->Some_0 as int].1@ == v,
            None => r is None,
        },
{
    let mut i: usize = 0;
    assert(pairs_view(m@).subrange(0, m@.len() as int) =~= pairs_view(m@));
    while i < m.len()
        invariant
            i <= m@.len(),
            lookup(pairs_view(m@), key@) == lookup(pairs_view(m@).subrange(i as int, m@.len() as int), key@),
        decreases m.len() - i,
    {
        let ghost rest = pairs_view(m@).subrange(i as int, m@.len() as int);
        assert(rest.drop_first() =~= pairs_view(m@).subrange(i + 1, m@.len() as int));
        if m[i].0 == *key {
            return Some(i);
        }
        i = i + 1;
    }
    None
}

fn is_canonical(key: &String) -> (r: bool)
    ensures
        r == canonical_keys().contains(key@),
{
    let mut i: usize = 0;
    while i < N_CANONICAL_KEYS
        invariant
            i <= 11,
            forall|k: int| 0 <= k < i ==> canonical_keys()[k] != key@,
        decreases N_CANONICAL_KEYS - i,
    {
        let c = String::from_str(canonical_key(i));
        if c == *key {
            return true;
        }
        i = i + 1;
    }
    false
}

/// The metadata pairs in the order in which they are written.
pub(crate) fn metadata_hashmap_to_ordered(metadata: &Vec<(String, String)>) -> (r: Vec<(String, String)>)
    ensures
        pairs_view(r@) == ordered_metadata(pairs_view(metadata@)),
        metadata_order_holds(pairs_view(metadata@)),
{
    let ghost m = pairs_view(metadata@);
    let mut ret: Vec<(String, String)> = Vec::new();
    let mut k: usize = 0;
    assert(pairs_view(ret@) =~= canonical_part(m, 0));
    while k < N_CANONICAL_KEYS
        invariant
            k <= 11,
            m == pairs_view(metadata@),
            pairs_view(ret@) == canonical_part(m, k as int),
        decreases N_CANONICAL_KEYS - k,
    {
        let key = String::from_str(canonical_key(k));
        let found = lookup_value(metadata, &key);
        let ghost prev = pairs_view(ret@);
        if let Some(i) = found {
            ret.push((key, metadata[i].1.clone()));
            assert(pairs_view(ret@) =~= canonical_part(m, k + 1));
        }
        k = k + 1;
    }
    let mut rest: Vec<(String, String)> = Vec::new();
    let mut i: usize = 0;
    assert(m.subrange(0, 0) =~= Seq::<(Seq<char>, Seq<char>)>::empty());
    assert(pairs_view(rest@) =~= non_canonical(m.subrange(0, 0)));
    while i < metadata.len()
        invariant
            i <= metadata@.len(),
            m == pairs_view(metadata@),
            pairs_view(rest@) == non_canonical(m.subrange(0, i as int)),
        decreases metadata.len() - i,
    {
        assert(m.subrange(0, i + 1).drop_last() =~= m.subrange(0, i as int));
        if !is_canonical(&metadata[i].0) {
            rest.push((metadata[i].0.clone(), metadata[i].1.clone()));
            assert(pairs_view(rest@) =~= non_canonical(m.subrange(0, i + 1)));
        }
        i = i + 1;
    }
    assert(m.subrange(0, i as int) =~= m);
    let sorted = sort_pairs_natural(&rest);
    proof {
        broadcast use vstd::seq_lib::group_to_multiset_ensures;

        let nc = non_canonical(m);
        let srt = nat_sorted(nc);
        lemma_canonical_part_keys(m, 11);
        lemma_non_canonical_keys(m);
        assert forall|i: int| 0 <= i < srt.len() implies !canonical_keys().contains(#[trigger] srt[i].0) by {
            assert(srt.contains(srt[i]));
            assert(srt.to_multiset().count(srt[i]) > 0);
            assert(nc.contains(srt[i]));
            let j = choose|j: int| 0 <= j < nc.len() && nc[j] == srt[i];
            assert(!canonical_keys().contains(nc[j].0));
        }
    }
    let ghost head = pairs_view(ret@);
    let mut j: usize = 0;
    while j < sorted.len()
        invariant
            j <= sorted@.len(),
            pairs_view(ret@) == head + pairs_view(sorted@).subrange(0, j as int),
        decreases sorted.len() - j,
    {
        let ghost prev = pairs_view(ret@);
        ret.push((sorted[j].0.clone(), sorted[j].1.clone()));
        assert(pairs_view(ret@) =~= prev.push(pairs_view(sorted@)[j as int]));
        j = j + 1;
        assert(pairs_view(ret@) =~= head + pairs_view(sorted@).subrange(0, j as int));
    }
    assert(pairs_view(sorted@).subrange(0, j as int) =~= pairs_view(sorted@));
    ret
}

/// The `msgstr` of the metadata entry.
pub(crate) fn metadata_hashmap_to_msgstr(metadata: &Vec<(String, String)>) -> (r: String)
    ensures
        r@ == metadata_text(pairs_view(metadata@)),
        metadata_order_holds(pairs_view(metadata@)),
{
    let ordered = metadata_hashmap_to_ordered(metadata);
    let mut lines: Vec<String> = Vec::new();
    let mut i: usize = 0;
    while i < ordered.len()
        invariant
            i <= ordered@.len(),
            lines@.len() == i,
            forall|k: int| 0 <= k < i ==> #[trigger] lines@[k]@ == metadata_line_text(pairs_view(ordered@)[k]),
        decreases ordered.len() - i,
    {
        let mut line = ordered[i].0.clone();
        push_char(&mut line, ':');
        push_char(&mut line, ' ');
        line.append(ordered[i].1.as_str());
        lines.push(line);
        i = i + 1;
    }
    let mut sep = String::new();
    push_char(&mut sep, '\n');
    assert(sep@ =~= seq!['\n']);
    assert(strs_view(lines@) =~= pairs_view(ordered@).map_values(
        |p: (Seq<char>, Seq<char>)| metadata_line_text(p),
    ));
    join_strs(sep.as_str(), &lines)
}

} // verus!
