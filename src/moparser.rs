//! The MO parser.

use vstd::prelude::*;
use vstd::utf8::{decode_utf8, valid_utf8};
use crate::bitwise::{as_u32_be, as_u32_le, u32_from_be, u32_from_le};
use crate::entry::{MOEntry, MOEntryView};
use crate::errors::IOError;
use crate::mowriter::{MAGIC, MAGIC_SWAPPED};
use crate::natsort::Pairs;
use crate::popieces::{keys_unique, lemma_metadata_pairs_unique, metadata_of, metadata_of_msgstr, split_on};
use crate::lines::text_lines;
use crate::potoken::{find_char_from, find_from};
use crate::text::{chars_of, push_char, sub_string, utf8_decode};
use crate::values::pairs_view;

verus! {

/// What stops the MO parser, in the model.
pub enum MOFailure {
    ReadingMagic,
    IncorrectMagic { le: u32, be: u32 },
    Revision { version: u32 },
    Corrupted { context: Seq<char> },
}

/// The 32-bit number at `pos`, in the byte order `le` selects.
pub open spec fn read_u32(b: Seq<u8>, pos: int, le: bool) -> int {
    if le {
        u32_from_le(b.subrange(pos, pos + 4))
    } else {
        u32_from_be(b.subrange(pos, pos + 4))
    }
}

/// Whether `len` bytes from `pos` lie within `b`.
pub open spec fn in_bounds(b: Seq<u8>, pos: int, len: int) -> bool {
    0 <= pos && 0 <= len && pos + len <= b.len()
}

/// The decimal digit of `d`, below 10.
pub open spec fn digit(d: nat) -> char {
    ('0' as u8 + d as u8) as char
}

/// The decimal digits of `i`.
pub open spec fn decimal(i: nat) -> Seq<char>
    decreases i,
{
    if i < 10 {
        seq![digit(i)]
    } else {
        decimal(i / 10).push(digit(i % 10))
    }
}

/// Each of `vs` paired with its index, in decimal.
pub open spec fn indexed(vs: Seq<Seq<char>>) -> Pairs {
    Seq::new(vs.len(), |i: int| (decimal(i as nat), vs[i]))
}

/// The entry that an original string `o` and a translation `t` stand for:
/// a context before an EOT, a plural msgid after a NUL, and plural
/// translations separated by NUL.
pub open spec fn mo_entry_of(o: Seq<char>, t: Seq<char>) -> MOEntryView {
    let (msgctxt, rest) = match find_from(o, 0, '\u{4}') {
        Some(k) => (Some(o.subrange(0, k)), o.subrange(k + 1, o.len() as int)),
        None => (None, o),
    };
    let (msgid, msgid_plural) = match find_from(rest, 0, '\0') {
        Some(j) => (rest.subrange(0, j), Some(rest.subrange(j + 1, rest.len() as int))),
        None => (rest, None),
    };
    if find_from(t, 0, '\0') is Some {
        MOEntryView { msgid, msgstr: None, msgid_plural, msgstr_plural: Some(indexed(split_on(t, '\0'))), msgctxt }
    } else {
        MOEntryView { msgid, msgstr: Some(t), msgid_plural, msgstr_plural: None, msgctxt }
    }
}

/// What the parser has read: entries and metadata.
pub ghost struct MORead {
    pub entries: Seq<MOEntryView>,
    pub metadata: Pairs,
}

/// The `i`-th pair of strings, or why it cannot be read.
pub open spec fn string_pair(b: Seq<u8>, ot: int, tt: int, le: bool, i: int) -> Result<(Seq<char>, Seq<char>), MOFailure> {
    if !in_bounds(b, ot + 8 * i, 8) {
        Err(MOFailure::Corrupted { context: "parsing originals table"@ })
    } else if !in_bounds(b, tt + 8 * i, 8) {
        Err(MOFailure::Corrupted { context: "parsing translations table"@ })
    } else {
        let ol = read_u32(b, ot + 8 * i, le);
        let oo = read_u32(b, ot + 8 * i + 4, le);
        let tl = read_u32(b, tt + 8 * i, le);
        let to = read_u32(b, tt + 8 * i + 4, le);
        if !in_bounds(b, oo, ol) {
            Err(MOFailure::Corrupted { context: "parsing original string"@ })
        } else if !in_bounds(b, to, tl) {
            Err(MOFailure::Corrupted { context: "parsing translated string"@ })
        } else if !valid_utf8(b.subrange(oo, oo + ol)) || !valid_utf8(b.subrange(to, to + tl)) {
            Err(MOFailure::Corrupted { context: "decoding strings"@ })
        } else {
            Ok((decode_utf8(b.subrange(oo, oo + ol)), decode_utf8(b.subrange(to, to + tl))))
        }
    }
}

/// The first `k` string pairs read into entries and metadata; an entry with
/// empty msgid and no context holds the metadata.
pub open spec fn read_entries(b: Seq<u8>, ot: int, tt: int, le: bool, k: int) -> Result<MORead, MOFailure>
    decreases k,
{
    if k <= 0 {
        Ok(MORead { entries: Seq::empty(), metadata: Seq::empty() })
    } else {
        match read_entries(b, ot, tt, le, k - 1) {
            Err(f) => Err(f),
            Ok(r) => match string_pair(b, ot, tt, le, k - 1) {
                Err(f) => Err(f),
                Ok((o, t)) => {
                    let e = mo_entry_of(o, t);
                    if e.msgid.len() == 0 && e.msgctxt is None {
                        Ok(MORead { metadata: metadata_of(t), ..r })
                    } else {
                        Ok(MORead { entries: r.entries.push(e), ..r })
                    }
                },
            },
        }
    }
}

/// The outcome of parsing MO bytes: the magic number as read least
/// significant byte first, the revision, and what was read.
pub open spec fn mo_parsed(b: Seq<u8>) -> Result<(u32, u32, MORead), MOFailure> {
    if b.len() < 4 {
        Err(MOFailure::ReadingMagic)
    } else {
        let m_le = u32_from_le(b.subrange(0, 4));
        let m_be = u32_from_be(b.subrange(0, 4));
        if m_le != MAGIC && m_le != MAGIC_SWAPPED {
            Err(MOFailure::IncorrectMagic { le: m_le as u32, be: m_be as u32 })
        } else {
            let le = m_le == MAGIC;
            if b.len() < 8 {
                Err(MOFailure::Corrupted { context: "parsing revision number"@ })
            } else {
                let version = read_u32(b, 4, le);
                if version != 0 && version != 1 {
                    Err(MOFailure::Revision { version: version as u32 })
                } else if b.len() < 12 {
                    Err(MOFailure::Corrupted { context: "parsing number of strings"@ })
                } else if b.len() < 16 {
                    Err(MOFailure::Corrupted { context: "parsing originals table offset"@ })
                } else if b.len() < 20 {
                    Err(MOFailure::Corrupted { context: "parsing translations table offset"@ })
                } else {
                    let n = read_u32(b, 8, le);
                    let ot = read_u32(b, 12, le);
                    let tt = read_u32(b, 16, le);
                    match read_entries(b, ot, tt, le, n) {
                        Ok(r) => Ok((m_le as u32, version as u32, r)),
                        Err(f) => Err(f),
                    }
                }
            }
        }
    }
}

/// Whether `e` reports the failure `f`.
pub open spec fn io_reports(e: IOError, f: MOFailure) -> bool {
    match f {
        MOFailure::ReadingMagic => e matches IOError::ErrorReadingMagicNumber {},
        MOFailure::IncorrectMagic { le, be } => e matches IOError::IncorrectMagicNumber {
            magic_number_le,
            magic_number_be,
        } && magic_number_le == le && magic_number_be == be,
        MOFailure::Revision { version } => e matches IOError::UnsupportedMORevisionNumber { version: v }
            && v == version,
        MOFailure::Corrupted { context } => e matches IOError::CorruptedMOData { context: c } && c@ == context,
    }
}

fn read_u32_at(b: &Vec<u8>, pos: usize, le: bool) -> (r: u32)
    requires
        pos + 4 <= b@.len(),
    ensures
        r == read_u32(b@, pos as int, le),
{
    let n = b.len();
    let a = [b[pos], b[pos + 1], b[pos + 2], b[pos + 3]];
    assert(a@ =~= b@.subrange(pos as int, pos + 4));
    if le {
        as_u32_le(&a)
    } else {
        as_u32_be(&a)
    }
}

fn corrupted(context: &str) -> (r: IOError)
    ensures
        io_reports(r, MOFailure::Corrupted { context: context@ }),
{
    IOError::CorruptedMOData { context: String::from_str(context) }
}

/// The decimal digits of `i`.
fn decimal_string(i: usize) -> (r: String)
    ensures
        r@ == decimal(i as nat),
    decreases i,
{
    if i < 10 {
        let mut s = String::new();
        push_char(&mut s, ('0' as u8 + i as u8) as char);
        s
    } else {
        let mut s = decimal_string(i / 10);
        push_char(&mut s, ('0' as u8 + (i % 10) as u8) as char);
        s
    }
}

fn entry_of(o: &Vec<char>, t: &Vec<char>) -> (r: MOEntry)
    ensures
        r@ == mo_entry_of(o@, t@),
{
    let on = o.len();
    let (msgctxt, rest) = match find_char_from(o, 0, '\u{4}') {
        Some(k) => {
            let rest_s = sub_string(o, k + 1, o.len());
            (Some(sub_string(o, 0, k)), chars_of(rest_s.as_str()))
        },
        None => (None, chars_of(sub_string(o, 0, o.len()).as_str())),
    };
    assert(o@.subrange(0, o@.len() as int) =~= o@);
    let (msgid, msgid_plural) = match find_char_from(&rest, 0, '\0') {
        Some(j) => (sub_string(&rest, 0, j), Some(sub_string(&rest, j + 1, rest.len()))),
        None => (sub_string(&rest, 0, rest.len()), None),
    };
    assert(rest@.subrange(0, rest@.len() as int) =~= rest@);
    let r = match find_char_from(t, 0, '\0') {
        Some(_) => {
            let parts = crate::popieces::split_chars_pub(t, 0);
            let ghost pv = parts@.map_values(|v: Vec<char>| v@);
            assert(t@.subrange(0, t@.len() as int) =~= t@);
            let mut plural: Vec<(String, String)> = Vec::new();
            let mut i: usize = 0;
            while i < parts.len()
                invariant
                    i <= parts@.len(),
                    pv == parts@.map_values(|v: Vec<char>| v@),
                    plural@.len() == i,
                    forall|q: int| 0 <= q < i ==> #[trigger] plural@[q].0@ == decimal(q as nat) && plural@[q].1@ == pv[q],
                decreases parts.len() - i,
            {
                let v = sub_string(&parts[i], 0, parts[i].len());
                assert(parts@[i as int]@.subrange(0, parts@[i as int]@.len() as int) =~= parts@[i as int]@);
                plural.push((decimal_string(i), v));
                i = i + 1;
            }
            assert(pairs_view(plural@) =~= indexed(split_on(t@, '\0')));
            MOEntry { msgid, msgstr: None, msgid_plural, msgstr_plural: Some(plural), msgctxt }
        },
        None => {
            let ts = sub_string(t, 0, t.len());
            assert(t@.subrange(0, t@.len() as int) =~= t@);
            MOEntry { msgid, msgstr: Some(ts), msgid_plural, msgstr_plural: None, msgctxt }
        },
    };
    assert(r@ =~= mo_entry_of(o@, t@));
    r
}

fn decode_slice(b: &Vec<u8>, pos: usize, len: usize) -> (r: Option<Vec<char>>)
    requires
        pos + len <= b@.len(),
    ensures
        r is Some <==> valid_utf8(b@.subrange(pos as int, pos + len)),
        r matches Some(v) ==> v@ == decode_utf8(b@.subrange(pos as int, pos + len)),
{
    let n = b.len();
    let piece = vstd::slice::slice_subrange(b.as_slice(), pos, pos + len);
    match utf8_decode(piece) {
        Some(s) => Some(chars_of(s.as_str())),
        None => None,
    }
}

fn string_pair_of(b: &Vec<u8>, ot: u32, tt: u32, le: bool, i: u32) -> (r: Result<(Vec<char>, Vec<char>), IOError>)
    ensures
        match string_pair(b@, ot as int, tt as int, le, i as int) {
            Ok((o, t)) => r matches Ok((ov, tv)) && ov@ == o && tv@ == t,
            Err(f) => r is Err && io_reports(r->Err_0, f),
        },
{
    let n = b.len() as u64;
    let op = ot as u64 + 8 * (i as u64);
    let tp = tt as u64 + 8 * (i as u64);
    if op + 8 > n {
        return Err(corrupted("parsing originals table"));
    }
    if tp + 8 > n {
        return Err(corrupted("parsing translations table"));
    }
    let ol = read_u32_at(b, op as usize, le);
    let oo = read_u32_at(b, (op + 4) as usize, le);
    let tl = read_u32_at(b, tp as usize, le);
    let to = read_u32_at(b, (tp + 4) as usize, le);
    if oo as u64 + ol as u64 > n {
        return Err(corrupted("parsing original string"));
    }
    if to as u64 + tl as u64 > n {
        return Err(corrupted("parsing translated string"));
    }
    let o = decode_slice(b, oo as usize, ol as usize);
    let t = decode_slice(b, to as usize, tl as usize);
    match (o, t) {
        (Some(o), Some(t)) => Ok((o, t)),
        _ => Err(corrupted("decoding strings")),
    }
}

/// Reads MO bytes: the magic number as read least significant byte first,
/// the revision, the entries and the metadata.
pub fn parse_mo(b: &Vec<u8>) -> (r: Result<(u32, u32, Vec<MOEntry>, Vec<(String, String)>), IOError>)
    ensures
        match mo_parsed(b@) {
            Ok((m, v, rd)) => r matches Ok((m2, v2, es, md)) && m2 == m && v2 == v && es@.map_values(
                |e: MOEntry| e@,
            ) == rd.entries && pairs_view(md@) == rd.metadata,
            Err(f) => r is Err && io_reports(r->Err_0, f),
        },
{
    let len = b.len();
    if len < 4 {
        return Err(IOError::ErrorReadingMagicNumber {  });
    }
    let m_le = read_u32_at(b, 0, true);
    let m_be = read_u32_at(b, 0, false);
    if m_le != MAGIC && m_le != MAGIC_SWAPPED {
        return Err(IOError::IncorrectMagicNumber { magic_number_le: m_le, magic_number_be: m_be });
    }
    let le = m_le == MAGIC;
    if len < 8 {
        return Err(corrupted("parsing revision number"));
    }
    let version = read_u32_at(b, 4, le);
    if version != 0 && version != 1 {
        return Err(IOError::UnsupportedMORevisionNumber { version });
    }
    if len < 12 {
        return Err(corrupted("parsing number of strings"));
    }
    if len < 16 {
        return Err(corrupted("parsing originals table offset"));
    }
    if len < 20 {
        return Err(corrupted("parsing translations table offset"));
    }
    let n = read_u32_at(b, 8, le);
    let ot = read_u32_at(b, 12, le);
    let tt = read_u32_at(b, 16, le);
    let mut entries: Vec<MOEntry> = Vec::new();
    let mut metadata: Vec<(String, String)> = Vec::new();
    let mut k: u32 = 0;
    while k < n
        invariant
            k <= n,
            b@.len() >= 20,
            m_le == u32_from_le(b@.subrange(0, 4)),
            m_le == MAGIC || m_le == MAGIC_SWAPPED,
            le == (m_le == MAGIC),
            version == read_u32(b@, 4, le),
            version == 0 || version == 1,
            n == read_u32(b@, 8, le),
            ot == read_u32(b@, 12, le),
            tt == read_u32(b@, 16, le),
            read_entries(b@, ot as int, tt as int, le, k as int) matches Ok(rd) && entries@.map_values(
                |e: MOEntry| e@,
            ) == rd.entries && pairs_view(metadata@) == rd.metadata,
        decreases n - k,
    {
        let ghost rd = read_entries(b@, ot as int, tt as int, le, k as int)->Ok_0;
        match string_pair_of(b, ot, tt, le, k) {
            Err(e) => {
                proof {
                    assert(read_entries(b@, ot as int, tt as int, le, k + 1) is Err);
                    lemma_read_err(b@, ot as int, tt as int, le, k + 1, n as int);
                }
                return Err(e);
            },
            Ok((o, t)) => {
                let e = entry_of(&o, &t);
                if e.msgid.as_str().is_empty() && e.msgctxt.is_none() {
                    let ts = sub_string(&t, 0, t.len());
                    assert(t@.subrange(0, t@.len() as int) =~= t@);
                    metadata = metadata_of_msgstr(ts.as_str());
                } else {
                    let ghost before = entries@.map_values(|e: MOEntry| e@);
                    entries.push(e);
                    assert(entries@.map_values(|e: MOEntry| e@) =~= before.push(mo_entry_of(o@, t@)));
                }
            },
        }
        k = k + 1;
    }
    Ok((m_le, version, entries, metadata))
}

proof fn lemma_read_err(b: Seq<u8>, ot: int, tt: int, le: bool, k: int, j: int)
    requires
        0 <= k <= j,
        read_entries(b, ot, tt, le, k) is Err,
    ensures
        read_entries(b, ot, tt, le, j) == read_entries(b, ot, tt, le, k),
    decreases j - k,
{
    if j > k {
        lemma_read_err(b, ot, tt, le, k, j - 1);
    }
}

} // verus!

verus! {

proof fn lemma_decimal_len(i: nat)
    ensures
        decimal(i).len() >= 1,
        i >= 10 ==> decimal(i).len() >= 2,
    decreases i,
{
    if i >= 10 {
        lemma_decimal_len(i / 10);
    }
}

proof fn lemma_digit_injective(a: nat, b: nat)
    requires
        a < 10,
        b < 10,
        digit(a) == digit(b),
    ensures
        a == b,
{
    let x = ('0' as u8 + a as u8);
    let y = ('0' as u8 + b as u8);
    assert(x as char as u32 == x as u32);
    assert(y as char as u32 == y as u32);
}

/// Distinct numbers have distinct decimal digits.
pub proof fn lemma_decimal_injective(i: nat, j: nat)
    requires
        decimal(i) == decimal(j),
    ensures
        i == j,
    decreases i + j,
{
    lemma_decimal_len(i);
    lemma_decimal_len(j);
    if i < 10 && j < 10 {
        assert(decimal(i) == seq![digit(i)]);
        assert(decimal(j) == seq![digit(j)]);
        assert(decimal(i)[0] == digit(i));
        assert(decimal(j)[0] == digit(j));
        lemma_digit_injective(i, j);
    } else if i >= 10 && j >= 10 {
        let di = decimal(i);
        let dj = decimal(j);
        assert(di.last() == dj.last());
        lemma_digit_injective(i % 10, j % 10);
        assert(di.drop_last() =~= decimal(i / 10));
        assert(dj.drop_last() =~= decimal(j / 10));
        lemma_decimal_injective(i / 10, j / 10);
    }
}

/// Plural translations that the MO parser reads have unique indices.
pub proof fn lemma_indexed_unique(vs: Seq<Seq<char>>)
    ensures
        keys_unique(indexed(vs)),
{
    let p = indexed(vs);
    assert forall|a: int, b: int| 0 <= a < b < p.len() implies #[trigger] p[a].0 != #[trigger] p[b].0 by {
        if p[a].0 == p[b].0 {
            lemma_decimal_injective(a as nat, b as nat);
        }
    }
}

/// Whether the plural translations of a compiled entry have unique indices.
pub open spec fn plural_keys_unique(e: MOEntryView) -> bool {
    match e.msgstr_plural {
        Some(p) => keys_unique(p),
        None => true,
    }
}

/// Whether the plural translations of each entry, and the metadata, have
/// unique keys.
pub open spec fn mo_keys_unique(r: MORead) -> bool {
    &&& forall|i: int|
        0 <= i < r.entries.len() ==> plural_keys_unique(#[trigger] r.entries[i])
    &&& keys_unique(r.metadata)
}

/// What the MO parser reads has unique keys.
pub proof fn lemma_read_entries_unique(b: Seq<u8>, ot: int, tt: int, le: bool, k: int)
    ensures
        read_entries(b, ot, tt, le, k) matches Ok(r) ==> mo_keys_unique(r),
    decreases k,
{
    if k > 0 {
        lemma_read_entries_unique(b, ot, tt, le, k - 1);
        if let Ok(r) = read_entries(b, ot, tt, le, k - 1) {
            if let Ok((o, t)) = string_pair(b, ot, tt, le, k - 1) {
                let e = mo_entry_of(o, t);
                lemma_indexed_unique(split_on(t, '\0'));
                lemma_metadata_pairs_unique(text_lines(t));
                if !(e.msgid.len() == 0 && e.msgctxt is None) {
                    let n = r.entries.push(e);
                    assert forall|i: int| 0 <= i < n.len() implies plural_keys_unique(#[trigger] n[i]) by {
                        if i < r.entries.len() {
                            assert(n[i] == r.entries[i]);
                        }
                    }
                }
            }
        }
    }
}

} // verus!

verus! {

/// What a successful MO parse reads has unique keys.
pub proof fn lemma_mo_parsed_unique(b: Seq<u8>)
    ensures
        mo_parsed(b) matches Ok((_, _, r)) ==> mo_keys_unique(r),
{
    if b.len() >= 20 {
        let m_le = u32_from_le(b.subrange(0, 4));
        let le = m_le == MAGIC;
        lemma_read_entries_unique(b, read_u32(b, 12, le), read_u32(b, 16, le), le, read_u32(b, 8, le));
    }
}

} // verus!
