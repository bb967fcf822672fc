//! The compiled form of a catalog: MO bytes.

use vstd::prelude::*;
use vstd::utf8::encode_utf8;
use crate::bitwise::{as_u8_array_be, as_u8_array_le, be_bytes, le_bytes};
use crate::entry::{eot_key_of, MOEntry, MOEntryView};
use crate::natsort::{nat_sorted, sort_pairs_natural};
use crate::poformat::joined;
use crate::text::{chars_of, push_char};
use crate::values::pairs_view;

verus! {

/// Magic number of MO files, as read in their own byte order.
pub const MAGIC: u32 = 0x950412de;

/// The magic number read in the other byte order.
pub const MAGIC_SWAPPED: u32 = 0xde120495;

/// The four bytes of `x` in the byte order `le` selects.
pub open spec fn u32_bytes(x: u32, le: bool) -> Seq<u8> {
    if le {
        le_bytes(x)
    } else {
        be_bytes(x)
    }
}

/// Order of lookup keys: lexicographic on code points, which is the order
/// of their UTF-8 bytes.
pub open spec fn key_lt(a: Seq<char>, b: Seq<char>) -> bool
    decreases a.len(),
{
    if b.len() == 0 {
        false
    } else if a.len() == 0 {
        true
    } else if a[0] != b[0] {
        (a[0] as u32) < (b[0] as u32)
    } else {
        key_lt(a.drop_first(), b.drop_first())
    }
}

/// What a compiled catalog stores of an entry: its lookup key, the original
/// string and the translation.
pub type MOItem = (Seq<char>, Seq<char>, Seq<char>);

/// The original string of an entry: lookup key, then a NUL and the plural
/// msgid if there is one.
pub open spec fn mo_original(e: MOEntryView) -> Seq<char> {
    eot_key_of(e.msgid, e.msgctxt) + match e.msgid_plural {
        Some(p) => seq!['\0'] + p,
        None => Seq::empty(),
    }
}

/// The translation of an entry: its plural translations in natural order of
/// their indices, separated by NUL, or else its `msgstr`.
pub open spec fn mo_translation(e: MOEntryView) -> Seq<char> {
    let plural = match e.msgstr_plural {
        Some(p) => p,
        None => Seq::empty(),
    };
    if plural.len() > 0 {
        joined(seq!['\0'], nat_sorted(plural).map_values(|q: (Seq<char>, Seq<char>)| q.1))
    } else {
        match e.msgstr {
            Some(s) => s,
            None => Seq::empty(),
        }
    }
}

pub open spec fn mo_item(e: MOEntryView) -> MOItem {
    (eot_key_of(e.msgid, e.msgctxt), mo_original(e), mo_translation(e))
}

/// Where insertion from the back puts an item with key `k` among the first
/// `j` items of `s`: after the last one whose key is not greater.
pub open spec fn key_insert_pos(s: Seq<MOItem>, k: Seq<char>, j: int) -> int
    decreases j,
{
    if j <= 0 {
        0
    } else if key_lt(k, s[j - 1].0) {
        key_insert_pos(s, k, j - 1)
    } else {
        j
    }
}

/// `items` sorted by key; items with equal keys keep their order.
pub open spec fn key_sorted(items: Seq<MOItem>) -> Seq<MOItem>
    decreases items.len(),
{
    if items.len() == 0 {
        Seq::empty()
    } else {
        let s = key_sorted(items.drop_last());
        s.insert(key_insert_pos(s, items.last().0, s.len() as int), items.last())
    }
}

/// No key is greater than the key that follows it.
pub open spec fn keys_ascending(s: Seq<MOItem>) -> bool {
    forall|i: int| 0 <= i < s.len() - 1 ==> !key_lt(#[trigger] s[i + 1].0, s[i].0)
}

/// Bytes of a string table: the strings, each followed by a NUL.
pub open spec fn bodies(bs: Seq<Seq<u8>>) -> Seq<u8>
    decreases bs.len(),
{
    if bs.len() == 0 {
        Seq::empty()
    } else {
        bodies(bs.drop_last()) + bs.last() + seq![0u8]
    }
}

/// A table of (length, offset) pairs for strings stored from `start` on.
pub open spec fn table(bs: Seq<Seq<u8>>, start: int, le: bool) -> Seq<u8>
    decreases bs.len(),
{
    if bs.len() == 0 {
        Seq::empty()
    } else {
        let prev = bs.drop_last();
        table(prev, start, le) + u32_bytes(bs.last().len() as u32, le) + u32_bytes(
            (start + bodies(prev).len()) as u32,
            le,
        )
    }
}

/// Offset of the first string: after the header and both tables.
pub open spec fn strings_start(n: int) -> int {
    28 + 16 * n
}

/// Whether every offset of the image fits in 32 bits.
pub open spec fn image_fits(os: Seq<Seq<u8>>, ts: Seq<Seq<u8>>) -> bool {
    strings_start(os.len() as int) + bodies(os).len() + bodies(ts).len() <= u32::MAX
}

/// The MO bytes of originals `os` and translations `ts`: the magic number,
/// least significant byte first, then the revision, the count, the offsets
/// of both tables and an empty hash table, the tables, and the strings.
#[verifier::opaque]
pub open spec fn mo_image(os: Seq<Seq<u8>>, ts: Seq<Seq<u8>>, magic: u32, revision: u32, le: bool) -> Seq<u8> {
    let n = os.len() as int;
    let so = strings_start(n);
    mo_header(n, magic, revision, le) + table(os, so, le) + table(ts, so + bodies(os).len(), le) + bodies(os)
        + bodies(ts)
}

/// The 28 bytes of the header of an MO file with `n` strings.
pub open spec fn mo_header(n: int, magic: u32, revision: u32, le: bool) -> Seq<u8> {
    le_bytes(magic) + u32_bytes(revision, le) + u32_bytes(n as u32, le) + u32_bytes(28, le) + u32_bytes(
        (28 + 8 * n) as u32,
        le,
    ) + u32_bytes(0, le) + u32_bytes(0, le)
}

/// The MO bytes of `items`, sorted by key, in the byte order that `magic`
/// selects: big-endian for `MAGIC_SWAPPED`, else little-endian.
pub open spec fn mo_bytes(items: Seq<MOItem>, magic: u32, revision: u32) -> Seq<u8> {
    let sorted = key_sorted(items);
    mo_image(
        sorted.map_values(|it: MOItem| encode_utf8(it.1)),
        sorted.map_values(|it: MOItem| encode_utf8(it.2)),
        magic,
        revision,
        magic != MAGIC_SWAPPED,
    )
}

/// Whether the MO bytes of `items` fit in 32-bit offsets.
pub open spec fn mo_fits(items: Seq<MOItem>) -> bool {
    let sorted = key_sorted(items);
    image_fits(
        sorted.map_values(|it: MOItem| encode_utf8(it.1)),
        sorted.map_values(|it: MOItem| encode_utf8(it.2)),
    )
}

/// Whether `a` comes before `b` in key order.
fn key_less(a: &Vec<char>, b: &Vec<char>) -> (r: bool)
    ensures
        r == key_lt(a@, b@),
{
    let mut i: usize = 0;
    assert(a@.subrange(0, a@.len() as int) =~= a@);
    assert(b@.subrange(0, b@.len() as int) =~= b@);
    while i < a.len() && i < b.len() && a[i] == b[i]
        invariant
            i <= a@.len(),
            i <= b@.len(),
            key_lt(a@, b@) == key_lt(a@.subrange(i as int, a@.len() as int), b@.subrange(i as int, b@.len() as int)),
        decreases a.len() - i,
    {
        assert(a@.subrange(i as int, a@.len() as int).drop_first() =~= a@.subrange(i + 1, a@.len() as int));
        assert(b@.subrange(i as int, b@.len() as int).drop_first() =~= b@.subrange(i + 1, b@.len() as int));
        i = i + 1;
    }
    if i == b.len() {
        false
    } else if i == a.len() {
        true
    } else {
        (a[i] as u32) < (b[i] as u32)
    }
}

/// The key order is total and asymmetric.
pub proof fn lemma_key_total_pub(a: Seq<char>, b: Seq<char>)
    ensures
        !key_lt(a, b) ==> a == b || key_lt(b, a),
        key_lt(a, b) ==> !key_lt(b, a),
{
    lemma_key_total(a, b);
}

/// Keys in ascending order that are pairwise distinct are strictly
/// ascending.
pub proof fn lemma_distinct_keys_strictly_ascending(s: Seq<MOItem>)
    requires
        keys_ascending(s),
        forall|i: int, j: int| 0 <= i < j < s.len() ==> #[trigger] s[i].0 != #[trigger] s[j].0,
    ensures
        forall|i: int| 0 <= i < s.len() - 1 ==> key_lt(#[trigger] s[i].0, s[i + 1].0),
{
    assert forall|i: int| 0 <= i < s.len() - 1 implies key_lt(#[trigger] s[i].0, s[i + 1].0) by {
        assert(!key_lt(s[i + 1].0, s[i].0));
        assert(s[i].0 != s[i + 1].0);
        lemma_key_total(s[i].0, s[i + 1].0);
    }
}

proof fn lemma_key_total(a: Seq<char>, b: Seq<char>)
    ensures
        !key_lt(a, b) ==> a == b || key_lt(b, a),
        key_lt(a, b) ==> !key_lt(b, a),
    decreases a.len(),
{
    if a.len() > 0 && b.len() > 0 && a[0] == b[0] {
        lemma_key_total(a.drop_first(), b.drop_first());
        if a.drop_first() == b.drop_first() {
            assert(a =~= seq![a[0]] + a.drop_first());
            assert(b =~= seq![b[0]] + b.drop_first());
        }
    } else if a.len() > 0 && b.len() > 0 {
        vstd::utf8::char_u32_cast(a[0], a[0] as u32);
        vstd::utf8::char_u32_cast(b[0], b[0] as u32);
    } else if a.len() == 0 && b.len() == 0 {
        assert(a =~= b);
    }
}

/// An item as values: key, original string and translation.
pub struct Item {
    pub key: Vec<char>,
    pub original: String,
    pub translation: String,
}

pub open spec fn item_view(it: Item) -> MOItem {
    (it.key@, it.original@, it.translation@)
}

pub open spec fn items_view(v: Seq<Item>) -> Seq<MOItem> {
    v.map_values(|it: Item| item_view(it))
}

/// Inserting an item after the keys not greater than its own and before the
/// greater ones keeps the keys ascending.
pub proof fn lemma_insert_keeps_ascending(s: Seq<MOItem>, x: MOItem, j: int)
    requires
        keys_ascending(s),
        0 <= j <= s.len(),
        j > 0 ==> !key_lt(x.0, s[j - 1].0),
        j < s.len() ==> key_lt(x.0, s[j].0),
    ensures
        keys_ascending(s.insert(j, x)),
{
    let ns = s.insert(j, x);
    assert forall|k: int| 0 <= k < ns.len() - 1 implies !key_lt(#[trigger] ns[k + 1].0, ns[k].0) by {
        if k < j - 1 {
            assert(ns[k] == s[k] && ns[k + 1] == s[k + 1]);
        } else if k == j - 1 {
            lemma_key_total(x.0, s[j - 1].0);
        } else if k == j {
            lemma_key_total(x.0, s[j].0);
        } else {
            let m = k - 1;
            assert(ns[k] == s[m] && ns[k + 1] == s[m + 1]);
        }
    }
}

/// `items` sorted by key.
fn sort_items(items: Vec<Item>) -> (r: Vec<Item>)
    ensures
        items_view(r@) == key_sorted(items_view(items@)),
        keys_ascending(items_view(r@)),
{
    let ghost iv = items_view(items@);
    let mut r: Vec<Item> = Vec::new();
    let mut rest = items;
    let mut i: usize = 0;
    let n = rest.len();
    // take items from the back so that each can be moved out
    let mut stack: Vec<Item> = Vec::new();
    while rest.len() > 0
        invariant
            stack@.len() + rest@.len() == n,
            n == iv.len(),
            items_view(rest@) == iv.subrange(0, rest@.len() as int),
            forall|k: int| 0 <= k < stack@.len() ==> item_view(#[trigger] stack@[k]) == iv[n - 1 - k],
        decreases rest.len(),
    {
        let ghost old_rest = items_view(rest@);
        let it = rest.pop().unwrap();
        assert(item_view(it) == old_rest[old_rest.len() - 1]);
        assert(item_view(it) == iv[rest@.len() as int]);
        stack.push(it);
        assert(items_view(rest@) =~= iv.subrange(0, rest@.len() as int));
    }
    assert(items_view(r@) =~= key_sorted(iv.subrange(0, 0)));
    while stack.len() > 0
        invariant
            i == n - stack@.len(),
            n == iv.len(),
            forall|k: int| 0 <= k < stack@.len() ==> item_view(#[trigger] stack@[k]) == iv[n - 1 - k],
            items_view(r@) == key_sorted(iv.subrange(0, i as int)),
            keys_ascending(items_view(r@)),
        decreases stack.len(),
    {
        let it = stack.pop().unwrap();
        assert(item_view(it) == iv[i as int]);
        let ghost s = items_view(r@);
        let mut j: usize = r.len();
        while j > 0 && key_less(&it.key, &r[j - 1].key)
            invariant
                s == items_view(r@),
                j <= r@.len(),
                key_insert_pos(s, it.key@, r@.len() as int) == key_insert_pos(s, it.key@, j as int),
                forall|k: int| j <= k < r@.len() ==> key_lt(it.key@, #[trigger] s[k].0),
            decreases j,
        {
            j = j - 1;
        }
        proof {
            assert(iv.subrange(0, i + 1).drop_last() =~= iv.subrange(0, i as int));
            assert(key_insert_pos(s, it.key@, j as int) == j);
        }
        let ghost xv = item_view(it);
        r.insert(j, it);
        proof {
            assert(items_view(r@) =~= s.insert(j as int, xv));
            lemma_insert_keeps_ascending(s, xv, j as int);
        }
        i = i + 1;
    }
    assert(iv.subrange(0, i as int) =~= iv);
    r
}

/// Plural translations in natural order of their indices, separated by NUL.
fn plural_translation(p: &Vec<(String, String)>) -> (r: String)
    ensures
        r@ == joined(seq!['\0'], nat_sorted(pairs_view(p@)).map_values(|q: (Seq<char>, Seq<char>)| q.1)),
{
    let sorted = sort_pairs_natural(p);
    let mut t = String::new();
    let mut i: usize = 0;
    let ghost vals = pairs_view(sorted@).map_values(|q: (Seq<char>, Seq<char>)| q.1);
    while i < sorted.len()
        invariant
            i <= sorted@.len(),
            vals == pairs_view(sorted@).map_values(|q: (Seq<char>, Seq<char>)| q.1),
            t@ == joined(seq!['\0'], vals.subrange(0, i as int)),
        decreases sorted.len() - i,
    {
        if i > 0 {
            push_char(&mut t, '\0');
        }
        t.append(sorted[i].1.as_str());
        assert(vals.subrange(0, i + 1).drop_last() =~= vals.subrange(0, i as int));
        assert(t@ =~= joined(seq!['\0'], vals.subrange(0, i + 1)));
        i = i + 1;
    }
    assert(vals.subrange(0, i as int) =~= vals);
    t
}

fn msgstr_or_empty(m: &Option<String>) -> (r: String)
    ensures
        r@ == match *m {
            Some(s) => s@,
            None => Seq::<char>::empty(),
        },
{
    match m {
        Some(s) => s.clone(),
        None => String::new(),
    }
}

/// The item of a compiled entry.
fn item_of(e: &MOEntry) -> (r: Item)
    ensures
        item_view(r) == mo_item(e@),
{
    let key_s = e.msgid_eot_msgctxt_string();
    let key = chars_of(key_s.as_str());
    let mut original = key_s.clone();
    if let Some(p) = &e.msgid_plural {
        push_char(&mut original, '\0');
        original.append(p.as_str());
    }
    let translation = match &e.msgstr_plural {
        Some(p) => if p.len() > 0 {
            plural_translation(p)
        } else {
            msgstr_or_empty(&e.msgstr)
        },
        None => msgstr_or_empty(&e.msgstr),
    };
    let r = Item { key, original, translation };
    assert(r.original@ =~= mo_original(e@));
    r
}

fn push_u32(v: &mut Vec<u8>, x: u32, le: bool)
    ensures
        final(v)@ == old(v)@ + u32_bytes(x, le),
{
    let b = if le {
        as_u8_array_le(x)
    } else {
        as_u8_array_be(x)
    };
    v.push(b[0]);
    v.push(b[1]);
    v.push(b[2]);
    v.push(b[3]);
    assert(final(v)@ =~= old(v)@ + u32_bytes(x, le));
}

proof fn lemma_bodies_prefix(bs: Seq<Seq<u8>>, i: int)
    requires
        0 <= i <= bs.len(),
    ensures
        bodies(bs.subrange(0, i)).len() <= bodies(bs).len(),
    decreases bs.len() - i,
{
    if i < bs.len() {
        lemma_bodies_prefix(bs, i + 1);
        assert(bs.subrange(0, i + 1).drop_last() =~= bs.subrange(0, i));
    } else {
        assert(bs.subrange(0, i) =~= bs);
    }
}

/// The UTF-8 bytes of each original string (`originals`) or translation.
fn encoded(items: &Vec<Item>, originals: bool) -> (r: Vec<Vec<u8>>)
    ensures
        originals ==> r@.map_values(|b: Vec<u8>| b@) == items_view(items@).map_values(|it: MOItem| encode_utf8(it.1)),
        !originals ==> r@.map_values(|b: Vec<u8>| b@) == items_view(items@).map_values(|it: MOItem| encode_utf8(it.2)),
{
    let mut r: Vec<Vec<u8>> = Vec::new();
    let mut i: usize = 0;
    while i < items.len()
        invariant
            i <= items@.len(),
            r@.len() == i,
            forall|k: int| 0 <= k < i ==> #[trigger] r@[k]@ == encode_utf8(
                if originals { items@[k].original@ } else { items@[k].translation@ },
            ),
        decreases items.len() - i,
    {
        let s = if originals {
            items[i].original.as_str()
        } else {
            items[i].translation.as_str()
        };
        let b = vstd::slice::slice_to_vec(s.as_bytes());
        r.push(b);
        i = i + 1;
    }
    if originals {
        assert(r@.map_values(|b: Vec<u8>| b@) =~= items_view(items@).map_values(|it: MOItem| encode_utf8(it.1)));
    } else {
        assert(r@.map_values(|b: Vec<u8>| b@) =~= items_view(items@).map_values(|it: MOItem| encode_utf8(it.2)));
    }
    r
}

/// Size of the string bodies of `bs`, or none when it passes `u32::MAX`.
fn bodies_size(bs: &Vec<Vec<u8>>) -> (r: Option<u64>)
    ensures
        match r {
            Some(x) => x == bodies(bs@.map_values(|b: Vec<u8>| b@)).len() && x <= u32::MAX,
            None => bodies(bs@.map_values(|b: Vec<u8>| b@)).len() > u32::MAX,
        },
{
    let ghost v = bs@.map_values(|b: Vec<u8>| b@);
    let mut acc: u64 = 0;
    let mut i: usize = 0;
    assert(v.subrange(0, 0) =~= Seq::<Seq<u8>>::empty());
    while i < bs.len()
        invariant
            i <= bs@.len(),
            v == bs@.map_values(|b: Vec<u8>| b@),
            acc == bodies(v.subrange(0, i as int)).len(),
            acc <= u32::MAX,
        decreases bs.len() - i,
    {
        assert(v.subrange(0, i + 1).drop_last() =~= v.subrange(0, i as int));
        let len = bs[i].len();
        if len as u64 > u32::MAX as u64 - acc || len as u64 + 1 > u32::MAX as u64 - acc {
            proof {
                lemma_bodies_prefix(v, i + 1);
            }
            return None;
        }
        acc = acc + len as u64 + 1;
        i = i + 1;
    }
    assert(v.subrange(0, i as int) =~= v);
    Some(acc)
}

fn push_table(out: &mut Vec<u8>, bs: &Vec<Vec<u8>>, start: u64, le: bool)
    requires
        start + bodies(bs@.map_values(|b: Vec<u8>| b@)).len() <= u32::MAX,
    ensures
        final(out)@ == old(out)@ + table(bs@.map_values(|b: Vec<u8>| b@), start as int, le),
{
    let ghost v = bs@.map_values(|b: Vec<u8>| b@);
    let ghost head = out@;
    let mut off: u64 = start;
    let mut i: usize = 0;
    assert(v.subrange(0, 0) =~= Seq::<Seq<u8>>::empty());
    while i < bs.len()
        invariant
            i <= bs@.len(),
            v == bs@.map_values(|b: Vec<u8>| b@),
            start + bodies(v).len() <= u32::MAX,
            off == start + bodies(v.subrange(0, i as int)).len(),
            out@ == head + table(v.subrange(0, i as int), start as int, le),
        decreases bs.len() - i,
    {
        let ghost pre = v.subrange(0, i as int);
        assert(v.subrange(0, i + 1).drop_last() =~= pre);
        proof {
            lemma_bodies_prefix(v, i + 1);
        }
        let len = bs[i].len();
        push_u32(out, len as u32, le);
        push_u32(out, off as u32, le);
        off = off + len as u64 + 1;
        i = i + 1;
        assert(out@ =~= head + table(v.subrange(0, i as int), start as int, le));
    }
    assert(v.subrange(0, i as int) =~= v);
}

fn push_bodies(out: &mut Vec<u8>, bs: &Vec<Vec<u8>>)
    ensures
        final(out)@ == old(out)@ + bodies(bs@.map_values(|b: Vec<u8>| b@)),
{
    let ghost v = bs@.map_values(|b: Vec<u8>| b@);
    let ghost head = out@;
    let mut i: usize = 0;
    assert(v.subrange(0, 0) =~= Seq::<Seq<u8>>::empty());
    while i < bs.len()
        invariant
            i <= bs@.len(),
            v == bs@.map_values(|b: Vec<u8>| b@),
            out@ == head + bodies(v.subrange(0, i as int)),
        decreases bs.len() - i,
    {
        assert(v.subrange(0, i + 1).drop_last() =~= v.subrange(0, i as int));
        let ghost before = out@;
        let mut j: usize = 0;
        while j < bs[i].len()
            invariant
                i < bs@.len(),
                j <= bs@[i as int]@.len(),
                out@ == before + bs@[i as int]@.subrange(0, j as int),
            decreases bs[i as int]@.len() - j,
        {
            out.push(bs[i][j]);
            j = j + 1;
            assert(out@ =~= before + bs@[i as int]@.subrange(0, j as int));
        }
        out.push(0u8);
        assert(bs@[i as int]@.subrange(0, j as int) =~= bs@[i as int]@);
        i = i + 1;
        assert(out@ =~= head + bodies(v.subrange(0, i as int)));
    }
    assert(v.subrange(0, i as int) =~= v);
}

/// The MO bytes of items already sorted; empty when an offset would not fit
/// in 32 bits.
#[verifier::rlimit(60)]
fn image_of(items: &Vec<Item>, magic: u32, revision: u32) -> (r: Vec<u8>)
    ensures
        ({
            let os = items_view(items@).map_values(|it: MOItem| encode_utf8(it.1));
            let ts = items_view(items@).map_values(|it: MOItem| encode_utf8(it.2));
            if image_fits(os, ts) {
                r@ == mo_image(os, ts, magic, revision, magic != MAGIC_SWAPPED)
            } else {
                r@.len() == 0
            }
        }),
{
    let le = magic != MAGIC_SWAPPED;
    let os = encoded(items, true);
    let ts = encoded(items, false);
    let ghost osv = os@.map_values(|b: Vec<u8>| b@);
    let ghost tsv = ts@.map_values(|b: Vec<u8>| b@);
    let n = items.len();
    if n >= 0x1000_0000 {
        assert(strings_start(n as int) > u32::MAX);
        return Vec::new();
    }
    let so: u64 = 28 + 16 * (n as u64);
    let size_o = match bodies_size(&os) {
        Some(x) => x,
        None => {
            return Vec::new();
        },
    };
    let size_t = match bodies_size(&ts) {
        Some(x) => x,
        None => {
            return Vec::new();
        },
    };
    if so + size_o + size_t > u32::MAX as u64 {
        return Vec::new();
    }
    let mut out = header_bytes(n, magic, revision, le);
    let ghost h = out@;
    push_table(&mut out, &os, so, le);
    push_table(&mut out, &ts, so + size_o, le);
    push_bodies(&mut out, &os);
    push_bodies(&mut out, &ts);
    proof {
        reveal(mo_image);
        assert(out@ =~= mo_image(osv, tsv, magic, revision, le));
    }
    out
}

fn header_bytes(n: usize, magic: u32, revision: u32, le: bool) -> (r: Vec<u8>)
    requires
        n < 0x1000_0000,
    ensures
        r@ == mo_header(n as int, magic, revision, le),
{
    let mut out: Vec<u8> = Vec::new();
    let b = as_u8_array_le(magic);
    out.push(b[0]);
    out.push(b[1]);
    out.push(b[2]);
    out.push(b[3]);
    assert(out@ =~= le_bytes(magic));
    push_u32(&mut out, revision, le);
    push_u32(&mut out, n as u32, le);
    push_u32(&mut out, 28, le);
    push_u32(&mut out, (28 + 8 * n) as u32, le);
    push_u32(&mut out, 0, le);
    push_u32(&mut out, 0, le);
    out
}

/// The MO bytes of `entries`, sorted by key, in the byte order that `magic`
/// selects; empty when an offset would not fit in 32 bits.
pub fn mo_bytes_of(entries: &Vec<MOEntry>, magic: u32, revision: u32) -> (r: Vec<u8>)
    ensures
        ({
            let items = entries@.map_values(|e: MOEntry| mo_item(e@));
            if mo_fits(items) {
                r@ == mo_bytes(items, magic, revision)
            } else {
                r@.len() == 0
            }
        }),
        keys_ascending(key_sorted(entries@.map_values(|e: MOEntry| mo_item(e@)))),
{
    let mut items: Vec<Item> = Vec::new();
    let mut i: usize = 0;
    while i < entries.len()
        invariant
            i <= entries@.len(),
            items@.len() == i,
            forall|k: int| 0 <= k < i ==> item_view(#[trigger] items@[k]) == mo_item(entries@[k]@),
        decreases entries.len() - i,
    {
        items.push(item_of(&entries[i]));
        i = i + 1;
    }
    assert(items_view(items@) =~= entries@.map_values(|e: MOEntry| mo_item(e@)));
    let sorted = sort_items(items);
    image_of(&sorted, magic, revision)
}

} // verus!
