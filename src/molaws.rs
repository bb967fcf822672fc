//! What reading MO bytes back gives: the strings that were written, in
//! either byte order.

use vstd::prelude::*;
use vstd::utf8::encode_utf8;
use crate::bitwise::{be_bytes, le_bytes, u32_from_be, u32_from_le};
use crate::entry::MOEntryView;
use crate::file::metadata_text;
use crate::mofile::{compiled_entries, lemma_mo_kept_compiled, mo_kept, mo_metadata_entry, mo_written, written_items};
use crate::entry::POEntryView;
use crate::moparser::{indexed, mo_entry_of, mo_parsed, read_entries, read_u32, string_pair, MOFailure, MORead};
use crate::mowriter::{
    bodies, image_fits, key_insert_pos, key_lt, key_sorted, lemma_key_total_pub, mo_bytes, mo_fits,
    mo_header, mo_image, mo_item, mo_original, mo_translation, strings_start, table, u32_bytes, MOItem,
    MAGIC, MAGIC_SWAPPED,
};
use crate::natsort::nat_sorted;
use crate::poformat::joined;
use crate::popieces::{metadata_of, split_on};
use crate::potoken::find_from;
verus! {

proof fn lemma_le_round(x: u32)
    ensures
        u32_from_le(le_bytes(x)) == x,
{
    assert(((x % 0x100) as u8) as u32 + (((x / 0x100) % 0x100) as u8) as u32 * 0x100 + (((x / 0x10000) % 0x100)
        as u8) as u32 * 0x10000 + ((x / 0x1000000) as u8) as u32 * 0x1000000 == x) by (bit_vector);
}

proof fn lemma_be_round(x: u32)
    ensures
        u32_from_be(be_bytes(x)) == x,
{
    assert(((x % 0x100) as u8) as u32 + (((x / 0x100) % 0x100) as u8) as u32 * 0x100 + (((x / 0x10000) % 0x100)
        as u8) as u32 * 0x10000 + ((x / 0x1000000) as u8) as u32 * 0x1000000 == x) by (bit_vector);
}

/// Reading four bytes written as `x` gives `x` back.
proof fn lemma_read_written(s: Seq<u8>, pos: int, x: u32, le: bool)
    requires
        0 <= pos,
        pos + 4 <= s.len(),
        s.subrange(pos, pos + 4) == u32_bytes(x, le),
    ensures
        read_u32(s, pos, le) == x,
{
    if le {
        lemma_le_round(x);
    } else {
        lemma_be_round(x);
    }
}

proof fn lemma_bodies_len(bs: Seq<Seq<u8>>, i: int)
    requires
        0 <= i < bs.len(),
    ensures
        bodies(bs.subrange(0, i)).len() + bs[i].len() + 1 <= bodies(bs).len(),
        bodies(bs).subrange(
            bodies(bs.subrange(0, i)).len() as int,
            (bodies(bs.subrange(0, i)).len() + bs[i].len()) as int,
        ) == bs[i],
    decreases bs.len(),
{
    let prev = bs.drop_last();
    if i < prev.len() {
        lemma_bodies_len(prev, i);
        assert(prev.subrange(0, i) =~= bs.subrange(0, i));
        let off = bodies(bs.subrange(0, i)).len() as int;
        assert(bodies(bs) == bodies(prev) + bs.last() + seq![0u8]);
        assert(bodies(bs).subrange(off, off + bs[i].len()) =~= bodies(prev).subrange(off, off + bs[i].len()));
    } else {
        assert(bs.subrange(0, i) =~= prev);
        let off = bodies(prev).len() as int;
        assert(bodies(bs).subrange(off, off + bs[i].len()) =~= bs[i]);
    }
}

proof fn lemma_table_len(bs: Seq<Seq<u8>>, start: int, le: bool)
    ensures
        table(bs, start, le).len() == 8 * bs.len(),
    decreases bs.len(),
{
    if bs.len() > 0 {
        lemma_table_len(bs.drop_last(), start, le);
    }
}

proof fn lemma_table_entry(bs: Seq<Seq<u8>>, start: int, le: bool, i: int)
    requires
        0 <= i < bs.len(),
    ensures
        table(bs, start, le).subrange(8 * i, 8 * i + 4) == u32_bytes(bs[i].len() as u32, le),
        table(bs, start, le).subrange(8 * i + 4, 8 * i + 8) == u32_bytes(
            (start + bodies(bs.subrange(0, i)).len()) as u32,
            le,
        ),
    decreases bs.len(),
{
    let prev = bs.drop_last();
    lemma_table_len(prev, start, le);
    lemma_table_len(bs, start, le);
    let t = table(bs, start, le);
    let tp = table(prev, start, le);
    if i < prev.len() {
        lemma_table_entry(prev, start, le, i);
        assert(prev.subrange(0, i) =~= bs.subrange(0, i));
        assert(t.subrange(8 * i, 8 * i + 4) =~= tp.subrange(8 * i, 8 * i + 4));
        assert(t.subrange(8 * i + 4, 8 * i + 8) =~= tp.subrange(8 * i + 4, 8 * i + 8));
    } else {
        assert(bs.subrange(0, i) =~= prev);
        assert(t.subrange(8 * i, 8 * i + 4) =~= u32_bytes(bs[i].len() as u32, le));
        assert(t.subrange(8 * i + 4, 8 * i + 8) =~= u32_bytes((start + bodies(prev).len()) as u32, le));
    }
}

/// Entries and metadata that reading the items `its` in order gives: an
/// item with empty msgid and no context holds the metadata.
pub open spec fn items_read(its: Seq<MOItem>) -> MORead
    decreases its.len(),
{
    if its.len() == 0 {
        MORead { entries: Seq::empty(), metadata: Seq::empty() }
    } else {
        let r = items_read(its.drop_last());
        let e = mo_entry_of(its.last().1, its.last().2);
        if e.msgid.len() == 0 && e.msgctxt is None {
            MORead { metadata: metadata_of(its.last().2), ..r }
        } else {
            MORead { entries: r.entries.push(e), ..r }
        }
    }
}

proof fn lemma_image_parts(os: Seq<Seq<u8>>, ts: Seq<Seq<u8>>, magic: u32, revision: u32, le: bool)
    requires
        os.len() == ts.len(),
    ensures
        ({
            let n = os.len() as int;
            let so = strings_start(n);
            &&& mo_image(os, ts, magic, revision, le) == mo_header(n, magic, revision, le) + table(os, so, le) + table(
                ts,
                so + bodies(os).len(),
                le,
            ) + bodies(os) + bodies(ts)
            &&& mo_header(n, magic, revision, le).len() == 28
            &&& table(os, so, le).len() == 8 * n
            &&& table(ts, so + bodies(os).len(), le).len() == 8 * n
        }),
{
    reveal(mo_image);
    let n = os.len() as int;
    let so = strings_start(n);
    lemma_table_len(os, so, le);
    lemma_table_len(ts, so + bodies(os).len(), le);
}

proof fn lemma_image_fields(os: Seq<Seq<u8>>, ts: Seq<Seq<u8>>, magic: u32, revision: u32, le: bool, i: int)
    requires
        os.len() == ts.len(),
        0 <= i < os.len(),
        image_fits(os, ts),
    ensures
        ({
            let n = os.len() as int;
            let so = strings_start(n);
            let b = mo_image(os, ts, magic, revision, le);
            &&& b.len() == so + bodies(os).len() + bodies(ts).len()
            &&& read_u32(b, 28 + 8 * i, le) == os[i].len()
            &&& read_u32(b, 28 + 8 * i + 4, le) == so + bodies(os.subrange(0, i)).len()
            &&& read_u32(b, 28 + 8 * n + 8 * i, le) == ts[i].len()
            &&& read_u32(b, 28 + 8 * n + 8 * i + 4, le) == so + bodies(os).len() + bodies(ts.subrange(0, i)).len()
        }),
{
    lemma_image_parts(os, ts, magic, revision, le);
    lemma_bodies_len(os, i);
    lemma_bodies_len(ts, i);
    lemma_image_field_originals(os, ts, magic, revision, le, i);
    lemma_image_field_translations(os, ts, magic, revision, le, i);
}

#[verifier::rlimit(40)]
proof fn lemma_image_field_originals(os: Seq<Seq<u8>>, ts: Seq<Seq<u8>>, magic: u32, revision: u32, le: bool, i: int)
    requires
        os.len() == ts.len(),
        0 <= i < os.len(),
        image_fits(os, ts),
    ensures
        read_u32(mo_image(os, ts, magic, revision, le), 28 + 8 * i, le) == os[i].len(),
        read_u32(mo_image(os, ts, magic, revision, le), 28 + 8 * i + 4, le) == strings_start(os.len() as int)
            + bodies(os.subrange(0, i)).len(),
{
    let n = os.len() as int;
    let so = strings_start(n);
    let b = mo_image(os, ts, magic, revision, le);
    lemma_image_parts(os, ts, magic, revision, le);
    lemma_bodies_len(os, i);
    let h = mo_header(n, magic, revision, le);
    let to_ = table(os, so, le);
    let rest = table(ts, so + bodies(os).len(), le) + bodies(os) + bodies(ts);
    assert(b =~= h + to_ + rest);
    lemma_table_entry(os, so, le, i);
    assert(b.subrange(28 + 8 * i, 28 + 8 * i + 4) =~= to_.subrange(8 * i, 8 * i + 4));
    assert(b.subrange(28 + 8 * i + 4, 28 + 8 * i + 8) =~= to_.subrange(8 * i + 4, 8 * i + 8));
    lemma_read_written(b, 28 + 8 * i, os[i].len() as u32, le);
    lemma_read_written(b, 28 + 8 * i + 4, (so + bodies(os.subrange(0, i)).len()) as u32, le);
}

#[verifier::rlimit(40)]
proof fn lemma_image_field_translations(
    os: Seq<Seq<u8>>,
    ts: Seq<Seq<u8>>,
    magic: u32,
    revision: u32,
    le: bool,
    i: int,
)
    requires
        os.len() == ts.len(),
        0 <= i < os.len(),
        image_fits(os, ts),
    ensures
        read_u32(mo_image(os, ts, magic, revision, le), 28 + 8 * os.len() + 8 * i, le) == ts[i].len(),
        read_u32(mo_image(os, ts, magic, revision, le), 28 + 8 * os.len() + 8 * i + 4, le) == strings_start(
            os.len() as int,
        ) + bodies(os).len() + bodies(ts.subrange(0, i)).len(),
{
    let n = os.len() as int;
    let so = strings_start(n);
    let b = mo_image(os, ts, magic, revision, le);
    lemma_image_parts(os, ts, magic, revision, le);
    lemma_bodies_len(ts, i);
    let head = mo_header(n, magic, revision, le) + table(os, so, le);
    let tt_ = table(ts, so + bodies(os).len(), le);
    let rest = bodies(os) + bodies(ts);
    assert(b =~= head + tt_ + rest);
    assert(head.len() == 28 + 8 * n);
    lemma_table_entry(ts, so + bodies(os).len(), le, i);
    assert(b.subrange(28 + 8 * n + 8 * i, 28 + 8 * n + 8 * i + 4) =~= tt_.subrange(8 * i, 8 * i + 4));
    assert(b.subrange(28 + 8 * n + 8 * i + 4, 28 + 8 * n + 8 * i + 8) =~= tt_.subrange(8 * i + 4, 8 * i + 8));
    lemma_read_written(b, 28 + 8 * n + 8 * i, ts[i].len() as u32, le);
    lemma_read_written(
        b,
        28 + 8 * n + 8 * i + 4,
        (so + bodies(os).len() + bodies(ts.subrange(0, i)).len()) as u32,
        le,
    );
}

proof fn lemma_image_strings(os: Seq<Seq<u8>>, ts: Seq<Seq<u8>>, magic: u32, revision: u32, le: bool, i: int)
    requires
        os.len() == ts.len(),
        0 <= i < os.len(),
    ensures
        ({
            let n = os.len() as int;
            let so = strings_start(n);
            let b = mo_image(os, ts, magic, revision, le);
            let oo = so + bodies(os.subrange(0, i)).len();
            let to = so + bodies(os).len() + bodies(ts.subrange(0, i)).len();
            &&& oo + os[i].len() <= b.len()
            &&& to + ts[i].len() <= b.len()
            &&& b.subrange(oo, oo + os[i].len()) == os[i]
            &&& b.subrange(to, to + ts[i].len()) == ts[i]
        }),
{
    let n = os.len() as int;
    let so = strings_start(n);
    let b = mo_image(os, ts, magic, revision, le);
    lemma_image_parts(os, ts, magic, revision, le);
    lemma_bodies_len(os, i);
    lemma_bodies_len(ts, i);
    let oo = so + bodies(os.subrange(0, i)).len();
    let to = so + bodies(os).len() + bodies(ts.subrange(0, i)).len();
    let po = bodies(os.subrange(0, i)).len() as int;
    let pt = bodies(ts.subrange(0, i)).len() as int;
    assert(b.subrange(oo, oo + os[i].len()) =~= bodies(os).subrange(po, po + os[i].len()));
    assert(b.subrange(to, to + ts[i].len()) =~= bodies(ts).subrange(pt, pt + ts[i].len()));
}

proof fn lemma_read_image(its: Seq<MOItem>, magic: u32, revision: u32, le: bool, k: int)
    requires
        0 <= k <= its.len(),
        image_fits(its.map_values(|it: MOItem| encode_utf8(it.1)), its.map_values(|it: MOItem| encode_utf8(it.2))),
    ensures
        ({
            let os = its.map_values(|it: MOItem| encode_utf8(it.1));
            let ts = its.map_values(|it: MOItem| encode_utf8(it.2));
            let n = its.len() as int;
            read_entries(mo_image(os, ts, magic, revision, le), 28, 28 + 8 * n, le, k) == Ok::<MORead, MOFailure>(
                items_read(its.subrange(0, k)),
            )
        }),
    decreases k,
{
    let os = its.map_values(|it: MOItem| encode_utf8(it.1));
    let ts = its.map_values(|it: MOItem| encode_utf8(it.2));
    let n = its.len() as int;
    let b = mo_image(os, ts, magic, revision, le);
    if k > 0 {
        lemma_read_image(its, magic, revision, le, k - 1);
        let i = k - 1;
        lemma_image_fields(os, ts, magic, revision, le, i);
        lemma_image_strings(os, ts, magic, revision, le, i);
        vstd::utf8::encode_utf8_valid_utf8(its[i].1);
        vstd::utf8::encode_utf8_valid_utf8(its[i].2);
        vstd::utf8::encode_utf8_decode_utf8(its[i].1);
        vstd::utf8::encode_utf8_decode_utf8(its[i].2);
        assert(string_pair(b, 28, 28 + 8 * n, le, i) == Ok::<(Seq<char>, Seq<char>), MOFailure>(
            (its[i].1, its[i].2),
        ));
        assert(its.subrange(0, k).drop_last() =~= its.subrange(0, i));
    } else {
        assert(its.subrange(0, 0) =~= Seq::<MOItem>::empty());
    }
}

proof fn lemma_header_reads(n: int, magic: u32, revision: u32, le: bool)
    requires
        0 <= n,
        28 + 16 * n <= u32::MAX,
    ensures
        ({
            let h = mo_header(n, magic, revision, le);
            &&& h.len() == 28
            &&& u32_from_le(h.subrange(0, 4)) == magic
            &&& read_u32(h, 4, le) == revision
            &&& read_u32(h, 8, le) == n
            &&& read_u32(h, 12, le) == 28
            &&& read_u32(h, 16, le) == 28 + 8 * n
        }),
{
    let h = mo_header(n, magic, revision, le);
    assert(h.subrange(0, 4) =~= le_bytes(magic));
    assert(h.subrange(4, 8) =~= u32_bytes(revision, le));
    assert(h.subrange(8, 12) =~= u32_bytes(n as u32, le));
    assert(h.subrange(12, 16) =~= u32_bytes(28, le));
    assert(h.subrange(16, 20) =~= u32_bytes((28 + 8 * n) as u32, le));
    lemma_le_round(magic);
    lemma_read_written(h, 4, revision, le);
    lemma_read_written(h, 8, n as u32, le);
    lemma_read_written(h, 12, 28, le);
    lemma_read_written(h, 16, (28 + 8 * n) as u32, le);
}

proof fn lemma_header_fields(os: Seq<Seq<u8>>, ts: Seq<Seq<u8>>, magic: u32, revision: u32, le: bool)
    requires
        os.len() == ts.len(),
        image_fits(os, ts),
    ensures
        ({
            let n = os.len() as int;
            let b = mo_image(os, ts, magic, revision, le);
            &&& b.len() >= 28
            &&& u32_from_le(b.subrange(0, 4)) == magic
            &&& read_u32(b, 4, le) == revision
            &&& read_u32(b, 8, le) == n
            &&& read_u32(b, 12, le) == 28
            &&& read_u32(b, 16, le) == 28 + 8 * n
        }),
{
    let n = os.len() as int;
    let b = mo_image(os, ts, magic, revision, le);
    lemma_image_parts(os, ts, magic, revision, le);
    let h = mo_header(n, magic, revision, le);
    lemma_header_reads(n, magic, revision, le);
    assert(b.subrange(0, 28) =~= h);
    assert forall|k: int| 0 <= k <= 24 implies #[trigger] b.subrange(k, k + 4) == h.subrange(k, k + 4) by {
        assert(b.subrange(k, k + 4) =~= b.subrange(0, 28).subrange(k, k + 4));
    }
    assert(b.subrange(0, 4) == h.subrange(0, 4));
    assert(b.subrange(4, 8) == h.subrange(4, 8));
    assert(b.subrange(8, 12) == h.subrange(8, 12));
    assert(b.subrange(12, 16) == h.subrange(12, 16));
    assert(b.subrange(16, 20) == h.subrange(16, 20));
}

/// Reading the MO bytes of `items` back gives the magic number and the
/// revision they were written with, and what the items hold, sorted by key:
/// each original string and translation comes back as it was, in either
/// byte order.
pub proof fn lemma_mo_bytes_read_back(items: Seq<MOItem>, magic: u32, revision: u32)
    requires
        mo_fits(items),
        magic == MAGIC || magic == MAGIC_SWAPPED,
        revision == 0 || revision == 1,
    ensures
        mo_parsed(mo_bytes(items, magic, revision)) == Ok::<(u32, u32, MORead), MOFailure>(
            (magic, revision, items_read(key_sorted(items))),
        ),
{
    let sorted = key_sorted(items);
    let os = sorted.map_values(|it: MOItem| encode_utf8(it.1));
    let ts = sorted.map_values(|it: MOItem| encode_utf8(it.2));
    let le = magic != MAGIC_SWAPPED;
    let n = sorted.len() as int;
    lemma_header_fields(os, ts, magic, revision, le);
    lemma_read_image(sorted, magic, revision, le, n);
    assert(sorted.subrange(0, n) =~= sorted);
}

/// Compiled bytes read the same in either byte order: writing a catalog
/// little-endian or big-endian and reading it back gives the same revision,
/// entries and metadata.
pub proof fn lemma_endianness_independent(
    metadata: Seq<(Seq<char>, Seq<char>)>,
    entries: Seq<MOEntryView>,
    revision: u32,
)
    requires
        mo_fits(mo_written(metadata, entries).map_values(|e: MOEntryView| mo_item(e))),
        revision == 0 || revision == 1,
    ensures
        ({
            let items = mo_written(metadata, entries).map_values(
                |e: MOEntryView| mo_item(e),
            );
            &&& mo_parsed(mo_bytes(items, MAGIC, revision)) is Ok
            &&& mo_parsed(mo_bytes(items, MAGIC_SWAPPED, revision)) is Ok
            &&& mo_parsed(mo_bytes(items, MAGIC, revision))->Ok_0.1 == mo_parsed(mo_bytes(items, MAGIC_SWAPPED, revision))->Ok_0.1
            &&& mo_parsed(mo_bytes(items, MAGIC, revision))->Ok_0.2 == mo_parsed(mo_bytes(items, MAGIC_SWAPPED, revision))->Ok_0.2
        }),
{
    let items = mo_written(metadata, entries).map_values(
        |e: MOEntryView| mo_item(e),
    );
    lemma_mo_bytes_read_back(items, MAGIC, revision);
    lemma_mo_bytes_read_back(items, MAGIC_SWAPPED, revision);
}

} // verus!

verus! {

/// Whether `c` does not occur in `s`.
pub open spec fn lacks(s: Seq<char>, c: char) -> bool {
    forall|i: int| 0 <= i < s.len() ==> s[i] != c
}

proof fn lemma_find_absent(s: Seq<char>, off: int, c: char)
    requires
        0 <= off,
        lacks(s, c),
    ensures
        find_from(s, off, c) is None,
    decreases s.len() - off,
{
    if off < s.len() {
        lemma_find_absent(s, off + 1, c);
    }
}

proof fn lemma_find_first(x: Seq<char>, y: Seq<char>, off: int, c: char)
    requires
        0 <= off <= x.len(),
        lacks(x, c),
    ensures
        find_from(x + seq![c] + y, off, c) == Some(x.len() as int),
    decreases x.len() - off,
{
    let s = x + seq![c] + y;
    if off < x.len() {
        assert(s[off] == x[off]);
        lemma_find_first(x, y, off + 1, c);
    } else {
        assert(s[off] == c);
    }
}

proof fn lemma_split_single(v: Seq<char>, c: char)
    requires
        lacks(v, c),
    ensures
        split_on(v, c) == seq![v],
    decreases v.len(),
{
    if v.len() > 0 {
        lemma_split_single(v.drop_last(), c);
        assert(v.drop_last().push(v.last()) =~= v);
        assert(seq![v.drop_last()].update(0, v.drop_last().push(v.last())) =~= seq![v]);
    } else {
        assert(v =~= Seq::<char>::empty());
    }
}

proof fn lemma_split_after(a: Seq<char>, b: Seq<char>, c: char)
    requires
        lacks(b, c),
    ensures
        split_on(a + seq![c] + b, c) == split_on(a, c).push(b),
    decreases b.len(),
{
    let s = a + seq![c] + b;
    if b.len() > 0 {
        lemma_split_after(a, b.drop_last(), c);
        assert(s.drop_last() =~= a + seq![c] + b.drop_last());
        assert(s.last() == b.last());
        let r = split_on(a, c).push(b.drop_last());
        assert(b.drop_last().push(b.last()) =~= b);
        assert(b.last() != c);
        assert(r.update(r.len() - 1, r.last().push(b.last())) =~= split_on(a, c).push(b));
    } else {
        assert(s =~= a + seq![c]);
        assert((a + seq![c]).drop_last() =~= a);
        assert(b =~= Seq::<char>::empty());
    }
}

/// Splitting at `c` the strings joined with `c` gives them back, when none
/// holds `c`.
pub proof fn lemma_split_joined(vals: Seq<Seq<char>>, c: char)
    requires
        vals.len() > 0,
        forall|i: int| 0 <= i < vals.len() ==> lacks(#[trigger] vals[i], c),
    ensures
        split_on(joined(seq![c], vals), c) == vals,
    decreases vals.len(),
{
    if vals.len() == 1 {
        lemma_split_single(vals[0], c);
        assert(seq![vals[0]] =~= vals);
    } else {
        let prev = vals.drop_last();
        lemma_split_joined(prev, c);
        assert(lacks(vals.last(), c));
        lemma_split_after(joined(seq![c], prev), vals.last(), c);
        assert(prev.push(vals.last()) =~= vals);
    }
}

/// Whether a compiled entry reads back as itself from its original string
/// and translation: no EOT or NUL inside its strings, and either a single
/// translation or at least two plural translations indexed 0, 1, ... in
/// their natural order.
pub open spec fn reads_back(e: MOEntryView) -> bool {
    &&& lacks(e.msgid, '\u{4}') && lacks(e.msgid, '\0')
    &&& (e.msgctxt matches Some(x) ==> lacks(x, '\u{4}'))
    &&& (e.msgid_plural matches Some(p) ==> lacks(p, '\u{4}') && lacks(p, '\0'))
    &&& match e.msgstr_plural {
        None => e.msgstr matches Some(s) && lacks(s, '\0'),
        Some(p) => {
            &&& e.msgstr is None
            &&& p.len() >= 2
            &&& nat_sorted(p) == p
            &&& p == indexed(p.map_values(|q: (Seq<char>, Seq<char>)| q.1))
            &&& forall|i: int| 0 <= i < p.len() ==> lacks(#[trigger] p[i].1, '\0')
        },
    }
}

/// An entry that reads back as itself is what reading its original string
/// and translation gives.
pub proof fn lemma_entry_reads_back(e: MOEntryView)
    requires
        reads_back(e),
    ensures
        mo_entry_of(mo_original(e), mo_translation(e)) == e,
{
    let o = mo_original(e);
    let t = mo_translation(e);
    let tail = match e.msgid_plural {
        Some(p) => seq!['\0'] + p,
        None => Seq::<char>::empty(),
    };
    let rest = e.msgid + tail;
    match e.msgctxt {
        Some(x) => {
            assert(o =~= x + seq!['\u{4}'] + rest);
            lemma_find_first(x, rest, 0, '\u{4}');
            assert(o.subrange(0, x.len() as int) =~= x);
            assert(o.subrange((x.len() + 1) as int, o.len() as int) =~= rest);
        },
        None => {
            assert(o =~= rest);
            assert(lacks(rest, '\u{4}')) by {
                assert forall|i: int| 0 <= i < rest.len() implies rest[i] != '\u{4}' by {
                    if i >= e.msgid.len() {
                        assert(rest[i] == tail[i - e.msgid.len()]);
                    }
                }
            }
            lemma_find_absent(o, 0, '\u{4}');
        },
    }
    match e.msgid_plural {
        Some(p) => {
            assert(rest =~= e.msgid + seq!['\0'] + p);
            lemma_find_first(e.msgid, p, 0, '\0');
            assert(rest.subrange(0, e.msgid.len() as int) =~= e.msgid);
            assert(rest.subrange((e.msgid.len() + 1) as int, rest.len() as int) =~= p);
        },
        None => {
            assert(rest =~= e.msgid);
            lemma_find_absent(rest, 0, '\0');
        },
    }
    match e.msgstr_plural {
        None => {
            lemma_find_absent(t, 0, '\0');
        },
        Some(p) => {
            let vals = p.map_values(|q: (Seq<char>, Seq<char>)| q.1);
            assert(t == joined(seq!['\0'], vals));
            assert forall|i: int| 0 <= i < vals.len() implies lacks(#[trigger] vals[i], '\0') by {
                assert(vals[i] == p[i].1);
            }
            lemma_split_joined(vals, '\0');
            let prev = vals.drop_last();
            assert(vals.len() >= 2);
            assert(t == joined(seq!['\0'], prev) + seq!['\0'] + vals.last());
            assert(t[joined(seq!['\0'], prev).len() as int] == '\0');
            assert(find_from(t, 0, '\0') is Some) by {
                if find_from(t, 0, '\0') is None {
                    lemma_find_none_means_lacks(t, 0, '\0');
                }
            }
        },
    }
}

proof fn lemma_find_none_means_lacks(s: Seq<char>, off: int, c: char)
    requires
        0 <= off,
        find_from(s, off, c) is None,
    ensures
        forall|i: int| off <= i < s.len() ==> s[i] != c,
    decreases s.len() - off,
{
    if off < s.len() {
        lemma_find_none_means_lacks(s, off + 1, c);
    }
}

} // verus!

verus! {

proof fn lemma_sorted_identity(its: Seq<MOItem>)
    requires
        forall|i: int| 0 <= i < its.len() - 1 ==> key_lt(#[trigger] its[i].0, its[i + 1].0),
    ensures
        key_sorted(its) == its,
    decreases its.len(),
{
    if its.len() > 0 {
        let prev = its.drop_last();
        assert forall|i: int| 0 <= i < prev.len() - 1 implies key_lt(#[trigger] prev[i].0, prev[i + 1].0) by {
            assert(prev[i] == its[i] && prev[i + 1] == its[i + 1]);
        }
        lemma_sorted_identity(prev);
        let n = prev.len() as int;
        if n > 0 {
            assert(key_lt(its[n - 1].0, its[n].0));
            lemma_key_total_pub(its[n - 1].0, its[n].0);
            assert(!key_lt(its.last().0, prev[n - 1].0));
        }
        assert(key_insert_pos(prev, its.last().0, n) == n);
        assert(prev.insert(n, its.last()) =~= its);
    }
}

/// The item of a catalog's metadata entry.
pub open spec fn metadata_item(m: Seq<(Seq<char>, Seq<char>)>) -> MOItem {
    mo_item(mo_metadata_entry(m))
}

proof fn lemma_items_read_written(m: Seq<(Seq<char>, Seq<char>)>, kept: Seq<MOEntryView>)
    requires
        forall|i: int| 0 <= i < kept.len() ==> reads_back(#[trigger] kept[i]),
        forall|i: int| 0 <= i < kept.len() ==> mo_item(#[trigger] kept[i]).0.len() > 0,
    ensures
        items_read(seq![metadata_item(m)] + kept.map_values(|e: MOEntryView| mo_item(e)))
            == (MORead { entries: kept, metadata: metadata_of(metadata_text(m)) }),
    decreases kept.len(),
{
    let its = seq![metadata_item(m)] + kept.map_values(|e: MOEntryView| mo_item(e));
    if kept.len() == 0 {
        assert(its =~= seq![metadata_item(m)]);
        assert(its.drop_last() =~= Seq::<MOItem>::empty());
        let me = mo_metadata_entry(m);
        assert(mo_original(me) =~= Seq::<char>::empty());
        lemma_find_absent(Seq::<char>::empty(), 0, '\u{4}');
        lemma_find_absent(Seq::<char>::empty(), 0, '\0');
        assert(kept =~= Seq::<MOEntryView>::empty());
        assert(mo_translation(me) == metadata_text(m));
        assert(its.last() == mo_item(me));
        assert(its.last().2 == metadata_text(m));
        assert(mo_entry_of(its.last().1, its.last().2).msgid.len() == 0);
        assert(mo_entry_of(its.last().1, its.last().2).msgctxt is None);
        assert(items_read(its.drop_last()) == (MORead { entries: Seq::empty(), metadata: Seq::empty() }));
        assert(items_read(its) == (MORead { entries: Seq::empty(), metadata: metadata_of(metadata_text(m)) }));
    } else {
        let prev = kept.drop_last();
        assert forall|i: int| 0 <= i < prev.len() implies reads_back(#[trigger] prev[i]) by {
            assert(prev[i] == kept[i]);
        }
        assert forall|i: int| 0 <= i < prev.len() implies mo_item(#[trigger] prev[i]).0.len() > 0 by {
            assert(prev[i] == kept[i]);
        }
        lemma_items_read_written(m, prev);
        assert(its.drop_last() =~= seq![metadata_item(m)] + prev.map_values(
            |e: MOEntryView| mo_item(e),
        ));
        let k = kept.last();
        assert(reads_back(kept[kept.len() - 1]));
        lemma_entry_reads_back(k);
        assert(its.last() == mo_item(k));
        assert(mo_item(kept[kept.len() - 1]).0.len() > 0);
        assert(k.msgid.len() > 0 || k.msgctxt is Some) by {
            if k.msgid.len() == 0 && k.msgctxt is None {
                assert(mo_item(k).0 =~= k.msgid);
            }
        }
        assert(mo_entry_of(its.last().1, its.last().2) == k);
        assert(items_read(its) == (MORead { entries: prev.push(k), metadata: metadata_of(metadata_text(m)) }));
        assert(prev.push(k) =~= kept);
    }
}

/// Compiled bytes read back as the catalog's translated entries and the
/// metadata that its metadata text holds, for a catalog whose translated
/// entries read back as themselves and come in strictly ascending key order
/// (the order in which the bytes store them), none with an empty key.
pub proof fn lemma_mo_round_trip(
    m: Seq<(Seq<char>, Seq<char>)>,
    es: Seq<MOEntryView>,
    magic: u32,
    revision: u32,
)
    requires
        mo_fits(written_items(m, es)),
        magic == MAGIC || magic == MAGIC_SWAPPED,
        revision == 0 || revision == 1,
        forall|i: int| 0 <= i < mo_kept(es).len() ==> reads_back(#[trigger] mo_kept(es)[i]),
        forall|i: int|
            0 <= i < mo_kept(es).len() ==> mo_item(
                #[trigger] mo_kept(es)[i],
            ).0.len() > 0,
        forall|i: int|
            0 <= i < mo_kept(es).len() - 1 ==> key_lt(
                mo_item(#[trigger] mo_kept(es)[i]).0,
                mo_item(mo_kept(es)[i + 1]).0,
            ),
    ensures
        mo_parsed(mo_bytes(written_items(m, es), magic, revision)) == Ok::<
            (u32, u32, MORead),
            MOFailure,
        >((magic, revision, MORead { entries: mo_kept(es), metadata: metadata_of(metadata_text(m)) })),
{
    let kept = mo_kept(es);
    let items = written_items(m, es);
    assert(items =~= seq![metadata_item(m)] + kept.map_values(|e: MOEntryView| mo_item(e)));
    assert forall|i: int| 0 <= i < items.len() - 1 implies key_lt(#[trigger] items[i].0, items[i + 1].0) by {
        if i == 0 {
            assert(items[0].0 =~= Seq::<char>::empty());
            assert(items[1] == mo_item(kept[0]));
        } else {
            assert(items[i] == mo_item(kept[i - 1]));
            assert(items[i + 1] == mo_item(kept[i]));
        }
    }
    lemma_sorted_identity(items);
    lemma_mo_bytes_read_back(items, magic, revision);
    lemma_items_read_written(m, kept);
}

} // verus!

verus! {

/// A textual catalog compiled to MO bytes reads back as its translated
/// entries (in compiled form) and the metadata that its metadata text holds,
/// when those entries read back as themselves and come in strictly
/// ascending key order, none with an empty key.
pub proof fn lemma_po_to_mo_round_trip(
    m: Seq<(Seq<char>, Seq<char>)>,
    po_entries: Seq<POEntryView>,
    magic: u32,
    revision: u32,
)
    requires
        mo_fits(written_items(m, compiled_entries(po_entries))),
        magic == MAGIC || magic == MAGIC_SWAPPED,
        revision == 0 || revision == 1,
        forall|i: int|
            0 <= i < compiled_entries(po_entries).len() ==> reads_back(#[trigger] compiled_entries(po_entries)[i]),
        forall|i: int|
            0 <= i < compiled_entries(po_entries).len() ==> mo_item(#[trigger] compiled_entries(po_entries)[i]).0.len()
                > 0,
        forall|i: int|
            0 <= i < compiled_entries(po_entries).len() - 1 ==> key_lt(
                mo_item(#[trigger] compiled_entries(po_entries)[i]).0,
                mo_item(compiled_entries(po_entries)[i + 1]).0,
            ),
    ensures
        mo_parsed(mo_bytes(written_items(m, compiled_entries(po_entries)), magic, revision)) == Ok::<
            (u32, u32, MORead),
            MOFailure,
        >((magic, revision, MORead { entries: compiled_entries(po_entries), metadata: metadata_of(metadata_text(m)) })),
{
    lemma_mo_kept_compiled(po_entries);
    lemma_mo_round_trip(m, compiled_entries(po_entries), magic, revision);
}

} // verus!

verus! {

proof fn lemma_key_sorted_len(items: Seq<MOItem>)
    ensures
        key_sorted(items).len() == items.len(),
    decreases items.len(),
{
    if items.len() > 0 {
        lemma_key_sorted_len(items.drop_last());
        let s = key_sorted(items.drop_last());
        lemma_key_insert_pos_range(s, items.last().0, s.len() as int);
    }
}

proof fn lemma_key_insert_pos_range(s: Seq<MOItem>, k: Seq<char>, j: int)
    requires
        0 <= j <= s.len(),
    ensures
        0 <= key_insert_pos(s, k, j) <= j,
    decreases j,
{
    if j > 0 {
        lemma_key_insert_pos_range(s, k, j - 1);
    }
}

/// In the compiled bytes the `i`-th pair of the string tables holds the
/// original string and the translation of the `i`-th item in key order; the
/// original string starts with the item's lookup key, and the keys ascend.
pub proof fn lemma_mo_bytes_tables(items: Seq<MOItem>, magic: u32, revision: u32, i: int)
    requires
        mo_fits(items),
        0 <= i < items.len(),
    ensures
        string_pair(
            mo_bytes(items, magic, revision),
            28,
            (28 + 8 * items.len()) as int,
            magic != MAGIC_SWAPPED,
            i,
        ) == Ok::<(Seq<char>, Seq<char>), MOFailure>((key_sorted(items)[i].1, key_sorted(items)[i].2)),
        crate::mowriter::keys_ascending(key_sorted(items)),
{
    let sorted = key_sorted(items);
    lemma_key_sorted_len(items);
    let os = sorted.map_values(|it: MOItem| encode_utf8(it.1));
    let ts = sorted.map_values(|it: MOItem| encode_utf8(it.2));
    let le = magic != MAGIC_SWAPPED;
    let n = sorted.len() as int;
    let b = mo_image(os, ts, magic, revision, le);
    lemma_image_fields(os, ts, magic, revision, le, i);
    lemma_image_strings(os, ts, magic, revision, le, i);
    vstd::utf8::encode_utf8_valid_utf8(sorted[i].1);
    vstd::utf8::encode_utf8_valid_utf8(sorted[i].2);
    vstd::utf8::encode_utf8_decode_utf8(sorted[i].1);
    vstd::utf8::encode_utf8_decode_utf8(sorted[i].2);
    assert(string_pair(b, 28, 28 + 8 * n, le, i) == Ok::<(Seq<char>, Seq<char>), MOFailure>(
        (sorted[i].1, sorted[i].2),
    ));
    lemma_key_sorted_ascending(items);
}

proof fn lemma_key_sorted_ascending(items: Seq<MOItem>)
    ensures
        crate::mowriter::keys_ascending(key_sorted(items)),
    decreases items.len(),
{
    if items.len() > 0 {
        lemma_key_sorted_ascending(items.drop_last());
        let s = key_sorted(items.drop_last());
        let x = items.last();
        let j = key_insert_pos(s, x.0, s.len() as int);
        lemma_key_insert_pos_facts(s, x.0, s.len() as int);
        crate::mowriter::lemma_insert_keeps_ascending(s, x, j);
    }
}

proof fn lemma_key_insert_pos_facts(s: Seq<MOItem>, k: Seq<char>, j: int)
    requires
        0 <= j <= s.len(),
        crate::mowriter::keys_ascending(s),
    ensures
        ({
            let p = key_insert_pos(s, k, j);
            &&& 0 <= p <= j
            &&& p > 0 ==> !key_lt(k, s[p - 1].0)
            &&& p < j ==> key_lt(k, s[p].0)
        }),
    decreases j,
{
    if j > 0 && key_lt(k, s[j - 1].0) {
        lemma_key_insert_pos_facts(s, k, j - 1);
        let p = key_insert_pos(s, k, j - 1);
        if p < j - 1 {
        } else {
            assert(p == j - 1);
        }
    }
}

} // verus!
