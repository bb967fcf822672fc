//! The PO text of string fields and of entries.

use vstd::prelude::*;
use crate::entry::{mo_of_po, MOEntry, MOEntryView, POEntry, POEntryView};
use crate::escaping::{escape, escaped};
use crate::lines::{split_lines, text_lines};
use crate::popieces::{split_newlines, split_on};
use crate::natsort::{nat_sorted, sort_pairs_natural, Pairs};
use crate::text::{display_width_of, grapheme_count, grapheme_count_of, push_char, str_width};
use crate::twrapper::{wrap, wrapped};
use crate::values::{pairs_view, strs_view};

verus! {

/// One continuation line: `line` between double quotes, after `delflag`.
pub open spec fn quoted(delflag: Seq<char>, line: Seq<char>) -> Seq<char> {
    delflag + seq!['"'] + line + seq!['"', '\n']
}

/// The continuation lines of `lines`, in order.
pub open spec fn quoted_lines(delflag: Seq<char>, lines: Seq<Seq<char>>) -> Seq<char>
    decreases lines.len(),
{
    if lines.len() == 0 {
        Seq::empty()
    } else {
        quoted_lines(delflag, lines.drop_last()) + quoted(delflag, lines.last())
    }
}

/// The string contents of a field's lines: the escaped value alone when the
/// field fits in `width`, else an empty first line and the wrapped pieces.
pub open spec fn field_lines(fieldname: Seq<char>, value: Seq<char>, width: int) -> Seq<Seq<char>> {
    let esc = escaped(value);
    if display_width_of(esc) + display_width_of(fieldname) + 1 > width {
        seq![Seq::<char>::empty()] + wrapped(esc, width)
    } else {
        seq![esc]
    }
}

/// `[index]` after a plural translation's field name; nothing for others.
pub open spec fn plural_tag(plural_index: Seq<char>) -> Seq<char> {
    if plural_index.len() == 0 {
        Seq::empty()
    } else {
        seq!['['] + plural_index + seq![']']
    }
}

/// The PO text of a string field.
pub open spec fn po_field(
    fieldname: Seq<char>,
    delflag: Seq<char>,
    value: Seq<char>,
    plural_index: Seq<char>,
    width: int,
) -> Seq<char> {
    let lines = field_lines(fieldname, value, width);
    delflag + fieldname + plural_tag(plural_index) + seq![' ', '"'] + lines[0] + seq!['"', '\n']
        + quoted_lines(delflag, lines.drop_first())
}

/// A string field of a PO entry, with what its text depends on.
pub struct POStringField<'a> {
    pub fieldname: &'a str,
    pub delflag: &'a str,
    pub value: &'a str,
    pub plural_index: &'a str,
    pub wrapwidth: usize,
}

fn append_quoted(ret: &mut String, delflag: &str, line: &str)
    ensures
        final(ret)@ == old(ret)@ + quoted(delflag@, line@),
{
    ret.append(delflag);
    push_char(ret, '"');
    ret.append(line);
    push_char(ret, '"');
    push_char(ret, '\n');
    assert(final(ret)@ =~= old(ret)@ + quoted(delflag@, line@));
}

impl<'a> POStringField<'a> {
    pub fn new(
        fieldname: &'a str,
        delflag: &'a str,
        value: &'a str,
        plural_index: &'a str,
        wrapwidth: usize,
    ) -> (r: Self)
        ensures
            r.fieldname == fieldname,
            r.delflag == delflag,
            r.value == value,
            r.plural_index == plural_index,
            r.wrapwidth == wrapwidth,
    {
        POStringField { fieldname, delflag, value, plural_index, wrapwidth }
    }

    /// The PO text of the field.
    pub fn to_string(&self) -> (r: String)
        ensures
            r@ == po_field(
                self.fieldname@,
                self.delflag@,
                self.value@,
                self.plural_index@,
                self.wrapwidth as int,
            ),
    {
        let esc = escape(self.value);
        let w1 = str_width(esc.as_str());
        let w2 = str_width(self.fieldname);
        let long = (w1 as u128) + (w2 as u128) + 1 > self.wrapwidth as u128;
        let ghost lines = field_lines(self.fieldname@, self.value@, self.wrapwidth as int);
        let mut ret = String::new();
        ret.append(self.delflag);
        ret.append(self.fieldname);
        if !self.plural_index.is_empty() {
            push_char(&mut ret, '[');
            ret.append(self.plural_index);
            push_char(&mut ret, ']');
        }
        push_char(&mut ret, ' ');
        push_char(&mut ret, '"');
        if long {
            push_char(&mut ret, '"');
            push_char(&mut ret, '\n');
            let ghost head = ret@;
            assert(head =~= self.delflag@ + self.fieldname@ + plural_tag(self.plural_index@) + seq![' ', '"']
                + lines[0] + seq!['"', '\n']);
            let pieces = wrap(esc.as_str(), self.wrapwidth);
            let ghost rest = lines.drop_first();
            assert(rest =~= strs_view(pieces@));
            let mut i: usize = 0;
            while i < pieces.len()
                invariant
                    i <= pieces@.len(),
                    rest == strs_view(pieces@),
                    ret@ == head + quoted_lines(self.delflag@, rest.subrange(0, i as int)),
                decreases pieces.len() - i,
            {
                append_quoted(&mut ret, self.delflag, pieces[i].as_str());
                assert(rest.subrange(0, i + 1).drop_last() =~= rest.subrange(0, i as int));
                assert(ret@ =~= head + quoted_lines(self.delflag@, rest.subrange(0, i + 1)));
                i = i + 1;
            }
            assert(rest.subrange(0, i as int) =~= rest);
        } else {
            ret.append(esc.as_str());
            push_char(&mut ret, '"');
            push_char(&mut ret, '\n');
            assert(lines.drop_first() =~= Seq::<Seq<char>>::empty());
            assert(ret@ =~= po_field(
                self.fieldname@,
                self.delflag@,
                self.value@,
                self.plural_index@,
                self.wrapwidth as int,
            ));
        }
        ret
    }
}

/// The pieces of `parts` one after the other.
pub open spec fn concat(parts: Seq<Seq<char>>) -> Seq<char>
    decreases parts.len(),
{
    if parts.len() == 0 {
        Seq::empty()
    } else {
        concat(parts.drop_last()) + parts.last()
    }
}

/// The text of an optional string field: nothing when it is absent.
pub open spec fn opt_field(fieldname: Seq<char>, delflag: Seq<char>, v: Option<Seq<char>>, width: int) -> Seq<
    char,
> {
    match v {
        Some(x) => po_field(fieldname, delflag, x, Seq::empty(), width),
        None => Seq::empty(),
    }
}

/// The `msgstr[i]` fields of the plural translations `p`, in the order of `p`.
pub open spec fn plural_fields(delflag: Seq<char>, p: Pairs, width: int) -> Seq<char>
    decreases p.len(),
{
    if p.len() == 0 {
        Seq::empty()
    } else {
        plural_fields(delflag, p.drop_last(), width) + po_field(
            "msgstr"@,
            delflag,
            p.last().1,
            p.last().0,
            width,
        )
    }
}

/// One line of the metadata entry's `msgstr`: the line, an escaped newline,
/// between double quotes.
pub open spec fn metadata_line(l: Seq<char>) -> Seq<char> {
    seq!['"'] + l + seq!['\\', 'n', '"', '\n']
}

/// The `msgstr` of the metadata entry: an empty string, then one quoted
/// line for each line of `msgstr`, without wrapping.
pub open spec fn metadata_msgstr(msgstr: Seq<char>) -> Seq<char> {
    "msgstr \"\"\n"@ + concat(text_lines(msgstr).map_values(|l: Seq<char>| metadata_line(l)))
}

/// The text of a compiled entry: context, msgid and plural msgid, then the
/// plural translations in natural order of their indices when there are any,
/// else the translation (for the metadata entry, line by line).
pub open spec fn mo_entry_text(e: MOEntryView, width: int, delflag: Seq<char>, metadata: bool) -> Seq<char> {
    opt_field("msgctxt"@, delflag, e.msgctxt, width) + po_field(
        "msgid"@,
        delflag,
        e.msgid,
        Seq::empty(),
        width,
    ) + opt_field("msgid_plural"@, delflag, e.msgid_plural, width) + match e.msgstr_plural {
        Some(p) => plural_fields(delflag, nat_sorted(p), width),
        None => {
            let m = match e.msgstr {
                Some(s) => s,
                None => Seq::empty(),
            };
            if metadata {
                metadata_msgstr(m)
            } else {
                po_field("msgstr"@, delflag, m, Seq::empty(), width)
            }
        },
    }
}

fn field_text(fieldname: &str, delflag: &str, value: &str, plural_index: &str, wrapwidth: usize) -> (r:
    String)
    ensures
        r@ == po_field(fieldname@, delflag@, value@, plural_index@, wrapwidth as int),
{
    POStringField::new(fieldname, delflag, value, plural_index, wrapwidth).to_string()
}

fn metadata_msgstr_formatter(msgstr: &str) -> (r: String)
    ensures
        r@ == metadata_msgstr(msgstr@),
{
    let mut ret = String::new();
    ret.append("msgstr \"\"\n");
    let lines = split_lines(msgstr);
    let ghost parts = text_lines(msgstr@).map_values(|l: Seq<char>| metadata_line(l));
    let mut i: usize = 0;
    while i < lines.len()
        invariant
            i <= lines@.len(),
            strs_view(lines@) == text_lines(msgstr@),
            parts == text_lines(msgstr@).map_values(|l: Seq<char>| metadata_line(l)),
            ret@ == "msgstr \"\"\n"@ + concat(parts.subrange(0, i as int)),
        decreases lines.len() - i,
    {
        push_char(&mut ret, '"');
        ret.append(lines[i].as_str());
        push_char(&mut ret, '\\');
        push_char(&mut ret, 'n');
        push_char(&mut ret, '"');
        push_char(&mut ret, '\n');
        assert(parts.subrange(0, i + 1).drop_last() =~= parts.subrange(0, i as int));
        assert(parts[i as int] == metadata_line(lines@[i as int]@));
        assert(ret@ =~= "msgstr \"\"\n"@ + concat(parts.subrange(0, i + 1)));
        i = i + 1;
    }
    assert(parts.subrange(0, i as int) =~= parts);
    ret
}

fn default_mo_entry_msgstr_formatter(msgstr: &str, delflag: &str, wrapwidth: usize) -> (r: String)
    ensures
        r@ == po_field("msgstr"@, delflag@, msgstr@, Seq::empty(), wrapwidth as int),
{
    proof {
        reveal_strlit("");
    }
    field_text("msgstr", delflag, msgstr, "", wrapwidth)
}

fn opt_field_text(fieldname: &str, delflag: &str, v: &Option<String>, wrapwidth: usize) -> (r: String)
    ensures
        r@ == opt_field(fieldname@, delflag@, crate::values::opt_view(*v), wrapwidth as int),
{
    match v {
        Some(x) => {
            proof {
                reveal_strlit("");
            }
            field_text(fieldname, delflag, x.as_str(), "", wrapwidth)
        },
        None => String::new(),
    }
}

fn plural_fields_text(delflag: &str, p: &Vec<(String, String)>, wrapwidth: usize) -> (r: String)
    ensures
        r@ == plural_fields(delflag@, pairs_view(p@), wrapwidth as int),
{
    let mut ret = String::new();
    let mut i: usize = 0;
    while i < p.len()
        invariant
            i <= p@.len(),
            ret@ == plural_fields(delflag@, pairs_view(p@).subrange(0, i as int), wrapwidth as int),
        decreases p.len() - i,
    {
        let f = field_text("msgstr", delflag, p[i].1.as_str(), p[i].0.as_str(), wrapwidth);
        ret.append(f.as_str());
        assert(pairs_view(p@).subrange(0, i + 1).drop_last() =~= pairs_view(p@).subrange(0, i as int));
        i = i + 1;
    }
    assert(pairs_view(p@).subrange(0, i as int) =~= pairs_view(p@));
    ret
}

/// The text of a compiled entry; `metadata` selects the line-by-line form
/// of the metadata entry's translation.
pub(crate) fn mo_entry_to_string_with_msgstr_formatter(
    entry: &MOEntry,
    wrapwidth: usize,
    delflag: &str,
    metadata: bool,
) -> (r: String)
    ensures
        r@ == mo_entry_text(entry@, wrapwidth as int, delflag@, metadata),
{
    let mut ret = opt_field_text("msgctxt", delflag, &entry.msgctxt, wrapwidth);
    proof {
        reveal_strlit("");
    }
    let id = field_text("msgid", delflag, entry.msgid.as_str(), "", wrapwidth);
    ret.append(id.as_str());
    let idp = opt_field_text("msgid_plural", delflag, &entry.msgid_plural, wrapwidth);
    ret.append(idp.as_str());
    if let Some(msgstr_plural) = &entry.msgstr_plural {
        let sorted = sort_pairs_natural(msgstr_plural);
        let pl = plural_fields_text(delflag, &sorted, wrapwidth);
        ret.append(pl.as_str());
    } else {
        let empty = String::new();
        let msgstr: &str = match &entry.msgstr {
            Some(m) => m.as_str(),
            None => empty.as_str(),
        };
        let formatted = if metadata {
            metadata_msgstr_formatter(msgstr)
        } else {
            default_mo_entry_msgstr_formatter(msgstr, delflag, wrapwidth)
        };
        ret.append(formatted.as_str());
    }
    ret
}

/// The text of a compiled entry as a PO entry.
pub(crate) fn mo_entry_to_string(entry: &MOEntry, wrapwidth: usize, delflag: &str) -> (r: String)
    ensures
        r@ == mo_entry_text(entry@, wrapwidth as int, delflag@, false),
{
    mo_entry_to_string_with_msgstr_formatter(entry, wrapwidth, delflag, false)
}

/// The text of the metadata entry: its translation line by line, each line
/// ended by an escaped newline.
pub fn mo_metadata_entry_to_string(entry: &MOEntry) -> (r: String)
    ensures
        r@ == mo_entry_text(entry@, 78, ""@, true),
{
    mo_entry_to_string_with_msgstr_formatter(entry, 78, "", true)
}

/// `a - b`, or 0 when `b` is larger.
pub open spec fn sat_sub(a: int, b: int) -> int {
    if a >= b {
        a - b
    } else {
        0
    }
}

/// Each of `lines` after `prefix`, ended by a newline.
pub open spec fn prefixed_lines(prefix: Seq<char>, lines: Seq<Seq<char>>) -> Seq<char> {
    concat(lines.map_values(|l: Seq<char>| prefix + l + seq!['\n']))
}

/// One line of a comment: after `prefix`, or, when it has more than
/// `width - 2` grapheme clusters, wrapped with `prefix` before each piece.
pub open spec fn comment_line(l: Seq<char>, prefix: Seq<char>, width: int) -> Seq<char> {
    if grapheme_count_of(l) + 2 > width {
        prefixed_lines(prefix, wrapped(l, sat_sub(width, 2)))
    } else {
        prefix + l + seq!['\n']
    }
}

/// The lines of an optional comment, split at each newline.
pub open spec fn comment_block(c: Option<Seq<char>>, prefix: Seq<char>, width: int) -> Seq<char> {
    match c {
        Some(x) => concat(split_on(x, '\n').map_values(|l: Seq<char>| comment_line(l, prefix, width))),
        None => Seq::empty(),
    }
}

/// `parts` with `sep` between each two.
pub open spec fn joined(sep: Seq<char>, parts: Seq<Seq<char>>) -> Seq<char>
    decreases parts.len(),
{
    if parts.len() == 0 {
        Seq::empty()
    } else if parts.len() == 1 {
        parts[0]
    } else {
        joined(sep, parts.drop_last()) + sep + parts.last()
    }
}

/// An occurrence as `path:line`, or `path` alone when the line is empty.
pub open spec fn occurrence_repr(o: (Seq<char>, Seq<char>)) -> Seq<char> {
    if o.1.len() == 0 {
        o.0
    } else {
        o.0 + seq![':'] + o.1
    }
}

/// The `#:` lines of a live entry with occurrences.
pub open spec fn occurrences_block(e: POEntryView, width: int) -> Seq<char> {
    if e.obsolete || e.occurrences.len() == 0 {
        Seq::empty()
    } else {
        let repr = joined(seq![' '], e.occurrences.map_values(|o: (Seq<char>, Seq<char>)| occurrence_repr(o)));
        if grapheme_count_of(repr) + 3 > width {
            prefixed_lines("#: "@, wrapped(repr, sat_sub(width, 3)))
        } else {
            "#: "@ + repr + seq!['\n']
        }
    }
}

/// The `#,` line of an entry with flags.
pub open spec fn flags_block(e: POEntryView) -> Seq<char> {
    if e.flags.len() == 0 {
        Seq::empty()
    } else {
        "#, "@ + joined(", "@, e.flags) + seq!['\n']
    }
}

/// The prefix of the previous-value lines.
pub open spec fn previous_prefix(obsolete: bool) -> Seq<char> {
    if obsolete {
        "#~| "@
    } else {
        "#| "@
    }
}

/// The previous context, msgid and plural msgid; an empty line follows the
/// previous plural msgid.
pub open spec fn previous_block(e: POEntryView, width: int) -> Seq<char> {
    let prefix = previous_prefix(e.obsolete);
    opt_field("msgctxt"@, prefix, e.previous_msgctxt, width) + opt_field(
        "msgid"@,
        prefix,
        e.previous_msgid,
        width,
    ) + match e.previous_msgid_plural {
        Some(x) => po_field("msgid_plural"@, prefix, x, Seq::empty(), width) + seq!['\n'],
        None => Seq::empty(),
    }
}

/// The line prefix of an entry's fields.
pub open spec fn entry_delflag(obsolete: bool) -> Seq<char> {
    if obsolete {
        "#~ "@
    } else {
        ""@
    }
}

/// The PO text of an entry wrapped to `width`.
pub open spec fn po_entry_text(e: POEntryView, width: int) -> Seq<char> {
    comment_block(e.tcomment, "#. "@, width) + comment_block(e.comment, "# "@, width) + occurrences_block(
        e,
        width,
    ) + flags_block(e) + previous_block(e, width) + mo_entry_text(
        mo_of_po(e),
        width,
        entry_delflag(e.obsolete),
        false,
    )
}

fn append_prefixed_lines(ret: &mut String, prefix: &str, lines: &Vec<String>)
    ensures
        final(ret)@ == old(ret)@ + prefixed_lines(prefix@, strs_view(lines@)),
{
    let ghost head = ret@;
    let ghost parts = strs_view(lines@).map_values(|l: Seq<char>| prefix@ + l + seq!['\n']);
    let mut i: usize = 0;
    while i < lines.len()
        invariant
            i <= lines@.len(),
            parts == strs_view(lines@).map_values(|l: Seq<char>| prefix@ + l + seq!['\n']),
            ret@ == head + concat(parts.subrange(0, i as int)),
        decreases lines.len() - i,
    {
        ret.append(prefix);
        ret.append(lines[i].as_str());
        push_char(ret, '\n');
        assert(parts.subrange(0, i + 1).drop_last() =~= parts.subrange(0, i as int));
        assert(ret@ =~= head + concat(parts.subrange(0, i + 1)));
        i = i + 1;
    }
    assert(parts.subrange(0, i as int) =~= parts);
}

pub(crate) fn join_strs(sep: &str, parts: &Vec<String>) -> (r: String)
    ensures
        r@ == joined(sep@, strs_view(parts@)),
{
    let mut ret = String::new();
    let mut i: usize = 0;
    while i < parts.len()
        invariant
            i <= parts@.len(),
            ret@ == joined(sep@, strs_view(parts@).subrange(0, i as int)),
        decreases parts.len() - i,
    {
        if i > 0 {
            ret.append(sep);
        }
        ret.append(parts[i].as_str());
        assert(strs_view(parts@).subrange(0, i + 1).drop_last() =~= strs_view(parts@).subrange(0, i as int));
        i = i + 1;
    }
    assert(strs_view(parts@).subrange(0, i as int) =~= strs_view(parts@));
    ret
}

fn format_comment_inplace(comment: &str, prefix: &str, wrapwidth: usize, target: &mut String)
    ensures
        final(target)@ == old(target)@ + comment_block(Some(comment@), prefix@, wrapwidth as int),
{
    let lines = split_newlines(comment);
    let ghost head = target@;
    let ghost parts = split_on(comment@, '\n').map_values(|l: Seq<char>| comment_line(l, prefix@, wrapwidth as int));
    let mut i: usize = 0;
    while i < lines.len()
        invariant
            i <= lines@.len(),
            strs_view(lines@) == split_on(comment@, '\n'),
            parts == split_on(comment@, '\n').map_values(|l: Seq<char>| comment_line(l, prefix@, wrapwidth as int)),
            target@ == head + concat(parts.subrange(0, i as int)),
        decreases lines.len() - i,
    {
        let line = lines[i].as_str();
        let count = grapheme_count(line);
        if (count as u128) + 2 > wrapwidth as u128 {
            let width = if wrapwidth >= 2 {
                wrapwidth - 2
            } else {
                0
            };
            let pieces = wrap(line, width);
            append_prefixed_lines(target, prefix, &pieces);
        } else {
            target.append(prefix);
            target.append(line);
            push_char(target, '\n');
        }
        assert(parts[i as int] == comment_line(lines@[i as int]@, prefix@, wrapwidth as int));
        assert(parts.subrange(0, i + 1).drop_last() =~= parts.subrange(0, i as int));
        assert(target@ =~= head + concat(parts.subrange(0, i + 1)));
        i = i + 1;
    }
    assert(parts.subrange(0, i as int) =~= parts);
}

fn occurrences_text(occurrences: &Vec<(String, String)>) -> (r: String)
    ensures
        r@ == joined(
            seq![' '],
            pairs_view(occurrences@).map_values(|o: (Seq<char>, Seq<char>)| occurrence_repr(o)),
        ),
{
    let mut reprs: Vec<String> = Vec::new();
    let mut i: usize = 0;
    while i < occurrences.len()
        invariant
            i <= occurrences@.len(),
            reprs@.len() == i,
            forall|k: int| 0 <= k < i ==> #[trigger] reprs@[k]@ == occurrence_repr(pairs_view(occurrences@)[k]),
        decreases occurrences.len() - i,
    {
        let mut repr = occurrences[i].0.clone();
        if !occurrences[i].1.as_str().is_empty() {
            push_char(&mut repr, ':');
            repr.append(occurrences[i].1.as_str());
        }
        reprs.push(repr);
        i = i + 1;
    }
    let mut sep = String::new();
    push_char(&mut sep, ' ');
    assert(sep@ =~= seq![' ']);
    assert(strs_view(reprs@) =~= pairs_view(occurrences@).map_values(
        |o: (Seq<char>, Seq<char>)| occurrence_repr(o),
    ));
    join_strs(sep.as_str(), &reprs)
}

fn append_occurrences(e: &POEntry, wrapwidth: usize, ret: &mut String)
    ensures
        final(ret)@ == old(ret)@ + occurrences_block(e@, wrapwidth as int),
{
    if !e.obsolete && e.occurrences.len() > 0 {
        let files_repr = occurrences_text(&e.occurrences);
        let count = grapheme_count(files_repr.as_str());
        if (count as u128) + 3 > wrapwidth as u128 {
            let width = if wrapwidth >= 3 {
                wrapwidth - 3
            } else {
                0
            };
            let pieces = wrap(files_repr.as_str(), width);
            append_prefixed_lines(ret, "#: ", &pieces);
        } else {
            ret.append("#: ");
            ret.append(files_repr.as_str());
            push_char(ret, '\n');
        }
    }
    assert(final(ret)@ =~= old(ret)@ + occurrences_block(e@, wrapwidth as int));
}

fn append_flags(e: &POEntry, ret: &mut String)
    ensures
        final(ret)@ == old(ret)@ + flags_block(e@),
{
    if e.flags.len() > 0 {
        ret.append("#, ");
        let joined_flags = join_strs(", ", &e.flags);
        ret.append(joined_flags.as_str());
        push_char(ret, '\n');
    }
    assert(final(ret)@ =~= old(ret)@ + flags_block(e@));
}

fn append_previous(e: &POEntry, wrapwidth: usize, ret: &mut String)
    ensures
        final(ret)@ == old(ret)@ + previous_block(e@, wrapwidth as int),
{
    let prefix = if e.obsolete {
        "#~| "
    } else {
        "#| "
    };
    let pc = opt_field_text("msgctxt", prefix, &e.previous_msgctxt, wrapwidth);
    ret.append(pc.as_str());
    let pi = opt_field_text("msgid", prefix, &e.previous_msgid, wrapwidth);
    ret.append(pi.as_str());
    if let Some(previous_msgid_plural) = &e.previous_msgid_plural {
        proof {
            reveal_strlit("");
        }
        let pp = field_text("msgid_plural", prefix, previous_msgid_plural.as_str(), "", wrapwidth);
        ret.append(pp.as_str());
        push_char(ret, '\n');
    }
    assert(final(ret)@ =~= old(ret)@ + previous_block(e@, wrapwidth as int));
}

impl MOEntry {
    /// The PO text of the entry wrapped to `wrapwidth`.
    pub fn to_string_with_wrapwidth(&self, wrapwidth: usize) -> (r: String)
        ensures
            r@ == mo_entry_text(self@, wrapwidth as int, ""@, false),
    {
        mo_entry_to_string(self, wrapwidth, "")
    }

    /// The PO text of the entry wrapped to 78 columns.
    pub fn to_string(&self) -> (r: String)
        ensures
            r@ == mo_entry_text(self@, 78, ""@, false),
    {
        self.to_string_with_wrapwidth(78)
    }
}

impl POEntry {
    /// The PO text of the entry wrapped to `wrapwidth`: comments,
    /// occurrences, flags, previous values, then the fields, with `#~ `
    /// before each field line of an obsolete entry.
    pub fn to_string_with_wrapwidth(&self, wrapwidth: usize) -> (r: String)
        ensures
            r@ == po_entry_text(self@, wrapwidth as int),
    {
        let mut ret = String::new();
        if let Some(tcomment) = &self.tcomment {
            format_comment_inplace(tcomment.as_str(), "#. ", wrapwidth, &mut ret);
        }
        if let Some(comment) = &self.comment {
            format_comment_inplace(comment.as_str(), "# ", wrapwidth, &mut ret);
        }
        append_occurrences(self, wrapwidth, &mut ret);
        append_flags(self, &mut ret);
        append_previous(self, wrapwidth, &mut ret);
        let delflag = if self.obsolete {
            "#~ "
        } else {
            ""
        };
        let mo = MOEntry::from_po_entry(self);
        let body = mo_entry_to_string(&mo, wrapwidth, delflag);
        ret.append(body.as_str());
        assert(ret@ =~= po_entry_text(self@, wrapwidth as int));
        ret
    }

    /// The PO text of the entry wrapped to 78 columns.
    pub fn to_string(&self) -> (r: String)
        ensures
            r@ == po_entry_text(self@, 78),
    {
        self.to_string_with_wrapwidth(78)
    }
}

} // verus!
