use rspolib::entry::POEntry;
use rspolib::errors::{EscapingError, IOError, MaybeFilename, SyntaxError};
use rspolib::testing::create_corrupted_binary_content;
use rspolib::Merge;
use rspolib::escaping::{escape, unescape, unescape_except_double_quotes};
use rspolib::{pofile, FileOptions, MOFile, POFile, TranslatedEntry};

fn parse(content: &str) -> Result<POFile<'_>, SyntaxError> {
    pofile(FileOptions::from(content))
}

#[test]
fn escape_map() {
    assert_eq!(escape("aa\"bb"), "aa\\\"bb");
    assert_eq!(escape("a\nb\tc\rd\\e"), "a\\nb\\tc\\rd\\\\e");
    assert_eq!(escape(""), "");
}

#[test]
fn unescape_inverts_escape() {
    let s = "tab\there \"quoted\" back\\slash\nnew line\r";
    assert_eq!(unescape(&escape(s)), Ok(s.to_string()));
}

#[test]
fn unescape_errors() {
    assert_eq!(
        unescape("abc\\"),
        Err(EscapingError::EscapeAtEndOfString { text: "abc\\".to_string() })
    );
    assert_eq!(
        unescape("a\\qb"),
        Err(EscapingError::InvalidEscapedCharacter { text: "a\\qb".to_string(), character: 'q' })
    );
}

#[test]
fn unescape_keeping_quotes() {
    assert_eq!(unescape_except_double_quotes("a\\\"b\\n"), Ok("a\\\"b\n".to_string()));
    assert_eq!(unescape("a\\\"b\\n"), Ok("a\"b\n".to_string()));
}

#[test]
fn unescaped_double_quote_position() {
    let content = "#\nmsgid \"Hello\"\nmsgstr \"Ho\"la\"\n";
    assert_eq!(
        parse(content).err(),
        Some(SyntaxError::UnescapedDoubleQuoteFound {
            maybe_filename: MaybeFilename::new(content, false),
            line: 3,
            index: 11,
        })
    );
}

#[test]
fn unknown_keyword() {
    let content = "#\n#| previous_message = \"Good morning\"\nmsgid \"Hello\"\nmsgstr \"Hola\"\n";
    assert_eq!(
        parse(content).err(),
        Some(SyntaxError::Custom {
            maybe_filename: MaybeFilename::new(content, false),
            line: 2,
            index: 0,
            message: "unknown keyword previous_message".to_string(),
        })
    );
}

#[test]
fn generic_syntax_error() {
    let content = "msgid \"a\"\nmsgstr \"b\"\nwhat is this\n";
    assert_eq!(
        parse(content).err(),
        Some(SyntaxError::Generic { maybe_filename: MaybeFilename::new(content, false), line: 3, index: 0 })
    );
}

#[test]
fn missing_quotes() {
    let content = "msgid Hello\nmsgstr \"b\"\n";
    assert_eq!(
        parse(content).err(),
        Some(SyntaxError::Custom {
            maybe_filename: MaybeFilename::new(content, false),
            line: 1,
            index: 6,
            message: "missing double quotes around string".to_string(),
        })
    );
}

#[test]
fn duplicate_entries() {
    let content = "msgid \"a\"\nmsgstr \"b\"\n\nmsgid \"a\"\nmsgstr \"c\"\n";
    assert!(parse(content).is_ok());
    assert_eq!(
        pofile(FileOptions::from((content, true))).err(),
        Some(SyntaxError::Custom {
            maybe_filename: MaybeFilename::new(content, false),
            line: 4,
            index: 0,
            message: "duplicate entry".to_string(),
        })
    );
}

#[test]
fn natural_order_of_metadata() {
    let content = "msgid \"\"\nmsgstr \"\"\n\"X-Poedit-SearchPath-10: c\\n\"\n\"Language: es\\n\"\n\"X-Poedit-SearchPath-2: b\\n\"\n\"X-Poedit-SearchPath-1: a\\n\"\n";
    let file = parse(content).unwrap();
    assert_eq!(
        file.to_string(),
        "msgid \"\"\nmsgstr \"\"\n\"Language: es\\n\"\n\"X-Poedit-SearchPath-1: a\\n\"\n\"X-Poedit-SearchPath-2: b\\n\"\n\"X-Poedit-SearchPath-10: c\\n\"\n"
    );
}

#[test]
fn plural_emission_order() {
    let mut entry = POEntry::new(0);
    entry.msgid = "m".to_string();
    entry.msgid_plural = Some("p".to_string());
    entry.msgstr_plural = vec![
        ("10".to_string(), "c".to_string()),
        ("5".to_string(), "b".to_string()),
        ("3".to_string(), "a".to_string()),
    ];
    assert_eq!(
        entry.to_string(),
        "msgid \"m\"\nmsgid_plural \"p\"\nmsgstr[3] \"a\"\nmsgstr[5] \"b\"\nmsgstr[10] \"c\"\n"
    );
}

#[test]
fn po_round_trip_of_entries() {
    let content = "# translator\n#. extracted\n#: a.rs:1 b.rs\n#, fuzzy, c-format\n#| msgid \"old\"\nmsgctxt \"ctx\"\nmsgid \"a\\\"b\"\nmsgstr \"x\\ty\"\n\n#~ msgid \"gone\"\n#~ msgstr \"ido\"\n";
    let file = parse(content).unwrap();
    assert_eq!(file.entries.len(), 2);
    let e = &file.entries[0];
    assert_eq!(e.comment, Some("translator".to_string()));
    assert_eq!(e.tcomment, Some("extracted".to_string()));
    assert_eq!(
        e.occurrences,
        vec![("a.rs".to_string(), "1".to_string()), ("b.rs".to_string(), "".to_string())]
    );
    assert_eq!(e.flags, vec!["fuzzy".to_string(), "c-format".to_string()]);
    assert_eq!(e.previous_msgid, Some("old".to_string()));
    assert_eq!(e.msgctxt, Some("ctx".to_string()));
    assert_eq!(e.msgid, "a\"b");
    assert_eq!(e.msgstr, Some("x\ty".to_string()));
    assert_eq!(e.linenum, 1);
    assert!(file.entries[1].obsolete);
    let again = file.to_string();
    let reparsed = parse(&again).unwrap();
    assert_eq!(reparsed.entries.len(), 2);
    for (a, b) in file.entries.iter().zip(reparsed.entries.iter()) {
        assert_eq!(a.msgid, b.msgid);
        assert_eq!(a.msgstr, b.msgstr);
        assert_eq!(a.msgctxt, b.msgctxt);
        assert_eq!(a.flags, b.flags);
        assert_eq!(a.occurrences, b.occurrences);
        assert_eq!(a.obsolete, b.obsolete);
    }
}

#[test]
fn long_comment_is_wrapped_with_prefix() {
    let mut entry = POEntry::new(0);
    entry.comment = Some("one two three four five six".to_string());
    let text = entry.to_string_with_wrapwidth(12);
    for line in text.lines().take_while(|l| l.starts_with('#')) {
        assert!(line.starts_with("# "));
    }
    assert!(text.lines().filter(|l| l.starts_with("# ")).count() > 1);
}

#[test]
fn long_field_is_wrapped() {
    let mut entry = POEntry::new(0);
    entry.msgid = "aaaa bbbb cccc dddd eeee".to_string();
    assert_eq!(
        entry.to_string_with_wrapwidth(12),
        "msgid \"\"\n\"aaaa bbbb \"\n\"cccc dddd \"\n\"eeee\"\nmsgstr \"\"\n"
    );
}

#[test]
fn wide_characters_count_double() {
    let mut entry = POEntry::new(0);
    // six wide characters: display width 12, so "msgid" + 1 + 12 > 16
    entry.msgid = "日本語 日本語".to_string();
    let text = entry.to_string_with_wrapwidth(16);
    assert!(text.starts_with("msgid \"\"\n"));
}

#[test]
fn header_and_fuzzy_metadata_written() {
    let content = "# Title\n#\n#, fuzzy\nmsgid \"\"\nmsgstr \"\"\n\"Language: fr\\n\"\n\nmsgid \"a\"\nmsgstr \"b\"\n";
    let file = parse(content).unwrap();
    assert_eq!(file.header, Some("Title\n".to_string()));
    assert!(file.metadata_is_fuzzy);
    assert_eq!(
        file.to_string(),
        "# Title\n#\n#, fuzzy\nmsgid \"\"\nmsgstr \"\"\n\"Language: fr\\n\"\n\nmsgid \"a\"\nmsgstr \"b\"\n"
    );
}

#[test]
fn merge_updates_appends_and_obsoletes() {
    let mut mine = parse("msgid \"a\"\nmsgstr \"old\"\n\nmsgid \"gone\"\nmsgstr \"x\"\n").unwrap();
    let theirs = parse("msgid \"a\"\nmsgstr \"new\"\n\nmsgid \"b\"\nmsgstr \"bee\"\n").unwrap();
    mine.merge(theirs);
    assert_eq!(mine.entries.len(), 3);
    assert_eq!(mine.entries[0].msgstr, Some("new".to_string()));
    assert!(mine.entries[1].obsolete);
    assert_eq!(mine.entries[2].msgid, "b");
    assert!(!mine.entries[2].obsolete);
}

#[test]
fn find_and_remove() {
    let mut file = parse("msgctxt \"c\"\nmsgid \"a\"\nmsgstr \"1\"\n\nmsgid \"a\"\nmsgstr \"2\"\n").unwrap();
    assert_eq!(file.find_by_msgid("a").unwrap().msgstr, Some("1".to_string()));
    assert_eq!(file.find_by_msgid_msgctxt("a", "").unwrap().msgstr, Some("2".to_string()));
    assert_eq!(file.find_by_msgid_msgctxt("a", "c").unwrap().msgstr, Some("1".to_string()));
    assert!(file.find_by_msgid("z").is_none());
    let first = file.entries[0].clone();
    file.remove(&first);
    assert_eq!(file.entries.len(), 1);
    assert_eq!(file.entries[0].msgstr, Some("2".to_string()));
    assert_eq!(file.fuzzy_entries().len(), 0);
    assert_eq!(file.obsolete_entries().len(), 0);
}

#[test]
fn invalid_utf8_in_mo_strings() {
    // one string pair; the original is the single byte 0xff
    let data = vec![rspolib::MAGIC, 0, 1, 28, 36, 0, 0, 1, 44, 0, 45];
    let content = create_corrupted_binary_content(&data, true, &vec![0xff, 0, 0]);
    assert_eq!(
        rspolib::mofile(FileOptions::from(content)).err(),
        Some(IOError::CorruptedMOData { context: "decoding strings".to_string() })
    );
}

#[test]
fn translated_predicates() {
    let file = parse("msgid \"a\"\nmsgstr \"x\"\n\n#, fuzzy\nmsgid \"b\"\nmsgstr \"y\"\n\nmsgid \"c\"\nmsgid_plural \"cs\"\nmsgstr[0] \"z\"\nmsgstr[1] \"\"\n\n#~ msgid \"d\"\n#~ msgstr \"w\"\n").unwrap();
    let flags: Vec<bool> = file.entries.iter().map(|e| e.translated()).collect();
    assert_eq!(flags, vec![true, false, false, false]);
    let mo = MOFile::from(&file);
    assert_eq!(mo.entries.len(), 1);
}

#[test]
fn remove_and_append_by_key() {
    let mut file = parse("msgctxt \"c\"\nmsgid \"a\"\nmsgstr \"1\"\n\nmsgid \"a\"\nmsgstr \"2\"\n\nmsgid \"b\"\nmsgstr \"3\"\n").unwrap();
    file.remove_by_msgid_msgctxt("a", "c");
    assert_eq!(file.entries.len(), 2);
    assert_eq!(file.entries[0].msgstr, Some("2".to_string()));
    file.remove_by_msgid("b");
    assert_eq!(file.entries.len(), 1);
    file.remove_by_msgid("missing");
    assert_eq!(file.entries.len(), 1);
    file.append(POEntry::from(("z", "zz")));
    assert_eq!(file.entries[1].msgid, "z");
}

#[test]
fn translated_with_empty_msgstr_and_plurals() {
    let mut entry = POEntry::new(0);
    entry.msgstr = Some("".to_string());
    entry.msgstr_plural = vec![("0".to_string(), "a".to_string()), ("1".to_string(), "b".to_string())];
    assert!(entry.translated());
    let mo = rspolib::MOEntry::from(&entry);
    assert!(mo.translated());
    entry.msgstr_plural[1].1 = "".to_string();
    assert!(!entry.translated());
}

#[test]
fn msgstr_trailing_space_kept() {
    let mut entry = POEntry::new(0);
    entry.msgid = "a".to_string();
    entry.msgstr = Some("b \n".to_string());
    assert_eq!(entry.to_string(), "msgid \"a\"\nmsgstr \"b \\n\"\n");
    let text = entry.to_string();
    let file = parse(&text).unwrap();
    assert_eq!(file.entries[0].msgstr, Some("b \n".to_string()));
}

#[test]
fn duplicate_plural_index() {
    let content = "msgid \"a\"\nmsgid_plural \"as\"\nmsgstr[0] \"x\"\nmsgstr[0] \"y\"\n";
    assert_eq!(
        parse(content).err(),
        Some(SyntaxError::Custom {
            maybe_filename: MaybeFilename::new(content, false),
            line: 4,
            index: 7,
            message: "duplicate plural index".to_string(),
        })
    );
}

#[test]
fn repeated_metadata_key_keeps_later_value() {
    let file = parse("msgid \"\"\nmsgstr \"\"\n\"Language: es\\n\"\n\"Language: fr\\n\"\n").unwrap();
    assert_eq!(file.metadata, vec![("Language".to_string(), "fr".to_string())]);
}

#[test]
fn find_by_field() {
    let file = parse("#: a.rs:1\nmsgctxt \"c\"\nmsgid \"x\"\nmsgstr \"y\"\n\n#| msgid \"old\"\nmsgid \"z\"\nmsgstr \"y\"\n").unwrap();
    assert_eq!(file.find("y", "msgstr", None).len(), 2);
    assert_eq!(file.find("y", "msgstr", Some("c")).len(), 1);
    assert_eq!(file.find("a.rs", "occurrences", None)[0].msgid, "x");
    assert_eq!(file.find("old", "previous_msgid", None)[0].msgid, "z");
    assert_eq!(file.find("c", "msgctxt", None).len(), 1);
    assert_eq!(file.find("x", "msgid", None).len(), 1);
    assert_eq!(file.find("x", "nothing", None).len(), 0);
}

#[test]
fn mofile_queries_and_text() {
    let po = parse("msgid \"\"\nmsgstr \"\"\n\"Language: es\\n\"\n\nmsgctxt \"c\"\nmsgid \"a\"\nmsgstr \"1\"\n\nmsgid \"a\"\nmsgstr \"2\"\n").unwrap();
    let mut mo = MOFile::from(&po);
    assert_eq!(mo.find_by_msgid("a").unwrap().msgstr, Some("1".to_string()));
    assert_eq!(mo.find_by_msgid_msgctxt("a", "").unwrap().msgstr, Some("2".to_string()));
    assert_eq!(
        mo.to_string(),
        "msgid \"\"\nmsgstr \"\"\n\"Language: es\\n\"\n\nmsgctxt \"c\"\nmsgid \"a\"\nmsgstr \"1\"\n\nmsgid \"a\"\nmsgstr \"2\"\n"
    );
    assert_eq!(mo.to_pofile().entries.len(), 2);
    mo.remove_by_msgid_msgctxt("a", "c");
    assert_eq!(mo.entries.len(), 1);
    mo.remove_by_msgid("a");
    assert_eq!(mo.entries.len(), 0);
    mo.append(rspolib::MOEntry::from_msgid("n"));
    assert_eq!(mo.entries.len(), 1);
}
