use rspolib::{pofile, FileOptions, POFile, TranslatedEntry};
use unicode_segmentation::UnicodeSegmentation;

const ALL_PO: &str = r#"# Catalog of all the features
# Copyright (C) 2023
#
#, fuzzy
msgid ""
msgstr ""
"Project-Id-Version: all 1.0\n"
"Report-Msgid-Bugs-To: bugs@example.com\n"
"POT-Creation-Date: 2023-01-01 00:00+0000\n"
"PO-Revision-Date: 2023-01-02 00:00+0000\n"
"Last-Translator: Someone <someone@example.com>\n"
"Language-Team: Spanish <es@example.com>\n"
"Language: es\n"
"MIME-Version: 1.0\n"
"Content-Type: text/plain; charset=UTF-8\n"
"Content-Transfer-Encoding: 8bit\n"
"Plural-Forms: nplurals=2; plural=(n != 1);\n"

#: src/main.rs:1
msgid "Hello"
msgstr "Hola"

#. An extracted comment
#: src/main.rs:2 src/lib.rs:10
#, python-format
msgid "Hello %s"
msgstr "Hola %s"

msgctxt "menu"
msgid "File"
msgstr "Archivo"

msgid "One file"
msgid_plural "%d files"
msgstr[0] "Un archivo"
msgstr[1] "%d archivos"

#, fuzzy
msgid "Fuzzy"
msgstr "Difuso"

# A translator comment
msgid "Untranslated"
msgstr ""

msgid ""
"A long message that is split over several lines because it is longer than "
"the wrapping width of seventy-eight columns"
msgstr ""
"Un mensaje largo que se parte en varias líneas porque es más largo que el "
"ancho de setenta y ocho columnas"

#| msgid "Old"
msgid "New"
msgstr "Nuevo"

#~ msgid "Obsolete"
#~ msgstr "Obsoleto"
"#;

const EMPTY_METADATA_PO: &str = r#"msgid ""
msgstr ""

msgid "a"
msgstr "b"
"#;

const FUZZY_HEADER_PO: &str = r#"# Header
#, fuzzy
msgid ""
msgstr ""
"Project-Id-Version: PACKAGE VERSION\n"
"Report-Msgid-Bugs-To: \n"
"POT-Creation-Date: 2023-01-01 00:00+0000\n"
"PO-Revision-Date: YEAR-MO-DA HO:MI+ZONE\n"
"Last-Translator: FULL NAME <EMAIL@ADDRESS>\n"
"Language-Team: LANGUAGE <LL@li.org>\n"
"Language: \n"
"MIME-Version: 1.0\n"
"Content-Type: text/plain; charset=UTF-8\n"
"Content-Transfer-Encoding: 8bit\n"
"Plural-Forms: nplurals=INTEGER; plural=EXPRESSION;\n"
"X-Generator: rspolib\n"

msgid "a"
msgstr "b"
"#;

const NATURAL_UNSORTED_METADATA_PO: &str = r#"msgid ""
msgstr ""
"X-Poedit-SearchPath-10: Baz\n"
"Content-Transfer-Encoding: 8bit\n"
"X-Poedit-SearchPath-2: Bar\n"
"Project-Id-Version: PACKAGE VERSION\n"
"Language-Team: LANGUAGE <LL@li.org>\n"
"X-Poedit-SearchPath-1: Foo\n"
"Report-Msgid-Bugs-To: \n"
"Content-Type: text/plain; charset=UTF-8\n"
"#;

const TWO_TRANSLATED_ENTRIES_PO: &str = r#"msgid ""
msgstr ""
"Content-Type: text/plain; charset=UTF-8\n"

msgid "msgid 1"
msgstr ""

msgid "msgid 2"
msgstr "msgstr 2"

msgid "msgid 3"
msgstr ""

msgid "msgid 4"
msgstr "msgstr 4"

#, fuzzy
msgid "msgid 5"
msgstr "msgstr 5"
"#;

const OBSOLETES_PO: &str = r#"msgid ""
msgstr ""
"Content-Type: text/plain; charset=UTF-8\n"

msgid "live"
msgstr "vivo"

#~ msgid "first obsolete"
#~ msgstr "primero obsoleto"

#~ msgid "second obsolete"
#~ msgstr "segundo obsoleto"
"#;

const FUZZY_NO_FUZZY_PO: &str = r#"msgid ""
msgstr ""
"Content-Type: text/plain; charset=UTF-8\n"

msgid "a"
msgstr "a"

#, fuzzy
msgid "Line"
msgstr "Ligne"
"#;

fn parse(content: &str) -> POFile<'_> {
    pofile(FileOptions::from(content)).unwrap()
}

#[test]
fn pofile_test() {
    let file = parse(ALL_PO);

    assert_eq!(file.entries.len(), 9);
}

#[test]
fn pofile_metadata_as_entry() {
    // File with metadata
    let file = parse(ALL_PO);
    let entry = file.metadata_as_entry();

    assert_eq!(entry.msgid, "");
    assert_eq!(entry.msgstr.unwrap().lines().count(), 11);

    // File without metadata
    let file = parse(EMPTY_METADATA_PO);
    let entry = file.metadata_as_entry();

    assert_eq!(entry.msgid, "");
    assert_eq!(entry.msgstr.is_none(), true);

    // File with fuzzy metadata
    let file = parse(FUZZY_HEADER_PO);
    let entry = file.metadata_as_entry();

    assert_eq!(entry.msgid, "");
    assert_eq!(entry.fuzzy(), true);
    assert_eq!(entry.msgstr.unwrap().lines().count(), 12);
}

#[test]
fn metadata_keys_are_natural_sorted() {
    let file = parse(NATURAL_UNSORTED_METADATA_PO);

    assert_eq!(
        file.to_string(),
        "msgid \"\"
msgstr \"\"
\"Project-Id-Version: PACKAGE VERSION\\n\"
\"Report-Msgid-Bugs-To: \\n\"
\"Language-Team: LANGUAGE <LL@li.org>\\n\"
\"Content-Type: text/plain; charset=UTF-8\\n\"
\"Content-Transfer-Encoding: 8bit\\n\"
\"X-Poedit-SearchPath-1: Foo\\n\"
\"X-Poedit-SearchPath-2: Bar\\n\"
\"X-Poedit-SearchPath-10: Baz\\n\"
",
    );
}

#[test]
fn pofile_translated_entries() {
    let file = parse(TWO_TRANSLATED_ENTRIES_PO);

    let translated_entries = file.translated_entries();
    assert_eq!(file.entries.len(), 5);
    assert_eq!(translated_entries.len(), 2);
    assert_eq!(file.entries[0].msgid, "msgid 1");
    assert_eq!(translated_entries[0].msgid, "msgid 2");
}

#[test]
fn pofile_untranslated_entries() {
    let file = parse(TWO_TRANSLATED_ENTRIES_PO);

    let untranslated_entries = file.untranslated_entries();
    assert_eq!(file.entries.len(), 5);
    assert_eq!(untranslated_entries.len(), 3);
    assert_eq!(file.entries[0].msgid, "msgid 1");
    assert_eq!(untranslated_entries[0].msgid, "msgid 1");
    assert_eq!(untranslated_entries[1].msgid, "msgid 3");
}

#[test]
fn pofile_obsolete_entries() {
    let file = parse(OBSOLETES_PO);

    let obsolete_entries = file.obsolete_entries();
    assert_eq!(file.entries.len(), 3);
    assert_eq!(obsolete_entries.len(), 2);
}

#[test]
fn pofile_to_string() {
    let file = parse(ALL_PO);

    let file_as_string = file.to_string();

    for line in file_as_string.lines() {
        let n_chars = line.graphemes(true).count();
        assert!(n_chars <= file.options.wrapwidth + 2);
    }
}

#[test]
fn set_fuzzy() {
    let mut file = parse(FUZZY_NO_FUZZY_PO);

    assert!(!file.entries[0].fuzzy());
    assert!(file.entries[1].fuzzy());

    // set fuzzy
    file.entries[0].flags.push("fuzzy".to_string());

    // unset fuzzy
    let fuzzy_position = file.entries[1]
        .flags
        .iter()
        .position(|p| p == "fuzzy")
        .unwrap();
    file.entries[1].flags.remove(fuzzy_position);

    assert!(file.entries[0].fuzzy());
    assert!(!file.entries[1].fuzzy());

    assert_eq!(
        file.entries[0].to_string(),
        "#, fuzzy\nmsgid \"a\"\nmsgstr \"a\"\n",
    );
    assert_eq!(
        file.entries[1].to_string(),
        "msgid \"Line\"\nmsgstr \"Ligne\"\n",
    );
}

#[test]
fn translated_entries_skip_fuzzy_and_obsolete() {
    let file = parse(ALL_PO);
    assert!(file.translated_entries().iter().all(|e| e.translated()));
}

#[test]
fn mofile_from_pofile() {
    let po_file = parse(ALL_PO);
    let mo_file = rspolib::MOFile::from(&po_file);

    assert_eq!(
        mo_file.entries.len(),
        po_file.translated_entries().len(),
    );
    assert_eq!(mo_file.metadata.len(), po_file.metadata.len());
}
