use rspolib::errors::IOError;
use rspolib::testing::{create_binary_content, create_corrupted_binary_content};
use rspolib::{mofile, pofile, AsBytes, FileOptions, MOEntry, MOFile, MAGIC, MAGIC_SWAPPED};

fn from_bytes(bytes: Vec<u8>) -> Result<MOFile<'static>, IOError> {
    mofile(FileOptions::from(bytes))
}

#[test]
fn incorrect_magic_number() {
    let content = create_binary_content(&vec![800], true);
    assert_eq!(
        from_bytes(content).err(),
        Some(IOError::IncorrectMagicNumber { magic_number_le: 800, magic_number_be: 537067520 })
    );
}

#[test]
fn unsupported_revision_number() {
    let content = create_binary_content(&vec![MAGIC, 234], true);
    assert_eq!(
        from_bytes(content).err(),
        Some(IOError::UnsupportedMORevisionNumber { version: 234 })
    );
}

#[test]
fn error_reading_magic_number() {
    assert_eq!(from_bytes(vec![1, 2, 3]).err(), Some(IOError::ErrorReadingMagicNumber {}));
}

#[test]
fn corrupted_number_of_strings() {
    let content = create_binary_content(&vec![MAGIC, 0], true);
    assert_eq!(
        from_bytes(content).err(),
        Some(IOError::CorruptedMOData { context: "parsing number of strings".to_string() })
    );
}

#[test]
fn corrupted_tables() {
    // one string whose table lies past the end
    let content = create_corrupted_binary_content(&vec![MAGIC, 0, 1, 1000, 1008, 0, 0], true, &vec![0, 0]);
    assert_eq!(
        from_bytes(content).err(),
        Some(IOError::CorruptedMOData { context: "parsing originals table".to_string() })
    );
}

#[test]
fn binary_content_orders() {
    assert_eq!(create_binary_content(&vec![0x01020304], true), vec![4, 3, 2, 1]);
    assert_eq!(create_binary_content(&vec![0x01020304], false), vec![1, 2, 3, 4]);
    assert_eq!(create_corrupted_binary_content(&vec![1], true, &vec![9]), vec![1, 0, 0, 0, 9]);
}

const PO: &str = "msgid \"\"
msgstr \"\"
\"Language: es\\n\"
\"Content-Type: text/plain; charset=UTF-8\\n\"

msgid \"b\"
msgstr \"be\"

msgctxt \"ctx\"
msgid \"a\"
msgstr \"a in ctx\"

msgid \"file\"
msgid_plural \"files\"
msgstr[0] \"archivo\"
msgstr[1] \"archivos\"

msgid \"untranslated\"
msgstr \"\"

#, fuzzy
msgid \"fuzzy\"
msgstr \"difuso\"
";

#[test]
fn pofile_to_mo_round_trip() {
    let po = pofile(FileOptions::from(PO)).unwrap();
    let mo = from_bytes(po.as_bytes()).unwrap();
    assert_eq!(mo.magic_number, Some(MAGIC));
    assert_eq!(mo.version, Some(0));
    assert_eq!(mo.entries.len(), po.translated_entries().len());
    assert_eq!(mo.entries.len(), 3);
    assert_eq!(mo.metadata, po.metadata);
    // sorted by key: "b", "ctx\u{4}a", "file"
    assert_eq!(mo.entries[0].msgid, "b");
    assert_eq!(mo.entries[0].msgstr, Some("be".to_string()));
    assert_eq!(mo.entries[1].msgctxt, Some("ctx".to_string()));
    assert_eq!(mo.entries[1].msgid, "a");
    assert_eq!(mo.entries[2].msgid_plural, Some("files".to_string()));
    assert_eq!(
        mo.entries[2].msgstr_plural,
        Some(vec![
            ("0".to_string(), "archivo".to_string()),
            ("1".to_string(), "archivos".to_string())
        ])
    );
}

#[test]
fn endianness_independence() {
    let po = pofile(FileOptions::from(PO)).unwrap();
    let le = po.as_bytes_le();
    let be = po.as_bytes_be();
    assert_ne!(le, be);
    assert_eq!(&be[0..4], &[0x95, 0x04, 0x12, 0xde]);
    assert_eq!(&le[0..4], &[0xde, 0x12, 0x04, 0x95]);
    let a = from_bytes(le).unwrap();
    let b = from_bytes(be).unwrap();
    assert_eq!(b.magic_number, Some(MAGIC_SWAPPED));
    assert_eq!(a.entries, b.entries);
    assert_eq!(a.metadata, b.metadata);
}

#[test]
fn translated_filter_to_mo() {
    let content = "msgid \"1\"\nmsgstr \"\"\n\nmsgid \"2\"\nmsgstr \"two\"\n\nmsgid \"3\"\nmsgstr \"\"\n\nmsgid \"4\"\nmsgstr \"four\"\n\nmsgid \"5\"\nmsgstr \"\"\n";
    let po = pofile(FileOptions::from(content)).unwrap();
    assert_eq!(po.entries.len(), 5);
    let mo = MOFile::from(&po);
    assert_eq!(mo.entries.len(), 2);
}

#[test]
fn mo_header_layout() {
    let mut mo = MOFile::new(FileOptions::from(""));
    mo.entries.push(MOEntry::new("a".to_string(), Some("b".to_string()), None, None, None));
    let bytes = mo.as_bytes();
    // magic, revision, two strings, tables at 28 and 44
    assert_eq!(&bytes[0..4], &[0xde, 0x12, 0x04, 0x95]);
    assert_eq!(&bytes[8..12], &[2, 0, 0, 0]);
    assert_eq!(&bytes[12..16], &[28, 0, 0, 0]);
    assert_eq!(&bytes[16..20], &[44, 0, 0, 0]);
    // the metadata entry (empty msgid) sorts first; the string "a" follows its NUL
    assert_eq!(&bytes[60..62], &[0, b'a']);
    let back = from_bytes(bytes).unwrap();
    assert_eq!(back.entries.len(), 1);
    assert_eq!(back.entries[0].msgstr, Some("b".to_string()));
}
