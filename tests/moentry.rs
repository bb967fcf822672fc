use rspolib::{MOEntry, Merge, POEntry, TranslatedEntry};


#[test]
fn moentry_moentry_constructor() {
    let moentry = MOEntry::new(
        "msgid".to_string(),
        Some("msgstr".to_string()),
        None,
        None,
        None,
    );

    assert_eq!(moentry.msgid, "msgid");
    assert_eq!(moentry.msgstr, Some("msgstr".to_string()));
    assert_eq!(moentry.msgid_plural, None);
    assert_eq!(moentry.msgstr_plural, None);
    assert_eq!(moentry.msgctxt, None);
}

#[test]
fn moentry_moentry_translated() {
    // empty msgstr means untranslated
    let moentry = MOEntry::new(
        "msgid".to_string(),
        Some("".to_string()),
        None,
        None,
        None,
    );
    assert_eq!(moentry.translated(), false);

    let moentry = MOEntry::new(
        "msgid".to_string(),
        Some("msgstr".to_string()),
        None,
        None,
        None,
    );
    assert_eq!(moentry.translated(), true);

    // empty msgstr_plural means untranslated
    let moentry = MOEntry::new(
        "msgid".to_string(),
        None,
        None,
        Some(Vec::new()),
        None,
    );
    assert_eq!(moentry.translated(), false);

    // empty msgstr in msgstr_plural means untranslated
    let moentry = MOEntry::new(
        "msgid".to_string(),
        None,
        None,
        Some(vec![("0".to_string(), "".to_string())]),
        None,
    );
    assert_eq!(moentry.translated(), false);

    let moentry = MOEntry::new(
        "msgid".to_string(),
        None,
        None,
        Some(
            // doesn't matter if has an invalid index
            vec![(
                "4".to_string(),
                "msgstr_plural".to_string(),
            )],
        ),
        None,
    );
    assert_eq!(moentry.translated(), true);
}

#[test]
fn moentry_moentry_merge() {
    let mut moentry = MOEntry::new(
        "msgid".to_string(),
        Some("msgstr".to_string()),
        Some("msgid_plural".to_string()),
        Some(vec![(
            "0".to_string(),
            "msgstr_plural".to_string(),
        )]),
        Some("msgctxt".to_string()),
    );
    let other = MOEntry::new(
        "other_msgid".to_string(),
        Some("other_msgstr".to_string()),
        Some("other_msgid_plural".to_string()),
        Some(vec![(
            "4".to_string(),
            "other_msgstr_plural".to_string(),
        )]),
        Some("other_msgctxt".to_string()),
    );

    moentry.merge(other);

    assert_eq!(moentry.msgid, "other_msgid");
    assert_eq!(moentry.msgstr, Some("other_msgstr".to_string()));
    assert_eq!(
        moentry.msgid_plural,
        Some("other_msgid_plural".to_string())
    );
    assert_eq!(
        moentry.msgstr_plural,
        Some(vec![(
            "4".to_string(),
            "other_msgstr_plural".to_string()
        )])
    );
    assert_eq!(
        moentry.msgctxt,
        Some("other_msgctxt".to_string())
    );
}

#[test]
fn moentry_moentry_to_string() {
    // with msgid_plural
    let moentry = MOEntry::new(
        "msgid".to_string(),
        Some("msgstr".to_string()),
        Some("msgid_plural".to_string()),
        Some(vec![(
            "0".to_string(),
            "msgstr_plural".to_string(),
        )]),
        Some("msgctxt".to_string()),
    );

    let expected = r#"msgctxt "msgctxt"
msgid "msgid"
msgid_plural "msgid_plural"
msgstr[0] "msgstr_plural"
"#
    .to_string();

    assert_eq!(moentry.to_string(), expected);

    // with msgstr
    let moentry = MOEntry::new(
        "msgid".to_string(),
        Some("msgstr".to_string()),
        None,
        None,
        Some("msgctxt".to_string()),
    );

    let expected = r#"msgctxt "msgctxt"
msgid "msgid"
msgstr "msgstr"
"#
    .to_string();

    assert_eq!(moentry.to_string(), expected);
}

#[test]
fn moentry_moentry_from_poentry() {
    let msgstr_plural = vec![(
        "0".to_string(),
        "msgstr_plural".to_string(),
    )];

    let mut poentry = POEntry::new(0);
    poentry.msgid = "msgid".to_string();
    poentry.msgstr = Some("msgstr".to_string());
    poentry.msgid_plural = Some("msgid_plural".to_string());
    poentry.msgstr_plural = msgstr_plural.clone();
    poentry.msgctxt = Some("msgctxt".to_string());

    let moentry = MOEntry::from(&poentry);

    assert_eq!(moentry.msgid, "msgid");
    assert_eq!(moentry.msgstr, Some("msgstr".to_string()));
    assert_eq!(
        moentry.msgid_plural,
        Some("msgid_plural".to_string())
    );
    assert_eq!(moentry.msgstr_plural, Some(msgstr_plural));
    assert_eq!(moentry.msgctxt, Some("msgctxt".to_string()));
}
