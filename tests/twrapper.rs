use rspolib::twrapper::wrap;

#[test]
fn simple() {
    let text = "This is a test of the emergency broadcast system.";
    let wrapped = wrap(text, 10);
    assert_eq!(
        wrapped,
        vec!["This is a ", "test of ", "the ", "emergency ", "broadcast ", "system."]
    );
}

#[test]
fn long_wrapwidth() {
    let text = "This is a test of the emergency broadcast system.";
    let wrapped = wrap(text, 100);
    assert_eq!(wrapped, vec![text]);
}

#[test]
fn unbreakable_line() {
    let text = "Thislineisverylongbutmustnotbebroken breaks should be here.";
    let wrapped = wrap(text, 5);
    assert_eq!(
        wrapped,
        vec!["Thislineisverylongbutmustnotbebroken ", "breaks ", "should ", "be ", "here."]
    );
}

#[test]
fn unicode_characters() {
    let text = "123Ááé aabbcc ÁáééÚí aabbcc";
    let wrapped = wrap(text, 7);
    assert_eq!(wrapped, vec!["123Ááé ", "aabbcc ", "ÁáééÚí ", "aabbcc"]);
}
