use rspolib::FileOptions as Options;

#[test]
fn options_from() {
    // Options from &Options
    let options = Options {
        wrapwidth: 50,
        path_or_content: "foobar",
        check_for_duplicates: true,
        byte_content: None,
    };

    let options_from_options = Options::from(&options);
    assert_eq!(options_from_options.wrapwidth, 50);
    assert_eq!(options_from_options.path_or_content, "foobar");
    assert_eq!(options_from_options.check_for_duplicates, true);

    // Options from &str
    let options_from_str = Options::from("foobar");
    assert_eq!(options_from_str.wrapwidth, 78);
    assert_eq!(options_from_str.path_or_content, "foobar");
    assert_eq!(options_from_str.check_for_duplicates, false);

    // Options from (&str, usize)
    let options_from_str_and_usize =
        Options::from(("foobar", 50));
    assert_eq!(options_from_str_and_usize.wrapwidth, 50);
    assert_eq!(
        options_from_str_and_usize.path_or_content,
        "foobar"
    );
    assert_eq!(
        options_from_str_and_usize.check_for_duplicates,
        false
    );

    // Options from (&str, bool)
    let options_from_str_and_bool =
        Options::from(("foobar", true));
    assert_eq!(options_from_str_and_bool.wrapwidth, 78);
    assert_eq!(
        options_from_str_and_bool.path_or_content,
        "foobar"
    );
    assert_eq!(
        options_from_str_and_bool.check_for_duplicates,
        true
    );
}
