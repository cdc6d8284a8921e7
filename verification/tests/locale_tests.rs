use ldapeditor::locale::ui_language;

#[test]
fn japanese_locales_select_japanese() {
    assert_eq!(ui_language("ja_JP.UTF-8"), "ja");
    assert_eq!(ui_language("ja-JP"), "ja");
    assert_eq!(ui_language("ja"), "ja");
    assert_eq!(ui_language("ja.eucJP"), "ja");
}

#[test]
fn other_locales_fall_back_to_english() {
    assert_eq!(ui_language("en_US.UTF-8"), "en");
    assert_eq!(ui_language(""), "en");
    assert_eq!(ui_language("C"), "en");
    assert_eq!(ui_language("jav_ID"), "en");
    assert_eq!(ui_language("JA_JP"), "en");
    assert_eq!(ui_language("_ja"), "en");
    assert_eq!(ui_language("fr-FR"), "en");
}
