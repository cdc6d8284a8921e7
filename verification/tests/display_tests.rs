use ldapeditor::display::{
    action_label, action_popup_size, decimal, detail_viewport, focus_marker, picker_title, syntax_suffix, attr_item_left, bar_split, button_text, fill_gap, filter_segments,
    form_popup_size, inject_cursor, must_badge, name_cell, oc_tag, orphan_display_value, pad_to, picker_popup_size,
    popup_origin, truncate_chars, Tone,
};

fn segs(v: &[(&str, Tone)]) -> Vec<(String, Tone)> {
    v.iter().map(|(s, t)| (s.to_string(), *t)).collect()
}

#[test]
fn filter_segments_follow_the_groups() {
    assert_eq!(
        filter_segments("(&(a=1)(!(b=2)))"),
        segs(&[
            ("(&", Tone::And),
            ("(a=1)", Tone::And),
            ("(!", Tone::Not),
            ("(b=2)", Tone::Not),
            (")", Tone::Not),
            (")", Tone::And),
        ])
    );
    assert_eq!(filter_segments("(|(cn=a)(sn=b))")[0], ("(|".to_string(), Tone::Or));
    assert_eq!(filter_segments("cn=a"), segs(&[("cn=a", Tone::Normal)]));
    assert!(filter_segments("").is_empty());
    // the segments rejoin into the filter
    let f = "(&(objectClass=person)(|(cn=a*)(mail=*@x)))";
    let joined: String = filter_segments(f).into_iter().map(|(s, _)| s).collect();
    assert_eq!(joined, f);
}

#[test]
fn unbalanced_closing_falls_back_to_normal() {
    assert_eq!(filter_segments("a)b"), segs(&[("a)", Tone::Normal), ("b", Tone::Normal)]));
}

#[test]
fn cursor_is_injected_as_its_own_piece() {
    let parts = segs(&[("ab", Tone::And), ("cd", Tone::Or)]);
    assert_eq!(
        inject_cursor(parts.clone(), 1, Tone::Not),
        segs(&[("a", Tone::And), ("b", Tone::Not), ("cd", Tone::Or)])
    );
    assert_eq!(
        inject_cursor(parts.clone(), 2, Tone::Not),
        segs(&[("ab", Tone::And), ("c", Tone::Not), ("d", Tone::Or)])
    );
    assert_eq!(
        inject_cursor(parts.clone(), 4, Tone::Not),
        segs(&[("ab", Tone::And), ("cd", Tone::Or), (" ", Tone::Not)])
    );
    assert_eq!(inject_cursor(Vec::new(), 0, Tone::Not), segs(&[(" ", Tone::Not)]));
}

#[test]
fn popup_sizes() {
    assert_eq!(picker_popup_size(100, 40), (70, 26));
    assert_eq!(picker_popup_size(30, 8), (30, 8));
    assert_eq!(form_popup_size(100, 40, 3), (80, 11));
    assert_eq!(form_popup_size(50, 6, 3), (50, 6));
    assert_eq!(action_popup_size(80, 24, true), (38, 6));
    assert_eq!(action_popup_size(80, 24, false), (38, 7));
    assert_eq!(action_popup_size(20, 5, false), (20, 5));
    assert_eq!(popup_origin(0, 0, 100, 40, 70, 26), (15, 7));
    assert_eq!(popup_origin(2, 3, 10, 10, 20, 20), (2, 3));
    assert_eq!(bar_split(24, true), (22, 2));
    assert_eq!(bar_split(24, false), (23, 1));
    assert_eq!(bar_split(0, true), (0, 2));
}

#[test]
fn text_cells() {
    assert_eq!(truncate_chars("abcdef", 3, "..."), "abc...");
    assert_eq!(truncate_chars("abc", 3, "..."), "abc");
    assert_eq!(orphan_display_value("0123456789AB"), "0123456789...");
    assert_eq!(orphan_display_value("short"), "short");
    assert_eq!(pad_to("ab", 4), "ab  ");
    assert_eq!(pad_to("abcdef", 4), "abcdef");
    assert_eq!(name_cell("description", 8), "descript");
    assert_eq!(name_cell("cn", 4), "cn  ");
    assert_eq!(button_text("[ Submit ]", true), " ▶ [ Submit ] ");
    assert_eq!(button_text("[ Cancel ]", false), "   [ Cancel ]  ");
    assert_eq!(fill_gap(20, 5), 15);
    assert_eq!(fill_gap(5, 5), 1);
    assert_eq!(fill_gap(3, 9), 1);
    assert_eq!(oc_tag(true), "[STR]");
    assert_eq!(oc_tag(false), "[AUX]");
    assert_eq!(must_badge(true), "[MUST]");
    assert_eq!(must_badge(false), "[MAY] ");
    assert_eq!(attr_item_left("[MUST]", "cn", "DirectoryString"), "[MUST] cn  DirectoryString");
    assert_eq!(attr_item_left("[MAY] ", "x", ""), "[MAY]  x");
    assert_eq!(action_label(true, "objectClass", "person"), "objectClass: person");
    assert_eq!(action_label(false, "cn", "abcdefghijklmnopqrstuvwxyz"), "cn: abcdefghijklmnopqrst…");
    assert_eq!(action_label(false, "cn", "short"), "cn: short");
}

#[test]
fn detail_viewport_leaves_room_for_names() {
    assert_eq!(detail_viewport(60, 20, 12), (18, 39));
    assert_eq!(detail_viewport(15, 1, 12), (0, 0));
    assert_eq!(detail_viewport(21, 2, 12), (0, 0));
    assert_eq!(detail_viewport(22, 3, 12), (1, 1));
}

#[test]
fn picker_title_counts_and_small_labels() {
    assert_eq!(decimal(0), "0");
    assert_eq!(decimal(7), "7");
    assert_eq!(decimal(1205), "1205");
    assert_eq!(picker_title("Add attribute", 3, 120), "Add attribute  (3 / 120)");
    assert_eq!(syntax_suffix("DN"), "  DN");
    assert_eq!(syntax_suffix(""), "");
    assert_eq!(focus_marker(true), " ▶ ");
    assert_eq!(focus_marker(false), "   ");
}
