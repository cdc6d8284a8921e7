use ldapeditor::detail::{badge_label, row_badges, split_value, DetailView, Look};
use ldapeditor::model::{LdapEntry, Selection};
use ldapeditor::schema::SchemaCache;

fn entry(ocs: &[&str], attrs: &[(&str, &str)], ops: &[(&str, &str)], attr_w: usize) -> LdapEntry {
    LdapEntry {
        dn: "cn=admin,dc=example,dc=com".to_string(),
        oc_values: ocs.iter().map(|s| s.to_string()).collect(),
        attr_rows: attrs.iter().map(|(a, v)| (a.to_string(), v.to_string())).collect(),
        op_rows: ops.iter().map(|(a, v)| (a.to_string(), v.to_string())).collect(),
        attr_w,
    }
}

fn line(parts: &[(&str, Look)]) -> Vec<(String, Look)> {
    parts.iter().map(|(s, l)| (s.to_string(), *l)).collect()
}

fn schema() -> SchemaCache {
    let attrs = vec![
        "( 2.5.4.3 NAME 'cn' SYNTAX 1.3.6.1.4.1.1466.115.121.1.15 )".to_string(),
        "( 2.5.4.4 NAME 'sn' SYNTAX 1.3.6.1.4.1.1466.115.121.1.15 SINGLE-VALUE )".to_string(),
        "( 0.9.2342.19200300.100.1.3 NAME 'mail' SYNTAX 1.3.6.1.4.1.1466.115.121.1.26 )".to_string(),
        "( 2.16.840.1.113730.3.1.241 NAME 'displayName' SYNTAX 1.3.6.1.4.1.1466.115.121.1.15 SINGLE-VALUE )"
            .to_string(),
    ];
    let ocs = vec!["( 2.5.6.6 NAME 'person' STRUCTURAL MUST ( sn $ cn ) MAY mail )".to_string()];
    SchemaCache::from_raw(&attrs, &ocs)
}

#[test]
fn content_of_a_small_entry() {
    let e = entry(&["top"], &[("cn", "admin")], &[], 8);
    let v = DetailView::default();
    let lines = v.content_lines(&e, true, None, "+ objectClass", "+ attribute", " (read-only)");
    let want = vec![
        line(&[("objectClass", Look::Header)]),
        line(&[(" top", Look::Selected)]),
        line(&[("+ objectClass", Look::Plus)]),
        Vec::new(),
        line(&[("attributes", Look::Header)]),
        line(&[("cn  ", Look::Plain), ("    ", Look::Dim), (" │ ", Look::Separator), ("admin", Look::Plain)]),
        line(&[("+ attribute", Look::Plus)]),
    ];
    assert_eq!(lines, want);
}

#[test]
fn inactive_pane_highlights_nothing() {
    let e = entry(&["top"], &[], &[], 8);
    let v = DetailView::default();
    let lines = v.content_lines(&e, false, None, "+oc", "+attr", "ro");
    assert_eq!(lines[1], line(&[(" ", Look::Dim), ("top", Look::Plain)]));
    assert_eq!(lines[2], line(&[("+oc", Look::Plus)]));
}

#[test]
fn selected_value_wraps_and_operational_rows_are_dimmed() {
    let e = entry(&["top"], &[("description", "abcdefg")], &[("entryUUID", "u-1")], 12);
    let mut v = DetailView::default();
    v.set_viewport(20, 3);
    v.row_down(&e);
    v.row_down(&e);
    assert!(matches!(v.selected(&e), Some(Selection::Attr { attr: "description", value: "abcdefg" })));
    let lines = v.content_lines(&e, true, None, "+oc", "+attr", " ro");
    // name column: 12 - 4 = 8 chars
    assert_eq!(
        lines[5],
        line(&[("descript", Look::Dim), ("    ", Look::Dim), (" │ ", Look::Separator), ("abc", Look::Selected)])
    );
    assert_eq!(
        lines[6],
        line(&[("        ", Look::Plain), ("    ", Look::Dim), ("   ", Look::Separator), ("def", Look::Selected)])
    );
    assert_eq!(
        lines[7],
        line(&[("        ", Look::Plain), ("    ", Look::Dim), ("   ", Look::Separator), ("g", Look::Selected)])
    );
    assert_eq!(lines[8], line(&[("+attr", Look::Plus)]));
    assert_eq!(lines[9], Vec::new());
    assert_eq!(lines[10], line(&[("operational", Look::Header), (" ro", Look::Dim)]));
    assert_eq!(
        lines[11],
        line(&[("entryUUI", Look::Dim), ("    ", Look::Dim), (" │ ", Look::Separator), ("u-1", Look::Dim)])
    );
    assert_eq!(lines.len(), 12);
    // with the name column selected only the name is highlighted
    v.col_left();
    let lines = v.content_lines(&e, true, None, "+oc", "+attr", " ro");
    assert_eq!(
        lines[5],
        line(&[("descript", Look::Selected), ("    ", Look::Dim), (" │ ", Look::Separator), ("abc", Look::Plain)])
    );
    assert_eq!(lines[6][3], ("def".to_string(), Look::Plain));
}

#[test]
fn plus_rows_and_operational_selection() {
    let e = entry(&["top"], &[("cn", "x")], &[("creatorsName", "cn=admin")], 8);
    let mut v = DetailView::default();
    v.row_down(&e);
    assert!(v.is_oc_plus_row(&e));
    let lines = v.content_lines(&e, true, None, "+oc", "+attr", "ro");
    assert_eq!(lines[2], line(&[("+oc", Look::Selected)]));
    v.row_down(&e);
    v.row_down(&e);
    assert!(v.is_attr_plus_row(&e));
    let lines = v.content_lines(&e, true, None, "+oc", "+attr", "ro");
    assert_eq!(lines[6], line(&[("+attr", Look::Selected)]));
    v.row_down(&e);
    assert!(v.is_op_row(&e));
    let lines = v.content_lines(&e, true, None, "+oc", "+attr", "ro");
    assert_eq!(
        lines[9],
        line(&[("crea", Look::Selected), ("    ", Look::Selected), (" │ ", Look::Separator), ("cn=admin", Look::Selected)])
    );
    // the last row stays selected
    v.row_down(&e);
    assert!(v.is_op_row(&e));
    assert_eq!(v.row(), 4);
}

#[test]
fn badges_follow_the_schema() {
    let e = entry(&["person"], &[("cn", "a"), ("sn", "b"), ("mail", "c"), ("displayName", "d")], &[], 11);
    let s = schema();
    assert_eq!(row_badges(&e, &s), vec![(true, false), (true, true), (false, false), (false, true)]);
    let v = DetailView::default();
    let lines = v.content_lines(&e, false, Some(&s), "+oc", "+attr", "ro");
    assert_eq!(lines[5][1], ("[N] ".to_string(), Look::Badge));
    assert_eq!(lines[6][1], ("[NS]".to_string(), Look::Badge));
    assert_eq!(lines[7][1], ("    ".to_string(), Look::Dim));
    assert_eq!(lines[8][1], ("[S] ".to_string(), Look::Badge));
}

#[test]
fn badge_texts() {
    assert_eq!(badge_label(true, true), "[NS]");
    assert_eq!(badge_label(true, false), "[N] ");
    assert_eq!(badge_label(false, true), "[S] ");
    assert_eq!(badge_label(false, false), "    ");
}

#[test]
fn values_split_into_column_chunks() {
    assert_eq!(split_value("abcdefg", 3), vec!["abc", "def", "g"]);
    assert_eq!(split_value("abc", 3), vec!["abc"]);
    assert_eq!(split_value("abcdef", 0), vec!["abcdef"]);
    assert_eq!(split_value("", 4), vec![""]);
    assert_eq!(split_value("日本語テキスト", 2), vec!["日本", "語テ", "キス", "ト"]);
    // rejoining gives the value back
    assert_eq!(split_value("abcdefghij", 4).concat(), "abcdefghij");
}

#[test]
fn navigation_scrolls_the_selection_into_view() {
    let attrs: Vec<(String, String)> = (0..30).map(|i| (format!("a{i}"), "v".to_string())).collect();
    let pairs: Vec<(&str, &str)> = attrs.iter().map(|(a, v)| (a.as_str(), v.as_str())).collect();
    let e = entry(&["top"], &pairs, &[], 8);
    let mut v = DetailView::default();
    v.set_viewport(5, 20);
    assert_eq!(v.nav_len(&e), 1 + 1 + 30 + 1);
    for _ in 0..10 {
        v.row_down(&e);
    }
    assert_eq!(v.row(), 10);
    // row 10 is attribute 8, shown on line 1 + 4 + 8 = 13; with 5 lines it is the last visible one
    assert_eq!(v.scroll(), 9);
    for _ in 0..10 {
        v.row_up(&e);
    }
    assert_eq!(v.row(), 0);
    assert_eq!(v.scroll(), 1);
    v.row_up(&e);
    assert_eq!(v.row(), 0);
}
