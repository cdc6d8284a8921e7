use ldapeditor::model::TextInput;
use ldapeditor::schema::PickerEntry;
use ldapeditor::state::{pick_rdn_initial, FormField, FormFocus, FormState, PickerState, SearchState, SuffixSelection};

fn entry(name: &str, is_must: bool) -> PickerEntry {
    PickerEntry { attr_name: name.to_string(), is_must, syntax: String::new(), single_value: false }
}

fn picker(names: &[&str]) -> PickerState {
    PickerState::new(names.iter().map(|n| entry(n, false)).collect())
}

fn form(fields: &[(&str, &str)], rdn_idx: usize) -> FormState {
    FormState {
        oc_name: "person".to_string(),
        oc_chain: vec!["person".to_string(), "top".to_string()],
        fields: fields
            .iter()
            .map(|(a, v)| FormField { attr: a.to_string(), input: TextInput::with_text(v.to_string()) })
            .collect(),
        focus: FormFocus::Field(0),
        rdn_idx,
    }
}

#[test]
fn picker_starts_with_every_entry() {
    let p = picker(&["cn", "sn", "mail"]);
    assert_eq!(p.filtered, vec![0, 1, 2]);
    assert_eq!(p.selected, 0);
    assert_eq!(p.selected_entry().map(|e| e.attr_name.as_str()), Some("cn"));
}

#[test]
fn picker_filter_keeps_fuzzy_matches() {
    let mut p = picker(&["cn", "sn", "mail", "displayName"]);
    for c in "mal".chars() {
        p.insert_char(c);
    }
    assert_eq!(p.input.text(), "mal");
    assert_eq!(p.filtered, vec![2]);
    assert_eq!(p.selected_entry().map(|e| e.attr_name.as_str()), Some("mail"));
    p.insert_char('z');
    assert!(p.filtered.is_empty());
    assert!(p.selected_entry().is_none());
    p.backspace();
    assert_eq!(p.filtered, vec![2]);
}

#[test]
fn picker_filter_lists_every_match() {
    let mut p = picker(&["cn", "sn", "mail", "displayName"]);
    p.insert_char('n');
    let mut got = p.filtered.clone();
    got.sort();
    assert_eq!(got, vec![0, 1, 3]);
}

#[test]
fn picker_selection_moves_within_the_list() {
    let mut p = picker(&["a", "b", "c"]);
    p.up();
    assert_eq!(p.selected, 0);
    p.down();
    p.down();
    p.down();
    assert_eq!(p.selected, 2);
    // refiltering keeps the selection inside the shorter list
    p.insert_char('a');
    assert_eq!(p.filtered, vec![0]);
    assert_eq!(p.selected, 0);
}

#[test]
fn form_focus_cycles() {
    let mut f = form(&[("cn", ""), ("sn", "")], 0);
    f.focus_next();
    assert_eq!(f.focus, FormFocus::Field(1));
    f.focus_next();
    assert_eq!(f.focus, FormFocus::Submit);
    f.focus_next();
    assert_eq!(f.focus, FormFocus::Cancel);
    f.focus_next();
    assert_eq!(f.focus, FormFocus::Field(0));
    f.focus_prev();
    assert_eq!(f.focus, FormFocus::Cancel);
    f.focus_prev();
    assert_eq!(f.focus, FormFocus::Submit);
    f.focus_prev();
    assert_eq!(f.focus, FormFocus::Field(1));
    // next then previous comes back
    f.focus_next();
    f.focus_prev();
    assert_eq!(f.focus, FormFocus::Field(1));
}

#[test]
fn focused_input_is_the_focused_field() {
    let mut f = form(&[("cn", "a"), ("sn", "b")], 0);
    f.focus = FormFocus::Field(1);
    assert_eq!(f.focused_input_mut().map(|i| i.text().to_string()), Some("b".to_string()));
    f.focus = FormFocus::Submit;
    assert!(f.focused_input_mut().is_none());
}

#[test]
fn dn_preview_shows_the_rdn() {
    let f = form(&[("sn", "Smith"), ("cn", "John")], 1);
    assert_eq!(f.dn_preview("ou=people,dc=x"), "cn=John,ou=people,dc=x");
    let f = form(&[("cn", "")], 0);
    assert_eq!(f.dn_preview("dc=x"), "cn=<...>,dc=x");
    let f = form(&[], 0);
    assert_eq!(f.dn_preview("dc=x"), "dc=x");
}

#[test]
fn rdn_default_prefers_cn_then_ou_uid_dc() {
    let es = vec![entry("sn", true), entry("uid", false), entry("CN", true)];
    assert_eq!(pick_rdn_initial(&es), 2);
    let es = vec![entry("sn", true), entry("dc", false), entry("uid", false)];
    assert_eq!(pick_rdn_initial(&es), 2);
    let es = vec![entry("description", false), entry("ou", true)];
    assert_eq!(pick_rdn_initial(&es), 1);
    let es = vec![entry("sn", true), entry("mail", false)];
    assert_eq!(pick_rdn_initial(&es), 0);
    assert_eq!(pick_rdn_initial(&[]), 0);
}

#[test]
fn suffix_selection_moves() {
    let mut s = SuffixSelection::new(vec!["dc=a".to_string(), "dc=b".to_string()]);
    assert_eq!(s.selected().map(|x| x.as_str()), Some("dc=a"));
    s.down();
    s.down();
    assert_eq!(s.selected().map(|x| x.as_str()), Some("dc=b"));
    s.up();
    s.up();
    assert_eq!(s.selected().map(|x| x.as_str()), Some("dc=a"));
    let empty = SuffixSelection::new(Vec::new());
    assert!(empty.selected().is_none());
}

#[test]
fn search_results_selection() {
    let mut s = SearchState::new();
    assert!(s.selected_dn().is_none());
    s.set_results(vec!["cn=a".to_string(), "cn=b".to_string()]);
    assert_eq!(s.selected_dn(), Some("cn=a".to_string()));
    s.down();
    assert_eq!(s.selected_dn(), Some("cn=b".to_string()));
    s.down();
    assert_eq!(s.selected_dn(), Some("cn=b".to_string()));
    s.up();
    assert_eq!(s.selected_dn(), Some("cn=a".to_string()));
    s.set_results(Vec::new());
    assert!(s.selected_dn().is_none());
}

#[test]
fn form_focus_returns_after_fields_plus_two_tabs() {
    for start in [FormFocus::Field(0), FormFocus::Field(2), FormFocus::Submit, FormFocus::Cancel] {
        let mut f = form(&[("cn", ""), ("sn", ""), ("mail", "")], 0);
        f.focus = start;
        for _ in 0..5 {
            f.focus_next();
        }
        assert_eq!(f.focus, start);
    }
    let mut f = form(&[("cn", "")], 0);
    f.focus_next();
    f.focus_next();
    assert_eq!(f.focus, FormFocus::Cancel);
    f.focus_next();
    assert_eq!(f.focus, FormFocus::Field(0));
}
