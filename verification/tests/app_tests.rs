use ldapeditor::actions::ModOp;
use ldapeditor::app::{App, Outcome, Request, Status};
use ldapeditor::keys::{KeyCode, KeyEvent, KeyModifiers};
use ldapeditor::model::{LdapEntry, Pane};
use ldapeditor::state::Mode;
use ldapeditor::tree::ChildNode;

fn key(code: KeyCode) -> KeyEvent {
    KeyEvent { code, modifiers: KeyModifiers::NoModifier }
}

fn ch(c: char) -> KeyEvent {
    key(KeyCode::Char(c))
}

fn entry(dn: &str) -> LdapEntry {
    LdapEntry {
        dn: dn.to_string(),
        oc_values: vec!["top".to_string()],
        attr_rows: vec![("cn".to_string(), "admin".to_string())],
        op_rows: Vec::new(),
        attr_w: 8,
    }
}

fn browsing() -> App {
    let children = vec![
        ChildNode { dn: "ou=people,dc=x".to_string(), has_children: true },
        ChildNode { dn: "cn=admin,dc=x".to_string(), has_children: false },
    ];
    let (app, req) = App::start_browsing("ldap://h".to_string(), "dc=x".to_string(), children);
    assert!(matches!(req, Some(Request::FetchEntry(ref dn)) if dn == "dc=x"));
    app
}

#[test]
fn start_fetches_the_base_entry() {
    let app = browsing();
    assert!(matches!(app.status, Status::Connected(ref u) if u == "ldap://h"));
    assert!(matches!(app.mode, Mode::Browse));
    assert_eq!(app.active_pane, Pane::Tree);
    assert_eq!(app.browse.as_ref().map(|t| t.cursor()), Some(0));
}

#[test]
fn fetched_entry_is_shown_then_schema_is_loaded() {
    let mut app = browsing();
    let next = app.on_outcome(Outcome::Entry(Some(Ok(entry("dc=x")))));
    assert!(matches!(next, Some(Request::FetchSchema)));
    assert_eq!(app.current_entry.as_ref().map(|e| e.dn.as_str()), Some("dc=x"));
}

#[test]
fn quit_key_stops() {
    let mut app = browsing();
    let (cont, req) = app.handle_key(ch('q'));
    assert!(!cont);
    assert!(req.is_none());
}

#[test]
fn tab_switches_panes() {
    let mut app = browsing();
    let (cont, req) = app.handle_key(key(KeyCode::Tab));
    assert!(cont);
    assert!(req.is_none());
    assert_eq!(app.active_pane, Pane::Detail);
    app.handle_key(key(KeyCode::Tab));
    assert_eq!(app.active_pane, Pane::Tree);
}

#[test]
fn moving_down_fetches_the_next_entry() {
    let mut app = browsing();
    let (cont, req) = app.handle_key(key(KeyCode::Down));
    assert!(cont);
    assert!(matches!(req, Some(Request::FetchEntry(ref dn)) if dn == "ou=people,dc=x"));
    assert_eq!(app.browse.as_ref().map(|t| t.cursor()), Some(1));
    let (_, req) = app.handle_key(ch('j'));
    assert!(matches!(req, Some(Request::FetchEntry(ref dn)) if dn == "cn=admin,dc=x"));
}

#[test]
fn search_runs_under_the_base_dn() {
    let mut app = browsing();
    app.handle_key(ch('/'));
    assert!(matches!(app.mode, Mode::SearchInput));
    for c in " '(cn=a*)' ".chars() {
        app.handle_key(ch(c));
    }
    let (cont, req) = app.handle_key(key(KeyCode::Enter));
    assert!(cont);
    match req {
        Some(Request::Search(base, filter)) => {
            assert_eq!(base, "dc=x");
            assert_eq!(filter, "(cn=a*)");
        },
        _ => panic!("expected a search request"),
    }
    let next = app.on_outcome(Outcome::Search(Some(Ok(vec!["cn=a,dc=x".to_string()]))));
    assert!(matches!(app.mode, Mode::SearchResults));
    assert!(matches!(next, Some(Request::FetchEntry(ref dn)) if dn == "cn=a,dc=x"));
}

#[test]
fn empty_search_returns_to_browsing() {
    let mut app = browsing();
    app.handle_key(ch('/'));
    let (_, req) = app.handle_key(key(KeyCode::Enter));
    assert!(req.is_none());
    assert!(matches!(app.mode, Mode::Browse));
}

#[test]
fn connection_failure_shows_the_error() {
    let app = App::error_state("ldap://h".to_string(), "Error: refused".to_string());
    assert!(matches!(app.status, Status::ConnectionFailed(ref u) if u == "ldap://h"));
    assert_eq!(app.browse.as_ref().map(|t| t.root().dn.clone()), Some("Error: refused".to_string()));
}

#[test]
fn selecting_a_naming_context() {
    let mut app = App::start_selecting("ldap://h".to_string(), vec!["dc=a".to_string(), "dc=b".to_string()]);
    assert!(matches!(app.mode, Mode::SelectSuffix(_)));
    app.handle_key(key(KeyCode::Down));
    let (cont, req) = app.handle_key(key(KeyCode::Enter));
    assert!(cont);
    assert!(matches!(req, Some(Request::Children(ref dn)) if dn == "dc=b"));
}

fn loaded() -> App {
    let mut app = browsing();
    let next = app.on_outcome(Outcome::Entry(Some(Ok(entry("dc=x")))));
    assert!(matches!(next, Some(Request::FetchSchema)));
    let next = app.on_outcome(Outcome::Schema(Some(Err("no schema".to_string()))));
    assert!(next.is_none());
    assert!(matches!(app.status, Status::SchemaError(_, ref e) if e == "no schema"));
    app
}

#[test]
fn editing_a_value_sends_delete_then_add() {
    let mut app = loaded();
    app.handle_key(key(KeyCode::Tab));
    // row 0 is the objectClass value: it cannot be edited
    let (_, req) = app.handle_key(ch('e'));
    assert!(req.is_none());
    assert!(matches!(app.status, Status::OcDeleteOnly));
    assert!(matches!(app.mode, Mode::Browse));
    app.handle_key(key(KeyCode::Down));
    app.handle_key(key(KeyCode::Down));
    app.handle_key(ch('e'));
    match &app.mode {
        Mode::EditValue(es) => {
            assert_eq!(es.attr, "cn");
            assert_eq!(es.input.text(), "admin");
        },
        _ => panic!("expected the value editor"),
    }
    app.handle_key(ch('2'));
    let (_, req) = app.handle_key(key(KeyCode::Enter));
    match req {
        Some(Request::Modify(dn, mods)) => {
            assert_eq!(dn, "dc=x");
            assert_eq!(mods.len(), 2);
            assert!(matches!(&mods[0], ModOp::Delete(a, v) if a == "cn" && v == &vec!["admin".to_string()]));
            assert!(matches!(&mods[1], ModOp::Add(a, v) if a == "cn" && v == &vec!["admin2".to_string()]));
        },
        _ => panic!("expected a modification"),
    }
    let next = app.on_outcome(Outcome::Modify(Some(Ok(()))));
    assert!(matches!(app.status, Status::Modified(ref a) if a == "cn"));
    assert!(matches!(next, Some(Request::FetchEntry(ref dn)) if dn == "dc=x"));
}

#[test]
fn escape_cancels_an_edit() {
    let mut app = loaded();
    app.handle_key(key(KeyCode::Tab));
    app.handle_key(key(KeyCode::Down));
    app.handle_key(key(KeyCode::Down));
    app.handle_key(ch('e'));
    let (cont, req) = app.handle_key(key(KeyCode::Esc));
    assert!(cont);
    assert!(req.is_none());
    assert!(matches!(app.mode, Mode::Browse));
}

#[test]
fn expanding_lists_the_children() {
    let mut app = loaded();
    app.handle_key(key(KeyCode::Down));
    let next = app.on_outcome(Outcome::Entry(Some(Ok(entry("ou=people,dc=x")))));
    assert!(next.is_none());
    let (_, req) = app.handle_key(key(KeyCode::Right));
    assert!(matches!(req, Some(Request::Children(ref dn)) if dn == "ou=people,dc=x"));
    let kids = vec![ChildNode { dn: "uid=a,ou=people,dc=x".to_string(), has_children: false }];
    let next = app.on_outcome(Outcome::Children(Some(Ok(kids))));
    assert!(next.is_none());
    assert_eq!(app.browse.as_ref().map(|t| t.flat().len()), Some(4));
    // ← on the expanded node collapses it again
    app.handle_key(key(KeyCode::Left));
    assert_eq!(app.browse.as_ref().map(|t| t.flat().len()), Some(3));
}

#[test]
fn many_children_ask_before_expanding() {
    let mut app = loaded();
    app.handle_key(key(KeyCode::Down));
    app.on_outcome(Outcome::Entry(Some(Ok(entry("ou=people,dc=x")))));
    app.handle_key(key(KeyCode::Right));
    let kids: Vec<ChildNode> =
        (0..101).map(|i| ChildNode { dn: format!("uid={i},ou=people,dc=x"), has_children: false }).collect();
    app.on_outcome(Outcome::Children(Some(Ok(kids))));
    assert!(matches!(app.mode, Mode::ConfirmExpand(_)));
    assert!(matches!(app.status, Status::ExpandConfirm(101)));
    app.handle_key(ch('y'));
    assert!(matches!(app.mode, Mode::Browse));
    assert_eq!(app.browse.as_ref().map(|t| t.flat().len()), Some(3 + 101));
}

#[test]
fn reload_refetches_the_selected_entry() {
    let mut app = loaded();
    let (_, req) = app.handle_key(KeyEvent { code: KeyCode::Char('r'), modifiers: KeyModifiers::ControlOnly });
    assert!(matches!(req, Some(Request::FetchEntry(ref dn)) if dn == "dc=x"));
    assert!(app.current_entry.is_none());
    app.on_outcome(Outcome::Entry(Some(Ok(entry("dc=x")))));
    let (_, req) = app.handle_key(key(KeyCode::F(5)));
    assert!(matches!(req, Some(Request::FetchEntry(ref dn)) if dn == "dc=x"));
}

#[test]
fn the_base_entry_cannot_be_deleted() {
    let mut app = loaded();
    let (_, req) = app.handle_key(ch('d'));
    assert!(req.is_none());
    assert!(matches!(app.status, Status::RootUndeletable));
    app.handle_key(key(KeyCode::Down));
    app.handle_key(ch('j'));
    let (_, req) = app.handle_key(ch('d'));
    assert!(req.is_none());
    match &app.mode {
        Mode::ConfirmEntryDelete(st) => {
            assert_eq!(st.dn, "cn=admin,dc=x");
            assert!(!st.has_children);
        },
        _ => panic!("expected the delete confirmation"),
    }
    let (_, req) = app.handle_key(ch('y'));
    assert!(matches!(req, Some(Request::Delete(ref dn)) if dn == "cn=admin,dc=x"));
}

fn person_schema() -> ldapeditor::schema::SchemaCache {
    let attrs = vec![
        "( 2.5.4.0 NAME 'objectClass' SYNTAX 1.3.6.1.4.1.1466.115.121.1.38 )".to_string(),
        "( 2.5.4.3 NAME 'cn' SYNTAX 1.3.6.1.4.1.1466.115.121.1.15 )".to_string(),
        "( 2.5.4.4 NAME 'sn' SYNTAX 1.3.6.1.4.1.1466.115.121.1.15 )".to_string(),
        "( 2.5.4.20 NAME 'telephoneNumber' SYNTAX 1.3.6.1.4.1.1466.115.121.1.50 )".to_string(),
    ];
    let ocs = vec![
        "( 2.5.6.0 NAME 'top' ABSTRACT MUST objectClass )".to_string(),
        "( 2.5.6.6 NAME 'person' SUP top STRUCTURAL MUST ( sn $ cn ) MAY telephoneNumber )".to_string(),
    ];
    ldapeditor::schema::SchemaCache::from_raw(&attrs, &ocs)
}

#[test]
fn adding_a_class_prompts_for_its_missing_must_attributes() {
    let mut app = browsing();
    app.on_outcome(Outcome::Entry(Some(Ok(entry("dc=x")))));
    let next = app.on_outcome(Outcome::Schema(Some(Ok(person_schema()))));
    assert!(next.is_none());
    assert!(matches!(app.status, Status::SchemaSummary(_, 4, 2)));
    app.handle_key(key(KeyCode::Tab));
    app.handle_key(key(KeyCode::Down));
    app.handle_key(ch('a'));
    match &app.mode {
        Mode::OcPicker(p) => {
            let names: Vec<&str> = p.entries.iter().map(|e| e.attr_name.as_str()).collect();
            assert_eq!(names, vec!["person"]);
        },
        _ => panic!("expected the objectClass picker"),
    }
    for c in "pers".chars() {
        app.handle_key(ch(c));
    }
    let (_, req) = app.handle_key(key(KeyCode::Enter));
    match req {
        Some(Request::Modify(dn, mods)) => {
            assert_eq!(dn, "dc=x");
            assert_eq!(mods.len(), 1);
            assert!(matches!(&mods[0], ModOp::Add(a, v) if a == "objectClass" && v == &vec!["person".to_string()]));
        },
        _ => panic!("expected the objectClass to be added"),
    }
    let next = app.on_outcome(Outcome::Modify(Some(Ok(()))));
    assert!(matches!(next, Some(Request::FetchEntry(ref dn)) if dn == "dc=x"));
    let mut refreshed = entry("dc=x");
    refreshed.oc_values = vec!["person".to_string(), "top".to_string()];
    let next = app.on_outcome(Outcome::Entry(Some(Ok(refreshed))));
    assert!(next.is_none());
    match &app.mode {
        Mode::AddValue(es) => assert_eq!(es.attr, "sn"),
        _ => panic!("expected a prompt for the missing MUST attribute"),
    }
    assert!(matches!(app.status, Status::InputMustAttr(ref a) if a == "sn"));
}

#[test]
fn deleting_a_class_removes_the_attributes_only_it_allowed() {
    let mut app = browsing();
    let mut e = entry("dc=x");
    e.oc_values = vec!["person".to_string(), "top".to_string()];
    e.attr_rows = vec![
        ("cn".to_string(), "admin".to_string()),
        ("sn".to_string(), "S".to_string()),
        ("telephoneNumber".to_string(), "1".to_string()),
    ];
    app.on_outcome(Outcome::Entry(Some(Ok(e))));
    app.on_outcome(Outcome::Schema(Some(Ok(person_schema()))));
    app.handle_key(key(KeyCode::Tab));
    app.handle_key(ch('d'));
    match &app.mode {
        Mode::ConfirmOcDelete(st) => {
            assert_eq!(st.oc_name, "person");
            let names: Vec<&str> = st.orphaned.iter().map(|(a, _)| a.as_str()).collect();
            assert_eq!(names, vec!["cn", "sn", "telephoneNumber"]);
        },
        _ => panic!("expected the objectClass deletion dialog"),
    }
    let (_, req) = app.handle_key(ch('y'));
    match req {
        Some(Request::Modify(dn, mods)) => {
            assert_eq!(dn, "dc=x");
            assert_eq!(mods.len(), 4);
            assert!(matches!(&mods[0], ModOp::Delete(a, v) if a == "objectClass" && v == &vec!["person".to_string()]));
            assert!(matches!(&mods[3], ModOp::Delete(a, v) if a == "telephoneNumber" && v.is_empty()));
        },
        _ => panic!("expected the objectClass deletion"),
    }
}

#[test]
fn creating_a_child_entry_through_the_wizard() {
    let mut app = browsing();
    app.on_outcome(Outcome::Entry(Some(Ok(entry("dc=x")))));
    app.on_outcome(Outcome::Schema(Some(Ok(person_schema()))));
    let (_, req) = app.handle_key(ch('a'));
    assert!(req.is_none());
    match &app.mode {
        Mode::CreateChild(st) => assert_eq!(st.parent_dn, "dc=x"),
        _ => panic!("expected the creation wizard"),
    }
    // the only structural class is "person"; its RDN defaults to cn
    app.handle_key(key(KeyCode::Enter));
    app.handle_key(key(KeyCode::Enter));
    match &app.mode {
        Mode::CreateChild(st) => match &st.phase {
            ldapeditor::state::CreatePhase::Form(form) => {
                let names: Vec<&str> = form.fields.iter().map(|f| f.attr.as_str()).collect();
                assert_eq!(names, vec!["cn", "sn"]);
                assert_eq!(form.rdn_idx, 0);
            },
            _ => panic!("expected the form"),
        },
        _ => panic!("expected the creation wizard"),
    }
    for c in "bob".chars() {
        app.handle_key(ch(c));
    }
    app.handle_key(key(KeyCode::Enter));
    for c in "Builder".chars() {
        app.handle_key(ch(c));
    }
    app.handle_key(key(KeyCode::Enter));
    let (_, req) = app.handle_key(key(KeyCode::Enter));
    match req {
        Some(Request::Add(add)) => {
            assert_eq!(add.dn, "cn=bob,dc=x");
            assert_eq!(add.attrs[1], ("cn".to_string(), vec!["bob".to_string()]));
            assert_eq!(add.attrs[2], ("sn".to_string(), vec!["Builder".to_string()]));
            let mut ocs = add.attrs[0].1.clone();
            ocs.sort();
            assert_eq!(ocs, vec!["person".to_string(), "top".to_string()]);
        },
        _ => panic!("expected the new entry to be sent"),
    }
}

#[test]
fn submitting_with_an_empty_field_is_refused() {
    let mut app = browsing();
    app.on_outcome(Outcome::Entry(Some(Ok(entry("dc=x")))));
    app.on_outcome(Outcome::Schema(Some(Ok(person_schema()))));
    app.handle_key(ch('a'));
    app.handle_key(key(KeyCode::Enter));
    app.handle_key(key(KeyCode::Enter));
    app.handle_key(ch('x'));
    app.handle_key(key(KeyCode::Enter));
    app.handle_key(key(KeyCode::Enter));
    let (_, req) = app.handle_key(key(KeyCode::Enter));
    assert!(req.is_none());
    assert!(matches!(app.status, Status::FieldEmpty(ref f) if f == "sn"));
    assert!(matches!(app.mode, Mode::CreateChild(_)));
}

#[test]
fn operational_values_are_read_only() {
    let mut app = browsing();
    let mut e = entry("dc=x");
    e.op_rows = vec![("entryUUID".to_string(), "u-1".to_string())];
    app.on_outcome(Outcome::Entry(Some(Ok(e))));
    app.on_outcome(Outcome::Schema(Some(Err("none".to_string()))));
    app.handle_key(key(KeyCode::Tab));
    for _ in 0..4 {
        app.handle_key(key(KeyCode::Down));
    }
    for c in ['e', 'a', 'd'] {
        let (cont, req) = app.handle_key(ch(c));
        assert!(cont);
        assert!(req.is_none());
        assert!(matches!(app.status, Status::OpReadonly));
        assert!(matches!(app.mode, Mode::Browse));
    }
}

#[test]
fn object_class_values_can_only_be_deleted() {
    let mut app = loaded();
    app.handle_key(key(KeyCode::Tab));
    let (_, req) = app.handle_key(ch('a'));
    assert!(req.is_none());
    assert!(matches!(app.status, Status::OcDeleteOnly));
    assert!(matches!(app.mode, Mode::Browse));
    app.handle_key(ch('d'));
    assert!(matches!(app.mode, Mode::ConfirmOcDelete(_)));
}
