use ldapeditor::actions::{
    add_value_mods, create_child_request, delete_value_mods, edit_value_mods, missing_must_attrs, normalize_filter,
    oc_add_mods, oc_delete_mods, ModOp,
};
use ldapeditor::model::{LdapEntry, TextInput};
use ldapeditor::schema::SchemaCache;
use ldapeditor::state::{FormField, FormFocus, FormState};

fn show(m: &[ModOp]) -> Vec<(char, String, Vec<String>)> {
    m.iter()
        .map(|op| match op {
            ModOp::Add(a, v) => ('+', a.clone(), v.clone()),
            ModOp::Delete(a, v) => ('-', a.clone(), v.clone()),
        })
        .collect()
}

fn s(x: &str) -> String {
    x.to_string()
}

#[test]
fn value_modifications() {
    assert_eq!(
        show(&edit_value_mods(&s("cn"), &s("old"), s("new"))),
        vec![('-', s("cn"), vec![s("old")]), ('+', s("cn"), vec![s("new")])]
    );
    assert_eq!(show(&add_value_mods(&s("mail"), s("a@x"))), vec![('+', s("mail"), vec![s("a@x")])]);
    assert_eq!(show(&delete_value_mods(&s("mail"), &s("a@x"))), vec![('-', s("mail"), vec![s("a@x")])]);
    assert_eq!(show(&oc_add_mods(&s("person"))), vec![('+', s("objectClass"), vec![s("person")])]);
}

#[test]
fn object_class_removal_takes_its_attributes_along() {
    let orphaned = vec![(s("carLicense"), s("A")), (s("displayName"), s("D")), (s("carLicense"), s("B"))];
    let m = show(&oc_delete_mods(&s("inetOrgPerson"), &orphaned));
    assert_eq!(m[0], ('-', s("objectClass"), vec![s("inetOrgPerson")]));
    assert_eq!(m.len(), 3);
    let mut rest: Vec<(String, Vec<String>)> = m[1..].iter().map(|(_, a, v)| (a.clone(), v.clone())).collect();
    rest.sort();
    assert_eq!(rest, vec![(s("carLicense"), Vec::new()), (s("displayName"), Vec::new())]);
}

#[test]
fn filters_are_trimmed_and_unquoted() {
    assert_eq!(normalize_filter("  (cn=a)  "), "(cn=a)");
    assert_eq!(normalize_filter("'(cn=a)'"), "(cn=a)");
    // only single quotes are stripped
    assert_eq!(normalize_filter("\"(cn=a)\""), "\"(cn=a)\"");
    assert_eq!(normalize_filter(" ' (cn=a) ' "), "(cn=a)");
    assert_eq!(normalize_filter("   "), "");
}

#[test]
fn missing_must_attributes_of_a_new_class() {
    let attrs = vec![
        s("( 2.5.4.0 NAME 'objectClass' SYNTAX 1.3.6.1.4.1.1466.115.121.1.38 )"),
        s("( 2.5.4.3 NAME 'cn' SYNTAX 1.3.6.1.4.1.1466.115.121.1.15 )"),
        s("( 2.5.4.4 NAME 'sn' SYNTAX 1.3.6.1.4.1.1466.115.121.1.15 )"),
        s("( 2.5.4.11 NAME 'ou' SYNTAX 1.3.6.1.4.1.1466.115.121.1.15 )"),
    ];
    let ocs = vec![
        s("( 2.5.6.0 NAME 'top' ABSTRACT MUST objectClass )"),
        s("( 2.5.6.6 NAME 'person' SUP top STRUCTURAL MUST ( sn $ cn ) )"),
        s("( 9.9 NAME 'unit' SUP top AUXILIARY MUST ou )"),
    ];
    let cache = SchemaCache::from_raw(&attrs, &ocs);
    let e = LdapEntry {
        dn: s("cn=a,dc=x"),
        oc_values: vec![s("top")],
        attr_rows: vec![(s("CN"), s("a"))],
        op_rows: Vec::new(),
        attr_w: 8,
    };
    assert_eq!(missing_must_attrs(&e, &cache, "person"), vec![s("sn")]);
    assert_eq!(missing_must_attrs(&e, &cache, "unit"), vec![s("ou")]);
    assert!(missing_must_attrs(&e, &cache, "nosuch").is_empty());
}

fn form(fields: &[(&str, &str)], rdn_idx: usize) -> FormState {
    FormState {
        oc_name: s("person"),
        oc_chain: vec![s("person"), s("top"), s("person")],
        fields: fields.iter().map(|(a, v)| FormField { attr: s(a), input: TextInput::with_text(s(v)) }).collect(),
        focus: FormFocus::Submit,
        rdn_idx,
    }
}

#[test]
fn create_request_needs_every_field() {
    let f = form(&[("sn", "Smith"), ("cn", "  ")], 1);
    match create_child_request(&f, "dc=x") {
        Err(attr) => assert_eq!(attr, "cn"),
        Ok(_) => panic!("a blank field must be refused"),
    }
}

#[test]
fn create_request_builds_dn_and_attributes() {
    let f = form(&[("sn", " Smith "), ("cn", "John")], 1);
    let req = match create_child_request(&f, "ou=people,dc=x") {
        Ok(r) => r,
        Err(a) => panic!("unexpected blank field {a}"),
    };
    assert_eq!(req.dn, "cn=John,ou=people,dc=x");
    assert_eq!(req.attrs.len(), 3);
    assert_eq!(req.attrs[0].0, "objectClass");
    let mut ocs = req.attrs[0].1.clone();
    ocs.sort();
    assert_eq!(ocs, vec![s("person"), s("top")]);
    assert_eq!(req.attrs[1], (s("sn"), vec![s("Smith")]));
    assert_eq!(req.attrs[2], (s("cn"), vec![s("John")]));
}
