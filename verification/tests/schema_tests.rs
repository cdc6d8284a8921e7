use ldapeditor::model::LdapEntry;
use ldapeditor::schema::{build_oc_picker_entries, build_picker_entries, build_structural_oc_picker_entries, parse_attribute_type, parse_object_class, OcKind, SchemaCache};

#[test]
fn parse_attr_single_name() {
    let s = "( 2.5.4.41 NAME 'name' EQUALITY caseIgnoreMatch \
              SYNTAX 1.3.6.1.4.1.1466.115.121.1.15{32768} )";
    let at = parse_attribute_type(s).unwrap();
    assert_eq!(at.oid, "2.5.4.41");
    assert_eq!(at.names, vec!["name"]);
    assert!(!at.single_value);
    assert!(!at.is_operational);
    assert_eq!(at.syntax.as_deref(), Some("1.3.6.1.4.1.1466.115.121.1.15"));
}

#[test]
fn parse_attr_multi_name() {
    let s = "( 2.5.4.3 NAME ( 'cn' 'commonName' ) SUP name )";
    let at = parse_attribute_type(s).unwrap();
    assert_eq!(at.names, vec!["cn", "commonname"]);
    assert_eq!(at.sup.as_deref(), Some("name"));
}

#[test]
fn parse_attr_operational() {
    let s = "( 2.5.18.1 NAME 'createTimestamp' NO-USER-MODIFICATION \
              USAGE directoryOperation SYNTAX 1.3.6.1.4.1.1466.115.121.1.24 SINGLE-VALUE )";
    let at = parse_attribute_type(s).unwrap();
    assert!(at.no_user_mod);
    assert!(at.single_value);
    assert!(at.is_operational);
}

#[test]
fn parse_oc_with_must_may() {
    let s = "( 2.5.6.6 NAME 'person' SUP top STRUCTURAL \
              MUST ( sn $ cn ) \
              MAY ( userPassword $ telephoneNumber ) )";
    let oc = parse_object_class(s).unwrap();
    assert_eq!(oc.names, vec!["person"]);
    assert_eq!(oc.sup, vec!["top"]);
    assert_eq!(oc.kind, OcKind::StructuralClass);
    assert!(oc.must.contains(&"sn".to_string()));
    assert!(oc.must.contains(&"cn".to_string()));
    assert!(oc.may.contains(&"userpassword".to_string()));
}

#[test]
fn parse_attr_name_dollar_separator() {
    let s = "( 2.5.4.3 NAME ( 'cn' $ 'commonName' ) SUP name )";
    let at = parse_attribute_type(s).unwrap();
    assert!(at.names.contains(&"cn".to_string()));
    assert!(at.names.contains(&"commonname".to_string()));
}

#[test]
fn parse_attr_syntax_length_stripped() {
    let s = "( 2.5.4.4 NAME 'sn' SYNTAX 1.3.6.1.4.1.1466.115.121.1.15{32768} )";
    let at = parse_attribute_type(s).unwrap();
    assert_eq!(at.syntax.as_deref(), Some("1.3.6.1.4.1.1466.115.121.1.15"));
}

#[test]
fn parse_attr_x_extension_ignored() {
    let s = "( 1.2.3.4 NAME 'test' SYNTAX 1.3.6.1.4.1.1466.115.121.1.15 \
              X-ORDERED 'VALUES' X-NOT-HUMAN-READABLE 'TRUE' )";
    let at = parse_attribute_type(s).unwrap();
    assert_eq!(at.oid, "1.2.3.4");
}

#[test]
fn sup_chain_circular_no_infinite_loop() {
    let ocs = vec![
        "( 1.1.1 NAME 'a' SUP b STRUCTURAL )".to_string(),
        "( 1.1.2 NAME 'b' SUP a STRUCTURAL )".to_string(),
    ];
    let cache = SchemaCache::from_raw(&[], &ocs);
    let _ = cache.expanded_attrs("a");
}

fn make_entry(oc_values: Vec<&str>, attr_rows: Vec<(&str, &str)>) -> LdapEntry {
    LdapEntry {
        dn: "cn=test,dc=example,dc=com".to_string(),
        oc_values: oc_values.into_iter().map(|s| s.to_string()).collect(),
        attr_rows: attr_rows
            .into_iter()
            .map(|(a, v)| (a.to_string(), v.to_string()))
            .collect(),
        op_rows: vec![],
        attr_w: 16,
    }
}

fn make_schema_for_picker() -> SchemaCache {
    let attrs = vec![
        "( 2.5.4.0  NAME 'objectClass'   SYNTAX 1.3.6.1.4.1.1466.115.121.1.38 )".to_string(),
        "( 2.5.4.3  NAME ( 'cn' 'commonName' ) SUP name )".to_string(),
        "( 2.5.4.4  NAME 'sn'   SUP name )".to_string(),
        "( 2.5.4.41 NAME 'name' SYNTAX 1.3.6.1.4.1.1466.115.121.1.15 )".to_string(),
        "( 2.5.4.42 NAME 'givenName' SUP name )".to_string(),
        "( 2.5.18.1 NAME 'createTimestamp' SINGLE-VALUE NO-USER-MODIFICATION USAGE directoryOperation SYNTAX 1.3.6.1.4.1.1466.115.121.1.24 )".to_string(),
        "( 2.5.4.99 NAME 'uid' SINGLE-VALUE SYNTAX 1.3.6.1.4.1.1466.115.121.1.26 )".to_string(),
    ];
    let ocs = vec![
        "( 2.5.6.0 NAME 'top' ABSTRACT MUST objectClass )".to_string(),
        "( 2.5.6.6 NAME 'person' SUP top STRUCTURAL MUST ( sn $ cn ) MAY ( givenName ) )".to_string(),
    ];
    SchemaCache::from_raw(&attrs, &ocs)
}

#[test]
fn picker_entries_excludes_existing_must_attrs() {
    let cache = make_schema_for_picker();
    let entry = make_entry(vec!["person"], vec![("cn", "admin"), ("sn", "Smith")]);
    let candidates = build_picker_entries(&entry, &cache);
    let names: Vec<&str> = candidates.iter().map(|e| e.attr_name.as_str()).collect();
    assert!(!names.contains(&"cn"), "existing MUST should be excluded");
    assert!(!names.contains(&"sn"), "existing MUST should be excluded");
}

#[test]
fn picker_entries_includes_unset_must_attrs() {
    let cache = make_schema_for_picker();
    let entry = make_entry(vec!["person"], vec![("sn", "Smith")]);
    let candidates = build_picker_entries(&entry, &cache);
    let names: Vec<&str> = candidates.iter().map(|e| e.attr_name.as_str()).collect();
    assert!(names.contains(&"cn"), "unset MUST should be in the candidates");
    let cn_entry = candidates.iter().find(|e| e.attr_name == "cn").unwrap();
    assert!(cn_entry.is_must);
}

#[test]
fn picker_entries_excludes_operational_attrs() {
    let cache = make_schema_for_picker();
    let entry = make_entry(vec!["person"], vec![]);
    let candidates = build_picker_entries(&entry, &cache);
    let names: Vec<&str> = candidates.iter().map(|e| e.attr_name.as_str()).collect();
    assert!(!names.contains(&"createtimestamp"), "operational attributes should be excluded");
}

#[test]
fn picker_entries_excludes_existing_single_value() {
    let attrs = vec![
        "( 2.5.4.0  NAME 'objectClass' SYNTAX 1.3.6.1.4.1.1466.115.121.1.38 )".to_string(),
        "( 2.5.4.3  NAME 'cn'  SUP name )".to_string(),
        "( 2.5.4.4  NAME 'sn'  SUP name )".to_string(),
        "( 2.5.4.41 NAME 'name' SYNTAX 1.3.6.1.4.1.1466.115.121.1.15 )".to_string(),
        "( 2.5.4.99 NAME 'uid' SINGLE-VALUE SYNTAX 1.3.6.1.4.1.1466.115.121.1.26 )".to_string(),
    ];
    let ocs = vec![
        "( 2.5.6.0 NAME 'top' ABSTRACT MUST objectClass )".to_string(),
        "( 2.5.6.6 NAME 'person' SUP top STRUCTURAL MUST ( sn $ cn ) MAY uid )".to_string(),
    ];
    let cache2 = SchemaCache::from_raw(&attrs, &ocs);
    let entry = make_entry(vec!["person"], vec![("cn", "x"), ("sn", "y"), ("uid", "john")]);
    let candidates = build_picker_entries(&entry, &cache2);
    let names: Vec<&str> = candidates.iter().map(|e| e.attr_name.as_str()).collect();
    assert!(!names.contains(&"uid"), "existing SINGLE-VALUE should be excluded");
}

#[test]
fn sup_chain_expansion() {
    let attrs = vec![
        "( 2.5.4.0 NAME 'objectClass' SYNTAX 1.3.6.1.4.1.1466.115.121.1.38 )".to_string(),
        "( 2.5.4.4 NAME 'sn' SUP name )".to_string(),
        "( 2.5.4.3 NAME ( 'cn' 'commonName' ) SUP name )".to_string(),
    ];
    let ocs = vec![
        "( 2.5.6.0 NAME 'top' ABSTRACT MUST objectClass )".to_string(),
        "( 2.5.6.6 NAME 'person' SUP top STRUCTURAL MUST ( sn $ cn ) MAY userPassword )".to_string(),
        "( 2.5.6.7 NAME 'organizationalPerson' SUP person STRUCTURAL MAY title )".to_string(),
    ];
    let cache = SchemaCache::from_raw(&attrs, &ocs);
    let (must, may) = cache.expanded_attrs("organizationalPerson");
    assert!(must.contains(&"objectclass".to_string()));
    assert!(must.contains(&"sn".to_string()));
    assert!(must.contains(&"cn".to_string()));
    assert!(may.contains(&"userpassword".to_string()));
    assert!(may.contains(&"title".to_string()));
}

#[test]
fn later_definition_wins_for_shared_keys() {
    let attrs = vec![
        "( 1.1.1 NAME ( 'alpha' 'shared' ) SYNTAX 1.3.6.1.4.1.1466.115.121.1.15 )".to_string(),
        "not a definition".to_string(),
        "( 1.1.2 NAME 'shared' SINGLE-VALUE )".to_string(),
    ];
    let ocs = vec![
        "( 2.2.1 NAME ( 'first' 'common' ) STRUCTURAL )".to_string(),
        "( 2.2.2 NAME 'Common' AUXILIARY )".to_string(),
    ];
    let cache = SchemaCache::from_raw(&attrs, &ocs);
    assert_eq!(cache.attr_type("shared").map(|a| a.oid.as_str()), Some("1.1.2"));
    assert!(cache.attr_type("SHARED").unwrap().single_value);
    assert_eq!(cache.attr_type("alpha").map(|a| a.oid.as_str()), Some("1.1.1"));
    assert_eq!(cache.attr_type("1.1.1").map(|a| a.oid.as_str()), Some("1.1.1"));
    assert!(cache.attr_type("not").is_none());
    assert_eq!(cache.object_class("common").map(|o| o.oid.as_str()), Some("2.2.2"));
    assert_eq!(cache.object_class("first").map(|o| o.oid.as_str()), Some("2.2.1"));
    assert_eq!(cache.attr_count(), 2);
}

#[test]
fn oc_picker_lists_each_class_once() {
    let ocs = vec![
        "( 2.5.6.0 NAME 'top' ABSTRACT MUST objectClass )".to_string(),
        "( 2.5.6.6 NAME ( 'person' 'human' ) SUP top STRUCTURAL MUST ( sn $ cn ) )".to_string(),
        "( 1.3.6.1.1.1.2.0 NAME ( 'posixAccount' 'posix' ) SUP top AUXILIARY )".to_string(),
        "( 2.5.6.7 NAME 'organizationalPerson' SUP person STRUCTURAL )".to_string(),
    ];
    let cache = SchemaCache::from_raw(&[], &ocs);
    let entry = make_entry(vec!["organizationalPerson"], vec![]);
    let names: Vec<(String, bool)> =
        build_oc_picker_entries(&entry, &cache).iter().map(|e| (e.attr_name.clone(), e.is_must)).collect();
    assert_eq!(names, vec![("person".to_string(), true), ("posixaccount".to_string(), false)]);
    let structural: Vec<String> = build_structural_oc_picker_entries(&cache).iter().map(|e| e.attr_name.clone()).collect();
    assert_eq!(structural, vec!["organizationalperson".to_string(), "person".to_string()]);
}

#[test]
fn expanded_names_are_lowercased_and_sorted() {
    let ocs = vec![
        "( 2.5.6.0 NAME 'top' ABSTRACT MUST objectClass )".to_string(),
        "( 2.5.6.6 NAME 'Person' SUP TOP STRUCTURAL MUST ( SN $ CN ) MAY ( userPassword $ CN ) )".to_string(),
    ];
    let cache = SchemaCache::from_raw(&[], &ocs);
    let (must, may) = cache.expanded_attrs("PERSON");
    assert_eq!(must, vec!["cn".to_string(), "objectclass".to_string(), "sn".to_string()]);
    assert_eq!(may, vec!["cn".to_string(), "userpassword".to_string()]);
}
