use ldapeditor::schema::{parse_attribute_type, parse_object_class, OcKind, SchemaCache};

#[test]
fn keywords_are_matched_in_any_case() {
    let at = parse_attribute_type("( 1.2.3 name 'Foo' single-value usage dSAOperation )").unwrap();
    assert_eq!(at.names, vec!["foo"]);
    assert!(at.single_value);
    assert!(at.is_operational);
    let oc = parse_object_class("( 1.2.4 name 'Bar' auxiliary must ( a $ B ) )").unwrap();
    assert_eq!(oc.names, vec!["bar"]);
    assert_eq!(oc.kind, OcKind::Auxiliary);
    assert_eq!(oc.must, vec!["a", "b"]);
}

#[test]
fn a_definition_without_name_is_named_by_its_oid() {
    let at = parse_attribute_type("( 1.2.840.113556.1.4.X SYNTAX 1.3.6.1.4.1.1466.115.121.1.15 )").unwrap();
    assert_eq!(at.names, vec!["1.2.840.113556.1.4.x"]);
}

#[test]
fn malformed_definitions_are_rejected() {
    assert!(parse_attribute_type("").is_none());
    assert!(parse_attribute_type("2.5.4.3 NAME 'cn'").is_none());
    assert!(parse_object_class("( )").is_none());
}

#[test]
fn extensions_and_descriptions_are_skipped() {
    let oc = parse_object_class(
        "( 2.5.6.6 NAME 'person' DESC 'RFC 4519: a (human) person' SUP top STRUCTURAL \
         MUST ( sn $ cn ) X-ORIGIN 'RFC 4519' MAY description )",
    )
    .unwrap();
    assert_eq!(oc.sup, vec!["top"]);
    assert_eq!(oc.must, vec!["sn", "cn"]);
    assert_eq!(oc.may, vec!["description"]);
    assert_eq!(oc.kind, OcKind::StructuralClass);
}

#[test]
fn schema_lookups_ignore_case() {
    let attrs = vec!["( 2.5.4.3 NAME ( 'cn' 'commonName' ) SINGLE-VALUE )".to_string()];
    let ocs = vec!["( 2.5.6.6 NAME 'person' STRUCTURAL MUST cn )".to_string()];
    let cache = SchemaCache::from_raw(&attrs, &ocs);
    assert!(cache.attr_type("CommonName").map(|a| a.single_value).unwrap_or(false));
    assert!(cache.object_class("PERSON").is_some());
    assert_eq!(cache.attr_count(), 1);
    assert_eq!(cache.oc_count(), 1);
    let (must, may) = cache.expanded_attrs("Person");
    assert_eq!(must, vec!["cn"]);
    assert!(may.is_empty());
    assert_eq!(SchemaCache::syntax_label("1.3.6.1.4.1.1466.115.121.1.15"), "DirectoryString");
}

#[test]
fn sup_chain_keeps_the_names_as_written() {
    let ocs = vec![
        "( 2.5.6.0 NAME 'top' ABSTRACT )".to_string(),
        "( 2.5.6.6 NAME 'person' SUP top STRUCTURAL )".to_string(),
        "( 2.5.6.7 NAME 'organizationalPerson' SUP person STRUCTURAL )".to_string(),
        "( 9.9.9 SUP top AUXILIARY )".to_string(),
        "( 9.9.8 NAME ( 'extraClass' 'xc' ) SUP ( organizationalperson $ 9.9.9 ) )".to_string(),
    ];
    let cache = SchemaCache::from_raw(&[], &ocs);
    assert_eq!(cache.oc_sup_chain("organizationalPerson"), vec!["organizationalPerson", "person", "top"]);
    assert_eq!(cache.oc_sup_chain("XC"), vec!["extraClass", "organizationalPerson", "person", "top", "9.9.9"]);
    let oc = parse_object_class("( 9.9.8 NAME ( 'extraClass' 'xc' ) )").unwrap();
    assert_eq!(oc.first_name, "extraClass");
    assert_eq!(oc.names, vec!["extraclass", "xc"]);
    let no_name = parse_object_class("( 1.2.AB AUXILIARY )").unwrap();
    assert_eq!(no_name.first_name, "1.2.ab");
}

#[test]
fn one_listed_class_per_oid() {
    let ocs = vec![
        "( 2.5.6.0 NAME 'top' ABSTRACT )".to_string(),
        "( 2.5.6.6 NAME ( 'person' 'human' ) SUP top STRUCTURAL )".to_string(),
        "( 2.5.6.7 NAME 'organizationalPerson' SUP person STRUCTURAL )".to_string(),
    ];
    let cache = SchemaCache::from_raw(&[], &ocs);
    let listed = cache.unique_object_classes();
    assert_eq!(listed.len(), cache.oc_count());
    assert_eq!(listed.len(), 3);
}
