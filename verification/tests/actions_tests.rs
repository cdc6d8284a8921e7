use ldapeditor::actions::orphaned_attrs_for_oc_delete;
use ldapeditor::schema::SchemaCache;

fn make_schema() -> SchemaCache {
    let attrs = vec![
        "( 2.5.4.0  NAME 'objectClass' SYNTAX 1.3.6.1.4.1.1466.115.121.1.38 )".to_string(),
        "( 2.5.4.3  NAME 'cn'  SUP name )".to_string(),
        "( 2.5.4.4  NAME 'sn'  SUP name )".to_string(),
        "( 2.5.4.41 NAME 'name' SYNTAX 1.3.6.1.4.1.1466.115.121.1.15 )".to_string(),
        "( 2.5.4.99 NAME 'carLicense' SYNTAX 1.3.6.1.4.1.1466.115.121.1.15 )".to_string(),
        "( 2.5.4.98 NAME 'displayName' SYNTAX 1.3.6.1.4.1.1466.115.121.1.15 )".to_string(),
    ];
    let ocs = vec![
        "( 2.5.6.0 NAME 'top' ABSTRACT MUST objectClass )".to_string(),
        "( 2.5.6.6 NAME 'person' SUP top STRUCTURAL MUST ( sn $ cn ) )".to_string(),
        "( 2.16.840.1.113730.3.2.2 NAME 'inetOrgPerson' SUP person STRUCTURAL MAY ( carLicense $ displayName ) )".to_string(),
    ];
    SchemaCache::from_raw(&attrs, &ocs)
}

fn rows(pairs: &[(&str, &str)]) -> Vec<(String, String)> {
    pairs.iter().map(|(a, v)| (a.to_string(), v.to_string())).collect()
}

#[test]
fn orphaned_attrs_removes_oc_exclusive_attrs() {
    let schema = make_schema();
    let oc_values = vec!["person".to_string(), "inetOrgPerson".to_string()];
    let attr_rows = rows(&[("cn", "admin"), ("sn", "Smith"), ("carLicense", "ABC"), ("displayName", "Admin")]);
    let orphaned = orphaned_attrs_for_oc_delete(&attr_rows, &oc_values, "inetOrgPerson", &schema);
    let orphaned_names: Vec<&str> = orphaned.iter().map(|(a, _)| a.as_str()).collect();
    assert!(orphaned_names.contains(&"carLicense"));
    assert!(orphaned_names.contains(&"displayName"));
    assert!(!orphaned_names.contains(&"cn"));
    assert!(!orphaned_names.contains(&"sn"));
}

#[test]
fn orphaned_attrs_empty_when_shared_attrs() {
    let schema = make_schema();
    let oc_values = vec!["person".to_string(), "inetOrgPerson".to_string()];
    let attr_rows = rows(&[("cn", "admin"), ("sn", "Smith")]);
    let orphaned = orphaned_attrs_for_oc_delete(&attr_rows, &oc_values, "inetOrgPerson", &schema);
    assert!(orphaned.is_empty());
}

#[test]
fn orphaned_attrs_multi_value_all_included() {
    let schema = make_schema();
    let oc_values = vec!["person".to_string(), "inetOrgPerson".to_string()];
    let attr_rows = rows(&[("cn", "admin"), ("carLicense", "ABC-111"), ("carLicense", "DEF-222")]);
    let orphaned = orphaned_attrs_for_oc_delete(&attr_rows, &oc_values, "inetOrgPerson", &schema);
    assert_eq!(orphaned.iter().filter(|(a, _)| a == "carLicense").count(), 2);
}
