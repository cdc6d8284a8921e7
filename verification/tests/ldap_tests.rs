use ldapeditor::ldap::{
    child_nodes, has_subordinates, parse_entry, sort_by_lower_name, sort_by_lowercase, sort_plain, subschema_dn,
    uses_sasl_external, RawEntry,
};

fn strings(v: &[&str]) -> Vec<String> {
    v.iter().map(|s| s.to_string()).collect()
}

fn text_attrs(v: &[(&str, &[&str])]) -> Vec<(String, Vec<String>)> {
    v.iter().map(|(n, vals)| (n.to_string(), strings(vals))).collect()
}

fn rows(e: &[(String, String)]) -> Vec<(&str, &str)> {
    e.iter().map(|(a, v)| (a.as_str(), v.as_str())).collect()
}

#[test]
fn lowercase_sort_keeps_order_of_equal_keys() {
    let r = sort_by_lowercase(strings(&["b", "A", "a", "C"]));
    assert_eq!(r, strings(&["A", "a", "b", "C"]));
    let r = sort_by_lowercase(strings(&["ou=People,dc=x", "cn=admin,dc=x", "OU=Groups,dc=x"]));
    assert_eq!(r, strings(&["cn=admin,dc=x", "OU=Groups,dc=x", "ou=People,dc=x"]));
}

#[test]
fn plain_sort_orders_upper_case_first() {
    let r = sort_plain(strings(&["dc=b", "C", "dc=a"]));
    assert_eq!(r, strings(&["C", "dc=a", "dc=b"]));
    assert!(sort_plain(Vec::new()).is_empty());
}

#[test]
fn pairs_sort_by_lowercase_name() {
    let items = vec![("sn".to_string(), 1), ("CN".to_string(), 2), ("cn".to_string(), 3), ("mail".to_string(), 4)];
    let r = sort_by_lower_name(items);
    let order: Vec<i32> = r.iter().map(|(_, k)| *k).collect();
    assert_eq!(order, vec![2, 3, 4, 1]);
}

#[test]
fn subordinate_flag_from_first_value() {
    assert!(has_subordinates(&Some("TRUE".to_string())));
    assert!(has_subordinates(&Some("true".to_string())));
    assert!(!has_subordinates(&Some("FALSE".to_string())));
    assert!(!has_subordinates(&Some("TRUEX".to_string())));
    assert!(has_subordinates(&None));
}

#[test]
fn children_are_flagged_and_sorted() {
    let raw = vec![
        ("ou=people,dc=x".to_string(), Some("TRUE".to_string())),
        ("cn=admin,dc=x".to_string(), Some("FALSE".to_string())),
        ("OU=groups,dc=x".to_string(), None),
    ];
    let r = child_nodes(raw);
    let dns: Vec<&str> = r.iter().map(|c| c.dn.as_str()).collect();
    assert_eq!(dns, vec!["cn=admin,dc=x", "OU=groups,dc=x", "ou=people,dc=x"]);
    let flags: Vec<bool> = r.iter().map(|c| c.has_children).collect();
    assert_eq!(flags, vec![false, true, true]);
}

#[test]
fn entry_is_split_into_classes_and_sorted_rows() {
    let user = RawEntry {
        attrs: text_attrs(&[
            ("sn", &["Smith"]),
            ("objectClass", &["top", "inetOrgPerson", "Person"]),
            ("cn", &["admin", "root"]),
            ("Mail", &["a@x"]),
        ]),
        bin_attrs: vec![("jpegPhoto".to_string(), vec![b"hi".to_vec()])],
    };
    let op = RawEntry {
        attrs: text_attrs(&[("modifyTimestamp", &["20240101000000Z"]), ("entryUUID", &["u-1"])]),
        bin_attrs: Vec::new(),
    };
    let e = parse_entry("cn=admin,dc=x", vec![user], vec![op]);
    assert_eq!(e.dn, "cn=admin,dc=x");
    assert_eq!(e.oc_values, strings(&["inetOrgPerson", "Person", "top"]));
    assert_eq!(
        rows(&e.attr_rows),
        vec![("cn", "admin"), ("cn", "root"), ("Mail", "a@x"), ("sn", "Smith"), ("jpegPhoto", "aGk=")]
    );
    assert_eq!(rows(&e.op_rows), vec![("entryUUID", "u-1"), ("modifyTimestamp", "20240101000000Z")]);
    // the longest name, "jpegPhoto", has 9 bytes
    assert_eq!(e.attr_w, 9);
}

#[test]
fn binary_values_are_shown_in_base64() {
    let user = RawEntry {
        attrs: Vec::new(),
        bin_attrs: vec![("userCertificate".to_string(), vec![vec![0u8, 255, 16], b"abc".to_vec()])],
    };
    let e = parse_entry("cn=c", vec![user], Vec::new());
    assert_eq!(rows(&e.attr_rows), vec![("userCertificate", "AP8Q"), ("userCertificate", "YWJj")]);
    assert!(e.oc_values.is_empty());
    assert!(e.op_rows.is_empty());
}

#[test]
fn name_column_width_is_clamped() {
    let short = RawEntry { attrs: text_attrs(&[("cn", &["x"])]), bin_attrs: Vec::new() };
    assert_eq!(parse_entry("cn=x", vec![short], Vec::new()).attr_w, 8);
    let empty = parse_entry("cn=x", Vec::new(), Vec::new());
    assert_eq!(empty.attr_w, 8);
    assert!(empty.attr_rows.is_empty());
    let long = RawEntry {
        attrs: text_attrs(&[("aVeryLongAttributeNameThatIsWide", &["x"]), ("description", &["y"])]),
        bin_attrs: Vec::new(),
    };
    assert_eq!(parse_entry("cn=x", vec![long], Vec::new()).attr_w, 28);
    let mid = RawEntry { attrs: text_attrs(&[("description", &["y"])]), bin_attrs: Vec::new() };
    assert_eq!(parse_entry("cn=x", vec![mid], Vec::new()).attr_w, 11);
}

#[test]
fn object_class_is_matched_exactly() {
    // a differently cased name is an ordinary attribute
    let user = RawEntry { attrs: text_attrs(&[("objectclass", &["top"])]), bin_attrs: Vec::new() };
    let e = parse_entry("cn=x", vec![user], Vec::new());
    assert!(e.oc_values.is_empty());
    assert_eq!(rows(&e.attr_rows), vec![("objectclass", "top")]);
}

#[test]
fn operational_search_keeps_object_class_rows() {
    let op = RawEntry { attrs: text_attrs(&[("objectClass", &["top"])]), bin_attrs: Vec::new() };
    let e = parse_entry("cn=x", Vec::new(), vec![op]);
    assert_eq!(rows(&e.op_rows), vec![("objectClass", "top")]);
    assert!(e.oc_values.is_empty());
}

#[test]
fn sasl_external_only_over_ldapi_without_bind_dn() {
    assert!(uses_sasl_external("ldapi://%2fvar%2frun%2fslapd%2fldapi", false));
    assert!(!uses_sasl_external("ldapi://%2fvar%2frun%2fslapd%2fldapi", true));
    assert!(!uses_sasl_external("ldap://localhost", false));
    assert!(!uses_sasl_external("ldaps://localhost", false));
    assert!(!uses_sasl_external("ldapi:/", false));
}

#[test]
fn subschema_dn_defaults() {
    assert_eq!(subschema_dn(None), "cn=Subschema");
    assert_eq!(subschema_dn(Some("cn=schema,cn=config".to_string())), "cn=schema,cn=config");
}
