use ldapeditor::model::{flat_view, DitNode};

fn leaf(dn: &str) -> DitNode {
    DitNode { dn: dn.to_string(), has_children: false, expanded: false, children: Some(vec![]) }
}

fn branch(dn: &str, children: Vec<DitNode>) -> DitNode {
    DitNode { dn: dn.to_string(), has_children: true, expanded: true, children: Some(children) }
}

fn collapsed(dn: &str, cached_children: Vec<DitNode>) -> DitNode {
    DitNode { dn: dn.to_string(), has_children: true, expanded: false, children: Some(cached_children) }
}

#[test]
fn flat_view_root_only() {
    let root = leaf("dc=example,dc=com");
    let flat = flat_view(&root);
    assert_eq!(flat.len(), 1);
    assert_eq!(flat[0].node.dn, "dc=example,dc=com");
    assert_eq!(flat[0].depth, 0);
    assert!(flat[0].is_last);
    assert!(flat[0].continuing.is_empty());
}

#[test]
fn flat_view_two_children_continuing() {
    let root = branch(
        "dc=example,dc=com",
        vec![leaf("ou=users,dc=example,dc=com"), leaf("ou=groups,dc=example,dc=com")],
    );
    let flat = flat_view(&root);
    assert_eq!(flat.len(), 3);

    assert_eq!(flat[1].node.dn, "ou=users,dc=example,dc=com");
    assert!(!flat[1].is_last);
    assert_eq!(flat[1].continuing, vec![false]);

    assert_eq!(flat[2].node.dn, "ou=groups,dc=example,dc=com");
    assert!(flat[2].is_last);
    assert_eq!(flat[2].continuing, vec![false]);
}

#[test]
fn flat_view_nested_continuing() {
    let root = branch(
        "dc=example,dc=com",
        vec![
            branch("ou=users,dc=example,dc=com", vec![leaf("cn=user1,ou=users,dc=example,dc=com")]),
            leaf("ou=groups,dc=example,dc=com"),
        ],
    );
    let flat = flat_view(&root);
    assert_eq!(flat.len(), 4);

    let user1 = &flat[2];
    assert_eq!(user1.node.dn, "cn=user1,ou=users,dc=example,dc=com");
    assert_eq!(user1.depth, 2);
    assert_eq!(user1.continuing, vec![false, true]);

    let groups = &flat[3];
    assert_eq!(groups.depth, 1);
    assert!(groups.is_last);
    assert_eq!(groups.continuing, vec![false]);
}

#[test]
fn flat_view_collapsed_hides_children() {
    let root = branch(
        "dc=example,dc=com",
        vec![collapsed("ou=users,dc=example,dc=com", vec![leaf("cn=user1,ou=users,dc=example,dc=com")])],
    );
    let flat = flat_view(&root);
    assert_eq!(flat.len(), 2, "collapsed node's children must not appear");
    assert_eq!(flat[1].node.dn, "ou=users,dc=example,dc=com");
}

#[test]
fn flat_view_unloaded_children_not_expanded() {
    let root = DitNode { dn: "dc=example,dc=com".to_string(), has_children: true, expanded: true, children: None };
    let flat = flat_view(&root);
    assert_eq!(flat.len(), 1);
}
