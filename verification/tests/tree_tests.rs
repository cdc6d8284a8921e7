use ldapeditor::display::tree_row_parts;
use ldapeditor::tree::{ChildNode, CollapseResult, Tree};

fn child(dn: &str, has_children: bool) -> ChildNode {
    ChildNode { dn: dn.to_string(), has_children }
}

fn sample() -> Tree {
    Tree::from_children(
        "dc=example,dc=com".to_string(),
        vec![child("ou=people,dc=example,dc=com", true), child("cn=admin,dc=example,dc=com", false)],
    )
}

fn dns(t: &Tree) -> Vec<String> {
    t.flat().iter().map(|e| e.node.dn.clone()).collect()
}

#[test]
fn tree_starts_expanded_at_the_base() {
    let t = sample();
    assert_eq!(t.base_dn(), "dc=example,dc=com");
    assert_eq!(t.cursor(), 0);
    assert_eq!(dns(&t), vec!["dc=example,dc=com", "ou=people,dc=example,dc=com", "cn=admin,dc=example,dc=com"]);
    assert_eq!(t.selected_dn(), Some("dc=example,dc=com".to_string()));
    assert!(t.parent_info().is_none());
}

#[test]
fn cursor_moves_stay_on_rows() {
    let mut t = sample();
    t.cursor_up();
    assert_eq!(t.cursor(), 0);
    t.cursor_down();
    t.cursor_down();
    t.cursor_down();
    assert_eq!(t.cursor(), 2);
    t.cursor_up();
    assert_eq!(t.cursor(), 1);
    t.cursor_down();
    t.cursor_up();
    assert_eq!(t.cursor(), 1);
    t.set_cursor(7);
    assert_eq!(t.cursor(), 2);
}

#[test]
fn expanding_and_collapsing() {
    let mut t = sample();
    t.expand_at("ou=people,dc=example,dc=com", vec![child("uid=a,ou=people,dc=example,dc=com", false)]);
    assert_eq!(dns(&t).len(), 4);
    t.set_cursor(2);
    let info = t.selected_info().unwrap();
    assert_eq!(info.dn, "uid=a,ou=people,dc=example,dc=com");
    assert_eq!(info.depth, 2);
    assert_eq!(t.parent_info(), Some(("ou=people,dc=example,dc=com".to_string(), 1)));
    // ← on a leaf moves to its parent
    match t.collapse_or_parent() {
        CollapseResult::MovedToParent(dn) => assert_eq!(dn, "ou=people,dc=example,dc=com"),
        _ => panic!("expected a move to the parent"),
    }
    assert_eq!(t.cursor(), 1);
    // ← on an expanded node collapses it and hides its children
    assert!(matches!(t.collapse_or_parent(), CollapseResult::Collapsed));
    assert_eq!(dns(&t).len(), 3);
    t.set_cursor(0);
    assert!(matches!(t.collapse_or_parent(), CollapseResult::Collapsed));
    assert_eq!(dns(&t).len(), 1);
    assert!(matches!(t.collapse_or_parent(), CollapseResult::NoOp));
}

#[test]
fn nodes_without_children() {
    let mut t = sample();
    t.mark_no_children_at("ou=people,dc=example,dc=com");
    let n = &t.root().children.as_ref().unwrap()[0];
    assert!(!n.has_children);
    assert_eq!(n.children.as_ref().map(|c| c.len()), Some(0));
}

#[test]
fn row_parts_show_guides_marker_and_rdn() {
    let mut t = sample();
    t.expand_at("ou=people,dc=example,dc=com", vec![child("uid=a,ou=people,dc=example,dc=com", false)]);
    let rows = t.flat();
    let (g, m, l) = tree_row_parts(&rows[0]);
    assert_eq!((g.as_str(), m, l.as_str()), ("", "▼ ", "dc=example,dc=com"));
    let (g, m, l) = tree_row_parts(&rows[1]);
    assert_eq!((g.as_str(), m, l.as_str()), ("   ├─ ", "▼ ", "ou=people"));
    let (g, m, l) = tree_row_parts(&rows[2]);
    assert_eq!((g.as_str(), m, l.as_str()), ("   ┆  └─ ", "  ", "uid=a"));
    let (g, m, l) = tree_row_parts(&rows[3]);
    assert_eq!((g.as_str(), m, l.as_str()), ("   └─ ", "  ", "cn=admin"));
}

#[test]
fn finding_without_writing_changes_nothing() {
    let mut t = sample();
    t.expand_at("ou=people,dc=example,dc=com", vec![child("uid=a,ou=people,dc=example,dc=com", false)]);
    let before = dns(&t);
    let mut root = ldapeditor::model::DitNode {
        dn: "dc=example,dc=com".to_string(),
        has_children: true,
        expanded: true,
        children: Some(vec![ldapeditor::model::DitNode::unloaded("cn=x,dc=example,dc=com".to_string(), false)]),
    };
    assert!(root.find_mut("cn=x,dc=example,dc=com").is_some());
    assert!(root.find_mut("cn=none").is_none());
    assert_eq!(root.children.as_ref().map(|c| c.len()), Some(1));
    // expanding one node leaves the others as they were
    t.mark_no_children_at("uid=a,ou=people,dc=example,dc=com");
    assert_eq!(dns(&t), before);
}

#[test]
fn expanding_then_finding_gives_the_new_children() {
    let mut t = sample();
    t.set_cursor(2);
    t.expand_at(
        "ou=people,dc=example,dc=com",
        vec![child("uid=a,ou=people,dc=example,dc=com", false), child("ou=groups,ou=people,dc=example,dc=com", true)],
    );
    assert_eq!(t.cursor(), 2);
    assert_eq!(t.base_dn(), "dc=example,dc=com");
    let people = &t.root().children.as_ref().unwrap()[0];
    assert_eq!(people.dn, "ou=people,dc=example,dc=com");
    assert!(people.expanded);
    assert!(people.has_children);
    let kids: Vec<(String, bool, bool, bool)> = people
        .children
        .as_ref()
        .unwrap()
        .iter()
        .map(|c| (c.dn.clone(), c.has_children, c.expanded, c.children.is_none()))
        .collect();
    assert_eq!(
        kids,
        vec![
            ("uid=a,ou=people,dc=example,dc=com".to_string(), false, false, true),
            ("ou=groups,ou=people,dc=example,dc=com".to_string(), true, false, true),
        ]
    );
    let admin = &t.root().children.as_ref().unwrap()[1];
    assert_eq!(admin.dn, "cn=admin,dc=example,dc=com");
    assert!(!admin.expanded);
    assert!(admin.children.is_none());
}

#[test]
fn expanding_an_unknown_dn_changes_nothing() {
    let mut t = sample();
    let before = dns(&t);
    t.expand_at("ou=nowhere,dc=example,dc=com", vec![child("uid=z,ou=nowhere,dc=example,dc=com", false)]);
    t.mark_no_children_at("ou=nowhere,dc=example,dc=com");
    assert_eq!(dns(&t), before);
}

#[test]
fn collapsing_keeps_the_children_cached() {
    let mut t = sample();
    t.expand_at("ou=people,dc=example,dc=com", vec![child("uid=a,ou=people,dc=example,dc=com", false)]);
    t.set_cursor(1);
    assert!(matches!(t.collapse_or_parent(), CollapseResult::Collapsed));
    assert_eq!(t.cursor(), 1);
    let people = &t.root().children.as_ref().unwrap()[0];
    assert!(!people.expanded);
    assert_eq!(people.children.as_ref().map(|c| c.len()), Some(1));
    assert_eq!(dns(&t), vec!["dc=example,dc=com", "ou=people,dc=example,dc=com", "cn=admin,dc=example,dc=com"]);
}

#[test]
fn marking_no_children_keeps_expansion_and_cursor() {
    let mut t = sample();
    t.expand_at("ou=people,dc=example,dc=com", vec![child("uid=a,ou=people,dc=example,dc=com", false)]);
    t.set_cursor(3);
    t.mark_no_children_at("ou=people,dc=example,dc=com");
    assert_eq!(t.cursor(), 3);
    let people = &t.root().children.as_ref().unwrap()[0];
    assert!(people.expanded);
    assert!(!people.has_children);
    assert_eq!(people.children.as_ref().map(|c| c.len()), Some(0));
}

#[test]
fn parent_row_is_one_level_up() {
    let mut t = sample();
    t.expand_at("ou=people,dc=example,dc=com", vec![child("uid=a,ou=people,dc=example,dc=com", false)]);
    t.set_cursor(3);
    let rows = t.flat();
    assert_eq!(rows[3].depth, 1);
    let (dn, idx) = t.parent_info().unwrap();
    assert_eq!((dn.as_str(), idx), ("dc=example,dc=com", 0));
    assert_eq!(rows[idx].depth, 0);
}
