//! Pure domain data: the DIT tree, its flattened view, the single-line text editor,
//! entry data and detail-pane selections.
use vstd::prelude::*;

use crate::keys::{KeyCode, KeyEvent, KeyModifiers};
use crate::text::{chars_of, lemma_push_no_dup, lowercase, str_eq, string_of, to_lower, views};

verus! {

broadcast use vstd::seq::Seq::lemma_push_to_set_commute;

// ── Pane ──────────────────────────────────────────────────────────────────────

#[derive(PartialEq, Eq, Structural, Clone, Copy, Debug)]
pub enum Pane {
    Tree,
    Detail,
}

// ── DitNode ───────────────────────────────────────────────────────────────────

/// A single DIT node. The tree mirrors the LDAP directory hierarchy.
///
/// - `children: None`     → not yet loaded
/// - `children: Some([])` → loaded, no children
/// - `children: Some([…])` → cached (retained even when collapsed)
pub struct DitNode {
    pub dn: String,
    pub has_children: bool,
    pub expanded: bool,
    pub children: Option<Vec<DitNode>>,
}

/// Mathematical model of a DIT node.
pub struct NodeView {
    pub dn: Seq<char>,
    pub has_children: bool,
    pub expanded: bool,
    pub children: Option<Seq<NodeView>>,
}

pub open spec fn nodes_view(cs: Seq<DitNode>) -> Seq<NodeView>
    decreases cs,
{
    Seq::new(cs.len(), |i: int| if 0 <= i < cs.len() { cs[i].view() } else { NodeView { dn: Seq::empty(), has_children: false, expanded: false, children: None } })
}

impl View for DitNode {
    type V = NodeView;

    open spec fn view(&self) -> NodeView
        decreases self,
    {
        NodeView {
            dn: self.dn@,
            has_children: self.has_children,
            expanded: self.expanded,
            children: match self.children {
                None => None,
                Some(cs) => Some(nodes_view(cs@)),
            },
        }
    }
}

pub proof fn lemma_nodes_view(cs: Seq<DitNode>)
    ensures
        nodes_view(cs).len() == cs.len(),
        forall|j: int| 0 <= j < cs.len() ==> #[trigger] nodes_view(cs)[j] == cs[j]@,
{
}

pub proof fn lemma_nodes_view_update(cs: Seq<DitNode>, i: int)
    requires
        0 <= i < cs.len(),
    ensures
        forall|x: DitNode| #[trigger] nodes_view(cs.update(i, x)) == nodes_view(cs).update(i, x@),
{
    assert forall|x: DitNode| #[trigger] nodes_view(cs.update(i, x)) == nodes_view(cs).update(i, x@) by {
        assert(nodes_view(cs.update(i, x)) =~= nodes_view(cs).update(i, x@));
    }
}

/// The subtree rooted at `n` holds a node whose DN is `dn`.
pub open spec fn has_dn(n: NodeView, dn: Seq<char>) -> bool
    decreases n,
{
    n.dn == dn || match n.children {
        None => false,
        Some(cs) => exists|i: int| 0 <= i < cs.len() && has_dn(#[trigger] cs[i], dn),
    }
}

impl DitNode {
    /// Unloaded node that potentially has children.
    pub fn unloaded(dn: String, has_children: bool) -> (r: Self)
        ensures
            r@ == (NodeView { dn: dn@, has_children, expanded: false, children: None }),
    {
        DitNode { dn, has_children, expanded: false, children: None }
    }

    /// Collapse (retain children as a cache).
    pub fn collapse(&mut self)
        ensures
            final(self)@ == (NodeView { expanded: false, ..old(self)@ }),
    {
        self.expanded = false;
    }

    /// Replace children and mark as expanded.
    pub fn set_children(&mut self, children: Vec<DitNode>)
        ensures
            final(self)@ == (NodeView { children: Some(nodes_view(children@)), expanded: true, ..old(self)@ }),
    {
        self.children = Some(children);
        self.expanded = true;
    }

    /// Mark the node as having no children.
    pub fn mark_no_children(&mut self)
        ensures
            final(self)@ == (NodeView { has_children: false, children: Some(Seq::empty()), ..old(self)@ }),
    {
        self.has_children = false;
        self.children = Some(Vec::new());
        assert(nodes_view(Seq::<DitNode>::empty()) =~= Seq::<NodeView>::empty());
    }
}

impl DitNode {
    /// Whether the subtree rooted here holds a node with the given DN.
    pub fn contains(&self, dn: &str) -> (r: bool)
        ensures r == has_dn(self@, dn@),
        decreases self,
    {
        if str_eq(self.dn.as_str(), dn) { return true; }
        proof { if self.children is Some { lemma_nodes_view(self.children->0@) } }
        match &self.children {
            Some(children) => {
                let mut i: usize = 0;
                while i < children.len()
                    invariant
                        i <= children.len(),
                        self.children == Some(*children),
                        nodes_view(children@).len() == children@.len(),
                        forall|j: int| 0 <= j < children@.len() ==> #[trigger] nodes_view(children@)[j] == children@[j]@,
                        forall|j: int| 0 <= j < i ==> !has_dn(#[trigger] children@[j]@, dn@),
                    decreases children.len() - i,
                {
                    proof {
                        assert(decreases_to!(self => self.children));
                        assert(decreases_to!(self.children => self.children->0));
                        assert(decreases_to!(children => children@));
                        assert(decreases_to!(children@ => children@[i as int]));
                    }
                    if children[i].contains(dn) {
                        assert(has_dn(nodes_view(children@)[i as int], dn@));
                        assert(self@.children == Some(nodes_view(children@)));
                        let ghost cs = self@.children->0;
                        assert(has_dn(cs[i as int], dn@));
                        assert(has_dn(self@, dn@));
                        return true;
                    }
                    i += 1;
                }
                assert(forall|j: int| 0 <= j < children@.len() ==> !has_dn(#[trigger] nodes_view(children@)[j], dn@));
                false
            }
            None => false,
        }
    }

    /// Recursively search by DN and return a mutable reference (first match in pre-order).
    pub fn find_mut(&mut self, dn: &str) -> (r: Option<&mut DitNode>)
        ensures
            r is Some <==> has_dn(old(self)@, dn@),
            r is Some ==> (*r->0)@ == find_node(old(self)@, dn@),
            r is Some ==> final(self)@ == replace_node(old(self)@, dn@, (*final(r->0))@),
            r is None ==> *final(self) == *old(self),
        decreases *old(self), 0int,
    {
        if str_eq(self.dn.as_str(), dn) {
            return Some(self);
        }
        proof { if self.children is Some { lemma_nodes_view(self.children->0@) } }
        match &mut self.children {
            Some(children) => {
                let mut i: usize = 0;
                let n = children.len();
                while i < n
                    invariant
                        i <= n, n == children.len(),
                        forall|j: int| 0 <= j < i ==> !has_dn(#[trigger] children@[j]@, dn@),
                    ensures
                        i <= n,
                        forall|j: int| 0 <= j < i ==> !has_dn(#[trigger] children@[j]@, dn@),
                        i < n ==> has_dn(children@[i as int]@, dn@),
                    decreases n - i,
                {
                    if children[i].contains(dn) {
                        break;
                    }
                    i += 1;
                }
                let ghost cs = nodes_view(children@);
                proof {
                    lemma_first_has(cs, dn@, 0, i as int);
                }
                if i < n {
                    proof {
                        assert(decreases_to!(old(self).children => old(self).children->0));
                        assert(decreases_to!(children@ => children@[i as int]));
                    }
                    Self::find_in_children(children, i, dn)
                } else {
                    assert(forall|j: int| 0 <= j < cs.len() ==> !has_dn(#[trigger] cs[j], dn@));
                    None
                }
            }
            None => None,
        }
    }
}

impl DitNode {
    fn find_in_children<'a>(children: &'a mut Vec<DitNode>, i: usize, dn: &str) -> (r: Option<&'a mut DitNode>)
        requires
            i < old(children).len(),
            has_dn(old(children)@[i as int]@, dn@),
        ensures
            r is Some,
            (*r->0)@ == find_node(old(children)@[i as int]@, dn@),
            nodes_view(final(children)@) == nodes_view(old(children)@).update(i as int, replace_node(old(children)@[i as int]@, dn@, (*final(r->0))@)),
        decreases old(children)@[i as int], 1int,
    {
        proof { lemma_nodes_view_update(children@, i as int); }
        children[i].find_mut(dn)
    }
}

pub open spec fn first_has_from(cs: Seq<NodeView>, dn: Seq<char>, k: int) -> int
    decreases cs.len() - k,
{
    if k < 0 || k >= cs.len() {
        cs.len() as int
    } else if has_dn(cs[k], dn) {
        k
    } else {
        first_has_from(cs, dn, k + 1)
    }
}

pub proof fn lemma_first_has(cs: Seq<NodeView>, dn: Seq<char>, k: int, i: int)
    requires
        0 <= k <= i <= cs.len(),
        forall|j: int| k <= j < i ==> !has_dn(#[trigger] cs[j], dn),
        i < cs.len() ==> has_dn(cs[i], dn),
    ensures
        first_has_from(cs, dn, k) == i,
    decreases i - k,
{
    if k < i {
        lemma_first_has(cs, dn, k + 1, i);
    }
}

pub open spec fn find_node(n: NodeView, dn: Seq<char>) -> NodeView
    decreases n,
{
    if n.dn == dn {
        n
    } else {
        match n.children {
            None => n,
            Some(cs) => {
                let i = first_has_from(cs, dn, 0);
                if 0 <= i < cs.len() { find_node(cs[i], dn) } else { n }
            }
        }
    }
}

pub open spec fn replace_node(n: NodeView, dn: Seq<char>, new: NodeView) -> NodeView
    decreases n,
{
    if n.dn == dn {
        new
    } else {
        match n.children {
            None => n,
            Some(cs) => {
                let i = first_has_from(cs, dn, 0);
                if 0 <= i < cs.len() {
                    NodeView { children: Some(cs.update(i, replace_node(cs[i], dn, new))), ..n }
                } else {
                    n
                }
            }
        }
    }
}

/// Putting back the node that the DN search found changes nothing: when nothing is written
/// through the reference that `find_mut` returns, the tree stays as it was.
pub proof fn law_find_then_replace_unchanged(n: NodeView, dn: Seq<char>)
    ensures
        replace_node(n, dn, find_node(n, dn)) == n,
    decreases n,
{
    if n.dn != dn {
        match n.children {
            None => {},
            Some(cs) => {
                let i = first_has_from(cs, dn, 0);
                if 0 <= i < cs.len() {
                    law_find_then_replace_unchanged(cs[i], dn);
                    assert(cs.update(i, cs[i]) =~= cs);
                }
            },
        }
    }
}

/// Replacing the node with DN `dn` changes which DNs a subtree holds only inside the replaced
/// node: a DN held neither by the old node's subtree nor by the new one is held as before.
pub proof fn lemma_replace_keeps_other_dns(c: NodeView, dn: Seq<char>, new: NodeView, x: Seq<char>)
    requires
        !has_dn(new, x),
        has_dn(c, dn) ==> !has_dn(find_node(c, dn), x),
    ensures
        has_dn(replace_node(c, dn, new), x) == has_dn(c, x),
    decreases c,
{
    if c.dn == dn {
        assert(has_dn(c, dn));
        assert(find_node(c, dn) == c);
        assert(replace_node(c, dn, new) == new);
    } else {
        match c.children {
            None => {},
            Some(cs) => {
                let i = first_has_from(cs, dn, 0);
                if 0 <= i < cs.len() {
                    lemma_first_has_found(cs, dn, 0);
                    assert(has_dn(cs[i], dn));
                    assert(has_dn(c, dn));
                    assert(find_node(c, dn) == find_node(cs[i], dn));
                    lemma_replace_keeps_other_dns(cs[i], dn, new, x);
                    let cs2 = cs.update(i, replace_node(cs[i], dn, new));
                    let rc = replace_node(c, dn, new);
                    assert(rc == NodeView { children: Some(cs2), ..c });
                    assert(rc.dn == c.dn);
                    assert((exists|j: int| 0 <= j < cs2.len() && has_dn(#[trigger] cs2[j], x)) == (exists|j: int|
                        0 <= j < cs.len() && has_dn(#[trigger] cs[j], x))) by {
                        if exists|j: int| 0 <= j < cs2.len() && has_dn(#[trigger] cs2[j], x) {
                            let j = choose|j: int| 0 <= j < cs2.len() && has_dn(#[trigger] cs2[j], x);
                            assert(has_dn(cs[j], x));
                        }
                        if exists|j: int| 0 <= j < cs.len() && has_dn(#[trigger] cs[j], x) {
                            let j = choose|j: int| 0 <= j < cs.len() && has_dn(#[trigger] cs[j], x);
                            assert(has_dn(cs2[j], x));
                        }
                    }
                    assert(rc.children == Some(cs2));
                    assert(has_dn(rc, x) == (rc.dn == x || exists|j: int| 0 <= j < rc.children->0.len() && has_dn(#[trigger] rc.children->0[j], x)));
                    assert(rc.children->0 == cs2);
                    assert(has_dn(c, x) == (c.dn == x || exists|j: int| 0 <= j < cs.len() && has_dn(#[trigger] cs[j], x)));
                } else {
                    assert(replace_node(c, dn, new) == c);
                }
            },
        }
    }
}

/// The first child found for `dn` holds `dn`, and none before it does.
pub proof fn lemma_first_has_found(cs: Seq<NodeView>, dn: Seq<char>, k: int)
    requires
        0 <= k <= cs.len(),
    ensures
        k <= first_has_from(cs, dn, k) <= cs.len(),
        first_has_from(cs, dn, k) < cs.len() ==> has_dn(cs[first_has_from(cs, dn, k)], dn),
        forall|j: int| k <= j < first_has_from(cs, dn, k) ==> !has_dn(#[trigger] cs[j], dn),
    decreases cs.len() - k,
{
    if k < cs.len() && !has_dn(cs[k], dn) {
        lemma_first_has_found(cs, dn, k + 1);
    }
}

/// The node that the DN search finds for a DN the subtree holds carries that DN.
pub proof fn lemma_find_node_dn(n: NodeView, dn: Seq<char>)
    requires
        has_dn(n, dn),
    ensures
        find_node(n, dn).dn == dn,
    decreases n,
{
    if n.dn != dn {
        let cs = n.children->0;
        lemma_first_has_found(cs, dn, 0);
        let i = first_has_from(cs, dn, 0);
        if i >= cs.len() {
            let k = choose|k: int| 0 <= k < cs.len() && has_dn(#[trigger] cs[k], dn);
            assert(false);
        }
        lemma_find_node_dn(cs[i], dn);
    }
}

/// Finding a node by its DN after replacing it by a node with the same DN gives the new node,
/// and the tree still holds that DN.
pub proof fn law_find_after_replace(n: NodeView, dn: Seq<char>, new: NodeView)
    requires
        has_dn(n, dn),
        new.dn == dn,
    ensures
        find_node(replace_node(n, dn, new), dn) == new,
        has_dn(replace_node(n, dn, new), dn),
    decreases n,
{
    if n.dn != dn {
        let cs = n.children->0;
        lemma_first_has_found(cs, dn, 0);
        let i = first_has_from(cs, dn, 0);
        if i >= cs.len() {
            let k = choose|k: int| 0 <= k < cs.len() && has_dn(#[trigger] cs[k], dn);
            assert(false);
        }
        law_find_after_replace(cs[i], dn, new);
        let cs2 = cs.update(i, replace_node(cs[i], dn, new));
        let rn = replace_node(n, dn, new);
        assert(rn == NodeView { children: Some(cs2), ..n });
        assert forall|j: int| 0 <= j < i implies !has_dn(#[trigger] cs2[j], dn) by {
            assert(cs2[j] == cs[j]);
        }
        lemma_first_has(cs2, dn, 0, i);
        assert(has_dn(cs2[i], dn));
    }
}

/// Replacing the node with DN `dn` leaves every other node where it was: a node that neither
/// holds the replaced one in its subtree nor lies in the old or new subtree of the replaced
/// one is found unchanged.
pub proof fn law_replace_keeps_other_nodes(n: NodeView, dn: Seq<char>, new: NodeView, dn2: Seq<char>)
    requires
        has_dn(n, dn),
        has_dn(n, dn2),
        !has_dn(find_node(n, dn2), dn),
        !has_dn(find_node(n, dn), dn2),
        !has_dn(new, dn2),
    ensures
        find_node(replace_node(n, dn, new), dn2) == find_node(n, dn2),
    decreases n,
{
    if n.dn == dn2 {
        assert(find_node(n, dn2) == n);
    } else if n.dn == dn {
        assert(find_node(n, dn) == n);
    } else {
        let cs = n.children->0;
        lemma_first_has_found(cs, dn, 0);
        lemma_first_has_found(cs, dn2, 0);
        let i = first_has_from(cs, dn, 0);
        let j = first_has_from(cs, dn2, 0);
        if i >= cs.len() {
            let k = choose|k: int| 0 <= k < cs.len() && has_dn(#[trigger] cs[k], dn);
            assert(false);
        }
        if j >= cs.len() {
            let k = choose|k: int| 0 <= k < cs.len() && has_dn(#[trigger] cs[k], dn2);
            assert(false);
        }
        assert(find_node(n, dn) == find_node(cs[i], dn));
        assert(find_node(n, dn2) == find_node(cs[j], dn2));
        let r = replace_node(cs[i], dn, new);
        let cs2 = cs.update(i, r);
        lemma_replace_keeps_other_dns(cs[i], dn, new, dn2);
        assert(has_dn(r, dn2) == has_dn(cs[i], dn2));
        assert forall|k: int| 0 <= k < cs2.len() implies #[trigger] has_dn(cs2[k], dn2) == has_dn(cs[k], dn2) by {
            if k != i {
                assert(cs2[k] == cs[k]);
            }
        }
        lemma_first_has(cs2, dn2, 0, j);
        if j == i {
            law_replace_keeps_other_nodes(cs[i], dn, new, dn2);
        } else {
            assert(cs2[j] == cs[j]);
        }
    }
}

// ── FlatEntry / flat_view ─────────────────────────────────────────────────────

/// A flat entry produced by DFS for rendering.
pub struct FlatEntry<'a> {
    pub node: &'a DitNode,
    pub depth: usize,
    pub is_last: bool,
    /// continuing[i] = true → ancestor at depth i still has siblings → draw ┆.
    pub continuing: Vec<bool>,
}

/// Model of one flattened row.
pub struct FlatItem {
    pub node: NodeView,
    pub depth: int,
    pub is_last: bool,
    pub continuing: Seq<bool>,
}

impl<'a> View for FlatEntry<'a> {
    type V = FlatItem;

    open spec fn view(&self) -> FlatItem {
        FlatItem { node: self.node@, depth: self.depth as int, is_last: self.is_last, continuing: self.continuing@ }
    }
}

pub open spec fn flat_views<'a>(v: Seq<FlatEntry<'a>>) -> Seq<FlatItem> {
    v.map_values(|e: FlatEntry<'a>| e@)
}

/// The rows shown for `n` and its visible descendants, in pre-order: `n` itself, then,
/// when `n` is expanded and its children are loaded, the rows of each child in turn.
/// A row's depth is the length of its `continuing` list.
pub open spec fn flat_rows(n: NodeView, is_last: bool, cont: Seq<bool>) -> Seq<FlatItem>
    decreases n, 0int,
{
    seq![FlatItem { node: n, depth: cont.len() as int, is_last, continuing: cont }] + if n.expanded
        && n.children is Some {
        flat_rows_list(n.children->0, cont.push(!is_last))
    } else {
        Seq::empty()
    }
}

/// The rows of a list of siblings; the last one is marked `is_last`.
pub open spec fn flat_rows_list(cs: Seq<NodeView>, cont: Seq<bool>) -> Seq<FlatItem>
    decreases cs, 1int,
{
    if cs.len() == 0 {
        Seq::empty()
    } else {
        flat_rows(cs[0], cs.len() == 1, cont) + flat_rows_list(cs.drop_first(), cont)
    }
}

/// The flattened view of a whole tree: the root is its own last sibling and has no ancestors.
pub open spec fn flat_spec(root: NodeView) -> Seq<FlatItem> {
    flat_rows(root, true, Seq::empty())
}

/// Flatten the expanded nodes via DFS (for rendering and cursor math).
pub fn flat_view<'a>(root: &'a DitNode) -> (r: Vec<FlatEntry<'a>>)
    ensures
        flat_views(r@) == flat_spec(root@),
{
    let mut result: Vec<FlatEntry<'a>> = Vec::new();
    collect_flat(root, true, Vec::new(), &mut result);
    assert(flat_views(result@) =~= flat_spec(root@));
    result
}

proof fn lemma_flat_views_push<'a>(v: Seq<FlatEntry<'a>>, e: FlatEntry<'a>)
    ensures
        flat_views(v.push(e)) == flat_views(v).push(e@),
{
    assert(flat_views(v.push(e)) =~= flat_views(v).push(e@));
}

fn copy_bools(v: &Vec<bool>) -> (r: Vec<bool>)
    ensures
        r@ == v@,
{
    let mut r: Vec<bool> = Vec::new();
    let mut i: usize = 0;
    while i < v.len()
        invariant
            i <= v@.len(),
            r@ == v@.take(i as int),
        decreases v@.len() - i,
    {
        r.push(v[i]);
        assert(v@.take(i as int + 1) =~= r@);
        i += 1;
    }
    assert(v@.take(v@.len() as int) =~= v@);
    r
}

fn collect_flat<'a>(node: &'a DitNode, is_last: bool, continuing: Vec<bool>, result: &mut Vec<FlatEntry<'a>>)
    ensures
        flat_views(final(result)@) == flat_views(old(result)@) + flat_rows(node@, is_last, continuing@),
    decreases node, 0int,
{
    let depth = continuing.len();
    let cont_copy = copy_bools(&continuing);
    let ghost before = flat_views(result@);
    proof { lemma_flat_views_push(result@, FlatEntry { node, depth, is_last, continuing: cont_copy }); }
    result.push(FlatEntry { node, depth, is_last, continuing: cont_copy });
    let ghost item_rows = before.push(FlatItem { node: node@, depth: continuing@.len() as int, is_last, continuing: continuing@ });
    if node.expanded {
        match &node.children {
            Some(children) => {
                proof {
                    lemma_nodes_view(children@);
                    assert(decreases_to!(node.children => node.children->0));
                }
                let n = children.len();
                let ghost cs = nodes_view(children@);
                let ghost cont2 = continuing@.push(!is_last);
                assert(cs.skip(0) =~= cs);
                let mut i: usize = 0;
                while i < n
                    invariant
                        n == children@.len(),
                        cs == nodes_view(children@),
                        cs.len() == n,
                        forall|j: int| 0 <= j < n ==> #[trigger] cs[j] == children@[j]@,
                        i <= n,
                        cont2 == continuing@.push(!is_last),
                        node.children == Some(*children),
                        flat_views(result@) + flat_rows_list(cs.skip(i as int), cont2) == item_rows + flat_rows_list(cs, cont2),
                    decreases n - i,
                {
                    let child_is_last = i == n - 1;
                    let mut child_cont = copy_bools(&continuing);
                    child_cont.push(!is_last);
                    proof {
                        assert(decreases_to!(node => node.children));
                        assert(decreases_to!(node.children => node.children->0));
                        assert(decreases_to!(children => children@));
                        assert(decreases_to!(children@ => children@[i as int]));
                        assert(cs.skip(i as int).drop_first() =~= cs.skip(i as int + 1));
                        assert(cs.skip(i as int)[0] == cs[i as int]);
                    }
                    let ghost mid = flat_views(result@);
                    collect_flat(&children[i], child_is_last, child_cont, result);
                    proof {
                        assert(flat_rows_list(cs.skip(i as int), cont2) == flat_rows(cs[i as int], child_is_last, cont2) + flat_rows_list(cs.skip(i as int + 1), cont2));
                        assert(flat_views(result@) + flat_rows_list(cs.skip(i as int + 1), cont2) =~= mid + flat_rows_list(cs.skip(i as int), cont2));
                    }
                    i += 1;
                }
                assert(cs.skip(n as int) =~= Seq::<NodeView>::empty());
                assert(flat_views(result@) =~= item_rows + flat_rows_list(cs, cont2));
                assert(node@.children == Some(cs));
            }
            None => {
                assert(flat_views(result@) =~= item_rows);
            }
        }
    } else {
        assert(flat_views(result@) =~= item_rows);
    }
    assert(flat_rows(node@, is_last, continuing@) =~= seq![FlatItem { node: node@, depth: continuing@.len() as int, is_last, continuing: continuing@ }] + if node@.expanded && node@.children is Some { flat_rows_list(node@.children->0, continuing@.push(!is_last)) } else { Seq::empty() });
}

// ── TextInput ─────────────────────────────────────────────────────────────────

/// Model of a single-line input: its chars and a char-based cursor.
pub struct InputView {
    pub text: Seq<char>,
    pub cursor: int,
}

/// A model is well formed when the cursor lies within or just after the text.
pub open spec fn input_wf(v: InputView) -> bool {
    0 <= v.cursor <= v.text.len()
}

pub open spec fn input_left(v: InputView) -> InputView {
    InputView { cursor: if v.cursor > 0 { v.cursor - 1 } else { 0 }, ..v }
}

pub open spec fn input_right(v: InputView) -> InputView {
    InputView { cursor: if v.cursor < v.text.len() { v.cursor + 1 } else { v.cursor }, ..v }
}

pub open spec fn input_home(v: InputView) -> InputView {
    InputView { cursor: 0, ..v }
}

pub open spec fn input_end(v: InputView) -> InputView {
    InputView { cursor: v.text.len() as int, ..v }
}

/// Insert `c` at the cursor and move the cursor past it.
pub open spec fn input_insert(v: InputView, c: char) -> InputView {
    InputView { text: v.text.insert(v.cursor, c), cursor: v.cursor + 1 }
}

/// Remove the char before the cursor (no-op at the start).
pub open spec fn input_backspace(v: InputView) -> InputView {
    if v.cursor > 0 {
        InputView { text: v.text.remove(v.cursor - 1), cursor: v.cursor - 1 }
    } else {
        v
    }
}

/// Remove the char under the cursor (no-op at the end).
pub open spec fn input_delete(v: InputView) -> InputView {
    if v.cursor < v.text.len() {
        InputView { text: v.text.remove(v.cursor), cursor: v.cursor }
    } else {
        v
    }
}

/// Whether `key` is one of the editing keys that `TextInput::handle_key` consumes.
pub open spec fn input_handles(key: KeyEvent) -> bool {
    match key.code {
        KeyCode::Left | KeyCode::Right | KeyCode::Home | KeyCode::End | KeyCode::Backspace
        | KeyCode::Delete => true,
        KeyCode::Char(_) => key.modifiers == KeyModifiers::NoModifier || key.modifiers
            == KeyModifiers::ShiftOnly,
        _ => false,
    }
}

/// The effect of an editing key on the model (unchanged for other keys).
pub open spec fn input_key(v: InputView, key: KeyEvent) -> InputView {
    match key.code {
        KeyCode::Left => input_left(v),
        KeyCode::Right => input_right(v),
        KeyCode::Home => input_home(v),
        KeyCode::End => input_end(v),
        KeyCode::Backspace => input_backspace(v),
        KeyCode::Delete => input_delete(v),
        KeyCode::Char(c) => if input_handles(key) {
            input_insert(v, c)
        } else {
            v
        },
        _ => v,
    }
}

/// Single-line input model with text and a char-based cursor.
/// Shared by the search filter, attribute-value editor, and picker filter.
pub struct TextInput {
    text: String,
    cursor: usize,
}

impl TextInput {
    #[verifier::type_invariant]
    closed spec fn inv(self) -> bool {
        self.cursor <= self.text@.len()
    }
}

impl View for TextInput {
    type V = InputView;

    closed spec fn view(&self) -> InputView {
        InputView { text: self.text@, cursor: self.cursor as int }
    }
}

impl Default for TextInput {
    fn default() -> (r: Self)
        ensures
            r@ == (InputView { text: Seq::empty(), cursor: 0 }),
    {
        TextInput { text: String::new(), cursor: 0 }
    }
}

impl TextInput {
    pub fn new() -> (r: Self)
        ensures
            r@ == (InputView { text: Seq::empty(), cursor: 0 }),
    {
        TextInput { text: String::new(), cursor: 0 }
    }

    /// Initialize with the cursor positioned at the end of `text`.
    pub fn with_text(text: String) -> (r: Self)
        ensures
            r@ == (InputView { text: text@, cursor: text@.len() as int }),
    {
        let cursor = text.as_str().unicode_len();
        TextInput { text, cursor }
    }

    pub fn text(&self) -> (r: &str)
        ensures
            r@ == self@.text,
    {
        self.text.as_str()
    }

    pub fn cursor(&self) -> (r: usize)
        ensures
            r == self@.cursor,
            r <= self@.text.len(),
    {
        proof { use_type_invariant(self); }
        self.cursor
    }

    pub fn len(&self) -> (r: usize)
        ensures
            r == self@.text.len(),
    {
        self.text.as_str().unicode_len()
    }

    pub fn is_empty(&self) -> (r: bool)
        ensures
            r == (self@.text.len() == 0),
    {
        self.text.as_str().is_empty()
    }

    pub fn clear(&mut self)
        ensures
            final(self)@ == (InputView { text: Seq::empty(), cursor: 0 }),
    {
        *self = TextInput { text: String::new(), cursor: 0 };
    }

    pub fn left(&mut self)
        ensures
            final(self)@ == input_left(old(self)@),
            input_wf(final(self)@),
    {
        proof { use_type_invariant(&*self); }
        if self.cursor > 0 {
            self.cursor = self.cursor - 1;
        }
    }

    pub fn right(&mut self)
        ensures
            final(self)@ == input_right(old(self)@),
            input_wf(final(self)@),
    {
        proof { use_type_invariant(&*self); }
        let m = self.len();
        if self.cursor < m {
            self.cursor = self.cursor + 1;
        }
    }

    pub fn home(&mut self)
        ensures
            final(self)@ == input_home(old(self)@),
            input_wf(final(self)@),
    {
        self.cursor = 0;
    }

    pub fn end(&mut self)
        ensures
            final(self)@ == input_end(old(self)@),
            input_wf(final(self)@),
    {
        self.cursor = self.len();
    }

    /// Insert a char at the cursor; the text must have room for one more char.
    pub fn insert(&mut self, c: char)
        requires
            old(self)@.text.len() < usize::MAX,
        ensures
            final(self)@ == input_insert(old(self)@, c),
            input_wf(final(self)@),
    {
        proof { use_type_invariant(&*self); }
        let mut cs = chars_of(self.text.as_str());
        cs.insert(self.cursor, c);
        let new_text = string_of(cs.as_slice());
        let new_cursor = self.cursor + 1;
        *self = TextInput { text: new_text, cursor: new_cursor };
    }

    pub fn backspace(&mut self)
        ensures
            final(self)@ == input_backspace(old(self)@),
            input_wf(final(self)@),
    {
        proof { use_type_invariant(&*self); }
        if self.cursor > 0 {
            let mut cs = chars_of(self.text.as_str());
            cs.remove(self.cursor - 1);
            let new_text = string_of(cs.as_slice());
            let new_cursor = self.cursor - 1;
            *self = TextInput { text: new_text, cursor: new_cursor };
        }
    }

    pub fn delete_fwd(&mut self)
        ensures
            final(self)@ == input_delete(old(self)@),
            input_wf(final(self)@),
    {
        proof { use_type_invariant(&*self); }
        if self.cursor < self.len() {
            let mut cs = chars_of(self.text.as_str());
            cs.remove(self.cursor);
            let new_text = string_of(cs.as_slice());
            let new_cursor = self.cursor;
            *self = TextInput { text: new_text, cursor: new_cursor };
        }
    }

    /// Handle the standard editing keys (Left/Right/Home/End/Backspace/Delete/Char).
    /// Returns true if the key was consumed, false for unsupported keys.
    pub fn handle_key(&mut self, key: KeyEvent) -> (r: bool)
        requires
            old(self)@.text.len() < usize::MAX,
        ensures
            r == input_handles(key),
            final(self)@ == input_key(old(self)@, key),
            input_wf(final(self)@),
    {
        proof { use_type_invariant(&*self); }
        match key.code {
            KeyCode::Left => {
                self.left();
                true
            },
            KeyCode::Right => {
                self.right();
                true
            },
            KeyCode::Home => {
                self.home();
                true
            },
            KeyCode::End => {
                self.end();
                true
            },
            KeyCode::Backspace => {
                self.backspace();
                true
            },
            KeyCode::Delete => {
                self.delete_fwd();
                true
            },
            KeyCode::Char(c) => {
                if key.modifiers == KeyModifiers::NoModifier || key.modifiers == KeyModifiers::ShiftOnly {
                    self.insert(c);
                    true
                } else {
                    false
                }
            },
            _ => false,
        }
    }
}

/// Every editing operation keeps the cursor within the text.
pub proof fn law_input_ops_keep_cursor_in_text(v: InputView, c: char, key: KeyEvent)
    requires
        input_wf(v),
    ensures
        input_wf(input_left(v)),
        input_wf(input_right(v)),
        input_wf(input_home(v)),
        input_wf(input_end(v)),
        input_wf(input_insert(v, c)),
        input_wf(input_backspace(v)),
        input_wf(input_delete(v)),
        input_wf(input_key(v, key)),
{
}

/// Backspace right after inserting a char gives back the text and cursor from before.
pub proof fn law_backspace_undoes_insert(v: InputView, c: char)
    requires
        input_wf(v),
    ensures
        input_backspace(input_insert(v, c)) == v,
{
    assert(v.text.insert(v.cursor, c).remove(v.cursor) =~= v.text);
}

/// Moving left and then right returns to the same place when the cursor was not at the start.
pub proof fn law_left_right_roundtrip(v: InputView)
    requires
        input_wf(v),
        v.cursor > 0,
    ensures
        input_right(input_left(v)) == v,
{
}

/// Inserting a char, stepping back over it and deleting forward gives back the text from before.
pub proof fn law_delete_undoes_insert(v: InputView, c: char)
    requires
        input_wf(v),
    ensures
        input_delete(input_left(input_insert(v, c))) == v,
{
    assert(v.text.insert(v.cursor, c).remove(v.cursor) =~= v.text);
}

// ── EditState ─────────────────────────────────────────────────────────────────

pub struct EditState {
    pub attr: String,
    pub old_value: String,
    pub input: TextInput,
}

impl EditState {
    /// Edit an existing value (preset `input` to the current value).
    pub fn edit(attr: String, current: String) -> (r: Self)
        ensures
            r.attr@ == attr@,
            r.old_value@ == current@,
            r.input@ == (InputView { text: current@, cursor: current@.len() as int }),
    {
        let old_value = current.clone();
        EditState { attr, old_value, input: TextInput::with_text(current) }
    }

    /// Add a new value (`input` starts empty).
    pub fn add(attr: String) -> (r: Self)
        ensures
            r.attr@ == attr@,
            r.old_value@ == Seq::<char>::empty(),
            r.input@ == (InputView { text: Seq::empty(), cursor: 0 }),
    {
        EditState { attr, old_value: String::new(), input: TextInput::new() }
    }

    /// Delete an existing value (old_value = current value, `input` is unused).
    pub fn delete(attr: String, current: String) -> (r: Self)
        ensures
            r.attr@ == attr@,
            r.old_value@ == current@,
            r.input@ == (InputView { text: Seq::empty(), cursor: 0 }),
    {
        EditState { attr, old_value: current, input: TextInput::new() }
    }

    /// Attribute-name input mode (attr/old_value empty; the name goes into `input`).
    pub fn attr_name() -> (r: Self)
        ensures
            r.attr@ == Seq::<char>::empty(),
            r.old_value@ == Seq::<char>::empty(),
            r.input@ == (InputView { text: Seq::empty(), cursor: 0 }),
    {
        EditState { attr: String::new(), old_value: String::new(), input: TextInput::new() }
    }
}

// ── LdapEntry ─────────────────────────────────────────────────────────────────

pub struct LdapEntry {
    pub dn: String,
    pub oc_values: Vec<String>,
    pub attr_rows: Vec<(String, String)>,
    pub op_rows: Vec<(String, String)>,
    pub attr_w: usize,
}

/// The name of each (name, value) row.
pub open spec fn row_names(rows: Seq<(String, String)>) -> Seq<Seq<char>> {
    rows.map_values(|r: (String, String)| r.0@)
}

/// The objectClass attribute's name in lower case.
pub open spec fn objectclass_lower() -> Seq<char> {
    seq!['o', 'b', 'j', 'e', 'c', 't', 'c', 'l', 'a', 's', 's']
}

/// The lower-cased names of existing user attributes plus "objectclass", as a set.
pub open spec fn existing_names(rows: Seq<(String, String)>) -> Set<Seq<char>> {
    row_names(rows).map_values(|a: Seq<char>| lowercase(a)).to_set().insert(objectclass_lower())
}

/// Whether `v` holds `x` (by char content).
pub fn contains_str(v: &Vec<String>, x: &str) -> (r: bool)
    ensures
        r == views(v@).contains(x@),
{
    let mut i: usize = 0;
    while i < v.len()
        invariant
            i <= v@.len(),
            forall|j: int| 0 <= j < i ==> v@[j]@ != x@,
        decreases v@.len() - i,
    {
        if str_eq(v[i].as_str(), x) {
            assert(views(v@)[i as int] == x@);
            return true;
        }
        i += 1;
    }
    assert forall|j: int| 0 <= j < views(v@).len() implies views(v@)[j] != x@ by {
        assert(views(v@)[j] == v@[j]@);
    }
    false
}

/// The string "objectclass".
pub fn objectclass_string() -> (r: String)
    ensures
        r@ == objectclass_lower(),
{
    let cs: Vec<char> = vec!['o', 'b', 'j', 'e', 'c', 't', 'c', 'l', 'a', 's', 's'];
    let r = string_of(cs.as_slice());
    assert(r@ =~= objectclass_lower());
    r
}

impl LdapEntry {
    /// Set of existing user attribute names (lowercase) plus "objectclass", each once.
    /// Used by the schema picker and the MUST attribute queue to identify
    /// attributes that already have values.
    pub fn existing_attr_names_lower(&self) -> (r: Vec<String>)
        ensures
            views(r@).to_set() == existing_names(self.attr_rows@),
            views(r@).no_duplicates(),
    {
        let mut r: Vec<String> = Vec::new();
        let mut i: usize = 0;
        let ghost lowered = row_names(self.attr_rows@).map_values(|a: Seq<char>| lowercase(a));
        while i < self.attr_rows.len()
            invariant
                i <= self.attr_rows@.len(),
                lowered == row_names(self.attr_rows@).map_values(|a: Seq<char>| lowercase(a)),
                views(r@).to_set() == lowered.take(i as int).to_set(),
                views(r@).no_duplicates(),
            decreases self.attr_rows@.len() - i,
        {
            let lower = to_lower(self.attr_rows[i].0.as_str());
            assert(lowered[i as int] == lower@);
            assert(lowered.take(i as int + 1) =~= lowered.take(i as int).push(lower@));
            if !contains_str(&r, lower.as_str()) {
                let ghost before = views(r@);
                r.push(lower);
                assert(views(r@) =~= before.push(lower@));
                proof { lemma_push_no_dup(before, lower@); }
            } else {
                assert(views(r@).to_set().contains(lower@));
                assert(views(r@).to_set() =~= views(r@).to_set().insert(lower@));
            }
            i += 1;
        }
        assert(lowered.take(i as int) =~= lowered);
        let oc = objectclass_string();
        if !contains_str(&r, oc.as_str()) {
            let ghost before = views(r@);
            r.push(oc);
            assert(views(r@) =~= before.push(objectclass_lower()));
            proof { lemma_push_no_dup(before, objectclass_lower()); }
        } else {
            assert(views(r@).to_set() =~= views(r@).to_set().insert(objectclass_lower()));
        }
        r
    }
}

// ── Selection ─────────────────────────────────────────────────────────────────

/// The detail-pane row under the cursor.
pub enum Selection<'e> {
    ObjectClass { index: usize, value: &'e str },
    OcPlusRow,
    Attr { attr: &'e str, value: &'e str },
    AttrPlusRow,
    /// read-only
    OpAttr { attr: &'e str, value: &'e str },
}

impl<'e> Selection<'e> {
    pub fn is_oc(&self) -> (r: bool)
        ensures
            r == (self is ObjectClass),
    {
        matches!(self, Selection::ObjectClass { .. })
    }

    pub fn is_oc_plus(&self) -> (r: bool)
        ensures
            r == (self is OcPlusRow),
    {
        matches!(self, Selection::OcPlusRow)
    }

    pub fn is_attr_plus(&self) -> (r: bool)
        ensures
            r == (self is AttrPlusRow),
    {
        matches!(self, Selection::AttrPlusRow)
    }

    pub fn is_op(&self) -> (r: bool)
        ensures
            r == (self is OpAttr),
    {
        matches!(self, Selection::OpAttr { .. })
    }
}

} // verus!
