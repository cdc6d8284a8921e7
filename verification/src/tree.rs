//! The DIT tree view: a root node, a cursor over its flattened rows, and the base DN.
use vstd::prelude::*;

use crate::model::{
    find_node, flat_rows, flat_rows_list, flat_spec, flat_view, flat_views, has_dn, lemma_nodes_view, nodes_view, replace_node, DitNode,
    FlatEntry, FlatItem, NodeView,
};
use crate::text::copy_string;

verus! {

// ── ChildNode ─────────────────────────────────────────────────────────────────

/// One child entry as listed by the directory: its DN and whether it has subordinates.
pub struct ChildNode {
    pub dn: String,
    pub has_children: bool,
}

/// The unloaded tree node that stands for a listed child.
pub open spec fn child_view(c: ChildNode) -> NodeView {
    NodeView { dn: c.dn@, has_children: c.has_children, expanded: false, children: None }
}

/// The unloaded tree nodes that stand for a list of children, in order.
pub open spec fn child_views(cs: Seq<ChildNode>) -> Seq<NodeView> {
    cs.map_values(|c: ChildNode| child_view(c))
}

fn child_to_dit(c: &ChildNode) -> (r: DitNode)
    ensures
        r@ == child_view(*c),
{
    DitNode::unloaded(copy_string(&c.dn), c.has_children)
}

fn children_to_dit(children: &Vec<ChildNode>) -> (r: Vec<DitNode>)
    ensures
        nodes_view(r@) == child_views(children@),
{
    let mut r: Vec<DitNode> = Vec::new();
    let mut i: usize = 0;
    while i < children.len()
        invariant
            i <= children@.len(),
            r@.len() == i,
            forall|k: int| 0 <= k < i ==> #[trigger] r@[k]@ == child_view(children@[k]),
        decreases children@.len() - i,
    {
        let d = child_to_dit(&children[i]);
        r.push(d);
        i += 1;
    }
    proof { lemma_nodes_view(r@); }
    assert(nodes_view(r@) =~= child_views(children@));
    r
}

// ── Tree models ───────────────────────────────────────────────────────────────

/// Model of the tree view.
pub struct TreeView {
    pub root: NodeView,
    pub cursor: int,
    pub base_dn: Seq<char>,
}

/// The node with DN `dn` collapsed (its children stay cached); unchanged when absent.
pub open spec fn collapse_at(root: NodeView, dn: Seq<char>) -> NodeView {
    if has_dn(root, dn) {
        replace_node(root, dn, NodeView { expanded: false, ..find_node(root, dn) })
    } else {
        root
    }
}

/// The node with DN `dn` given `kids` as its children and expanded; unchanged when absent.
pub open spec fn expand_tree_at(root: NodeView, dn: Seq<char>, kids: Seq<NodeView>) -> NodeView {
    if has_dn(root, dn) {
        replace_node(root, dn, NodeView { children: Some(kids), expanded: true, ..find_node(root, dn) })
    } else {
        root
    }
}

/// The node with DN `dn` marked as having no children; unchanged when absent.
pub open spec fn no_children_at(root: NodeView, dn: Seq<char>) -> NodeView {
    if has_dn(root, dn) {
        replace_node(root, dn, NodeView { has_children: false, children: Some(Seq::empty()), ..find_node(root, dn) })
    } else {
        root
    }
}

/// The last row before `end` that is shallower than `depth`, or -1.
pub open spec fn last_shallower(rows: Seq<FlatItem>, end: int, depth: int) -> int
    decreases end,
{
    if end <= 0 {
        -1
    } else if rows[end - 1].depth < depth {
        end - 1
    } else {
        last_shallower(rows, end - 1, depth)
    }
}

proof fn lemma_last_shallower(rows: Seq<FlatItem>, end: int, depth: int)
    requires
        0 <= end <= rows.len(),
    ensures
        -1 <= last_shallower(rows, end, depth) < end,
        last_shallower(rows, end, depth) >= 0 ==> rows[last_shallower(rows, end, depth)].depth < depth,
        forall|j: int| last_shallower(rows, end, depth) < j < end ==> #[trigger] rows[j].depth >= depth,
    decreases end,
{
    if end > 0 && rows[end - 1].depth >= depth {
        lemma_last_shallower(rows, end - 1, depth);
    }
}

/// A row of a flattened tree always exists: the root's.
pub proof fn lemma_flat_nonempty(root: NodeView)
    ensures
        flat_spec(root).len() >= 1,
        flat_spec(root)[0].node == root,
        flat_spec(root)[0].depth == 0,
{
}

/// Surface information about the row under the cursor.
pub struct NodeInfo {
    pub dn: String,
    pub depth: usize,
    pub expanded: bool,
    pub has_children: bool,
}

/// Model of a row summary.
pub struct NodeInfoView {
    pub dn: Seq<char>,
    pub depth: int,
    pub expanded: bool,
    pub has_children: bool,
}

impl View for NodeInfo {
    type V = NodeInfoView;

    open spec fn view(&self) -> NodeInfoView {
        NodeInfoView { dn: self.dn@, depth: self.depth as int, expanded: self.expanded, has_children: self.has_children }
    }
}

/// The summary of a flattened row.
pub open spec fn row_info(r: FlatItem) -> NodeInfoView {
    NodeInfoView { dn: r.node.dn, depth: r.depth, expanded: r.node.expanded, has_children: r.node.has_children }
}

/// Result of `collapse_or_parent`.
pub enum CollapseResult {
    /// Nothing was done (e.g. ← at the root).
    NoOp,
    /// Collapsed an expanded node.
    Collapsed,
    /// Moved the cursor to the parent node (destination DN).
    MovedToParent(String),
}

/// Model of a `CollapseResult`.
pub enum CollapseView {
    NoOp,
    Collapsed,
    MovedToParent(Seq<char>),
}

impl View for CollapseResult {
    type V = CollapseView;

    open spec fn view(&self) -> CollapseView {
        match self {
            CollapseResult::NoOp => CollapseView::NoOp,
            CollapseResult::Collapsed => CollapseView::Collapsed,
            CollapseResult::MovedToParent(s) => CollapseView::MovedToParent(s@),
        }
    }
}

/// ← on the tree: an expanded row collapses; another row moves the cursor to its parent;
/// the root, or a cursor off the rows, stays.
pub open spec fn collapse_step(t: TreeView, t2: TreeView, r: CollapseView) -> bool {
    match cursor_row(t) {
        None => r == CollapseView::NoOp && t2 == t,
        Some(row) => if row.node.expanded {
            r == CollapseView::Collapsed && t2 == (TreeView { root: collapse_at(t.root, row.node.dn), ..t })
        } else {
            match parent_index(t) {
                None => r == CollapseView::NoOp && t2 == t,
                Some(idx) => r == CollapseView::MovedToParent(tree_rows(t)[idx].node.dn) && t2 == (TreeView { cursor: idx, ..t }),
            }
        },
    }
}

// ── Tree ──────────────────────────────────────────────────────────────────────

/// State for the DIT tree view (root + cursor + base_dn).
/// The cursor is an index into the flattened rows; the flattened rows are rebuilt via DFS
/// on each call.
pub struct Tree {
    root: DitNode,
    cursor: usize,
    base_dn: String,
}

impl View for Tree {
    type V = TreeView;

    closed spec fn view(&self) -> TreeView {
        TreeView { root: self.root@, cursor: self.cursor as int, base_dn: self.base_dn@ }
    }
}

/// The flattened rows of a tree model.
pub open spec fn tree_rows(t: TreeView) -> Seq<FlatItem> {
    flat_spec(t.root)
}

/// The row under the cursor, if the cursor lies on a row.
pub open spec fn cursor_row(t: TreeView) -> Option<FlatItem> {
    if 0 <= t.cursor < tree_rows(t).len() {
        Some(tree_rows(t)[t.cursor])
    } else {
        None
    }
}

/// The index of the parent row of the row under the cursor, if it has one.
pub open spec fn parent_index(t: TreeView) -> Option<int> {
    match cursor_row(t) {
        None => None,
        Some(row) => if row.depth == 0 {
            None
        } else {
            let idx = last_shallower(tree_rows(t), t.cursor, row.depth);
            if idx >= 0 {
                Some(idx)
            } else {
                None
            }
        },
    }
}

/// The cursor moved down by one row, stopping on the last row.
pub open spec fn cursor_down_spec(t: TreeView) -> int {
    if t.cursor < tree_rows(t).len() - 1 {
        t.cursor + 1
    } else {
        t.cursor
    }
}

/// The cursor moved up by one row, stopping on the first row.
pub open spec fn cursor_up_spec(t: TreeView) -> int {
    if t.cursor > 0 {
        t.cursor - 1
    } else {
        0
    }
}

/// The cursor set to `idx`, clamped to the last row.
pub open spec fn set_cursor_spec(t: TreeView, idx: int) -> int {
    if idx < tree_rows(t).len() - 1 {
        idx
    } else {
        tree_rows(t).len() - 1
    }
}

impl Tree {
    /// Build a Tree from a base DN and the already-fetched children (the root is returned expanded).
    pub fn from_children(base_dn: String, children: Vec<ChildNode>) -> (r: Self)
        ensures
            r@ == (TreeView {
                root: NodeView {
                    dn: base_dn@,
                    has_children: children@.len() > 0,
                    expanded: true,
                    children: Some(child_views(children@)),
                },
                cursor: 0,
                base_dn: base_dn@,
            }),
    {
        let has_children = children.len() > 0;
        let kids = children_to_dit(&children);
        let root = DitNode { dn: copy_string(&base_dn), has_children, expanded: true, children: Some(kids) };
        Tree { root, cursor: 0, base_dn }
    }

    /// Build from a single node (e.g. a placeholder used for error display).
    pub fn from_root(root: DitNode, base_dn: String) -> (r: Self)
        ensures
            r@ == (TreeView { root: root@, cursor: 0, base_dn: base_dn@ }),
    {
        Tree { root, cursor: 0, base_dn }
    }

    pub fn root(&self) -> (r: &DitNode)
        ensures
            r@ == self@.root,
    {
        &self.root
    }

    pub fn cursor(&self) -> (r: usize)
        ensures
            r == self@.cursor,
    {
        self.cursor
    }

    pub fn base_dn(&self) -> (r: &str)
        ensures
            r@ == self@.base_dn,
    {
        self.base_dn.as_str()
    }

    /// The flattened rows of the tree.
    pub fn flat(&self) -> (r: Vec<FlatEntry<'_>>)
        ensures
            flat_views(r@) == tree_rows(self@),
    {
        flat_view(&self.root)
    }

    fn row_count(&self) -> (r: usize)
        ensures
            r == tree_rows(self@).len(),
            r >= 1,
    {
        let f = self.flat();
        proof {
            lemma_flat_nonempty(self.root@);
            assert(flat_views(f@).len() == f@.len());
        }
        f.len()
    }

    /// Move the cursor up by one row (stays on the first row).
    pub fn cursor_up(&mut self)
        ensures
            final(self)@ == (TreeView { cursor: cursor_up_spec(old(self)@), ..old(self)@ }),
    {
        self.cursor = if self.cursor > 0 {
            self.cursor - 1
        } else {
            0
        };
    }

    /// Move the cursor down by one row (stays on the last row).
    pub fn cursor_down(&mut self)
        ensures
            final(self)@ == (TreeView { cursor: cursor_down_spec(old(self)@), ..old(self)@ }),
    {
        let n = self.row_count();
        let max = n - 1;
        if self.cursor < max {
            self.cursor = self.cursor + 1;
        }
    }

    /// Set the cursor directly to an arbitrary flattened index (out-of-range values clamp to the end).
    /// Used to move to the parent after a deletion.
    pub fn set_cursor(&mut self, idx: usize)
        ensures
            final(self)@ == (TreeView { cursor: set_cursor_spec(old(self)@, idx as int), ..old(self)@ }),
    {
        let n = self.row_count();
        let max = n - 1;
        self.cursor = if idx < max {
            idx
        } else {
            max
        };
    }

    /// Summary of the row under the cursor.
    pub fn selected_info(&self) -> (r: Option<NodeInfo>)
        ensures
            match cursor_row(self@) {
                None => r is None,
                Some(row) => r is Some && r->0@ == row_info(row),
            },
    {
        let flat = self.flat();
        if self.cursor < flat.len() {
            let e = &flat[self.cursor];
            assert(flat_views(flat@)[self.cursor as int] == e@);
            Some(NodeInfo { dn: copy_string(&e.node.dn), depth: e.depth, expanded: e.node.expanded, has_children: e.node.has_children })
        } else {
            None
        }
    }

    /// DN of the row under the cursor.
    pub fn selected_dn(&self) -> (r: Option<String>)
        ensures
            match cursor_row(self@) {
                None => r is None,
                Some(row) => r is Some && r->0@ == row.node.dn,
            },
    {
        let flat = self.flat();
        if self.cursor < flat.len() {
            let e = &flat[self.cursor];
            assert(flat_views(flat@)[self.cursor as int] == e@);
            Some(copy_string(&e.node.dn))
        } else {
            None
        }
    }

    /// The last row before `end` shallower than `depth`.
    fn find_shallower(flat: &Vec<FlatEntry<'_>>, end: usize, depth: usize) -> (r: Option<usize>)
        requires
            end <= flat@.len(),
        ensures
            match r {
                Some(i) => i as int == last_shallower(flat_views(flat@), end as int, depth as int),
                None => last_shallower(flat_views(flat@), end as int, depth as int) == -1,
            },
    {
        let ghost rows = flat_views(flat@);
        let mut i: usize = end;
        while i > 0
            invariant
                i <= end <= flat@.len(),
                rows == flat_views(flat@),
                last_shallower(rows, i as int, depth as int) == last_shallower(rows, end as int, depth as int),
            decreases i,
        {
            assert(rows[i - 1] == flat@[i - 1]@);
            if flat[i - 1].depth < depth {
                return Some(i - 1);
            }
            i -= 1;
        }
        None
    }

    /// Return (DN, flattened index) of the parent of the node at the cursor.
    /// Returns None when the cursor is at the root (depth=0).
    pub fn parent_info(&self) -> (r: Option<(String, usize)>)
        ensures
            match parent_index(self@) {
                None => r is None,
                Some(idx) => r matches Some((d, i)) && i == idx && d@ == tree_rows(self@)[idx].node.dn,
            },
            r matches Some((_, i)) ==> (tree_rows(self@)[i as int].depth == tree_rows(self@)[self@.cursor].depth - 1
                && (tree_rows(self@)[i as int].node.children matches Some(cs) && cs.contains(tree_rows(self@)[self@.cursor].node))),
            cursor_row(self@) matches Some(row) && row.depth > 0 ==> r is Some,
    {
        proof {
            if cursor_row(self@) matches Some(row) && row.depth > 0 {
                law_parent_is_one_level_up(self@);
            }
        }
        let info = match self.selected_info() {
            Some(i) => i,
            None => return None,
        };
        if info.depth == 0 {
            return None;
        }
        let flat = self.flat();
        match Self::find_shallower(&flat, self.cursor, info.depth) {
            Some(idx) => {
                proof { lemma_last_shallower(flat_views(flat@), self.cursor as int, info.depth as int); }
                assert(flat_views(flat@)[idx as int] == flat@[idx as int]@);
                Some((copy_string(&flat[idx].node.dn), idx))
            },
            None => None,
        }
    }

    /// Collapse or move to parent. If expanded, collapse while keeping the child cache;
    /// if not expanded and not root, move the cursor to the parent.
    pub fn collapse_or_parent(&mut self) -> (r: CollapseResult)
        ensures
            collapse_step(old(self)@, final(self)@, r@),
    {
        let info = match self.selected_info() {
            Some(i) => i,
            None => return CollapseResult::NoOp,
        };
        if info.expanded {
            match self.root.find_mut(info.dn.as_str()) {
                Some(node) => node.collapse(),
                None => {},
            }
            return CollapseResult::Collapsed;
        }
        if info.depth == 0 {
            return CollapseResult::NoOp;
        }
        let found = {
            let flat = self.flat();
            match Self::find_shallower(&flat, self.cursor, info.depth) {
                Some(idx) => {
                    proof { lemma_last_shallower(flat_views(flat@), self.cursor as int, info.depth as int); }
                    assert(flat_views(flat@)[idx as int] == flat@[idx as int]@);
                    Some((copy_string(&flat[idx].node.dn), idx))
                },
                None => None,
            }
        };
        match found {
            Some((parent_dn, idx)) => {
                self.cursor = idx;
                CollapseResult::MovedToParent(parent_dn)
            },
            None => CollapseResult::NoOp,
        }
    }

    /// Set the children on the node at the given DN and mark it expanded.
    pub fn expand_at(&mut self, dn: &str, children: Vec<ChildNode>)
        ensures
            final(self)@ == (TreeView { root: expand_tree_at(old(self)@.root, dn@, child_views(children@)), ..old(self)@ }),
    {
        let kids = children_to_dit(&children);
        match self.root.find_mut(dn) {
            Some(node) => node.set_children(kids),
            None => {},
        }
    }

    /// Mark the node as having no children (has_children=false and children=Some([])).
    pub fn mark_no_children_at(&mut self, dn: &str)
        ensures
            final(self)@ == (TreeView { root: no_children_at(old(self)@.root, dn@), ..old(self)@ }),
    {
        match self.root.find_mut(dn) {
            Some(node) => node.mark_no_children(),
            None => {},
        }
    }
}

// ── Laws ──────────────────────────────────────────────────────────────────────

/// Moving the cursor down and then up returns it to where it was, unless it was on the last row.
pub proof fn law_cursor_down_then_up(t: TreeView)
    requires
        0 <= t.cursor < tree_rows(t).len() - 1,
    ensures
        cursor_up_spec(TreeView { cursor: cursor_down_spec(t), ..t }) == t.cursor,
{
}

/// Moving the cursor up and then down returns it to where it was, unless it was on the first row.
pub proof fn law_cursor_up_then_down(t: TreeView)
    requires
        0 < t.cursor < tree_rows(t).len(),
    ensures
        cursor_down_spec(TreeView { cursor: cursor_up_spec(t), ..t }) == t.cursor,
{
}

/// A cursor on a row stays on a row when moved up or down, and setting the cursor to any
/// index lands it on a row.
pub proof fn law_cursor_stays_on_rows(t: TreeView, idx: int)
    requires
        0 <= t.cursor < tree_rows(t).len(),
        0 <= idx,
    ensures
        0 <= cursor_up_spec(t) < tree_rows(t).len(),
        0 <= cursor_down_spec(t) < tree_rows(t).len(),
        0 <= set_cursor_spec(t, idx) < tree_rows(t).len(),
{
    lemma_flat_nonempty(t.root);
}

/// The parent row of the row under the cursor lies above it, is shallower, and every row in
/// between is at least as deep as the cursor's row.
pub proof fn law_parent_is_nearest_shallower_row(t: TreeView)
    requires
        parent_index(t) is Some,
    ensures
        0 <= parent_index(t)->0 < t.cursor,
        tree_rows(t)[parent_index(t)->0].depth < tree_rows(t)[t.cursor].depth,
        forall|j: int| parent_index(t)->0 < j < t.cursor ==> #[trigger] tree_rows(t)[j].depth >= tree_rows(t)[t.cursor].depth,
{
    lemma_last_shallower(tree_rows(t), t.cursor, tree_rows(t)[t.cursor].depth);
}

/// The root row of a tree is never given a parent.
pub proof fn law_root_has_no_parent(t: TreeView)
    requires
        t.cursor == 0,
    ensures
        parent_index(t) is None,
{
    lemma_flat_nonempty(t.root);
}

/// A node that is collapsed, or whose children are not loaded, shows as its own row alone:
/// none of its descendants appear.
pub proof fn law_hidden_children_show_no_rows(n: NodeView, is_last: bool, cont: Seq<bool>)
    requires
        !n.expanded || n.children is None,
    ensures
        flat_rows(n, is_last, cont) == seq![FlatItem { node: n, depth: cont.len() as int, is_last, continuing: cont }],
{
    assert(flat_rows(n, is_last, cont) =~= seq![FlatItem { node: n, depth: cont.len() as int, is_last, continuing: cont }]);
}

/// Expanding a node (`expand_at`) leaves every node elsewhere as it was: a node that does not
/// hold the expanded one in its subtree, and is neither under it before nor among the new
/// children's subtrees, is found unchanged.
pub proof fn law_expand_keeps_other_nodes(root: NodeView, dn: Seq<char>, kids: Seq<NodeView>, dn2: Seq<char>)
    requires
        has_dn(root, dn2),
        !has_dn(find_node(root, dn2), dn),
        has_dn(root, dn) ==> !has_dn(find_node(root, dn), dn2),
        forall|k: int| 0 <= k < kids.len() ==> !has_dn(#[trigger] kids[k], dn2),
    ensures
        find_node(expand_tree_at(root, dn, kids), dn2) == find_node(root, dn2),
{
    if has_dn(root, dn) {
        let new = NodeView { children: Some(kids), expanded: true, ..find_node(root, dn) };
        assert(!has_dn(new, dn2));
        crate::model::law_replace_keeps_other_nodes(root, dn, new, dn2);
    }
}

/// Marking a node as childless (`mark_no_children_at`) leaves every node elsewhere as it was:
/// a node that does not hold the marked one in its subtree, and is not under it, is found
/// unchanged.
pub proof fn law_mark_no_children_keeps_other_nodes(root: NodeView, dn: Seq<char>, dn2: Seq<char>)
    requires
        has_dn(root, dn2),
        !has_dn(find_node(root, dn2), dn),
        has_dn(root, dn) ==> !has_dn(find_node(root, dn), dn2),
    ensures
        find_node(no_children_at(root, dn), dn2) == find_node(root, dn2),
{
    if has_dn(root, dn) {
        let new = NodeView { has_children: false, children: Some(Seq::empty()), ..find_node(root, dn) };
        assert(!has_dn(new, dn2));
        crate::model::law_replace_keeps_other_nodes(root, dn, new, dn2);
    }
}

/// After collapsing the node with DN `dn`, finding that DN gives the same node, no longer
/// expanded and with its children kept.
pub proof fn law_collapse_finds_collapsed(root: NodeView, dn: Seq<char>)
    requires
        has_dn(root, dn),
    ensures
        find_node(collapse_at(root, dn), dn) == (NodeView { expanded: false, ..find_node(root, dn) }),
{
    crate::model::lemma_find_node_dn(root, dn);
    crate::model::law_find_after_replace(root, dn, NodeView { expanded: false, ..find_node(root, dn) });
}

/// Collapsing a node leaves every node elsewhere as it was: a node that does not hold the
/// collapsed one in its subtree, and is not under it, is found unchanged.
pub proof fn law_collapse_keeps_other_nodes(root: NodeView, dn: Seq<char>, dn2: Seq<char>)
    requires
        has_dn(root, dn2),
        !has_dn(find_node(root, dn2), dn),
        has_dn(root, dn) ==> !has_dn(find_node(root, dn), dn2),
    ensures
        find_node(collapse_at(root, dn), dn2) == find_node(root, dn2),
{
    if has_dn(root, dn) {
        let new = NodeView { expanded: false, ..find_node(root, dn) };
        assert(!has_dn(new, dn2)) by {
            assert(has_dn(new, dn2) == has_dn(find_node(root, dn), dn2));
        }
        crate::model::law_replace_keeps_other_nodes(root, dn, new, dn2);
    }
}

/// After `expand_at`, finding the DN gives the same node, expanded, with exactly the given
/// children, its DN and `has_children` unchanged.
pub proof fn law_expand_finds_expanded(root: NodeView, dn: Seq<char>, kids: Seq<NodeView>)
    requires
        has_dn(root, dn),
    ensures
        find_node(expand_tree_at(root, dn, kids), dn) == (NodeView { children: Some(kids), expanded: true, ..find_node(root, dn) }),
{
    crate::model::lemma_find_node_dn(root, dn);
    crate::model::law_find_after_replace(root, dn, NodeView { children: Some(kids), expanded: true, ..find_node(root, dn) });
}

/// After `mark_no_children_at`, finding the DN gives the same node with no children and
/// `has_children` false, its DN and expansion unchanged.
pub proof fn law_mark_no_children_finds_marked(root: NodeView, dn: Seq<char>)
    requires
        has_dn(root, dn),
    ensures
        find_node(no_children_at(root, dn), dn) == (NodeView { has_children: false, children: Some(Seq::empty()), ..find_node(root, dn) }),
{
    crate::model::lemma_find_node_dn(root, dn);
    crate::model::law_find_after_replace(root, dn, NodeView { has_children: false, children: Some(Seq::empty()), ..find_node(root, dn) });
}

/// Row `i`'s parent, found as the nearest shallower row before it, is one level up and lists
/// row `i`'s node among its children.
pub open spec fn parent_ok(rows: Seq<FlatItem>, i: int) -> bool {
    let j = last_shallower(rows, i, rows[i].depth);
    &&& 0 <= j < i
    &&& rows[j].depth == rows[i].depth - 1
    &&& rows[j].node.children matches Some(cs) && cs.contains(rows[i].node)
}

proof fn lemma_last_shallower_at(rows: Seq<FlatItem>, e: int, end: int, depth: int)
    requires
        0 <= e < end <= rows.len(),
        rows[e].depth < depth,
        forall|j: int| e < j < end ==> #[trigger] rows[j].depth >= depth,
    ensures
        last_shallower(rows, end, depth) == e,
    decreases end,
{
    if end - 1 > e {
        lemma_last_shallower_at(rows, e, end - 1, depth);
    }
}

proof fn lemma_last_shallower_shift(s1: Seq<FlatItem>, s2: Seq<FlatItem>, k: int, depth: int)
    requires
        0 <= k <= s2.len(),
        last_shallower(s2, k, depth) >= 0,
    ensures
        last_shallower(s1 + s2, s1.len() + k, depth) == s1.len() + last_shallower(s2, k, depth),
    decreases k,
{
    let s = s1 + s2;
    assert(s[s1.len() + k - 1] == s2[k - 1]);
    if s2[k - 1].depth >= depth {
        lemma_last_shallower_shift(s1, s2, k - 1, depth);
    }
}

/// The rows of one subtree: the node itself first, deeper rows after it, each deeper row with
/// its parent one level up.
proof fn lemma_flat_rows_parents(n: NodeView, is_last: bool, cont: Seq<bool>)
    ensures
        ({
            let rows = flat_rows(n, is_last, cont);
            &&& rows.len() >= 1
            &&& rows[0].node == n
            &&& rows[0].depth == cont.len()
            &&& forall|i: int| 0 < i < rows.len() ==> (#[trigger] rows[i]).depth > cont.len()
            &&& forall|i: int| 0 < i < rows.len() ==> parent_ok(rows, i)
        }),
    decreases n, 0int,
{
    let rows = flat_rows(n, is_last, cont);
    let head = seq![FlatItem { node: n, depth: cont.len() as int, is_last, continuing: cont }];
    if n.expanded && n.children is Some {
        let cs = n.children->0;
        let c2 = cont.push(!is_last);
        let l = flat_rows_list(cs, c2);
        lemma_flat_list_parents(cs, c2);
        assert(rows == head + l);
        assert forall|i: int| 0 < i < rows.len() implies (#[trigger] rows[i]).depth > cont.len() by {
            assert(rows[i] == l[i - 1]);
        }
        assert forall|i: int| 0 < i < rows.len() implies parent_ok(rows, i) by {
            let k = i - 1;
            assert(rows[i] == l[k]);
            if l[k].depth > c2.len() {
                assert(parent_ok(l, k));
                lemma_last_shallower_shift(head, l, k, l[k].depth);
                let j = last_shallower(l, k, l[k].depth);
                assert(rows[j + 1] == l[j]);
            } else {
                assert forall|j: int| 0 < j < i implies #[trigger] rows[j].depth >= rows[i].depth by {
                    assert(rows[j] == l[j - 1]);
                }
                lemma_last_shallower_at(rows, 0, i, rows[i].depth);
                assert(cs.contains(l[k].node));
            }
        }
    } else {
        assert(rows == head);
    }
}

/// The rows of a list of siblings at depth `cont.len()`: every row at that depth is one of the
/// siblings, deeper rows have their parent one level up.
proof fn lemma_flat_list_parents(cs: Seq<NodeView>, cont: Seq<bool>)
    ensures
        ({
            let rows = flat_rows_list(cs, cont);
            &&& forall|i: int| 0 <= i < rows.len() ==> (#[trigger] rows[i]).depth >= cont.len()
            &&& forall|i: int| 0 <= i < rows.len() && rows[i].depth == cont.len() ==> cs.contains(#[trigger] rows[i].node)
            &&& forall|i: int| 0 <= i < rows.len() && (#[trigger] rows[i]).depth > cont.len() ==> parent_ok(rows, i)
        }),
    decreases cs, 1int,
{
    if cs.len() > 0 {
        let a = flat_rows(cs[0], cs.len() == 1, cont);
        let b = flat_rows_list(cs.drop_first(), cont);
        let rows = flat_rows_list(cs, cont);
        lemma_flat_rows_parents(cs[0], cs.len() == 1, cont);
        lemma_flat_list_parents(cs.drop_first(), cont);
        assert(rows == a + b);
        assert forall|i: int| 0 <= i < rows.len() implies (#[trigger] rows[i]).depth >= cont.len() by {
            if i >= a.len() {
                assert(rows[i] == b[i - a.len()]);
            }
        }
        assert forall|i: int| 0 <= i < rows.len() && rows[i].depth == cont.len() implies cs.contains(#[trigger] rows[i].node) by {
            if i >= a.len() {
                assert(rows[i] == b[i - a.len()]);
                let x = rows[i].node;
                assert(cs.drop_first().contains(x));
                let k = choose|k: int| 0 <= k < cs.drop_first().len() && cs.drop_first()[k] == x;
                assert(cs[k + 1] == x);
            } else if i > 0 {
                assert(rows[i] == a[i]);
            } else {
                assert(rows[0] == a[0]);
                assert(cs[0] == a[0].node);
            }
        }
        assert forall|i: int| 0 <= i < rows.len() && (#[trigger] rows[i]).depth > cont.len() implies parent_ok(rows, i) by {
            if i >= a.len() {
                let k = i - a.len();
                assert(rows[i] == b[k]);
                assert(parent_ok(b, k));
                lemma_last_shallower_shift(a, b, k, b[k].depth);
                let j = last_shallower(b, k, b[k].depth);
                assert(rows[j + a.len()] == b[j]);
            } else {
                assert(rows[i] == a[i]);
                assert(i > 0);
                assert(parent_ok(a, i));
                let j = last_shallower(a, i, a[i].depth);
                lemma_last_shallower(a, i, a[i].depth);
                assert forall|m: int| j < m < i implies #[trigger] rows[m].depth >= rows[i].depth by {
                    assert(rows[m] == a[m]);
                }
                assert(rows[j] == a[j]);
                lemma_last_shallower_at(rows, j, i, rows[i].depth);
            }
        }
    }
}

/// The parent of the row under the cursor is one level up and lists the cursor's node among its
/// children; every row below the root has one.
pub proof fn law_parent_is_one_level_up(t: TreeView)
    requires
        cursor_row(t) is Some,
        cursor_row(t)->0.depth > 0,
    ensures
        parent_index(t) is Some,
        tree_rows(t)[parent_index(t)->0].depth == tree_rows(t)[t.cursor].depth - 1,
        tree_rows(t)[parent_index(t)->0].node.children matches Some(cs) && cs.contains(tree_rows(t)[t.cursor].node),
{
    lemma_flat_rows_parents(t.root, true, Seq::empty());
    let rows = tree_rows(t);
    assert(t.cursor > 0);
    assert(parent_ok(rows, t.cursor));
}

} // verus!
