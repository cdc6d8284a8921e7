//! The editor's state machine. Every key press and every directory reply is a step from one
//! state to the next; a step may ask for one directory request, whose reply is the next step.
use vstd::prelude::*;

use std::collections::VecDeque;

use crate::actions::{
    add_request_ok, first_blank, form_built, distinct_names, mod_views, normalized_filter_spec, ModView, objectclass_attr, row_orphaned, supported_attrs,
    add_value_mods, create_child_request, delete_value_mods, edit_value_mods, form_for_rdn, missing_must_attrs,
    normalize_filter, oc_add_mods, oc_delete_mods, orphaned_attrs_for_oc_delete, objectclass_attr_string, AddRequest,
    ModOp,
};
use crate::detail::{entry_fits, moved_to, nav_len_spec, selected_spec, DetailModel, DetailView, SelectionView};
use crate::keys::{KeyCode, KeyEvent, KeyModifiers};
use crate::model::{input_end, input_backspace, input_insert, input_key as input_key_spec, existing_names, objectclass_lower, DitNode, EditState, InputView, LdapEntry, Pane, Selection, TextInput};
use crate::schema::closure::{first_names, may_of, must_of, sup_chain_keys};
use crate::sorted::strictly_sorted;
use crate::schema::cache::SchemaCache;
use crate::schema::picker::{
    attr_picker_result, entry_oc_set, may_of_all, must_of_all, oc_picker_result,
    build_oc_picker_entries, build_picker_entries, build_rdn_picker_entries, build_structural_oc_picker_entries,
};
use crate::state::{
    focus_next_spec, focus_prev_spec, FormField, clamp_selected, filter_result, list_down, list_up, rdn_initial_spec, all_indices,
    pick_rdn_initial, CreateChildState, CreatePhase, EntryDeleteState, FormFocus, FormState, Mode, OcDeleteState,
    PendingExpansion, PickerState, RdnPickState, SearchState, SuffixSelection,
};
use crate::text::{copy_string, str_eq, trim, trim_spec, views};
use crate::schema::types::{entry_views, PickerEntry};
use crate::tree::{
    collapse_step, cursor_down_spec, cursor_up_spec, parent_index, CollapseView, child_views, cursor_row, expand_tree_at, no_children_at, set_cursor_spec, tree_rows, ChildNode, CollapseResult, Tree, TreeView,
};
use crate::model::{FlatItem, NodeView};
use crate::schema::cache::{attr_oids, oc_oids};

verus! {

/// Show a confirmation dialog before expanding when the child count exceeds this threshold.
pub const EXPAND_CONFIRM_THRESHOLD: usize = 100;

// ── Status line ──────────────────────────────────────────────────────────────

/// The message shown in the status bar.
pub enum Status {
    Empty,
    Connected(String),
    ConnectedSelectContext(String),
    ConnectionFailed(String),
    ErrorPrefix(String),
    SchemaSummary(Box<Status>, usize, usize),
    SchemaError(Box<Status>, String),
    FetchError(String),
    SearchError(String),
    ExpandConfirm(usize),
    ExpandError(String),
    OpReadonly,
    OcDeleteOnly,
    SchemaNotLoaded,
    NoOcToAdd,
    OcAddError(String),
    OcAdded(String),
    InputMustAttr(String),
    OcDeleted(String),
    Modified(String),
    Added(String),
    Deleted(String),
    RootUndeletable,
    SchemaRequiredForCreate,
    NoStructuralOc,
    NoMustMayAttrs(String),
    Cancelled,
    FieldEmpty(String),
    AddError(String),
    Created(String),
    DeleteError(String),
    ParentRefetchFailed(Box<Status>, String),
}

// ── Directory requests and replies ───────────────────────────────────────────

/// One directory operation the editor asks for.
pub enum Request {
    /// Read the entry at this DN (user and operational attributes).
    FetchEntry(String),
    /// List the children of this DN.
    Children(String),
    /// Subtree search under a base DN with a filter.
    Search(String, String),
    /// Modify the entry at this DN.
    Modify(String, Vec<ModOp>),
    /// Delete the entry at this DN.
    Delete(String),
    /// Create an entry.
    Add(AddRequest),
    /// Read and parse the subschema.
    FetchSchema,
}

/// The reply to a request: `None` when there is no directory connection, else its result
/// (errors as text).
pub enum Outcome {
    Entry(Option<Result<LdapEntry, String>>),
    Children(Option<Result<Vec<ChildNode>, String>>),
    Search(Option<Result<Vec<String>, String>>),
    Modify(Option<Result<(), String>>),
    Delete(Option<Result<(), String>>),
    Add(Option<Result<(), String>>),
    Schema(Option<Result<SchemaCache, String>>),
}

/// What to do once an entry has been (re)loaded.
pub enum AfterFetch {
    Nothing,
    /// Load the schema next.
    LoadSchema,
    /// Queue the MUST attributes of a just-added objectClass that still lack a value.
    QueueMust(String),
    /// Open the next queued MUST attribute if the editor is back in Browse.
    NextMust,
}

/// What a modification was for.
pub enum ModifyKind {
    Edit(String),
    AddValue(String),
    DeleteValue(String),
    OcAdd(String),
    OcDelete(String),
}

/// The step that the next reply continues.
pub enum Pending {
    Idle,
    Fetch(String, AfterFetch),
    Schema,
    Expand(String),
    Suffix(String),
    Search,
    Modify(String, ModifyKind, AfterFetch),
    CreateAdd(String, FormState, String),
    CreateRefresh(String, String),
    EntryDelete(String, Option<(String, usize)>),
    EntryDeleteRefresh(String, usize),
}

/// How the editor starts once connected.
pub enum StartPlan {
    /// Browse under this base DN.
    Direct(String),
    /// Let the user pick one of these naming contexts.
    Select(Vec<String>),
}

/// `-b` given, or a single naming context → start browsing; several → let the user choose.
pub fn plan_start(base_dn_override: Option<&str>, contexts: Vec<String>) -> (r: StartPlan)
    ensures
        match base_dn_override {
            Some(b) => r matches StartPlan::Direct(d) && d@ == b@,
            None => if contexts@.len() == 1 {
                r matches StartPlan::Direct(d) && d == contexts@[0]
            } else {
                r matches StartPlan::Select(c) && c == contexts
            },
        },
{
    match base_dn_override {
        Some(b) => StartPlan::Direct(b.to_string()),
        None => if contexts.len() == 1 {
            let mut contexts = contexts;
            StartPlan::Direct(contexts.remove(0))
        } else {
            StartPlan::Select(contexts)
        },
    }
}

// ── Transition relations ─────────────────────────────────────────────────────

/// An input holding nothing.
pub open spec fn empty_input() -> InputView {
    InputView { text: Seq::empty(), cursor: 0 }
}

/// `es` is the editor for adding a value to `attr` (empty input).
pub open spec fn adds_value_to(m: Mode, attr: Seq<char>) -> bool {
    m matches Mode::AddValue(es) && es.attr@ == attr && es.old_value@ == Seq::<char>::empty() && es.input@ == empty_input()
}

/// The next queued MUST attribute was opened: popped from the queue, announced, and its value
/// editor shown; nothing else changed.
pub open spec fn opened_next_must(o: App, n: App) -> bool {
    &&& o.pending_must_queue@.len() > 0
    &&& n == App { mode: n.mode, status: n.status, pending_must_queue: n.pending_must_queue, ..o }
    &&& n.pending_must_queue@ == o.pending_must_queue@.drop_first()
    &&& n.status == Status::InputMustAttr(o.pending_must_queue@[0])
    &&& adds_value_to(n.mode, o.pending_must_queue@[0]@)
}

/// The MUST attributes of `oc` (across its SUP chain) that the entry lacks, in ascending order.
pub open spec fn missing_must_ok(s: Seq<Seq<char>>, e: LdapEntry, c: SchemaCache, oc: Seq<char>) -> bool {
    &&& strictly_sorted(s)
    &&& s.to_set() == must_of(c.ocs(), sup_chain_keys(c.ocs(), oc)).filter(
        |x: Seq<char>| x != objectclass_lower() && !existing_names(e.attr_rows@).contains(x),
    )
}

/// The queue got the entry's missing MUST attributes of `oc` appended (nothing when no entry or schema).
pub open spec fn queued_missing(o: App, n: App, oc: Seq<char>) -> bool {
    match (o.current_entry, o.schema_cache) {
        (Some(e), Some(c)) => {
            &&& n == App { pending_must_queue: n.pending_must_queue, ..o }
            &&& n.pending_must_queue@.len() >= o.pending_must_queue@.len()
            &&& n.pending_must_queue@.take(o.pending_must_queue@.len() as int) == o.pending_must_queue@
            &&& missing_must_ok(views(n.pending_must_queue@.skip(o.pending_must_queue@.len() as int)), e, c, oc)
        },
        _ => n == o,
    }
}

/// What follows an entry fetch, from state `o` (pending already cleared) to `n`, asking for `r`.
pub open spec fn finished(o: App, n: App, after: AfterFetch, r: Option<Request>) -> bool {
    match after {
        AfterFetch::Nothing => r is None && n == App { pending: Pending::Idle, ..o },
        AfterFetch::LoadSchema => r == Some(Request::FetchSchema) && n == App { pending: Pending::Schema, ..o },
        AfterFetch::QueueMust(oc) => r is None && n.pending is Idle && exists|mid: App| {
            &&& #[trigger] queued_missing(App { pending: Pending::Idle, ..o }, mid, oc@)
            &&& if mid.pending_must_queue@.len() > 0 { opened_next_must(mid, n) } else { n == mid }
        },
        AfterFetch::NextMust => r is None && if o.mode is Browse && o.pending_must_queue@.len() > 0 {
            opened_next_must(App { pending: Pending::Idle, ..o }, n)
        } else {
            n == App { pending: Pending::Idle, ..o }
        },
    }
}

/// Showing the entry at `dn`: nothing to fetch when it is already shown (just what follows),
/// else a fetch request with the follow-up pending.
pub open spec fn fetched(o: App, n: App, dn: String, after: AfterFetch, r: Option<Request>) -> bool {
    if o.current_entry matches Some(e) && e.dn@ == dn@ {
        finished(o, n, after, r)
    } else {
        r == Some(Request::FetchEntry(dn)) && n == App { pending: Pending::Fetch(dn, after), ..o }
    }
}

/// The DN of the tree row under the cursor.
pub open spec fn tree_selected_dn(a: App) -> Option<Seq<char>> {
    match a.browse {
        Some(t) => match cursor_row(t@) {
            Some(row) => Some(row.node.dn),
            None => None,
        },
        None => None,
    }
}

/// The DN of the highlighted search result.
pub open spec fn search_selected_dn(a: App) -> Option<String> {
    match a.search.selected {
        Some(i) => if i < a.search.results@.len() { Some(a.search.results@[i as int]) } else { None },
        None => None,
    }
}

/// Showing the tree's selected entry.
pub open spec fn fetched_selected(o: App, n: App, after: AfterFetch, r: Option<Request>) -> bool {
    match tree_selected_dn(o) {
        Some(dn) => exists|d: String| d@ == dn && #[trigger] fetched(o, n, d, after, r),
        None => finished(o, n, after, r),
    }
}

/// Showing the search's selected entry.
pub open spec fn fetched_search_selected(o: App, n: App, after: AfterFetch, r: Option<Request>) -> bool {
    match search_selected_dn(o) {
        Some(dn) => fetched(o, n, dn, after, r),
        None => finished(o, n, after, r),
    }
}

/// The optional tree is updated by `f` (and stays absent when absent).
pub open spec fn browse_updated(ob: Option<Tree>, nb: Option<Tree>, f: spec_fn(TreeView) -> TreeView) -> bool {
    match ob {
        None => nb is None,
        Some(t) => nb matches Some(t2) && t2@ == f(t@),
    }
}

/// The first row at or after `k` whose DN is `dn`.
pub open spec fn first_row_with_dn(rows: Seq<FlatItem>, dn: Seq<char>, k: int) -> Option<int>
    decreases rows.len() - k,
{
    if k < 0 || k >= rows.len() {
        None
    } else if rows[k].node.dn == dn {
        Some(k)
    } else {
        first_row_with_dn(rows, dn, k + 1)
    }
}

/// The tree after a new child was created: the parent's children replaced, and the cursor on
/// the new entry's row when it shows.
pub open spec fn after_create_refresh(t: TreeView, parent: Seq<char>, kids: Seq<NodeView>, new_dn: Seq<char>) -> TreeView {
    let t1 = TreeView { root: expand_tree_at(t.root, parent, kids), ..t };
    match first_row_with_dn(tree_rows(t1), new_dn, 0) {
        Some(i) => TreeView { cursor: set_cursor_spec(t1, i), ..t1 },
        None => t1,
    }
}

/// The tree after an entry was deleted: the parent's children replaced (or marked as none),
/// and the cursor on the parent's former row.
pub open spec fn after_delete_refresh(t: TreeView, parent: Seq<char>, kids: Seq<NodeView>, parent_idx: int) -> TreeView {
    let t1 = if kids.len() == 0 {
        TreeView { root: no_children_at(t.root, parent), ..t }
    } else {
        TreeView { root: expand_tree_at(t.root, parent, kids), ..t }
    };
    TreeView { cursor: set_cursor_spec(t1, parent_idx), ..t1 }
}

/// The detail pane back at its first row and value column, scrolled to the top.
pub open spec fn detail_reset(d: DetailModel) -> DetailModel {
    DetailModel { row: 0, col: 1, scroll: 0, ..d }
}

/// The status after a value modification: its success message, or the error.
pub open spec fn modify_status(kind: ModifyKind, res: Result<(), String>) -> Status {
    match res {
        Err(e) => Status::ErrorPrefix(e),
        Ok(_) => match kind {
            ModifyKind::Edit(a) => Status::Modified(a),
            ModifyKind::AddValue(a) => Status::Added(a),
            ModifyKind::DeleteValue(a) => Status::Deleted(a),
            ModifyKind::OcAdd(oc) => Status::OcAdded(oc),
            ModifyKind::OcDelete(oc) => Status::OcDeleted(oc),
        },
    }
}

/// How a directory reply moves the editor from `o` to `n`, asking for `r`. A reply that does not
/// answer the pending step is dropped.
pub open spec fn outcome_step(o: App, n: App, outcome: Outcome, r: Option<Request>) -> bool {
    let o1 = App { pending: Pending::Idle, ..o };
    match (o.pending, outcome) {
        (Pending::Fetch(_dn, after), Outcome::Entry(res)) => match res {
            None => r is None && n == o1,
            Some(Ok(entry)) => exists|dv: DetailView| dv@ == detail_reset(o.detail_view@) && #[trigger] finished(
                App { detail_view: dv, current_entry: Some(entry), ..o1 },
                n,
                after,
                r,
            ),
            Some(Err(e)) => finished(App { status: Status::FetchError(e), ..o1 }, n, after, r),
        },
        (Pending::Schema, Outcome::Schema(res)) => r is None && match res {
            None => n == o1,
            Some(Ok(cache)) => n == App {
                status: Status::SchemaSummary(Box::new(o.status), attr_oids(cache.attrs()).len() as usize, oc_oids(cache.ocs()).len() as usize),
                schema_cache: Some(cache),
                ..o1
            },
            Some(Err(e)) => n == App { status: Status::SchemaError(Box::new(o.status), e), ..o1 },
        },
        (Pending::Expand(dn), Outcome::Children(res)) => r is None && match res {
            None => n == o1,
            Some(Ok(ch)) => if ch@.len() > EXPAND_CONFIRM_THRESHOLD {
                n == App {
                    status: Status::ExpandConfirm(ch@.len() as usize),
                    mode: Mode::ConfirmExpand(PendingExpansion { dn, children: ch }),
                    ..o1
                }
            } else if ch@.len() > 0 {
                n == App { browse: n.browse, ..o1 } && browse_updated(
                    o.browse,
                    n.browse,
                    |t: TreeView| TreeView { root: expand_tree_at(t.root, dn@, child_views(ch@)), ..t },
                )
            } else {
                n == App { browse: n.browse, ..o1 } && browse_updated(
                    o.browse,
                    n.browse,
                    |t: TreeView| TreeView { root: no_children_at(t.root, dn@), ..t },
                )
            },
            Some(Err(e)) => n == App { status: Status::ExpandError(e), ..o1 },
        },
        (Pending::Suffix(dn), Outcome::Children(res)) => match res {
            None => r is None && n == o1,
            Some(Ok(ch)) => exists|t: Tree| t@ == (TreeView {
                root: NodeView { dn: dn@, has_children: ch@.len() > 0, expanded: true, children: Some(child_views(ch@)) },
                cursor: 0,
                base_dn: dn@,
            }) && #[trigger] fetched_selected(App { browse: Some(t), mode: Mode::Browse, ..o1 }, n, AfterFetch::LoadSchema, r),
            Some(Err(e)) => r is None && n == App { status: Status::ErrorPrefix(e), ..o1 },
        },
        (Pending::Search, Outcome::Search(res)) => match res {
            None => r is None && n == o1,
            Some(Ok(dns)) => fetched_search_selected(
                App {
                    search: SearchState {
                        input: o.search.input,
                        selected: if dns@.len() > 0 { Some(0usize) } else { None },
                        results: dns,
                    },
                    current_entry: None,
                    mode: Mode::SearchResults,
                    ..o1
                },
                n,
                AfterFetch::Nothing,
                r,
            ),
            Some(Err(e)) => r is None && n == App { status: Status::SearchError(e), mode: Mode::Browse, ..o1 },
        },
        (Pending::Modify(dn, kind, after), Outcome::Modify(res)) => match res {
            None => finished(o1, n, after, r),
            Some(res) => match (kind, res) {
                (ModifyKind::OcAdd(_oc), Err(e)) => finished(App { status: Status::OcAddError(e), ..o1 }, n, after, r),
                (ModifyKind::OcAdd(oc), Ok(_)) => fetched(
                    App { status: Status::OcAdded(oc), current_entry: None, ..o1 },
                    n,
                    dn,
                    AfterFetch::QueueMust(oc),
                    r,
                ),
                (kind, res) => fetched(App { status: modify_status(kind, res), current_entry: None, ..o1 }, n, dn, after, r),
            },
        },
        (Pending::CreateAdd(parent_dn, form, new_dn), Outcome::Add(res)) => match res {
            None => r is None && n == o1,
            Some(Err(e)) => r is None && n == App {
                status: Status::AddError(e),
                mode: Mode::CreateChild(CreateChildState { parent_dn, phase: CreatePhase::Form(form) }),
                ..o1
            },
            Some(Ok(_)) => r == Some(Request::Children(parent_dn)) && n == App {
                status: Status::Created(new_dn),
                pending: Pending::CreateRefresh(parent_dn, new_dn),
                ..o
            },
        },
        (Pending::CreateRefresh(parent_dn, new_dn), Outcome::Children(res)) => match res {
            Some(Ok(ch)) => exists|nb: Option<Tree>| browse_updated(
                o.browse,
                nb,
                |t: TreeView| after_create_refresh(t, parent_dn@, child_views(ch@), new_dn@),
            ) && #[trigger] fetched_selected(App { browse: nb, current_entry: None, ..o1 }, n, AfterFetch::Nothing, r),
            _ => r is None && n == o1,
        },
        (Pending::EntryDelete(dn, parent), Outcome::Delete(res)) => match res {
            None => r is None && n == o1,
            Some(Err(e)) => r is None && n == App { status: Status::DeleteError(e), ..o1 },
            Some(Ok(_)) => match parent {
                None => r is None && n == App { status: Status::Deleted(dn), ..o1 },
                Some((pdn, pidx)) => r == Some(Request::Children(pdn)) && n == App {
                    status: Status::Deleted(dn),
                    pending: Pending::EntryDeleteRefresh(pdn, pidx),
                    ..o
                },
            },
        },
        (Pending::EntryDeleteRefresh(pdn, pidx), Outcome::Children(res)) => match res {
            None => r is None && n == o1,
            Some(Ok(ch)) => exists|nb: Option<Tree>| browse_updated(
                o.browse,
                nb,
                |t: TreeView| after_delete_refresh(t, pdn@, child_views(ch@), pidx as int),
            ) && #[trigger] fetched_selected(App { browse: nb, current_entry: None, ..o1 }, n, AfterFetch::Nothing, r),
            Some(Err(e)) => r is None && n == App { status: Status::ParentRefetchFailed(Box::new(o.status), e), ..o1 },
        },
        _ => r is None && n == o1,
    }
}

// ── Key transitions: the detail pane ─────────────────────────────────────────

/// The entry shown in the detail pane, when its rows can be counted.
pub open spec fn shown(o: App) -> Option<LdapEntry> {
    match o.current_entry {
        Some(e) => if entry_fits(e) { Some(e) } else { None },
        None => None,
    }
}

/// What the detail pane's selected row shows.
pub open spec fn selected_row(o: App) -> Option<SelectionView> {
    match shown(o) {
        Some(e) => selected_spec(o.detail_view@.row, e),
        None => None,
    }
}

/// (attribute, value) of the selected objectClass or attribute row.
pub open spec fn current_selection_spec(o: App) -> Option<(Seq<char>, Seq<char>)> {
    match selected_row(o) {
        Some(SelectionView::ObjectClass { value, .. }) => Some((objectclass_attr(), value)),
        Some(SelectionView::Attr { attr, value }) => Some((attr, value)),
        _ => None,
    }
}

/// `n` differs from `o` at most in the mode.
pub open spec fn only_mode(o: App, n: App) -> bool {
    n == App { mode: n.mode, ..o }
}

/// `e` on a row: objectClass values and operational values cannot be edited; an attribute
/// value opens its editor holding the current value.
pub open spec fn edit_entered(o: App, n: App) -> bool {
    if selected_row(o) matches Some(SelectionView::ObjectClass { .. }) {
        n == App { status: Status::OcDeleteOnly, ..o }
    } else if selected_row(o) matches Some(SelectionView::OpAttr { .. }) {
        n == App { status: Status::OpReadonly, ..o }
    } else {
        match current_selection_spec(o) {
            Some((a, v)) => only_mode(o, n) && (n.mode matches Mode::EditValue(es) && es.attr@ == a && es.old_value@ == v
                && es.input@ == (InputView { text: v, cursor: v.len() as int })),
            None => n == o,
        }
    }
}

/// `a` on a row: objectClass and operational rows are refused; an attribute row opens an
/// empty editor for another value of that attribute.
pub open spec fn add_entered(o: App, n: App) -> bool {
    if selected_row(o) matches Some(SelectionView::ObjectClass { .. }) {
        n == App { status: Status::OcDeleteOnly, ..o }
    } else if selected_row(o) matches Some(SelectionView::OpAttr { .. }) {
        n == App { status: Status::OpReadonly, ..o }
    } else {
        match current_selection_spec(o) {
            Some((a, _v)) => only_mode(o, n) && adds_value_to(n.mode, a),
            None => n == o,
        }
    }
}

/// The attribute rows that deleting `oc` would leave without a class (none without a schema).
pub open spec fn orphaned_spec(o: App, oc: Seq<char>) -> Seq<(String, String)> {
    match (o.current_entry, o.schema_cache) {
        (Some(e), Some(c)) => e.attr_rows@.filter(row_orphaned(supported_attrs(c.ocs(), views(e.oc_values@), oc))),
        _ => Seq::empty(),
    }
}

/// `d` on a row: operational values are refused; an objectClass value asks to confirm its
/// deletion with the attributes it would orphan; an attribute value asks to confirm its deletion.
pub open spec fn delete_entered(o: App, n: App) -> bool {
    match selected_row(o) {
        Some(SelectionView::OpAttr { .. }) => n == App { status: Status::OpReadonly, ..o },
        Some(SelectionView::ObjectClass { value, .. }) => only_mode(o, n) && (n.mode matches Mode::ConfirmOcDelete(st)
            && st.oc_name@ == value && st.orphaned@ == orphaned_spec(o, value)),
        _ => match current_selection_spec(o) {
            Some((a, v)) => only_mode(o, n) && (n.mode matches Mode::ConfirmDelete(es) && es.attr@ == a && es.old_value@ == v
                && es.input@ == empty_input()),
            None => n == o,
        },
    }
}

// ── Key transitions: pickers and value modifications ─────────────────────────

/// A picker as first opened: empty filter, every entry listed, the first selected.
pub open spec fn fresh_picker(p: PickerState) -> bool {
    p.input@ == empty_input() && p.filtered@ == all_indices(p.entries@.len()) && p.selected == 0
}

/// The entry under a picker's selection.
pub open spec fn picker_selection(p: PickerState) -> Option<PickerEntry> {
    if p.selected < p.filtered@.len() && p.filtered@[p.selected as int] < p.entries@.len() {
        Some(p.entries@[p.filtered@[p.selected as int] as int])
    } else {
        None
    }
}

/// `es` are the attribute candidates for the shown entry (see `build_picker_entries`).
pub open spec fn attr_candidates(o: App, es: Seq<PickerEntry>) -> bool {
    match (o.current_entry, o.schema_cache) {
        (Some(e), Some(c)) => attr_picker_result(
            entry_views(es),
            c.attrs(),
            must_of_all(c.ocs(), views(e.oc_values@)).union(may_of_all(c.ocs(), views(e.oc_values@))),
            must_of_all(c.ocs(), views(e.oc_values@)),
            existing_names(e.attr_rows@),
        ),
        _ => false,
    }
}

/// No attribute picker can be offered: no entry, no schema, or no candidate.
pub open spec fn attr_picker_unavailable(o: App) -> bool {
    match (o.current_entry, o.schema_cache) {
        (Some(_e), Some(_c)) => exists|es: Seq<PickerEntry>| #[trigger] attr_candidates(o, es) && es.len() == 0,
        _ => true,
    }
}

/// The attribute picker was opened over the candidates.
pub open spec fn attr_picker_opened(o: App, n: App) -> bool {
    only_mode(o, n) && (n.mode matches Mode::Picker(p) && attr_candidates(o, p.entries@) && p.entries@.len() > 0 && fresh_picker(p))
}

/// Adding an attribute whose name is not chosen yet: the picker when the schema offers
/// candidates, else a name input.
pub open spec fn add_attr_name_entered(o: App, n: App) -> bool {
    attr_picker_opened(o, n) || (attr_picker_unavailable(o) && only_mode(o, n) && (n.mode matches Mode::AddAttrName(es)
        && es.attr@ == Seq::<char>::empty() && es.old_value@ == Seq::<char>::empty() && es.input@ == empty_input()))
}

/// Enter in the attribute picker: edit a value of the selected attribute.
pub open spec fn picker_applied(o: App, n: App) -> bool {
    match o.mode {
        Mode::Picker(p) => match picker_selection(p) {
            Some(e) => only_mode(o, n) && adds_value_to(n.mode, e.attr_name@),
            None => n == App { mode: Mode::Browse, ..o },
        },
        _ => n == o,
    }
}

/// The objectClass picker for the shown entry: refused without a schema or a candidate.
pub open spec fn oc_picker_opened(o: App, n: App) -> bool {
    match o.current_entry {
        None => n == o,
        Some(e) => match o.schema_cache {
            None => n == App { status: Status::SchemaNotLoaded, ..o },
            Some(c) => exists|es: Seq<PickerEntry>| #[trigger] oc_picker_result(entry_views(es), c.ocs(), entry_oc_set(e.oc_values@), false) && if es.len() == 0 {
                n == App { status: Status::NoOcToAdd, ..o }
            } else {
                only_mode(o, n) && (n.mode matches Mode::OcPicker(p) && p.entries@ == es && fresh_picker(p))
            },
        },
    }
}

/// Enter on a detail row: the "+" rows add, operational rows are refused, other rows open
/// the e/a/d dialog.
pub open spec fn action_dialog_entered(o: App, n: App) -> bool {
    match selected_row(o) {
        Some(SelectionView::AttrPlusRow) => add_attr_name_entered(o, n),
        Some(SelectionView::OcPlusRow) => oc_picker_opened(o, n),
        Some(SelectionView::OpAttr { .. }) => n == App { status: Status::OpReadonly, ..o },
        _ => if o.current_entry is Some {
            n == App { mode: Mode::ActionDialog, ..o }
        } else {
            n == o
        },
    }
}

/// Asking to add objectClass `oc` to the shown entry.
pub open spec fn oc_add_applied(o: App, n: App, oc: String, r: Option<Request>) -> bool {
    match o.current_entry {
        None => r is None && n == o,
        Some(e) => (r matches Some(Request::Modify(d, mods)) && d == e.dn && mod_views(mods@) == seq![ModView::Add(objectclass_attr(), seq![oc@])])
            && n == App { pending: Pending::Modify(e.dn, ModifyKind::OcAdd(oc), AfterFetch::Nothing), ..o },
    }
}

/// Enter in the objectClass picker: ask to add the selected objectClass.
pub open spec fn oc_picker_applied(o: App, n: App, r: Option<Request>) -> bool {
    match o.mode {
        Mode::OcPicker(p) => match picker_selection(p) {
            Some(e) => oc_add_applied(App { mode: Mode::Browse, ..o }, n, e.attr_name, r),
            None => r is None && n == App { mode: Mode::Browse, ..o },
        },
        _ => r is None && n == o,
    }
}

/// `y` in the objectClass deletion dialog: delete the value and every orphaned attribute.
pub open spec fn oc_delete_applied(o: App, n: App, r: Option<Request>) -> bool {
    match o.mode {
        Mode::ConfirmOcDelete(st) => {
            let o1 = App { mode: Mode::Browse, ..o };
            match o.current_entry {
                None => r is None && n == o1,
                Some(e) => (r matches Some(Request::Modify(d, mods)) && d == e.dn && mod_views(mods@) == seq![
                    ModView::Delete(objectclass_attr(), seq![st.oc_name@]),
                ] + distinct_names(st.orphaned@, st.orphaned@.len() as int).map_values(
                    |a: Seq<char>| ModView::Delete(a, Seq::empty()),
                )) && n == App { pending: Pending::Modify(e.dn, ModifyKind::OcDelete(st.oc_name), AfterFetch::Nothing), ..o1 },
            }
        },
        _ => r is None && n == o,
    }
}

/// Enter in the value editor: replace the old value with the trimmed new one (nothing when
/// it is blank), then what `after` says.
pub open spec fn edit_applied(o: App, n: App, after: AfterFetch, r: Option<Request>) -> bool {
    match o.mode {
        Mode::EditValue(es) => {
            let o1 = App { mode: Mode::Browse, ..o };
            let v = trim_spec(es.input@.text);
            if v.len() == 0 {
                finished(o1, n, after, r)
            } else {
                match o.current_entry {
                    None => finished(o1, n, after, r),
                    Some(e) => (r matches Some(Request::Modify(d, mods)) && d == e.dn && mod_views(mods@) == seq![
                        ModView::Delete(es.attr@, seq![es.old_value@]),
                        ModView::Add(es.attr@, seq![v]),
                    ]) && n == App { pending: Pending::Modify(e.dn, ModifyKind::Edit(es.attr), after), ..o1 },
                }
            }
        },
        _ => finished(o, n, after, r),
    }
}

/// Enter in the add-value editor: add the trimmed value (nothing when it is blank), then
/// what `after` says.
pub open spec fn add_applied(o: App, n: App, after: AfterFetch, r: Option<Request>) -> bool {
    match o.mode {
        Mode::AddValue(es) => {
            let o1 = App { mode: Mode::Browse, ..o };
            let v = trim_spec(es.input@.text);
            if v.len() == 0 {
                finished(o1, n, after, r)
            } else {
                match o.current_entry {
                    None => finished(o1, n, after, r),
                    Some(e) => (r matches Some(Request::Modify(d, mods)) && d == e.dn && mod_views(mods@) == seq![
                        ModView::Add(es.attr@, seq![v]),
                    ]) && n == App { pending: Pending::Modify(e.dn, ModifyKind::AddValue(es.attr), after), ..o1 },
                }
            }
        },
        _ => finished(o, n, after, r),
    }
}

/// `y` in the value deletion dialog: delete that value.
pub open spec fn delete_applied(o: App, n: App, r: Option<Request>) -> bool {
    match o.mode {
        Mode::ConfirmDelete(es) => {
            let o1 = App { mode: Mode::Browse, ..o };
            match o.current_entry {
                None => r is None && n == o1,
                Some(e) => (r matches Some(Request::Modify(d, mods)) && d == e.dn && mod_views(mods@) == seq![
                    ModView::Delete(es.attr@, seq![es.old_value@]),
                ]) && n == App { pending: Pending::Modify(e.dn, ModifyKind::DeleteValue(es.attr), AfterFetch::Nothing), ..o1 },
            }
        },
        _ => r is None && n == o,
    }
}

/// Enter in the search input: search under the base DN with the normalized filter (a blank
/// filter just returns to browsing).
pub open spec fn search_executed(o: App, n: App, r: Option<Request>) -> bool {
    let f = normalized_filter_spec(o.search.input@.text);
    if f.len() == 0 {
        r is None && n == App { mode: Mode::Browse, ..o }
    } else {
        match o.browse {
            None => r is None && n == o,
            Some(t) => (r matches Some(Request::Search(b, fl)) && b@ == t@.base_dn && fl@ == f) && n == App {
                pending: Pending::Search,
                ..o
            },
        }
    }
}

// ── Key transitions: the tree and the create-child wizard ────────────────────

/// The other pane.
pub open spec fn other_pane(p: Pane) -> Pane {
    match p {
        Pane::Tree => Pane::Detail,
        Pane::Detail => Pane::Tree,
    }
}

/// Only the tree changed, as `f` says.
pub open spec fn tree_changed(o: App, n: App, f: spec_fn(TreeView) -> TreeView) -> bool {
    n == App { browse: n.browse, ..o } && browse_updated(o.browse, n.browse, f)
}

/// ↑ on the tree: the cursor moves up one row.
pub open spec fn tree_moved_up(o: App, n: App) -> bool {
    tree_changed(o, n, |t: TreeView| TreeView { cursor: cursor_up_spec(t), ..t })
}

/// ↓ on the tree: the cursor moves down one row.
pub open spec fn tree_moved_down(o: App, n: App) -> bool {
    tree_changed(o, n, |t: TreeView| TreeView { cursor: cursor_down_spec(t), ..t })
}

/// → on the tree: ask for the children of the selected row when it has unloaded children.
pub open spec fn expand_requested(o: App, n: App, r: Option<Request>) -> bool {
    match o.browse {
        None => r is None && n == o,
        Some(t) => match cursor_row(t@) {
            None => r is None && n == o,
            Some(row) => if !row.node.has_children || row.node.expanded {
                r is None && n == o
            } else {
                r matches Some(Request::Children(d)) && d@ == row.node.dn && n == App { pending: Pending::Expand(d), ..o }
            },
        },
    }
}

/// ← on the tree: collapse, or move to the parent (forgetting the shown entry unless it is the parent's).
pub open spec fn collapsed_or_moved(o: App, n: App) -> bool {
    match o.browse {
        None => n == o,
        Some(t) => exists|t2: Tree, res: CollapseView| #[trigger] collapse_step(t@, t2@, res) && n.browse == Some(t2) && if res matches CollapseView::MovedToParent(pdn) && !(o.current_entry matches Some(e) && e.dn@ == pdn) {
            n == App { browse: Some(t2), current_entry: None, ..o }
        } else {
            n == App { browse: Some(t2), ..o }
        },
    }
}

/// `d` on the tree: ask to confirm deleting the selected entry; the root cannot be deleted.
pub open spec fn tree_delete_entered(o: App, n: App) -> bool {
    match o.browse {
        None => n == o,
        Some(t) => match cursor_row(t@) {
            None => n == o,
            Some(row) => if row.depth == 0 {
                n == App { status: Status::RootUndeletable, ..o }
            } else {
                only_mode(o, n) && (n.mode matches Mode::ConfirmEntryDelete(st) && st.dn@ == row.node.dn && st.has_children
                    == row.node.has_children)
            },
        },
    }
}

/// `y` in the entry deletion dialog: ask to delete it, remembering the parent row to refresh.
pub open spec fn entry_delete_applied(o: App, n: App, r: Option<Request>) -> bool {
    match o.mode {
        Mode::ConfirmEntryDelete(st) => {
            r == Some(Request::Delete(st.dn)) && (n.pending matches Pending::EntryDelete(d, parent) && d == st.dn && match o.browse {
                None => parent is None,
                Some(t) => match parent_index(t@) {
                    None => parent is None,
                    Some(idx) => parent matches Some((pd, pi)) && pi == idx && pd@ == tree_rows(t@)[idx].node.dn,
                },
            }) && n == App { pending: n.pending, mode: Mode::Browse, ..o }
        },
        _ => r is None && n == o,
    }
}

/// `a` on the tree: open the wizard's objectClass picker over the STRUCTURAL objectClasses.
pub open spec fn create_child_entered(o: App, n: App) -> bool {
    match tree_selected_dn(o) {
        None => n == o,
        Some(pdn) => match o.schema_cache {
            None => n == App { status: Status::SchemaRequiredForCreate, ..o },
            Some(c) => exists|es: Seq<PickerEntry>| #[trigger] oc_picker_result(entry_views(es), c.ocs(), Set::empty(), true) && if es.len() == 0 {
                n == App { status: Status::NoStructuralOc, ..o }
            } else {
                only_mode(o, n) && (n.mode matches Mode::CreateChild(st) && st.parent_dn@ == pdn && (st.phase matches CreatePhase::PickOc(p)
                    && p.entries@ == es && fresh_picker(p)))
            },
        },
    }
}

/// The RDN candidates of objectClass `oc`.
pub open spec fn rdn_candidates(c: SchemaCache, oc: Seq<char>, es: Seq<PickerEntry>) -> bool {
    attr_picker_result(
        entry_views(es),
        c.attrs(),
        must_of(c.ocs(), sup_chain_keys(c.ocs(), oc)).union(may_of(c.ocs(), sup_chain_keys(c.ocs(), oc))),
        must_of(c.ocs(), sup_chain_keys(c.ocs(), oc)),
        Set::empty(),
    )
}

/// Enter in the wizard's objectClass picker: offer the chosen objectClass's attributes for
/// the RDN, highlighting a conventional one.
pub open spec fn pick_oc_applied(o: App, n: App) -> bool {
    match o.mode {
        Mode::CreateChild(st) => match st.phase {
            CreatePhase::PickOc(p) => {
                let o1 = App { mode: Mode::Browse, ..o };
                match picker_selection(p) {
                    None => n == o1,
                    Some(e) => match o.schema_cache {
                        None => n == App { status: Status::SchemaRequiredForCreate, ..o1 },
                        Some(c) => exists|rdn_es: Seq<PickerEntry>| #[trigger] rdn_candidates(c, e.attr_name@, rdn_es) && if rdn_es.len() == 0 {
                            n == App { status: Status::NoMustMayAttrs(e.attr_name), ..o1 }
                        } else {
                            only_mode(o, n) && (n.mode matches Mode::CreateChild(st2) && st2.parent_dn == st.parent_dn && (st2.phase matches CreatePhase::PickRdn(rs)
                                && rs.oc_name == e.attr_name && views(rs.oc_chain@) == first_names(c.ocs(), sup_chain_keys(c.ocs(), e.attr_name@))
                                && rs.picker.entries@ == rdn_es && rs.picker.input@ == empty_input() && rs.picker.filtered@ == all_indices(rdn_es.len())
                                && rs.picker.selected == rdn_initial_spec(rdn_es)))
                        },
                    },
                }
            },
            _ => n == o,
        },
        _ => n == o,
    }
}

/// Enter in the wizard's RDN picker: move on to the form for the chosen attribute.
pub open spec fn pick_rdn_applied(o: App, n: App) -> bool {
    match o.mode {
        Mode::CreateChild(st) => match st.phase {
            CreatePhase::PickRdn(rs) => match picker_selection(rs.picker) {
                None => n == App { mode: Mode::Browse, ..o },
                Some(e) => only_mode(o, n) && (n.mode matches Mode::CreateChild(st2) && st2.parent_dn == st.parent_dn && (st2.phase matches CreatePhase::Form(f)
                    && form_built(f, rs.oc_name, rs.oc_chain, rs.picker.entries@, e.attr_name@))),
            },
            _ => n == o,
        },
        _ => n == o,
    }
}

/// Submit on the form: a blank field is reported and the form stays; otherwise ask to create
/// the entry, keeping the form to return to on failure.
pub open spec fn create_child_applied(o: App, n: App, r: Option<Request>) -> bool {
    match o.mode {
        Mode::CreateChild(st) => match st.phase {
            CreatePhase::Form(form) => {
                let b = first_blank(form.fields@, 0);
                if b < form.fields@.len() {
                    r is None && (n.status matches Status::FieldEmpty(f) && f@ == form.fields@[b].attr@) && n == App { status: n.status, ..o }
                } else if form.rdn_idx >= form.fields@.len() {
                    r is None && n == o
                } else {
                    r matches Some(Request::Add(req)) && add_request_ok(req, form, st.parent_dn@) && n == App {
                        pending: Pending::CreateAdd(st.parent_dn, form, req.dn),
                        mode: Mode::Browse,
                        ..o
                    }
                }
            },
            _ => r is None && n == o,
        },
        _ => r is None && n == o,
    }
}

/// Enter in the suffix chooser: list the chosen context's children.
pub open spec fn suffix_selected(o: App, n: App, r: Option<Request>) -> bool {
    match o.mode {
        Mode::SelectSuffix(sel) => match sel.selected {
            Some(i) => if i < sel.candidates@.len() {
                r == Some(Request::Children(sel.candidates@[i as int])) && n == App { pending: Pending::Suffix(sel.candidates@[i as int]), ..o }
            } else {
                r is None && n == o
            },
            None => r is None && n == o,
        },
        _ => r is None && n == o,
    }
}

// ── Key transitions: editing keys ────────────────────────────────────────────

/// An editing key applied to an input (an input too long to grow is left alone).
pub open spec fn input_edited(i: TextInput, j: TextInput, key: KeyEvent) -> bool {
    if i@.text.len() < usize::MAX {
        j@ == input_key_spec(i@, key)
    } else {
        j == i
    }
}

/// An editing key applied to the input of an editing mode's `EditState`.
pub open spec fn edit_mode_input_changed(m: Mode, m2: Mode, key: KeyEvent) -> bool {
    match m {
        Mode::EditValue(es) => exists|j: TextInput| #[trigger] input_edited(es.input, j, key) && m2 == Mode::EditValue(EditState { input: j, ..es }),
        Mode::AddValue(es) => exists|j: TextInput| #[trigger] input_edited(es.input, j, key) && m2 == Mode::AddValue(EditState { input: j, ..es }),
        Mode::AddAttrName(es) => exists|j: TextInput| #[trigger] input_edited(es.input, j, key) && m2 == Mode::AddAttrName(EditState { input: j, ..es }),
        Mode::ConfirmDelete(es) => exists|j: TextInput| #[trigger] input_edited(es.input, j, key) && m2 == Mode::ConfirmDelete(EditState { input: j, ..es }),
        _ => m2 == m,
    }
}

/// A picker key: ↑/k and ↓/j move the selection (only unmodified when `nav_plain`), Backspace
/// and typed chars edit the filter and refilter.
pub open spec fn picker_key_step(p: PickerState, q: PickerState, key: KeyEvent, nav_plain: bool) -> bool {
    let nav_ok = !nav_plain || key.modifiers == KeyModifiers::NoModifier;
    let up = q == (PickerState { selected: if p.selected > 0 { (p.selected - 1) as usize } else { 0 }, ..p });
    let down = q == (PickerState {
        selected: if p.selected + 1 < p.filtered@.len() { (p.selected + 1) as usize } else { p.selected },
        ..p
    });
    if key.code == KeyCode::Up {
        if nav_ok { up } else { q == p }
    } else if key.code == KeyCode::Char('k') && nav_ok {
        up
    } else if key.code == KeyCode::Down {
        if nav_ok { down } else { q == p }
    } else if key.code == KeyCode::Char('j') && nav_ok {
        down
    } else if key.code == KeyCode::Backspace {
        &&& q.input@ == input_backspace(p.input@)
        &&& q.entries == p.entries
        &&& filter_result(p.entries@, q.input@.text, q.filtered@)
        &&& q.selected == clamp_selected(p.selected as int, q.filtered@.len() as int)
    } else if let KeyCode::Char(c) = key.code {
        if plain_or_shift(key.modifiers) && p.input@.text.len() < usize::MAX {
            &&& q.input@ == input_insert(p.input@, c)
            &&& q.entries == p.entries
            &&& filter_result(p.entries@, q.input@.text, q.filtered@)
            &&& q.selected == clamp_selected(p.selected as int, q.filtered@.len() as int)
        } else {
            q == p
        }
    } else {
        q == p
    }
}

/// Keys in the attribute and objectClass pickers.
pub open spec fn picker_handled(o: App, n: App, key: KeyEvent, r: Option<Request>) -> bool {
    if key.code == KeyCode::Esc {
        r is None && n == App { mode: Mode::Browse, ..o }
    } else if key.code == KeyCode::Enter {
        if o.mode is OcPicker {
            oc_picker_applied(o, n, r)
        } else {
            r is None && picker_applied(o, n)
        }
    } else {
        r is None && match o.mode {
            Mode::Picker(p) => exists|q: PickerState| #[trigger] picker_key_step(p, q, key, false) && n == App { mode: Mode::Picker(q), ..o },
            Mode::OcPicker(p) => exists|q: PickerState| #[trigger] picker_key_step(p, q, key, false) && n == App { mode: Mode::OcPicker(q), ..o },
            _ => n == o,
        }
    }
}

/// Keys while typing an attribute name: Esc cancels, Enter opens the value editor for the
/// trimmed name (when not blank), other keys edit the name.
pub open spec fn add_attr_name_handled(o: App, n: App, key: KeyEvent) -> bool {
    if key.code == KeyCode::Esc {
        n == App { mode: Mode::Browse, ..o }
    } else if key.code == KeyCode::Enter {
        let attr = match o.mode {
            Mode::AddAttrName(es) => trim_spec(es.input@.text),
            _ => Seq::<char>::empty(),
        };
        if attr.len() == 0 {
            n == o
        } else {
            only_mode(o, n) && adds_value_to(n.mode, attr)
        }
    } else {
        only_mode(o, n) && edit_mode_input_changed(o.mode, n.mode, key)
    }
}

/// Keys in the value editors: Esc cancels (and forgets the MUST queue), Enter applies the
/// edit and then opens the next queued MUST attribute, other keys edit the value.
pub open spec fn edit_input_handled(o: App, n: App, key: KeyEvent, r: Option<Request>) -> bool {
    if key.code == KeyCode::Esc {
        r is None && n == App { mode: Mode::Browse, pending_must_queue: n.pending_must_queue, ..o } && n.pending_must_queue@.len() == 0
    } else if key.code == KeyCode::Enter {
        if o.mode is EditValue {
            edit_applied(o, n, AfterFetch::NextMust, r)
        } else {
            add_applied(o, n, AfterFetch::NextMust, r)
        }
    } else {
        r is None && only_mode(o, n) && edit_mode_input_changed(o.mode, n.mode, key)
    }
}

/// Keys in the search input: Esc cancels, Enter searches, other keys edit the filter.
pub open spec fn search_input_handled(o: App, n: App, key: KeyEvent, r: Option<Request>) -> bool {
    if key.code == KeyCode::Esc {
        r is None && n == App { mode: Mode::Browse, ..o }
    } else if key.code == KeyCode::Enter {
        search_executed(o, n, r)
    } else {
        r is None && exists|j: TextInput| #[trigger] input_edited(o.search.input, j, key) && n == App {
            search: SearchState { input: j, ..o.search },
            ..o
        }
    }
}

/// Keys in the large-expansion prompt: `y` expands with the fetched children; anything else
/// cancels and clears the status.
pub open spec fn confirm_expand_handled(o: App, n: App, key: KeyEvent) -> bool {
    if is_yes(key.code) {
        match o.mode {
            Mode::ConfirmExpand(pe) => tree_changed(
                App { mode: Mode::Browse, ..o },
                n,
                |t: TreeView| TreeView { root: expand_tree_at(t.root, pe.dn@, child_views(pe.children@)), ..t },
            ),
            _ => n == App { mode: Mode::Browse, ..o },
        }
    } else {
        n == App { mode: Mode::Browse, status: Status::Empty, ..o }
    }
}

/// Keys in the suffix chooser: q quits, Enter chooses, ↑/k and ↓/j move.
pub open spec fn select_suffix_handled(o: App, n: App, key: KeyEvent, r: (bool, Option<Request>)) -> bool {
    if key.code == KeyCode::Char('q') {
        r.0 == false && r.1 is None && n == o
    } else if key.code == KeyCode::Enter {
        r.0 && suffix_selected(o, n, r.1)
    } else {
        r.0 && r.1 is None && match o.mode {
            Mode::SelectSuffix(sel) => if key.code == KeyCode::Up || key.code == KeyCode::Char('k') {
                n == App { mode: Mode::SelectSuffix(SuffixSelection { selected: list_up(sel.selected), ..sel }), ..o }
            } else if key.code == KeyCode::Down || key.code == KeyCode::Char('j') {
                n == App {
                    mode: Mode::SelectSuffix(SuffixSelection { selected: list_down(sel.selected, sel.candidates@.len() as int), ..sel }),
                    ..o
                }
            } else {
                n == o
            },
            _ => n == o,
        }
    }
}

// ── Key transitions: the wizard, browsing, and dispatch ──────────────────────

/// The wizard in `o` with its state replaced by `st`.
pub open spec fn with_wizard(o: App, st: CreateChildState) -> App {
    App { mode: Mode::CreateChild(st), ..o }
}

/// An editing key applied to the focused input of a form (no change when no field has focus).
pub open spec fn form_input_edited(f: FormState, f2: FormState, key: KeyEvent) -> bool {
    match f.focus {
        FormFocus::Field(i) => if i < f.fields@.len() {
            exists|j: TextInput| #[trigger] input_edited(f.fields@[i as int].input, j, key) && f2 == FormState {
                fields: f2.fields,
                ..f
            } && f2.fields@ == f.fields@.update(i as int, FormField { input: j, ..f.fields@[i as int] })
        } else {
            f2 == f
        },
        _ => f2 == f,
    }
}

/// Keys on the wizard's form: Tab/↓ and Shift+Tab/↑ move the focus, Enter or Space on Submit
/// submits and on Cancel cancels, Enter on a field moves on, other keys edit the focused input.
pub open spec fn form_key_handled(o: App, n: App, st: CreateChildState, f: FormState, key: KeyEvent, r: Option<Request>) -> bool {
    let len = f.fields@.len() as int;
    let press = key.code == KeyCode::Enter || key.code == KeyCode::Char(' ');
    if (key.code == KeyCode::Tab && key.modifiers == KeyModifiers::NoModifier) || key.code == KeyCode::Down {
        r is None && n == with_wizard(o, CreateChildState { phase: CreatePhase::Form(FormState { focus: focus_next_spec(f.focus, len), ..f }), ..st })
    } else if key.code == KeyCode::BackTab || key.code == KeyCode::Up {
        r is None && n == with_wizard(o, CreateChildState { phase: CreatePhase::Form(FormState { focus: focus_prev_spec(f.focus, len), ..f }), ..st })
    } else if press && f.focus == FormFocus::Submit {
        create_child_applied(o, n, r)
    } else if press && f.focus == FormFocus::Cancel {
        r is None && n == App { mode: Mode::Browse, status: Status::Cancelled, ..o }
    } else if key.code == KeyCode::Enter {
        r is None && n == with_wizard(o, CreateChildState { phase: CreatePhase::Form(FormState { focus: focus_next_spec(f.focus, len), ..f }), ..st })
    } else {
        r is None && exists|f2: FormState| #[trigger] form_input_edited(f, f2, key) && n == with_wizard(
            o,
            CreateChildState { phase: CreatePhase::Form(f2), ..st },
        )
    }
}

/// Keys in the create-child wizard: Esc cancels; the picker phases take picker keys (Enter
/// moves on); the form moves focus, submits, cancels, or edits.
pub open spec fn create_child_handled(o: App, n: App, key: KeyEvent, r: Option<Request>) -> bool {
    if key.code == KeyCode::Esc {
        r is None && n == App { mode: Mode::Browse, status: Status::Cancelled, ..o }
    } else {
        match o.mode {
            Mode::CreateChild(st) => match st.phase {
                CreatePhase::PickOc(p) => r is None && if key.code == KeyCode::Enter {
                    pick_oc_applied(o, n)
                } else {
                    exists|q: PickerState| #[trigger] picker_key_step(p, q, key, true) && n == with_wizard(
                        o,
                        CreateChildState { phase: CreatePhase::PickOc(q), ..st },
                    )
                },
                CreatePhase::PickRdn(rs) => r is None && if key.code == KeyCode::Enter {
                    pick_rdn_applied(o, n)
                } else {
                    exists|q: PickerState| #[trigger] picker_key_step(rs.picker, q, key, true) && n == with_wizard(
                        o,
                        CreateChildState { phase: CreatePhase::PickRdn(RdnPickState { picker: q, ..rs }), ..st },
                    )
                },
                CreatePhase::Form(f) => form_key_handled(o, n, st, f, key, r),
            },
            _ => r is None && n == o,
        }
    }
}

/// Only the detail pane's navigation changed, to `d`.
pub open spec fn detail_changed(o: App, n: App, d: DetailModel) -> bool {
    n == App { detail_view: n.detail_view, ..o } && n.detail_view@ == d
}

/// `/`: typing a search filter, with the cursor at its end.
pub open spec fn search_opened(o: App, n: App) -> bool {
    n == App { mode: Mode::SearchInput, search: SearchState { input: n.search.input, ..o.search }, ..o } && n.search.input@ == input_end(
        o.search.input@,
    )
}

/// Leaving the search results: back to browsing with an empty filter.
pub open spec fn search_left(o: App, mid: App) -> bool {
    mid == App { mode: Mode::Browse, search: SearchState { input: mid.search.input, ..o.search }, ..o } && mid.search.input@ == empty_input()
}

/// `e` in the detail pane: edit the selected value (not on the "+ attribute" row).
pub open spec fn detail_edit_keyed(o: App, n: App) -> bool {
    if shown(o) is None || selected_row(o) == Some(SelectionView::AttrPlusRow) {
        n == o
    } else {
        edit_entered(o, n)
    }
}

/// `a` in the detail pane: on "+ attribute" add an attribute, on "+ objectClass" add an
/// objectClass, elsewhere add another value.
pub open spec fn detail_add_keyed(o: App, n: App) -> bool {
    if shown(o) is None {
        n == o
    } else if selected_row(o) == Some(SelectionView::AttrPlusRow) {
        add_attr_name_entered(o, n)
    } else if selected_row(o) == Some(SelectionView::OcPlusRow) {
        oc_picker_opened(o, n)
    } else {
        add_entered(o, n)
    }
}

/// `d` in the detail pane: delete the selected value (not on the "+ attribute" row).
pub open spec fn detail_delete_keyed(o: App, n: App) -> bool {
    if shown(o) is None || selected_row(o) == Some(SelectionView::AttrPlusRow) {
        n == o
    } else {
        delete_entered(o, n)
    }
}

/// Keys in Browse and SearchResults.
pub open spec fn browse_key_handled(o: App, n: App, key: KeyEvent, r: (bool, Option<Request>)) -> bool {
    let in_browse = o.mode is Browse;
    let in_results = o.mode is SearchResults;
    let on_tree = o.active_pane == Pane::Tree;
    let on_detail = o.active_pane == Pane::Detail;
    let d = o.detail_view@;
    let c = key.code;
    if c == KeyCode::Char('q') {
        r.0 == false && r.1 is None && n == o
    } else {
        r.0 && if c == KeyCode::Tab {
            r.1 is None && n == App { active_pane: other_pane(o.active_pane), ..o }
        } else if (c == KeyCode::Char('r') && key.modifiers == KeyModifiers::ControlOnly) || c == KeyCode::F(5) {
            fetched_selected(App { current_entry: None, ..o }, n, AfterFetch::Nothing, r.1)
        } else if c == KeyCode::Char('/') {
            r.1 is None && search_opened(o, n)
        } else if c == KeyCode::Esc && in_results {
            exists|mid: App| #[trigger] search_left(o, mid) && fetched_selected(mid, n, AfterFetch::Nothing, r.1)
        } else if c == KeyCode::Up || c == KeyCode::Char('k') {
            if on_tree {
                if in_browse {
                    exists|mid: App| #[trigger] tree_moved_up(o, mid)
                        && fetched_selected(mid, n, AfterFetch::Nothing, r.1)
                } else if in_results {
                    fetched_search_selected(
                        App { search: SearchState { selected: list_up(o.search.selected), ..o.search }, ..o },
                        n,
                        AfterFetch::Nothing,
                        r.1,
                    )
                } else {
                    r.1 is None && n == o
                }
            } else {
                r.1 is None && match o.current_entry {
                    Some(e) => detail_changed(o, n, if d.row > 0 { moved_to(d, d.row - 1, e) } else { d }),
                    None => n == o,
                }
            }
        } else if c == KeyCode::Down || c == KeyCode::Char('j') {
            if on_tree {
                if in_browse {
                    exists|mid: App| #[trigger] tree_moved_down(o, mid)
                        && fetched_selected(mid, n, AfterFetch::Nothing, r.1)
                } else if in_results {
                    fetched_search_selected(
                        App {
                            search: SearchState { selected: list_down(o.search.selected, o.search.results@.len() as int), ..o.search },
                            ..o
                        },
                        n,
                        AfterFetch::Nothing,
                        r.1,
                    )
                } else {
                    r.1 is None && n == o
                }
            } else {
                r.1 is None && match shown(o) {
                    Some(e) => detail_changed(o, n, if d.row + 1 < nav_len_spec(e) { moved_to(d, d.row + 1, e) } else { d }),
                    None => n == o,
                }
            }
        } else if c == KeyCode::Left || c == KeyCode::Char('h') {
            if on_tree && in_browse {
                exists|mid: App| #[trigger] collapsed_or_moved(o, mid) && fetched_selected(mid, n, AfterFetch::Nothing, r.1)
            } else if on_detail {
                r.1 is None && detail_changed(o, n, DetailModel { col: 0, ..d })
            } else {
                r.1 is None && n == o
            }
        } else if c == KeyCode::Right || c == KeyCode::Char('l') {
            if on_tree && in_browse {
                expand_requested(o, n, r.1)
            } else if on_detail {
                r.1 is None && detail_changed(o, n, DetailModel { col: 1, ..d })
            } else {
                r.1 is None && n == o
            }
        } else if c == KeyCode::Enter && on_detail {
            r.1 is None && action_dialog_entered(o, n)
        } else if c == KeyCode::Char('e') && on_detail {
            r.1 is None && detail_edit_keyed(o, n)
        } else if c == KeyCode::Char('a') && on_detail {
            r.1 is None && detail_add_keyed(o, n)
        } else if c == KeyCode::Char('d') && on_detail {
            r.1 is None && detail_delete_keyed(o, n)
        } else if c == KeyCode::Char('d') && on_tree && in_browse {
            r.1 is None && tree_delete_entered(o, n)
        } else if c == KeyCode::Char('a') && on_tree && in_browse {
            r.1 is None && create_child_entered(o, n)
        } else {
            r.1 is None && n == o
        }
    }
}

/// How a key press moves the editor from `o` to `n`: `r.0` is whether it keeps running, `r.1`
/// the directory request it asks for. The mode decides which keys mean what.
pub open spec fn key_handled(o: App, n: App, key: KeyEvent, r: (bool, Option<Request>)) -> bool {
    match o.mode {
        Mode::AddAttrName(_) => r.0 && r.1 is None && add_attr_name_handled(o, n, key),
        Mode::EditValue(_) => r.0 && edit_input_handled(o, n, key, r.1),
        Mode::AddValue(_) => r.0 && edit_input_handled(o, n, key, r.1),
        Mode::SearchInput => r.0 && search_input_handled(o, n, key, r.1),
        Mode::SelectSuffix(_) => select_suffix_handled(o, n, key, r),
        Mode::Picker(_) => r.0 && picker_handled(o, n, key, r.1),
        Mode::OcPicker(_) => r.0 && picker_handled(o, n, key, r.1),
        Mode::ConfirmExpand(_) => r.0 && r.1 is None && confirm_expand_handled(o, n, key),
        Mode::ConfirmOcDelete(_) => r.0 && if is_yes(key.code) {
            oc_delete_applied(o, n, r.1)
        } else {
            r.1 is None && n == App { mode: Mode::Browse, ..o }
        },
        Mode::ConfirmDelete(_) => r.0 && if is_yes(key.code) {
            delete_applied(o, n, r.1)
        } else {
            r.1 is None && n == App { mode: Mode::Browse, ..o }
        },
        Mode::ConfirmEntryDelete(_) => r.0 && if is_yes(key.code) {
            entry_delete_applied(o, n, r.1)
        } else {
            r.1 is None && n == App { mode: Mode::Browse, ..o }
        },
        Mode::CreateChild(_) => r.0 && create_child_handled(o, n, key, r.1),
        Mode::ActionDialog => r.0 && r.1 is None && if key.code == KeyCode::Char('e') {
            edit_entered(o, n)
        } else if key.code == KeyCode::Char('a') {
            add_entered(o, n)
        } else if key.code == KeyCode::Char('d') {
            delete_entered(o, n)
        } else {
            n == App { mode: Mode::Browse, ..o }
        },
        Mode::Browse => browse_key_handled(o, n, key, r),
        Mode::SearchResults => browse_key_handled(o, n, key, r),
    }
}

// ── App ──────────────────────────────────────────────────────────────────────

pub struct App {
    pub schema_cache: Option<SchemaCache>,
    pub current_entry: Option<LdapEntry>,
    pub detail_view: DetailView,
    /// DIT tree (root + cursor + base_dn). None while in SelectSuffix mode.
    pub browse: Option<Tree>,
    pub mode: Mode,
    pub active_pane: Pane,
    pub search: SearchState,
    /// MUST attributes that need values after adding an objectClass (persists across AddValue rounds).
    pub pending_must_queue: VecDeque<String>,
    pub status: Status,
    /// The step that the next directory reply continues.
    pub pending: Pending,
}

/// `a` is a fresh editor showing `status`: nothing loaded, browsing, the tree pane active,
/// no search, nothing queued or pending.
pub open spec fn fresh(a: App, status: Status) -> bool {
    &&& a.schema_cache is None
    &&& a.current_entry is None
    &&& a.detail_view@ == (DetailModel { row: 0, col: 1, scroll: 0, height: 0, width: 0 })
    &&& a.browse is None
    &&& a.mode is Browse
    &&& a.active_pane == Pane::Tree
    &&& a.search.input@ == (InputView { text: Seq::empty(), cursor: 0 })
    &&& a.search.results@.len() == 0
    &&& a.search.selected is None
    &&& a.pending_must_queue@.len() == 0
    &&& a.status == status
    &&& a.pending is Idle
}

impl App {
    /// A fresh editor with nothing loaded.
    pub fn empty(status: Status) -> (r: Self)
        ensures
            fresh(r, status),
    {
        App {
            schema_cache: None,
            current_entry: None,
            detail_view: DetailView::default(),
            browse: None,
            mode: Mode::Browse,
            active_pane: Pane::Tree,
            search: SearchState::new(),
            pending_must_queue: VecDeque::new(),
            status,
            pending: Pending::Idle,
        }
    }

    /// The editor shown when connecting failed: a single placeholder node carrying the error.
    pub fn error_state(uri: String, error: String) -> (r: Self)
        ensures
            fresh(App { browse: None, ..r }, Status::ConnectionFailed(uri)),
            r.browse matches Some(t) && t@ == (TreeView {
                root: NodeView { dn: error@, has_children: false, expanded: false, children: Some(Seq::empty()) },
                cursor: 0,
                base_dn: Seq::empty(),
            }),
    {
        let mut app = App::empty(Status::ConnectionFailed(uri));
        let err_node = DitNode { dn: error, has_children: false, expanded: false, children: Some(Vec::new()) };
        assert(err_node@.children == Some(Seq::<NodeView>::empty())) by {
            assert(crate::model::nodes_view(Seq::<DitNode>::empty()) =~= Seq::<NodeView>::empty());
        }
        let empty_dn = String::new();
        proof {
            reveal_strlit("");
        }
        app.browse = Some(Tree::from_root(err_node, empty_dn));
        app
    }

    /// Connected with several naming contexts: start by choosing one.
    pub fn start_selecting(uri: String, candidates: Vec<String>) -> (r: Self)
        ensures
            fresh(App { mode: Mode::Browse, ..r }, Status::ConnectedSelectContext(uri)),
            r.mode matches Mode::SelectSuffix(sel) && sel.candidates == candidates && sel.selected == (if candidates@.len()
                > 0 {
                Some(0usize)
            } else {
                None
            }),
    {
        let mut app = App::empty(Status::ConnectedSelectContext(uri));
        app.mode = Mode::SelectSuffix(SuffixSelection::new(candidates));
        app
    }

    /// Connected with a base DN and its children: browse from the base (expanded, with the
    /// children below it) and ask for the base entry; the schema is loaded after it.
    pub fn start_browsing(uri: String, base_dn: String, children: Vec<ChildNode>) -> (r: (Self, Option<Request>))
        ensures
            fresh(App { browse: None, pending: Pending::Idle, ..r.0 }, Status::Connected(uri)),
            r.0.browse matches Some(t) && t@ == (TreeView {
                root: NodeView {
                    dn: base_dn@,
                    has_children: children@.len() > 0,
                    expanded: true,
                    children: Some(child_views(children@)),
                },
                cursor: 0,
                base_dn: base_dn@,
            }),
            r.1 matches Some(Request::FetchEntry(d)) && d@ == base_dn@,
            r.0.pending matches Pending::Fetch(d, AfterFetch::LoadSchema) && d@ == base_dn@,
    {
        let mut app = App::empty(Status::Connected(uri));
        app.browse = Some(Tree::from_children(base_dn, children));
        let ghost mid = app;
        proof {
            let t = mid.browse->0@;
            assert(tree_rows(t)[0].node == t.root);
            assert(tree_selected_dn(mid) == Some(base_dn@));
        }
        let req = app.fetch_selected_entry(AfterFetch::LoadSchema);
        (app, req)
    }

    /// Replace Mode with Browse and return the previous Mode.
    fn take_mode(&mut self) -> (r: Mode)
        ensures
            r == old(self).mode,
            *final(self) == (App { mode: Mode::Browse, ..*old(self) }),
    {
        let mut m = Mode::Browse;
        std::mem::swap(&mut m, &mut self.mode);
        m
    }

    // ── Entry fetch ──────────────────────────────────────────────────────────

    /// The DN of the tree row under the cursor.
    fn selected_tree_dn(&self) -> (r: Option<String>)
        ensures
            match tree_selected_dn(*self) {
                Some(dn) => r matches Some(d) && d@ == dn,
                None => r is None,
            },
    {
        match &self.browse {
            Some(t) => t.selected_dn(),
            None => None,
        }
    }

    fn fetch_selected_entry(&mut self, after: AfterFetch) -> (r: Option<Request>)
        ensures
            fetched_selected(*old(self), *final(self), after, r),
    {
        match self.selected_tree_dn() {
            Some(dn) => self.fetch_entry_by_dn(dn, after),
            None => self.finish(after),
        }
    }

    fn fetch_search_selected_entry(&mut self, after: AfterFetch) -> (r: Option<Request>)
        ensures
            fetched_search_selected(*old(self), *final(self), after, r),
    {
        match self.search.selected_dn() {
            Some(dn) => self.fetch_entry_by_dn(dn, after),
            None => self.finish(after),
        }
    }

    /// Ask for the entry at `dn`, unless it is the one already shown.
    fn fetch_entry_by_dn(&mut self, dn: String, after: AfterFetch) -> (r: Option<Request>)
        ensures
            fetched(*old(self), *final(self), dn, after, r),
    {
        let same = match &self.current_entry {
            Some(e) => str_eq(e.dn.as_str(), dn.as_str()),
            None => false,
        };
        if same {
            return self.finish(after);
        }
        self.pending = Pending::Fetch(dn.clone(), after);
        Some(Request::FetchEntry(dn))
    }

    /// Run what follows a completed entry fetch.
    fn finish(&mut self, after: AfterFetch) -> (r: Option<Request>)
        ensures
            finished(*old(self), *final(self), after, r),
    {
        self.pending = Pending::Idle;
        match after {
            AfterFetch::Nothing => None,
            AfterFetch::LoadSchema => {
                self.pending = Pending::Schema;
                Some(Request::FetchSchema)
            },
            AfterFetch::QueueMust(oc_name) => {
                self.queue_missing_must_attrs(oc_name.as_str());
                if self.pending_must_queue.len() > 0 {
                    self.open_next_must_attr();
                }
                None
            },
            AfterFetch::NextMust => {
                if matches!(self.mode, Mode::Browse) && self.pending_must_queue.len() > 0 {
                    self.open_next_must_attr();
                }
                None
            },
        }
    }
}

impl App {
    // ── MUST attribute queue ─────────────────────────────────────────────────

    fn queue_missing_must_attrs(&mut self, oc_name: &str)
        ensures
            queued_missing(*old(self), *final(self), oc_name@),
    {
        let missing = match (&self.current_entry, &self.schema_cache) {
            (Some(entry), Some(schema)) => missing_must_attrs(entry, schema, oc_name),
            _ => return,
        };
        let ghost start = self.pending_must_queue@;
        let ghost o = *self;
        let mut i: usize = 0;
        while i < missing.len()
            invariant
                i <= missing@.len(),
                *self == (App { pending_must_queue: self.pending_must_queue, ..o }),
                self.pending_must_queue@ == start + missing@.take(i as int),
            decreases missing@.len() - i,
        {
            self.pending_must_queue.push_back(missing[i].clone());
            assert(start + missing@.take(i as int + 1) =~= (start + missing@.take(i as int)).push(missing@[i as int]));
            i += 1;
        }
        assert(missing@.take(missing@.len() as int) =~= missing@);
        assert(self.pending_must_queue@.take(start.len() as int) =~= start);
        assert(self.pending_must_queue@.skip(start.len() as int) =~= missing@);
    }

    /// Open the value editor for the next queued MUST attribute.
    pub fn open_next_must_attr(&mut self)
        ensures
            old(self).pending_must_queue@.len() == 0 ==> *final(self) == *old(self),
            old(self).pending_must_queue@.len() > 0 ==> opened_next_must(*old(self), *final(self)),
    {
        if self.pending_must_queue.len() == 0 {
            return;
        }
        match self.pending_must_queue.pop_front() {
            Some(attr) => {
                self.status = Status::InputMustAttr(attr.clone());
                self.mode = Mode::AddValue(EditState::add(attr));
            },
            None => {},
        }
    }

    // ── Replies ──────────────────────────────────────────────────────────────

    /// Continue the pending step with the directory's reply; may ask for the next request.
    pub fn on_outcome(&mut self, outcome: Outcome) -> (r: Option<Request>)
        ensures
            outcome_step(*old(self), *final(self), outcome, r),
    {
        let mut pending = Pending::Idle;
        std::mem::swap(&mut pending, &mut self.pending);
        match (pending, outcome) {
            (Pending::Fetch(_dn, after), Outcome::Entry(result)) => {
                match result {
                    None => return None,
                    Some(Ok(entry)) => {
                        self.detail_view.reset();
                        self.current_entry = Some(entry);
                        let ghost mid = *self;
                        let r = self.finish(after);
                        assert(finished(mid, *self, after, r));
                        return r;
                    },
                    Some(Err(e)) => {
                        self.status = Status::FetchError(e);
                    },
                }
                self.finish(after)
            },
            (Pending::Schema, Outcome::Schema(result)) => {
                match result {
                    None => {},
                    Some(Ok(cache)) => {
                        let attrs = cache.attr_count();
                        let ocs = cache.oc_count();
                        let prev = self.take_status();
                        self.status = Status::SchemaSummary(Box::new(prev), attrs, ocs);
                        self.schema_cache = Some(cache);
                    },
                    Some(Err(e)) => {
                        let prev = self.take_status();
                        self.status = Status::SchemaError(Box::new(prev), e);
                    },
                }
                None
            },
            (Pending::Expand(dn), Outcome::Children(result)) => {
                match result {
                    None => {},
                    Some(Ok(children)) => {
                        if children.len() > EXPAND_CONFIRM_THRESHOLD {
                            self.status = Status::ExpandConfirm(children.len());
                            self.mode = Mode::ConfirmExpand(PendingExpansion { dn, children });
                        } else if children.len() > 0 {
                            match &mut self.browse {
                                Some(t) => t.expand_at(dn.as_str(), children),
                                None => {},
                            }
                        } else {
                            match &mut self.browse {
                                Some(t) => t.mark_no_children_at(dn.as_str()),
                                None => {},
                            }
                        }
                    },
                    Some(Err(e)) => {
                        self.status = Status::ExpandError(e);
                    },
                }
                None
            },
            (Pending::Suffix(dn), Outcome::Children(result)) => {
                match result {
                    None => None,
                    Some(Ok(children)) => {
                        let tree = Tree::from_children(dn, children);
                        let ghost tw = tree;
                        self.browse = Some(tree);
                        self.mode = Mode::Browse;
                        let ghost mid = *self;
                        let r = self.fetch_selected_entry(AfterFetch::LoadSchema);
                        assert(fetched_selected(mid, *self, AfterFetch::LoadSchema, r));
                        assert(mid.browse == Some(tw));
                        r
                    },
                    Some(Err(e)) => {
                        self.status = Status::ErrorPrefix(e);
                        None
                    },
                }
            },
            (Pending::Search, Outcome::Search(result)) => {
                match result {
                    None => None,
                    Some(Ok(dns)) => {
                        self.search.set_results(dns);
                        self.current_entry = None;
                        self.mode = Mode::SearchResults;
                        self.fetch_search_selected_entry(AfterFetch::Nothing)
                    },
                    Some(Err(e)) => {
                        self.status = Status::SearchError(e);
                        self.mode = Mode::Browse;
                        None
                    },
                }
            },
            (Pending::Modify(dn, kind, after), Outcome::Modify(result)) => {
                match result {
                    None => self.finish(after),
                    Some(r) => {
                        match kind {
                            ModifyKind::OcAdd(oc_name) => match r {
                                Err(e) => {
                                    self.status = Status::OcAddError(e);
                                    self.finish(after)
                                },
                                Ok(_) => {
                                    self.status = Status::OcAdded(oc_name.clone());
                                    self.current_entry = None;
                                    self.fetch_entry_by_dn(dn, AfterFetch::QueueMust(oc_name))
                                },
                            },
                            ModifyKind::OcDelete(oc_name) => {
                                self.status = match r {
                                    Ok(_) => Status::OcDeleted(oc_name),
                                    Err(e) => Status::ErrorPrefix(e),
                                };
                                self.current_entry = None;
                                self.fetch_entry_by_dn(dn, after)
                            },
                            ModifyKind::Edit(attr) => {
                                self.status = match r {
                                    Ok(_) => Status::Modified(attr),
                                    Err(e) => Status::ErrorPrefix(e),
                                };
                                self.current_entry = None;
                                self.fetch_entry_by_dn(dn, after)
                            },
                            ModifyKind::AddValue(attr) => {
                                self.status = match r {
                                    Ok(_) => Status::Added(attr),
                                    Err(e) => Status::ErrorPrefix(e),
                                };
                                self.current_entry = None;
                                self.fetch_entry_by_dn(dn, after)
                            },
                            ModifyKind::DeleteValue(attr) => {
                                self.status = match r {
                                    Ok(_) => Status::Deleted(attr),
                                    Err(e) => Status::ErrorPrefix(e),
                                };
                                self.current_entry = None;
                                self.fetch_entry_by_dn(dn, after)
                            },
                        }
                    },
                }
            },
            (Pending::CreateAdd(parent_dn, form, new_dn), Outcome::Add(result)) => {
                match result {
                    None => None,
                    Some(Err(e)) => {
                        self.status = Status::AddError(e);
                        self.mode = Mode::CreateChild(CreateChildState { parent_dn, phase: CreatePhase::Form(form) });
                        None
                    },
                    Some(Ok(_)) => {
                        self.status = Status::Created(new_dn.clone());
                        self.pending = Pending::CreateRefresh(parent_dn.clone(), new_dn);
                        Some(Request::Children(parent_dn))
                    },
                }
            },
            (Pending::CreateRefresh(parent_dn, new_dn), Outcome::Children(result)) => {
                match result {
                    Some(Ok(children)) => {
                        let ghost ch = children@;
                        let ghost ob = self.browse;
                        match &mut self.browse {
                            Some(t) => {
                                let ghost tv0 = t@;
                                t.expand_at(parent_dn.as_str(), children);
                                let ghost t1 = t@;
                                assert(t1 == TreeView { root: expand_tree_at(tv0.root, parent_dn@, child_views(ch)), ..tv0 });
                                match Self::find_row(t, new_dn.as_str()) {
                                    Some(idx) => {
                                        assert(first_row_with_dn(tree_rows(t1), new_dn@, 0) == Some(idx as int));
                                        t.set_cursor(idx);
                                        assert(t@.cursor == set_cursor_spec(t1, idx as int));
                                    },
                                    None => {
                                        assert(first_row_with_dn(tree_rows(t1), new_dn@, 0) is None);
                                    },
                                }
                                assert(t@ == after_create_refresh(tv0, parent_dn@, child_views(ch), new_dn@));
                            },
                            None => {},
                        }
                        let ghost nb = self.browse;
                        assert(browse_updated(ob, nb, |t: TreeView| after_create_refresh(t, parent_dn@, child_views(ch), new_dn@)));
                        self.current_entry = None;
                        let ghost mid = *self;
                        let r = self.fetch_selected_entry(AfterFetch::Nothing);
                        assert(fetched_selected(mid, *self, AfterFetch::Nothing, r));
                        r
                    },
                    _ => None,
                }
            },
            (Pending::EntryDelete(dn, parent), Outcome::Delete(result)) => {
                match result {
                    None => None,
                    Some(Err(e)) => {
                        self.status = Status::DeleteError(e);
                        None
                    },
                    Some(Ok(_)) => {
                        self.status = Status::Deleted(dn);
                        match parent {
                            None => None,
                            Some((parent_dn, parent_idx)) => {
                                self.pending = Pending::EntryDeleteRefresh(parent_dn.clone(), parent_idx);
                                Some(Request::Children(parent_dn))
                            },
                        }
                    },
                }
            },
            (Pending::EntryDeleteRefresh(parent_dn, parent_idx), Outcome::Children(result)) => {
                match result {
                    None => None,
                    Some(Ok(children)) => {
                        let ghost ch = children@;
                        let ghost ob = self.browse;
                        match &mut self.browse {
                            Some(t) => {
                                let ghost tv0 = t@;
                                if children.len() == 0 {
                                    t.mark_no_children_at(parent_dn.as_str());
                                } else {
                                    t.expand_at(parent_dn.as_str(), children);
                                }
                                t.set_cursor(parent_idx);
                                assert(child_views(ch).len() == ch.len());
                                assert(t@ == after_delete_refresh(tv0, parent_dn@, child_views(ch), parent_idx as int));
                            },
                            None => {},
                        }
                        let ghost nb = self.browse;
                        assert(browse_updated(ob, nb, |t: TreeView| after_delete_refresh(t, parent_dn@, child_views(ch), parent_idx as int)));
                        self.current_entry = None;
                        let ghost mid = *self;
                        let r = self.fetch_selected_entry(AfterFetch::Nothing);
                        assert(fetched_selected(mid, *self, AfterFetch::Nothing, r));
                        r
                    },
                    Some(Err(e)) => {
                        let prev = self.take_status();
                        self.status = Status::ParentRefetchFailed(Box::new(prev), e);
                        None
                    },
                }
            },
            _ => None,
        }
    }

    fn take_status(&mut self) -> (r: Status)
        ensures
            r == old(self).status,
            *final(self) == (App { status: Status::Empty, ..*old(self) }),
    {
        let mut s = Status::Empty;
        std::mem::swap(&mut s, &mut self.status);
        s
    }

    /// The first flattened row whose DN is `dn`.
    fn find_row(t: &Tree, dn: &str) -> (r: Option<usize>)
        ensures
            match first_row_with_dn(tree_rows(t@), dn@, 0) {
                Some(i) => r matches Some(k) && k as int == i,
                None => r is None,
            },
    {
        let flat = t.flat();
        let ghost rows = tree_rows(t@);
        assert(rows.len() == flat@.len());
        let mut i: usize = 0;
        while i < flat.len()
            invariant
                crate::model::flat_views(flat@) == rows,
                rows == tree_rows(t@),
                rows.len() == flat@.len(),
                i <= flat@.len(),
                first_row_with_dn(rows, dn@, i as int) == first_row_with_dn(rows, dn@, 0),
            decreases flat@.len() - i,
        {
            assert(rows[i as int] == flat@[i as int]@);
            if str_eq(flat[i].node.dn.as_str(), dn) {
                assert(rows[i as int].node.dn == dn@);
                assert(first_row_with_dn(rows, dn@, i as int) == Some(i as int));
                return Some(i);
            }
            assert(first_row_with_dn(rows, dn@, i as int) == first_row_with_dn(rows, dn@, i as int + 1));
            i += 1;
        }
        None
    }
}

impl App {
    // ── Row checks on the detail pane ────────────────────────────────────────

    /// The entry shown, when its rows can be counted.
    fn shown_entry(&self) -> (r: Option<&LdapEntry>)
        ensures
            match r {
                Some(e) => self.current_entry == Some(*e) && entry_fits(*e),
                None => self.current_entry is None || !entry_fits(self.current_entry->0),
            },
    {
        match &self.current_entry {
            Some(e) => if entry_rows_fit(e) {
                Some(e)
            } else {
                None
            },
            None => None,
        }
    }

    /// (attribute, value) of the selected objectClass or attribute row.
    fn current_selection(&self) -> (r: Option<(String, String)>)
        ensures
            match current_selection_spec(*self) {
                Some((a, v)) => r matches Some((ra, rv)) && ra@ == a && rv@ == v,
                None => r is None,
            },
    {
        let e = match self.shown_entry() {
            Some(e) => e,
            None => return None,
        };
        match self.detail_view.selected(e) {
            Some(Selection::ObjectClass { value, .. }) => Some((objectclass_attr_string(), value.to_string())),
            Some(Selection::Attr { attr, value }) => Some((attr.to_string(), value.to_string())),
            _ => None,
        }
    }

    // ── Attribute edit mode transitions ──────────────────────────────────────

    fn enter_action_dialog(&mut self)
        ensures
            action_dialog_entered(*old(self), *final(self)),
    {
        match self.shown_entry() {
            Some(e) => {
                if self.detail_view.is_attr_plus_row(e) {
                    self.enter_add_attr_name();
                    return;
                }
                if self.detail_view.is_oc_plus_row(e) {
                    self.open_oc_picker();
                    return;
                }
                if self.detail_view.is_op_row(e) {
                    self.status = Status::OpReadonly;
                    return;
                }
            },
            None => {},
        }
        if self.current_entry.is_some() {
            self.mode = Mode::ActionDialog;
        }
    }

    fn enter_add_attr_name(&mut self)
        ensures
            add_attr_name_entered(*old(self), *final(self)),
    {
        if self.open_picker() {
            return;
        }
        self.mode = Mode::AddAttrName(EditState::attr_name());
    }

    fn enter_edit(&mut self)
        ensures
            edit_entered(*old(self), *final(self)),
    {
        match self.shown_entry() {
            Some(e) => {
                if self.detail_view.is_oc_row(e) {
                    self.status = Status::OcDeleteOnly;
                    return;
                }
                if self.detail_view.is_op_row(e) {
                    self.status = Status::OpReadonly;
                    return;
                }
            },
            None => {},
        }
        match self.current_selection() {
            Some((attr, val)) => {
                self.mode = Mode::EditValue(EditState::edit(attr, val));
            },
            None => {},
        }
    }

    fn enter_add(&mut self)
        ensures
            add_entered(*old(self), *final(self)),
    {
        match self.shown_entry() {
            Some(e) => {
                if self.detail_view.is_oc_row(e) {
                    self.status = Status::OcDeleteOnly;
                    return;
                }
                if self.detail_view.is_op_row(e) {
                    self.status = Status::OpReadonly;
                    return;
                }
            },
            None => {},
        }
        match self.current_selection() {
            Some((attr, _val)) => {
                self.mode = Mode::AddValue(EditState::add(attr));
            },
            None => {},
        }
    }

    fn enter_delete(&mut self)
        ensures
            delete_entered(*old(self), *final(self)),
    {
        let mut oc_val: Option<String> = None;
        match self.shown_entry() {
            Some(e) => {
                if self.detail_view.is_op_row(e) {
                    self.status = Status::OpReadonly;
                    return;
                }
                if self.detail_view.is_oc_row(e) {
                    match self.detail_view.selected(e) {
                        Some(Selection::ObjectClass { value, .. }) => {
                            oc_val = Some(value.to_string());
                        },
                        _ => {},
                    }
                }
            },
            None => {},
        }
        match oc_val {
            Some(oc_name) => {
                let orphaned = self.calc_orphaned_attrs(oc_name.as_str());
                self.mode = Mode::ConfirmOcDelete(OcDeleteState { oc_name, orphaned });
                return;
            },
            None => {},
        }
        match self.current_selection() {
            Some((attr, val)) => {
                self.mode = Mode::ConfirmDelete(EditState::delete(attr, val));
            },
            None => {},
        }
    }

    /// The attribute rows that deleting `oc_to_delete` would leave without a class (none without a schema).
    fn calc_orphaned_attrs(&self, oc_to_delete: &str) -> (r: Vec<(String, String)>)
        ensures
            r@ == orphaned_spec(*self, oc_to_delete@),
    {
        match (&self.current_entry, &self.schema_cache) {
            (Some(entry), Some(schema)) => orphaned_attrs_for_oc_delete(
                entry.attr_rows.as_slice(),
                entry.oc_values.as_slice(),
                oc_to_delete,
                schema,
            ),
            _ => Vec::new(),
        }
    }

    // ── Attribute picker ─────────────────────────────────────────────────────

    /// Open the attribute picker; false when there is no entry, no schema, or no candidate.
    fn open_picker(&mut self) -> (r: bool)
        ensures
            r ==> attr_picker_opened(*old(self), *final(self)),
            !r ==> attr_picker_unavailable(*old(self)) && *final(self) == *old(self),
    {
        let entries = match (&self.current_entry, &self.schema_cache) {
            (Some(entry), Some(schema)) => build_picker_entries(entry, schema),
            _ => return false,
        };
        assert(attr_candidates(*self, entries@));
        if entries.len() == 0 {
            return false;
        }
        self.mode = Mode::Picker(PickerState::new(entries));
        true
    }

    fn apply_picker(&mut self)
        ensures
            picker_applied(*old(self), *final(self)),
    {
        let mode = self.take_mode();
        match mode {
            Mode::Picker(state) => {
                match state.selected_entry() {
                    Some(entry) => {
                        let attr = entry.attr_name.clone();
                        self.mode = Mode::AddValue(EditState::add(attr));
                    },
                    None => {},
                }
            },
            other => {
                self.mode = other;
            },
        }
    }

    // ── objectClass add / delete ─────────────────────────────────────────────

    fn open_oc_picker(&mut self)
        ensures
            oc_picker_opened(*old(self), *final(self)),
    {
        let entries = match &self.current_entry {
            None => return,
            Some(entry) => match &self.schema_cache {
                None => {
                    self.status = Status::SchemaNotLoaded;
                    return;
                },
                Some(schema) => build_oc_picker_entries(entry, schema),
            },
        };
        if entries.len() == 0 {
            self.status = Status::NoOcToAdd;
            return;
        }
        self.mode = Mode::OcPicker(PickerState::new(entries));
    }

    fn apply_oc_picker(&mut self) -> (r: Option<Request>)
        ensures
            oc_picker_applied(*old(self), *final(self), r),
    {
        let mode = self.take_mode();
        match mode {
            Mode::OcPicker(state) => {
                match state.selected_entry() {
                    Some(entry) => {
                        let oc_name = entry.attr_name.clone();
                        self.apply_oc_add(oc_name)
                    },
                    None => None,
                }
            },
            other => {
                self.mode = other;
                None
            },
        }
    }

    fn current_dn(&self) -> (r: Option<String>)
        ensures
            match self.current_entry {
                Some(e) => r == Some(e.dn),
                None => r is None,
            },
    {
        match &self.current_entry {
            Some(e) => Some(e.dn.clone()),
            None => None,
        }
    }

    fn apply_oc_add(&mut self, oc_name: String) -> (r: Option<Request>)
        ensures
            oc_add_applied(*old(self), *final(self), oc_name, r),
    {
        let dn = match self.current_dn() {
            Some(d) => d,
            None => return None,
        };
        let mods = oc_add_mods(&oc_name);
        self.pending = Pending::Modify(dn.clone(), ModifyKind::OcAdd(oc_name), AfterFetch::Nothing);
        Some(Request::Modify(dn, mods))
    }

    fn apply_oc_delete(&mut self) -> (r: Option<Request>)
        ensures
            oc_delete_applied(*old(self), *final(self), r),
    {
        let mode = self.take_mode();
        let state = match mode {
            Mode::ConfirmOcDelete(state) => state,
            other => {
                self.mode = other;
                return None;
            },
        };
        let dn = match self.current_dn() {
            Some(d) => d,
            None => return None,
        };
        let mods = oc_delete_mods(&state.oc_name, &state.orphaned);
        self.pending = Pending::Modify(dn.clone(), ModifyKind::OcDelete(state.oc_name), AfterFetch::Nothing);
        Some(Request::Modify(dn, mods))
    }

    // ── Value modifications ──────────────────────────────────────────────────

    fn apply_edit(&mut self, after: AfterFetch) -> (r: Option<Request>)
        ensures
            edit_applied(*old(self), *final(self), after, r),
    {
        let mode = self.take_mode();
        let es = match mode {
            Mode::EditValue(es) => es,
            other => {
                self.mode = other;
                return self.finish(after);
            },
        };
        let new_val = trim(es.input.text());
        if new_val.as_str().is_empty() {
            return self.finish(after);
        }
        let dn = match self.current_dn() {
            Some(d) => d,
            None => return self.finish(after),
        };
        let mods = edit_value_mods(&es.attr, &es.old_value, new_val);
        self.pending = Pending::Modify(dn.clone(), ModifyKind::Edit(es.attr), after);
        Some(Request::Modify(dn, mods))
    }

    fn apply_add(&mut self, after: AfterFetch) -> (r: Option<Request>)
        ensures
            add_applied(*old(self), *final(self), after, r),
    {
        let mode = self.take_mode();
        let es = match mode {
            Mode::AddValue(es) => es,
            other => {
                self.mode = other;
                return self.finish(after);
            },
        };
        let new_val = trim(es.input.text());
        if new_val.as_str().is_empty() {
            return self.finish(after);
        }
        let dn = match self.current_dn() {
            Some(d) => d,
            None => return self.finish(after),
        };
        let mods = add_value_mods(&es.attr, new_val);
        self.pending = Pending::Modify(dn.clone(), ModifyKind::AddValue(es.attr), after);
        Some(Request::Modify(dn, mods))
    }

    fn apply_delete(&mut self) -> (r: Option<Request>)
        ensures
            delete_applied(*old(self), *final(self), r),
    {
        let mode = self.take_mode();
        let es = match mode {
            Mode::ConfirmDelete(es) => es,
            other => {
                self.mode = other;
                return None;
            },
        };
        let dn = match self.current_dn() {
            Some(d) => d,
            None => return None,
        };
        let mods = delete_value_mods(&es.attr, &es.old_value);
        self.pending = Pending::Modify(dn.clone(), ModifyKind::DeleteValue(es.attr), AfterFetch::Nothing);
        Some(Request::Modify(dn, mods))
    }

    // ── Search ───────────────────────────────────────────────────────────────

    fn execute_search(&mut self) -> (r: Option<Request>)
        ensures
            search_executed(*old(self), *final(self), r),
    {
        let filter = normalize_filter(self.search.input.text());
        if filter.as_str().is_empty() {
            self.mode = Mode::Browse;
            return None;
        }
        let base = match &self.browse {
            Some(t) => t.base_dn().to_string(),
            None => return None,
        };
        self.pending = Pending::Search;
        Some(Request::Search(base, filter))
    }

    // ── Tree operations ──────────────────────────────────────────────────────

    fn toggle_pane(&mut self)
        ensures
            *final(self) == (App { active_pane: other_pane(old(self).active_pane), ..*old(self) }),
    {
        self.active_pane = match self.active_pane {
            Pane::Tree => Pane::Detail,
            Pane::Detail => Pane::Tree,
        };
    }

    fn tree_up(&mut self)
        ensures
            tree_moved_up(*old(self), *final(self)),
    {
        match &mut self.browse {
            Some(t) => t.cursor_up(),
            None => {},
        }
    }

    fn tree_down(&mut self)
        ensures
            tree_moved_down(*old(self), *final(self)),
    {
        match &mut self.browse {
            Some(t) => t.cursor_down(),
            None => {},
        }
    }

    /// → key: fetch the children of the selected node when it has unloaded children.
    fn expand_selected(&mut self) -> (r: Option<Request>)
        ensures
            expand_requested(*old(self), *final(self), r),
    {
        let info = match &self.browse {
            Some(t) => match t.selected_info() {
                Some(i) => i,
                None => return None,
            },
            None => return None,
        };
        if !info.has_children || info.expanded {
            return None;
        }
        self.pending = Pending::Expand(info.dn.clone());
        Some(Request::Children(info.dn))
    }

    /// ← key: collapse if expanded, otherwise move to the parent.
    fn collapse_or_parent(&mut self)
        ensures
            collapsed_or_moved(*old(self), *final(self)),
    {
        let result = match &mut self.browse {
            Some(t) => t.collapse_or_parent(),
            None => return,
        };
        match result {
            CollapseResult::MovedToParent(parent_dn) => {
                let shown = match &self.current_entry {
                    Some(e) => str_eq(e.dn.as_str(), parent_dn.as_str()),
                    None => false,
                };
                if !shown {
                    self.current_entry = None;
                }
            },
            _ => {},
        }
    }

    /// `d` in the tree pane: ask to confirm deleting the selected entry (never the root).
    fn enter_tree_delete(&mut self)
        ensures
            tree_delete_entered(*old(self), *final(self)),
    {
        let info = match &self.browse {
            Some(t) => match t.selected_info() {
                Some(i) => i,
                None => return,
            },
            None => return,
        };
        if info.depth == 0 {
            self.status = Status::RootUndeletable;
            return;
        }
        self.mode = Mode::ConfirmEntryDelete(EntryDeleteState { dn: info.dn, has_children: info.has_children });
    }

    fn apply_entry_delete(&mut self) -> (r: Option<Request>)
        ensures
            entry_delete_applied(*old(self), *final(self), r),
    {
        let mode = self.take_mode();
        let state = match mode {
            Mode::ConfirmEntryDelete(state) => state,
            other => {
                self.mode = other;
                return None;
            },
        };
        let parent = match &self.browse {
            Some(t) => t.parent_info(),
            None => None,
        };
        self.pending = Pending::EntryDelete(state.dn.clone(), parent);
        Some(Request::Delete(state.dn))
    }

    // ── Create child entry ───────────────────────────────────────────────────

    /// `a` in the tree pane: open the wizard for a new entry under the selected node.
    fn enter_create_child(&mut self)
        ensures
            create_child_entered(*old(self), *final(self)),
    {
        let parent_dn = match self.selected_tree_dn() {
            Some(d) => d,
            None => return,
        };
        let entries = match &self.schema_cache {
            None => {
                self.status = Status::SchemaRequiredForCreate;
                return;
            },
            Some(schema) => build_structural_oc_picker_entries(schema),
        };
        if entries.len() == 0 {
            self.status = Status::NoStructuralOc;
            return;
        }
        self.mode = Mode::CreateChild(CreateChildState { parent_dn, phase: CreatePhase::PickOc(PickerState::new(entries)) });
    }

    /// Enter in the PickOc phase: offer the chosen objectClass's attributes for the RDN.
    fn apply_create_child_pick_oc(&mut self)
        ensures
            pick_oc_applied(*old(self), *final(self)),
    {
        let mode = self.take_mode();
        let st = match mode {
            Mode::CreateChild(st) => st,
            other => {
                self.mode = other;
                return;
            },
        };
        let CreateChildState { parent_dn, phase } = st;
        let picker = match phase {
            CreatePhase::PickOc(picker) => picker,
            other => {
                self.mode = Mode::CreateChild(CreateChildState { parent_dn, phase: other });
                return;
            },
        };
        let oc_name = match picker.selected_entry() {
            Some(entry) => entry.attr_name.clone(),
            None => return,
        };
        let (rdn_entries, oc_chain) = match &self.schema_cache {
            None => {
                self.status = Status::SchemaRequiredForCreate;
                return;
            },
            Some(schema) => (build_rdn_picker_entries(schema, oc_name.as_str()), schema.oc_sup_chain(oc_name.as_str())),
        };
        assert(rdn_candidates(self.schema_cache->0, oc_name@, rdn_entries@));
        if rdn_entries.len() == 0 {
            self.status = Status::NoMustMayAttrs(oc_name);
            return;
        }
        let mut rdn_picker = PickerState::new(rdn_entries);
        rdn_picker.selected = pick_rdn_initial(rdn_picker.entries.as_slice());
        self.mode = Mode::CreateChild(CreateChildState {
            parent_dn,
            phase: CreatePhase::PickRdn(RdnPickState { oc_name, oc_chain, picker: rdn_picker }),
        });
    }

    /// Enter in the PickRdn phase: move on to the form.
    fn apply_create_child_pick_rdn(&mut self)
        ensures
            pick_rdn_applied(*old(self), *final(self)),
    {
        let mode = self.take_mode();
        let st = match mode {
            Mode::CreateChild(st) => st,
            other => {
                self.mode = other;
                return;
            },
        };
        let CreateChildState { parent_dn, phase } = st;
        let rdn_state = match phase {
            CreatePhase::PickRdn(rdn_state) => rdn_state,
            other => {
                self.mode = Mode::CreateChild(CreateChildState { parent_dn, phase: other });
                return;
            },
        };
        let RdnPickState { oc_name, oc_chain, picker } = rdn_state;
        let rdn_attr = match picker.selected_entry() {
            Some(e) => e.attr_name.clone(),
            None => return,
        };
        let form = form_for_rdn(oc_name, oc_chain, &picker.entries, rdn_attr.as_str());
        self.mode = Mode::CreateChild(CreateChildState { parent_dn, phase: CreatePhase::Form(form) });
    }

    /// Submit in the Form phase: validate, then ask to create the entry.
    fn apply_create_child(&mut self) -> (r: Option<Request>)
        ensures
            create_child_applied(*old(self), *final(self), r),
    {
        let mode = self.take_mode();
        let st = match mode {
            Mode::CreateChild(st) => st,
            other => {
                self.mode = other;
                return None;
            },
        };
        let CreateChildState { parent_dn, phase } = st;
        let form = match phase {
            CreatePhase::Form(form) => form,
            other => {
                self.mode = Mode::CreateChild(CreateChildState { parent_dn, phase: other });
                return None;
            },
        };
        proof { crate::actions::lemma_first_blank_bound(form.fields@, 0); }
        if !form_rdn_ok(&form) {
            self.mode = Mode::CreateChild(CreateChildState { parent_dn, phase: CreatePhase::Form(form) });
            return None;
        }
        match create_child_request(&form, parent_dn.as_str()) {
            Err(field) => {
                self.status = Status::FieldEmpty(field);
                self.mode = Mode::CreateChild(CreateChildState { parent_dn, phase: CreatePhase::Form(form) });
                None
            },
            Ok(req) => {
                let new_dn = req.dn.clone();
                self.pending = Pending::CreateAdd(parent_dn, form, new_dn);
                Some(Request::Add(req))
            },
        }
    }
}

/// The rows of an entry can be counted in a machine word.
pub fn entry_rows_fit(e: &LdapEntry) -> (r: bool)
    ensures
        r == entry_fits(*e),
{
    let a = e.oc_values.len() as u128;
    let b = e.attr_rows.len() as u128;
    let c = e.op_rows.len() as u128;
    a + b + c + 2 <= usize::MAX as u128
}

/// The form names an RDN field, or has a blank field (which is reported first).
fn form_rdn_ok(form: &FormState) -> (r: bool)
    ensures
        r == (crate::actions::first_blank(form.fields@, 0) == form.fields@.len() ==> form.rdn_idx < form.fields@.len()),
{
    if form.rdn_idx < form.fields.len() {
        return true;
    }
    let ghost fs = form.fields@;
    let mut i: usize = 0;
    while i < form.fields.len()
        invariant
            fs == form.fields@,
            i <= fs.len(),
            crate::actions::first_blank(fs, i as int) == crate::actions::first_blank(fs, 0),
        decreases fs.len() - i,
    {
        let t = trim(form.fields[i].input.text());
        if t.as_str().is_empty() {
            return true;
        }
        i += 1;
    }
    false
}

/// `y` or `Y`: the answer that confirms a y/N prompt.
pub open spec fn is_yes(code: KeyCode) -> bool {
    code == KeyCode::Char('y') || code == KeyCode::Char('Y')
}

/// Unmodified or shifted: the keys that type text.
pub open spec fn plain_or_shift(m: KeyModifiers) -> bool {
    m == KeyModifiers::NoModifier || m == KeyModifiers::ShiftOnly
}

fn yes_key(code: KeyCode) -> (r: bool)
    ensures
        r == is_yes(code),
{
    code == KeyCode::Char('y') || code == KeyCode::Char('Y')
}

/// Apply a picker navigation/typing key (↑/k, ↓/j, Backspace, typed chars) to a picker.
fn picker_key(p: &mut PickerState, key: KeyEvent, nav_needs_plain: bool)
    ensures
        picker_key_step(*old(p), *final(p), key, nav_needs_plain),
{
    match key.code {
        KeyCode::Up => if !nav_needs_plain || key.modifiers == KeyModifiers::NoModifier {
            p.up()
        },
        KeyCode::Char('k') if !nav_needs_plain || key.modifiers == KeyModifiers::NoModifier => p.up(),
        KeyCode::Down => if !nav_needs_plain || key.modifiers == KeyModifiers::NoModifier {
            p.down()
        },
        KeyCode::Char('j') if !nav_needs_plain || key.modifiers == KeyModifiers::NoModifier => p.down(),
        KeyCode::Backspace => p.backspace(),
        KeyCode::Char(c) => if key.modifiers == KeyModifiers::NoModifier || key.modifiers == KeyModifiers::ShiftOnly {
            if p.input.len() < usize::MAX {
                p.insert_char(c);
            }
        },
        _ => {},
    }
}

/// Apply an editing key to a text input.
fn edit_input(input: &mut TextInput, key: KeyEvent)
    ensures
        input_edited(*old(input), *final(input), key),
{
    if input.len() < usize::MAX {
        input.handle_key(key);
    }
}

impl App {
    // ── Key handlers ─────────────────────────────────────────────────────────

    /// Handle one key press. Returns whether the editor keeps running, and the directory
    /// request it asks for, if any.
    pub fn handle_key(&mut self, key: KeyEvent) -> (r: (bool, Option<Request>))
        ensures
            key_handled(*old(self), *final(self), key, r),
    {
        match &self.mode {
            Mode::AddAttrName(_) => {
                self.handle_add_attr_name(key);
                return (true, None);
            },
            Mode::EditValue(_) | Mode::AddValue(_) => {
                let req = self.handle_edit_input(key);
                return (true, req);
            },
            Mode::SearchInput => {
                let req = self.handle_search_input(key);
                return (true, req);
            },
            Mode::SelectSuffix(_) => {
                return self.handle_select_suffix(key);
            },
            Mode::Picker(_) | Mode::OcPicker(_) => {
                let req = self.handle_picker(key);
                return (true, req);
            },
            Mode::ConfirmExpand(_) => {
                self.handle_confirm_expand(key);
                return (true, None);
            },
            Mode::ConfirmOcDelete(_) => {
                if yes_key(key.code) {
                    let req = self.apply_oc_delete();
                    return (true, req);
                }
                self.mode = Mode::Browse;
                return (true, None);
            },
            Mode::ConfirmDelete(_) => {
                if yes_key(key.code) {
                    let req = self.apply_delete();
                    return (true, req);
                }
                self.mode = Mode::Browse;
                return (true, None);
            },
            Mode::ConfirmEntryDelete(_) => {
                if yes_key(key.code) {
                    let req = self.apply_entry_delete();
                    return (true, req);
                }
                self.mode = Mode::Browse;
                return (true, None);
            },
            Mode::CreateChild(_) => {
                let req = self.handle_create_child(key);
                return (true, req);
            },
            Mode::ActionDialog => {
                match key.code {
                    KeyCode::Char('e') => self.enter_edit(),
                    KeyCode::Char('a') => self.enter_add(),
                    KeyCode::Char('d') => self.enter_delete(),
                    _ => {
                        self.mode = Mode::Browse;
                    },
                }
                return (true, None);
            },
            Mode::Browse | Mode::SearchResults => {},
        }
        self.handle_browse_key(key)
    }

    fn reload_entry(&mut self) -> (r: Option<Request>)
        ensures
            fetched_selected(App { current_entry: None, ..*old(self) }, *final(self), AfterFetch::Nothing, r),
    {
        self.current_entry = None;
        self.fetch_selected_entry(AfterFetch::Nothing)
    }

    /// ↑ in the detail pane.
    fn detail_up(&mut self)
        ensures
            match old(self).current_entry {
                Some(e) => detail_changed(*old(self), *final(self), if old(self).detail_view@.row > 0 {
                    moved_to(old(self).detail_view@, old(self).detail_view@.row - 1, e)
                } else {
                    old(self).detail_view@
                }),
                None => *final(self) == *old(self),
            },
    {
        let entry = self.current_entry.take();
        match &entry {
            Some(e) => self.detail_view.row_up(e),
            None => {},
        }
        self.current_entry = entry;
    }

    /// ↓ in the detail pane.
    fn detail_down(&mut self)
        ensures
            match shown(*old(self)) {
                Some(e) => detail_changed(*old(self), *final(self), if old(self).detail_view@.row + 1 < nav_len_spec(e) {
                    moved_to(old(self).detail_view@, old(self).detail_view@.row + 1, e)
                } else {
                    old(self).detail_view@
                }),
                None => *final(self) == *old(self),
            },
    {
        let entry = self.current_entry.take();
        match &entry {
            Some(e) => if entry_rows_fit(e) {
                self.detail_view.row_down(e)
            },
            None => {},
        }
        self.current_entry = entry;
    }

    /// `/`: start typing a search filter, with the cursor at its end.
    fn open_search_input(&mut self)
        ensures
            search_opened(*old(self), *final(self)),
    {
        self.mode = Mode::SearchInput;
        self.search.input.end();
        assert(search_opened(*old(self), *self));
    }

    /// Esc in the search results: back to browsing with an empty filter.
    fn leave_results(&mut self) -> (r: Option<Request>)
        ensures
            exists|mid: App| #[trigger] search_left(*old(self), mid) && fetched_selected(mid, *final(self), AfterFetch::Nothing, r),
    {
        self.mode = Mode::Browse;
        self.search.reset_input();
        let ghost mid = *self;
        assert(search_left(*old(self), mid));
        let r = self.fetch_selected_entry(AfterFetch::Nothing);
        assert(fetched_selected(mid, *self, AfterFetch::Nothing, r));
        r
    }

    /// ↑ in the search results.
    fn results_up(&mut self) -> (r: Option<Request>)
        ensures
            fetched_search_selected(
                App { search: SearchState { selected: list_up(old(self).search.selected), ..old(self).search }, ..*old(self) },
                *final(self),
                AfterFetch::Nothing,
                r,
            ),
    {
        self.search.up();
        self.fetch_search_selected_entry(AfterFetch::Nothing)
    }

    /// ↓ in the search results.
    fn results_down(&mut self) -> (r: Option<Request>)
        ensures
            fetched_search_selected(
                App {
                    search: SearchState {
                        selected: list_down(old(self).search.selected, old(self).search.results@.len() as int),
                        ..old(self).search
                    },
                    ..*old(self)
                },
                *final(self),
                AfterFetch::Nothing,
                r,
            ),
    {
        self.search.down();
        self.fetch_search_selected_entry(AfterFetch::Nothing)
    }

    /// ← in the detail pane: select the name column.
    fn detail_left(&mut self)
        ensures
            detail_changed(*old(self), *final(self), DetailModel { col: 0, ..old(self).detail_view@ }),
    {
        self.detail_view.col_left();
    }

    /// → in the detail pane: select the value column.
    fn detail_right(&mut self)
        ensures
            detail_changed(*old(self), *final(self), DetailModel { col: 1, ..old(self).detail_view@ }),
    {
        self.detail_view.col_right();
    }

    /// Whether an entry is shown, and whether its selected row is "+ attribute" or "+ objectClass".
    fn plus_rows(&self) -> (r: (bool, bool, bool))
        ensures
            r.0 == (shown(*self) is Some),
            r.1 == (selected_row(*self) == Some(SelectionView::AttrPlusRow)),
            r.2 == (selected_row(*self) == Some(SelectionView::OcPlusRow)),
    {
        match self.shown_entry() {
            Some(e) => (true, self.detail_view.is_attr_plus_row(e), self.detail_view.is_oc_plus_row(e)),
            None => (false, false, false),
        }
    }

    /// `e` in the detail pane.
    fn detail_edit_key(&mut self)
        ensures
            detail_edit_keyed(*old(self), *final(self)),
    {
        let (shown, attr_plus, _oc_plus) = self.plus_rows();
        if shown && !attr_plus {
            self.enter_edit();
        }
    }

    /// `a` in the detail pane.
    fn detail_add_key(&mut self)
        ensures
            detail_add_keyed(*old(self), *final(self)),
    {
        let (shown, attr_plus, oc_plus) = self.plus_rows();
        if shown {
            if attr_plus {
                self.enter_add_attr_name();
            } else if oc_plus {
                self.open_oc_picker();
            } else {
                self.enter_add();
            }
        }
    }

    /// `d` in the detail pane.
    fn detail_delete_key(&mut self)
        ensures
            detail_delete_keyed(*old(self), *final(self)),
    {
        let (shown, attr_plus, _oc_plus) = self.plus_rows();
        if shown && !attr_plus {
            self.enter_delete();
        }
    }

    fn handle_browse_key(&mut self, key: KeyEvent) -> (r: (bool, Option<Request>))
        ensures
            browse_key_handled(*old(self), *final(self), key, r),
    {
        let in_browse = matches!(self.mode, Mode::Browse);
        let in_results = matches!(self.mode, Mode::SearchResults);
        let on_tree = self.active_pane == Pane::Tree;
        let on_detail = self.active_pane == Pane::Detail;
        let c = key.code;
        if c == KeyCode::Char('q') {
            return (false, None);
        }
        if c == KeyCode::Tab {
            self.toggle_pane();
            return (true, None);
        }
        if (c == KeyCode::Char('r') && key.modifiers == KeyModifiers::ControlOnly) || c == KeyCode::F(5) {
            return (true, self.reload_entry());
        }
        if c == KeyCode::Char('/') {
            self.open_search_input();
            return (true, None);
        }
        if c == KeyCode::Esc && in_results {
            return (true, self.leave_results());
        }
        if c == KeyCode::Up || c == KeyCode::Char('k') {
            if on_tree {
                if in_browse {
                    self.tree_up();
                    return (true, self.fetch_selected_entry(AfterFetch::Nothing));
                } else if in_results {
                    return (true, self.results_up());
                }
                return (true, None);
            }
            self.detail_up();
            return (true, None);
        }
        if c == KeyCode::Down || c == KeyCode::Char('j') {
            if on_tree {
                if in_browse {
                    self.tree_down();
                    return (true, self.fetch_selected_entry(AfterFetch::Nothing));
                } else if in_results {
                    return (true, self.results_down());
                }
                return (true, None);
            }
            self.detail_down();
            return (true, None);
        }
        if c == KeyCode::Left || c == KeyCode::Char('h') {
            if on_tree && in_browse {
                self.collapse_or_parent();
                return (true, self.fetch_selected_entry(AfterFetch::Nothing));
            } else if on_detail {
                self.detail_left();
            }
            return (true, None);
        }
        if c == KeyCode::Right || c == KeyCode::Char('l') {
            if on_tree && in_browse {
                return (true, self.expand_selected());
            } else if on_detail {
                self.detail_right();
            }
            return (true, None);
        }
        if c == KeyCode::Enter && on_detail {
            self.enter_action_dialog();
        } else if c == KeyCode::Char('e') && on_detail {
            self.detail_edit_key();
        } else if c == KeyCode::Char('a') && on_detail {
            self.detail_add_key();
        } else if c == KeyCode::Char('d') && on_detail {
            self.detail_delete_key();
        } else if c == KeyCode::Char('d') && on_tree && in_browse {
            self.enter_tree_delete();
        } else if c == KeyCode::Char('a') && on_tree && in_browse {
            self.enter_create_child();
        }
        (true, None)
    }

    // ── Key handler subroutines ──────────────────────────────────────────────

    fn handle_select_suffix(&mut self, key: KeyEvent) -> (r: (bool, Option<Request>))
        ensures
            select_suffix_handled(*old(self), *final(self), key, r),
    {
        match key.code {
            KeyCode::Char('q') => return (false, None),
            KeyCode::Enter => {
                let req = self.select_suffix();
                return (true, req);
            },
            _ => {},
        }
        match &mut self.mode {
            Mode::SelectSuffix(sel) => match key.code {
                KeyCode::Up | KeyCode::Char('k') => sel.up(),
                KeyCode::Down | KeyCode::Char('j') => sel.down(),
                _ => {},
            },
            _ => {},
        }
        (true, None)
    }

    /// Enter in SelectSuffix: list the chosen context's children to start browsing it.
    fn select_suffix(&mut self) -> (r: Option<Request>)
        ensures
            suffix_selected(*old(self), *final(self), r),
    {
        let dn = match &self.mode {
            Mode::SelectSuffix(sel) => match sel.selected() {
                Some(d) => d.clone(),
                None => return None,
            },
            _ => return None,
        };
        self.pending = Pending::Suffix(dn.clone());
        Some(Request::Children(dn))
    }

    fn handle_picker(&mut self, key: KeyEvent) -> (r: Option<Request>)
        ensures
            picker_handled(*old(self), *final(self), key, r),
    {
        let is_oc = matches!(self.mode, Mode::OcPicker(_));
        match key.code {
            KeyCode::Esc => {
                self.mode = Mode::Browse;
                None
            },
            KeyCode::Enter => {
                if is_oc {
                    self.apply_oc_picker()
                } else {
                    self.apply_picker();
                    None
                }
            },
            _ => {
                match &mut self.mode {
                    Mode::Picker(p) => picker_key(p, key, false),
                    Mode::OcPicker(p) => picker_key(p, key, false),
                    _ => {},
                }
                None
            },
        }
    }

    fn handle_confirm_expand(&mut self, key: KeyEvent)
        ensures
            confirm_expand_handled(*old(self), *final(self), key),
    {
        if yes_key(key.code) {
            let mode = self.take_mode();
            match mode {
                Mode::ConfirmExpand(p) => {
                    match &mut self.browse {
                        Some(t) => t.expand_at(p.dn.as_str(), p.children),
                        None => {},
                    }
                },
                _ => {},
            }
        } else {
            self.mode = Mode::Browse;
            self.status = Status::Empty;
        }
    }

    fn handle_add_attr_name(&mut self, key: KeyEvent)
        ensures
            add_attr_name_handled(*old(self), *final(self), key),
    {
        match key.code {
            KeyCode::Esc => {
                self.mode = Mode::Browse;
            },
            KeyCode::Enter => {
                let attr = match &self.mode {
                    Mode::AddAttrName(es) => trim(es.input.text()),
                    _ => String::new(),
                };
                if !attr.as_str().is_empty() {
                    self.mode = Mode::AddValue(EditState::add(attr));
                }
            },
            _ => {
                match self.mode.edit_state_mut() {
                    Some(es) => edit_input(&mut es.input, key),
                    None => {},
                }
            },
        }
    }

    fn handle_edit_input(&mut self, key: KeyEvent) -> (r: Option<Request>)
        ensures
            edit_input_handled(*old(self), *final(self), key, r),
    {
        match key.code {
            KeyCode::Esc => {
                self.mode = Mode::Browse;
                self.pending_must_queue.clear();
                None
            },
            KeyCode::Enter => {
                let is_edit = matches!(self.mode, Mode::EditValue(_));
                if is_edit {
                    self.apply_edit(AfterFetch::NextMust)
                } else {
                    self.apply_add(AfterFetch::NextMust)
                }
            },
            _ => {
                match self.mode.edit_state_mut() {
                    Some(es) => edit_input(&mut es.input, key),
                    None => {},
                }
                None
            },
        }
    }

    fn handle_search_input(&mut self, key: KeyEvent) -> (r: Option<Request>)
        ensures
            search_input_handled(*old(self), *final(self), key, r),
    {
        match key.code {
            KeyCode::Esc => {
                self.mode = Mode::Browse;
                None
            },
            KeyCode::Enter => self.execute_search(),
            _ => {
                edit_input(&mut self.search.input, key);
                None
            },
        }
    }

    /// Keys in the create-child wizard: Esc cancels; the picker phases take picker keys and
    /// Enter; the form moves focus, submits, cancels, or edits the focused input.
    fn handle_create_child(&mut self, key: KeyEvent) -> (r: Option<Request>)
        ensures
            create_child_handled(*old(self), *final(self), key, r),
    {
        if key.code == KeyCode::Esc {
            self.mode = Mode::Browse;
            self.status = Status::Cancelled;
            return None;
        }
        let phase_is_pick = matches!(self.mode, Mode::CreateChild(CreateChildState { phase: CreatePhase::PickOc(_), .. }));
        if phase_is_pick {
            if key.code == KeyCode::Enter {
                self.apply_create_child_pick_oc();
                return None;
            }
            match &mut self.mode {
                Mode::CreateChild(CreateChildState { phase: CreatePhase::PickOc(picker), .. }) => picker_key(picker, key, true),
                _ => {},
            }
            return None;
        }
        let phase_is_rdn = matches!(self.mode, Mode::CreateChild(CreateChildState { phase: CreatePhase::PickRdn(_), .. }));
        if phase_is_rdn {
            if key.code == KeyCode::Enter {
                self.apply_create_child_pick_rdn();
                return None;
            }
            match &mut self.mode {
                Mode::CreateChild(CreateChildState { phase: CreatePhase::PickRdn(state), .. }) => picker_key(&mut state.picker, key, true),
                _ => {},
            }
            return None;
        }
        let focus = match &self.mode {
            Mode::CreateChild(CreateChildState { phase: CreatePhase::Form(form), .. }) => form.focus,
            _ => return None,
        };
        let submit = focus == FormFocus::Submit && (key.code == KeyCode::Enter || key.code == KeyCode::Char(' '));
        let cancel = focus == FormFocus::Cancel && (key.code == KeyCode::Enter || key.code == KeyCode::Char(' '));
        if key.code == KeyCode::Tab && key.modifiers == KeyModifiers::NoModifier {
        } else if key.code == KeyCode::BackTab || key.code == KeyCode::Down || key.code == KeyCode::Up {
        } else if submit {
            return self.apply_create_child();
        } else if cancel {
            self.mode = Mode::Browse;
            self.status = Status::Cancelled;
            return None;
        }
        match &mut self.mode {
            Mode::CreateChild(CreateChildState { phase: CreatePhase::Form(form), .. }) => {
                match key.code {
                    KeyCode::Tab if key.modifiers == KeyModifiers::NoModifier => form.focus_next(),
                    KeyCode::BackTab => form.focus_prev(),
                    KeyCode::Down => form.focus_next(),
                    KeyCode::Up => form.focus_prev(),
                    KeyCode::Enter => form.focus_next(),
                    _ => {
                        let ghost f0 = *form;
                        match form.focused_input_mut() {
                            Some(input) => {
                                let ghost i0 = *input;
                                edit_input(input, key);
                                assert(input_edited(i0, *input, key));
                            },
                            None => {},
                        }
                        assert(form_input_edited(f0, *form, key));
                    },
                }
            },
            _ => {},
        }
        None
    }
}

// ── Laws ──────────────────────────────────────────────────────────────────────

/// Operational values are read only: in the detail pane, `e`, `a` and `d` on an operational
/// row send nothing and only say so in the status line.
pub proof fn law_operational_rows_are_read_only(o: App, n: App, c: char, r: (bool, Option<Request>))
    requires
        o.mode is Browse || o.mode is SearchResults,
        o.active_pane == Pane::Detail,
        (selected_row(o) matches Some(SelectionView::OpAttr { .. })),
        c == 'e' || c == 'a' || c == 'd',
        key_handled(o, n, (KeyEvent { code: KeyCode::Char(c), modifiers: KeyModifiers::NoModifier }), r),
    ensures
        r.0,
        r.1 is None,
        n == (App { status: Status::OpReadonly, ..o }),
{
}

/// objectClass values can only be deleted: in the detail pane, `e` and `a` on an objectClass
/// value send nothing and only say so in the status line.
pub proof fn law_object_class_values_are_only_deleted(o: App, n: App, c: char, r: (bool, Option<Request>))
    requires
        o.mode is Browse || o.mode is SearchResults,
        o.active_pane == Pane::Detail,
        (selected_row(o) matches Some(SelectionView::ObjectClass { .. })),
        c == 'e' || c == 'a',
        key_handled(o, n, (KeyEvent { code: KeyCode::Char(c), modifiers: KeyModifiers::NoModifier }), r),
    ensures
        r.0,
        r.1 is None,
        n == (App { status: Status::OcDeleteOnly, ..o }),
{
}

/// `q` leaves the editor from the tree and detail panes (in Browse and SearchResults), sending
/// nothing and changing nothing.
pub proof fn law_quit_key_stops(o: App, n: App, r: (bool, Option<Request>))
    requires
        o.mode is Browse || o.mode is SearchResults,
        key_handled(o, n, (KeyEvent { code: KeyCode::Char('q'), modifiers: KeyModifiers::NoModifier }), r),
    ensures
        !r.0,
        r.1 is None,
        n == o,
{
}

} // verus!
