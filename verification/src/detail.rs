//! The detail pane's navigation: which row of an entry is selected, and how the view scrolls.
use vstd::prelude::*;

use crate::model::{contains_str, LdapEntry, Selection};
use crate::schema::cache::SchemaCache;
use crate::schema::picker::must_of_all;
use crate::text::{chars_of, copy_string, lowercase, string_of_range, to_lower, views};
use crate::sorted::{insert_all_sorted_unique, strictly_sorted};
use crate::schema::closure::{must_of, sup_chain_keys};

verus! {

// ── Row layout ────────────────────────────────────────────────────────────────

/// The number of selectable rows: every objectClass value, the "+ objectClass" row, every
/// attribute value, the "+ attribute" row, and every operational value.
pub open spec fn nav_len_spec(e: LdapEntry) -> int {
    (e.oc_values@.len() + 1 + e.attr_rows@.len() + 1 + e.op_rows@.len()) as int
}

/// The row counts of an entry fit in a machine word.
pub open spec fn entry_fits(e: LdapEntry) -> bool {
    nav_len_spec(e) <= usize::MAX
}

/// Model of a selected row.
pub enum SelectionView {
    ObjectClass { index: int, value: Seq<char> },
    OcPlusRow,
    Attr { attr: Seq<char>, value: Seq<char> },
    AttrPlusRow,
    OpAttr { attr: Seq<char>, value: Seq<char> },
}

pub open spec fn selection_view(s: Selection) -> SelectionView {
    match s {
        Selection::ObjectClass { index, value } => SelectionView::ObjectClass { index: index as int, value: value@ },
        Selection::OcPlusRow => SelectionView::OcPlusRow,
        Selection::Attr { attr, value } => SelectionView::Attr { attr: attr@, value: value@ },
        Selection::AttrPlusRow => SelectionView::AttrPlusRow,
        Selection::OpAttr { attr, value } => SelectionView::OpAttr { attr: attr@, value: value@ },
    }
}

/// What row `row` of entry `e` shows.
pub open spec fn selected_spec(row: int, e: LdapEntry) -> Option<SelectionView> {
    let oc_end = e.oc_values@.len() as int;
    let attr_end = oc_end + 1 + e.attr_rows@.len();
    let op_start = attr_end + 1;
    if row < oc_end {
        Some(SelectionView::ObjectClass { index: row, value: e.oc_values@[row]@ })
    } else if row == oc_end {
        Some(SelectionView::OcPlusRow)
    } else if row < attr_end {
        Some(SelectionView::Attr { attr: e.attr_rows@[row - (oc_end + 1)].0@, value: e.attr_rows@[row - (oc_end + 1)].1@ })
    } else if row == attr_end {
        Some(SelectionView::AttrPlusRow)
    } else if row - op_start < e.op_rows@.len() {
        Some(SelectionView::OpAttr { attr: e.op_rows@[row - op_start].0@, value: e.op_rows@[row - op_start].1@ })
    } else {
        None
    }
}

// ── Scroll math ───────────────────────────────────────────────────────────────

/// Display lines of one attribute value: its char count (as a 16-bit count) divided by the
/// value column's width, rounded up, and at least 1; 1 when the width is unknown (0).
pub open spec fn attr_lines_spec(len: nat, width: nat) -> nat {
    if width == 0 {
        1
    } else {
        let l = len % 65536;
        let q = if l % width == 0 { l / width } else { l / width + 1 };
        if q >= 1 { q } else { 1 }
    }
}

/// Display lines of the first `k` attribute values.
pub open spec fn attr_lines_sum(rows: Seq<(String, String)>, width: nat, k: int) -> nat
    decreases k,
{
    if k <= 0 {
        0
    } else {
        attr_lines_sum(rows, width, k - 1) + attr_lines_spec(rows[k - 1].1@.len(), width)
    }
}

/// The display line of row `i` (16-bit, wrapping): header lines, the objectClass block,
/// the attribute block (values may wrap over several lines), then the operational block.
pub open spec fn visual_line_spec(i: int, e: LdapEntry, width: nat) -> int {
    let oc_len = e.oc_values@.len() as int;
    let attr_len = e.attr_rows@.len() as int;
    let line = if i <= oc_len {
        1 + i
    } else {
        let attr_base = oc_len + 4;
        let j = i - (oc_len + 1);
        if j <= attr_len {
            attr_base + attr_lines_sum(e.attr_rows@, width, j)
        } else {
            attr_base + attr_lines_sum(e.attr_rows@, width, attr_len) + 3 + (j - attr_len - 1)
        }
    };
    line % 65536
}

/// The scroll offset after making line `line` visible in a view of `height` lines.
pub open spec fn scroll_to_spec(scroll: int, height: int, line: int) -> int {
    if height == 0 {
        scroll
    } else if line < scroll {
        line
    } else if line >= scroll + height {
        if line >= height - 1 { line - (height - 1) } else { 0 }
    } else {
        scroll
    }
}

// ── DetailView ────────────────────────────────────────────────────────────────

/// Model of the detail pane's navigation state.
pub struct DetailModel {
    pub row: int,
    pub col: int,
    pub scroll: int,
    pub height: int,
    pub width: int,
}

/// Selection and scroll state of the detail pane.
pub struct DetailView {
    row: usize,
    col: usize,
    scroll: u16,
    height: u16,
    value_col_width: u16,
}

impl View for DetailView {
    type V = DetailModel;

    closed spec fn view(&self) -> DetailModel {
        DetailModel {
            row: self.row as int,
            col: self.col as int,
            scroll: self.scroll as int,
            height: self.height as int,
            width: self.value_col_width as int,
        }
    }
}

/// The model after moving to row `row` and scrolling it into view.
pub open spec fn moved_to(d: DetailModel, row: int, e: LdapEntry) -> DetailModel {
    DetailModel {
        row,
        scroll: scroll_to_spec(d.scroll, d.height, visual_line_spec(row, e, d.width as nat)),
        ..d
    }
}

impl Default for DetailView {
    fn default() -> (r: Self)
        ensures
            r@ == (DetailModel { row: 0, col: 1, scroll: 0, height: 0, width: 0 }),
    {
        DetailView { row: 0, col: 1, scroll: 0, height: 0, value_col_width: 0 }
    }
}

impl DetailView {
    pub fn reset(&mut self)
        ensures
            final(self)@ == (DetailModel { row: 0, col: 1, scroll: 0, ..old(self)@ }),
    {
        self.row = 0;
        self.col = 1;
        self.scroll = 0;
    }

    /// The visible height (in lines) and value-column width (in chars) of the rendered pane.
    pub fn set_viewport(&mut self, height: u16, value_col_width: u16)
        ensures
            final(self)@ == (DetailModel { height: height as int, width: value_col_width as int, ..old(self)@ }),
    {
        self.height = height;
        self.value_col_width = value_col_width;
    }

    /// The first visible line.
    /// The selected row.
    pub fn row(&self) -> (r: usize)
        ensures
            r == self@.row,
    {
        self.row
    }

    /// The selected column: 0 for the name, 1 for the value.
    pub fn col(&self) -> (r: usize)
        ensures
            r == self@.col,
    {
        self.col
    }

    pub fn scroll(&self) -> (r: u16)
        ensures
            r == self@.scroll,
    {
        self.scroll
    }

    /// The value column's width (0 before the first render).
    pub fn value_col_width(&self) -> (r: u16)
        ensures
            r == self@.width,
    {
        self.value_col_width
    }

    // ── Navigation ───────────────────────────────────────────────────────────

    pub fn nav_len(&self, e: &LdapEntry) -> (r: usize)
        requires
            entry_fits(*e),
        ensures
            r == nav_len_spec(*e),
    {
        e.oc_values.len() + 1 + e.attr_rows.len() + 1 + e.op_rows.len()
    }

    /// What the selected row shows.
    pub fn selected<'e>(&self, e: &'e LdapEntry) -> (r: Option<Selection<'e>>)
        requires
            entry_fits(*e),
        ensures
            match selected_spec(self@.row, *e) {
                None => r is None,
                Some(s) => r is Some && selection_view(r->0) == s,
            },
    {
        let oc_end = e.oc_values.len();
        let attr_end = oc_end + 1 + e.attr_rows.len();
        let op_start = attr_end + 1;
        if self.row < oc_end {
            Some(Selection::ObjectClass { index: self.row, value: e.oc_values[self.row].as_str() })
        } else if self.row == oc_end {
            Some(Selection::OcPlusRow)
        } else if self.row < attr_end {
            let j = self.row - (oc_end + 1);
            Some(Selection::Attr { attr: e.attr_rows[j].0.as_str(), value: e.attr_rows[j].1.as_str() })
        } else if self.row == attr_end {
            Some(Selection::AttrPlusRow)
        } else {
            let j = self.row - op_start;
            if j < e.op_rows.len() {
                Some(Selection::OpAttr { attr: e.op_rows[j].0.as_str(), value: e.op_rows[j].1.as_str() })
            } else {
                None
            }
        }
    }

    pub fn is_oc_row(&self, e: &LdapEntry) -> (r: bool)
        requires
            entry_fits(*e),
        ensures
            r == (selected_spec(self@.row, *e) matches Some(SelectionView::ObjectClass { .. })),
    {
        match self.selected(e) {
            Some(s) => s.is_oc(),
            None => false,
        }
    }

    pub fn is_oc_plus_row(&self, e: &LdapEntry) -> (r: bool)
        requires
            entry_fits(*e),
        ensures
            r == (selected_spec(self@.row, *e) == Some(SelectionView::OcPlusRow)),
    {
        match self.selected(e) {
            Some(s) => s.is_oc_plus(),
            None => false,
        }
    }

    pub fn is_attr_plus_row(&self, e: &LdapEntry) -> (r: bool)
        requires
            entry_fits(*e),
        ensures
            r == (selected_spec(self@.row, *e) == Some(SelectionView::AttrPlusRow)),
    {
        match self.selected(e) {
            Some(s) => s.is_attr_plus(),
            None => false,
        }
    }

    pub fn is_op_row(&self, e: &LdapEntry) -> (r: bool)
        requires
            entry_fits(*e),
        ensures
            r == (selected_spec(self@.row, *e) matches Some(SelectionView::OpAttr { .. })),
    {
        match self.selected(e) {
            Some(s) => s.is_op(),
            None => false,
        }
    }

    /// Move the selection up one row and scroll it into view (no-op on the first row).
    pub fn row_up(&mut self, e: &LdapEntry)
        ensures
            final(self)@ == (if old(self)@.row > 0 { moved_to(old(self)@, old(self)@.row - 1, *e) } else { old(self)@ }),
    {
        if self.row > 0 {
            self.row = self.row - 1;
            self.ensure_visible(e);
        }
    }

    /// Move the selection down one row and scroll it into view (no-op on the last row).
    pub fn row_down(&mut self, e: &LdapEntry)
        requires
            entry_fits(*e),
        ensures
            final(self)@ == (if old(self)@.row + 1 < nav_len_spec(*e) { moved_to(old(self)@, old(self)@.row + 1, *e) } else { old(self)@ }),
    {
        let n = self.nav_len(e);
        if self.row < n && self.row + 1 < n {
            self.row = self.row + 1;
            self.ensure_visible(e);
        }
    }

    pub fn col_left(&mut self)
        ensures
            final(self)@ == (DetailModel { col: 0, ..old(self)@ }),
    {
        self.col = 0;
    }

    pub fn col_right(&mut self)
        ensures
            final(self)@ == (DetailModel { col: 1, ..old(self)@ }),
    {
        self.col = 1;
    }

    // ── Scroll math ──────────────────────────────────────────────────────────

    fn attr_row_lines(&self, j: usize, e: &LdapEntry) -> (r: u32)
        requires
            j < e.attr_rows@.len(),
        ensures
            r == attr_lines_spec(e.attr_rows@[j as int].1@.len(), self@.width as nat),
            r <= 65536,
    {
        if self.value_col_width == 0 {
            return 1;
        }
        let n = e.attr_rows[j].1.as_str().unicode_len();
        let len: u32 = (n % 65536) as u32;
        let w: u32 = self.value_col_width as u32;
        let q = if len % w == 0 { len / w } else { len / w + 1 };
        assert(q <= len + 1) by (nonlinear_arith)
            requires
                w >= 1,
                q == (if len % w == 0 { (len / w) as int } else { len / w + 1 }),
        ;
        if q >= 1 { q } else { 1 }
    }

    /// The sum of the display lines of the first `k` attribute values, modulo 65536.
    fn attr_lines_prefix(&self, k: usize, e: &LdapEntry) -> (r: u32)
        requires
            k <= e.attr_rows@.len(),
        ensures
            r == attr_lines_sum(e.attr_rows@, self@.width as nat, k as int) % 65536,
    {
        let mut acc: u32 = 0;
        let mut t: usize = 0;
        while t < k
            invariant
                t <= k <= e.attr_rows@.len(),
                acc == attr_lines_sum(e.attr_rows@, self@.width as nat, t as int) % 65536,
            decreases k - t,
        {
            let l = self.attr_row_lines(t, e);
            let ghost prev = attr_lines_sum(e.attr_rows@, self@.width as nat, t as int);
            assert(attr_lines_sum(e.attr_rows@, self@.width as nat, t as int + 1) == prev + l);
            assert((acc + l) % 65536 == (prev + l) % 65536) by (nonlinear_arith)
                requires
                    acc == prev % 65536,
                    prev >= 0,
            ;
            acc = (acc + l) % 65536;
            t += 1;
        }
        acc
    }

    fn visual_line_of_row(&self, i: usize, e: &LdapEntry) -> (r: u16)
        ensures
            r == visual_line_spec(i as int, *e, self@.width as nat),
    {
        let oc_len = e.oc_values.len();
        let attr_len = e.attr_rows.len();
        if i <= oc_len {
            let v: u32 = ((1 + (i % 65536)) % 65536) as u32;
            assert(v == (1 + i) % 65536) by (nonlinear_arith)
                requires
                    v == (1 + (i % 65536)) % 65536,
                    i >= 0,
            ;
            return v as u16;
        }
        let attr_base: u32 = ((oc_len % 65536) as u32 + 4) % 65536;
        let j = i - (oc_len + 1);
        if j <= attr_len {
            let s = self.attr_lines_prefix(j, e);
            let v: u32 = (attr_base + s) % 65536;
            let ghost total = oc_len + 4 + attr_lines_sum(e.attr_rows@, self@.width as nat, j as int);
            assert(v == total % 65536) by (nonlinear_arith)
                requires
                    attr_base == (oc_len % 65536 + 4) % 65536,
                    s == attr_lines_sum(e.attr_rows@, self@.width as nat, j as int) % 65536,
                    v == (attr_base + s) % 65536,
                    total == oc_len + 4 + attr_lines_sum(e.attr_rows@, self@.width as nat, j as int),
                    oc_len >= 0,
            ;
            return v as u16;
        }
        let s = self.attr_lines_prefix(attr_len, e);
        let op_j = j - attr_len - 1;
        let v: u32 = ((attr_base + s + 3) % 65536 + (op_j % 65536) as u32) % 65536;
        let ghost total = oc_len + 4 + attr_lines_sum(e.attr_rows@, self@.width as nat, attr_len as int) + 3 + op_j;
        assert(v == total % 65536) by (nonlinear_arith)
            requires
                attr_base == (oc_len % 65536 + 4) % 65536,
                s == attr_lines_sum(e.attr_rows@, self@.width as nat, attr_len as int) % 65536,
                v == ((attr_base + s + 3) % 65536 + op_j % 65536) % 65536,
                total == oc_len + 4 + attr_lines_sum(e.attr_rows@, self@.width as nat, attr_len as int) + 3 + op_j,
                oc_len >= 0,
                op_j >= 0,
        ;
        v as u16
    }

    fn ensure_visible(&mut self, e: &LdapEntry)
        ensures
            final(self)@ == moved_to(old(self)@, old(self)@.row, *e),
    {
        if self.height == 0 {
            return;
        }
        let line = self.visual_line_of_row(self.row, e);
        if line < self.scroll {
            self.scroll = line;
        } else if line - self.scroll >= self.height {
            self.scroll = if line >= self.height - 1 { line - (self.height - 1) } else { 0 };
        }
    }
}

// ── Value wrapping and badges ─────────────────────────────────────────────────

/// A value split into display chunks of `width` chars; one chunk when it fits or the width
/// is unknown (0).
pub open spec fn split_spec(value: Seq<char>, width: nat) -> Seq<Seq<char>>
    decreases value.len(),
{
    if width == 0 || value.len() <= width {
        seq![value]
    } else {
        seq![value.take(width as int)] + split_spec(value.skip(width as int), width)
    }
}

/// Split a value into display chunks of `width` chars (the last may be shorter).
pub fn split_value(value: &str, width: usize) -> (r: Vec<String>)
    ensures
        views(r@) == split_spec(value@, width as nat),
{
    let cs = chars_of(value);
    let n = cs.len();
    let mut r: Vec<String> = Vec::new();
    if width == 0 || n <= width {
        r.push(string_of_range(&cs, 0, n));
        assert(cs@.subrange(0, n as int) =~= value@);
        assert(views(r@) =~= seq![value@]);
        return r;
    }
    let mut start: usize = 0;
    assert(value@.skip(0) =~= value@);
    assert(views(r@) =~= Seq::<Seq<char>>::empty());
    assert(Seq::<Seq<char>>::empty() + split_spec(value@, width as nat) =~= split_spec(value@, width as nat));
    while n - start > width
        invariant
            cs@ == value@,
            n == cs@.len(),
            width > 0,
            start <= n,
            views(r@) + split_spec(value@.skip(start as int), width as nat) == split_spec(value@, width as nat),
        decreases n - start,
    {
        let chunk = string_of_range(&cs, start, start + width);
        let ghost rest = value@.skip(start as int);
        assert(rest.take(width as int) =~= cs@.subrange(start as int, start + width));
        assert(rest.skip(width as int) =~= value@.skip(start + width));
        let ghost before = views(r@);
        r.push(chunk);
        assert(views(r@) =~= before.push(chunk@));
        assert(split_spec(rest, width as nat) == seq![rest.take(width as int)] + split_spec(rest.skip(width as int), width as nat));
        assert(views(r@) + split_spec(value@.skip(start + width), width as nat) =~= before + split_spec(rest, width as nat));
        start = start + width;
    }
    let last = string_of_range(&cs, start, n);
    let ghost rest = value@.skip(start as int);
    assert(rest =~= cs@.subrange(start as int, n as int));
    let ghost before = views(r@);
    r.push(last);
    assert(views(r@) =~= before.push(last@));
    assert(split_spec(rest, width as nat) == seq![rest]);
    assert(views(r@) =~= before + split_spec(rest, width as nat));
    r
}

/// The badge shown after an attribute name: N for MUST, S for SINGLE-VALUE.
pub open spec fn badge_spec(is_must: bool, is_sv: bool) -> Seq<char> {
    if is_must && is_sv {
        "[NS]"@
    } else if is_must {
        "[N] "@
    } else if is_sv {
        "[S] "@
    } else {
        "    "@
    }
}

pub fn badge_label(is_must: bool, is_sv: bool) -> (r: &'static str)
    ensures
        r@ == badge_spec(is_must, is_sv),
{
    if is_must && is_sv {
        "[NS]"
    } else if is_must {
        "[N] "
    } else if is_sv {
        "[S] "
    } else {
        "    "
    }
}

/// The (MUST, SINGLE-VALUE) flags of an attribute row's name: MUST when some objectClass of the
/// entry requires it (across SUP chains), SINGLE-VALUE when the schema says so.
pub open spec fn row_flags_spec(cache: SchemaCache, oc_values: Seq<String>, attr: Seq<char>) -> (bool, bool) {
    let lc = lowercase(attr);
    (
        must_of_all(cache.ocs(), views(oc_values)).contains(lc),
        cache.attrs().dom().contains(lowercase(lc)) && cache.attrs()[lowercase(lc)].single_value,
    )
}

/// The badge flags of every attribute row of an entry, in row order.
pub fn row_badges(e: &LdapEntry, cache: &SchemaCache) -> (r: Vec<(bool, bool)>)
    ensures
        r@.len() == e.attr_rows@.len(),
        forall|j: int| 0 <= j < r@.len() ==> #[trigger] r@[j] == row_flags_spec(*cache, e.oc_values@, e.attr_rows@[j].0@),
{
    let ghost m = cache.ocs();
    let ghost ocs = views(e.oc_values@);
    let mut must_all: Vec<String> = Vec::new();
    let mut i: usize = 0;
    assert(views(must_all@).to_set() =~= must_of_all(m, ocs.take(0)));
    while i < e.oc_values.len()
        invariant
            m == cache.ocs(),
            ocs == views(e.oc_values@),
            i <= ocs.len(),
            strictly_sorted(views(must_all@)),
            views(must_all@).to_set() == must_of_all(m, ocs.take(i as int)),
        decreases ocs.len() - i,
    {
        let (mu, _ma) = cache.expanded_attrs(e.oc_values[i].as_str());
        insert_all_sorted_unique(&mut must_all, &mu);
        let ghost t = ocs.take(i as int + 1);
        assert(ocs[i as int] == e.oc_values@[i as int]@);
        assert(views(must_all@).to_set() =~= must_of_all(m, t)) by {
            assert forall|x: Seq<char>| must_of_all(m, t).contains(x) implies views(must_all@).to_set().contains(x) by {
                let j = choose|j: int| 0 <= j < t.len() && #[trigger] must_of(m, sup_chain_keys(m, t[j])).contains(x);
                if j < i {
                    assert(ocs.take(i as int)[j] == t[j]);
                    assert(must_of_all(m, ocs.take(i as int)).contains(x));
                }
            }
            assert forall|x: Seq<char>| views(must_all@).to_set().contains(x) implies must_of_all(m, t).contains(x) by {
                if must_of_all(m, ocs.take(i as int)).contains(x) {
                    let j = choose|j: int| 0 <= j < ocs.take(i as int).len() && #[trigger] must_of(m, sup_chain_keys(m, ocs.take(i as int)[j])).contains(x);
                    assert(t[j] == ocs.take(i as int)[j]);
                } else {
                    assert(must_of(m, sup_chain_keys(m, t[i as int])).contains(x));
                }
            }
        }
        i += 1;
    }
    assert(ocs.take(ocs.len() as int) =~= ocs);
    let mut r: Vec<(bool, bool)> = Vec::new();
    let mut j: usize = 0;
    while j < e.attr_rows.len()
        invariant
            j <= e.attr_rows@.len(),
            r@.len() == j,
            views(must_all@).to_set() == must_of_all(cache.ocs(), views(e.oc_values@)),
            forall|k: int| 0 <= k < j ==> #[trigger] r@[k] == row_flags_spec(*cache, e.oc_values@, e.attr_rows@[k].0@),
        decreases e.attr_rows@.len() - j,
    {
        let lc = to_lower(e.attr_rows[j].0.as_str());
        let is_must = contains_str(&must_all, lc.as_str());
        let is_sv = match cache.attr_type(lc.as_str()) {
            Some(a) => a.single_value,
            None => false,
        };
        r.push((is_must, is_sv));
        j += 1;
    }
    r
}

// ── Laws ──────────────────────────────────────────────────────────────────────

/// Every row index below `nav_len` shows something, and none at or beyond it does.
pub proof fn law_rows_below_nav_len_are_selectable(e: LdapEntry, row: int)
    requires
        0 <= row,
    ensures
        (selected_spec(row, e) is Some) <==> row < nav_len_spec(e),
{
}

/// The chars of a list of chunks, joined in order.
pub open spec fn concat_all(s: Seq<Seq<char>>) -> Seq<char>
    decreases s.len(),
{
    if s.len() == 0 {
        Seq::empty()
    } else {
        s[0] + concat_all(s.drop_first())
    }
}

/// Rejoining the display chunks of a value gives the value back, and with a known width no
/// chunk is wider than the column.
pub proof fn law_split_rejoins(value: Seq<char>, width: nat)
    ensures
        concat_all(split_spec(value, width)) == value,
        width > 0 ==> forall|k: int| 0 <= k < split_spec(value, width).len() ==> (#[trigger] split_spec(value, width)[k]).len() <= width,
    decreases value.len(),
{
    let s = split_spec(value, width);
    if width == 0 || value.len() <= width {
        assert(s.drop_first() =~= Seq::<Seq<char>>::empty());
        assert(concat_all(s) == value + concat_all(s.drop_first()));
        assert(value + Seq::<char>::empty() =~= value);
    } else {
        let rest = value.skip(width as int);
        law_split_rejoins(rest, width);
        assert(s.drop_first() =~= split_spec(rest, width));
        assert(value.take(width as int) + rest =~= value);
        if width > 0 {
            assert forall|k: int| 0 <= k < s.len() implies (#[trigger] s[k]).len() <= width by {
                if k > 0 {
                    assert(s[k] == split_spec(rest, width)[k - 1]);
                }
            }
        }
    }
}

/// After a move, the selected row's display line lies inside the visible window.
pub proof fn law_moved_row_is_visible(d: DetailModel, row: int, e: LdapEntry)
    requires
        d.height > 0,
        d.scroll >= 0,
        d.width >= 0,
    ensures
        moved_to(d, row, e).scroll <= visual_line_spec(row, e, d.width as nat) < moved_to(d, row, e).scroll + d.height,
{
}

/// Moving the selection keeps it on a selectable row.
pub proof fn law_row_moves_stay_in_range(d: DetailModel, e: LdapEntry)
    requires
        0 <= d.row < nav_len_spec(e),
    ensures
        ({
            let up = if d.row > 0 { moved_to(d, d.row - 1, e) } else { d };
            0 <= up.row < nav_len_spec(e)
        }),
        ({
            let down = if d.row + 1 < nav_len_spec(e) { moved_to(d, d.row + 1, e) } else { d };
            0 <= down.row < nav_len_spec(e)
        }),
{
}

// ── Content lines ────────────────────────────────────────────────────────────

/// How a piece of the detail pane is drawn: the selection highlight, dimmed text, a section
/// header, the column separator, a "+" row, a badge, or plain text.
#[derive(PartialEq, Eq, Structural, Clone, Copy, Debug)]
pub enum Look {
    Plain,
    Dim,
    Selected,
    Header,
    Separator,
    Plus,
    Badge,
}

/// A line of pieces, as texts.
pub open spec fn pieces_view(l: Seq<(String, Look)>) -> Seq<(Seq<char>, Look)> {
    l.map_values(|s: (String, Look)| (s.0@, s.1))
}

/// Lines of pieces, as texts.
pub open spec fn lines_view(v: Seq<Vec<(String, Look)>>) -> Seq<Seq<(Seq<char>, Look)>> {
    v.map_values(|l: Vec<(String, Look)>| pieces_view(l@))
}

/// `n` spaces.
pub open spec fn blanks(n: nat) -> Seq<char> {
    Seq::new(n, |i: int| ' ')
}

/// The name column of a row: the name cut to `w` chars and padded to `w`.
pub open spec fn name_cell_spec(name: Seq<char>, w: nat) -> Seq<char> {
    crate::display::pad_spec(if name.len() > w { name.take(w as int) } else { name }, w)
}

/// The badge is dimmed when it is blank.
pub open spec fn badge_look(is_must: bool, is_sv: bool) -> Look {
    if !is_must && !is_sv {
        Look::Dim
    } else {
        Look::Badge
    }
}

/// The lines of one value row: the first chunk beside the name and badge, the others below
/// blanks. Operational rows (`op`) are dimmed and highlighted whole when selected; attribute
/// rows highlight the name (`col` 0) or the value.
pub open spec fn value_row_lines(
    cell: Seq<char>,
    badge: Seq<char>,
    blook: Look,
    chunks: Seq<Seq<char>>,
    sel: bool,
    col: int,
    op: bool,
    blank: Seq<char>,
) -> Seq<Seq<(Seq<char>, Look)>> {
    Seq::new(
        chunks.len(),
        |ci: int|
            if ci == 0 {
                if op {
                    if sel {
                        seq![(cell, Look::Selected), ("    "@, Look::Selected), (" │ "@, Look::Separator), (chunks[0], Look::Selected)]
                    } else {
                        seq![(cell, Look::Dim), ("    "@, Look::Dim), (" │ "@, Look::Separator), (chunks[0], Look::Dim)]
                    }
                } else if sel && col == 0 {
                    seq![(cell, Look::Selected), (badge, blook), (" │ "@, Look::Separator), (chunks[0], Look::Plain)]
                } else if sel {
                    seq![(cell, Look::Dim), (badge, blook), (" │ "@, Look::Separator), (chunks[0], Look::Selected)]
                } else {
                    seq![(cell, Look::Plain), (badge, blook), (" │ "@, Look::Separator), (chunks[0], Look::Plain)]
                }
            } else {
                let look = if sel && (op || col == 1) {
                    Look::Selected
                } else if op {
                    Look::Dim
                } else {
                    Look::Plain
                };
                seq![(blank, Look::Plain), ("    "@, Look::Dim), ("   "@, Look::Separator), (chunks[ci], look)]
            },
    )
}

/// The badge flags of the attribute rows: from the schema when there is one, else none.
pub open spec fn flags_spec(e: LdapEntry, schema: Option<SchemaCache>) -> Seq<(bool, bool)> {
    Seq::new(
        e.attr_rows@.len(),
        |j: int|
            match schema {
                Some(c) => row_flags_spec(c, e.oc_values@, e.attr_rows@[j].0@),
                None => (false, false),
            },
    )
}

/// The lines of the first `k` rows of `rows`; row `j` is selected when `sel_row` is `j`.
pub open spec fn rows_lines(
    rows: Seq<(String, String)>,
    flags: Seq<(bool, bool)>,
    d: DetailModel,
    sel_row: int,
    op: bool,
    name_w: nat,
    k: int,
) -> Seq<Seq<(Seq<char>, Look)>>
    decreases k,
{
    if k <= 0 {
        seq![]
    } else {
        let j = k - 1;
        let (m, s) = flags[j];
        rows_lines(rows, flags, d, sel_row, op, name_w, k - 1) + value_row_lines(
            name_cell_spec(rows[j].0@, name_w),
            badge_spec(m, s),
            badge_look(m, s),
            split_spec(rows[j].1@, d.width as nat),
            sel_row == j,
            d.col,
            op,
            blanks(name_w),
        )
    }
}

/// The lines of the objectClass values; value `row` is highlighted.
pub open spec fn oc_lines_spec(row: int, ocs: Seq<String>) -> Seq<Seq<(Seq<char>, Look)>> {
    Seq::new(
        ocs.len(),
        |i: int|
            if row == i {
                seq![(" "@ + ocs[i]@, Look::Selected)]
            } else {
                seq![(" "@, Look::Dim), (ocs[i]@, Look::Plain)]
            },
    )
}

/// The width of the name column without its badge.
pub open spec fn name_w_spec(e: LdapEntry) -> nat {
    if e.attr_w >= 4 { (e.attr_w - 4) as nat } else { 0 }
}

/// The objectClass section: header, values, the "+" row, a blank line, and the attribute
/// header. `row` is the highlighted row (-1 for none).
pub open spec fn head_spec(row: int, e: LdapEntry, add_oc: Seq<char>) -> Seq<Seq<(Seq<char>, Look)>> {
    let oc_len = e.oc_values@.len() as int;
    seq![seq![("objectClass"@, Look::Header)]] + oc_lines_spec(row, e.oc_values@) + seq![
        seq![(add_oc, if row == oc_len { Look::Selected } else { Look::Plus })],
        seq![],
        seq![("attributes"@, Look::Header)],
    ]
}

/// The attribute rows and the "+" row after them.
pub open spec fn attr_part_spec(
    d: DetailModel,
    row: int,
    e: LdapEntry,
    flags: Seq<(bool, bool)>,
    add_attr: Seq<char>,
) -> Seq<Seq<(Seq<char>, Look)>> {
    let oc_len = e.oc_values@.len() as int;
    let attr_len = e.attr_rows@.len() as int;
    rows_lines(e.attr_rows@, flags, d, row - (oc_len + 1), false, name_w_spec(e), attr_len) + seq![
        seq![(add_attr, if row == oc_len + 1 + attr_len { Look::Selected } else { Look::Plus })],
    ]
}

/// The operational section, when the entry has operational values.
pub open spec fn op_part_spec(d: DetailModel, row: int, e: LdapEntry, read_only: Seq<char>) -> Seq<
    Seq<(Seq<char>, Look)>,
> {
    let oc_len = e.oc_values@.len() as int;
    let attr_len = e.attr_rows@.len() as int;
    if e.op_rows@.len() == 0 {
        seq![]
    } else {
        seq![seq![], seq![("operational"@, Look::Header), (read_only, Look::Dim)]] + rows_lines(
            e.op_rows@,
            Seq::new(e.op_rows@.len(), |j: int| (false, false)),
            d,
            row - (oc_len + 2 + attr_len),
            true,
            name_w_spec(e),
            e.op_rows@.len() as int,
        )
    }
}

/// The detail pane's lines for entry `e`: the objectClass section with its "+" row, the
/// attribute section with its "+" row, and the operational section when there is one.
/// Rows are highlighted only while the pane is `active`.
pub open spec fn content_spec(
    d: DetailModel,
    e: LdapEntry,
    active: bool,
    flags: Seq<(bool, bool)>,
    add_oc: Seq<char>,
    add_attr: Seq<char>,
    read_only: Seq<char>,
) -> Seq<Seq<(Seq<char>, Look)>> {
    let row = if active { d.row } else { -1 };
    head_spec(row, e, add_oc) + attr_part_spec(d, row, e, flags, add_attr) + op_part_spec(d, row, e, read_only)
}

fn piece(s: &str, look: Look) -> (r: (String, Look))
    ensures
        r.0@ == s@,
        r.1 == look,
{
    (s.to_string(), look)
}

fn blank_string(n: usize) -> (r: String)
    ensures
        r@ == blanks(n as nat),
{
    let mut r = String::new();
    proof { reveal_strlit(""); }
    let mut k: usize = 0;
    while k < n
        invariant
            k <= n,
            r@ == blanks(k as nat),
        decreases n - k,
    {
        crate::text::push_char(&mut r, ' ');
        assert(r@ =~= blanks((k + 1) as nat));
        k += 1;
    }
    r
}

fn push_line(lines: &mut Vec<Vec<(String, Look)>>, line: Vec<(String, Look)>)
    ensures
        lines_view(final(lines)@) == lines_view(old(lines)@).push(pieces_view(line@)),
{
    let ghost before = lines@;
    lines.push(line);
    assert(lines_view(lines@) =~= lines_view(before).push(pieces_view(line@)));
}

/// Add the lines of one value row.
fn push_value_lines(
    lines: &mut Vec<Vec<(String, Look)>>,
    cell: &String,
    badge: &str,
    blook: Look,
    value: &str,
    width: usize,
    sel: bool,
    col: usize,
    op: bool,
    blank: &String,
)
    ensures
        lines_view(final(lines)@) == lines_view(old(lines)@) + value_row_lines(
            cell@,
            badge@,
            blook,
            split_spec(value@, width as nat),
            sel,
            col as int,
            op,
            blank@,
        ),
{
    let chunks = split_value(value, width);
    let ghost cs = split_spec(value@, width as nat);
    let ghost want = value_row_lines(cell@, badge@, blook, cs, sel, col as int, op, blank@);
    let ghost start = lines_view(lines@);
    let mut ci: usize = 0;
    while ci < chunks.len()
        invariant
            ci <= chunks@.len(),
            views(chunks@) == cs,
            want == value_row_lines(cell@, badge@, blook, cs, sel, col as int, op, blank@),
            lines_view(lines@) == start + want.take(ci as int),
        decreases chunks@.len() - ci,
    {
        let chunk = &chunks[ci];
        assert(cs[ci as int] == chunk@);
        let mut line: Vec<(String, Look)> = Vec::new();
        if ci == 0 {
            if op {
                let lk = if sel { Look::Selected } else { Look::Dim };
                line.push((copy_string(cell), lk));
                line.push(piece("    ", lk));
                line.push(piece(" │ ", Look::Separator));
                line.push((copy_string(chunk), lk));
            } else if sel && col == 0 {
                line.push((copy_string(cell), Look::Selected));
                line.push(piece(badge, blook));
                line.push(piece(" │ ", Look::Separator));
                line.push((copy_string(chunk), Look::Plain));
            } else if sel {
                line.push((copy_string(cell), Look::Dim));
                line.push(piece(badge, blook));
                line.push(piece(" │ ", Look::Separator));
                line.push((copy_string(chunk), Look::Selected));
            } else {
                line.push((copy_string(cell), Look::Plain));
                line.push(piece(badge, blook));
                line.push(piece(" │ ", Look::Separator));
                line.push((copy_string(chunk), Look::Plain));
            }
        } else {
            let look = if sel && (op || col == 1) {
                Look::Selected
            } else if op {
                Look::Dim
            } else {
                Look::Plain
            };
            line.push((copy_string(blank), Look::Plain));
            line.push(piece("    ", Look::Dim));
            line.push(piece("   ", Look::Separator));
            line.push((copy_string(chunk), look));
        }
        assert(pieces_view(line@) =~= want[ci as int]);
        push_line(lines, line);
        assert(want.take(ci + 1) =~= want.take(ci as int).push(want[ci as int]));
        ci += 1;
    }
    assert(want.take(ci as int) =~= want);
}

/// Add the lines of the objectClass values, highlighting value `sel` (if any).
fn push_oc_lines(lines: &mut Vec<Vec<(String, Look)>>, ocs: &Vec<String>, sel: Option<usize>, row: Ghost<int>)
    requires
        row@ == (match sel {
            Some(i) => i as int,
            None => -1,
        }),
    ensures
        lines_view(final(lines)@) == lines_view(old(lines)@) + oc_lines_spec(row@, ocs@),
{
    let ghost want = oc_lines_spec(row@, ocs@);
    let ghost start = lines_view(lines@);
    proof {
        reveal_strlit(" ");
    }
    assert(start + want.take(0) =~= start);
    let mut i: usize = 0;
    while i < ocs.len()
        invariant
            i <= ocs@.len(),
            want == oc_lines_spec(row@, ocs@),
            row@ == (match sel {
                Some(i) => i as int,
                None => -1,
            }),
            lines_view(lines@) == start + want.take(i as int),
        decreases ocs@.len() - i,
    {
        let mut l: Vec<(String, Look)> = Vec::new();
        let hit = match sel {
            Some(k) => k == i,
            None => false,
        };
        if hit {
            let mut s = String::new();
            crate::text::push_all(&mut s, " ");
            crate::text::push_all(&mut s, ocs[i].as_str());
            l.push((s, Look::Selected));
        } else {
            l.push(piece(" ", Look::Dim));
            l.push((copy_string(&ocs[i]), Look::Plain));
        }
        assert(pieces_view(l@) =~= want[i as int]);
        push_line(lines, l);
        assert(want.take(i + 1) =~= want.take(i as int).push(want[i as int]));
        i += 1;
    }
    assert(want.take(i as int) =~= want);
}

/// Add the lines of the value rows `rows`, highlighting row `sel` (if any).
fn push_rows_lines(
    lines: &mut Vec<Vec<(String, Look)>>,
    rows: &Vec<(String, String)>,
    flags: &Vec<(bool, bool)>,
    d: Ghost<DetailModel>,
    width: usize,
    col: usize,
    sel: Option<usize>,
    sel_row: Ghost<int>,
    op: bool,
    name_w: usize,
    blank: &String,
)
    requires
        flags@.len() == rows@.len(),
        width == d@.width,
        col == d@.col,
        d@.width >= 0,
        match sel {
            Some(i) => sel_row@ == i,
            None => sel_row@ < 0 || sel_row@ >= rows@.len(),
        },
        blank@ == blanks(name_w as nat),
    ensures
        lines_view(final(lines)@) == lines_view(old(lines)@) + rows_lines(
            rows@,
            flags@,
            d@,
            sel_row@,
            op,
            name_w as nat,
            rows@.len() as int,
        ),
{
    let ghost start = lines_view(lines@);
    assert(start + rows_lines(rows@, flags@, d@, sel_row@, op, name_w as nat, 0) =~= start);
    let mut j: usize = 0;
    while j < rows.len()
        invariant
            j <= rows@.len() == flags@.len(),
            width == d@.width,
            col == d@.col,
            d@.width >= 0,
            match sel {
                Some(i) => sel_row@ == i,
                None => sel_row@ < 0 || sel_row@ >= rows@.len(),
            },
            blank@ == blanks(name_w as nat),
            lines_view(lines@) == start + rows_lines(rows@, flags@, d@, sel_row@, op, name_w as nat, j as int),
        decreases rows@.len() - j,
    {
        let (m, s) = flags[j];
        let cell = crate::display::name_cell(rows[j].0.as_str(), name_w);
        let hit = match sel {
            Some(k) => k == j,
            None => false,
        };
        let blook = if !m && !s { Look::Dim } else { Look::Badge };
        push_value_lines(lines, &cell, badge_label(m, s), blook, rows[j].1.as_str(), width, hit, col, op, blank);
        j += 1;
    }
}

fn push_head(lines: &mut Vec<Vec<(String, Look)>>, e: &LdapEntry, sel: Option<usize>, row: Ghost<int>, add_oc: &str)
    requires
        match sel {
            Some(i) => row@ == i && i <= e.oc_values@.len(),
            None => row@ < 0 || row@ > e.oc_values@.len(),
        },
    ensures
        lines_view(final(lines)@) == lines_view(old(lines)@) + head_spec(row@, *e, add_oc@),
{
    let ghost start = lines_view(lines@);
    let oc_len = e.oc_values.len();
    let ghost line_head = seq![("objectClass"@, Look::Header)];
    let ghost line_oc_plus = seq![(add_oc@, if row@ == oc_len { Look::Selected } else { Look::Plus })];
    let ghost line_blank = Seq::<(Seq<char>, Look)>::empty();
    let ghost line_attr_head = seq![("attributes"@, Look::Header)];
    let mut l: Vec<(String, Look)> = Vec::new();
    l.push(piece("objectClass", Look::Header));
    assert(pieces_view(l@) =~= line_head);
    push_line(lines, l);
    let sel_oc: Option<usize> = match sel {
        Some(i) => if i < oc_len { Some(i) } else { None },
        None => None,
    };
    let oc_plus = match sel {
        Some(i) => i == oc_len,
        None => false,
    };
    let ghost r2: int = if sel_oc is Some { row@ } else { -1 };
    assert(oc_lines_spec(r2, e.oc_values@) =~= oc_lines_spec(row@, e.oc_values@));
    push_oc_lines(lines, &e.oc_values, sel_oc, Ghost(r2));
    let mut l: Vec<(String, Look)> = Vec::new();
    l.push(piece(add_oc, if oc_plus { Look::Selected } else { Look::Plus }));
    assert(pieces_view(l@) =~= line_oc_plus);
    push_line(lines, l);
    let empty_line: Vec<(String, Look)> = Vec::new();
    assert(pieces_view(empty_line@) =~= line_blank);
    push_line(lines, empty_line);
    let mut l: Vec<(String, Look)> = Vec::new();
    l.push(piece("attributes", Look::Header));
    assert(pieces_view(l@) =~= line_attr_head);
    push_line(lines, l);
    assert(lines_view(lines@) =~= start + head_spec(row@, *e, add_oc@));
}

fn no_flags(n: usize) -> (r: Vec<(bool, bool)>)
    ensures
        r@ == Seq::new(n as nat, |k: int| (false, false)),
{
    let mut b: Vec<(bool, bool)> = Vec::new();
    let mut j: usize = 0;
    while j < n
        invariant
            j <= n,
            b@ == Seq::new(j as nat, |k: int| (false, false)),
        decreases n - j,
    {
        b.push((false, false));
        assert(b@ =~= Seq::new((j + 1) as nat, |k: int| (false, false)));
        j += 1;
    }
    b
}

impl DetailView {
    fn push_attr_part(
        &self,
        lines: &mut Vec<Vec<(String, Look)>>,
        e: &LdapEntry,
        flags: &Vec<(bool, bool)>,
        sel: Option<usize>,
        row: Ghost<int>,
        add_attr: &str,
        blank: &String,
    )
        requires
            flags@.len() == e.attr_rows@.len(),
            match sel {
                Some(i) => row@ == e.oc_values@.len() + 1 + i && i <= e.attr_rows@.len(),
                None => row@ <= e.oc_values@.len() || row@ > e.oc_values@.len() + 1 + e.attr_rows@.len(),
            },
            blank@ == blanks(name_w_spec(*e)),
        ensures
            lines_view(final(lines)@) == lines_view(old(lines)@) + attr_part_spec(self@, row@, *e, flags@, add_attr@),
    {
        let ghost start = lines_view(lines@);
        let attr_len = e.attr_rows.len();
        let name_w: usize = if e.attr_w >= 4 { e.attr_w - 4 } else { 0 };
        let sel_attr: Option<usize> = match sel {
            Some(i) => if i < attr_len { Some(i) } else { None },
            None => None,
        };
        let attr_plus = match sel {
            Some(i) => i == attr_len,
            None => false,
        };
        push_rows_lines(
            lines,
            &e.attr_rows,
            flags,
            Ghost(self@),
            self.value_col_width as usize,
            self.col,
            sel_attr,
            Ghost(row@ - (e.oc_values@.len() + 1)),
            false,
            name_w,
            blank,
        );
        let ghost line_attr_plus = seq![
            (add_attr@, if row@ == e.oc_values@.len() + 1 + attr_len { Look::Selected } else { Look::Plus }),
        ];
        let mut l: Vec<(String, Look)> = Vec::new();
        l.push(piece(add_attr, if attr_plus { Look::Selected } else { Look::Plus }));
        assert(pieces_view(l@) =~= line_attr_plus);
        push_line(lines, l);
        assert(lines_view(lines@) =~= start + attr_part_spec(self@, row@, *e, flags@, add_attr@));
    }

    fn push_op_part(
        &self,
        lines: &mut Vec<Vec<(String, Look)>>,
        e: &LdapEntry,
        sel: Option<usize>,
        row: Ghost<int>,
        read_only: &str,
        blank: &String,
    )
        requires
            match sel {
                Some(i) => row@ == e.oc_values@.len() + 2 + e.attr_rows@.len() + i,
                None => row@ < e.oc_values@.len() + 2 + e.attr_rows@.len() || row@ >= e.oc_values@.len() + 2
                    + e.attr_rows@.len() + e.op_rows@.len(),
            },
            blank@ == blanks(name_w_spec(*e)),
        ensures
            lines_view(final(lines)@) == lines_view(old(lines)@) + op_part_spec(self@, row@, *e, read_only@),
    {
        let ghost start = lines_view(lines@);
        let op_len = e.op_rows.len();
        if op_len == 0 {
            assert(lines_view(lines@) =~= start + op_part_spec(self@, row@, *e, read_only@));
            return;
        }
        let name_w: usize = if e.attr_w >= 4 { e.attr_w - 4 } else { 0 };
        let ghost line_op_head = seq![("operational"@, Look::Header), (read_only@, Look::Dim)];
        let empty_line: Vec<(String, Look)> = Vec::new();
        assert(pieces_view(empty_line@) =~= Seq::<(Seq<char>, Look)>::empty());
        push_line(lines, empty_line);
        let mut l: Vec<(String, Look)> = Vec::new();
        l.push(piece("operational", Look::Header));
        l.push(piece(read_only, Look::Dim));
        assert(pieces_view(l@) =~= line_op_head);
        push_line(lines, l);
        let none = no_flags(op_len);
        let sel_op: Option<usize> = match sel {
            Some(i) => if i < op_len { Some(i) } else { None },
            None => None,
        };
        push_rows_lines(
            lines,
            &e.op_rows,
            &none,
            Ghost(self@),
            self.value_col_width as usize,
            self.col,
            sel_op,
            Ghost(row@ - (e.oc_values@.len() + 2 + e.attr_rows@.len())),
            true,
            name_w,
            blank,
        );
        assert(lines_view(lines@) =~= start + op_part_spec(self@, row@, *e, read_only@));
    }

    /// The lines of the detail pane for entry `e`, each a list of pieces with how to draw
    /// them; `schema` supplies the MUST / SINGLE-VALUE badges (none without it), and the three
    /// labels are the texts of the "+ objectClass" and "+ attribute" rows and of the note
    /// beside the operational header.
    pub fn content_lines(
        &self,
        e: &LdapEntry,
        active: bool,
        schema: Option<&SchemaCache>,
        add_oc: &str,
        add_attr: &str,
        read_only: &str,
    ) -> (r: Vec<Vec<(String, Look)>>)
        ensures
            lines_view(r@) == content_spec(
                self@,
                *e,
                active,
                flags_spec(
                    *e,
                    match schema {
                        Some(c) => Some(*c),
                        None => None,
                    },
                ),
                add_oc@,
                add_attr@,
                read_only@,
            ),
    {
        let ghost sch = match schema {
            Some(c) => Some(*c),
            None => None::<SchemaCache>,
        };
        let ghost flags = flags_spec(*e, sch);
        let ghost row: int = if active { self@.row } else { -1 };
        let oc_len = e.oc_values.len();
        let attr_len = e.attr_rows.len();
        let name_w: usize = if e.attr_w >= 4 { e.attr_w - 4 } else { 0 };
        let blank = blank_string(name_w);
        // the highlighted row, counted within each section
        let in_head: Option<usize> = if active && self.row <= oc_len { Some(self.row) } else { None };
        let after_oc: Option<usize> = if active && self.row > oc_len { Some(self.row - oc_len - 1) } else { None };
        let in_attrs: Option<usize> = match after_oc {
            Some(k) => if k <= attr_len { Some(k) } else { None },
            None => None,
        };
        let in_ops: Option<usize> = match after_oc {
            Some(k) => if k > attr_len { Some(k - attr_len - 1) } else { None },
            None => None,
        };
        let mut lines: Vec<Vec<(String, Look)>> = Vec::new();
        assert(lines_view(lines@) =~= Seq::<Seq<(Seq<char>, Look)>>::empty());
        push_head(&mut lines, e, in_head, Ghost(row), add_oc);
        let badges: Vec<(bool, bool)> = match schema {
            Some(c) => row_badges(e, c),
            None => no_flags(attr_len),
        };
        assert(badges@ =~= flags);
        self.push_attr_part(&mut lines, e, &badges, in_attrs, Ghost(row), add_attr, &blank);
        self.push_op_part(&mut lines, e, in_ops, Ghost(row), read_only, &blank);
        lines
    }
}

} // verus!
