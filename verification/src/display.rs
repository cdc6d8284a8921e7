//! What the screen shows, computed from plain values: row texts, labels, cursor placement,
//! filter highlighting and popup sizes. Drawing them is the terminal front end's job.
use vstd::prelude::*;

use crate::model::{FlatEntry, Pane};
use crate::state::{CreatePhase, Mode};
use crate::text::{chars_of, push_all, push_char, string_of_range};

verus! {

// ── Layout ───────────────────────────────────────────────────────────────────

/// The modes whose bottom bar holds an input line and a hint line.
pub open spec fn two_line_mode(m: Mode) -> bool {
    m is SearchInput || m is EditValue || m is AddValue || m is AddAttrName
}

pub fn needs_two_lines(m: &Mode) -> (r: bool)
    ensures
        r == two_line_mode(*m),
{
    match m {
        Mode::SearchInput | Mode::EditValue(_) | Mode::AddValue(_) | Mode::AddAttrName(_) => true,
        _ => false,
    }
}

/// Heights of the main area and the bottom bar for a screen of `height` lines.
pub fn bar_split(height: u16, two: bool) -> (r: (u16, u16))
    ensures
        two ==> r == ((if height >= 2 { height - 2 } else { 0 }) as u16, 2u16),
        !two ==> r == ((if height >= 1 { height - 1 } else { 0 }) as u16, 1u16),
{
    if two {
        (if height >= 2 { height - 2 } else { 0 }, 2)
    } else {
        (if height >= 1 { height - 1 } else { 0 }, 1)
    }
}

/// `x.max(lo).min(hi)`.
pub open spec fn clamp_spec(x: int, lo: int, hi: int) -> int {
    let a = if x > lo { x } else { lo };
    if a < hi { a } else { hi }
}

fn clamp_u32(x: u32, lo: u32, hi: u32) -> (r: u32)
    ensures
        r == clamp_spec(x as int, lo as int, hi as int),
{
    let a = if x > lo { x } else { lo };
    if a < hi { a } else { hi }
}

/// The fuzzy picker's popup: 70% of the width (at least 42) and 65% of the height (at
/// least 10), never larger than the area.
pub fn picker_popup_size(area_w: u16, area_h: u16) -> (r: (u16, u16))
    ensures
        r.0 == clamp_spec(area_w * 7 / 10, 42, area_w as int),
        r.1 == clamp_spec(area_h * 65 / 100, 10, area_h as int),
{
    let w = clamp_u32(area_w as u32 * 7 / 10, 42, area_w as u32);
    let h = clamp_u32(area_h as u32 * 65 / 100, 10, area_h as u32);
    (w as u16, h as u16)
}

/// The create-child form's popup: 80% of the width (at least 60), and one line per field plus
/// the header, button and border lines, never larger than the area.
pub fn form_popup_size(area_w: u16, area_h: u16, n_fields: usize) -> (r: (u16, u16))
    ensures
        r.0 == clamp_spec(area_w * 80 / 100, 60, area_w as int),
        r.1 == (if 4 + n_fields + 2 + 2 < area_h { 4 + n_fields + 2 + 2 } else { area_h as int }),
{
    let w = clamp_u32(area_w as u32 * 80 / 100, 60, area_w as u32);
    let h: u16 = if n_fields < area_h as usize && 8 + n_fields < area_h as usize {
        (8 + n_fields) as u16
    } else {
        area_h
    };
    (w as u16, h)
}

/// The e/a/d dialog's popup: 38 columns, 6 lines on an objectClass row else 7.
pub fn action_popup_size(area_w: u16, area_h: u16, is_oc: bool) -> (r: (u16, u16))
    ensures
        r.0 == (if 38 < area_w { 38 } else { area_w as int }),
        r.1 == (if (if is_oc { 6int } else { 7int }) < area_h { if is_oc { 6int } else { 7int } } else { area_h as int }),
{
    let want: u16 = if is_oc { 6 } else { 7 };
    (if 38 < area_w { 38 } else { area_w }, if want < area_h { want } else { area_h })
}

/// The top-left corner that centers a `w`×`h` popup in an area.
pub fn popup_origin(area_x: u16, area_y: u16, area_w: u16, area_h: u16, w: u16, h: u16) -> (r: (u16, u16))
    requires
        area_x + area_w <= u16::MAX,
        area_y + area_h <= u16::MAX,
    ensures
        r.0 == area_x + (if area_w >= w { area_w - w } else { 0 }) / 2,
        r.1 == area_y + (if area_h >= h { area_h - h } else { 0 }) / 2,
{
    let dx: u16 = if area_w >= w { area_w - w } else { 0 };
    let dy: u16 = if area_h >= h { area_h - h } else { 0 };
    (area_x + dx / 2, area_y + dy / 2)
}

/// The detail pane's viewport for its scrolling area of `w`×`h` cells (borders included): the
/// lines inside the borders, and the width left for values after the borders, the name column
/// (`attr_w` chars and a 4-char badge) and the " │ " separator.
pub fn detail_viewport(w: u16, h: u16, attr_w: usize) -> (r: (u16, u16))
    requires
        attr_w % 65536 + 9 <= u16::MAX,
    ensures
        r.0 == (if h >= 2 { h - 2 } else { 0 }),
        r.1 == (if w >= attr_w % 65536 + 9 { w - (attr_w % 65536 + 9) } else { 0 }),
{
    let name_w: u16 = (attr_w % 65536) as u16;
    let used: u16 = 2 + name_w + 4 + 3;
    (if h >= 2 { h - 2 } else { 0 }, if w >= used { w - used } else { 0 })
}

/// The decimal digits of `n`.
pub open spec fn decimal_spec(n: nat) -> Seq<char>
    decreases n,
{
    if n < 10 {
        seq![digit_char(n)]
    } else {
        decimal_spec(n / 10).push(digit_char(n % 10))
    }
}

/// The digit for a value below 10.
pub open spec fn digit_char(d: nat) -> char {
    ((d % 10) + 48) as char
}

/// `n` written in decimal.
pub fn decimal(n: usize) -> (r: String)
    ensures
        r@ == decimal_spec(n as nat),
    decreases n,
{
    if n < 10 {
        let mut r = String::new();
        proof { reveal_strlit(""); }
        let c = ((n as u8) + 48) as char;
        push_char(&mut r, c);
        assert(r@ =~= seq![digit_char(n as nat)]);
        r
    } else {
        let mut r = decimal(n / 10);
        let d: u8 = (n % 10) as u8;
        let c = (d + 48) as char;
        push_char(&mut r, c);
        r
    }
}

/// The title of a picker's filter box: the title, then how many entries are shown of all.
pub open spec fn picker_title_spec(title: Seq<char>, shown: nat, total: nat) -> Seq<char> {
    title + "  ("@ + decimal_spec(shown) + " / "@ + decimal_spec(total) + ")"@
}

pub fn picker_title(title: &str, shown: usize, total: usize) -> (r: String)
    ensures
        r@ == picker_title_spec(title@, shown as nat, total as nat),
{
    let mut r = String::new();
    proof { reveal_strlit(""); }
    push_all(&mut r, title);
    push_all(&mut r, "  (");
    push_all(&mut r, decimal(shown).as_str());
    push_all(&mut r, " / ");
    push_all(&mut r, decimal(total).as_str());
    push_all(&mut r, ")");
    r
}

/// The syntax label after an attribute picker entry's name: two spaces and the label, or
/// nothing without one.
pub fn syntax_suffix(syntax: &str) -> (r: String)
    ensures
        r@ == (if syntax@.len() == 0 { Seq::<char>::empty() } else { "  "@ + syntax@ }),
{
    let mut r = String::new();
    proof { reveal_strlit(""); }
    if !syntax.is_empty() {
        push_all(&mut r, "  ");
        push_all(&mut r, syntax);
    }
    r
}

/// The marker before a form field: an arrow on the focused one.
pub fn focus_marker(focused: bool) -> (r: &'static str)
    ensures
        r@ == (if focused { " ▶ "@ } else { "   "@ }),
{
    if focused { " ▶ " } else { "   " }
}

// ── The bottom bar ───────────────────────────────────────────────────────────

/// What the bottom bar shows.
#[derive(PartialEq, Eq, Structural, Clone, Copy, Debug)]
pub enum AuxKind {
    SearchInput,
    AttrNameInput,
    EditValueInput,
    AddValueInput,
    ExpandConfirm,
    OcDeleteHint,
    ValueDeleteConfirm,
    EntryDeleteConfirm,
    SuffixHint,
    PickerHint,
    CreatePickOcHint,
    CreatePickRdnHint,
    CreateFormHint,
    BrowseTreeHint,
    BrowseDetailHint,
    ResultsTreeHint,
    ResultsDetailHint,
}

/// The bottom bar of each mode (the browse hints depend on the active pane).
pub open spec fn aux_kind_spec(m: Mode, pane: Pane) -> AuxKind {
    match m {
        Mode::SearchInput => AuxKind::SearchInput,
        Mode::AddAttrName(_) => AuxKind::AttrNameInput,
        Mode::EditValue(_) => AuxKind::EditValueInput,
        Mode::AddValue(_) => AuxKind::AddValueInput,
        Mode::ConfirmExpand(_) => AuxKind::ExpandConfirm,
        Mode::ConfirmOcDelete(_) => AuxKind::OcDeleteHint,
        Mode::ConfirmDelete(_) => AuxKind::ValueDeleteConfirm,
        Mode::ConfirmEntryDelete(_) => AuxKind::EntryDeleteConfirm,
        Mode::SelectSuffix(_) => AuxKind::SuffixHint,
        Mode::Picker(_) | Mode::OcPicker(_) => AuxKind::PickerHint,
        Mode::CreateChild(st) => match st.phase {
            CreatePhase::PickOc(_) => AuxKind::CreatePickOcHint,
            CreatePhase::PickRdn(_) => AuxKind::CreatePickRdnHint,
            CreatePhase::Form(_) => AuxKind::CreateFormHint,
        },
        Mode::Browse | Mode::ActionDialog => if pane == Pane::Tree {
            AuxKind::BrowseTreeHint
        } else {
            AuxKind::BrowseDetailHint
        },
        Mode::SearchResults => if pane == Pane::Tree {
            AuxKind::ResultsTreeHint
        } else {
            AuxKind::ResultsDetailHint
        },
    }
}

pub fn aux_kind(m: &Mode, pane: Pane) -> (r: AuxKind)
    ensures
        r == aux_kind_spec(*m, pane),
{
    match m {
        Mode::SearchInput => AuxKind::SearchInput,
        Mode::AddAttrName(_) => AuxKind::AttrNameInput,
        Mode::EditValue(_) => AuxKind::EditValueInput,
        Mode::AddValue(_) => AuxKind::AddValueInput,
        Mode::ConfirmExpand(_) => AuxKind::ExpandConfirm,
        Mode::ConfirmOcDelete(_) => AuxKind::OcDeleteHint,
        Mode::ConfirmDelete(_) => AuxKind::ValueDeleteConfirm,
        Mode::ConfirmEntryDelete(_) => AuxKind::EntryDeleteConfirm,
        Mode::SelectSuffix(_) => AuxKind::SuffixHint,
        Mode::Picker(_) | Mode::OcPicker(_) => AuxKind::PickerHint,
        Mode::CreateChild(st) => match &st.phase {
            CreatePhase::PickOc(_) => AuxKind::CreatePickOcHint,
            CreatePhase::PickRdn(_) => AuxKind::CreatePickRdnHint,
            CreatePhase::Form(_) => AuxKind::CreateFormHint,
        },
        Mode::Browse | Mode::ActionDialog => if pane == Pane::Tree {
            AuxKind::BrowseTreeHint
        } else {
            AuxKind::BrowseDetailHint
        },
        Mode::SearchResults => if pane == Pane::Tree {
            AuxKind::ResultsTreeHint
        } else {
            AuxKind::ResultsDetailHint
        },
    }
}

// ── Text cells ───────────────────────────────────────────────────────────────

/// `v` cut to its first `n` chars followed by `ellipsis`, when it is longer than `n` chars.
pub open spec fn truncate_spec(v: Seq<char>, n: nat, ellipsis: Seq<char>) -> Seq<char> {
    if v.len() > n {
        v.take(n as int) + ellipsis
    } else {
        v
    }
}

pub fn truncate_chars(v: &str, n: usize, ellipsis: &str) -> (r: String)
    ensures
        r@ == truncate_spec(v@, n as nat, ellipsis@),
{
    let cs = chars_of(v);
    if cs.len() > n {
        let mut r = string_of_range(&cs, 0, n);
        push_all(&mut r, ellipsis);
        assert(cs@.subrange(0, n as int) =~= v@.take(n as int));
        r
    } else {
        let r = string_of_range(&cs, 0, cs.len());
        assert(cs@.subrange(0, cs@.len() as int) =~= v@);
        r
    }
}

/// `s` padded with spaces on the right to `width` chars (unchanged when already as wide).
pub open spec fn pad_spec(s: Seq<char>, width: nat) -> Seq<char> {
    if s.len() >= width {
        s
    } else {
        s + Seq::new((width - s.len()) as nat, |i: int| ' ')
    }
}

pub fn pad_to(s: &str, width: usize) -> (r: String)
    ensures
        r@ == pad_spec(s@, width as nat),
{
    let cs = chars_of(s);
    let mut r = string_of_range(&cs, 0, cs.len());
    assert(cs@.subrange(0, cs@.len() as int) =~= s@);
    let mut k: usize = cs.len();
    while k < width
        invariant
            cs@ == s@,
            cs@.len() <= k <= width || (k == cs@.len() && k >= width),
            r@ == s@ + Seq::new((k - s@.len()) as nat, |i: int| ' '),
        decreases width - k,
    {
        push_char(&mut r, ' ');
        assert(r@ =~= s@ + Seq::new((k + 1 - s@.len()) as nat, |i: int| ' '));
        k += 1;
    }
    if cs.len() >= width {
        assert(r@ =~= s@);
    }
    r
}

/// The attribute-name cell of a detail row: the name cut to `width` chars and padded to it.
pub fn name_cell(attr: &str, width: usize) -> (r: String)
    ensures
        r@ == pad_spec(if attr@.len() > width { attr@.take(width as int) } else { attr@ }, width as nat),
{
    let cs = chars_of(attr);
    let n = if cs.len() > width { width } else { cs.len() };
    let cut = string_of_range(&cs, 0, n);
    assert(cs@.subrange(0, n as int) =~= if attr@.len() > width { attr@.take(width as int) } else { attr@ });
    pad_to(cut.as_str(), width)
}

/// A form button: a marker and the label when focused, else padding.
pub open spec fn button_spec(label: Seq<char>, focused: bool) -> Seq<char> {
    if focused {
        " ▶ "@ + label + " "@
    } else {
        "   "@ + label + "  "@
    }
}

pub fn button_text(label: &str, focused: bool) -> (r: String)
    ensures
        r@ == button_spec(label@, focused),
{
    let mut r = String::new();
    proof { reveal_strlit(""); }
    if focused {
        push_all(&mut r, " ▶ ");
        push_all(&mut r, label);
        push_all(&mut r, " ");
    } else {
        push_all(&mut r, "   ");
        push_all(&mut r, label);
        push_all(&mut r, "  ");
    }
    r
}

/// The spaces between the left text and the right tag of a picker row: what is left of the
/// width, at least one.
pub fn fill_gap(inner_w: usize, used: usize) -> (r: usize)
    ensures
        r == (if inner_w > used && inner_w - used >= 1 { inner_w - used } else { 1 }),
{
    if inner_w > used { inner_w - used } else { 1 }
}

/// The objectClass picker's tag: STRUCTURAL or AUXILIARY.
pub fn oc_tag(is_structural: bool) -> (r: &'static str)
    ensures
        r@ == (if is_structural { "[STR]"@ } else { "[AUX]"@ }),
{
    if is_structural { "[STR]" } else { "[AUX]" }
}

/// The attribute picker's badge: MUST or MAY.
pub fn must_badge(is_must: bool) -> (r: &'static str)
    ensures
        r@ == (if is_must { "[MUST]"@ } else { "[MAY] "@ }),
{
    if is_must { "[MUST]" } else { "[MAY] " }
}

/// The left text of an attribute picker row: badge, name, and the syntax label if any.
pub open spec fn attr_item_left_spec(badge: Seq<char>, name: Seq<char>, syntax: Seq<char>) -> Seq<char> {
    badge + " "@ + name + if syntax.len() == 0 { Seq::empty() } else { "  "@ + syntax }
}

pub fn attr_item_left(badge: &str, name: &str, syntax: &str) -> (r: String)
    ensures
        r@ == attr_item_left_spec(badge@, name@, syntax@),
{
    let mut r = String::new();
    proof { reveal_strlit(""); }
    push_all(&mut r, badge);
    push_all(&mut r, " ");
    push_all(&mut r, name);
    if !syntax.is_empty() {
        push_all(&mut r, "  ");
        push_all(&mut r, syntax);
    } else {
        assert(r@ =~= badge@ + " "@ + name@ + Seq::<char>::empty());
    }
    r
}

/// The label of the e/a/d dialog: `objectClass: value`, or `attr: value` with the value cut
/// to 20 chars and "…".
pub open spec fn action_label_spec(is_oc: bool, attr: Seq<char>, value: Seq<char>) -> Seq<char> {
    if is_oc {
        "objectClass: "@ + value
    } else {
        attr + ": "@ + truncate_spec(value, 20, "…"@)
    }
}

pub fn action_label(is_oc: bool, attr: &str, value: &str) -> (r: String)
    ensures
        r@ == action_label_spec(is_oc, attr@, value@),
{
    let mut r = String::new();
    proof { reveal_strlit(""); }
    if is_oc {
        push_all(&mut r, "objectClass: ");
        push_all(&mut r, value);
    } else {
        push_all(&mut r, attr);
        push_all(&mut r, ": ");
        let v = truncate_chars(value, 20, "…");
        push_all(&mut r, v.as_str());
    }
    r
}

/// The length in bytes (UTF-8) of a text, as `str::len` reports it.
pub open spec fn byte_len(s: Seq<char>) -> nat {
    (vstd::utf8::encode_utf8(s).len() as usize) as nat
}

pub(crate) fn str_byte_len(s: &str) -> (r: usize)
    ensures
        r == byte_len(s@),
{
    s.len()
}

/// An orphaned value as listed in the objectClass deletion dialog: cut to 10 chars and "...".
pub fn orphan_display_value(v: &str) -> (r: String)
    ensures
        r@ == truncate_spec(v@, 10, "..."@),
{
    truncate_chars(v, 10, "...")
}

/// The widest of the first `k` listed orphan lines: `attr: value`, with the value counted up
/// to 13 chars.
pub open spec fn orphan_line_width(rows: Seq<(String, String)>, k: int) -> int
    decreases k,
{
    if k <= 0 {
        0
    } else {
        let w = byte_len(rows[k - 1].0@) + 2 + (if rows[k - 1].1@.len() < 13 { rows[k - 1].1@.len() as int } else { 13 });
        let prev = orphan_line_width(rows, k - 1);
        if w > prev { w } else { prev }
    }
}

/// The objectClass deletion dialog lists at most this many orphaned values.
pub const MAX_ORPHANS_SHOWN: usize = 14;

/// The objectClass deletion dialog's popup: wide enough for the listed lines (at least 52),
/// and tall enough for the header, the list (with an overflow line) and the prompt.
pub open spec fn oc_delete_size_spec(rows: Seq<(String, String)>, area_w: int, area_h: int) -> (int, int) {
    let n = rows.len() as int;
    let shown = if n < 14 { n } else { 14 };
    let overflow = if n > 14 { n - 14 } else { 0 };
    let max_line = orphan_line_width(rows, shown);
    let w = clamp_spec(max_line % 65536 + 6, 52, area_w);
    let content = 2 + (if n == 0 { 0 } else { 1 + shown + (if overflow > 0 { 1int } else { 0 }) + 1 }) + 1;
    let h = if content + 2 < area_h { content + 2 } else { area_h };
    (w, h)
}

pub fn oc_delete_popup_size(rows: &Vec<(String, String)>, area_w: u16, area_h: u16) -> (r: (u16, u16))
    ensures
        r.0 as int == oc_delete_size_spec(rows@, area_w as int, area_h as int).0,
        r.1 as int == oc_delete_size_spec(rows@, area_w as int, area_h as int).1,
{
    let n = rows.len();
    let shown = if n < MAX_ORPHANS_SHOWN { n } else { MAX_ORPHANS_SHOWN };
    let overflow: usize = if n > MAX_ORPHANS_SHOWN { n - MAX_ORPHANS_SHOWN } else { 0 };
    let mut max_line: u128 = 0;
    let mut k: usize = 0;
    while k < shown
        invariant
            shown <= rows@.len(),
            k <= shown,
            max_line == orphan_line_width(rows@, k as int),
            max_line <= usize::MAX + 15,
        decreases shown - k,
    {
        let a = str_byte_len(rows[k].0.as_str());
        let vc = rows[k].1.as_str().unicode_len();
        let v = if vc < 13 { vc } else { 13 };
        let w: u128 = a as u128 + 2 + v as u128;
        if w > max_line {
            max_line = w;
        }
        k += 1;
    }
    let base: u32 = (max_line % 65536) as u32 + 6;
    let w = clamp_u32(base, 52, area_w as u32);
    let content: usize = 2 + (if n == 0 { 0 } else { 1 + shown + (if overflow > 0 { 1 } else { 0 }) + 1 }) + 1;
    let h: u16 = if content + 2 < area_h as usize { (content + 2) as u16 } else { area_h };
    (w as u16, h)
}

/// The width of the form's attribute labels: the longest name in bytes (8 without fields),
/// at most 20.
pub open spec fn longest_bytes(names: Seq<Seq<char>>, k: int) -> int
    decreases k,
{
    if k <= 0 {
        0
    } else {
        let w = byte_len(names[k - 1]) as int;
        let prev = longest_bytes(names, k - 1);
        if w > prev { w } else { prev }
    }
}

pub open spec fn form_label_width_spec(names: Seq<Seq<char>>) -> int {
    let m = if names.len() == 0 { 8 } else { longest_bytes(names, names.len() as int) };
    if m < 20 { m } else { 20 }
}

pub fn form_label_width(fields: &Vec<crate::state::FormField>) -> (r: usize)
    ensures
        r as int == form_label_width_spec(fields@.map_values(|f: crate::state::FormField| f.attr@)),
{
    let ghost names = fields@.map_values(|f: crate::state::FormField| f.attr@);
    let mut m: usize = 0;
    let mut k: usize = 0;
    while k < fields.len()
        invariant
            names == fields@.map_values(|f: crate::state::FormField| f.attr@),
            k <= fields@.len(),
            m == longest_bytes(names, k as int),
        decreases fields@.len() - k,
    {
        let w = str_byte_len(fields[k].attr.as_str());
        assert(names[k as int] == fields@[k as int].attr@);
        if w > m {
            m = w;
        }
        k += 1;
    }
    let m = if fields.len() == 0 { 8 } else { m };
    if m < 20 { m } else { 20 }
}

// ── Tree rows ────────────────────────────────────────────────────────────────

/// The part of a DN before its first comma (its RDN).
pub open spec fn rdn_spec(dn: Seq<char>) -> Seq<char>
    decreases dn.len(),
{
    if dn.len() == 0 || dn[0] == ',' {
        Seq::empty()
    } else {
        seq![dn[0]] + rdn_spec(dn.drop_first())
    }
}

/// The guide lines before a tree row: one column per ancestor (dotted where the ancestor has
/// later siblings), then the branch.
pub open spec fn guides_spec(continuing: Seq<bool>, is_last: bool) -> Seq<char>
    decreases continuing.len(),
{
    if continuing.len() == 0 {
        if is_last { "└─ "@ } else { "├─ "@ }
    } else {
        (if continuing[0] { "┆  "@ } else { "   "@ }) + guides_spec(continuing.drop_first(), is_last)
    }
}

/// The expansion marker of a tree row: the root always shows one; other rows only when they
/// have children.
pub open spec fn marker_spec(depth: int, has_children: bool, expanded: bool) -> Seq<char> {
    if depth == 0 || has_children {
        if expanded { "▼ "@ } else { "▶ "@ }
    } else {
        "  "@
    }
}

/// (guides, marker, label) of a tree row: the root shows its full DN without guides, other
/// rows their RDN after the guides.
pub fn tree_row_parts(entry: &FlatEntry) -> (r: (String, &'static str, String))
    ensures
        r.0@ == (if entry.depth == 0 { Seq::<char>::empty() } else { guides_spec(entry.continuing@, entry.is_last) }),
        r.1@ == marker_spec(entry.depth as int, entry.node.has_children, entry.node.expanded),
        r.2@ == (if entry.depth == 0 { entry.node.dn@ } else { rdn_spec(entry.node.dn@) }),
{
    let node = entry.node;
    let marker: &'static str = if entry.depth == 0 || node.has_children {
        if node.expanded { "▼ " } else { "▶ " }
    } else {
        "  "
    };
    if entry.depth == 0 {
        return (String::new(), marker, node.dn.clone());
    }
    let mut guides = String::new();
    let cont = &entry.continuing;
    let mut i: usize = 0;
    assert(cont@.skip(0) =~= cont@);
    while i < cont.len()
        invariant
            i <= cont@.len(),
            guides@ + guides_spec(cont@.skip(i as int), entry.is_last) == guides_spec(cont@, entry.is_last),
        decreases cont@.len() - i,
    {
        let ghost before = guides@;
        assert(cont@.skip(i as int).drop_first() =~= cont@.skip(i as int + 1));
        assert(cont@.skip(i as int)[0] == cont@[i as int]);
        if cont[i] {
            push_all(&mut guides, "┆  ");
        } else {
            push_all(&mut guides, "   ");
        }
        assert(guides@ + guides_spec(cont@.skip(i as int + 1), entry.is_last) =~= before + guides_spec(cont@.skip(i as int), entry.is_last));
        i += 1;
    }
    assert(cont@.skip(i as int) =~= Seq::<bool>::empty());
    if entry.is_last {
        push_all(&mut guides, "└─ ");
    } else {
        push_all(&mut guides, "├─ ");
    }
    let cs = chars_of(node.dn.as_str());
    let mut k: usize = 0;
    while k < cs.len() && cs[k] != ','
        invariant
            cs@ == node.dn@,
            k <= cs@.len(),
            forall|j: int| 0 <= j < k ==> cs@[j] != ',',
        decreases cs@.len() - k,
    {
        k += 1;
    }
    let label = string_of_range(&cs, 0, k);
    proof { lemma_rdn(node.dn@, k as int); }
    (guides, marker, label)
}

proof fn lemma_rdn(dn: Seq<char>, k: int)
    requires
        0 <= k <= dn.len(),
        forall|j: int| 0 <= j < k ==> dn[j] != ',',
        k == dn.len() || dn[k] == ',',
    ensures
        rdn_spec(dn) == dn.subrange(0, k),
    decreases k,
{
    if k > 0 {
        lemma_rdn(dn.drop_first(), k - 1);
        assert(dn.subrange(0, k) =~= seq![dn[0]] + dn.drop_first().subrange(0, k - 1));
    } else {
        assert(dn.subrange(0, 0) =~= Seq::<char>::empty());
    }
}

// ── Filter highlighting ──────────────────────────────────────────────────────

/// The highlight of a part of an LDAP filter: the operator of the innermost group.
#[derive(PartialEq, Eq, Structural, Clone, Copy, Debug)]
pub enum Tone {
    Normal,
    And,
    Or,
    Not,
}

/// The scanner's state: segments so far, the tones of the enclosing groups, the current tone,
/// and the text not yet emitted.
pub struct FilterScan {
    pub segs: Seq<(Seq<char>, Tone)>,
    pub stack: Seq<Tone>,
    pub cur: Tone,
    pub buf: Seq<char>,
}

/// Emit the pending text, if any, in the current tone.
pub open spec fn scan_flush(st: FilterScan) -> FilterScan {
    if st.buf.len() > 0 {
        FilterScan { segs: st.segs.push((st.buf, st.cur)), buf: Seq::empty(), ..st }
    } else {
        st
    }
}

/// The tone a group opened by `(` takes from its first char.
pub open spec fn group_tone(next: Option<char>, cur: Tone) -> Tone {
    match next {
        Some(c) => if c == '&' {
            Tone::And
        } else if c == '|' {
            Tone::Or
        } else if c == '!' {
            Tone::Not
        } else {
            cur
        },
        None => cur,
    }
}

/// One char: `(` opens a group (its operator sets the tone), `)` closes it (its text keeps the
/// group's tone), other chars are collected.
pub open spec fn scan_step(st: FilterScan, c: char, next: Option<char>) -> FilterScan {
    if c == '(' {
        let st1 = scan_flush(st);
        FilterScan { segs: st1.segs, stack: st.stack.push(st.cur), cur: group_tone(next, st.cur), buf: seq!['('] }
    } else if c == ')' {
        FilterScan {
            segs: st.segs.push((st.buf.push(')'), st.cur)),
            stack: if st.stack.len() > 0 { st.stack.drop_last() } else { st.stack },
            cur: if st.stack.len() > 0 { st.stack.last() } else { Tone::Normal },
            buf: Seq::empty(),
        }
    } else {
        FilterScan { buf: st.buf.push(c), ..st }
    }
}

pub open spec fn scan_from(cs: Seq<char>, i: int, st: FilterScan) -> FilterScan
    decreases cs.len() - i,
{
    if i < 0 || i >= cs.len() {
        st
    } else {
        scan_from(cs, i + 1, scan_step(st, cs[i], if i + 1 < cs.len() { Some(cs[i + 1]) } else { None }))
    }
}

/// The highlighted segments of a filter.
pub open spec fn filter_segments_spec(cs: Seq<char>) -> Seq<(Seq<char>, Tone)> {
    scan_flush(scan_from(cs, 0, FilterScan { segs: Seq::empty(), stack: Seq::empty(), cur: Tone::Normal, buf: Seq::empty() })).segs
}

pub open spec fn seg_views(v: Seq<(String, Tone)>) -> Seq<(Seq<char>, Tone)> {
    v.map_values(|p: (String, Tone)| (p.0@, p.1))
}

fn group_tone_exec(next: Option<char>, cur: Tone) -> (r: Tone)
    ensures
        r == group_tone(next, cur),
{
    match next {
        Some(c) => if c == '&' {
            Tone::And
        } else if c == '|' {
            Tone::Or
        } else if c == '!' {
            Tone::Not
        } else {
            cur
        },
        None => cur,
    }
}

/// Split an LDAP filter into highlighted segments: each group takes the tone of its operator
/// (`&`, `|`, `!`), other text keeps the enclosing group's tone.
pub fn filter_segments(input: &str) -> (r: Vec<(String, Tone)>)
    ensures
        seg_views(r@) == filter_segments_spec(input@),
{
    let cs = chars_of(input);
    let n = cs.len();
    let ghost init = FilterScan { segs: Seq::empty(), stack: Seq::empty(), cur: Tone::Normal, buf: Seq::empty() };
    let mut segs: Vec<(String, Tone)> = Vec::new();
    let mut stack: Vec<Tone> = Vec::new();
    let mut cur = Tone::Normal;
    let mut buf = String::new();
    let mut i: usize = 0;
    assert(seg_views(segs@) =~= Seq::<(Seq<char>, Tone)>::empty());
    while i < n
        invariant
            cs@ == input@,
            n == cs@.len(),
            i <= n,
            scan_from(cs@, i as int, FilterScan { segs: seg_views(segs@), stack: stack@, cur, buf: buf@ }) == scan_from(cs@, 0, init),
        decreases n - i,
    {
        let ghost st = FilterScan { segs: seg_views(segs@), stack: stack@, cur, buf: buf@ };
        let c = cs[i];
        let next: Option<char> = if i + 1 < n { Some(cs[i + 1]) } else { None };
        if c == '(' {
            if !buf.as_str().is_empty() {
                let ghost b = seg_views(segs@);
                segs.push((buf, cur));
                assert(seg_views(segs@) =~= b.push((st.buf, st.cur)));
            }
            let t = group_tone_exec(next, cur);
            stack.push(cur);
            cur = t;
            buf = String::new();
            push_char(&mut buf, '(');
            assert(buf@ =~= seq!['(']);
        } else if c == ')' {
            push_char(&mut buf, ')');
            let ghost b = seg_views(segs@);
            segs.push((buf, cur));
            assert(seg_views(segs@) =~= b.push((st.buf.push(')'), st.cur)));
            cur = match stack.pop() {
                Some(t) => t,
                None => Tone::Normal,
            };
            buf = String::new();
        } else {
            push_char(&mut buf, c);
        }
        assert(FilterScan { segs: seg_views(segs@), stack: stack@, cur, buf: buf@ } == scan_step(st, c, next));
        i += 1;
    }
    if !buf.as_str().is_empty() {
        let ghost b = seg_views(segs@);
        let ghost bb = buf@;
        let ghost cc = cur;
        segs.push((buf, cur));
        assert(seg_views(segs@) =~= b.push((bb, cc)));
    }
    segs
}

// ── Cursor placement ─────────────────────────────────────────────────────────

/// The parts after marking the char at `cursor` (counted from `pos`) with style `cur`: the
/// part holding it is split around it; when no part holds it, a marked space is appended.
pub open spec fn inject_spec<T>(parts: Seq<(Seq<char>, T)>, pos: int, done: bool, cursor: int, cur: T) -> Seq<(Seq<char>, T)>
    decreases parts.len(),
{
    if parts.len() == 0 {
        if done { Seq::empty() } else { seq![(" "@, cur)] }
    } else {
        let text = parts[0].0;
        let st = parts[0].1;
        let len = text.len() as int;
        if !done && pos <= cursor < pos + len {
            let rel = cursor - pos;
            (if rel > 0 { seq![(text.take(rel), st)] } else { Seq::empty() }) + seq![(seq![text[rel]], cur)] + (if rel + 1 < len {
                seq![(text.skip(rel + 1), st)]
            } else {
                Seq::empty()
            }) + inject_spec(parts.drop_first(), pos + len, true, cursor, cur)
        } else {
            seq![(text, st)] + inject_spec(parts.drop_first(), pos + len, done, cursor, cur)
        }
    }
}

pub open spec fn part_views<T>(v: Seq<(String, T)>) -> Seq<(Seq<char>, T)> {
    v.map_values(|p: (String, T)| (p.0@, p.1))
}

/// Mark the char under the cursor (a char index over all parts) with style `cur`.
pub fn inject_cursor<T: Copy>(parts: Vec<(String, T)>, cursor: usize, cur: T) -> (r: Vec<(String, T)>)
    ensures
        part_views(r@) == inject_spec(part_views(parts@), 0, false, cursor as int, cur),
{
    let ghost pv = part_views(parts@);
    let mut result: Vec<(String, T)> = Vec::new();
    let mut pos: usize = 0;
    let mut past = false;
    let ghost mut gpos: int = 0;
    let mut done = false;
    let mut k: usize = 0;
    assert(pv.skip(0) =~= pv);
    assert(part_views(result@) =~= Seq::<(Seq<char>, T)>::empty());
    while k < parts.len()
        invariant
            pv == part_views(parts@),
            k <= parts@.len(),
            !past ==> pos == gpos,
            past ==> gpos > cursor,
            part_views(result@) + inject_spec(pv.skip(k as int), gpos, done, cursor as int, cur) == inject_spec(pv, 0, false, cursor as int, cur),
        decreases parts@.len() - k,
    {
        let ghost before = part_views(result@);
        let ghost rest = pv.skip(k as int);
        assert(rest[0] == (parts@[k as int].0@, parts@[k as int].1));
        assert(rest.drop_first() =~= pv.skip(k as int + 1));
        let chars = chars_of(parts[k].0.as_str());
        let len = chars.len();
        let st = parts[k].1;
        if !done && !past && cursor >= pos && cursor - pos < len {
            let rel = cursor - pos;
            if rel > 0 {
                result.push((string_of_range(&chars, 0, rel), st));
            }
            let one = string_of_range(&chars, rel, rel + 1);
            result.push((one, cur));
            if rel + 1 < len {
                result.push((string_of_range(&chars, rel + 1, len), st));
            }
            proof {
                let text = rest[0].0;
                assert(chars@.subrange(0, rel as int) =~= text.take(rel as int));
                assert(chars@.subrange(rel as int, rel + 1) =~= seq![text[rel as int]]);
                assert(chars@.subrange(rel + 1, len as int) =~= text.skip(rel + 1));
                let mid = (if rel > 0 { seq![(text.take(rel as int), st)] } else { Seq::empty() }) + seq![(seq![text[rel as int]], cur)] + (if rel + 1 < len {
                    seq![(text.skip(rel + 1), st)]
                } else {
                    Seq::empty()
                });
                assert(part_views(result@) =~= before + mid);
            }
            done = true;
        } else {
            let whole = string_of_range(&chars, 0, len);
            assert(chars@.subrange(0, len as int) =~= rest[0].0);
            result.push((whole, st));
            assert(part_views(result@) =~= before.push((rest[0].0, st)));
        }
        if !past {
            if cursor >= pos && len <= cursor - pos {
                pos = pos + len;
            } else {
                past = true;
            }
        }
        proof {
            gpos = gpos + len;
        }
        k += 1;
    }
    if !done {
        let ghost before = part_views(result@);
        result.push((" ".to_string(), cur));
        assert(part_views(result@) =~= before.push((" "@, cur)));
    }
    result
}

// ── Laws ─────────────────────────────────────────────────────────────────────

/// The texts of styled parts, joined in order.
pub open spec fn concat_texts<T>(s: Seq<(Seq<char>, T)>) -> Seq<char>
    decreases s.len(),
{
    if s.len() == 0 {
        Seq::empty()
    } else {
        s[0].0 + concat_texts(s.drop_first())
    }
}

proof fn lemma_concat_push<T>(s: Seq<(Seq<char>, T)>, x: (Seq<char>, T))
    ensures
        concat_texts(s.push(x)) == concat_texts(s) + x.0,
    decreases s.len(),
{
    if s.len() == 0 {
        assert(s.push(x).drop_first() =~= Seq::<(Seq<char>, T)>::empty());
        assert(concat_texts(s.push(x)) == x.0 + concat_texts(s.push(x).drop_first()));
        assert(x.0 + Seq::<char>::empty() =~= x.0);
        assert(Seq::<char>::empty() + x.0 =~= x.0);
    } else {
        lemma_concat_push(s.drop_first(), x);
        assert(s.push(x).drop_first() =~= s.drop_first().push(x));
        assert(s.push(x)[0] == s[0]);
        assert(concat_texts(s.push(x)) == s[0].0 + concat_texts(s.drop_first().push(x)));
        assert(s[0].0 + (concat_texts(s.drop_first()) + x.0) =~= (s[0].0 + concat_texts(s.drop_first())) + x.0);
    }
}

proof fn lemma_concat_add<T>(a: Seq<(Seq<char>, T)>, b: Seq<(Seq<char>, T)>)
    ensures
        concat_texts(a + b) == concat_texts(a) + concat_texts(b),
    decreases a.len(),
{
    if a.len() == 0 {
        assert(a + b =~= b);
        assert(Seq::<char>::empty() + concat_texts(b) =~= concat_texts(b));
    } else {
        lemma_concat_add(a.drop_first(), b);
        assert((a + b).drop_first() =~= a.drop_first() + b);
        assert((a + b)[0] == a[0]);
        assert(a[0].0 + (concat_texts(a.drop_first()) + concat_texts(b)) =~= (a[0].0 + concat_texts(a.drop_first())) + concat_texts(b));
    }
}

proof fn lemma_scan_keeps_text(cs: Seq<char>, i: int, st: FilterScan)
    requires
        0 <= i <= cs.len(),
        concat_texts(st.segs) + st.buf == cs.take(i),
    ensures
        concat_texts(scan_from(cs, i, st).segs) + scan_from(cs, i, st).buf == cs,
    decreases cs.len() - i,
{
    if i == cs.len() {
        assert(cs.take(i) =~= cs);
    } else {
        let next = if i + 1 < cs.len() { Some(cs[i + 1]) } else { None };
        let st2 = scan_step(st, cs[i], next);
        let c = cs[i];
        assert(cs.take(i + 1) =~= cs.take(i).push(c));
        if c == '(' {
            let st1 = scan_flush(st);
            if st.buf.len() > 0 {
                lemma_concat_push(st.segs, (st.buf, st.cur));
            }
            assert(concat_texts(st1.segs) + st1.buf =~= cs.take(i));
            assert(concat_texts(st2.segs) + st2.buf =~= cs.take(i + 1));
        } else if c == ')' {
            lemma_concat_push(st.segs, (st.buf.push(')'), st.cur));
            assert(concat_texts(st2.segs) + st2.buf =~= cs.take(i + 1));
        } else {
            assert(concat_texts(st2.segs) + st2.buf =~= cs.take(i + 1));
        }
        lemma_scan_keeps_text(cs, i + 1, st2);
    }
}

/// Highlighting only colours a filter: its segments rejoin to the filter.
pub proof fn law_filter_segments_rejoin(cs: Seq<char>)
    ensures
        concat_texts(filter_segments_spec(cs)) == cs,
{
    let init = FilterScan { segs: Seq::empty(), stack: Seq::empty(), cur: Tone::Normal, buf: Seq::empty() };
    assert(cs.take(0) =~= Seq::<char>::empty());
    assert(concat_texts(init.segs) + init.buf =~= cs.take(0));
    lemma_scan_keeps_text(cs, 0, init);
    let st = scan_from(cs, 0, init);
    if st.buf.len() > 0 {
        lemma_concat_push(st.segs, (st.buf, st.cur));
    } else {
        assert(concat_texts(st.segs) + st.buf =~= concat_texts(st.segs));
    }
}

/// Marking the cursor keeps the text, adding one space when the cursor is past its end.
pub proof fn law_inject_keeps_text<T>(parts: Seq<(Seq<char>, T)>, pos: int, done: bool, cursor: int, cur: T)
    requires
        0 <= pos,
        done ==> cursor < pos,
        !done ==> cursor >= pos,
    ensures
        concat_texts(inject_spec(parts, pos, done, cursor, cur)) == concat_texts(parts) + if !done && cursor >= pos + concat_texts(parts).len() {
            " "@
        } else {
            Seq::empty()
        },
    decreases parts.len(),
{
    if parts.len() == 0 {
        if done {
            assert(concat_texts(Seq::<(Seq<char>, T)>::empty()) + Seq::<char>::empty() =~= Seq::<char>::empty());
        } else {
            let r = seq![(" "@, cur)];
            assert(r.drop_first() =~= Seq::<(Seq<char>, T)>::empty());
            assert(concat_texts(r) == " "@ + concat_texts(r.drop_first()));
            assert(" "@ + Seq::<char>::empty() =~= " "@);
            assert(Seq::<char>::empty() + " "@ =~= " "@);
        }
    } else {
        let text = parts[0].0;
        let st = parts[0].1;
        let len = text.len() as int;
        let rest = parts.drop_first();
        assert(concat_texts(parts) == text + concat_texts(rest));
        if !done && pos <= cursor < pos + len {
            let rel = cursor - pos;
            law_inject_keeps_text(rest, pos + len, true, cursor, cur);
            let a = if rel > 0 { seq![(text.take(rel), st)] } else { Seq::empty() };
            let b = seq![(seq![text[rel]], cur)];
            let c = if rel + 1 < len { seq![(text.skip(rel + 1), st)] } else { Seq::empty() };
            let tail = inject_spec(rest, pos + len, true, cursor, cur);
            lemma_concat_add(a + b + c, tail);
            lemma_concat_add(a + b, c);
            lemma_concat_add(a, b);
            if rel > 0 {
                lemma_concat_push(Seq::<(Seq<char>, T)>::empty(), (text.take(rel), st));
                assert(seq![(text.take(rel), st)] =~= Seq::<(Seq<char>, T)>::empty().push((text.take(rel), st)));
            }
            lemma_concat_push(Seq::<(Seq<char>, T)>::empty(), (seq![text[rel]], cur));
            assert(b =~= Seq::<(Seq<char>, T)>::empty().push((seq![text[rel]], cur)));
            if rel + 1 < len {
                lemma_concat_push(Seq::<(Seq<char>, T)>::empty(), (text.skip(rel + 1), st));
                assert(c =~= Seq::<(Seq<char>, T)>::empty().push((text.skip(rel + 1), st)));
            }
            assert(concat_texts(a) + concat_texts(b) + concat_texts(c) =~= text);
            assert(concat_texts(tail) =~= concat_texts(rest) + Seq::<char>::empty());
            assert(concat_texts(inject_spec(parts, pos, done, cursor, cur)) =~= text + concat_texts(rest));
            assert(concat_texts(parts) + Seq::<char>::empty() =~= concat_texts(parts));
        } else {
            law_inject_keeps_text(rest, pos + len, done, cursor, cur);
            let tail = inject_spec(rest, pos + len, done, cursor, cur);
            lemma_concat_add(seq![(text, st)], tail);
            lemma_concat_push(Seq::<(Seq<char>, T)>::empty(), (text, st));
            assert(seq![(text, st)] =~= Seq::<(Seq<char>, T)>::empty().push((text, st)));
            if !done && cursor >= pos + concat_texts(parts).len() {
                assert(cursor >= pos + len + concat_texts(rest).len());
            }
            if !done && cursor >= pos + len + concat_texts(rest).len() {
                assert(cursor >= pos + concat_texts(parts).len());
            }
            assert(concat_texts(inject_spec(parts, pos, done, cursor, cur)) =~= text + concat_texts(tail));
            assert(concat_texts(parts) + (if !done && cursor >= pos + concat_texts(parts).len() { " "@ } else { Seq::<char>::empty() }) =~= text + (concat_texts(rest) + if !done && cursor >= pos + len + concat_texts(rest).len() { " "@ } else { Seq::<char>::empty() }));
        }
    }
}

} // verus!
