//! Per-mode state of the editor: the create-child form, the fuzzy pickers, the search
//! results, the suffix chooser and the confirmation dialogs.
use vstd::prelude::*;

use crate::model::{input_backspace, input_insert, EditState, InputView, TextInput};
use crate::tree::ChildNode;
use crate::schema::types::PickerEntry;
use crate::text::{ascii_lower, eq_ignore_ascii_case, push_all, str_eq_ignore_ascii_case};
use fuzzy_matcher::FuzzyMatcher;

verus! {

// ── Fuzzy matching ───────────────────────────────────────────────────────────

/// Whether two chars match, exactly or up to ASCII case.
pub open spec fn fuzzy_char_eq(a: char, b: char, case_sensitive: bool) -> bool {
    if case_sensitive {
        a == b
    } else {
        ascii_lower(a) == ascii_lower(b)
    }
}

/// Greedy left-to-right subsequence match of `pattern` in `choice`.
pub open spec fn fuzzy_subseq(choice: Seq<char>, pattern: Seq<char>, case_sensitive: bool) -> bool
    decreases choice.len(),
{
    if pattern.len() == 0 {
        true
    } else if choice.len() == 0 {
        false
    } else if fuzzy_char_eq(choice[0], pattern[0], case_sensitive) {
        fuzzy_subseq(choice.drop_first(), pattern.drop_first(), case_sensitive)
    } else {
        fuzzy_subseq(choice.drop_first(), pattern, case_sensitive)
    }
}

/// Smart case: matching respects case exactly when the pattern holds an ASCII upper-case letter.
pub open spec fn has_ascii_upper(pattern: Seq<char>) -> bool {
    exists|i: int| 0 <= i < pattern.len() && 'A' <= #[trigger] pattern[i] && pattern[i] <= 'Z'
}

/// Whether the skim matcher finds `pattern` in `choice` at all.
pub open spec fn fuzzy_matches(choice: Seq<char>, pattern: Seq<char>) -> bool {
    fuzzy_subseq(choice, pattern, has_ascii_upper(pattern))
}

/// The score that the skim matcher (default configuration) gives `pattern` in `choice`.
pub uninterp spec fn fuzzy_score(choice: Seq<char>, pattern: Seq<char>) -> i64;

/// `SkimMatcherV2::default().fuzzy_match` (fuzzy-matcher): `Some` exactly when the pattern is a
/// (smart-case) subsequence of the choice, with the score named by `fuzzy_score`; an empty
/// pattern scores 0. How the score is computed is left unsaid here.
#[verifier::external_body]
fn fuzzy_match(choice: &str, pattern: &str) -> (r: Option<i64>)
    ensures
        r is Some <==> fuzzy_matches(choice@, pattern@),
        r matches Some(s) ==> s == fuzzy_score(choice@, pattern@),
        pattern@.len() == 0 ==> r == Some(0i64),
{
    fuzzy_matcher::skim::SkimMatcherV2::default().fuzzy_match(choice, pattern)
}

// ── PickerState ──────────────────────────────────────────────────────────────

/// The score of entry `i` for a pattern.
pub open spec fn entry_score(entries: Seq<PickerEntry>, pattern: Seq<char>, i: int) -> i64 {
    fuzzy_score(entries[i].attr_name@, pattern)
}

/// Whether entry `i` matches a pattern.
pub open spec fn entry_matches(entries: Seq<PickerEntry>, pattern: Seq<char>, i: int) -> bool {
    fuzzy_matches(entries[i].attr_name@, pattern)
}

/// `a` ranks before `b`: higher score first, then lower index.
pub open spec fn ranks_before(entries: Seq<PickerEntry>, pattern: Seq<char>, a: int, b: int) -> bool {
    entry_score(entries, pattern, a) > entry_score(entries, pattern, b) || (entry_score(entries, pattern, a)
        == entry_score(entries, pattern, b) && a < b)
}

/// `f` lists exactly the matching entries' indices, best score first, ties in entry order.
pub open spec fn ranked_matches(entries: Seq<PickerEntry>, pattern: Seq<char>, f: Seq<usize>) -> bool {
    &&& forall|k: int| 0 <= k < f.len() ==> (#[trigger] f[k]) < entries.len() && entry_matches(entries, pattern, f[k] as int)
    &&& forall|i: int| 0 <= i < entries.len() && entry_matches(entries, pattern, i) ==> f.contains(i as usize)
    &&& forall|a: int, b: int| 0 <= a < b < f.len() ==> ranks_before(entries, pattern, #[trigger] f[a] as int, #[trigger] f[b] as int)
}

/// The identity listing of `n` entries.
pub open spec fn all_indices(n: nat) -> Seq<usize> {
    Seq::new(n, |i: int| i as usize)
}

/// The filtered list for a filter text: every entry when it is empty, else the ranked matches.
pub open spec fn filter_result(entries: Seq<PickerEntry>, text: Seq<char>, f: Seq<usize>) -> bool {
    if text.len() == 0 {
        f == all_indices(entries.len())
    } else {
        ranked_matches(entries, text, f)
    }
}

/// The selection after refiltering: reset to the top when it falls off the list.
pub open spec fn clamp_selected(selected: int, n: int) -> int {
    if selected >= (if n > 1 { n } else { 1 }) {
        0
    } else {
        selected
    }
}

/// Fuzzy-filter picker over a fixed candidate list.
pub struct PickerState {
    pub input: TextInput,
    pub entries: Vec<PickerEntry>,
    pub filtered: Vec<usize>,
    pub selected: usize,
}

fn identity_indices(n: usize) -> (r: Vec<usize>)
    ensures
        r@ == all_indices(n as nat),
{
    let mut r: Vec<usize> = Vec::new();
    let mut i: usize = 0;
    while i < n
        invariant
            i <= n,
            r@ == all_indices(i as nat),
        decreases n - i,
    {
        r.push(i);
        assert(r@ =~= all_indices(i as nat + 1));
        i += 1;
    }
    r
}

/// Insert `(i, s)` after every pair whose score is at least `s` (a stable descending order).
fn insert_by_score(v: &mut Vec<(usize, i64)>, i: usize, s: i64)
    requires
        forall|a: int, b: int| 0 <= a < b < old(v)@.len() ==> (#[trigger] old(v)@[a]).1 > (#[trigger] old(v)@[b]).1
            || (old(v)@[a].1 == old(v)@[b].1 && old(v)@[a].0 < old(v)@[b].0),
        forall|a: int| 0 <= a < old(v)@.len() ==> (#[trigger] old(v)@[a]).0 < i,
    ensures
        forall|a: int, b: int| 0 <= a < b < final(v)@.len() ==> (#[trigger] final(v)@[a]).1 > (#[trigger] final(v)@[b]).1
            || (final(v)@[a].1 == final(v)@[b].1 && final(v)@[a].0 < final(v)@[b].0),
        final(v)@.len() == old(v)@.len() + 1,
        forall|x: (usize, i64)| final(v)@.contains(x) <==> (old(v)@.contains(x) || x == (i, s)),
{
    let ghost o = v@;
    let mut k: usize = 0;
    while k < v.len() && v[k].1 >= s
        invariant
            v@ == o,
            k <= o.len(),
            forall|a: int| 0 <= a < k ==> (#[trigger] o[a]).1 >= s,
        decreases o.len() - k,
    {
        k += 1;
    }
    v.insert(k, (i, s));
    proof {
        let t = v@;
        assert(t =~= o.insert(k as int, (i, s)));
        assert forall|a: int, b: int| 0 <= a < b < t.len() implies (#[trigger] t[a]).1 > (#[trigger] t[b]).1 || (t[a].1
            == t[b].1 && t[a].0 < t[b].0) by {
            if b < k {
                assert(t[a] == o[a] && t[b] == o[b]);
            } else if b == k {
                assert(t[a] == o[a]);
            } else if a < k {
                assert(t[a] == o[a] && t[b] == o[b - 1]);
                if k < o.len() {
                    assert(o[k as int].1 < s);
                    if b - 1 > k {
                        assert(o[k as int].1 > o[b - 1].1 || (o[k as int].1 == o[b - 1].1 && o[k as int].0 < o[b - 1].0));
                    }
                }
            } else if a == k {
                assert(t[b] == o[b - 1]);
                assert(o[k as int].1 < s);
                if b - 1 > k {
                    assert(o[k as int].1 > o[b - 1].1 || (o[k as int].1 == o[b - 1].1 && o[k as int].0 < o[b - 1].0));
                }
            } else {
                assert(t[a] == o[a - 1] && t[b] == o[b - 1]);
            }
        }
        assert forall|x: (usize, i64)| t.contains(x) <==> (o.contains(x) || x == (i, s)) by {
            if t.contains(x) {
                let j = choose|j: int| 0 <= j < t.len() && t[j] == x;
                if j < k {
                    assert(o[j] == x);
                } else if j > k {
                    assert(o[j - 1] == x);
                }
            }
            if o.contains(x) {
                let j = choose|j: int| 0 <= j < o.len() && o[j] == x;
                if j < k {
                    assert(t[j] == x);
                } else {
                    assert(t[j + 1] == x);
                }
            }
            if x == (i, s) {
                assert(t[k as int] == x);
            }
        }
    }
}

impl PickerState {
    pub fn new(entries: Vec<PickerEntry>) -> (r: Self)
        ensures
            r.input@ == (InputView { text: Seq::empty(), cursor: 0 }),
            r.entries@ == entries@,
            r.filtered@ == all_indices(entries@.len()),
            r.selected == 0,
    {
        let filtered = identity_indices(entries.len());
        PickerState { input: TextInput::new(), entries, filtered, selected: 0 }
    }

    /// Recompute `filtered` from the filter text: every entry when it is empty, otherwise the
    /// fuzzy matches, best score first (ties keep entry order). The selection returns to the
    /// top when it falls off the list.
    pub fn update_filter(&mut self)
        ensures
            final(self).input == old(self).input,
            final(self).entries == old(self).entries,
            filter_result(old(self).entries@, old(self).input@.text, final(self).filtered@),
            final(self).selected == clamp_selected(old(self).selected as int, final(self).filtered@.len() as int),
    {
        if self.input.is_empty() {
            self.filtered = identity_indices(self.entries.len());
        } else {
            let ghost es = self.entries@;
            let ghost pat = self.input@.text;
            let mut scored: Vec<(usize, i64)> = Vec::new();
            let mut i: usize = 0;
            while i < self.entries.len()
                invariant
                    es == self.entries@,
                    pat == self.input@.text,
                    i <= es.len(),
                    forall|a: int, b: int| 0 <= a < b < scored@.len() ==> (#[trigger] scored@[a]).1 > (#[trigger] scored@[b]).1
                        || (scored@[a].1 == scored@[b].1 && scored@[a].0 < scored@[b].0),
                    forall|a: int| 0 <= a < scored@.len() ==> (#[trigger] scored@[a]).0 < i && entry_matches(es, pat, scored@[a].0 as int)
                        && scored@[a].1 == entry_score(es, pat, scored@[a].0 as int),
                    forall|j: int| 0 <= j < i && entry_matches(es, pat, j) ==> exists|a: int| 0 <= a < scored@.len() && (#[trigger] scored@[a]).0 == j,
                decreases es.len() - i,
            {
                match fuzzy_match(self.entries[i].attr_name.as_str(), self.input.text()) {
                    Some(s) => {
                        let ghost before = scored@;
                        insert_by_score(&mut scored, i, s);
                        proof {
                            assert forall|a: int| 0 <= a < scored@.len() implies (#[trigger] scored@[a]).0 < i + 1 && entry_matches(es, pat, scored@[a].0 as int)
                                && scored@[a].1 == entry_score(es, pat, scored@[a].0 as int) by {
                                assert(scored@.contains(scored@[a]));
                                if scored@[a] != (i, s) {
                                    let b = choose|b: int| 0 <= b < before.len() && before[b] == scored@[a];
                                }
                            }
                            assert forall|j: int| 0 <= j < i + 1 && entry_matches(es, pat, j) implies exists|a: int| 0 <= a < scored@.len() && (#[trigger] scored@[a]).0 == j by {
                                if j < i {
                                    let b = choose|b: int| 0 <= b < before.len() && (#[trigger] before[b]).0 == j;
                                    assert(before.contains(before[b]));
                                    assert(scored@.contains(before[b]));
                                } else {
                                    assert(scored@.contains((i, s)));
                                }
                            }
                        }
                    },
                    None => {},
                }
                i += 1;
            }
            let mut f: Vec<usize> = Vec::new();
            let mut k: usize = 0;
            while k < scored.len()
                invariant
                    k <= scored@.len(),
                    f@.len() == k,
                    forall|a: int| 0 <= a < k ==> #[trigger] f@[a] == scored@[a].0,
                decreases scored@.len() - k,
            {
                f.push(scored[k].0);
                k += 1;
            }
            proof {
                assert forall|a: int, b: int| 0 <= a < b < f@.len() implies ranks_before(es, pat, #[trigger] f@[a] as int, #[trigger] f@[b] as int) by {
                    assert(scored@[a].1 > scored@[b].1 || (scored@[a].1 == scored@[b].1 && scored@[a].0 < scored@[b].0));
                    assert(scored@.len() > 0);
                }
                assert forall|j: int| 0 <= j < es.len() && entry_matches(es, pat, j) implies f@.contains(j as usize) by {
                    let a = choose|a: int| 0 <= a < scored@.len() && (#[trigger] scored@[a]).0 == j;
                    assert(f@[a] == j);
                }
                assert forall|k2: int| 0 <= k2 < f@.len() implies (#[trigger] f@[k2]) < es.len() && entry_matches(es, pat, f@[k2] as int) by {
                    assert(f@[k2] == scored@[k2].0);
                }
            }
            self.filtered = f;
        }
        let n = self.filtered.len();
        let lim = if n > 1 { n } else { 1 };
        if self.selected >= lim {
            self.selected = 0;
        }
    }

    /// The entry under the selection, if any.
    pub fn selected_entry(&self) -> (r: Option<&PickerEntry>)
        ensures
            r == (if self.selected < self.filtered@.len() && self.filtered@[self.selected as int] < self.entries@.len() {
                Some(&self.entries@[self.filtered@[self.selected as int] as int])
            } else {
                None
            }),
    {
        if self.selected < self.filtered.len() {
            let i = self.filtered[self.selected];
            if i < self.entries.len() {
                return Some(&self.entries[i]);
            }
        }
        None
    }

    pub fn up(&mut self)
        ensures
            final(self).selected == (if old(self).selected > 0 { old(self).selected - 1 } else { 0 }),
            final(self).input == old(self).input,
            final(self).entries == old(self).entries,
            final(self).filtered == old(self).filtered,
    {
        if self.selected > 0 {
            self.selected = self.selected - 1;
        }
    }

    pub fn down(&mut self)
        ensures
            final(self).selected == (if old(self).selected + 1 < old(self).filtered@.len() {
                old(self).selected + 1
            } else {
                old(self).selected as int
            }),
            final(self).input == old(self).input,
            final(self).entries == old(self).entries,
            final(self).filtered == old(self).filtered,
    {
        let n = self.filtered.len();
        let max = if n > 0 { n - 1 } else { 0 };
        if self.selected < max {
            self.selected = self.selected + 1;
        }
    }

    /// Type a char into the filter and refilter.
    pub fn insert_char(&mut self, c: char)
        requires
            old(self).input@.text.len() < usize::MAX,
        ensures
            final(self).input@ == input_insert(old(self).input@, c),
            final(self).entries == old(self).entries,
            filter_result(old(self).entries@, final(self).input@.text, final(self).filtered@),
            final(self).selected == clamp_selected(old(self).selected as int, final(self).filtered@.len() as int),
    {
        self.input.insert(c);
        self.update_filter();
    }

    /// Delete the char before the filter's cursor and refilter.
    pub fn backspace(&mut self)
        ensures
            final(self).input@ == input_backspace(old(self).input@),
            final(self).entries == old(self).entries,
            filter_result(old(self).entries@, final(self).input@.text, final(self).filtered@),
            final(self).selected == clamp_selected(old(self).selected as int, final(self).filtered@.len() as int),
    {
        self.input.backspace();
        self.update_filter();
    }
}

// ── Create-child form ────────────────────────────────────────────────────────

/// One input of the create-child form.
pub struct FormField {
    pub attr: String,
    pub input: TextInput,
}

/// Which slot of the form has focus.
#[derive(PartialEq, Eq, Structural, Clone, Copy, Debug)]
pub enum FormFocus {
    Field(usize),
    Submit,
    Cancel,
}

/// Focus after Tab / ↓: field → next field … → Submit → Cancel → first field.
pub open spec fn focus_next_spec(f: FormFocus, n: int) -> FormFocus {
    match f {
        FormFocus::Field(i) => if i + 1 < n {
            FormFocus::Field((i + 1) as usize)
        } else {
            FormFocus::Submit
        },
        FormFocus::Submit => FormFocus::Cancel,
        FormFocus::Cancel => FormFocus::Field(0),
    }
}

/// Focus after Shift+Tab / ↑: the reverse cycle.
pub open spec fn focus_prev_spec(f: FormFocus, n: int) -> FormFocus {
    match f {
        FormFocus::Field(i) => if i == 0 {
            FormFocus::Cancel
        } else {
            FormFocus::Field((i - 1) as usize)
        },
        FormFocus::Submit => FormFocus::Field(if n > 0 { (n - 1) as usize } else { 0 }),
        FormFocus::Cancel => FormFocus::Submit,
    }
}

/// A focus that names an existing slot.
pub open spec fn focus_valid(f: FormFocus, n: int) -> bool {
    match f {
        FormFocus::Field(i) => i < n,
        _ => true,
    }
}

/// The DN shown while the form is filled in: `attr=value,parent`, with `<...>` for an empty
/// value, or just the parent when there is no RDN attribute.
pub open spec fn dn_preview_spec(fields: Seq<FormField>, rdn_idx: int, parent: Seq<char>) -> Seq<char> {
    let attr = if 0 <= rdn_idx < fields.len() { fields[rdn_idx].attr@ } else { Seq::<char>::empty() };
    let val = if 0 <= rdn_idx < fields.len() { fields[rdn_idx].input@.text } else { Seq::<char>::empty() };
    if attr.len() == 0 {
        parent
    } else if val.len() == 0 {
        attr + "=<...>,"@ + parent
    } else {
        attr + "="@ + val + ","@ + parent
    }
}

/// State of the input form. Holds one TextInput per MUST attribute.
pub struct FormState {
    pub oc_name: String,
    /// objectClass values sent on add (including the SUP chain).
    pub oc_chain: Vec<String>,
    pub fields: Vec<FormField>,
    pub focus: FormFocus,
    /// Index in `fields` of the attribute used as the RDN.
    pub rdn_idx: usize,
}

impl FormState {
    /// Move focus to the next slot via Tab / ↓. Cycles field → Submit → Cancel → first field.
    pub fn focus_next(&mut self)
        ensures
            *final(self) == (FormState { focus: focus_next_spec(old(self).focus, old(self).fields@.len() as int), ..*old(self) }),
    {
        let n = self.fields.len();
        self.focus = match self.focus {
            FormFocus::Field(i) => if n > 0 && i < n - 1 {
                FormFocus::Field(i + 1)
            } else {
                FormFocus::Submit
            },
            FormFocus::Submit => FormFocus::Cancel,
            FormFocus::Cancel => FormFocus::Field(0),
        };
    }

    /// Move focus to the previous slot via Shift+Tab / ↑.
    pub fn focus_prev(&mut self)
        ensures
            *final(self) == (FormState { focus: focus_prev_spec(old(self).focus, old(self).fields@.len() as int), ..*old(self) }),
    {
        let n = self.fields.len();
        self.focus = match self.focus {
            FormFocus::Field(i) => if i == 0 {
                FormFocus::Cancel
            } else {
                FormFocus::Field(i - 1)
            },
            FormFocus::Submit => FormFocus::Field(if n > 0 { n - 1 } else { 0 }),
            FormFocus::Cancel => FormFocus::Submit,
        };
    }

    /// Mutable reference to the TextInput currently in focus.
    pub fn focused_input_mut(&mut self) -> (r: Option<&mut TextInput>)
        ensures
            match old(self).focus {
                FormFocus::Field(i) => if i < old(self).fields@.len() {
                    &&& r is Some
                    &&& *r->0 == old(self).fields@[i as int].input
                    &&& final(self).fields@ == old(self).fields@.update(i as int, FormField { input: *final(r->0), ..old(self).fields@[i as int] })
                    &&& final(self).oc_name == old(self).oc_name
                    &&& final(self).oc_chain == old(self).oc_chain
                    &&& final(self).focus == old(self).focus
                    &&& final(self).rdn_idx == old(self).rdn_idx
                } else {
                    r is None && *final(self) == *old(self)
                },
                _ => r is None && *final(self) == *old(self),
            },
    {
        match self.focus {
            FormFocus::Field(i) => {
                if i < self.fields.len() {
                    Some(&mut self.fields[i].input)
                } else {
                    None
                }
            },
            _ => None,
        }
    }

    /// DN preview: rdn_attr=rdn_value,parent_dn
    pub fn dn_preview(&self, parent_dn: &str) -> (r: String)
        ensures
            r@ == dn_preview_spec(self.fields@, self.rdn_idx as int, parent_dn@),
    {
        let (attr, val): (&str, &str) = if self.rdn_idx < self.fields.len() {
            (self.fields[self.rdn_idx].attr.as_str(), self.fields[self.rdn_idx].input.text())
        } else {
            ("", "")
        };
        proof {
            reveal_strlit("");
        }
        let mut out = String::new();
        if attr.is_empty() {
            push_all(&mut out, parent_dn);
        } else if val.is_empty() {
            push_all(&mut out, attr);
            push_all(&mut out, "=<...>,");
            push_all(&mut out, parent_dn);
        } else {
            push_all(&mut out, attr);
            push_all(&mut out, "=");
            push_all(&mut out, val);
            push_all(&mut out, ",");
            push_all(&mut out, parent_dn);
        }
        out
    }
}

/// The first index at or after `k` whose entry name equals `name` up to ASCII case, or the length.
pub open spec fn position_ci_from(entries: Seq<PickerEntry>, name: Seq<char>, k: int) -> int
    decreases entries.len() - k,
{
    if k < 0 || k >= entries.len() {
        entries.len() as int
    } else if eq_ignore_ascii_case(entries[k].attr_name@, name) {
        k
    } else {
        position_ci_from(entries, name, k + 1)
    }
}

/// The initial highlight of the RDN picker: the first of cn, ou, uid, dc that is offered
/// (compared ignoring ASCII case), else the first entry.
pub open spec fn rdn_initial_spec(entries: Seq<PickerEntry>) -> int {
    if position_ci_from(entries, "cn"@, 0) < entries.len() {
        position_ci_from(entries, "cn"@, 0)
    } else if position_ci_from(entries, "ou"@, 0) < entries.len() {
        position_ci_from(entries, "ou"@, 0)
    } else if position_ci_from(entries, "uid"@, 0) < entries.len() {
        position_ci_from(entries, "uid"@, 0)
    } else if position_ci_from(entries, "dc"@, 0) < entries.len() {
        position_ci_from(entries, "dc"@, 0)
    } else {
        0
    }
}

fn position_ci(entries: &[PickerEntry], name: &str) -> (r: usize)
    ensures
        r == position_ci_from(entries@, name@, 0),
{
    let mut i: usize = 0;
    while i < entries.len()
        invariant
            i <= entries@.len(),
            position_ci_from(entries@, name@, i as int) == position_ci_from(entries@, name@, 0),
        decreases entries@.len() - i,
    {
        if str_eq_ignore_ascii_case(entries[i].attr_name.as_str(), name) {
            return i;
        }
        i += 1;
    }
    i
}

/// Choose the initial highlight (`PickerState::selected`) from the RDN picker candidates.
/// Priority: cn → ou → uid → dc → first. Brings the conventional RDN attribute to the top if present.
pub fn pick_rdn_initial(entries: &[PickerEntry]) -> (r: usize)
    ensures
        r == rdn_initial_spec(entries@),
{
    let n = entries.len();
    let p = position_ci(entries, "cn");
    if p < n {
        return p;
    }
    let p = position_ci(entries, "ou");
    if p < n {
        return p;
    }
    let p = position_ci(entries, "uid");
    if p < n {
        return p;
    }
    let p = position_ci(entries, "dc");
    if p < n {
        return p;
    }
    0
}

/// State for the RDN-attribute selection phase: one attribute, chosen with fuzzy filtering
/// from MUST ∪ MAY (excluding objectClass / operational attributes).
pub struct RdnPickState {
    pub oc_name: String,
    /// objectClass values sent on add (including the SUP chain), carried to the form.
    pub oc_chain: Vec<String>,
    pub picker: PickerState,
}

/// The phases of the create-child wizard.
pub enum CreatePhase {
    /// Pick a STRUCTURAL objectClass (picker).
    PickOc(PickerState),
    /// Pick the attribute used as the new entry's RDN.
    PickRdn(RdnPickState),
    /// Form for entering MUST attribute values.
    Form(FormState),
}

/// State for the "create child entry" wizard triggered by `a` in the tree pane.
pub struct CreateChildState {
    pub parent_dn: String,
    pub phase: CreatePhase,
}

// ── Dialog payloads ──────────────────────────────────────────────────────────

/// The already-fetched child list, held while the user answers the y/N prompt for a large expansion.
pub struct PendingExpansion {
    pub dn: String,
    pub children: Vec<ChildNode>,
}

/// State of the objectClass deletion confirmation dialog.
pub struct OcDeleteState {
    pub oc_name: String,
    /// (attr, value) pairs governed only by the objectClass being deleted.
    pub orphaned: Vec<(String, String)>,
}

/// State of the tree-entry deletion confirmation dialog.
pub struct EntryDeleteState {
    pub dn: String,
    /// The server refuses to delete an entry with subordinates; the dialog warns about it.
    pub has_children: bool,
}

// ── Selection lists ──────────────────────────────────────────────────────────

/// The selection after ↑ in a list: one up, and the top when nothing was selected.
pub open spec fn list_up(sel: Option<usize>) -> Option<usize> {
    match sel {
        Some(i) => Some(if i > 0 { (i - 1) as usize } else { 0 }),
        None => Some(0),
    }
}

/// The selection after ↓ in a list of `n` items: one down, stopping on the last item.
pub open spec fn list_down(sel: Option<usize>, n: int) -> Option<usize> {
    match sel {
        Some(i) => Some(if i + 1 < n { (i + 1) as usize } else if n > 0 { (n - 1) as usize } else { 0 }),
        None => Some(0),
    }
}

fn list_up_exec(sel: Option<usize>) -> (r: Option<usize>)
    ensures
        r == list_up(sel),
{
    match sel {
        Some(i) => Some(if i > 0 { i - 1 } else { 0 }),
        None => Some(0),
    }
}

fn list_down_exec(sel: Option<usize>, n: usize) -> (r: Option<usize>)
    ensures
        r == list_down(sel, n as int),
{
    match sel {
        Some(i) => Some(if n > 0 && i < n - 1 { i + 1 } else if n > 0 { n - 1 } else { 0 }),
        None => Some(0),
    }
}

/// Choosing one of several naming contexts at startup.
pub struct SuffixSelection {
    pub candidates: Vec<String>,
    /// The highlighted candidate.
    pub selected: Option<usize>,
}

impl SuffixSelection {
    pub fn new(candidates: Vec<String>) -> (r: Self)
        ensures
            r.candidates == candidates,
            r.selected == (if candidates@.len() > 0 { Some(0usize) } else { None }),
    {
        let selected = if candidates.len() > 0 { Some(0) } else { None };
        SuffixSelection { candidates, selected }
    }

    pub fn up(&mut self)
        ensures
            final(self).candidates == old(self).candidates,
            final(self).selected == list_up(old(self).selected),
    {
        self.selected = list_up_exec(self.selected);
    }

    pub fn down(&mut self)
        ensures
            final(self).candidates == old(self).candidates,
            final(self).selected == list_down(old(self).selected, old(self).candidates@.len() as int),
    {
        self.selected = list_down_exec(self.selected, self.candidates.len());
    }

    pub fn selected(&self) -> (r: Option<&String>)
        ensures
            r == (match self.selected {
                Some(i) => if i < self.candidates@.len() { Some(&self.candidates@[i as int]) } else { None },
                None => None,
            }),
    {
        match self.selected {
            Some(i) => if i < self.candidates.len() {
                Some(&self.candidates[i])
            } else {
                None
            },
            None => None,
        }
    }
}

/// Search state shared by the filter input and the result list.
pub struct SearchState {
    pub input: TextInput,
    pub results: Vec<String>,
    /// The highlighted result.
    pub selected: Option<usize>,
}

impl SearchState {
    pub fn new() -> (r: Self)
        ensures
            r.input@ == (InputView { text: Seq::empty(), cursor: 0 }),
            r.results@ == Seq::<String>::empty(),
            r.selected is None,
    {
        SearchState { input: TextInput::new(), results: Vec::new(), selected: None }
    }

    /// Replace the results; the first one is selected when there is one.
    pub fn set_results(&mut self, results: Vec<String>)
        ensures
            final(self).input == old(self).input,
            final(self).results == results,
            final(self).selected == (if results@.len() > 0 { Some(0usize) } else { None }),
    {
        self.selected = if results.len() > 0 { Some(0) } else { None };
        self.results = results;
    }

    pub fn up(&mut self)
        ensures
            final(self).input == old(self).input,
            final(self).results == old(self).results,
            final(self).selected == list_up(old(self).selected),
    {
        self.selected = list_up_exec(self.selected);
    }

    pub fn down(&mut self)
        ensures
            final(self).input == old(self).input,
            final(self).results == old(self).results,
            final(self).selected == list_down(old(self).selected, old(self).results@.len() as int),
    {
        self.selected = list_down_exec(self.selected, self.results.len());
    }

    /// The DN of the highlighted result.
    pub fn selected_dn(&self) -> (r: Option<String>)
        ensures
            match self.selected {
                Some(i) => if i < self.results@.len() { r == Some(self.results@[i as int]) } else { r is None },
                None => r is None,
            },
    {
        match self.selected {
            Some(i) => if i < self.results.len() {
                Some(self.results[i].clone())
            } else {
                None
            },
            None => None,
        }
    }

    pub fn reset_input(&mut self)
        ensures
            final(self).input@ == (InputView { text: Seq::empty(), cursor: 0 }),
            final(self).results == old(self).results,
            final(self).selected == old(self).selected,
    {
        self.input.clear();
    }
}

impl Default for SearchState {
    fn default() -> (r: Self)
        ensures
            r.input@ == (InputView { text: Seq::empty(), cursor: 0 }),
            r.results@ == Seq::<String>::empty(),
            r.selected is None,
    {
        SearchState::new()
    }
}

// ── Mode ─────────────────────────────────────────────────────────────────────

/// The editor's main state machine. Each mode carries the state it needs as a payload.
pub enum Mode {
    /// Normal tree + detail view.
    Browse,
    /// Editing the search filter opened by `/`.
    SearchInput,
    /// Showing the list of search hits.
    SearchResults,
    /// Pick one of several namingContexts at startup.
    SelectSuffix(SuffixSelection),
    /// e/a/d overlay shown when pressing `Enter` on a detail-pane row.
    ActionDialog,
    /// Edit an existing attribute value.
    EditValue(EditState),
    /// Add a new attribute value.
    AddValue(EditState),
    /// Typing an attribute name manually (when the picker is not used).
    AddAttrName(EditState),
    /// y/N confirmation for deleting an attribute value.
    ConfirmDelete(EditState),
    /// y/N confirmation when expanding more than 100 children.
    ConfirmExpand(PendingExpansion),
    /// Picker for adding an attribute.
    Picker(PickerState),
    /// Picker for adding an objectClass.
    OcPicker(PickerState),
    /// objectClass deletion confirmation (with the list of orphaned attributes).
    ConfirmOcDelete(OcDeleteState),
    /// y/N confirmation for deleting the entry selected in the tree.
    ConfirmEntryDelete(EntryDeleteState),
    /// Wizard for creating a new entry directly under the tree's selected entry.
    CreateChild(CreateChildState),
}

/// Whether a mode carries an `EditState`.
pub open spec fn has_edit_state(m: Mode) -> bool {
    m is EditValue || m is AddValue || m is AddAttrName || m is ConfirmDelete
}

impl Mode {
    /// Mutable reference to the EditState of an editing mode.
    pub fn edit_state_mut(&mut self) -> (r: Option<&mut EditState>)
        ensures
            r is Some <==> has_edit_state(*old(self)),
            match *old(self) {
                Mode::EditValue(es) => *r->0 == es && *final(self) == Mode::EditValue(*final(r->0)),
                Mode::AddValue(es) => *r->0 == es && *final(self) == Mode::AddValue(*final(r->0)),
                Mode::AddAttrName(es) => *r->0 == es && *final(self) == Mode::AddAttrName(*final(r->0)),
                Mode::ConfirmDelete(es) => *r->0 == es && *final(self) == Mode::ConfirmDelete(*final(r->0)),
                _ => *final(self) == *old(self),
            },
    {
        match self {
            Mode::EditValue(es) => Some(es),
            Mode::AddValue(es) => Some(es),
            Mode::AddAttrName(es) => Some(es),
            Mode::ConfirmDelete(es) => Some(es),
            _ => None,
        }
    }
}

// ── Laws ─────────────────────────────────────────────────────────────────────

/// Shift+Tab undoes Tab on the form: from any existing slot, the next slot's previous slot is
/// the slot itself.
pub proof fn law_focus_prev_undoes_next(f: FormFocus, n: int)
    requires
        0 <= n <= usize::MAX,
        focus_valid(f, n),
    ensures
        focus_prev_spec(focus_next_spec(f, n), n) == f,
{
}

/// Tab undoes Shift+Tab on the form.
pub proof fn law_focus_next_undoes_prev(f: FormFocus, n: int)
    requires
        0 <= n <= usize::MAX,
        focus_valid(f, n),
    ensures
        focus_next_spec(focus_prev_spec(f, n), n) == f,
{
}

/// The focus after `k` presses of Tab.
pub open spec fn focus_after(f: FormFocus, n: int, k: nat) -> FormFocus
    decreases k,
{
    if k == 0 {
        f
    } else {
        focus_after(focus_next_spec(f, n), n, (k - 1) as nat)
    }
}

/// The `p`-th slot of the Tab cycle: the fields, then Submit, then Cancel.
pub open spec fn focus_slot(p: int, n: int) -> FormFocus {
    if p < n {
        FormFocus::Field(p as usize)
    } else if p == n {
        FormFocus::Submit
    } else {
        FormFocus::Cancel
    }
}

/// The position of a focus in the Tab cycle.
pub open spec fn slot_of(f: FormFocus, n: int) -> int {
    match f {
        FormFocus::Field(i) => i as int,
        FormFocus::Submit => n,
        FormFocus::Cancel => n + 1,
    }
}

proof fn lemma_focus_after_split(f: FormFocus, n: int, a: nat, b: nat)
    ensures
        focus_after(f, n, a + b) == focus_after(focus_after(f, n, a), n, b),
    decreases a,
{
    if a > 0 {
        lemma_focus_after_split(focus_next_spec(f, n), n, (a - 1) as nat, b);
        assert((a + b - 1) as nat == (a - 1) as nat + b);
    }
}

proof fn lemma_focus_walk(p: int, n: int, k: nat)
    requires
        0 <= p,
        p + k <= n + 1,
        n <= usize::MAX,
    ensures
        focus_after(focus_slot(p, n), n, k) == focus_slot(p + k, n),
    decreases k,
{
    if k > 0 {
        assert(focus_next_spec(focus_slot(p, n), n) == focus_slot(p + 1, n));
        lemma_focus_walk(p + 1, n, (k - 1) as nat);
    }
}

/// Pressing Tab once per field plus twice (for Submit and Cancel) brings the focus back to
/// where it started.
pub proof fn law_focus_cycle(f: FormFocus, n: int)
    requires
        1 <= n <= usize::MAX,
        focus_valid(f, n),
    ensures
        focus_after(f, n, (n + 2) as nat) == f,
{
    let p = slot_of(f, n);
    assert(focus_slot(p, n) == f);
    let a = (n + 1 - p) as nat;
    lemma_focus_after_split(f, n, a, (p + 1) as nat);
    assert(a + (p + 1) as nat == (n + 2) as nat);
    lemma_focus_walk(p, n, a);
    assert(focus_after(f, n, a) == FormFocus::Cancel);
    assert(focus_after(FormFocus::Cancel, n, (p + 1) as nat) == focus_after(FormFocus::Field(0), n, p as nat));
    lemma_focus_walk(0, n, p as nat);
}

/// Tab and Shift+Tab always land on an existing slot.
pub proof fn law_focus_stays_valid(f: FormFocus, n: int)
    requires
        0 < n <= usize::MAX,
        focus_valid(f, n),
    ensures
        focus_valid(focus_next_spec(f, n), n),
        focus_valid(focus_prev_spec(f, n), n),
{
}

/// After refiltering, the picker's selection lies on the list, or is the top (0) when the
/// list is empty.
pub proof fn law_refilter_selection_in_range(selected: int, n: int)
    requires
        0 <= selected,
        0 <= n,
    ensures
        0 <= clamp_selected(selected, n),
        n > 0 ==> clamp_selected(selected, n) < n,
        n == 0 ==> clamp_selected(selected, n) == 0,
{
}

/// ↑ and ↓ in a non-empty result or suffix list always select an item of the list.
pub proof fn law_list_moves_stay_in_range(sel: Option<usize>, n: int)
    requires
        0 < n <= usize::MAX,
    ensures
        list_up(sel) is Some,
        list_down(sel, n) is Some,
        sel matches Some(i) && i < n ==> list_up(sel)->0 < n,
        list_down(sel, n)->0 < n,
{
}

/// ↓ then ↑ returns to the same item, unless it was the last one.
pub proof fn law_list_down_then_up(i: usize, n: int)
    requires
        i + 1 < n <= usize::MAX,
    ensures
        list_up(list_down(Some(i), n)) == Some(i),
{
}

} // verus!
