//! What the editor's actions send to the directory: attribute modifications, the entry of a
//! new child, and the attributes that an objectClass deletion leaves without a class.
use vstd::prelude::*;

use crate::model::{contains_str, existing_names, objectclass_lower, objectclass_string, InputView, LdapEntry, TextInput};
use crate::schema::types::PickerEntry;
use crate::state::{FormField, FormFocus, FormState};
use crate::schema::cache::SchemaCache;
use crate::schema::closure::{may_of, must_of, sup_chain_keys};
use crate::sorted::strictly_sorted;
use crate::text::{
    push_all, copy_string, eq_ignore_ascii_case, lemma_str_lt_trans, lowercase, str_eq, str_eq_ignore_ascii_case, str_lt, to_lower, trim, trim_quotes,
    trim_quotes_spec, trim_spec, views,
};

verus! {

broadcast use {vstd::seq_lib::group_filter_ensures, vstd::set::group_set_axioms, vstd::seq::Seq::lemma_push_to_set_commute};

// ── Orphaned attributes ──────────────────────────────────────────────────────

/// The MUST and MAY attributes of an objectClass, across its SUP chain.
pub open spec fn attrs_of(m: Map<Seq<char>, crate::schema::types::ObjectClassView>, oc: Seq<char>) -> Set<Seq<char>> {
    must_of(m, sup_chain_keys(m, oc)).union(may_of(m, sup_chain_keys(m, oc)))
}

/// The attribute names (lower case) that the entry's remaining objectClasses allow once
/// `del` is deleted: every MUST/MAY attribute of every other objectClass value, plus objectClass.
pub open spec fn supported_attrs(m: Map<Seq<char>, crate::schema::types::ObjectClassView>, oc_values: Seq<Seq<char>>, del: Seq<char>) -> Set<Seq<char>> {
    Set::new(|x: Seq<char>| x == objectclass_lower() || exists|i: int| 0 <= i < oc_values.len() && !eq_ignore_ascii_case(oc_values[i], del)
        && #[trigger] attrs_of(m, oc_values[i]).contains(x))
}

/// Whether a row is orphaned by the deletion: its lower-cased name is no longer supported.
pub open spec fn row_orphaned(supported: Set<Seq<char>>) -> spec_fn((String, String)) -> bool {
    |r: (String, String)| !supported.contains(lowercase(r.0@))
}

/// Compute the attribute rows that become orphaned when an objectClass is deleted: those whose
/// lower-cased name no remaining objectClass (compared ignoring ASCII case) allows, in row order.
pub fn orphaned_attrs_for_oc_delete(
    attr_rows: &[(String, String)],
    oc_values: &[String],
    oc_to_delete: &str,
    schema: &SchemaCache,
) -> (r: Vec<(String, String)>)
    ensures
        r@ == attr_rows@.filter(row_orphaned(supported_attrs(schema.ocs(), views(oc_values@), oc_to_delete@))),
{
    let ghost m = schema.ocs();
    let ghost ocs = views(oc_values@);
    let mut supported: Vec<String> = Vec::new();
    supported.push(objectclass_string());
    let mut i: usize = 0;
    assert(views(supported@).to_set() =~= supported_attrs(m, ocs.take(0), oc_to_delete@)) by {
        assert(views(supported@) =~= seq![objectclass_lower()]);
    }
    while i < oc_values.len()
        invariant
            m == schema.ocs(),
            ocs == views(oc_values@),
            i <= ocs.len(),
            views(supported@).to_set() == supported_attrs(m, ocs.take(i as int), oc_to_delete@),
        decreases ocs.len() - i,
    {
        let ghost before = views(supported@);
        let ghost t = ocs.take(i as int + 1);
        assert(ocs[i as int] == oc_values@[i as int]@);
        if !str_eq_ignore_ascii_case(oc_values[i].as_str(), oc_to_delete) {
            let (must, may) = schema.expanded_attrs(oc_values[i].as_str());
            let mut k: usize = 0;
            while k < must.len()
                invariant
                    k <= must@.len(),
                    views(supported@).to_set() == before.to_set().union(views(must@).take(k as int).to_set()),
                decreases must@.len() - k,
            {
                let ghost b2 = views(supported@);
                supported.push(copy_string(&must[k]));
                assert(views(supported@) =~= b2.push(must@[k as int]@));
                assert(views(must@).take(k as int + 1) =~= views(must@).take(k as int).push(must@[k as int]@));
                assert(views(supported@).to_set() =~= before.to_set().union(views(must@).take(k as int + 1).to_set()));
                k += 1;
            }
            assert(views(must@).take(must@.len() as int) =~= views(must@));
            let ghost mid = views(supported@);
            let mut k: usize = 0;
            while k < may.len()
                invariant
                    k <= may@.len(),
                    views(supported@).to_set() == mid.to_set().union(views(may@).take(k as int).to_set()),
                decreases may@.len() - k,
            {
                let ghost b2 = views(supported@);
                supported.push(copy_string(&may[k]));
                assert(views(supported@) =~= b2.push(may@[k as int]@));
                assert(views(may@).take(k as int + 1) =~= views(may@).take(k as int).push(may@[k as int]@));
                assert(views(supported@).to_set() =~= mid.to_set().union(views(may@).take(k as int + 1).to_set()));
                k += 1;
            }
            assert(views(may@).take(may@.len() as int) =~= views(may@));
            assert(views(supported@).to_set() =~= supported_attrs(m, t, oc_to_delete@)) by {
                assert forall|x: Seq<char>| supported_attrs(m, t, oc_to_delete@).contains(x) implies views(supported@).to_set().contains(x) by {
                    if x != objectclass_lower() {
                        let j = choose|j: int| 0 <= j < t.len() && !eq_ignore_ascii_case(t[j], oc_to_delete@) && #[trigger] attrs_of(m, t[j]).contains(x);
                        if j < i {
                            assert(ocs.take(i as int)[j] == t[j]);
                            assert(supported_attrs(m, ocs.take(i as int), oc_to_delete@).contains(x));
                        }
                    } else {
                        assert(supported_attrs(m, ocs.take(i as int), oc_to_delete@).contains(x));
                    }
                }
                assert forall|x: Seq<char>| views(supported@).to_set().contains(x) implies supported_attrs(m, t, oc_to_delete@).contains(x) by {
                    if before.to_set().contains(x) {
                        if x != objectclass_lower() {
                            let j = choose|j: int| 0 <= j < ocs.take(i as int).len() && !eq_ignore_ascii_case(ocs.take(i as int)[j], oc_to_delete@) && #[trigger] attrs_of(m, ocs.take(i as int)[j]).contains(x);
                            assert(t[j] == ocs.take(i as int)[j]);
                        }
                    } else {
                        assert(attrs_of(m, t[i as int]).contains(x));
                    }
                }
            }
        } else {
            assert(views(supported@).to_set() =~= supported_attrs(m, t, oc_to_delete@)) by {
                assert forall|x: Seq<char>| supported_attrs(m, t, oc_to_delete@).contains(x) implies views(supported@).to_set().contains(x) by {
                    if x != objectclass_lower() {
                        let j = choose|j: int| 0 <= j < t.len() && !eq_ignore_ascii_case(t[j], oc_to_delete@) && #[trigger] attrs_of(m, t[j]).contains(x);
                        assert(j < i);
                        assert(ocs.take(i as int)[j] == t[j]);
                        assert(supported_attrs(m, ocs.take(i as int), oc_to_delete@).contains(x));
                    } else {
                        assert(supported_attrs(m, ocs.take(i as int), oc_to_delete@).contains(x));
                    }
                }
                assert forall|x: Seq<char>| views(supported@).to_set().contains(x) implies supported_attrs(m, t, oc_to_delete@).contains(x) by {
                    if x != objectclass_lower() {
                        let j = choose|j: int| 0 <= j < ocs.take(i as int).len() && !eq_ignore_ascii_case(ocs.take(i as int)[j], oc_to_delete@) && #[trigger] attrs_of(m, ocs.take(i as int)[j]).contains(x);
                        assert(t[j] == ocs.take(i as int)[j]);
                    }
                }
            }
        }
        i += 1;
    }
    assert(ocs.take(ocs.len() as int) =~= ocs);
    let ghost sup = supported_attrs(m, ocs, oc_to_delete@);
    let ghost pred = row_orphaned(sup);
    let mut r: Vec<(String, String)> = Vec::new();
    let mut j: usize = 0;
    assert(attr_rows@.take(0).filter(pred) =~= Seq::<(String, String)>::empty()) by {
        reveal(Seq::filter);
    }
    while j < attr_rows.len()
        invariant
            j <= attr_rows@.len(),
            views(supported@).to_set() == sup,
            pred == row_orphaned(sup),
            r@ == attr_rows@.take(j as int).filter(pred),
        decreases attr_rows@.len() - j,
    {
        let lc = to_lower(attr_rows[j].0.as_str());
        let keep = !contains_str(&supported, lc.as_str());
        assert(attr_rows@.take(j as int + 1).drop_last() =~= attr_rows@.take(j as int));
        assert(attr_rows@.take(j as int + 1).last() == attr_rows@[j as int]);
        assert(attr_rows@.take(j as int + 1).filter(pred) == if pred(attr_rows@[j as int]) {
            attr_rows@.take(j as int).filter(pred).push(attr_rows@[j as int])
        } else {
            attr_rows@.take(j as int).filter(pred)
        }) by {
            reveal(Seq::filter);
        }
        if keep {
            let row = (attr_rows[j].0.clone(), attr_rows[j].1.clone());
            r.push(row);
        }
        j += 1;
    }
    assert(attr_rows@.take(attr_rows@.len() as int) =~= attr_rows@);
    r
}

// ── Modifications ────────────────────────────────────────────────────────────

/// One attribute modification: add or delete values (deleting no value deletes them all).
pub enum ModOp {
    Add(String, Vec<String>),
    Delete(String, Vec<String>),
}

/// Model of a modification.
pub enum ModView {
    Add(Seq<char>, Seq<Seq<char>>),
    Delete(Seq<char>, Seq<Seq<char>>),
}

impl View for ModOp {
    type V = ModView;

    open spec fn view(&self) -> ModView {
        match self {
            ModOp::Add(a, vs) => ModView::Add(a@, views(vs@)),
            ModOp::Delete(a, vs) => ModView::Delete(a@, views(vs@)),
        }
    }
}

pub open spec fn mod_views(v: Seq<ModOp>) -> Seq<ModView> {
    v.map_values(|m: ModOp| m@)
}

/// The value set holding exactly `v`.
pub fn one_val(v: String) -> (r: Vec<String>)
    ensures
        r@ == seq![v],
{
    let mut s: Vec<String> = Vec::new();
    s.push(v);
    s
}

/// The name "objectClass" as the directory spells it.
pub open spec fn objectclass_attr() -> Seq<char> {
    seq!['o', 'b', 'j', 'e', 'c', 't', 'C', 'l', 'a', 's', 's']
}

pub fn objectclass_attr_string() -> (r: String)
    ensures
        r@ == objectclass_attr(),
{
    let cs: Vec<char> = vec!['o', 'b', 'j', 'e', 'c', 't', 'C', 'l', 'a', 's', 's'];
    let r = crate::text::string_of(cs.as_slice());
    assert(r@ =~= objectclass_attr());
    r
}

/// Replace one value of an attribute: delete the old value, add the new one.
pub fn edit_value_mods(attr: &String, old_value: &String, new_value: String) -> (r: Vec<ModOp>)
    ensures
        mod_views(r@) == seq![ModView::Delete(attr@, seq![old_value@]), ModView::Add(attr@, seq![new_value@])],
{
    let ghost nv = new_value@;
    let old_vals = one_val(copy_string(old_value));
    assert(views(old_vals@) =~= seq![old_value@]);
    let new_vals = one_val(new_value);
    assert(views(new_vals@) =~= seq![nv]);
    let mut r: Vec<ModOp> = Vec::new();
    r.push(ModOp::Delete(copy_string(attr), old_vals));
    r.push(ModOp::Add(copy_string(attr), new_vals));
    assert(mod_views(r@) =~= seq![ModView::Delete(attr@, seq![old_value@]), ModView::Add(attr@, seq![nv])]);
    r
}

/// Add one value to an attribute.
pub fn add_value_mods(attr: &String, new_value: String) -> (r: Vec<ModOp>)
    ensures
        mod_views(r@) == seq![ModView::Add(attr@, seq![new_value@])],
{
    let ghost nv = new_value@;
    let new_vals = one_val(new_value);
    assert(views(new_vals@) =~= seq![nv]);
    let mut r: Vec<ModOp> = Vec::new();
    r.push(ModOp::Add(copy_string(attr), new_vals));
    assert(mod_views(r@) =~= seq![ModView::Add(attr@, seq![nv])]);
    r
}

/// Delete one value of an attribute.
pub fn delete_value_mods(attr: &String, old_value: &String) -> (r: Vec<ModOp>)
    ensures
        mod_views(r@) == seq![ModView::Delete(attr@, seq![old_value@])],
{
    let old_vals = one_val(copy_string(old_value));
    assert(views(old_vals@) =~= seq![old_value@]);
    let mut r: Vec<ModOp> = Vec::new();
    r.push(ModOp::Delete(copy_string(attr), old_vals));
    assert(mod_views(r@) =~= seq![ModView::Delete(attr@, seq![old_value@])]);
    r
}

/// Add an objectClass value.
pub fn oc_add_mods(oc_name: &String) -> (r: Vec<ModOp>)
    ensures
        mod_views(r@) == seq![ModView::Add(objectclass_attr(), seq![oc_name@])],
{
    let vals = one_val(copy_string(oc_name));
    assert(views(vals@) =~= seq![oc_name@]);
    let mut r: Vec<ModOp> = Vec::new();
    r.push(ModOp::Add(objectclass_attr_string(), vals));
    assert(mod_views(r@) =~= seq![ModView::Add(objectclass_attr(), seq![oc_name@])]);
    r
}

/// Row `k` is the first whose name has its lower-cased form.
pub open spec fn first_of_its_name(rows: Seq<(String, String)>, k: int) -> bool {
    forall|j: int| 0 <= j < k ==> lowercase(#[trigger] rows[j].0@) != lowercase(rows[k].0@)
}

/// The names of the first `n` rows, each lower-cased name once (its first spelling), in order.
pub open spec fn distinct_names(rows: Seq<(String, String)>, n: int) -> Seq<Seq<char>>
    decreases n,
{
    if n <= 0 {
        Seq::empty()
    } else {
        distinct_names(rows, n - 1) + if first_of_its_name(rows, n - 1) {
            seq![rows[n - 1].0@]
        } else {
            Seq::empty()
        }
    }
}

/// Delete an objectClass value together with all values of every orphaned attribute, each
/// attribute once.
pub fn oc_delete_mods(oc_name: &String, orphaned: &Vec<(String, String)>) -> (r: Vec<ModOp>)
    ensures
        mod_views(r@) == seq![ModView::Delete(objectclass_attr(), seq![oc_name@])] + distinct_names(orphaned@, orphaned@.len() as int).map_values(
            |a: Seq<char>| ModView::Delete(a, Seq::empty()),
        ),
{
    let vals = one_val(copy_string(oc_name));
    assert(views(vals@) =~= seq![oc_name@]);
    let mut r: Vec<ModOp> = Vec::new();
    r.push(ModOp::Delete(objectclass_attr_string(), vals));
    let ghost head = seq![ModView::Delete(objectclass_attr(), seq![oc_name@])];
    let ghost rows = orphaned@;
    assert(mod_views(r@) =~= head + distinct_names(rows, 0).map_values(|a: Seq<char>| ModView::Delete(a, Seq::empty())));
    let mut seen: Vec<String> = Vec::new();
    let mut i: usize = 0;
    while i < orphaned.len()
        invariant
            rows == orphaned@,
            i <= rows.len(),
            forall|x: Seq<char>| #[trigger] views(seen@).contains(x) <==> exists|j: int| 0 <= j < i && lowercase(#[trigger] rows[j].0@) == x,
            mod_views(r@) == head + distinct_names(rows, i as int).map_values(|a: Seq<char>| ModView::Delete(a, Seq::empty())),
        decreases rows.len() - i,
    {
        let lc = to_lower(orphaned[i].0.as_str());
        let fresh = !contains_str(&seen, lc.as_str());
        assert(fresh == first_of_its_name(rows, i as int)) by {
            if !fresh {
                let j = choose|j: int| 0 <= j < i && lowercase(#[trigger] rows[j].0@) == lc@;
            }
        }
        let ghost before = mod_views(r@);
        let ghost bs = views(seen@);
        if fresh {
            let none: Vec<String> = Vec::new();
            assert(views(none@) =~= Seq::<Seq<char>>::empty());
            r.push(ModOp::Delete(copy_string(&orphaned[i].0), none));
            assert(mod_views(r@) =~= before.push(ModView::Delete(rows[i as int].0@, Seq::empty())));
            seen.push(lc);
            assert(views(seen@) =~= bs.push(lowercase(rows[i as int].0@)));
        }
        assert(distinct_names(rows, i as int + 1) == distinct_names(rows, i as int) + if first_of_its_name(rows, i as int) {
            seq![rows[i as int].0@]
        } else {
            Seq::empty()
        });
        assert(mod_views(r@) =~= head + distinct_names(rows, i as int + 1).map_values(|a: Seq<char>| ModView::Delete(a, Seq::empty())));
        assert forall|x: Seq<char>| #[trigger] views(seen@).contains(x) <==> exists|j: int| 0 <= j < i + 1 && lowercase(#[trigger] rows[j].0@) == x by {
            if views(seen@).contains(x) && !bs.contains(x) {
                assert(lowercase(rows[i as int].0@) == x);
            }
            if exists|j: int| 0 <= j < i + 1 && lowercase(#[trigger] rows[j].0@) == x {
                let j = choose|j: int| 0 <= j < i + 1 && lowercase(#[trigger] rows[j].0@) == x;
                if j < i {
                    assert(bs.contains(x));
                    if fresh {
                        let k = choose|k: int| 0 <= k < bs.len() && bs[k] == x;
                        assert(views(seen@)[k] == x);
                    }
                } else if fresh {
                    assert(views(seen@)[bs.len() as int] == x);
                } else {
                    assert(bs.contains(lc@));
                }
            }
        }
        i += 1;
    }
    r
}

// ── Search filter ────────────────────────────────────────────────────────────

/// The filter sent to the directory: surrounding white space and single quotes removed.
pub open spec fn normalized_filter_spec(text: Seq<char>) -> Seq<char> {
    trim_spec(trim_quotes_spec(trim_spec(text)))
}

/// Normalize a typed search filter (trim, strip surrounding quotes, trim again).
pub fn normalize_filter(text: &str) -> (r: String)
    ensures
        r@ == normalized_filter_spec(text@),
{
    let a = trim(text);
    let b = trim_quotes(a.as_str());
    trim(b.as_str())
}

/// Deleting an objectClass never takes away a value whose attribute another remaining
/// objectClass of the entry allows (MUST or MAY, across its SUP chain).
pub proof fn law_shared_attrs_survive_oc_delete(
    rows: Seq<(String, String)>,
    oc_values: Seq<Seq<char>>,
    del: Seq<char>,
    m: Map<Seq<char>, crate::schema::types::ObjectClassView>,
    i: int,
    j: int,
)
    requires
        0 <= i < rows.len(),
        0 <= j < oc_values.len(),
        !eq_ignore_ascii_case(oc_values[j], del),
        attrs_of(m, oc_values[j]).contains(lowercase(rows[i].0@)),
    ensures
        !rows.filter(row_orphaned(supported_attrs(m, oc_values, del))).contains(rows[i]),
{
    let sup = supported_attrs(m, oc_values, del);
    assert(sup.contains(lowercase(rows[i].0@)));
    let orphans = rows.filter(row_orphaned(sup));
    if orphans.contains(rows[i]) {
        let k = choose|k: int| 0 <= k < orphans.len() && orphans[k] == rows[i];
        assert(row_orphaned(sup)(orphans[k]));
    }
}

/// Every value of an attribute that no remaining objectClass allows is listed as orphaned
/// (all values of a multi-valued attribute, not only the first).
pub proof fn law_unsupported_values_all_orphaned(
    rows: Seq<(String, String)>,
    oc_values: Seq<Seq<char>>,
    del: Seq<char>,
    m: Map<Seq<char>, crate::schema::types::ObjectClassView>,
    i: int,
)
    requires
        0 <= i < rows.len(),
        !supported_attrs(m, oc_values, del).contains(lowercase(rows[i].0@)),
    ensures
        rows.filter(row_orphaned(supported_attrs(m, oc_values, del))).contains(rows[i]),
{
    let sup = supported_attrs(m, oc_values, del);
    assert(row_orphaned(sup)(rows[i]));
}

// ── MUST attributes still to fill ────────────────────────────────────────────

/// Queue the MUST attributes (expanded across the SUP chain) of a newly added objectClass
/// that the entry does not have yet, in ascending order.
pub fn missing_must_attrs(entry: &LdapEntry, cache: &SchemaCache, oc_name: &str) -> (r: Vec<String>)
    ensures
        strictly_sorted(views(r@)),
        views(r@).to_set() == must_of(cache.ocs(), sup_chain_keys(cache.ocs(), oc_name@)).filter(
            |x: Seq<char>| x != objectclass_lower() && !existing_names(entry.attr_rows@).contains(x),
        ),
{
    let (must, _may) = cache.expanded_attrs(oc_name);
    let existing = entry.existing_attr_names_lower();
    let oc = objectclass_string();
    let ghost ms = views(must@);
    let ghost ex = existing_names(entry.attr_rows@);
    let ghost keep = |x: Seq<char>| x != objectclass_lower() && !ex.contains(x);
    let mut r: Vec<String> = Vec::new();
    let mut i: usize = 0;
    while i < must.len()
        invariant
            ms == views(must@),
            strictly_sorted(ms),
            views(existing@).to_set() == ex,
            oc@ == objectclass_lower(),
            keep == (|x: Seq<char>| x != objectclass_lower() && !ex.contains(x)),
            i <= ms.len(),
            strictly_sorted(views(r@)),
            i < ms.len() ==> forall|k: int| 0 <= k < views(r@).len() ==> str_lt(#[trigger] views(r@)[k], ms[i as int]),
            views(r@).to_set() == ms.take(i as int).to_set().filter(keep),
        decreases ms.len() - i,
    {
        let ghost before = views(r@);
        assert(ms[i as int] == must@[i as int]@);
        let is_oc = str_eq(must[i].as_str(), oc.as_str());
        let present = contains_str(&existing, must[i].as_str());
        if !is_oc && !present {
            r.push(copy_string(&must[i]));
            assert(views(r@) =~= before.push(ms[i as int]));
            assert forall|a: int, b: int| 0 <= a < b < views(r@).len() implies str_lt(#[trigger] views(r@)[a], #[trigger] views(r@)[b]) by {
                if b < before.len() {
                    assert(views(r@)[a] == before[a]);
                    assert(views(r@)[b] == before[b]);
                } else {
                    assert(views(r@)[a] == before[a]);
                }
            }
        }
        assert(ms.take(i as int + 1) =~= ms.take(i as int).push(ms[i as int]));
        assert(views(r@).to_set() =~= ms.take(i as int + 1).to_set().filter(keep));
        proof {
            if i + 1 < ms.len() {
                assert(str_lt(ms[i as int], ms[i + 1]));
                assert forall|k: int| 0 <= k < views(r@).len() implies str_lt(#[trigger] views(r@)[k], ms[i + 1]) by {
                    if k < before.len() {
                        assert(views(r@)[k] == before[k]);
                        lemma_str_lt_trans(before[k], ms[i as int], ms[i + 1]);
                    }
                }
            }
        }
        i += 1;
    }
    assert(ms.take(ms.len() as int) =~= ms);
    r
}

// ── Create child: the form ───────────────────────────────────────────────────

/// The names of the MUST entries among the first `n` picker entries, in order.
pub open spec fn must_names(entries: Seq<PickerEntry>, n: int) -> Seq<Seq<char>>
    decreases n,
{
    if n <= 0 {
        Seq::empty()
    } else {
        must_names(entries, n - 1) + if entries[n - 1].is_must {
            seq![entries[n - 1].attr_name@]
        } else {
            Seq::empty()
        }
    }
}

/// The first index at or after `k` whose name equals `name` up to ASCII case, or the length.
pub open spec fn first_ci(names: Seq<Seq<char>>, name: Seq<char>, k: int) -> int
    decreases names.len() - k,
{
    if k < 0 || k >= names.len() {
        names.len() as int
    } else if eq_ignore_ascii_case(names[k], name) {
        k
    } else {
        first_ci(names, name, k + 1)
    }
}

/// The form's attributes: every MUST attribute, plus the RDN attribute when it is not among them.
pub open spec fn form_field_names(entries: Seq<PickerEntry>, rdn: Seq<char>) -> Seq<Seq<char>> {
    let base = must_names(entries, entries.len() as int);
    if first_ci(base, rdn, 0) < base.len() {
        base
    } else {
        base.push(rdn)
    }
}

/// The position of the RDN attribute among the form's attributes (0 when absent).
pub open spec fn form_rdn_index(entries: Seq<PickerEntry>, rdn: Seq<char>) -> int {
    let names = form_field_names(entries, rdn);
    if first_ci(names, rdn, 0) < names.len() {
        first_ci(names, rdn, 0)
    } else {
        0
    }
}

fn first_ci_exec(names: &Vec<String>, name: &str) -> (r: usize)
    ensures
        r == first_ci(views(names@), name@, 0),
{
    let ghost ns = views(names@);
    let mut i: usize = 0;
    while i < names.len()
        invariant
            ns == views(names@),
            i <= ns.len(),
            first_ci(ns, name@, i as int) == first_ci(ns, name@, 0),
        decreases ns.len() - i,
    {
        assert(ns[i as int] == names@[i as int]@);
        if str_eq_ignore_ascii_case(names[i].as_str(), name) {
            return i;
        }
        i += 1;
    }
    i
}

/// `f` is the form for RDN attribute `rdn` over the RDN picker's entries.
pub open spec fn form_built(f: FormState, oc_name: String, oc_chain: Vec<String>, entries: Seq<PickerEntry>, rdn: Seq<char>) -> bool {
    &&& f.oc_name == oc_name
    &&& f.oc_chain == oc_chain
    &&& f.fields@.len() == form_field_names(entries, rdn).len()
    &&& forall|k: int| 0 <= k < f.fields@.len() ==> (#[trigger] f.fields@[k]).attr@ == form_field_names(entries, rdn)[k]
        && f.fields@[k].input@ == (InputView { text: Seq::empty(), cursor: 0 })
    &&& f.rdn_idx == form_rdn_index(entries, rdn)
    &&& f.focus == FormFocus::Field(f.rdn_idx)
}

/// The form for the chosen RDN attribute: one empty input per MUST attribute (plus the RDN
/// attribute if it is a MAY attribute), focused on the RDN attribute's input.
pub fn form_for_rdn(oc_name: String, oc_chain: Vec<String>, entries: &Vec<PickerEntry>, rdn_attr: &str) -> (r: FormState)
    ensures
        form_built(r, oc_name, oc_chain, entries@, rdn_attr@),
{
    let ghost es = entries@;
    let mut names: Vec<String> = Vec::new();
    let mut i: usize = 0;
    while i < entries.len()
        invariant
            es == entries@,
            i <= es.len(),
            views(names@) == must_names(es, i as int),
        decreases es.len() - i,
    {
        if entries[i].is_must {
            let ghost before = views(names@);
            names.push(copy_string(&entries[i].attr_name));
            assert(views(names@) =~= before.push(es[i as int].attr_name@));
        }
        assert(must_names(es, i as int + 1) =~= must_names(es, i as int) + if es[i as int].is_must {
            seq![es[i as int].attr_name@]
        } else {
            Seq::empty()
        });
        i += 1;
    }
    let p = first_ci_exec(&names, rdn_attr);
    if p >= names.len() {
        let ghost before = views(names@);
        names.push(rdn_attr.to_string());
        assert(views(names@) =~= before.push(rdn_attr@));
    }
    let q = first_ci_exec(&names, rdn_attr);
    let rdn_idx = if q < names.len() { q } else { 0 };
    let mut fields: Vec<FormField> = Vec::new();
    let mut k: usize = 0;
    while k < names.len()
        invariant
            k <= names@.len(),
            fields@.len() == k,
            forall|j: int| 0 <= j < k ==> (#[trigger] fields@[j]).attr@ == names@[j]@
                && fields@[j].input@ == (InputView { text: Seq::empty(), cursor: 0 }),
        decreases names@.len() - k,
    {
        fields.push(FormField { attr: copy_string(&names[k]), input: TextInput::new() });
        k += 1;
    }
    proof {
        assert forall|j: int| 0 <= j < fields@.len() implies (#[trigger] fields@[j]).attr@ == form_field_names(es, rdn_attr@)[j] by {
            assert(views(names@)[j] == names@[j]@);
        }
    }
    FormState { oc_name, oc_chain, fields, focus: FormFocus::Field(rdn_idx), rdn_idx }
}

// ── Create child: the add request ────────────────────────────────────────────

/// The entry to create: its DN and each attribute with its values.
pub struct AddRequest {
    pub dn: String,
    pub attrs: Vec<(String, Vec<String>)>,
}

/// The first field at or after `k` whose trimmed value is empty, or the number of fields.
pub open spec fn first_blank(fields: Seq<FormField>, k: int) -> int
    decreases fields.len() - k,
{
    if k < 0 || k >= fields.len() {
        fields.len() as int
    } else if trim_spec(fields[k].input@.text).len() == 0 {
        k
    } else {
        first_blank(fields, k + 1)
    }
}

/// The first blank field lies within the fields, or is their number.
pub proof fn lemma_first_blank_bound(fields: Seq<FormField>, k: int)
    requires
        0 <= k,
    ensures
        k <= first_blank(fields, k) <= fields.len() || (k > fields.len() && first_blank(fields, k) == fields.len()),
    decreases fields.len() - k,
{
    if k < fields.len() && trim_spec(fields[k].input@.text).len() != 0 {
        lemma_first_blank_bound(fields, k + 1);
    }
}

/// The DN of the new entry: `attr=value,parent` with the RDN field's trimmed value.
pub open spec fn new_child_dn(form: FormState, parent_dn: Seq<char>) -> Seq<char> {
    let f = form.fields@[form.rdn_idx as int];
    f.attr@ + "="@ + trim_spec(f.input@.text) + ","@ + parent_dn
}

/// The attributes of the new entry after its objectClass values: each field with its
/// trimmed value.
pub open spec fn field_attrs(fields: Seq<FormField>) -> Seq<(Seq<char>, Seq<Seq<char>>)> {
    fields.map_values(|f: FormField| (f.attr@, seq![trim_spec(f.input@.text)]))
}

pub open spec fn attr_views(v: Seq<(String, Vec<String>)>) -> Seq<(Seq<char>, Seq<Seq<char>>)> {
    v.map_values(|p: (String, Vec<String>)| (p.0@, views(p.1@)))
}

/// The objectClass values of a chain, each once.
fn distinct_values(v: &Vec<String>) -> (r: Vec<String>)
    ensures
        views(r@).to_set() == views(v@).to_set(),
        views(r@).no_duplicates(),
{
    let mut r: Vec<String> = Vec::new();
    let mut i: usize = 0;
    while i < v.len()
        invariant
            i <= v@.len(),
            views(r@).to_set() == views(v@).take(i as int).to_set(),
            views(r@).no_duplicates(),
        decreases v@.len() - i,
    {
        assert(views(v@).take(i as int + 1) =~= views(v@).take(i as int).push(v@[i as int]@));
        if !contains_str(&r, v[i].as_str()) {
            let ghost before = views(r@);
            r.push(copy_string(&v[i]));
            assert(views(r@) =~= before.push(v@[i as int]@));
            proof { crate::text::lemma_push_no_dup(before, v@[i as int]@); }
        } else {
            assert(views(r@).to_set() =~= views(r@).to_set().insert(v@[i as int]@));
        }
        i += 1;
    }
    assert(views(v@).take(v@.len() as int) =~= views(v@));
    r
}

/// `req` creates the entry that the filled-in form describes under `parent_dn`.
pub open spec fn add_request_ok(req: AddRequest, form: FormState, parent_dn: Seq<char>) -> bool {
    &&& req.dn@ == new_child_dn(form, parent_dn)
    &&& req.attrs@.len() == form.fields@.len() + 1
    &&& req.attrs@[0].0@ == objectclass_attr()
    &&& views(req.attrs@[0].1@).to_set() == views(form.oc_chain@).to_set()
    &&& views(req.attrs@[0].1@).no_duplicates()
    &&& attr_views(req.attrs@).drop_first() == field_attrs(form.fields@)
}

/// Validate the form and build the add request. Every field must have a non-blank value:
/// otherwise the first blank field's attribute name is returned. The request's DN is
/// `rdn_attr=rdn_value,parent`; its attributes are objectClass (the chain, each value once)
/// followed by every field with its trimmed value.
pub fn create_child_request(form: &FormState, parent_dn: &str) -> (r: Result<AddRequest, String>)
    requires
        first_blank(form.fields@, 0) == form.fields@.len() ==> form.rdn_idx < form.fields@.len(),
    ensures
        first_blank(form.fields@, 0) < form.fields@.len() ==> (r matches Err(a) && a@ == form.fields@[first_blank(form.fields@, 0)].attr@),
        first_blank(form.fields@, 0) == form.fields@.len() ==> (r matches Ok(req) && add_request_ok(req, *form, parent_dn@)),
{
    let ghost fs = form.fields@;
    let mut i: usize = 0;
    while i < form.fields.len()
        invariant
            fs == form.fields@,
            i <= fs.len(),
            first_blank(fs, i as int) == first_blank(fs, 0),
        decreases fs.len() - i,
    {
        let t = trim(form.fields[i].input.text());
        if t.as_str().is_empty() {
            return Err(copy_string(&form.fields[i].attr));
        }
        i += 1;
    }
    let rdn = &form.fields[form.rdn_idx];
    let rdn_val = trim(rdn.input.text());
    let mut dn = String::new();
    push_all(&mut dn, rdn.attr.as_str());
    push_all(&mut dn, "=");
    push_all(&mut dn, rdn_val.as_str());
    push_all(&mut dn, ",");
    push_all(&mut dn, parent_dn);
    let mut attrs: Vec<(String, Vec<String>)> = Vec::new();
    attrs.push((objectclass_attr_string(), distinct_values(&form.oc_chain)));
    let mut k: usize = 0;
    while k < form.fields.len()
        invariant
            fs == form.fields@,
            k <= fs.len(),
            attrs@.len() == k + 1,
            attrs@[0].0@ == objectclass_attr(),
            views(attrs@[0].1@).to_set() == views(form.oc_chain@).to_set(),
            views(attrs@[0].1@).no_duplicates(),
            attr_views(attrs@).drop_first() == field_attrs(fs).take(k as int),
        decreases fs.len() - k,
    {
        let ghost before = attrs@;
        let v = trim(form.fields[k].input.text());
        let ghost vv = v@;
        let vals = one_val(v);
        assert(views(vals@) =~= seq![vv]);
        attrs.push((copy_string(&form.fields[k].attr), vals));
        assert(attrs@[0] == before[0]);
        assert(attr_views(attrs@).drop_first() =~= attr_views(before).drop_first().push((fs[k as int].attr@, seq![vv])));
        assert(field_attrs(fs).take(k as int + 1) =~= field_attrs(fs).take(k as int).push((fs[k as int].attr@, seq![vv])));
        k += 1;
    }
    assert(field_attrs(fs).take(fs.len() as int) =~= field_attrs(fs));
    Ok(AddRequest { dn, attrs })
}


proof fn lemma_first_ci(names: Seq<Seq<char>>, name: Seq<char>, k: int)
    requires
        0 <= k <= names.len(),
    ensures
        k <= first_ci(names, name, k) <= names.len(),
        first_ci(names, name, k) < names.len() ==> eq_ignore_ascii_case(names[first_ci(names, name, k)], name),
        forall|j: int| k <= j < first_ci(names, name, k) ==> !eq_ignore_ascii_case(#[trigger] names[j], name),
    decreases names.len() - k,
{
    if k < names.len() && !eq_ignore_ascii_case(names[k], name) {
        lemma_first_ci(names, name, k + 1);
    }
}

/// `x` is the name of a MUST entry among the first `n` picker entries.
pub open spec fn is_must_name(entries: Seq<PickerEntry>, n: int, x: Seq<char>) -> bool {
    exists|j: int| 0 <= j < n && (#[trigger] entries[j]).is_must && entries[j].attr_name@ == x
}

proof fn lemma_must_names(entries: Seq<PickerEntry>, n: int)
    requires
        0 <= n <= entries.len(),
    ensures
        forall|j: int| 0 <= j < n && (#[trigger] entries[j]).is_must ==> must_names(entries, n).contains(entries[j].attr_name@),
        forall|k: int| 0 <= k < must_names(entries, n).len() ==> is_must_name(entries, n, #[trigger] must_names(entries, n)[k]),
    decreases n,
{
    if n > 0 {
        lemma_must_names(entries, n - 1);
        let prev = must_names(entries, n - 1);
        let cur = must_names(entries, n);
        assert forall|j: int| 0 <= j < n && (#[trigger] entries[j]).is_must implies cur.contains(entries[j].attr_name@) by {
            if j < n - 1 {
                let k = choose|k: int| 0 <= k < prev.len() && prev[k] == entries[j].attr_name@;
                assert(cur[k] == prev[k]);
            } else {
                assert(cur[prev.len() as int] == entries[j].attr_name@);
            }
        }
        assert forall|k: int| 0 <= k < cur.len() implies is_must_name(entries, n, #[trigger] cur[k]) by {
            if k < prev.len() {
                assert(cur[k] == prev[k]);
                assert(is_must_name(entries, n - 1, prev[k]));
            } else {
                assert(entries[n - 1].is_must && cur[k] == entries[n - 1].attr_name@);
            }
        }
    } else {
        assert(must_names(entries, n).len() == 0);
    }
}

/// The form built for a chosen RDN attribute always has a field for it, whether the attribute
/// is MUST or MAY, and points (and focuses) at that field; it has a field for every MUST
/// attribute of the picker, and no field for anything else.
pub proof fn law_form_has_rdn_field(f: FormState, oc_name: String, oc_chain: Vec<String>, entries: Seq<PickerEntry>, rdn: Seq<char>)
    requires
        form_built(f, oc_name, oc_chain, entries, rdn),
    ensures
        0 <= f.rdn_idx < f.fields@.len(),
        eq_ignore_ascii_case(f.fields@[f.rdn_idx as int].attr@, rdn),
        f.focus == FormFocus::Field(f.rdn_idx),
        forall|j: int| 0 <= j < entries.len() && (#[trigger] entries[j]).is_must ==> exists|k: int| 0 <= k < f.fields@.len()
            && f.fields@[k].attr@ == entries[j].attr_name@,
        forall|k: int| 0 <= k < f.fields@.len() ==> (#[trigger] f.fields@[k]).attr@ == rdn || exists|j: int| 0 <= j < entries.len()
            && (#[trigger] entries[j]).is_must && entries[j].attr_name@ == f.fields@[k].attr@,
{
    let base = must_names(entries, entries.len() as int);
    let names = form_field_names(entries, rdn);
    lemma_must_names(entries, entries.len() as int);
    lemma_first_ci(base, rdn, 0);
    lemma_first_ci(names, rdn, 0);
    assert(eq_ignore_ascii_case(rdn, rdn));
    if first_ci(base, rdn, 0) >= base.len() {
        assert(names == base.push(rdn));
        assert(names[base.len() as int] == rdn);
        if first_ci(names, rdn, 0) >= names.len() {
            assert(!eq_ignore_ascii_case(names[base.len() as int], rdn));
        }
    }
    assert(first_ci(names, rdn, 0) < names.len());
    assert forall|j: int| 0 <= j < entries.len() && (#[trigger] entries[j]).is_must implies exists|k: int| 0 <= k < f.fields@.len()
        && f.fields@[k].attr@ == entries[j].attr_name@ by {
        let k = choose|k: int| 0 <= k < base.len() && base[k] == entries[j].attr_name@;
        assert(names[k] == base[k]);
        assert(f.fields@[k].attr@ == names[k]);
    }
    assert forall|k: int| 0 <= k < f.fields@.len() implies (#[trigger] f.fields@[k]).attr@ == rdn || exists|j: int| 0 <= j < entries.len()
        && (#[trigger] entries[j]).is_must && entries[j].attr_name@ == f.fields@[k].attr@ by {
        assert(f.fields@[k].attr@ == names[k]);
        if k < base.len() {
            assert(names[k] == base[k]);
        }
    }
}

} // verus!
