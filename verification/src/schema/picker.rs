//! Candidate lists for the attribute, objectClass and RDN pickers.
use vstd::prelude::*;

use super::cache::{is_stored, SchemaCache};
use super::closure::{may_of, must_of, sup_chain_keys};
use super::types::{AttributeTypeView, ObjectClass, ObjectClassView, OcKind, PickerEntry, PickerEntryView, entry_views};
use crate::model::{contains_str, existing_names, objectclass_lower, objectclass_string, LdapEntry};
use crate::sorted::{insert_all_sorted_unique, strictly_sorted};
use crate::text::{
    copy_string, lemma_str_lt_asym, lemma_str_lt_irrefl, lemma_str_lt_total, lemma_str_lt_trans, lowercase, str_eq,
    str_less, str_lt, to_lower, views,
};

verus! {

broadcast use vstd::set::group_set_axioms;

// ── Display labels ──────────────────────────────────────────────────────────

/// Short display label of a SYNTAX OID.
pub open spec fn syntax_label_spec(oid: Seq<char>) -> Seq<char> {
    if oid == "1.3.6.1.4.1.1466.115.121.1.15"@ {
        "DirectoryString"@
    } else if oid == "1.3.6.1.4.1.1466.115.121.1.26"@ {
        "IA5String"@
    } else if oid == "1.3.6.1.4.1.1466.115.121.1.7"@ {
        "Boolean"@
    } else if oid == "1.3.6.1.4.1.1466.115.121.1.27"@ {
        "Integer"@
    } else if oid == "1.3.6.1.4.1.1466.115.121.1.12"@ {
        "DN"@
    } else if oid == "1.3.6.1.4.1.1466.115.121.1.36"@ {
        "Numeric"@
    } else if oid == "1.3.6.1.4.1.1466.115.121.1.38"@ {
        "OID"@
    } else if oid == "1.3.6.1.4.1.1466.115.121.1.5"@ {
        "Binary"@
    } else if oid == "1.3.6.1.4.1.1466.115.121.1.8"@ {
        "Certificate"@
    } else if oid == "1.3.6.1.4.1.1466.115.121.1.28"@ {
        "JPEG"@
    } else if oid == "1.3.6.1.4.1.1466.115.121.1.40"@ {
        "OctetString"@
    } else if oid == "1.3.6.1.4.1.1466.115.121.1.50"@ {
        "TelephoneNumber"@
    } else if oid == "1.3.6.1.4.1.1466.115.121.1.22"@ {
        "FacsimileTelephoneNumber"@
    } else if oid == "1.3.6.1.4.1.1466.115.121.1.53"@ {
        "UTCTime"@
    } else if oid == "1.3.6.1.4.1.1466.115.121.1.24"@ {
        "GeneralizedTime"@
    } else {
        "OctetString"@
    }
}

/// The labels of the LDAP syntaxes (RFC 4517) that the picker names: each syntax OID of the
/// table gets its own syntax's name, and any other OID is shown as OctetString.
pub proof fn law_syntax_labels()
    ensures
        syntax_label_spec("1.3.6.1.4.1.1466.115.121.1.15"@) == "DirectoryString"@,
        syntax_label_spec("1.3.6.1.4.1.1466.115.121.1.26"@) == "IA5String"@,
        syntax_label_spec("1.3.6.1.4.1.1466.115.121.1.7"@) == "Boolean"@,
        syntax_label_spec("1.3.6.1.4.1.1466.115.121.1.27"@) == "Integer"@,
        syntax_label_spec("1.3.6.1.4.1.1466.115.121.1.12"@) == "DN"@,
        syntax_label_spec("1.3.6.1.4.1.1466.115.121.1.36"@) == "Numeric"@,
        syntax_label_spec("1.3.6.1.4.1.1466.115.121.1.38"@) == "OID"@,
        syntax_label_spec("1.3.6.1.4.1.1466.115.121.1.5"@) == "Binary"@,
        syntax_label_spec("1.3.6.1.4.1.1466.115.121.1.8"@) == "Certificate"@,
        syntax_label_spec("1.3.6.1.4.1.1466.115.121.1.28"@) == "JPEG"@,
        syntax_label_spec("1.3.6.1.4.1.1466.115.121.1.40"@) == "OctetString"@,
        syntax_label_spec("1.3.6.1.4.1.1466.115.121.1.50"@) == "TelephoneNumber"@,
        syntax_label_spec("1.3.6.1.4.1.1466.115.121.1.22"@) == "FacsimileTelephoneNumber"@,
        syntax_label_spec("1.3.6.1.4.1.1466.115.121.1.53"@) == "UTCTime"@,
        syntax_label_spec("1.3.6.1.4.1.1466.115.121.1.24"@) == "GeneralizedTime"@,
        forall|oid: Seq<char>| oid != "1.3.6.1.4.1.1466.115.121.1.15"@ && oid != "1.3.6.1.4.1.1466.115.121.1.26"@ && oid != "1.3.6.1.4.1.1466.115.121.1.7"@ && oid != "1.3.6.1.4.1.1466.115.121.1.27"@ && oid != "1.3.6.1.4.1.1466.115.121.1.12"@ && oid != "1.3.6.1.4.1.1466.115.121.1.36"@ && oid != "1.3.6.1.4.1.1466.115.121.1.38"@ && oid != "1.3.6.1.4.1.1466.115.121.1.5"@ && oid != "1.3.6.1.4.1.1466.115.121.1.8"@ && oid != "1.3.6.1.4.1.1466.115.121.1.28"@ && oid != "1.3.6.1.4.1.1466.115.121.1.40"@ && oid != "1.3.6.1.4.1.1466.115.121.1.50"@ && oid != "1.3.6.1.4.1.1466.115.121.1.22"@ && oid != "1.3.6.1.4.1.1466.115.121.1.53"@ && oid != "1.3.6.1.4.1.1466.115.121.1.24"@ ==> #[trigger] syntax_label_spec(oid) == "OctetString"@,
{
    reveal_strlit("1.3.6.1.4.1.1466.115.121.1.15");
    reveal_strlit("DirectoryString");
    reveal_strlit("1.3.6.1.4.1.1466.115.121.1.26");
    reveal_strlit("IA5String");
    reveal_strlit("1.3.6.1.4.1.1466.115.121.1.7");
    reveal_strlit("Boolean");
    reveal_strlit("1.3.6.1.4.1.1466.115.121.1.27");
    reveal_strlit("Integer");
    reveal_strlit("1.3.6.1.4.1.1466.115.121.1.12");
    reveal_strlit("DN");
    reveal_strlit("1.3.6.1.4.1.1466.115.121.1.36");
    reveal_strlit("Numeric");
    reveal_strlit("1.3.6.1.4.1.1466.115.121.1.38");
    reveal_strlit("OID");
    reveal_strlit("1.3.6.1.4.1.1466.115.121.1.5");
    reveal_strlit("Binary");
    reveal_strlit("1.3.6.1.4.1.1466.115.121.1.8");
    reveal_strlit("Certificate");
    reveal_strlit("1.3.6.1.4.1.1466.115.121.1.28");
    reveal_strlit("JPEG");
    reveal_strlit("1.3.6.1.4.1.1466.115.121.1.40");
    reveal_strlit("OctetString");
    reveal_strlit("1.3.6.1.4.1.1466.115.121.1.50");
    reveal_strlit("TelephoneNumber");
    reveal_strlit("1.3.6.1.4.1.1466.115.121.1.22");
    reveal_strlit("FacsimileTelephoneNumber");
    reveal_strlit("1.3.6.1.4.1.1466.115.121.1.53");
    reveal_strlit("UTCTime");
    reveal_strlit("1.3.6.1.4.1.1466.115.121.1.24");
    reveal_strlit("GeneralizedTime");
    // the OIDs differ in length or in their last two characters
    assert("1.3.6.1.4.1.1466.115.121.1.15"@.len() == 29 && "1.3.6.1.4.1.1466.115.121.1.15"@[28] == '5' && "1.3.6.1.4.1.1466.115.121.1.15"@[27] == '1');
    assert("1.3.6.1.4.1.1466.115.121.1.26"@.len() == 29 && "1.3.6.1.4.1.1466.115.121.1.26"@[28] == '6' && "1.3.6.1.4.1.1466.115.121.1.26"@[27] == '2');
    assert("1.3.6.1.4.1.1466.115.121.1.7"@.len() == 28 && "1.3.6.1.4.1.1466.115.121.1.7"@[27] == '7' && "1.3.6.1.4.1.1466.115.121.1.7"@[26] == '.');
    assert("1.3.6.1.4.1.1466.115.121.1.27"@.len() == 29 && "1.3.6.1.4.1.1466.115.121.1.27"@[28] == '7' && "1.3.6.1.4.1.1466.115.121.1.27"@[27] == '2');
    assert("1.3.6.1.4.1.1466.115.121.1.12"@.len() == 29 && "1.3.6.1.4.1.1466.115.121.1.12"@[28] == '2' && "1.3.6.1.4.1.1466.115.121.1.12"@[27] == '1');
    assert("1.3.6.1.4.1.1466.115.121.1.36"@.len() == 29 && "1.3.6.1.4.1.1466.115.121.1.36"@[28] == '6' && "1.3.6.1.4.1.1466.115.121.1.36"@[27] == '3');
    assert("1.3.6.1.4.1.1466.115.121.1.38"@.len() == 29 && "1.3.6.1.4.1.1466.115.121.1.38"@[28] == '8' && "1.3.6.1.4.1.1466.115.121.1.38"@[27] == '3');
    assert("1.3.6.1.4.1.1466.115.121.1.5"@.len() == 28 && "1.3.6.1.4.1.1466.115.121.1.5"@[27] == '5' && "1.3.6.1.4.1.1466.115.121.1.5"@[26] == '.');
    assert("1.3.6.1.4.1.1466.115.121.1.8"@.len() == 28 && "1.3.6.1.4.1.1466.115.121.1.8"@[27] == '8' && "1.3.6.1.4.1.1466.115.121.1.8"@[26] == '.');
    assert("1.3.6.1.4.1.1466.115.121.1.28"@.len() == 29 && "1.3.6.1.4.1.1466.115.121.1.28"@[28] == '8' && "1.3.6.1.4.1.1466.115.121.1.28"@[27] == '2');
    assert("1.3.6.1.4.1.1466.115.121.1.40"@.len() == 29 && "1.3.6.1.4.1.1466.115.121.1.40"@[28] == '0' && "1.3.6.1.4.1.1466.115.121.1.40"@[27] == '4');
    assert("1.3.6.1.4.1.1466.115.121.1.50"@.len() == 29 && "1.3.6.1.4.1.1466.115.121.1.50"@[28] == '0' && "1.3.6.1.4.1.1466.115.121.1.50"@[27] == '5');
    assert("1.3.6.1.4.1.1466.115.121.1.22"@.len() == 29 && "1.3.6.1.4.1.1466.115.121.1.22"@[28] == '2' && "1.3.6.1.4.1.1466.115.121.1.22"@[27] == '2');
    assert("1.3.6.1.4.1.1466.115.121.1.53"@.len() == 29 && "1.3.6.1.4.1.1466.115.121.1.53"@[28] == '3' && "1.3.6.1.4.1.1466.115.121.1.53"@[27] == '5');
    assert("1.3.6.1.4.1.1466.115.121.1.24"@.len() == 29 && "1.3.6.1.4.1.1466.115.121.1.24"@[28] == '4' && "1.3.6.1.4.1.1466.115.121.1.24"@[27] == '2');
}

impl SchemaCache {
    /// Convert a SYNTAX OID to a short display label (used by the picker).
    pub fn syntax_label(oid: &str) -> (r: &'static str)
        ensures
            r@ == syntax_label_spec(oid@),
    {
        if str_eq(oid, "1.3.6.1.4.1.1466.115.121.1.15") {
            "DirectoryString"
        } else if str_eq(oid, "1.3.6.1.4.1.1466.115.121.1.26") {
            "IA5String"
        } else if str_eq(oid, "1.3.6.1.4.1.1466.115.121.1.7") {
            "Boolean"
        } else if str_eq(oid, "1.3.6.1.4.1.1466.115.121.1.27") {
            "Integer"
        } else if str_eq(oid, "1.3.6.1.4.1.1466.115.121.1.12") {
            "DN"
        } else if str_eq(oid, "1.3.6.1.4.1.1466.115.121.1.36") {
            "Numeric"
        } else if str_eq(oid, "1.3.6.1.4.1.1466.115.121.1.38") {
            "OID"
        } else if str_eq(oid, "1.3.6.1.4.1.1466.115.121.1.5") {
            "Binary"
        } else if str_eq(oid, "1.3.6.1.4.1.1466.115.121.1.8") {
            "Certificate"
        } else if str_eq(oid, "1.3.6.1.4.1.1466.115.121.1.28") {
            "JPEG"
        } else if str_eq(oid, "1.3.6.1.4.1.1466.115.121.1.40") {
            "OctetString"
        } else if str_eq(oid, "1.3.6.1.4.1.1466.115.121.1.50") {
            "TelephoneNumber"
        } else if str_eq(oid, "1.3.6.1.4.1.1466.115.121.1.22") {
            "FacsimileTelephoneNumber"
        } else if str_eq(oid, "1.3.6.1.4.1.1466.115.121.1.53") {
            "UTCTime"
        } else if str_eq(oid, "1.3.6.1.4.1.1466.115.121.1.24") {
            "GeneralizedTime"
        } else {
            "OctetString"
        }
    }
}

// ── Ordering ────────────────────────────────────────────────────────────────

/// Picker order: MUST (or STRUCTURAL) entries first, alphabetical within each group.
pub open spec fn picker_before(a: PickerEntryView, b: PickerEntryView) -> bool {
    (a.is_must && !b.is_must) || (a.is_must == b.is_must && str_lt(a.attr_name, b.attr_name))
}

/// `a` may stand before `b` in picker order (ties allowed).
pub open spec fn picker_le(a: PickerEntryView, b: PickerEntryView) -> bool {
    !picker_before(b, a)
}

/// No entry stands after one that picker order puts behind it.
pub open spec fn picker_sorted(s: Seq<PickerEntryView>) -> bool {
    forall|i: int, j: int| 0 <= i < j < s.len() ==> picker_le(#[trigger] s[i], #[trigger] s[j])
}

proof fn lemma_picker_le_trans(a: PickerEntryView, b: PickerEntryView, c: PickerEntryView)
    requires
        picker_le(a, b),
        picker_le(b, c),
    ensures
        picker_le(a, c),
{
    if picker_before(c, a) {
        lemma_str_lt_total(a.attr_name, b.attr_name);
        lemma_str_lt_total(b.attr_name, c.attr_name);
        if a.is_must == b.is_must && b.is_must == c.is_must {
            if str_lt(c.attr_name, a.attr_name) {
                if str_lt(a.attr_name, b.attr_name) {
                    lemma_str_lt_trans(c.attr_name, a.attr_name, b.attr_name);
                } else if a.attr_name != b.attr_name {
                    lemma_str_lt_trans(c.attr_name, a.attr_name, b.attr_name);
                }
            }
        }
    }
}

proof fn lemma_picker_before_asym(a: PickerEntryView, b: PickerEntryView)
    requires
        picker_before(a, b),
    ensures
        picker_le(a, b),
{
    if picker_before(b, a) && a.is_must == b.is_must {
        lemma_str_lt_asym(a.attr_name, b.attr_name);
    }
}

proof fn lemma_picker_total(a: PickerEntryView, b: PickerEntryView)
    ensures
        picker_le(a, b) || picker_le(b, a),
{
    if picker_before(a, b) && picker_before(b, a) {
        if a.is_must == b.is_must {
            lemma_str_lt_asym(a.attr_name, b.attr_name);
        }
    }
}

/// Whether `a` must come strictly before `b`.
fn entry_before(a: &PickerEntry, b: &PickerEntry) -> (r: bool)
    ensures
        r == picker_before(a@, b@),
{
    (a.is_must && !b.is_must) || (a.is_must == b.is_must && str_less(a.attr_name.as_str(), b.attr_name.as_str()))
}

/// Insert `e` after every entry that is not behind it (stable).
fn insert_in_order(v: &mut Vec<PickerEntry>, e: PickerEntry) -> (p: usize)
    requires
        picker_sorted(entry_views(old(v)@)),
    ensures
        picker_sorted(entry_views(final(v)@)),
        forall|x: PickerEntryView| entry_views(final(v)@).contains(x) <==> (entry_views(old(v)@).contains(x) || x == e@),
        p <= old(v)@.len(),
        entry_views(final(v)@) == entry_views(old(v)@).insert(p as int, e@),
{
    let ghost s = entry_views(v@);
    let ghost ev = e@;
    let mut i: usize = 0;
    while i < v.len() && !entry_before(&e, &v[i])
        invariant
            s == entry_views(v@),
            ev == e@,
            i <= v@.len(),
            forall|j: int| 0 <= j < i ==> picker_le(#[trigger] s[j], ev),
        decreases v@.len() - i,
    {
        assert(s[i as int] == v@[i as int]@);
        proof { lemma_picker_total(s[i as int], ev); }
        i += 1;
    }
    proof {
        if i < s.len() {
            assert(s[i as int] == v@[i as int]@);
        }
    }
    v.insert(i, e);
    let ghost t = entry_views(v@);
    assert(t =~= s.insert(i as int, ev));
    assert forall|a: int, b: int| 0 <= a < b < t.len() implies picker_le(#[trigger] t[a], #[trigger] t[b]) by {
        if b < i {
        } else if b == i {
            assert(t[a] == s[a]);
        } else if a < i {
            assert(t[a] == s[a]);
            assert(t[b] == s[b - 1]);
        } else if a == i {
            assert(t[b] == s[b - 1]);
            assert(picker_before(ev, s[i as int]));
            lemma_picker_before_asym(ev, s[i as int]);
            if b - 1 > i {
                assert(picker_le(s[i as int], s[b - 1]));
                lemma_picker_le_trans(ev, s[i as int], s[b - 1]);
            } else {
                lemma_picker_total(ev, s[i as int]);
                assert(picker_le(ev, s[i as int])) by {
                    if a == i && picker_before(s[i as int], ev) {
                        if ev.is_must == s[i as int].is_must {
                            lemma_str_lt_asym(ev.attr_name, s[i as int].attr_name);
                        }
                    }
                }
            }
        } else {
            assert(t[a] == s[a - 1]);
            assert(t[b] == s[b - 1]);
        }
    }
    assert forall|a: int, b: int| 0 <= a < b < t.len() && a < i && b > i implies picker_le(#[trigger] t[a], #[trigger] t[b]) by {
        assert(t[a] == s[a]);
        assert(t[b] == s[b - 1]);
    }
    assert forall|x: PickerEntryView| t.contains(x) <==> (s.contains(x) || x == ev) by {
        if t.contains(x) {
            let k = choose|k: int| 0 <= k < t.len() && t[k] == x;
            if k < i {
                assert(s[k] == x);
            } else if k > i {
                assert(s[k - 1] == x);
            }
        }
        if s.contains(x) {
            let k = choose|k: int| 0 <= k < s.len() && s[k] == x;
            if k < i {
                assert(t[k] == x);
            } else {
                assert(t[k + 1] == x);
            }
        }
        if x == ev {
            assert(t[i as int] == x);
        }
    }
    i
}

// ── Attribute candidates ────────────────────────────────────────────────────

/// The picker entry for an attribute name: its SYNTAX label and SINGLE-VALUE flag come
/// from the schema when it defines the attribute.
pub open spec fn attr_entry(attrs: Map<Seq<char>, AttributeTypeView>, name: Seq<char>, is_must: bool) -> PickerEntryView {
    let defined = attrs.dom().contains(lowercase(name));
    let at = attrs[lowercase(name)];
    PickerEntryView {
        attr_name: name,
        is_must,
        syntax: if defined && at.syntax is Some {
            syntax_label_spec(at.syntax->0)
        } else {
            Seq::empty()
        },
        single_value: defined && at.single_value,
    }
}

/// Whether an attribute name is offered: never objectClass itself or an operational
/// attribute; not a MUST attribute that already has a value; not a SINGLE-VALUE
/// attribute that already has a value.
pub open spec fn attr_offered(attrs: Map<Seq<char>, AttributeTypeView>, name: Seq<char>, is_must: bool, existing: Set<Seq<char>>) -> bool {
    let defined = attrs.dom().contains(lowercase(name));
    let at = attrs[lowercase(name)];
    &&& name != objectclass_lower()
    &&& !(defined && at.is_operational)
    &&& !(is_must && existing.contains(name))
    &&& !(defined && at.single_value && existing.contains(name))
}

/// The MUST attributes of several objectClasses, each expanded across its SUP chain.
pub open spec fn must_of_all(m: Map<Seq<char>, ObjectClassView>, ocs: Seq<Seq<char>>) -> Set<Seq<char>> {
    Set::new(|x: Seq<char>| exists|i: int| 0 <= i < ocs.len() && #[trigger] must_of(m, sup_chain_keys(m, ocs[i])).contains(x))
}

/// The MAY attributes of several objectClasses, each expanded across its SUP chain.
pub open spec fn may_of_all(m: Map<Seq<char>, ObjectClassView>, ocs: Seq<Seq<char>>) -> Set<Seq<char>> {
    Set::new(|x: Seq<char>| exists|i: int| 0 <= i < ocs.len() && #[trigger] may_of(m, sup_chain_keys(m, ocs[i])).contains(x))
}

/// The exact content of an attribute picker: one entry per offered name of `names`, built
/// by `attr_entry`, in picker order.
pub open spec fn attr_picker_result(
    r: Seq<PickerEntryView>,
    attrs: Map<Seq<char>, AttributeTypeView>,
    names: Set<Seq<char>>,
    must: Set<Seq<char>>,
    existing: Set<Seq<char>>,
) -> bool {
    &&& forall|i: int, j: int| 0 <= i < j < r.len() ==> picker_before(#[trigger] r[i], #[trigger] r[j])
    &&& forall|i: int| 0 <= i < r.len() ==> #[trigger] r[i] == attr_entry(attrs, r[i].attr_name, must.contains(r[i].attr_name))
    &&& forall|x: Seq<char>| (exists|i: int| 0 <= i < r.len() && #[trigger] r[i].attr_name == x) <==> (names.contains(x)
        && attr_offered(attrs, x, must.contains(x), existing))
}

/// The attribute picker offers every allowed attribute that is neither MUST, SINGLE-VALUE,
/// operational nor objectClass, whatever values the entry already has: another value of a
/// multi-valued attribute can always be added. It never offers objectClass, an operational
/// attribute, a MUST attribute that has a value or a SINGLE-VALUE attribute that has one.
pub proof fn law_attr_picker_offers(
    r: Seq<PickerEntryView>,
    attrs: Map<Seq<char>, AttributeTypeView>,
    names: Set<Seq<char>>,
    must: Set<Seq<char>>,
    existing: Set<Seq<char>>,
    x: Seq<char>,
)
    requires
        attr_picker_result(r, attrs, names, must, existing),
    ensures
        names.contains(x) && x != objectclass_lower() && !must.contains(x) && !(attrs.dom().contains(lowercase(x))
            && (attrs[lowercase(x)].is_operational || attrs[lowercase(x)].single_value))
            ==> exists|i: int| 0 <= i < r.len() && #[trigger] r[i].attr_name == x,
        (exists|i: int| 0 <= i < r.len() && #[trigger] r[i].attr_name == x) ==> {
            &&& names.contains(x)
            &&& x != objectclass_lower()
            &&& !(attrs.dom().contains(lowercase(x)) && attrs[lowercase(x)].is_operational)
            &&& !(must.contains(x) && existing.contains(x))
            &&& !(attrs.dom().contains(lowercase(x)) && attrs[lowercase(x)].single_value && existing.contains(x))
        },
{
}

impl SchemaCache {
    /// The entry for one attribute name.
    fn make_attr_entry(&self, name: &String, is_must: bool) -> (r: PickerEntry)
        ensures
            r@ == attr_entry(self.attrs(), name@, is_must),
    {
        let at = self.attr_type(name.as_str());
        let syntax = match at {
            Some(a) => match &a.syntax {
                Some(oid) => SchemaCache::syntax_label(oid.as_str()).to_owned(),
                None => String::new(),
            },
            None => String::new(),
        };
        let single_value = match at {
            Some(a) => a.single_value,
            None => false,
        };
        PickerEntry { attr_name: copy_string(name), is_must, syntax, single_value }
    }

    /// Whether an attribute name is offered.
    fn offered(&self, name: &String, is_must: bool, existing: &Vec<String>) -> (r: bool)
        ensures
            r == attr_offered(self.attrs(), name@, is_must, views(existing@).to_set()),
    {
        let oc = objectclass_string();
        if str_eq(name.as_str(), oc.as_str()) {
            return false;
        }
        let at = self.attr_type(name.as_str());
        let is_op = match at {
            Some(a) => a.is_operational,
            None => false,
        };
        if is_op {
            return false;
        }
        let has = contains_str(existing, name.as_str());
        assert(has == views(existing@).to_set().contains(name@));
        if is_must && has {
            return false;
        }
        let sv = match at {
            Some(a) => a.single_value,
            None => false,
        };
        if sv && has {
            return false;
        }
        true
    }

    /// The entries for a list of names, all with the same MUST flag.
    fn entries_for(&self, names: &Vec<String>, is_must: bool) -> (r: Vec<PickerEntry>)
        ensures
            r@.len() == names@.len(),
            forall|k: int| 0 <= k < r@.len() ==> #[trigger] r@[k]@ == attr_entry(self.attrs(), names@[k]@, is_must),
    {
        let mut r: Vec<PickerEntry> = Vec::new();
        let mut i: usize = 0;
        while i < names.len()
            invariant
                i <= names@.len(),
                r@.len() == i,
                forall|k: int| 0 <= k < i ==> #[trigger] r@[k]@ == attr_entry(self.attrs(), names@[k]@, is_must),
            decreases names@.len() - i,
        {
            r.push(self.make_attr_entry(&names[i], is_must));
            i += 1;
        }
        r
    }

    /// For each name of `all`: whether it is offered and its MUST flag equals `want_must`.
    fn offered_flags(&self, all: &Vec<String>, must: &Vec<String>, existing: &Vec<String>, want_must: bool) -> (r: Vec<bool>)
        ensures
            r@.len() == all@.len(),
            forall|j: int| 0 <= j < all@.len() ==> #[trigger] r@[j] == (views(must@).to_set().contains(all@[j]@) == want_must
                && attr_offered(self.attrs(), all@[j]@, want_must, views(existing@).to_set())),
    {
        let mut r: Vec<bool> = Vec::new();
        let mut i: usize = 0;
        while i < all.len()
            invariant
                i <= all@.len(),
                r@.len() == i,
                forall|j: int| 0 <= j < i ==> #[trigger] r@[j] == (views(must@).to_set().contains(all@[j]@) == want_must
                    && attr_offered(self.attrs(), all@[j]@, want_must, views(existing@).to_set())),
            decreases all@.len() - i,
        {
            let is_must = contains_str(must, all[i].as_str());
            let keep = is_must == want_must && self.offered(&all[i], want_must, existing);
            r.push(keep);
            i += 1;
        }
        r
    }

    /// Entries for the offered names of the strictly sorted list `all`, MUST first.
    fn collect_attr_entries(&self, all: &Vec<String>, must: &Vec<String>, existing: &Vec<String>) -> (r: Vec<PickerEntry>)
        requires
            strictly_sorted(views(all@)),
        ensures
            attr_picker_result(entry_views(r@), self.attrs(), views(all@).to_set(), views(must@).to_set(), views(existing@).to_set()),
    {
        let ghost attrs = self.attrs();
        let ghost ms = views(must@).to_set();
        let ghost ex = views(existing@).to_set();
        let keep_must = self.offered_flags(all, must, existing, true);
        let keep_may = self.offered_flags(all, must, existing, false);
        let must_names = select_names(all, &keep_must);
        let may_names = select_names(all, &keep_may);
        let mut result = self.entries_for(&must_names, true);
        let mays = self.entries_for(&may_names, false);
        let ghost nm = result@.len() as int;
        let ghost mp = result@;
        let mut k: usize = 0;
        while k < mays.len()
            invariant
                nm == mp.len(),
                result@.len() == nm + k,
                forall|t: int| 0 <= t < nm ==> #[trigger] result@[t] == mp[t],
                forall|t: int| nm <= t < nm + k ==> #[trigger] result@[t]@ == mays@[t - nm]@,
                k <= mays@.len(),
            decreases mays@.len() - k,
        {
            let ghost rb = result@;
            let c = mays[k].copy();
            result.push(c);
            assert(forall|t: int| 0 <= t < rb.len() ==> #[trigger] result@[t] == rb[t]);
            assert(result@[nm + k]@ == mays@[k as int]@);
            k += 1;
        }
        let ghost rv = entry_views(result@);
        let ghost mn = views(must_names@);
        let ghost yn = views(may_names@);
        assert forall|t: int| 0 <= t < rv.len() implies (t < nm ==> #[trigger] rv[t] == attr_entry(attrs, mn[t], true))
            && (t >= nm ==> rv[t] == attr_entry(attrs, yn[t - nm], false)) by {
            if t < nm {
                assert(rv[t] == mp[t]@);
            } else {
                assert(rv[t] == mays@[t - nm]@);
            }
        }
        assert forall|a: int, b: int| 0 <= a < b < rv.len() implies picker_before(#[trigger] rv[a], #[trigger] rv[b]) by {
            if b < nm {
            } else if a < nm {
            } else {
                assert(str_lt(yn[a - nm], yn[b - nm]));
            }
        }
        assert forall|t: int| 0 <= t < rv.len() implies #[trigger] rv[t] == attr_entry(attrs, rv[t].attr_name, ms.contains(rv[t].attr_name)) by {
            if t < nm {
                assert(mn.to_set().contains(mn[t]));
                let j = choose|j: int| 0 <= j < all@.len() && keep_must@[j] && views(all@)[j] == mn[t];
                assert(keep_must@[j] == (ms.contains(all@[j]@) == true && attr_offered(attrs, all@[j]@, true, ex)));
            } else {
                assert(yn.to_set().contains(yn[t - nm]));
                let j = choose|j: int| 0 <= j < all@.len() && keep_may@[j] && views(all@)[j] == yn[t - nm];
                assert(keep_may@[j] == (ms.contains(all@[j]@) == false && attr_offered(attrs, all@[j]@, false, ex)));
            }
        }
        assert forall|x: Seq<char>| (exists|t: int| 0 <= t < rv.len() && #[trigger] rv[t].attr_name == x) <==> (views(all@).to_set().contains(x)
            && attr_offered(attrs, x, ms.contains(x), ex)) by {
            if exists|t: int| 0 <= t < rv.len() && #[trigger] rv[t].attr_name == x {
                let t = choose|t: int| 0 <= t < rv.len() && #[trigger] rv[t].attr_name == x;
                if t < nm {
                    assert(mn.to_set().contains(mn[t]));
                    let j = choose|j: int| 0 <= j < all@.len() && keep_must@[j] && views(all@)[j] == mn[t];
                    assert(keep_must@[j] == (ms.contains(all@[j]@) == true && attr_offered(attrs, all@[j]@, true, ex)));
                    assert(views(all@).contains(x));
                } else {
                    assert(yn.to_set().contains(yn[t - nm]));
                    let j = choose|j: int| 0 <= j < all@.len() && keep_may@[j] && views(all@)[j] == yn[t - nm];
                    assert(keep_may@[j] == (ms.contains(all@[j]@) == false && attr_offered(attrs, all@[j]@, false, ex)));
                    assert(views(all@).contains(x));
                }
            }
            if views(all@).to_set().contains(x) && attr_offered(attrs, x, ms.contains(x), ex) {
                let j = choose|j: int| 0 <= j < views(all@).len() && views(all@)[j] == x;
                assert(views(all@)[j] == all@[j]@);
                if ms.contains(x) {
                    assert(keep_must@[j] == (ms.contains(all@[j]@) == true && attr_offered(attrs, all@[j]@, true, ex)));
                    assert(mn.to_set().contains(x));
                    let t = choose|t: int| 0 <= t < mn.len() && mn[t] == x;
                    assert(rv[t].attr_name == x);
                } else {
                    assert(keep_may@[j] == (ms.contains(all@[j]@) == false && attr_offered(attrs, all@[j]@, false, ex)));
                    assert(yn.to_set().contains(x));
                    let t = choose|t: int| 0 <= t < yn.len() && yn[t] == x;
                    assert(rv[nm + t].attr_name == x);
                }
            }
        }
        assert(attr_picker_result(rv, attrs, views(all@).to_set(), ms, ex));
        result
    }
}

/// The strings of the strictly sorted list `all` whose flag is set, in order.
fn select_names(all: &Vec<String>, keep: &Vec<bool>) -> (r: Vec<String>)
    requires
        strictly_sorted(views(all@)),
        keep@.len() == all@.len(),
    ensures
        strictly_sorted(views(r@)),
        views(r@).to_set() == Set::new(|x: Seq<char>| exists|j: int| 0 <= j < all@.len() && keep@[j] && #[trigger] views(all@)[j] == x),
{
    let ghost s = views(all@);
    let mut r: Vec<String> = Vec::new();
    let mut i: usize = 0;
    assert(views(r@).to_set() =~= Set::new(|x: Seq<char>| exists|j: int| 0 <= j < 0 && keep@[j] && #[trigger] s[j] == x));
    while i < all.len()
        invariant
            s == views(all@),
            strictly_sorted(s),
            keep@.len() == s.len(),
            i <= s.len(),
            strictly_sorted(views(r@)),
            i < s.len() ==> forall|k: int| 0 <= k < views(r@).len() ==> str_lt(#[trigger] views(r@)[k], s[i as int]),
            views(r@).to_set() == Set::new(|x: Seq<char>| exists|j: int| 0 <= j < i && keep@[j] && #[trigger] s[j] == x),
        decreases s.len() - i,
    {
        let ghost before = views(r@);
        if keep[i] {
            r.push(copy_string(&all[i]));
            assert(views(r@) =~= before.push(s[i as int]));
            assert forall|a: int, b: int| 0 <= a < b < views(r@).len() implies str_lt(#[trigger] views(r@)[a], #[trigger] views(r@)[b]) by {
                if b < before.len() {
                    assert(views(r@)[a] == before[a]);
                    assert(views(r@)[b] == before[b]);
                } else {
                    assert(views(r@)[a] == before[a]);
                }
            }
        }
        assert(views(r@).to_set() =~= Set::new(|x: Seq<char>| exists|j: int| 0 <= j < i + 1 && keep@[j] && #[trigger] s[j] == x)) by {
            assert forall|x: Seq<char>| views(r@).to_set().contains(x) implies exists|j: int| 0 <= j < i + 1 && keep@[j] && #[trigger] s[j] == x by {
                if before.to_set().contains(x) {
                    let j = choose|j: int| 0 <= j < i && keep@[j] && #[trigger] s[j] == x;
                } else {
                    assert(x == s[i as int]);
                }
            }
            assert forall|x: Seq<char>| (exists|j: int| 0 <= j < i + 1 && keep@[j] && #[trigger] s[j] == x) implies views(r@).to_set().contains(x) by {
                let j = choose|j: int| 0 <= j < i + 1 && keep@[j] && #[trigger] s[j] == x;
                if j < i {
                    assert(before.to_set().contains(x));
                    let k = choose|k: int| 0 <= k < before.len() && before[k] == x;
                    assert(views(r@)[k] == x);
                } else {
                    assert(views(r@)[views(r@).len() - 1] == x);
                }
            }
        }
        proof {
            if i + 1 < s.len() {
                assert(str_lt(s[i as int], s[i + 1]));
                assert forall|k: int| 0 <= k < views(r@).len() implies str_lt(#[trigger] views(r@)[k], s[i + 1]) by {
                    if k < before.len() {
                        assert(views(r@)[k] == before[k]);
                        lemma_str_lt_trans(before[k], s[i as int], s[i + 1]);
                    }
                }
            }
        }
        i += 1;
    }
    r
}

/// Build the list of attributes that can be added, based on the current entry's objectClass values.
///
/// Excluded:
/// - operational attributes (is_operational)
/// - existing MUST attributes (already have a value)
/// - existing SINGLE-VALUE attributes (no further values can be added)
/// - objectClass itself (OC operations have their own flow)
pub fn build_picker_entries(entry: &LdapEntry, cache: &SchemaCache) -> (r: Vec<PickerEntry>)
    ensures
        attr_picker_result(
            entry_views(r@),
            cache.attrs(),
            must_of_all(cache.ocs(), views(entry.oc_values@)).union(may_of_all(cache.ocs(), views(entry.oc_values@))),
            must_of_all(cache.ocs(), views(entry.oc_values@)),
            existing_names(entry.attr_rows@),
        ),
{
    let ghost m = cache.ocs();
    let ghost ocs = views(entry.oc_values@);
    let mut must_all: Vec<String> = Vec::new();
    let mut may_all: Vec<String> = Vec::new();
    let mut i: usize = 0;
    assert(views(must_all@).to_set() =~= must_of_all(m, ocs.take(0)));
    assert(views(may_all@).to_set() =~= may_of_all(m, ocs.take(0)));
    while i < entry.oc_values.len()
        invariant
            m == cache.ocs(),
            ocs == views(entry.oc_values@),
            i <= ocs.len(),
            strictly_sorted(views(must_all@)),
            strictly_sorted(views(may_all@)),
            views(must_all@).to_set() == must_of_all(m, ocs.take(i as int)),
            views(may_all@).to_set() == may_of_all(m, ocs.take(i as int)),
        decreases ocs.len() - i,
    {
        let (mu, ma) = cache.expanded_attrs(entry.oc_values[i].as_str());
        insert_all_sorted_unique(&mut must_all, &mu);
        insert_all_sorted_unique(&mut may_all, &ma);
        let ghost t = ocs.take(i as int + 1);
        assert(ocs[i as int] == entry.oc_values@[i as int]@);
        assert(views(must_all@).to_set() =~= must_of_all(m, t)) by {
            assert forall|x: Seq<char>| must_of_all(m, t).contains(x) implies views(must_all@).to_set().contains(x) by {
                let j = choose|j: int| 0 <= j < t.len() && #[trigger] must_of(m, sup_chain_keys(m, t[j])).contains(x);
                if j < i {
                    assert(ocs.take(i as int)[j] == t[j]);
                    assert(must_of_all(m, ocs.take(i as int)).contains(x));
                }
            }
            assert forall|x: Seq<char>| views(must_all@).to_set().contains(x) implies must_of_all(m, t).contains(x) by {
                if must_of_all(m, ocs.take(i as int)).contains(x) {
                    let j = choose|j: int| 0 <= j < ocs.take(i as int).len() && #[trigger] must_of(m, sup_chain_keys(m, ocs.take(i as int)[j])).contains(x);
                    assert(t[j] == ocs.take(i as int)[j]);
                } else {
                    assert(must_of(m, sup_chain_keys(m, t[i as int])).contains(x));
                }
            }
        }
        assert(views(may_all@).to_set() =~= may_of_all(m, t)) by {
            assert forall|x: Seq<char>| may_of_all(m, t).contains(x) implies views(may_all@).to_set().contains(x) by {
                let j = choose|j: int| 0 <= j < t.len() && #[trigger] may_of(m, sup_chain_keys(m, t[j])).contains(x);
                if j < i {
                    assert(ocs.take(i as int)[j] == t[j]);
                    assert(may_of_all(m, ocs.take(i as int)).contains(x));
                }
            }
            assert forall|x: Seq<char>| views(may_all@).to_set().contains(x) implies may_of_all(m, t).contains(x) by {
                if may_of_all(m, ocs.take(i as int)).contains(x) {
                    let j = choose|j: int| 0 <= j < ocs.take(i as int).len() && #[trigger] may_of(m, sup_chain_keys(m, ocs.take(i as int)[j])).contains(x);
                    assert(t[j] == ocs.take(i as int)[j]);
                } else {
                    assert(may_of(m, sup_chain_keys(m, t[i as int])).contains(x));
                }
            }
        }
        i += 1;
    }
    assert(ocs.take(ocs.len() as int) =~= ocs);
    let existing = entry.existing_attr_names_lower();
    let mut all: Vec<String> = Vec::new();
    assert(views(all@).to_set() =~= Set::<Seq<char>>::empty());
    assert forall|a: int, b: int| 0 <= a < b < views(all@).len() implies str_lt(#[trigger] views(all@)[a], #[trigger] views(all@)[b]) by {}
    insert_all_sorted_unique(&mut all, &must_all);
    insert_all_sorted_unique(&mut all, &may_all);
    assert(views(all@).to_set() =~= must_of_all(m, ocs).union(may_of_all(m, ocs)));
    cache.collect_attr_entries(&all, &must_all, &existing)
}

/// Build the RDN-attribute candidates for child-entry creation.
/// Takes MUST ∪ MAY for the given OC (including the SUP chain), excluding `objectClass`
/// and operational attributes. MUST entries are tagged `is_must=true` so the UI can distinguish them.
/// MUST first; alphabetical within each group.
pub fn build_rdn_picker_entries(cache: &SchemaCache, oc_name: &str) -> (r: Vec<PickerEntry>)
    ensures
        attr_picker_result(
            entry_views(r@),
            cache.attrs(),
            must_of(cache.ocs(), sup_chain_keys(cache.ocs(), oc_name@)).union(may_of(cache.ocs(), sup_chain_keys(cache.ocs(), oc_name@))),
            must_of(cache.ocs(), sup_chain_keys(cache.ocs(), oc_name@)),
            Set::empty(),
        ),
{
    let (must, may) = cache.expanded_attrs(oc_name);
    let mut all: Vec<String> = Vec::new();
    assert(views(all@).to_set() =~= Set::<Seq<char>>::empty());
    assert forall|a: int, b: int| 0 <= a < b < views(all@).len() implies str_lt(#[trigger] views(all@)[a], #[trigger] views(all@)[b]) by {}
    insert_all_sorted_unique(&mut all, &must);
    insert_all_sorted_unique(&mut all, &may);
    let none: Vec<String> = Vec::new();
    assert(views(none@).to_set() =~= Set::<Seq<char>>::empty());
    assert(views(all@).to_set() =~= views(must@).to_set().union(views(may@).to_set()));
    cache.collect_attr_entries(&all, &must, &none)
}

// ── objectClass candidates ──────────────────────────────────────────────────

pub open spec fn first_name_or_empty(o: ObjectClassView) -> Seq<char> {
    if o.names.len() > 0 {
        o.names[0]
    } else {
        Seq::empty()
    }
}

pub open spec fn kind_label(k: OcKind) -> Seq<char> {
    match k {
        OcKind::StructuralClass => "STRUCTURAL"@,
        OcKind::Auxiliary => "AUXILIARY"@,
        OcKind::Abstract => "ABSTRACT"@,
    }
}

/// The picker entry for an objectClass: its first NAME, flagged when STRUCTURAL.
pub open spec fn oc_entry(o: ObjectClassView) -> PickerEntryView {
    PickerEntryView {
        attr_name: first_name_or_empty(o),
        is_must: o.kind == OcKind::StructuralClass,
        syntax: kind_label(o.kind),
        single_value: false,
    }
}

/// An objectClass can be added when it is not ABSTRACT and none of its names is already present.
pub open spec fn oc_addable(o: ObjectClassView, existing: Set<Seq<char>>) -> bool {
    o.kind != OcKind::Abstract && forall|j: int| 0 <= j < o.names.len() ==> !existing.contains(#[trigger] o.names[j])
}

/// The lower-cased objectClass values of an entry.
pub open spec fn entry_oc_set(oc_values: Seq<String>) -> Set<Seq<char>> {
    views(oc_values).map_values(|v: Seq<char>| lowercase(v)).to_set()
}

fn make_oc_entry(o: &ObjectClass) -> (r: PickerEntry)
    ensures
        r@ == oc_entry(o@),
{
    let attr_name = if o.names.len() > 0 {
        copy_string(&o.names[0])
    } else {
        String::new()
    };
    let syntax = match o.kind {
        OcKind::StructuralClass => "STRUCTURAL".to_owned(),
        OcKind::Auxiliary => "AUXILIARY".to_owned(),
        OcKind::Abstract => "ABSTRACT".to_owned(),
    };
    PickerEntry { attr_name, is_must: o.kind == OcKind::StructuralClass, syntax, single_value: false }
}

fn none_present(names: &Vec<String>, existing: &Vec<String>) -> (r: bool)
    ensures
        r == forall|j: int| 0 <= j < names@.len() ==> !views(existing@).to_set().contains(#[trigger] views(names@)[j]),
{
    let mut j: usize = 0;
    while j < names.len()
        invariant
            j <= names@.len(),
            forall|k: int| 0 <= k < j ==> !views(existing@).to_set().contains(#[trigger] views(names@)[k]),
        decreases names@.len() - j,
    {
        if contains_str(existing, names[j].as_str()) {
            assert(views(names@)[j as int] == names@[j as int]@);
            return false;
        }
        assert(views(names@)[j as int] == names@[j as int]@);
        j += 1;
    }
    true
}

fn lowered_all(v: &Vec<String>) -> (r: Vec<String>)
    ensures
        views(r@) == views(v@).map_values(|x: Seq<char>| lowercase(x)),
{
    let mut r: Vec<String> = Vec::new();
    let mut i: usize = 0;
    while i < v.len()
        invariant
            i <= v@.len(),
            views(r@) == views(v@).map_values(|x: Seq<char>| lowercase(x)).take(i as int),
        decreases v@.len() - i,
    {
        let ghost before = views(r@);
        r.push(to_lower(v[i].as_str()));
        assert(views(v@).map_values(|x: Seq<char>| lowercase(x))[i as int] == lowercase(v@[i as int]@));
        assert(views(r@) =~= before.push(lowercase(v@[i as int]@)));
        assert(views(r@) =~= views(v@).map_values(|x: Seq<char>| lowercase(x)).take(i as int + 1));
        i += 1;
    }
    assert(views(v@).map_values(|x: Seq<char>| lowercase(x)).take(v@.len() as int) =~= views(v@).map_values(|x: Seq<char>| lowercase(x)));
    r
}

/// `x` is the entry of a stored objectClass that passes `keep`.
pub open spec fn oc_candidate(m: Map<Seq<char>, ObjectClassView>, ex: Set<Seq<char>>, structural_only: bool, x: PickerEntryView) -> bool {
    exists|o: ObjectClassView| is_stored(m, o) && (if structural_only {
        o.kind == OcKind::StructuralClass
    } else {
        oc_addable(o, ex)
    }) && x == oc_entry(o)
}

pub open spec fn oc_kept(o: ObjectClassView, ex: Set<Seq<char>>, structural_only: bool) -> bool {
    if structural_only {
        o.kind == OcKind::StructuralClass
    } else {
        oc_addable(o, ex)
    }
}

/// `x` is the entry of a stored objectClass with OID `oid`.
pub open spec fn entry_of_oid(m: Map<Seq<char>, ObjectClassView>, oid: Seq<char>, x: PickerEntryView) -> bool {
    exists|k: Seq<char>| #[trigger] m.dom().contains(k) && m[k].oid == oid && x == oc_entry(m[k])
}

/// The exact content of an objectClass picker: in picker order, only entries of stored
/// objectClasses that are kept, each from a class of its own (no OID listed twice), and for
/// every OID all of whose definitions are kept, one of its definitions.
pub open spec fn oc_picker_result(r: Seq<PickerEntryView>, m: Map<Seq<char>, ObjectClassView>, ex: Set<Seq<char>>, structural_only: bool) -> bool {
    &&& picker_sorted(r)
    &&& exists|os: Seq<Seq<char>>| os.len() == r.len() && os.no_duplicates() && forall|t: int| 0 <= t < r.len() ==> #[trigger] entry_of_oid(m, os[t], r[t])
    &&& forall|i: int| 0 <= i < r.len() ==> oc_candidate(m, ex, structural_only, #[trigger] r[i])
    &&& forall|k: Seq<char>| #[trigger] m.dom().contains(k) && (forall|k2: Seq<char>| #[trigger] m.dom().contains(k2)
        && m[k2].oid == m[k].oid ==> oc_kept(m[k2], ex, structural_only)) ==> exists|k2: Seq<char>| #[trigger] m.dom().contains(k2)
        && m[k2].oid == m[k].oid && r.contains(oc_entry(m[k2]))
}

fn oc_picker(cache: &SchemaCache, existing: &Vec<String>, structural_only: bool) -> (r: Vec<PickerEntry>)
    ensures
        oc_picker_result(entry_views(r@), cache.ocs(), views(existing@).to_set(), structural_only),
{
    let ocs = cache.unique_object_classes();
    let ghost m = cache.ocs();
    let ghost ex = views(existing@).to_set();
    let mut result: Vec<PickerEntry> = Vec::new();
    let ghost mut os: Seq<Seq<char>> = Seq::empty();
    let mut i: usize = 0;
    while i < ocs.len()
        invariant
            m == cache.ocs(),
            ex == views(existing@).to_set(),
            i <= ocs@.len(),
            picker_sorted(entry_views(result@)),
            ocs@.map_values(|o: &ObjectClass| o@.oid).no_duplicates(),
            os.len() == result@.len(),
            os.no_duplicates(),
            forall|t: int| 0 <= t < os.len() ==> #[trigger] entry_of_oid(m, os[t], entry_views(result@)[t]),
            forall|t: int| #![trigger os[t]] 0 <= t < os.len() ==> exists|j: int| 0 <= j < i && (#[trigger] ocs@[j])@.oid == os[t],
            forall|t: int| 0 <= t < ocs@.len() ==> is_stored(m, #[trigger] ocs@[t]@),
            forall|t: int| 0 <= t < entry_views(result@).len() ==> oc_candidate(m, ex, structural_only, #[trigger] entry_views(result@)[t]),
            forall|j: int| 0 <= j < i && oc_kept((#[trigger] ocs@[j])@, ex, structural_only) ==> entry_views(result@).contains(oc_entry(ocs@[j]@)),
        decreases ocs@.len() - i,
    {
        let o = ocs[i];
        let keep = if structural_only {
            o.kind == OcKind::StructuralClass
        } else {
            o.kind != OcKind::Abstract && none_present(&o.names, existing)
        };
        if keep {
            let e = make_oc_entry(o);
            let ghost before = entry_views(result@);
            let ghost ev = e@;
            let p = insert_in_order(&mut result, e);
            assert(oc_candidate(m, ex, structural_only, ev));
            proof {
                let os0 = os;
                let oid = ocs@[i as int]@.oid;
                assert(is_stored(m, ocs@[i as int]@));
                let kk = choose|k: Seq<char>| #[trigger] m.dom().contains(k) && m[k] == ocs@[i as int]@;
                assert(entry_of_oid(m, oid, ev));
                assert(!os0.contains(oid)) by {
                    if os0.contains(oid) {
                        let t = choose|t: int| 0 <= t < os0.len() && os0[t] == oid;
                        let j = choose|j: int| 0 <= j < i && (#[trigger] ocs@[j])@.oid == os0[t];
                        assert(ocs@.map_values(|o: &ObjectClass| o@.oid)[j] == ocs@.map_values(|o: &ObjectClass| o@.oid)[i as int]);
                    }
                }
                os = os0.insert(p as int, oid);
                assert forall|a: int, b: int| 0 <= a < os.len() && 0 <= b < os.len() && a != b implies os[a] != os[b] by {
                    if a < p && b < p {
                        assert(os[a] == os0[a] && os[b] == os0[b]);
                    } else if a < p && b == p {
                        assert(os[a] == os0[a]);
                    } else if a < p {
                        assert(os[a] == os0[a] && os[b] == os0[b - 1]);
                    } else if a == p && b < p {
                        assert(os[b] == os0[b]);
                    } else if a == p {
                        assert(os[b] == os0[b - 1]);
                    } else if b < p {
                        assert(os[a] == os0[a - 1] && os[b] == os0[b]);
                    } else if b == p {
                        assert(os[a] == os0[a - 1]);
                    } else {
                        assert(os[a] == os0[a - 1] && os[b] == os0[b - 1]);
                    }
                }
                assert forall|t: int| 0 <= t < os.len() implies #[trigger] entry_of_oid(m, os[t], entry_views(result@)[t]) by {
                    if t < p {
                        assert(os[t] == os0[t] && entry_views(result@)[t] == before[t]);
                    } else if t > p {
                        assert(os[t] == os0[t - 1] && entry_views(result@)[t] == before[t - 1]);
                    }
                }
                assert forall|t: int| #![trigger os[t]] 0 <= t < os.len() implies exists|j: int| 0 <= j < i + 1 && (#[trigger] ocs@[j])@.oid == os[t] by {
                    if t < p {
                        assert(os[t] == os0[t]);
                    } else if t > p {
                        assert(os[t] == os0[t - 1]);
                    } else {
                        assert(ocs@[i as int]@.oid == os[t]);
                    }
                }
            }
            assert forall|t: int| 0 <= t < entry_views(result@).len() implies oc_candidate(m, ex, structural_only, #[trigger] entry_views(result@)[t]) by {
                let x = entry_views(result@)[t];
                assert(entry_views(result@).contains(x));
                if x != ev {
                    let s = choose|s: int| 0 <= s < before.len() && before[s] == x;
                    assert(oc_candidate(m, ex, structural_only, before[s]));
                }
            }
            assert forall|j: int| 0 <= j < i + 1 && oc_kept((#[trigger] ocs@[j])@, ex, structural_only) implies entry_views(result@).contains(oc_entry(ocs@[j]@)) by {
                if j < i {
                    assert(before.contains(oc_entry(ocs@[j]@)));
                }
            }
        } else {
            assert forall|t: int| #![trigger os[t]] 0 <= t < os.len() implies exists|j: int| 0 <= j < i + 1 && (#[trigger] ocs@[j])@.oid == os[t] by {
                let j = choose|j: int| 0 <= j < i && (#[trigger] ocs@[j])@.oid == os[t];
            }
        }
        i += 1;
    }
    let ghost rv = entry_views(result@);
    assert(os.len() == rv.len() && os.no_duplicates() && forall|t: int| 0 <= t < rv.len() ==> #[trigger] entry_of_oid(m, os[t], rv[t]));
    assert forall|k: Seq<char>| #[trigger] m.dom().contains(k) && (forall|k2: Seq<char>| #[trigger] m.dom().contains(k2)
        && m[k2].oid == m[k].oid ==> oc_kept(m[k2], ex, structural_only)) implies exists|k2: Seq<char>| #[trigger] m.dom().contains(k2)
        && m[k2].oid == m[k].oid && rv.contains(oc_entry(m[k2])) by {
        let t = choose|t: int| 0 <= t < ocs@.len() && ocs@[t]@.oid == m[k].oid;
        assert(is_stored(m, ocs@[t]@));
        let k2 = choose|k2: Seq<char>| #[trigger] m.dom().contains(k2) && m[k2] == ocs@[t]@;
        assert(oc_kept(m[k2], ex, structural_only));
        assert(rv.contains(oc_entry(ocs@[t]@)));
    }
    result
}

/// Build the candidate objectClasses that can be added to the current entry.
/// ABSTRACT and already-present OCs are excluded; one candidate per OID.
/// is_must = true → STRUCTURAL; false → AUXILIARY.
/// STRUCTURAL first; alphabetical within each group.
pub fn build_oc_picker_entries(entry: &LdapEntry, cache: &SchemaCache) -> (r: Vec<PickerEntry>)
    ensures
        oc_picker_result(entry_views(r@), cache.ocs(), entry_oc_set(entry.oc_values@), false),
{
    let existing = lowered_all(&entry.oc_values);
    assert(views(existing@).to_set() == entry_oc_set(entry.oc_values@));
    oc_picker(cache, &existing, false)
}

/// For child-entry creation: list only STRUCTURAL objectClasses as candidates, alphabetically.
/// ABSTRACT / AUXILIARY are excluded; one candidate per OID.
pub fn build_structural_oc_picker_entries(cache: &SchemaCache) -> (r: Vec<PickerEntry>)
    ensures
        oc_picker_result(entry_views(r@), cache.ocs(), Set::empty(), true),
{
    let none: Vec<String> = Vec::new();
    assert(views(none@).to_set() =~= Set::<Seq<char>>::empty());
    oc_picker(cache, &none, true)
}

} // verus!
