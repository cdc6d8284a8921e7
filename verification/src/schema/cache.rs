//! Cache of parsed schema definitions; all keys are normalized to lowercase.
use vstd::prelude::*;

use super::assoc::{assoc_get, assoc_insert, assoc_map, keys_of, lemma_assoc_map, unique_keys};
use super::parse::{all_lowered, lemma_parse_oc_lowered, parse_at_spec, parse_attribute_type, parse_object_class, parse_oc_spec};
use super::types::{AttributeType, AttributeTypeView, ObjectClass, ObjectClassView};
use crate::model::contains_str;
use crate::text::{copy_string, lemma_push_no_dup, lowercase, str_eq, to_lower, views};

verus! {

broadcast use vstd::seq::Seq::lemma_push_to_set_commute;

/// Insert every key of `ks`, in order, mapping each to `v`.
pub open spec fn insert_all<V>(m: Map<Seq<char>, V>, ks: Seq<Seq<char>>, v: V) -> Map<Seq<char>, V>
    decreases ks.len(),
{
    if ks.len() == 0 {
        m
    } else {
        insert_all(m, ks.drop_last(), v).insert(ks.last(), v)
    }
}

/// NAME / OID → attributeType, built from raw attributeTypes values in order: each parsed
/// definition is stored under each of its names and then under its lowercased OID; values
/// that do not parse are skipped.
pub open spec fn attr_defs_map(raw: Seq<Seq<char>>) -> Map<Seq<char>, AttributeTypeView>
    decreases raw.len(),
{
    if raw.len() == 0 {
        Map::empty()
    } else {
        let m = attr_defs_map(raw.drop_last());
        match parse_at_spec(raw.last()) {
            Some(a) => insert_all(m, a.names, a).insert(lowercase(a.oid), a),
            None => m,
        }
    }
}

/// NAME / OID → objectClass, built the same way from raw objectClasses values.
pub open spec fn oc_defs_map(raw: Seq<Seq<char>>) -> Map<Seq<char>, ObjectClassView>
    decreases raw.len(),
{
    if raw.len() == 0 {
        Map::empty()
    } else {
        let m = oc_defs_map(raw.drop_last());
        match parse_oc_spec(raw.last()) {
            Some(o) => insert_all(m, o.names, o).insert(lowercase(o.oid), o),
            None => m,
        }
    }
}

/// The distinct OIDs among the attributeTypes stored in a map.
pub open spec fn attr_oids(m: Map<Seq<char>, AttributeTypeView>) -> Set<Seq<char>> {
    Set::new(|o: Seq<char>| exists|k: Seq<char>| #[trigger] m.dom().contains(k) && m[k].oid == o)
}

/// The distinct OIDs among the objectClasses stored in a map.
pub open spec fn oc_oids(m: Map<Seq<char>, ObjectClassView>) -> Set<Seq<char>> {
    Set::new(|o: Seq<char>| exists|k: Seq<char>| #[trigger] m.dom().contains(k) && m[k].oid == o)
}

/// `v` is stored in `m` under some key.
pub open spec fn is_stored(m: Map<Seq<char>, ObjectClassView>, v: ObjectClassView) -> bool {
    exists|k: Seq<char>| #[trigger] m.dom().contains(k) && m[k] == v
}

/// Cache of parsed schema definitions.
/// All keys are normalized to lowercase.
pub struct SchemaCache {
    /// NAME / OID → AttributeType
    attr_map: Vec<(String, AttributeType)>,
    /// NAME / OID → ObjectClass
    oc_map: Vec<(String, ObjectClass)>,
}

impl SchemaCache {
    #[verifier::type_invariant]
    closed spec fn inv(self) -> bool {
        unique_keys(self.attr_map@) && unique_keys(self.oc_map@)
    }

    /// NAME / OID (lowercase) → attributeType.
    pub closed spec fn attrs(self) -> Map<Seq<char>, AttributeTypeView> {
        assoc_map(self.attr_map@)
    }

    /// NAME / OID (lowercase) → objectClass.
    pub closed spec fn ocs(self) -> Map<Seq<char>, ObjectClassView> {
        assoc_map(self.oc_map@)
    }

    /// Both maps are finite.
    pub fn finite(&self)
        ensures
            self.attrs().dom().finite(),
            self.ocs().dom().finite(),
    {
        proof {
            use_type_invariant(self);
            lemma_assoc_map(self.attr_map@);
            lemma_assoc_map(self.oc_map@);
        }
    }
}

fn insert_names_at(e: &mut Vec<(String, AttributeType)>, a: &AttributeType)
    requires
        unique_keys(old(e)@),
    ensures
        unique_keys(final(e)@),
        assoc_map(final(e)@) == insert_all(assoc_map(old(e)@), a@.names, a@),
{
    let mut i: usize = 0;
    while i < a.names.len()
        invariant
            i <= a.names@.len(),
            unique_keys(e@),
            assoc_map(e@) == insert_all(assoc_map(old(e)@), a@.names.take(i as int), a@),
        decreases a.names@.len() - i,
    {
        assoc_insert(e, copy_string(&a.names[i]), a.copy());
        assert(a@.names.take(i as int + 1).drop_last() =~= a@.names.take(i as int));
        i += 1;
    }
    assert(a@.names.take(a.names@.len() as int) =~= a@.names);
}

fn insert_names_oc(e: &mut Vec<(String, ObjectClass)>, o: &ObjectClass)
    requires
        unique_keys(old(e)@),
    ensures
        unique_keys(final(e)@),
        assoc_map(final(e)@) == insert_all(assoc_map(old(e)@), o@.names, o@),
{
    let mut i: usize = 0;
    while i < o.names.len()
        invariant
            i <= o.names@.len(),
            unique_keys(e@),
            assoc_map(e@) == insert_all(assoc_map(old(e)@), o@.names.take(i as int), o@),
        decreases o.names@.len() - i,
    {
        assoc_insert(e, copy_string(&o.names[i]), o.copy());
        assert(o@.names.take(i as int + 1).drop_last() =~= o@.names.take(i as int));
        i += 1;
    }
    assert(o@.names.take(o.names@.len() as int) =~= o@.names);
}

impl SchemaCache {
    /// Build the cache from the raw attributeTypes / objectClasses string lists.
    pub fn from_raw(attr_values: &[String], oc_values: &[String]) -> (r: Self)
        ensures
            r.attrs() == attr_defs_map(views(attr_values@)),
            r.ocs() == oc_defs_map(views(oc_values@)),
    {
        let mut attr_map: Vec<(String, AttributeType)> = Vec::new();
        let mut oc_map: Vec<(String, ObjectClass)> = Vec::new();
        let mut i: usize = 0;
        while i < attr_values.len()
            invariant
                i <= attr_values@.len(),
                unique_keys(attr_map@),
                assoc_map(attr_map@) == attr_defs_map(views(attr_values@).take(i as int)),
            decreases attr_values@.len() - i,
        {
            assert(views(attr_values@).take(i as int + 1).drop_last() =~= views(attr_values@).take(i as int));
            assert(views(attr_values@).take(i as int + 1).last() == attr_values@[i as int]@);
            if let Some(at) = parse_attribute_type(attr_values[i].as_str()) {
                insert_names_at(&mut attr_map, &at);
                let key = to_lower(at.oid.as_str());
                assoc_insert(&mut attr_map, key, at);
            }
            i += 1;
        }
        assert(views(attr_values@).take(attr_values@.len() as int) =~= views(attr_values@));
        let mut j: usize = 0;
        while j < oc_values.len()
            invariant
                j <= oc_values@.len(),
                unique_keys(oc_map@),
                assoc_map(oc_map@) == oc_defs_map(views(oc_values@).take(j as int)),
            decreases oc_values@.len() - j,
        {
            assert(views(oc_values@).take(j as int + 1).drop_last() =~= views(oc_values@).take(j as int));
            assert(views(oc_values@).take(j as int + 1).last() == oc_values@[j as int]@);
            if let Some(oc) = parse_object_class(oc_values[j].as_str()) {
                insert_names_oc(&mut oc_map, &oc);
                let key = to_lower(oc.oid.as_str());
                assoc_insert(&mut oc_map, key, oc);
            }
            j += 1;
        }
        assert(views(oc_values@).take(oc_values@.len() as int) =~= views(oc_values@));
        SchemaCache { attr_map, oc_map }
    }

    /// Number of distinct attributeType OIDs stored.
    pub fn attr_count(&self) -> (r: usize)
        ensures
            r == attr_oids(self.attrs()).len(),
    {
        proof {
            use_type_invariant(self);
            lemma_assoc_map(self.attr_map@);
        }
        let ghost e = self.attr_map@;
        let ghost m = self.attrs();
        let mut seen: Vec<String> = Vec::new();
        let mut i: usize = 0;
        while i < self.attr_map.len()
            invariant
                e == self.attr_map@,
                i <= e.len(),
                views(seen@).no_duplicates(),
                views(seen@).to_set() == Set::new(|o: Seq<char>| exists|j: int| 0 <= j < i && #[trigger] e[j].1@.oid == o),
            decreases e.len() - i,
        {
            let o = &self.attr_map[i].1.oid;
            let ghost before = views(seen@);
            if !contains_str(&seen, o.as_str()) {
                seen.push(copy_string(o));
                assert(views(seen@) =~= before.push(o@));
                assert(views(seen@)[views(seen@).len() - 1] == o@);
                proof { lemma_push_no_dup(before, o@); }
            }
            assert(views(seen@).to_set() =~= Set::new(|x: Seq<char>| exists|j: int| 0 <= j < i + 1 && #[trigger] e[j].1@.oid == x)) by {
                assert forall|x: Seq<char>| #[trigger] views(seen@).to_set().contains(x) implies (exists|j: int| 0 <= j < i + 1 && #[trigger] e[j].1@.oid == x) by {
                    if x == o@ {
                        assert(e[i as int].1@.oid == x);
                    } else {
                        assert(before.to_set().contains(x));
                    }
                }
                assert forall|x: Seq<char>| (exists|j: int| 0 <= j < i + 1 && #[trigger] e[j].1@.oid == x) implies views(seen@).to_set().contains(x) by {
                    let j = choose|j: int| 0 <= j < i + 1 && #[trigger] e[j].1@.oid == x;
                    if j == i {
                        assert(views(seen@).contains(o@));
                    } else {
                        assert(before.to_set().contains(x));
                        assert(views(seen@).to_set().contains(x));
                    }
                }
            }
            i += 1;
        }
        assert(views(seen@).to_set() =~= attr_oids(m)) by {
            assert forall|x: Seq<char>| views(seen@).to_set().contains(x) implies attr_oids(m).contains(x) by {
                let j = choose|j: int| 0 <= j < e.len() && #[trigger] e[j].1@.oid == x;
                assert(m[e[j].0@] == e[j].1@);
                assert(keys_of(e)[j] == e[j].0@);
                assert(m.dom().contains(e[j].0@));
            }
            assert forall|x: Seq<char>| attr_oids(m).contains(x) implies views(seen@).to_set().contains(x) by {
                let k = choose|k: Seq<char>| #[trigger] m.dom().contains(k) && m[k].oid == x;
                let j = choose|j: int| 0 <= j < keys_of(e).len() && keys_of(e)[j] == k;
                assert(e[j].0@ == k);
                assert(m[e[j].0@] == e[j].1@);
                assert(e[j].1@.oid == x);
            }
        }
        proof { views(seen@).unique_seq_to_set(); }
        seen.len()
    }

    /// Number of distinct objectClass OIDs stored.
    pub fn oc_count(&self) -> (r: usize)
        ensures
            r == oc_oids(self.ocs()).len(),
    {
        proof {
            use_type_invariant(self);
            lemma_assoc_map(self.oc_map@);
        }
        let ghost e = self.oc_map@;
        let ghost m = self.ocs();
        let mut seen: Vec<String> = Vec::new();
        let mut i: usize = 0;
        while i < self.oc_map.len()
            invariant
                e == self.oc_map@,
                i <= e.len(),
                views(seen@).no_duplicates(),
                views(seen@).to_set() == Set::new(|o: Seq<char>| exists|j: int| 0 <= j < i && #[trigger] e[j].1@.oid == o),
            decreases e.len() - i,
        {
            let o = &self.oc_map[i].1.oid;
            let ghost before = views(seen@);
            if !contains_str(&seen, o.as_str()) {
                seen.push(copy_string(o));
                assert(views(seen@) =~= before.push(o@));
                assert(views(seen@)[views(seen@).len() - 1] == o@);
                proof { lemma_push_no_dup(before, o@); }
            }
            assert(views(seen@).to_set() =~= Set::new(|x: Seq<char>| exists|j: int| 0 <= j < i + 1 && #[trigger] e[j].1@.oid == x)) by {
                assert forall|x: Seq<char>| #[trigger] views(seen@).to_set().contains(x) implies (exists|j: int| 0 <= j < i + 1 && #[trigger] e[j].1@.oid == x) by {
                    if x == o@ {
                        assert(e[i as int].1@.oid == x);
                    } else {
                        assert(before.to_set().contains(x));
                    }
                }
                assert forall|x: Seq<char>| (exists|j: int| 0 <= j < i + 1 && #[trigger] e[j].1@.oid == x) implies views(seen@).to_set().contains(x) by {
                    let j = choose|j: int| 0 <= j < i + 1 && #[trigger] e[j].1@.oid == x;
                    if j == i {
                        assert(views(seen@).contains(o@));
                    } else {
                        assert(before.to_set().contains(x));
                        assert(views(seen@).to_set().contains(x));
                    }
                }
            }
            i += 1;
        }
        assert(views(seen@).to_set() =~= oc_oids(m)) by {
            assert forall|x: Seq<char>| views(seen@).to_set().contains(x) implies oc_oids(m).contains(x) by {
                let j = choose|j: int| 0 <= j < e.len() && #[trigger] e[j].1@.oid == x;
                assert(m[e[j].0@] == e[j].1@);
                assert(keys_of(e)[j] == e[j].0@);
                assert(m.dom().contains(e[j].0@));
            }
            assert forall|x: Seq<char>| oc_oids(m).contains(x) implies views(seen@).to_set().contains(x) by {
                let k = choose|k: Seq<char>| #[trigger] m.dom().contains(k) && m[k].oid == x;
                let j = choose|j: int| 0 <= j < keys_of(e).len() && keys_of(e)[j] == k;
                assert(e[j].0@ == k);
                assert(m[e[j].0@] == e[j].1@);
                assert(e[j].1@.oid == x);
            }
        }
        proof { views(seen@).unique_seq_to_set(); }
        seen.len()
    }

    /// Look up an attribute by name (case-insensitive).
    pub fn attr_type(&self, name: &str) -> (r: Option<&AttributeType>)
        ensures
            r is Some <==> self.attrs().dom().contains(lowercase(name@)),
            r is Some ==> r->0@ == self.attrs()[lowercase(name@)],
    {
        proof { use_type_invariant(self); }
        let key = to_lower(name);
        assoc_get(&self.attr_map, key.as_str())
    }

    /// Look up an objectClass by name (case-insensitive).
    pub fn object_class(&self, name: &str) -> (r: Option<&ObjectClass>)
        ensures
            r is Some <==> self.ocs().dom().contains(lowercase(name@)),
            r is Some ==> r->0@ == self.ocs()[lowercase(name@)],
    {
        proof { use_type_invariant(self); }
        let key = to_lower(name);
        assoc_get(&self.oc_map, key.as_str())
    }

    /// Look up an objectClass by an already-normalized key.
    pub fn object_class_by_key(&self, key: &str) -> (r: Option<&ObjectClass>)
        ensures
            r is Some <==> self.ocs().dom().contains(key@),
            r is Some ==> r->0@ == self.ocs()[key@],
    {
        proof { use_type_invariant(self); }
        assoc_get(&self.oc_map, key)
    }

    /// Return a deduplicated list of objectClasses (dedup by OID).
    #[verifier::rlimit(40)]
    pub fn unique_object_classes(&self) -> (r: Vec<&ObjectClass>)
        ensures
            r@.map_values(|o: &ObjectClass| o@.oid).no_duplicates(),
            forall|i: int| 0 <= i < r@.len() ==> is_stored(self.ocs(), #[trigger] r@[i]@),
            forall|k: Seq<char>| #[trigger] self.ocs().dom().contains(k) ==> exists|i: int| 0 <= i < r@.len() && r@[i]@.oid == self.ocs()[k].oid,
            r@.len() == oc_oids(self.ocs()).len(),
    {
        proof {
            use_type_invariant(self);
            lemma_assoc_map(self.oc_map@);
        }
        let ghost e = self.oc_map@;
        let ghost m = self.ocs();
        let mut result: Vec<&ObjectClass> = Vec::new();
        let mut seen: Vec<String> = Vec::new();
        let mut i: usize = 0;
        while i < self.oc_map.len()
            invariant
                e == self.oc_map@,
                m == assoc_map(e),
                forall|j: int| 0 <= j < e.len() ==> #[trigger] m[e[j].0@] == e[j].1@,
                m.dom() == keys_of(e).to_set(),
                i <= e.len(),
                views(seen@) == result@.map_values(|o: &ObjectClass| o@.oid),
                views(seen@).no_duplicates(),
                forall|t: int| 0 <= t < result@.len() ==> is_stored(m, #[trigger] result@[t]@),
                forall|j: int| 0 <= j < i ==> views(seen@).contains(#[trigger] e[j].1@.oid),
            decreases e.len() - i,
        {
            let oc = &self.oc_map[i].1;
            let ghost before = views(seen@);
            if !contains_str(&seen, oc.oid.as_str()) {
                let ghost rb = result@;
                seen.push(copy_string(&oc.oid));
                result.push(oc);
                assert(views(seen@) =~= before.push(oc@.oid));
                assert(result@.map_values(|o: &ObjectClass| o@.oid) =~= rb.map_values(|o: &ObjectClass| o@.oid).push(oc@.oid));
                proof { lemma_push_no_dup(before, oc@.oid); }
                assert(keys_of(e)[i as int] == e[i as int].0@);
                assert(m.dom().contains(e[i as int].0@));
                assert forall|t: int| 0 <= t < result@.len() implies is_stored(m, #[trigger] result@[t]@) by {
                    if t == result@.len() - 1 {
                        assert(m[e[i as int].0@] == result@[t]@);
                    } else {
                        assert(result@[t] == rb[t]);
                    }
                }
                assert forall|j: int| 0 <= j < i + 1 implies views(seen@).contains(#[trigger] e[j].1@.oid) by {
                    if j == i {
                        assert(views(seen@)[views(seen@).len() - 1] == oc@.oid);
                    } else {
                        assert(before.contains(e[j].1@.oid));
                        let t = choose|t: int| 0 <= t < before.len() && before[t] == e[j].1@.oid;
                        assert(views(seen@)[t] == e[j].1@.oid);
                    }
                }
            }
            i += 1;
        }
        assert(m == self.ocs());
        assert forall|k: Seq<char>| #[trigger] m.dom().contains(k) implies exists|t: int| 0 <= t < result@.len() && result@[t]@.oid == m[k].oid by {
            let j = choose|j: int| 0 <= j < keys_of(e).len() && keys_of(e)[j] == k;
            assert(e[j].0@ == k);
            assert(views(seen@).contains(e[j].1@.oid));
            let t = choose|t: int| 0 <= t < views(seen@).len() && views(seen@)[t] == e[j].1@.oid;
            assert(result@.map_values(|o: &ObjectClass| o@.oid)[t] == result@[t]@.oid);
        }
        proof {
            lemma_listed_classes_count(m, result@);
        }
        result
    }
}

proof fn lemma_listed_classes_count(m: Map<Seq<char>, ObjectClassView>, r: Seq<&ObjectClass>)
    requires
        r.map_values(|o: &ObjectClass| o@.oid).no_duplicates(),
        forall|i: int| 0 <= i < r.len() ==> is_stored(m, #[trigger] r[i]@),
        forall|k: Seq<char>| #[trigger] m.dom().contains(k) ==> exists|i: int| 0 <= i < r.len() && r[i]@.oid == m[k].oid,
    ensures
        r.len() == oc_oids(m).len(),
{
    let s = r.map_values(|o: &ObjectClass| o@);
    assert(s.map_values(|o: ObjectClassView| o.oid) =~= r.map_values(|o: &ObjectClass| o@.oid));
    assert forall|t: int| 0 <= t < s.len() implies is_stored(m, #[trigger] s[t]) by {
        assert(s[t] == r[t]@);
    }
    assert forall|k: Seq<char>| #[trigger] m.dom().contains(k) implies exists|t: int| 0 <= t < s.len() && s[t].oid == m[k].oid by {
        let t = choose|t: int| 0 <= t < r.len() && r[t]@.oid == m[k].oid;
        assert(s[t] == r[t]@);
    }
    law_one_class_per_oid(m, s);
}

/// A list that holds a stored objectClass for every stored OID, and no OID twice, has one
/// element per distinct OID: `unique_object_classes` lists as many classes as `oc_count` counts.
pub proof fn law_one_class_per_oid(m: Map<Seq<char>, ObjectClassView>, s: Seq<ObjectClassView>)
    requires
        s.map_values(|o: ObjectClassView| o.oid).no_duplicates(),
        forall|i: int| 0 <= i < s.len() ==> is_stored(m, #[trigger] s[i]),
        forall|k: Seq<char>| #[trigger] m.dom().contains(k) ==> exists|i: int| 0 <= i < s.len() && s[i].oid == m[k].oid,
    ensures
        s.len() == oc_oids(m).len(),
{
    let t = s.map_values(|o: ObjectClassView| o.oid);
    t.unique_seq_to_set();
    assert(t.to_set() =~= oc_oids(m)) by {
        assert forall|o: Seq<char>| t.to_set().contains(o) implies oc_oids(m).contains(o) by {
            let i = choose|i: int| 0 <= i < t.len() && t[i] == o;
            assert(is_stored(m, s[i]));
            let k = choose|k: Seq<char>| #[trigger] m.dom().contains(k) && m[k] == s[i];
            assert(m.dom().contains(k) && m[k].oid == o);
        }
        assert forall|o: Seq<char>| oc_oids(m).contains(o) implies t.to_set().contains(o) by {
            let k = choose|k: Seq<char>| #[trigger] m.dom().contains(k) && m[k].oid == o;
            let i = choose|i: int| 0 <= i < s.len() && s[i].oid == m[k].oid;
            assert(t[i] == o);
        }
    }
}


/// The keys under which a parsed attributeType is stored: its names, then its lowercased OID.
pub open spec fn at_keys(a: AttributeTypeView) -> Seq<Seq<char>> {
    a.names.push(lowercase(a.oid))
}

/// The keys under which a parsed objectClass is stored: its names, then its lowercased OID.
pub open spec fn oc_keys(o: ObjectClassView) -> Seq<Seq<char>> {
    o.names.push(lowercase(o.oid))
}

/// The `i`-th raw attributeTypes value parses and is stored under key `k`.
pub open spec fn at_defines(raw: Seq<Seq<char>>, i: int, k: Seq<char>) -> bool {
    0 <= i < raw.len() && match parse_at_spec(raw[i]) {
        Some(a) => at_keys(a).contains(k),
        None => false,
    }
}

/// The `i`-th raw objectClasses value parses and is stored under key `k`.
pub open spec fn oc_defines(raw: Seq<Seq<char>>, i: int, k: Seq<char>) -> bool {
    0 <= i < raw.len() && match parse_oc_spec(raw[i]) {
        Some(o) => oc_keys(o).contains(k),
        None => false,
    }
}

proof fn lemma_insert_all<V>(m: Map<Seq<char>, V>, ks: Seq<Seq<char>>, v: V, k: Seq<char>)
    ensures
        insert_all(m, ks, v).dom().contains(k) <==> (ks.contains(k) || m.dom().contains(k)),
        insert_all(m, ks, v).dom().contains(k) ==> insert_all(m, ks, v)[k] == (if ks.contains(k) {
            v
        } else {
            m[k]
        }),
    decreases ks.len(),
{
    if ks.len() > 0 {
        lemma_insert_all(m, ks.drop_last(), v, k);
        assert forall|x: Seq<char>| ks.contains(x) <==> (ks.drop_last().contains(x) || x == ks.last()) by {
            if ks.contains(x) {
                let j = choose|j: int| 0 <= j < ks.len() && ks[j] == x;
                if j < ks.len() - 1 {
                    assert(ks.drop_last()[j] == x);
                }
            }
            if ks.drop_last().contains(x) {
                let j = choose|j: int| 0 <= j < ks.len() - 1 && ks.drop_last()[j] == x;
                assert(ks[j] == x);
            }
            if x == ks.last() {
                assert(ks[ks.len() - 1] == x);
            }
        }
    }
}

proof fn lemma_at_defines_drop_last(raw: Seq<Seq<char>>, k: Seq<char>)
    requires
        raw.len() > 0,
        !at_defines(raw, raw.len() - 1, k),
    ensures
        forall|i: int| #![trigger at_defines(raw, i, k)] #![trigger at_defines(raw.drop_last(), i, k)]
            at_defines(raw, i, k) == at_defines(raw.drop_last(), i, k),
{
    assert forall|i: int| at_defines(raw, i, k) == at_defines(raw.drop_last(), i, k) by {
        if 0 <= i < raw.len() - 1 {
            assert(raw[i] == raw.drop_last()[i]);
        }
    }
}

proof fn lemma_oc_defines_drop_last(raw: Seq<Seq<char>>, k: Seq<char>)
    requires
        raw.len() > 0,
        !oc_defines(raw, raw.len() - 1, k),
    ensures
        forall|i: int| #![trigger oc_defines(raw, i, k)] #![trigger oc_defines(raw.drop_last(), i, k)]
            oc_defines(raw, i, k) == oc_defines(raw.drop_last(), i, k),
{
    assert forall|i: int| oc_defines(raw, i, k) == oc_defines(raw.drop_last(), i, k) by {
        if 0 <= i < raw.len() - 1 {
            assert(raw[i] == raw.drop_last()[i]);
        }
    }
}

/// In the cache built from raw attributeTypes values, a key is present exactly when some value
/// that parses is stored under it (one of its names, or its lowercased OID), and it then holds
/// the last such definition: a later definition overwrites the keys it shares with an earlier
/// one, and values that do not parse contribute nothing.
pub proof fn law_attr_last_definition_wins(raw: Seq<Seq<char>>, k: Seq<char>)
    ensures
        attr_defs_map(raw).dom().contains(k) <==> exists|i: int| #[trigger] at_defines(raw, i, k),
        forall|i: int| #[trigger] at_defines(raw, i, k) && (forall|j: int| i < j < raw.len() ==> !#[trigger] at_defines(raw, j, k))
            ==> attr_defs_map(raw)[k] == parse_at_spec(raw[i])->0,
    decreases raw.len(),
{
    if raw.len() > 0 {
        let r0 = raw.drop_last();
        let n = raw.len() - 1;
        law_attr_last_definition_wins(r0, k);
        assert forall|i: int| 0 <= i < n implies #[trigger] at_defines(raw, i, k) == at_defines(r0, i, k) by {
            assert(raw[i] == r0[i]);
        }
        assert(raw.last() == raw[n]);
        match parse_at_spec(raw.last()) {
            Some(a) => {
                let m = attr_defs_map(r0);
                lemma_insert_all(m, a.names, a, k);
                assert(at_keys(a).contains(k) <==> (a.names.contains(k) || k == lowercase(a.oid))) by {
                    if at_keys(a).contains(k) {
                        let j = choose|j: int| 0 <= j < at_keys(a).len() && at_keys(a)[j] == k;
                        if j < a.names.len() {
                            assert(a.names[j] == k);
                        }
                    }
                    if a.names.contains(k) {
                        let j = choose|j: int| 0 <= j < a.names.len() && a.names[j] == k;
                        assert(at_keys(a)[j] == k);
                    }
                    if k == lowercase(a.oid) {
                        assert(at_keys(a)[a.names.len() as int] == k);
                    }
                }
                let mm = insert_all(m, a.names, a).insert(lowercase(a.oid), a);
                assert(attr_defs_map(raw) == mm);
                if at_keys(a).contains(k) {
                    assert(at_defines(raw, n, k));
                    assert(mm.dom().contains(k) && mm[k] == a);
                    assert forall|i: int| #[trigger] at_defines(raw, i, k) && (forall|j: int| i < j < raw.len() ==> !#[trigger] at_defines(raw, j, k))
                        implies attr_defs_map(raw)[k] == parse_at_spec(raw[i])->0 by {
                        if i < n {
                            assert(at_defines(raw, n, k));
                        }
                    }
                } else {
                    assert(!at_defines(raw, n, k));
                    assert(mm.dom().contains(k) == m.dom().contains(k));
                    assert(m.dom().contains(k) ==> mm[k] == m[k]);
                    lemma_at_defines_drop_last(raw, k);
                }
            },
            None => {
                assert(!at_defines(raw, n, k));
                lemma_at_defines_drop_last(raw, k);
            },
        }
    }
}

/// The same law for objectClasses: a key is present exactly when some value that parses is
/// stored under it, and it holds the last such definition.
pub proof fn law_oc_last_definition_wins(raw: Seq<Seq<char>>, k: Seq<char>)
    ensures
        oc_defs_map(raw).dom().contains(k) <==> exists|i: int| #[trigger] oc_defines(raw, i, k),
        forall|i: int| #[trigger] oc_defines(raw, i, k) && (forall|j: int| i < j < raw.len() ==> !#[trigger] oc_defines(raw, j, k))
            ==> oc_defs_map(raw)[k] == parse_oc_spec(raw[i])->0,
    decreases raw.len(),
{
    if raw.len() > 0 {
        let r0 = raw.drop_last();
        let n = raw.len() - 1;
        law_oc_last_definition_wins(r0, k);
        assert forall|i: int| 0 <= i < n implies #[trigger] oc_defines(raw, i, k) == oc_defines(r0, i, k) by {
            assert(raw[i] == r0[i]);
        }
        assert(raw.last() == raw[n]);
        match parse_oc_spec(raw.last()) {
            Some(o) => {
                let m = oc_defs_map(r0);
                lemma_insert_all(m, o.names, o, k);
                assert(oc_keys(o).contains(k) <==> (o.names.contains(k) || k == lowercase(o.oid))) by {
                    if oc_keys(o).contains(k) {
                        let j = choose|j: int| 0 <= j < oc_keys(o).len() && oc_keys(o)[j] == k;
                        if j < o.names.len() {
                            assert(o.names[j] == k);
                        }
                    }
                    if o.names.contains(k) {
                        let j = choose|j: int| 0 <= j < o.names.len() && o.names[j] == k;
                        assert(oc_keys(o)[j] == k);
                    }
                    if k == lowercase(o.oid) {
                        assert(oc_keys(o)[o.names.len() as int] == k);
                    }
                }
                let mm = insert_all(m, o.names, o).insert(lowercase(o.oid), o);
                assert(oc_defs_map(raw) == mm);
                if oc_keys(o).contains(k) {
                    assert(oc_defines(raw, n, k));
                    assert(mm.dom().contains(k) && mm[k] == o);
                    assert forall|i: int| #[trigger] oc_defines(raw, i, k) && (forall|j: int| i < j < raw.len() ==> !#[trigger] oc_defines(raw, j, k))
                        implies oc_defs_map(raw)[k] == parse_oc_spec(raw[i])->0 by {
                        if i < n {
                            assert(oc_defines(raw, n, k));
                        }
                    }
                } else {
                    assert(!oc_defines(raw, n, k));
                    assert(mm.dom().contains(k) == m.dom().contains(k));
                    assert(m.dom().contains(k) ==> mm[k] == m[k]);
                    lemma_oc_defines_drop_last(raw, k);
                }
            },
            None => {
                assert(!oc_defines(raw, n, k));
                lemma_oc_defines_drop_last(raw, k);
            },
        }
    }
}


/// The objectClass map built from raw values is finite, and the MUST and MAY names of every
/// class in it are lowercased schema words.
pub proof fn lemma_oc_defs_lowered(raw: Seq<Seq<char>>)
    ensures
        oc_defs_map(raw).dom().finite(),
        forall|k: Seq<char>| #[trigger] oc_defs_map(raw).dom().contains(k) ==> all_lowered(oc_defs_map(raw)[k].must)
            && all_lowered(oc_defs_map(raw)[k].may),
    decreases raw.len(),
{
    if raw.len() > 0 {
        let r0 = raw.drop_last();
        lemma_oc_defs_lowered(r0);
        lemma_parse_oc_lowered(raw.last());
        if let Some(o) = parse_oc_spec(raw.last()) {
            let m = oc_defs_map(r0);
            assert forall|k: Seq<char>| #[trigger] oc_defs_map(raw).dom().contains(k) implies all_lowered(oc_defs_map(raw)[k].must)
                && all_lowered(oc_defs_map(raw)[k].may) by {
                lemma_insert_all(m, o.names, o, k);
            }
            assert(insert_all(m, o.names, o).dom() =~= m.dom() + o.names.to_set()) by {
                assert forall|k: Seq<char>| insert_all(m, o.names, o).dom().contains(k) == (m.dom() + o.names.to_set()).contains(k) by {
                    lemma_insert_all(m, o.names, o, k);
                }
            }
        }
    }
}

} // verus!
