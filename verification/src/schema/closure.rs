//! Walking the SUP chain of an objectClass (depth-first, each name visited once).
use vstd::prelude::*;

use super::cache::{lemma_oc_defs_lowered, oc_defs_map, SchemaCache};
use super::parse::lowered;
use super::types::ObjectClassView;
use crate::model::contains_str;
use crate::sorted::{insert_all_sorted_unique, strictly_sorted};
use crate::text::{copy_string, lowercase, to_lower, views};

verus! {

broadcast use vstd::set::group_set_axioms;

/// How many names of `m` are not yet in `v`.
pub open spec fn unvisited(m: Map<Seq<char>, ObjectClassView>, v: Set<Seq<char>>) -> nat {
    m.dom().difference(v).len()
}

pub proof fn lemma_unvisited_insert(m: Map<Seq<char>, ObjectClassView>, v: Set<Seq<char>>, name: Seq<char>)
    requires
        m.dom().finite(),
        m.dom().contains(name),
        !v.contains(name),
    ensures
        unvisited(m, v.insert(name)) < unvisited(m, v),
{
    let d = m.dom().difference(v);
    vstd::set_lib::lemma_len_subset(d, m.dom());
    assert(m.dom().difference(v.insert(name)) =~= d.remove(name));
}

pub proof fn lemma_unvisited_mono(m: Map<Seq<char>, ObjectClassView>, v: Set<Seq<char>>, w: Set<Seq<char>>)
    requires
        m.dom().finite(),
        v.subset_of(w),
    ensures
        unvisited(m, w) <= unvisited(m, v),
{
    vstd::set_lib::lemma_len_subset(m.dom().difference(v), m.dom());
    vstd::set_lib::lemma_len_subset(m.dom().difference(w), m.dom().difference(v));
}

/// Depth-first walk from `name` along SUP links, skipping names already in `v`.
/// Returns the names visited so far and, in pre-order, the names met that `m` defines.
pub open spec fn sup_walk(m: Map<Seq<char>, ObjectClassView>, name: Seq<char>, v: Set<Seq<char>>) -> (Set<Seq<char>>, Seq<Seq<char>>)
    decreases unvisited(m, v), 0int, 0int when m.dom().finite()
{
    if v.contains(name) {
        (v, Seq::empty())
    } else if !m.dom().contains(name) {
        (v.insert(name), Seq::empty())
    } else {
        proof {
            lemma_unvisited_insert(m, v, name);
        }
        let r = sup_walk_list(m, m[name].sup, v.insert(name));
        (r.0, seq![name] + r.1)
    }
}

/// The walk from each name of `names` in turn.
pub open spec fn sup_walk_list(m: Map<Seq<char>, ObjectClassView>, names: Seq<Seq<char>>, v: Set<Seq<char>>) -> (Set<Seq<char>>, Seq<Seq<char>>)
    decreases unvisited(m, v), 1int, names.len() when m.dom().finite()
{
    if names.len() == 0 {
        (v, Seq::empty())
    } else {
        let a = sup_walk(m, names[0], v);
        let v1 = v.union(a.0);
        proof {
            lemma_unvisited_mono(m, v, v1);
        }
        let b = sup_walk_list(m, names.drop_first(), v1);
        (b.0, a.1 + b.1)
    }
}

/// A walk only adds names, and every name it reports is defined in `m`.
pub proof fn lemma_sup_walk(m: Map<Seq<char>, ObjectClassView>, name: Seq<char>, v: Set<Seq<char>>)
    requires
        m.dom().finite(),
    ensures
        v.subset_of(sup_walk(m, name, v).0),
        forall|i: int| 0 <= i < sup_walk(m, name, v).1.len() ==> m.dom().contains(#[trigger] sup_walk(m, name, v).1[i]),
    decreases unvisited(m, v), 0int, 0int,
{
    if v.contains(name) {
    } else if !m.dom().contains(name) {
    } else {
        lemma_unvisited_insert(m, v, name);
        lemma_sup_walk_list(m, m[name].sup, v.insert(name));
        let r = sup_walk_list(m, m[name].sup, v.insert(name));
        assert forall|i: int| 0 <= i < sup_walk(m, name, v).1.len() implies m.dom().contains(#[trigger] sup_walk(m, name, v).1[i]) by {
            if i > 0 {
                assert(sup_walk(m, name, v).1[i] == r.1[i - 1]);
            }
        }
    }
}

pub proof fn lemma_sup_walk_list(m: Map<Seq<char>, ObjectClassView>, names: Seq<Seq<char>>, v: Set<Seq<char>>)
    requires
        m.dom().finite(),
    ensures
        v.subset_of(sup_walk_list(m, names, v).0),
        forall|i: int| 0 <= i < sup_walk_list(m, names, v).1.len() ==> m.dom().contains(#[trigger] sup_walk_list(m, names, v).1[i]),
    decreases unvisited(m, v), 1int, names.len(),
{
    if names.len() > 0 {
        let a = sup_walk(m, names[0], v);
        let v1 = v.union(a.0);
        lemma_unvisited_mono(m, v, v1);
        lemma_sup_walk(m, names[0], v);
        lemma_sup_walk_list(m, names.drop_first(), v1);
        let b = sup_walk_list(m, names.drop_first(), v1);
        assert forall|i: int| 0 <= i < sup_walk_list(m, names, v).1.len() implies m.dom().contains(#[trigger] sup_walk_list(m, names, v).1[i]) by {
            if i < a.1.len() {
                assert(sup_walk_list(m, names, v).1[i] == a.1[i]);
            } else {
                assert(sup_walk_list(m, names, v).1[i] == b.1[i - a.1.len()]);
            }
        }
    }
}

/// The closure facts of a walk: names only get added; each newly visited name that `m`
/// defines is reported, exactly once and never one visited before; and every SUP name of a
/// reported objectClass ends up visited.
pub open spec fn walk_facts(m: Map<Seq<char>, ObjectClassView>, v: Set<Seq<char>>, r: (Set<Seq<char>>, Seq<Seq<char>>)) -> bool {
    &&& v.subset_of(r.0)
    &&& forall|x: Seq<char>| #[trigger] r.0.contains(x) ==> v.contains(x) || (m.dom().contains(x) ==> r.1.contains(x))
    &&& forall|i: int, j: int| 0 <= i < r.1.len() && 0 <= j < m[r.1[i]].sup.len() ==> r.0.contains(#[trigger] m[#[trigger] r.1[i]].sup[j])
    &&& forall|i: int| 0 <= i < r.1.len() ==> r.0.contains(#[trigger] r.1[i]) && !v.contains(r.1[i])
    &&& r.1.no_duplicates()
}

proof fn lemma_walk_facts(m: Map<Seq<char>, ObjectClassView>, name: Seq<char>, v: Set<Seq<char>>)
    requires
        m.dom().finite(),
    ensures
        walk_facts(m, v, sup_walk(m, name, v)),
        sup_walk(m, name, v).0.contains(name),
    decreases unvisited(m, v), 0int, 0int,
{
    if v.contains(name) {
    } else if !m.dom().contains(name) {
    } else {
        lemma_unvisited_insert(m, v, name);
        let v1 = v.insert(name);
        let sups = m[name].sup;
        lemma_walk_list_facts(m, sups, v1);
        let r = sup_walk_list(m, sups, v1);
        let out = seq![name] + r.1;
        assert(sup_walk(m, name, v) == (r.0, out));
        assert forall|x: Seq<char>| #[trigger] r.0.contains(x) implies v.contains(x) || (m.dom().contains(x) ==> out.contains(x)) by {
            if x == name {
                assert(out[0] == name);
            } else if !v1.contains(x) && m.dom().contains(x) {
                let k = choose|k: int| 0 <= k < r.1.len() && r.1[k] == x;
                assert(out[k + 1] == x);
            }
        }
        assert forall|i: int, j: int| 0 <= i < out.len() && 0 <= j < m[out[i]].sup.len() implies r.0.contains(#[trigger] m[#[trigger] out[i]].sup[j]) by {
            if i == 0 {
                assert(out[0] == name);
            } else {
                assert(out[i] == r.1[i - 1]);
            }
        }
        assert forall|i: int| 0 <= i < out.len() implies r.0.contains(#[trigger] out[i]) && !v.contains(out[i]) by {
            if i > 0 {
                assert(out[i] == r.1[i - 1]);
            }
        }
        assert forall|i: int, j: int| 0 <= i < out.len() && 0 <= j < out.len() && i != j implies out[i] != out[j] by {
            if i > 0 && j > 0 {
                assert(out[i] == r.1[i - 1]);
                assert(out[j] == r.1[j - 1]);
            } else if i == 0 {
                assert(out[j] == r.1[j - 1]);
                assert(!v1.contains(r.1[j - 1]));
            } else {
                assert(out[i] == r.1[i - 1]);
                assert(!v1.contains(r.1[i - 1]));
            }
        }
    }
}

proof fn lemma_walk_list_facts(m: Map<Seq<char>, ObjectClassView>, names: Seq<Seq<char>>, v: Set<Seq<char>>)
    requires
        m.dom().finite(),
    ensures
        walk_facts(m, v, sup_walk_list(m, names, v)),
        forall|j: int| 0 <= j < names.len() ==> sup_walk_list(m, names, v).0.contains(#[trigger] names[j]),
    decreases unvisited(m, v), 1int, names.len(),
{
    if names.len() > 0 {
        let a = sup_walk(m, names[0], v);
        let v1 = v.union(a.0);
        lemma_unvisited_mono(m, v, v1);
        lemma_walk_facts(m, names[0], v);
        lemma_walk_list_facts(m, names.drop_first(), v1);
        let b = sup_walk_list(m, names.drop_first(), v1);
        let out = a.1 + b.1;
        assert(sup_walk_list(m, names, v) == (b.0, out));
        assert forall|x: Seq<char>| #[trigger] b.0.contains(x) implies v.contains(x) || (m.dom().contains(x) ==> out.contains(x)) by {
            if !v1.contains(x) {
                if m.dom().contains(x) {
                    let k = choose|k: int| 0 <= k < b.1.len() && b.1[k] == x;
                    assert(out[a.1.len() + k] == x);
                }
            } else if !v.contains(x) && m.dom().contains(x) {
                assert(a.0.contains(x));
                let k = choose|k: int| 0 <= k < a.1.len() && a.1[k] == x;
                assert(out[k] == x);
            }
        }
        assert forall|i: int, j: int| 0 <= i < out.len() && 0 <= j < m[out[i]].sup.len() implies b.0.contains(#[trigger] m[#[trigger] out[i]].sup[j]) by {
            if i < a.1.len() {
                assert(out[i] == a.1[i]);
                assert(a.0.contains(m[a.1[i]].sup[j]));
            } else {
                assert(out[i] == b.1[i - a.1.len()]);
            }
        }
        assert forall|i: int| 0 <= i < out.len() implies b.0.contains(#[trigger] out[i]) && !v.contains(out[i]) by {
            if i < a.1.len() {
                assert(out[i] == a.1[i]);
            } else {
                assert(out[i] == b.1[i - a.1.len()]);
            }
        }
        assert forall|i: int, j: int| 0 <= i < out.len() && 0 <= j < out.len() && i != j implies out[i] != out[j] by {
            if i < a.1.len() && j < a.1.len() {
                assert(out[i] == a.1[i]);
                assert(out[j] == a.1[j]);
            } else if i >= a.1.len() && j >= a.1.len() {
                assert(out[i] == b.1[i - a.1.len()]);
                assert(out[j] == b.1[j - a.1.len()]);
            } else if i < a.1.len() {
                assert(out[i] == a.1[i]);
                assert(out[j] == b.1[j - a.1.len()]);
                assert(a.0.contains(a.1[i]));
                assert(!v1.contains(b.1[j - a.1.len()]));
            } else {
                assert(out[j] == a.1[j]);
                assert(out[i] == b.1[i - a.1.len()]);
                assert(a.0.contains(a.1[j]));
                assert(!v1.contains(b.1[i - a.1.len()]));
            }
        }
        assert forall|j: int| 0 <= j < names.len() implies b.0.contains(#[trigger] names[j]) by {
            if j > 0 {
                assert(names[j] == names.drop_first()[j - 1]);
            }
        }
    }
}

/// SUP-chain law: the objectClasses met from `oc_name` start with `oc_name` itself (when the
/// schema defines it), are all defined, occur once each, and are closed under SUP: every
/// defined SUP of an objectClass met is met as well. Circular SUP definitions end the walk.
pub proof fn law_sup_chain_closed(m: Map<Seq<char>, ObjectClassView>, oc_name: Seq<char>)
    requires
        m.dom().finite(),
    ensures
        m.dom().contains(lowercase(oc_name)) ==> sup_chain_keys(m, oc_name).len() > 0
            && sup_chain_keys(m, oc_name)[0] == lowercase(oc_name),
        forall|i: int| 0 <= i < sup_chain_keys(m, oc_name).len() ==> m.dom().contains(#[trigger] sup_chain_keys(m, oc_name)[i]),
        sup_chain_keys(m, oc_name).no_duplicates(),
        forall|i: int, j: int| 0 <= i < sup_chain_keys(m, oc_name).len() && 0 <= j < m[sup_chain_keys(m, oc_name)[i]].sup.len()
            && m.dom().contains(#[trigger] m[#[trigger] sup_chain_keys(m, oc_name)[i]].sup[j])
            ==> sup_chain_keys(m, oc_name).contains(m[sup_chain_keys(m, oc_name)[i]].sup[j]),
{
    let name = lowercase(oc_name);
    lemma_walk_facts(m, name, Set::empty());
    lemma_sup_walk(m, name, Set::empty());
    let r = sup_walk(m, name, Set::empty());
    if m.dom().contains(name) {
        lemma_unvisited_insert(m, Set::empty(), name);
        assert(r.1[0] == name);
    }
    assert forall|i: int, j: int| 0 <= i < r.1.len() && 0 <= j < m[r.1[i]].sup.len() && m.dom().contains(#[trigger] m[#[trigger] r.1[i]].sup[j]) implies r.1.contains(m[r.1[i]].sup[j]) by {
        assert(r.0.contains(m[r.1[i]].sup[j]));
    }
}

/// The names met by the walk that starts at `oc_name` (lowercased) with nothing visited.
pub open spec fn sup_chain_keys(m: Map<Seq<char>, ObjectClassView>, oc_name: Seq<char>) -> Seq<Seq<char>> {
    sup_walk(m, lowercase(oc_name), Set::empty()).1
}

/// Every MUST attribute of the given objectClasses.
pub open spec fn must_of(m: Map<Seq<char>, ObjectClassView>, keys: Seq<Seq<char>>) -> Set<Seq<char>> {
    Set::new(|x: Seq<char>| exists|i: int| 0 <= i < keys.len() && (#[trigger] m[keys[i]]).must.contains(x))
}

/// Every MAY attribute of the given objectClasses.
pub open spec fn may_of(m: Map<Seq<char>, ObjectClassView>, keys: Seq<Seq<char>>) -> Set<Seq<char>> {
    Set::new(|x: Seq<char>| exists|i: int| 0 <= i < keys.len() && (#[trigger] m[keys[i]]).may.contains(x))
}

/// The first NAME of each given objectClass that has one, as the schema writes it.
pub open spec fn first_names(m: Map<Seq<char>, ObjectClassView>, keys: Seq<Seq<char>>) -> Seq<Seq<char>>
    decreases keys.len(),
{
    if keys.len() == 0 {
        Seq::empty()
    } else {
        first_names(m, keys.drop_last()) + if m[keys.last()].names.len() > 0 {
            seq![m[keys.last()].first_name]
        } else {
            Seq::empty()
        }
    }
}

impl SchemaCache {
    fn walk_sup(&self, name: &String, visited: &mut Vec<String>, out: &mut Vec<String>)
        requires
            self.ocs().dom().finite(),
        ensures
            views(final(visited)@).to_set() == sup_walk(self.ocs(), name@, views(old(visited)@).to_set()).0,
            views(final(out)@) == views(old(out)@) + sup_walk(self.ocs(), name@, views(old(visited)@).to_set()).1,
        decreases unvisited(self.ocs(), views(old(visited)@).to_set()),
    {
        let ghost m = self.ocs();
        let ghost v0 = views(visited@).to_set();
        if contains_str(visited, name.as_str()) {
            assert(views(visited@).contains(name@));
            assert(v0.contains(name@));
            assert(views(out@) =~= views(old(out)@) + Seq::<Seq<char>>::empty());
            return;
        }
        let ghost vb = views(visited@);
        visited.push(copy_string(name));
        assert(views(visited@) =~= vb.push(name@));
        assert(views(visited@).to_set() =~= v0.insert(name@)) by {
            vstd::seq::Seq::lemma_push_to_set_commute(vb, name@);
        }
        match self.object_class_by_key(name.as_str()) {
            None => {
                assert(views(out@) =~= views(old(out)@) + Seq::<Seq<char>>::empty());
            },
            Some(oc) => {
                let ghost v1 = v0.insert(name@);
                proof { lemma_unvisited_insert(m, v0, name@); }
                let ghost ob = views(out@);
                out.push(copy_string(name));
                assert(views(out@) =~= ob.push(name@));
                let ghost sups = views(oc.sup@);
                assert(sups == m[name@].sup);
                let ghost target = sup_walk_list(m, sups, v1);
                let mut i: usize = 0;
                assert(sups.skip(0) =~= sups);
                while i < oc.sup.len()
                    invariant
                        m == self.ocs(),
                        m.dom().finite(),
                        sups == views(oc.sup@),
                        i <= sups.len(),
                        v1.subset_of(views(visited@).to_set()),
                        unvisited(m, v1) < unvisited(m, v0),
                        v0 == views(old(visited)@).to_set(),
                        target == sup_walk_list(m, sups, v1),
                        sup_walk_list(m, sups.skip(i as int), views(visited@).to_set()).0 == target.0,
                        views(out@) + sup_walk_list(m, sups.skip(i as int), views(visited@).to_set()).1
                            == views(old(out)@) + seq![name@] + target.1,
                    decreases sups.len() - i,
                {
                    let ghost cur = views(visited@).to_set();
                    let ghost a = sup_walk(m, sups[i as int], cur);
                    let ghost ob2 = views(out@);
                    proof {
                        lemma_unvisited_mono(m, v1, cur);
                        lemma_sup_walk(m, sups[i as int], cur);
                        assert(sups.skip(i as int).drop_first() =~= sups.skip(i as int + 1));
                        assert(sups.skip(i as int)[0] == sups[i as int]);
                        assert(cur.union(a.0) =~= a.0);
                    }
                    self.walk_sup(&oc.sup[i], visited, out);
                    proof {
                        assert(views(visited@).to_set() == a.0);
                        assert(v1.subset_of(a.0));
                        assert(views(out@) == ob2 + a.1);
                        assert(views(out@) + sup_walk_list(m, sups.skip(i as int + 1), views(visited@).to_set()).1
                            =~= ob2 + sup_walk_list(m, sups.skip(i as int), cur).1);
                    }
                    i += 1;
                }
                assert(sups.skip(i as int) =~= Seq::<Seq<char>>::empty());
                assert(views(out@) =~= views(old(out)@) + (seq![name@] + target.1));
            },
        }
    }

    /// The names (lowercase keys) met walking the SUP chain from `oc_name`, in pre-order.
    fn sup_chain_keys(&self, oc_name: &str) -> (r: Vec<String>)
        ensures
            views(r@) == sup_chain_keys(self.ocs(), oc_name@),
            forall|i: int| 0 <= i < r@.len() ==> self.ocs().dom().contains(#[trigger] views(r@)[i]),
    {
        self.finite();
        let key = to_lower(oc_name);
        let mut visited: Vec<String> = Vec::new();
        let mut out: Vec<String> = Vec::new();
        assert(views(visited@).to_set() =~= Set::<Seq<char>>::empty());
        self.walk_sup(&key, &mut visited, &mut out);
        assert(views(out@) =~= sup_chain_keys(self.ocs(), oc_name@));
        proof { lemma_sup_walk(self.ocs(), key@, Set::empty()); }
        out
    }

    /// Return the MUST / MAY attributes of the given OC, expanded across the SUP chain.
    /// Returned as (must_list, may_list) — both lowercase, sorted, and deduplicated.
    pub fn expanded_attrs(&self, oc_name: &str) -> (r: (Vec<String>, Vec<String>))
        ensures
            strictly_sorted(views(r.0@)),
            strictly_sorted(views(r.1@)),
            views(r.0@).to_set() == must_of(self.ocs(), sup_chain_keys(self.ocs(), oc_name@)),
            views(r.1@).to_set() == may_of(self.ocs(), sup_chain_keys(self.ocs(), oc_name@)),
    {
        let keys = self.sup_chain_keys(oc_name);
        let ghost m = self.ocs();
        let ghost ks = views(keys@);
        let mut must: Vec<String> = Vec::new();
        let mut may: Vec<String> = Vec::new();
        let mut i: usize = 0;
        assert(views(must@).to_set() =~= must_of(m, ks.take(0)));
        assert(views(may@).to_set() =~= may_of(m, ks.take(0)));
        while i < keys.len()
            invariant
                m == self.ocs(),
                ks == views(keys@),
                ks == sup_chain_keys(m, oc_name@),
                forall|j: int| 0 <= j < keys@.len() ==> m.dom().contains(#[trigger] ks[j]),
                i <= keys@.len(),
                strictly_sorted(views(must@)),
                strictly_sorted(views(may@)),
                views(must@).to_set() == must_of(m, ks.take(i as int)),
                views(may@).to_set() == may_of(m, ks.take(i as int)),
            decreases keys@.len() - i,
        {
            assert(ks[i as int] == keys@[i as int]@);
            assert(m.dom().contains(ks[i as int]));
            match self.object_class_by_key(keys[i].as_str()) {
                Some(oc) => {
                    insert_all_sorted_unique(&mut must, &oc.must);
                    insert_all_sorted_unique(&mut may, &oc.may);
                    let ghost t = ks.take(i as int + 1);
                    assert(t =~= ks.take(i as int).push(ks[i as int]));
                    assert(views(must@).to_set() =~= must_of(m, t)) by {
                        assert forall|x: Seq<char>| must_of(m, t).contains(x) implies views(must@).to_set().contains(x) by {
                            let j = choose|j: int| 0 <= j < t.len() && (#[trigger] m[t[j]]).must.contains(x);
                            if j < i {
                                assert(ks.take(i as int)[j] == t[j]);
                                assert(must_of(m, ks.take(i as int)).contains(x));
                            } else {
                                assert(views(oc.must@).to_set().contains(x));
                            }
                        }
                        assert forall|x: Seq<char>| views(must@).to_set().contains(x) implies must_of(m, t).contains(x) by {
                            if must_of(m, ks.take(i as int)).contains(x) {
                                let j = choose|j: int| 0 <= j < ks.take(i as int).len() && (#[trigger] m[ks.take(i as int)[j]]).must.contains(x);
                                assert(t[j] == ks.take(i as int)[j]);
                            } else {
                                assert(views(oc.must@).to_set().contains(x));
                                assert(m[t[i as int]].must.contains(x));
                            }
                        }
                    }
                    assert(views(may@).to_set() =~= may_of(m, t)) by {
                        assert forall|x: Seq<char>| may_of(m, t).contains(x) implies views(may@).to_set().contains(x) by {
                            let j = choose|j: int| 0 <= j < t.len() && (#[trigger] m[t[j]]).may.contains(x);
                            if j < i {
                                assert(ks.take(i as int)[j] == t[j]);
                                assert(may_of(m, ks.take(i as int)).contains(x));
                            } else {
                                assert(views(oc.may@).to_set().contains(x));
                            }
                        }
                        assert forall|x: Seq<char>| views(may@).to_set().contains(x) implies may_of(m, t).contains(x) by {
                            if may_of(m, ks.take(i as int)).contains(x) {
                                let j = choose|j: int| 0 <= j < ks.take(i as int).len() && (#[trigger] m[ks.take(i as int)[j]]).may.contains(x);
                                assert(t[j] == ks.take(i as int)[j]);
                            } else {
                                assert(views(oc.may@).to_set().contains(x));
                                assert(m[t[i as int]].may.contains(x));
                            }
                        }
                    }
                },
                None => {},
            }
            i += 1;
        }
        assert(ks.take(keys@.len() as int) =~= ks);
        (must, may)
    }

    /// Return the entire SUP chain that contains the given OC (leaf → root order): the first
    /// NAME of each objectClass met, each objectClass once. The names keep the casing the
    /// schema gives them.
    /// Used to build the full objectClass list to send on LDAP add.
    pub fn oc_sup_chain(&self, oc_name: &str) -> (r: Vec<String>)
        ensures
            views(r@) == first_names(self.ocs(), sup_chain_keys(self.ocs(), oc_name@)),
    {
        let keys = self.sup_chain_keys(oc_name);
        let ghost m = self.ocs();
        let ghost ks = views(keys@);
        let mut out: Vec<String> = Vec::new();
        let mut i: usize = 0;
        assert(views(out@) =~= first_names(m, ks.take(0)));
        while i < keys.len()
            invariant
                m == self.ocs(),
                ks == views(keys@),
                forall|j: int| 0 <= j < keys@.len() ==> m.dom().contains(#[trigger] ks[j]),
                i <= keys@.len(),
                views(out@) == first_names(m, ks.take(i as int)),
            decreases keys@.len() - i,
        {
            assert(ks[i as int] == keys@[i as int]@);
            assert(m.dom().contains(ks[i as int]));
            let ghost t = ks.take(i as int + 1);
            assert(t.drop_last() =~= ks.take(i as int));
            assert(t.last() == ks[i as int]);
            match self.object_class_by_key(keys[i].as_str()) {
                Some(oc) => {
                    if oc.names.len() > 0 {
                        let ghost before = views(out@);
                        out.push(copy_string(&oc.first_name));
                        assert(views(out@) =~= before + seq![oc.first_name@]);
                    } else {
                        assert(views(out@) =~= views(out@) + Seq::<Seq<char>>::empty());
                    }
                },
                None => {},
            }
            i += 1;
        }
        assert(ks.take(keys@.len() as int) =~= ks);
        out
    }
}


/// In a cache built from raw objectClasses values, every MUST and MAY name that the SUP-chain
/// expansion of a class yields is the lowercasing of a name written in the schema.
pub proof fn law_expanded_names_are_lowercased(raw: Seq<Seq<char>>, oc_name: Seq<char>, x: Seq<char>)
    requires
        must_of(oc_defs_map(raw), sup_chain_keys(oc_defs_map(raw), oc_name)).contains(x)
            || may_of(oc_defs_map(raw), sup_chain_keys(oc_defs_map(raw), oc_name)).contains(x),
    ensures
        lowered(x),
{
    let m = oc_defs_map(raw);
    lemma_oc_defs_lowered(raw);
    lemma_sup_walk(m, lowercase(oc_name), Set::empty());
    let keys = sup_chain_keys(m, oc_name);
    if must_of(m, keys).contains(x) {
        let i = choose|i: int| 0 <= i < keys.len() && (#[trigger] m[keys[i]]).must.contains(x);
        assert(m.dom().contains(keys[i]));
        let j = choose|j: int| 0 <= j < m[keys[i]].must.len() && m[keys[i]].must[j] == x;
        assert(lowered(m[keys[i]].must[j]));
    } else {
        let i = choose|i: int| 0 <= i < keys.len() && (#[trigger] m[keys[i]]).may.contains(x);
        assert(m.dom().contains(keys[i]));
        let j = choose|j: int| 0 <= j < m[keys[i]].may.len() && m[keys[i]].may[j] == x;
        assert(lowered(m[keys[i]].may[j]));
    }
}

} // verus!
