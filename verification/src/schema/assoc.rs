//! Association lists keyed by strings: a map whose keys occur once each.
use vstd::prelude::*;

use crate::text::str_eq;

verus! {

broadcast use vstd::set::group_set_axioms;

/// The keys of an association list.
pub open spec fn keys_of<T>(e: Seq<(String, T)>) -> Seq<Seq<char>> {
    e.map_values(|p: (String, T)| p.0@)
}

/// The map that an association list stands for (a later entry wins over an earlier one).
pub open spec fn assoc_map<T: View>(e: Seq<(String, T)>) -> Map<Seq<char>, T::V>
    decreases e.len(),
{
    if e.len() == 0 {
        Map::empty()
    } else {
        assoc_map(e.drop_last()).insert(e.last().0@, e.last().1@)
    }
}

pub open spec fn unique_keys<T>(e: Seq<(String, T)>) -> bool {
    keys_of(e).no_duplicates()
}

pub proof fn lemma_assoc_map<T: View>(e: Seq<(String, T)>)
    requires
        unique_keys(e),
    ensures
        assoc_map(e).dom() == keys_of(e).to_set(),
        assoc_map(e).dom().finite(),
        forall|j: int| 0 <= j < e.len() ==> #[trigger] assoc_map(e)[e[j].0@] == e[j].1@,
    decreases e.len(),
{
    if e.len() > 0 {
        let d = e.drop_last();
        assert(keys_of(d) =~= keys_of(e).drop_last());
        lemma_assoc_map(d);
        assert(keys_of(e) =~= keys_of(d).push(e.last().0@));
        assert(keys_of(e).to_set() =~= keys_of(d).to_set().insert(e.last().0@)) by {
            vstd::seq::Seq::lemma_push_to_set_commute(keys_of(d), e.last().0@);
        }
        assert forall|j: int| 0 <= j < e.len() implies #[trigger] assoc_map(e)[e[j].0@] == e[j].1@ by {
            if j < e.len() - 1 {
                assert(d[j] == e[j]);
                assert(keys_of(e)[j] != keys_of(e)[e.len() - 1]);
            }
        }
    } else {
        assert(keys_of(e).to_set() =~= Set::<Seq<char>>::empty());
    }
}

pub proof fn lemma_assoc_update<T: View>(e: Seq<(String, T)>, j: int, p: (String, T))
    requires
        unique_keys(e),
        0 <= j < e.len(),
        e[j].0@ == p.0@,
    ensures
        assoc_map(e.update(j, p)) == assoc_map(e).insert(p.0@, p.1@),
        unique_keys(e.update(j, p)),
    decreases e.len(),
{
    assert(keys_of(e.update(j, p)) =~= keys_of(e));
    let u = e.update(j, p);
    if j == e.len() - 1 {
        assert(u.drop_last() =~= e.drop_last());
        assert(assoc_map(u) =~= assoc_map(e).insert(p.0@, p.1@));
    } else {
        let d = e.drop_last();
        assert(keys_of(d) =~= keys_of(e).drop_last());
        assert(u.drop_last() =~= d.update(j, p));
        lemma_assoc_update(d, j, p);
        assert(keys_of(e)[j] != keys_of(e)[e.len() - 1]);
        assert(assoc_map(u) =~= assoc_map(e).insert(p.0@, p.1@));
    }
}

/// Position of the entry with the given key, if any.
pub fn assoc_find<T: View>(e: &Vec<(String, T)>, key: &str) -> (r: Option<usize>)
    ensures
        match r {
            Some(j) => j < e@.len() && e@[j as int].0@ == key@,
            None => !keys_of(e@).contains(key@),
        },
{
    let mut j: usize = 0;
    while j < e.len()
        invariant
            j <= e@.len(),
            forall|i: int| 0 <= i < j ==> e@[i].0@ != key@,
        decreases e@.len() - j,
    {
        if str_eq(e[j].0.as_str(), key) {
            return Some(j);
        }
        j += 1;
    }
    assert forall|i: int| 0 <= i < keys_of(e@).len() implies keys_of(e@)[i] != key@ by {
        assert(keys_of(e@)[i] == e@[i].0@);
    }
    None
}

/// Insert or replace the value for `key`.
pub fn assoc_insert<T: View>(e: &mut Vec<(String, T)>, key: String, v: T)
    requires
        unique_keys(old(e)@),
    ensures
        unique_keys(final(e)@),
        assoc_map(final(e)@) == assoc_map(old(e)@).insert(key@, v@),
{
    match assoc_find(e, key.as_str()) {
        Some(j) => {
            proof { lemma_assoc_update(e@, j as int, (key, v)); }
            e[j] = (key, v);
        },
        None => {
            let ghost k = key@;
            e.push((key, v));
            assert(e@.drop_last() =~= old(e)@);
            assert(keys_of(e@) =~= keys_of(old(e)@).push(k));
            proof { crate::text::lemma_push_no_dup(keys_of(old(e)@), k); }
        },
    }
}

/// The value stored under `key`.
pub fn assoc_get<'a, T: View>(e: &'a Vec<(String, T)>, key: &str) -> (r: Option<&'a T>)
    requires
        unique_keys(e@),
    ensures
        r is Some <==> assoc_map(e@).dom().contains(key@),
        r is Some ==> r->0@ == assoc_map(e@)[key@],
{
    proof { lemma_assoc_map(e@); }
    match assoc_find(e, key) {
        Some(j) => {
            assert(keys_of(e@)[j as int] == key@);
            Some(&e[j].1)
        },
        None => None,
    }
}

} // verus!
