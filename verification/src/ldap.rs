//! The computing side of the directory operations: how listed children, search results and
//! naming contexts are ordered, and how a fetched entry becomes the editor's `LdapEntry`.
//! The network exchange itself is the caller's; it hands the replies over as plain values.
use vstd::prelude::*;
use base64::Engine;

use crate::actions::objectclass_attr;
use crate::display::{byte_len, str_byte_len};
use crate::model::LdapEntry;
use crate::text::{
    copy_string, eq_ignore_ascii_case, lemma_str_lt_asym, lemma_str_lt_total, lemma_str_lt_trans,
    lowercase, str_eq, str_eq_ignore_ascii_case, str_less, str_lt, to_lower, views,
};
use crate::tree::ChildNode;

verus! {

// ── Stable sort by a text key ────────────────────────────────────────────────

/// `p` is where an element with key `k` goes into `t`: after every element whose key is
/// below `k`, in front of the first one whose key is not.
pub open spec fn slot_ok<T>(t: Seq<T>, k: Seq<char>, key: spec_fn(T) -> Seq<char>, p: int) -> bool {
    &&& 0 <= p <= t.len()
    &&& forall|j: int| 0 <= j < p ==> str_lt(key(#[trigger] t[j]), k)
    &&& p < t.len() ==> !str_lt(key(t[p]), k)
}

pub open spec fn slot<T>(t: Seq<T>, k: Seq<char>, key: spec_fn(T) -> Seq<char>) -> int {
    choose|p: int| slot_ok(t, k, key, p)
}

/// Stable sort by key: the first element goes into the sorted rest in front of every
/// element with the same key, so that equal keys keep their order.
pub open spec fn sort_by_key_spec<T>(s: Seq<T>, key: spec_fn(T) -> Seq<char>) -> Seq<T>
    decreases s.len(),
{
    if s.len() == 0 {
        s
    } else {
        let rest = sort_by_key_spec(s.drop_first(), key);
        rest.insert(slot(rest, key(s[0]), key), s[0])
    }
}

/// No element's key is below that of an earlier one.
pub open spec fn key_sorted<T>(s: Seq<T>, key: spec_fn(T) -> Seq<char>) -> bool {
    forall|i: int, j: int| 0 <= i < j < s.len() ==> !str_lt(key(#[trigger] s[j]), key(#[trigger] s[i]))
}

/// The key of a (name, value) pair: its name in lower case.
pub open spec fn lower_name<V>() -> spec_fn((String, V)) -> Seq<char> {
    |p: (String, V)| lowercase(p.0@)
}

/// The key of a string: the string in lower case.
pub open spec fn lower_text() -> spec_fn(String) -> Seq<char> {
    |s: String| lowercase(s@)
}

/// The key of a string: the string itself.
pub open spec fn plain_text() -> spec_fn(String) -> Seq<char> {
    |s: String| s@
}

proof fn lemma_slot_unique<T>(t: Seq<T>, k: Seq<char>, key: spec_fn(T) -> Seq<char>, p: int, q: int)
    requires
        slot_ok(t, k, key, p),
        slot_ok(t, k, key, q),
    ensures
        p == q,
{
    if p < q {
        assert(str_lt(key(t[p]), k));
    } else if q < p {
        assert(str_lt(key(t[q]), k));
    }
}

proof fn lemma_slot_exists<T>(t: Seq<T>, k: Seq<char>, key: spec_fn(T) -> Seq<char>)
    ensures
        slot_ok(t, k, key, slot(t, k, key)),
    decreases t.len(),
{
    if t.len() == 0 {
        assert(slot_ok(t, k, key, 0));
    } else {
        let u = t.drop_last();
        lemma_slot_exists(u, k, key);
        let q = slot(u, k, key);
        if q < u.len() {
            assert(forall|j: int| 0 <= j < q ==> t[j] == u[j]);
            assert(slot_ok(t, k, key, q));
        } else if str_lt(key(t[t.len() - 1]), k) {
            assert forall|j: int| 0 <= j < t.len() implies str_lt(key(#[trigger] t[j]), k) by {
                if j < u.len() {
                    assert(t[j] == u[j]);
                }
            }
            assert(slot_ok(t, k, key, t.len() as int));
        } else {
            assert(forall|j: int| 0 <= j < q ==> t[j] == u[j]);
            assert(slot_ok(t, k, key, q));
        }
    }
}

/// Not below, as a relation, is transitive.
proof fn lemma_not_below_trans(a: Seq<char>, b: Seq<char>, c: Seq<char>)
    requires
        !str_lt(a, b),
        !str_lt(b, c),
    ensures
        !str_lt(a, c),
{
    if str_lt(a, c) {
        lemma_str_lt_total(a, b);
        lemma_str_lt_total(b, c);
        if a == b {
        } else if b == c {
        } else {
            lemma_str_lt_trans(b, a, c);
            lemma_str_lt_trans(c, b, a);
            lemma_str_lt_asym(a, c);
        }
    }
}

/// The stable sort puts the elements in key order, and is a permutation.
pub proof fn law_sort_by_key_orders_and_permutes<T>(s: Seq<T>, key: spec_fn(T) -> Seq<char>)
    ensures
        key_sorted(sort_by_key_spec(s, key), key),
        sort_by_key_spec(s, key).to_multiset() == s.to_multiset(),
    decreases s.len(),
{
    if s.len() > 0 {
        let rest = sort_by_key_spec(s.drop_first(), key);
        law_sort_by_key_orders_and_permutes(s.drop_first(), key);
        let k = key(s[0]);
        lemma_slot_exists(rest, k, key);
        let p = slot(rest, k, key);
        let u = rest.insert(p, s[0]);
        assert(u == sort_by_key_spec(s, key));
        assert forall|i: int, j: int| 0 <= i < j < u.len() implies !str_lt(key(#[trigger] u[j]), key(#[trigger] u[i])) by {
            if j < p {
                assert(u[i] == rest[i] && u[j] == rest[j]);
            } else if j == p {
                assert(u[i] == rest[i]);
                lemma_str_lt_asym(key(rest[i]), k);
            } else if i < p {
                assert(u[i] == rest[i] && u[j] == rest[j - 1]);
                // rest[i] < k <= rest[p] <= rest[j - 1]
                assert(str_lt(key(rest[i]), k));
                assert(!str_lt(key(rest[p]), k));
                if p < j - 1 {
                    assert(!str_lt(key(rest[j - 1]), key(rest[p])));
                    lemma_not_below_trans(key(rest[j - 1]), key(rest[p]), k);
                }
                lemma_str_lt_asym(key(rest[i]), k);
                lemma_str_lt_total(key(rest[i]), k);
                lemma_not_below_trans(key(rest[j - 1]), k, key(rest[i]));
            } else if i == p {
                assert(u[j] == rest[j - 1]);
                assert(!str_lt(key(rest[p]), k));
                if p < j - 1 {
                    assert(!str_lt(key(rest[j - 1]), key(rest[p])));
                    lemma_not_below_trans(key(rest[j - 1]), key(rest[p]), k);
                }
            } else {
                assert(u[i] == rest[i - 1] && u[j] == rest[j - 1]);
            }
        }
        rest.to_multiset_ensures();
        s.drop_first().to_multiset_ensures();
        vstd::seq_lib::lemma_multiset_commutative(seq![s[0]], s.drop_first());
        assert(s =~= seq![s[0]] + s.drop_first());
        assert(u =~= rest.subrange(0, p) + seq![s[0]] + rest.subrange(p, rest.len() as int));
        assert(rest =~= rest.subrange(0, p) + rest.subrange(p, rest.len() as int));
        vstd::seq_lib::lemma_multiset_commutative(rest.subrange(0, p), rest.subrange(p, rest.len() as int));
        vstd::seq_lib::lemma_multiset_commutative(rest.subrange(0, p) + seq![s[0]], rest.subrange(p, rest.len() as int));
        vstd::seq_lib::lemma_multiset_commutative(rest.subrange(0, p), seq![s[0]]);
        assert(u.to_multiset() =~= s.to_multiset());
    }
}

/// Where `x` (with key `kx`) goes into the key-sorted `r`.
fn find_slot<V>(r: &Vec<(String, V)>, kx: &String) -> (p: usize)
    ensures
        slot_ok(r@, kx@, lower_name::<V>(), p as int),
{
    let mut p: usize = 0;
    while p < r.len() && str_less(to_lower(r[p].0.as_str()).as_str(), kx.as_str())
        invariant
            p <= r@.len(),
            forall|j: int| 0 <= j < p ==> str_lt(#[trigger] lower_name::<V>()(r@[j]), kx@),
        decreases r@.len() - p,
    {
        p += 1;
    }
    p
}

/// Sort (name, value) pairs by their names in lower case, keeping the order of equal names
/// (`sort_by_key(|(k, _)| k.to_lowercase())`).
pub fn sort_by_lower_name<V>(items: Vec<(String, V)>) -> (r: Vec<(String, V)>)
    ensures
        r@ == sort_by_key_spec(items@, lower_name::<V>()),
{
    let ghost s = items@;
    let ghost key = lower_name::<V>();
    let mut items = items;
    let mut r: Vec<(String, V)> = Vec::new();
    assert(s.skip(s.len() as int) =~= Seq::<(String, V)>::empty());
    assert(items@ =~= s.take(s.len() as int));
    while items.len() > 0
        invariant
            items@.len() <= s.len(),
            items@ == s.take(items@.len() as int),
            r@ == sort_by_key_spec(s.skip(items@.len() as int), key),
            key == lower_name::<V>(),
        decreases items@.len(),
    {
        let n: usize = items.len();
        let x = items.pop().unwrap();
        assert(x == s[n - 1]);
        assert(items@ =~= s.take(n - 1));
        let kx = to_lower(x.0.as_str());
        assert(kx@ == key(x));
        let p = find_slot(&r, &kx);
        proof {
            lemma_slot_exists(r@, kx@, key);
            lemma_slot_unique(r@, kx@, key, p as int, slot(r@, kx@, key));
            assert(s.skip(n - 1).drop_first() =~= s.skip(n as int));
            assert(s.skip(n - 1)[0] == x);
        }
        r.insert(p, x);
    }
    assert(s.skip(0) =~= s);
    r
}

/// The key of a string under `fold_case`: lower case, or the string itself.
pub open spec fn text_key(fold_case: bool) -> spec_fn(String) -> Seq<char> {
    if fold_case {
        lower_text()
    } else {
        plain_text()
    }
}

fn key_of(s: &String, fold_case: bool) -> (r: String)
    ensures
        r@ == text_key(fold_case)(*s),
{
    if fold_case {
        to_lower(s.as_str())
    } else {
        copy_string(s)
    }
}

fn find_text_slot(r: &Vec<String>, kx: &String, fold_case: bool) -> (p: usize)
    ensures
        slot_ok(r@, kx@, text_key(fold_case), p as int),
{
    let mut p: usize = 0;
    while p < r.len()
        invariant
            p <= r@.len(),
            forall|j: int| 0 <= j < p ==> str_lt(#[trigger] text_key(fold_case)(r@[j]), kx@),
        ensures
            p <= r@.len(),
            forall|j: int| 0 <= j < p ==> str_lt(#[trigger] text_key(fold_case)(r@[j]), kx@),
            p < r@.len() ==> !str_lt(text_key(fold_case)(r@[p as int]), kx@),
        decreases r@.len() - p,
    {
        let kp = key_of(&r[p], fold_case);
        if !str_less(kp.as_str(), kx.as_str()) {
            break;
        }
        p += 1;
    }
    p
}

fn sort_texts(items: Vec<String>, fold_case: bool) -> (r: Vec<String>)
    ensures
        r@ == sort_by_key_spec(items@, text_key(fold_case)),
{
    let ghost s = items@;
    let ghost key = text_key(fold_case);
    let mut items = items;
    let mut r: Vec<String> = Vec::new();
    assert(s.skip(s.len() as int) =~= Seq::<String>::empty());
    assert(items@ =~= s.take(s.len() as int));
    while items.len() > 0
        invariant
            items@.len() <= s.len(),
            items@ == s.take(items@.len() as int),
            r@ == sort_by_key_spec(s.skip(items@.len() as int), key),
            key == text_key(fold_case),
        decreases items@.len(),
    {
        let n: usize = items.len();
        let x = items.pop().unwrap();
        assert(x == s[n - 1]);
        assert(items@ =~= s.take(n - 1));
        let kx = key_of(&x, fold_case);
        let p = find_text_slot(&r, &kx, fold_case);
        proof {
            lemma_slot_exists(r@, kx@, key);
            lemma_slot_unique(r@, kx@, key, p as int, slot(r@, kx@, key));
            assert(s.skip(n - 1).drop_first() =~= s.skip(n as int));
            assert(s.skip(n - 1)[0] == x);
        }
        r.insert(p, x);
    }
    assert(s.skip(0) =~= s);
    r
}

/// Sort strings by their lower-case form, keeping the order of those that fold to the same
/// text (`sort_by_key(|d| d.to_lowercase())`); search results come back in this order.
pub fn sort_by_lowercase(items: Vec<String>) -> (r: Vec<String>)
    ensures
        r@ == sort_by_key_spec(items@, lower_text()),
{
    sort_texts(items, true)
}

/// Sort strings in `str` order; the naming contexts are listed in this order.
pub fn sort_plain(items: Vec<String>) -> (r: Vec<String>)
    ensures
        r@ == sort_by_key_spec(items@, plain_text()),
{
    sort_texts(items, false)
}

// ── Children ─────────────────────────────────────────────────────────────────

/// "TRUE", the value of `hasSubordinates` for an entry with children.
pub open spec fn true_text() -> Seq<char> {
    seq!['T', 'R', 'U', 'E']
}

/// Whether a listed child has children, from the first value of its `hasSubordinates`:
/// "TRUE" in any case means yes, another value no; without the attribute it is assumed.
pub open spec fn subordinate_flag(first: Option<String>) -> bool {
    match first {
        Some(v) => eq_ignore_ascii_case(v@, true_text()),
        None => true,
    }
}

pub fn has_subordinates(first: &Option<String>) -> (r: bool)
    ensures
        r == subordinate_flag(*first),
{
    match first {
        Some(v) => {
            let t = "TRUE";
            proof {
                reveal_strlit("TRUE");
                assert(t@ =~= true_text());
            }
            str_eq_ignore_ascii_case(v.as_str(), t)
        },
        None => true,
    }
}

/// Each listed child's DN with its flag.
pub open spec fn flagged(raw: Seq<(String, Option<String>)>) -> Seq<(String, bool)> {
    raw.map_values(|p: (String, Option<String>)| (p.0, subordinate_flag(p.1)))
}

pub open spec fn child_of(p: (String, bool)) -> ChildNode {
    ChildNode { dn: p.0, has_children: p.1 }
}

/// The children of an entry as the tree lists them, from each child's DN and the first value
/// of its `hasSubordinates` (if any): flagged, then sorted by DN in lower case.
pub fn child_nodes(raw: Vec<(String, Option<String>)>) -> (r: Vec<ChildNode>)
    ensures
        r@ == sort_by_key_spec(flagged(raw@), lower_name::<bool>()).map_values(|p: (String, bool)| child_of(p)),
{
    let ghost s = raw@;
    let mut raw = raw;
    let mut pairs: Vec<(String, bool)> = Vec::new();
    let mut k: usize = 0;
    let total: usize = raw.len();
    while raw.len() > 0
        invariant
            k + raw@.len() == s.len(),
            s.len() == total,
            raw@ == s.skip(k as int),
            pairs@ == flagged(s.take(k as int)),
        decreases raw@.len(),
    {
        let (dn, first) = raw.remove(0);
        assert(s[k as int] == (dn, first));
        let f = has_subordinates(&first);
        pairs.push((dn, f));
        assert(raw@ =~= s.skip(k + 1));
        assert(flagged(s.take(k + 1)) =~= flagged(s.take(k as int)).push((dn, f)));
        k += 1;
    }
    assert(s.take(k as int) =~= s);
    let sorted = sort_by_lower_name(pairs);
    let ghost t = sorted@;
    let mut sorted = sorted;
    let mut r: Vec<ChildNode> = Vec::new();
    let mut j: usize = 0;
    let total: usize = sorted.len();
    while sorted.len() > 0
        invariant
            j + sorted@.len() == t.len(),
            t.len() == total,
            sorted@ == t.skip(j as int),
            r@ == t.take(j as int).map_values(|p: (String, bool)| child_of(p)),
        decreases sorted@.len(),
    {
        let (dn, f) = sorted.remove(0);
        assert(t[j as int] == (dn, f));
        r.push(ChildNode { dn, has_children: f });
        assert(sorted@ =~= t.skip(j + 1));
        assert(t.take(j + 1).map_values(|p: (String, bool)| child_of(p)) =~= t.take(j as int).map_values(
            |p: (String, bool)| child_of(p),
        ).push(child_of((dn, f))));
        j += 1;
    }
    assert(t.take(j as int) =~= t);
    r
}

// ── Entries ──────────────────────────────────────────────────────────────────

/// One entry as a search returned it: its text attributes and its binary ones, each a name
/// with its values.
pub struct RawEntry {
    pub attrs: Vec<(String, Vec<String>)>,
    pub bin_attrs: Vec<(String, Vec<Vec<u8>>)>,
}

/// The base64 alphabet (RFC 4648): `A`–`Z`, `a`–`z`, `0`–`9`, `+`, `/`.
pub open spec fn b64_digit(v: int) -> char {
    if v < 26 {
        (65 + v) as char
    } else if v < 52 {
        (97 + v - 26) as char
    } else if v < 62 {
        (48 + v - 52) as char
    } else if v == 62 {
        '+'
    } else {
        '/'
    }
}

/// Standard base64 (RFC 4648 alphabet, with `=` padding): each group of three bytes becomes
/// four digits of six bits each; a last group of one or two bytes is padded.
pub open spec fn base64_standard(bytes: Seq<u8>) -> Seq<char>
    decreases bytes.len(),
{
    if bytes.len() == 0 {
        Seq::empty()
    } else if bytes.len() == 1 {
        let a = bytes[0] as int;
        seq![b64_digit(a / 4), b64_digit((a % 4) * 16), '=', '=']
    } else if bytes.len() == 2 {
        let a = bytes[0] as int;
        let b = bytes[1] as int;
        seq![b64_digit(a / 4), b64_digit((a % 4) * 16 + b / 16), b64_digit((b % 16) * 4), '=']
    } else {
        let a = bytes[0] as int;
        let b = bytes[1] as int;
        let c = bytes[2] as int;
        seq![b64_digit(a / 4), b64_digit((a % 4) * 16 + b / 16), b64_digit((b % 16) * 4 + c / 64), b64_digit(c % 64)]
            + base64_standard(bytes.skip(3))
    }
}

/// `base64::engine::general_purpose::STANDARD.encode`: standard base64 with padding, as
/// `base64_standard` spells it out.
#[verifier::external_body]
fn b64_encode(bytes: &Vec<u8>) -> (r: String)
    ensures
        r@ == base64_standard(bytes@),
{
    base64::engine::general_purpose::STANDARD.encode(bytes)
}

/// The values of the attributes named exactly "objectClass", in order.
pub open spec fn oc_values_of(attrs: Seq<(String, Vec<String>)>) -> Seq<String>
    decreases attrs.len(),
{
    if attrs.len() == 0 {
        seq![]
    } else if attrs.last().0@ == objectclass_attr() {
        oc_values_of(attrs.drop_last()) + attrs.last().1@
    } else {
        oc_values_of(attrs.drop_last())
    }
}

/// The attributes other than "objectClass", in order.
pub open spec fn other_attrs(attrs: Seq<(String, Vec<String>)>) -> Seq<(String, Vec<String>)>
    decreases attrs.len(),
{
    if attrs.len() == 0 {
        seq![]
    } else if attrs.last().0@ == objectclass_attr() {
        other_attrs(attrs.drop_last())
    } else {
        other_attrs(attrs.drop_last()).push(attrs.last())
    }
}

/// A list of (name, value) rows as texts.
pub open spec fn rows_view(rows: Seq<(String, String)>) -> Seq<(Seq<char>, Seq<char>)> {
    rows.map_values(|r: (String, String)| (r.0@, r.1@))
}

/// One row per value, attribute after attribute.
pub open spec fn text_rows(pairs: Seq<(String, Vec<String>)>) -> Seq<(Seq<char>, Seq<char>)>
    decreases pairs.len(),
{
    if pairs.len() == 0 {
        seq![]
    } else {
        let (name, vals) = pairs.last();
        text_rows(pairs.drop_last()) + vals@.map_values(|v: String| (name@, v@))
    }
}

/// One row per binary value, shown in base64, attribute after attribute.
pub open spec fn binary_rows(pairs: Seq<(String, Vec<Vec<u8>>)>) -> Seq<(Seq<char>, Seq<char>)>
    decreases pairs.len(),
{
    if pairs.len() == 0 {
        seq![]
    } else {
        let (name, vals) = pairs.last();
        binary_rows(pairs.drop_last()) + vals@.map_values(|v: Vec<u8>| (name@, base64_standard(v@)))
    }
}

/// The rows of one entry: text attributes, then binary ones, each sorted by name in lower case;
/// "objectClass" is left out where `skip_oc` holds.
pub open spec fn entry_rows(e: RawEntry, skip_oc: bool) -> Seq<(Seq<char>, Seq<char>)> {
    let text = if skip_oc { other_attrs(e.attrs@) } else { e.attrs@ };
    text_rows(sort_by_key_spec(text, lower_name::<Vec<String>>())) + binary_rows(
        sort_by_key_spec(e.bin_attrs@, lower_name::<Vec<Vec<u8>>>()),
    )
}

/// The rows of a list of entries, entry after entry.
pub open spec fn all_rows(es: Seq<RawEntry>, skip_oc: bool) -> Seq<(Seq<char>, Seq<char>)>
    decreases es.len(),
{
    if es.len() == 0 {
        seq![]
    } else {
        all_rows(es.drop_last(), skip_oc) + entry_rows(es.last(), skip_oc)
    }
}

/// The objectClass values of a list of entries: each entry's, sorted in lower case, in turn.
pub open spec fn all_oc_values(es: Seq<RawEntry>) -> Seq<Seq<char>>
    decreases es.len(),
{
    if es.len() == 0 {
        seq![]
    } else {
        all_oc_values(es.drop_last()) + views(sort_by_key_spec(oc_values_of(es.last().attrs@), lower_text()))
    }
}

/// The longest row name, in bytes (0 when there is no row).
pub open spec fn longest_name(rows: Seq<(Seq<char>, Seq<char>)>) -> nat
    decreases rows.len(),
{
    if rows.len() == 0 {
        0
    } else {
        let prev = longest_name(rows.drop_last());
        let w = byte_len(rows.last().0);
        if w > prev { w } else { prev }
    }
}

/// The width of the attribute-name column: the longest name, kept within 8 to 28.
pub open spec fn name_width(rows: Seq<(Seq<char>, Seq<char>)>) -> nat {
    let w = longest_name(rows);
    if w < 8 {
        8
    } else if w > 28 {
        28
    } else {
        w
    }
}

fn split_object_classes(attrs: Vec<(String, Vec<String>)>) -> (r: (Vec<String>, Vec<(String, Vec<String>)>))
    ensures
        r.0@ == oc_values_of(attrs@),
        r.1@ == other_attrs(attrs@),
{
    let ghost s = attrs@;
    let mut attrs = attrs;
    let mut ocs: Vec<String> = Vec::new();
    let mut others: Vec<(String, Vec<String>)> = Vec::new();
    let oc = crate::actions::objectclass_attr_string();
    let total: usize = attrs.len();
    let mut k: usize = 0;
    while attrs.len() > 0
        invariant
            k + attrs@.len() == s.len(),
            s.len() == total,
            attrs@ == s.skip(k as int),
            ocs@ == oc_values_of(s.take(k as int)),
            others@ == other_attrs(s.take(k as int)),
            oc@ == objectclass_attr(),
        decreases attrs@.len(),
    {
        let (name, vals) = attrs.remove(0);
        assert(s[k as int] == (name, vals));
        assert(s.take(k + 1).drop_last() =~= s.take(k as int));
        assert(s.take(k + 1).last() == (name, vals));
        if str_eq(name.as_str(), oc.as_str()) {
            let mut vals = vals;
            ocs.append(&mut vals);
        } else {
            others.push((name, vals));
        }
        assert(attrs@ =~= s.skip(k + 1));
        k += 1;
    }
    assert(s.take(k as int) =~= s);
    (ocs, others)
}

fn push_text_rows(rows: &mut Vec<(String, String)>, pairs: &Vec<(String, Vec<String>)>)
    ensures
        rows_view(final(rows)@) == rows_view(old(rows)@) + text_rows(pairs@),
{
    let ghost start = rows_view(rows@);
    let mut i: usize = 0;
    while i < pairs.len()
        invariant
            i <= pairs@.len(),
            rows_view(rows@) == start + text_rows(pairs@.take(i as int)),
        decreases pairs@.len() - i,
    {
        let name = &pairs[i].0;
        let vals = &pairs[i].1;
        let ghost before = rows_view(rows@);
        let mut j: usize = 0;
        while j < vals.len()
            invariant
                j <= vals@.len(),
                rows_view(rows@) == before + vals@.take(j as int).map_values(|v: String| (name@, v@)),
            decreases vals@.len() - j,
        {
            let ghost prev = rows@;
            rows.push((copy_string(name), copy_string(&vals[j])));
            assert(rows_view(rows@) =~= rows_view(prev).push((name@, vals@[j as int]@)));
            assert(vals@.take(j + 1).map_values(|v: String| (name@, v@)) =~= vals@.take(j as int).map_values(
                |v: String| (name@, v@),
            ).push((name@, vals@[j as int]@)));
            j += 1;
        }
        assert(vals@.take(j as int) =~= vals@);
        assert(pairs@.take(i + 1).drop_last() =~= pairs@.take(i as int));
        assert(pairs@.take(i + 1).last() == pairs@[i as int]);
        i += 1;
    }
    assert(pairs@.take(i as int) =~= pairs@);
}

fn push_binary_rows(rows: &mut Vec<(String, String)>, pairs: &Vec<(String, Vec<Vec<u8>>)>)
    ensures
        rows_view(final(rows)@) == rows_view(old(rows)@) + binary_rows(pairs@),
{
    let ghost start = rows_view(rows@);
    let mut i: usize = 0;
    while i < pairs.len()
        invariant
            i <= pairs@.len(),
            rows_view(rows@) == start + binary_rows(pairs@.take(i as int)),
        decreases pairs@.len() - i,
    {
        let name = &pairs[i].0;
        let vals = &pairs[i].1;
        let ghost before = rows_view(rows@);
        let mut j: usize = 0;
        while j < vals.len()
            invariant
                j <= vals@.len(),
                rows_view(rows@) == before + vals@.take(j as int).map_values(|v: Vec<u8>| (name@, base64_standard(v@))),
            decreases vals@.len() - j,
        {
            let ghost prev = rows@;
            rows.push((copy_string(name), b64_encode(&vals[j])));
            assert(rows_view(rows@) =~= rows_view(prev).push((name@, base64_standard(vals@[j as int]@))));
            assert(vals@.take(j + 1).map_values(|v: Vec<u8>| (name@, base64_standard(v@))) =~= vals@.take(
                j as int,
            ).map_values(|v: Vec<u8>| (name@, base64_standard(v@))).push((name@, base64_standard(vals@[j as int]@))));
            j += 1;
        }
        assert(vals@.take(j as int) =~= vals@);
        assert(pairs@.take(i + 1).drop_last() =~= pairs@.take(i as int));
        assert(pairs@.take(i + 1).last() == pairs@[i as int]);
        i += 1;
    }
    assert(pairs@.take(i as int) =~= pairs@);
}

/// Add the rows of the entries to `rows`, and (where `skip_oc` holds) their objectClass values
/// to `ocs`.
fn push_entries(rows: &mut Vec<(String, String)>, ocs: &mut Vec<String>, es: Vec<RawEntry>, skip_oc: bool)
    ensures
        rows_view(final(rows)@) == rows_view(old(rows)@) + all_rows(es@, skip_oc),
        skip_oc ==> views(final(ocs)@) == views(old(ocs)@) + all_oc_values(es@),
{
    let ghost s = es@;
    let ghost rows0 = rows_view(rows@);
    let ghost ocs0 = views(ocs@);
    let mut es = es;
    let total: usize = es.len();
    let mut k: usize = 0;
    while es.len() > 0
        invariant
            k + es@.len() == s.len(),
            s.len() == total,
            es@ == s.skip(k as int),
            rows_view(rows@) == rows0 + all_rows(s.take(k as int), skip_oc),
            skip_oc ==> views(ocs@) == ocs0 + all_oc_values(s.take(k as int)),
        decreases es@.len(),
    {
        let e = es.remove(0);
        assert(s[k as int] == e);
        assert(s.take(k + 1).drop_last() =~= s.take(k as int));
        assert(s.take(k + 1).last() == e);
        let RawEntry { attrs, bin_attrs } = e;
        let text = if skip_oc {
            let (oc_vals, others) = split_object_classes(attrs);
            let sorted_ocs = sort_texts(oc_vals, true);
            let ghost before = views(ocs@);
            let mut sorted_ocs = sorted_ocs;
            let ghost added = views(sorted_ocs@);
            ocs.append(&mut sorted_ocs);
            assert(views(ocs@) =~= before + added);
            others
        } else {
            attrs
        };
        let text = sort_by_lower_name(text);
        push_text_rows(rows, &text);
        let bin = sort_by_lower_name(bin_attrs);
        push_binary_rows(rows, &bin);
        assert(es@ =~= s.skip(k + 1));
        k += 1;
    }
    assert(s.take(k as int) =~= s);
}

/// Build the editor's view of an entry from the two searches that read it: `user_rs` with its
/// user attributes, `op_rs` with its operational ones. The objectClass values are listed apart,
/// each row holds one value (binary ones in base64), and the name column is as wide as the
/// longest user attribute name, kept within 8 to 28.
pub fn parse_entry(dn: &str, user_rs: Vec<RawEntry>, op_rs: Vec<RawEntry>) -> (r: LdapEntry)
    ensures
        r.dn@ == dn@,
        views(r.oc_values@) == all_oc_values(user_rs@),
        rows_view(r.attr_rows@) == all_rows(user_rs@, true),
        rows_view(r.op_rows@) == all_rows(op_rs@, false),
        r.attr_w == name_width(rows_view(r.attr_rows@)),
{
    let mut oc_values: Vec<String> = Vec::new();
    let mut attr_rows: Vec<(String, String)> = Vec::new();
    assert(views(oc_values@) =~= Seq::<Seq<char>>::empty());
    assert(rows_view(attr_rows@) =~= Seq::<(Seq<char>, Seq<char>)>::empty());
    push_entries(&mut attr_rows, &mut oc_values, user_rs, true);
    let mut op_rows: Vec<(String, String)> = Vec::new();
    let mut unused: Vec<String> = Vec::new();
    assert(rows_view(op_rows@) =~= Seq::<(Seq<char>, Seq<char>)>::empty());
    push_entries(&mut op_rows, &mut unused, op_rs, false);
    let ghost rv = rows_view(attr_rows@);
    let mut longest: usize = 0;
    let mut i: usize = 0;
    while i < attr_rows.len()
        invariant
            i <= attr_rows@.len(),
            rv == rows_view(attr_rows@),
            longest == longest_name(rv.take(i as int)),
        decreases attr_rows@.len() - i,
    {
        let w = str_byte_len(attr_rows[i].0.as_str());
        assert(rv.take(i + 1).drop_last() =~= rv.take(i as int));
        assert(rv.take(i + 1).last() == rv[i as int]);
        if w > longest {
            longest = w;
        }
        i += 1;
    }
    assert(rv.take(i as int) =~= rv);
    let attr_w: usize = if longest < 8 {
        8
    } else if longest > 28 {
        28
    } else {
        longest
    };
    LdapEntry { dn: dn.to_string(), oc_values, attr_rows, op_rows, attr_w }
}

// ── Connection choices ───────────────────────────────────────────────────────

/// "ldapi://", the scheme of a local socket URI.
pub open spec fn ldapi_scheme() -> Seq<char> {
    seq!['l', 'd', 'a', 'p', 'i', ':', '/', '/']
}

/// Whether the connection binds with SASL EXTERNAL: over an ldapi:// URI with no bind DN given.
/// Every other connection makes a simple bind (anonymous without a bind DN).
pub fn uses_sasl_external(uri: &str, has_bind_dn: bool) -> (r: bool)
    ensures
        r == (!has_bind_dn && uri@.len() >= 8 && uri@.subrange(0, 8) == ldapi_scheme()),
{
    if has_bind_dn {
        return false;
    }
    let cs = crate::text::chars_of(uri);
    if cs.len() < 8 {
        return false;
    }
    let scheme: Vec<char> = vec!['l', 'd', 'a', 'p', 'i', ':', '/', '/'];
    let mut i: usize = 0;
    while i < 8
        invariant
            i <= 8,
            cs@ == uri@,
            cs@.len() >= 8,
            scheme@ == ldapi_scheme(),
            forall|j: int| 0 <= j < i ==> cs@[j] == ldapi_scheme()[j],
        decreases 8 - i,
    {
        if cs[i] != scheme[i] {
            assert(uri@.subrange(0, 8)[i as int] != ldapi_scheme()[i as int]);
            return false;
        }
        i += 1;
    }
    assert(uri@.subrange(0, 8) =~= ldapi_scheme());
    true
}

/// "cn=Subschema", where the subschema is looked for when the RootDSE names no other place.
pub open spec fn default_subschema_dn() -> Seq<char> {
    seq!['c', 'n', '=', 'S', 'u', 'b', 's', 'c', 'h', 'e', 'm', 'a']
}

/// The DN of the subschema entry: the first `subschemaSubentry` value of the RootDSE, if any.
pub fn subschema_dn(found: Option<String>) -> (r: String)
    ensures
        r@ == (match found {
            Some(d) => d@,
            None => default_subschema_dn(),
        }),
{
    match found {
        Some(d) => d,
        None => {
            let cs: Vec<char> = vec!['c', 'n', '=', 'S', 'u', 'b', 's', 'c', 'h', 'e', 'm', 'a'];
            let r = crate::text::string_of(cs.as_slice());
            assert(r@ =~= default_subschema_dn());
            r
        },
    }
}


/// The rows of a fetched entry are its text attributes, then its binary attributes, each group
/// a reordering of the entry's attributes (objectClass left out where `skip_oc` holds) with
/// names in ascending lower-case order, whatever order the directory's reply held them in.
pub proof fn law_entry_rows_sorted_by_name(e: RawEntry, skip_oc: bool)
    ensures
        exists|ts: Seq<(String, Vec<String>)>, bs: Seq<(String, Vec<Vec<u8>>)>| {
            &&& ts.to_multiset() == (if skip_oc { other_attrs(e.attrs@) } else { e.attrs@ }).to_multiset()
            &&& key_sorted(ts, lower_name::<Vec<String>>())
            &&& bs.to_multiset() == e.bin_attrs@.to_multiset()
            &&& key_sorted(bs, lower_name::<Vec<Vec<u8>>>())
            &&& #[trigger] entry_rows(e, skip_oc) == text_rows(ts) + binary_rows(bs)
        },
{
    let text = if skip_oc { other_attrs(e.attrs@) } else { e.attrs@ };
    law_sort_by_key_orders_and_permutes(text, lower_name::<Vec<String>>());
    law_sort_by_key_orders_and_permutes(e.bin_attrs@, lower_name::<Vec<Vec<u8>>>());
    let ts = sort_by_key_spec(text, lower_name::<Vec<String>>());
    let bs = sort_by_key_spec(e.bin_attrs@, lower_name::<Vec<Vec<u8>>>());
    assert(entry_rows(e, skip_oc) == text_rows(ts) + binary_rows(bs));
}


/// The objectClass values that a fetched entry adds are its own objectClass values, reordered
/// into ascending lower-case order.
pub proof fn law_oc_values_sorted(es: Seq<RawEntry>, e: RawEntry)
    ensures
        exists|vs: Seq<String>| {
            &&& vs.to_multiset() == oc_values_of(e.attrs@).to_multiset()
            &&& key_sorted(vs, lower_text())
            &&& #[trigger] all_oc_values(es.push(e)) == all_oc_values(es) + views(vs)
        },
{
    law_sort_by_key_orders_and_permutes(oc_values_of(e.attrs@), lower_text());
    let vs = sort_by_key_spec(oc_values_of(e.attrs@), lower_text());
    assert(es.push(e).drop_last() =~= es);
    assert(all_oc_values(es.push(e)) == all_oc_values(es) + views(vs));
}

} // verus!
