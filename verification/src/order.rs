//! The order `String`'s `Ord` sorts by (bytewise on UTF-8, which is code-point order), and a
//! verified sort of strings under it.

use vstd::prelude::*;
use vstd::relations::{sorted_by, total_ordering};

use crate::descriptor::strings_view;
use crate::text::chars_of;

verus! {

/// `a <= b` lexicographically, character by character.
pub open spec fn lex_le(a: Seq<char>, b: Seq<char>) -> bool
    decreases a.len(),
{
    if a.len() == 0 {
        true
    } else if b.len() == 0 {
        false
    } else if a[0] != b[0] {
        a[0] < b[0]
    } else {
        lex_le(a.drop_first(), b.drop_first())
    }
}

pub open spec fn lex_leq() -> spec_fn(Seq<char>, Seq<char>) -> bool {
    |a: Seq<char>, b: Seq<char>| lex_le(a, b)
}

proof fn lemma_lex_reflexive(a: Seq<char>)
    ensures
        lex_le(a, a),
    decreases a.len(),
{
    if a.len() > 0 {
        lemma_lex_reflexive(a.drop_first());
    }
}

proof fn lemma_lex_antisymmetric(a: Seq<char>, b: Seq<char>)
    requires
        lex_le(a, b),
        lex_le(b, a),
    ensures
        a == b,
    decreases a.len(),
{
    if a.len() > 0 && b.len() > 0 {
        lemma_lex_antisymmetric(a.drop_first(), b.drop_first());
        assert(a =~= seq![a[0]] + a.drop_first());
        assert(b =~= seq![b[0]] + b.drop_first());
    }
}

proof fn lemma_lex_transitive(a: Seq<char>, b: Seq<char>, c: Seq<char>)
    requires
        lex_le(a, b),
        lex_le(b, c),
    ensures
        lex_le(a, c),
    decreases a.len(),
{
    if a.len() > 0 && b.len() > 0 && c.len() > 0 {
        if a[0] == b[0] && b[0] == c[0] {
            lemma_lex_transitive(a.drop_first(), b.drop_first(), c.drop_first());
        }
    }
}

proof fn lemma_lex_connected(a: Seq<char>, b: Seq<char>)
    ensures
        lex_le(a, b) || lex_le(b, a),
    decreases a.len(),
{
    if a.len() > 0 && b.len() > 0 && a[0] == b[0] {
        lemma_lex_connected(a.drop_first(), b.drop_first());
    }
}

/// The lexicographic order is total.
pub proof fn lemma_lex_total()
    ensures
        total_ordering(lex_leq()),
{
    assert forall|a: Seq<char>| #[trigger] lex_leq()(a, a) by {
        lemma_lex_reflexive(a);
    }
    assert forall|a: Seq<char>, b: Seq<char>| #[trigger] lex_leq()(a, b) && #[trigger] lex_leq()(
        b,
        a,
    ) implies a == b by {
        lemma_lex_antisymmetric(a, b);
    }
    assert forall|a: Seq<char>, b: Seq<char>, c: Seq<char>| #[trigger] lex_leq()(a, b)
        && #[trigger] lex_leq()(b, c) implies lex_leq()(a, c) by {
        lemma_lex_transitive(a, b, c);
    }
    assert forall|a: Seq<char>, b: Seq<char>| #[trigger] lex_leq()(a, b) || #[trigger] lex_leq()(
        b,
        a,
    ) by {
        lemma_lex_connected(a, b);
    }
}

/// `x <= y` lexicographically.
pub fn chars_le(x: &Vec<char>, y: &Vec<char>) -> (le: bool)
    ensures
        le == lex_le(x@, y@),
{
    let mut i: usize = 0;
    assert(x@.skip(0) =~= x@);
    assert(y@.skip(0) =~= y@);
    while i < x.len() && i < y.len() && x[i] == y[i]
        invariant
            i <= x.len(),
            i <= y.len(),
            lex_le(x@, y@) == lex_le(x@.skip(i as int), y@.skip(i as int)),
        decreases x.len() - i,
    {
        assert(x@.skip(i as int).drop_first() =~= x@.skip(i + 1));
        assert(y@.skip(i as int).drop_first() =~= y@.skip(i + 1));
        i = i + 1;
    }
    if i == x.len() {
        return true;
    }
    if i == y.len() {
        return false;
    }
    assert(x@.skip(i as int)[0] == x@[i as int]);
    assert(y@.skip(i as int)[0] == y@[i as int]);
    x[i] < y[i]
}

/// `a <= b` lexicographically.
pub fn string_le(a: &String, b: &String) -> (le: bool)
    ensures
        le == lex_le(a@, b@),
{
    chars_le(&chars_of(a.as_str()), &chars_of(b.as_str()))
}

/// `names`, sorted the way `sort_unstable` sorts strings: the unique sorted arrangement of the
/// same multiset of names.
pub fn sort_strings(names: Vec<String>) -> (sorted: Vec<String>)
    ensures
        strings_view(sorted@) == strings_view(names@).sort_by(lex_leq()),
{
    proof {
        lemma_lex_total();
    }
    let ghost input = strings_view(names@);
    let mut sorted: Vec<String> = Vec::new();
    let mut i: usize = 0;
    assert(strings_view(sorted@) =~= input.take(0));
    while i < names.len()
        invariant
            i <= names.len(),
            input == strings_view(names@),
            total_ordering(lex_leq()),
            sorted_by(strings_view(sorted@), lex_leq()),
            strings_view(sorted@).to_multiset() == input.take(i as int).to_multiset(),
        decreases names.len() - i,
    {
        let name = names[i].clone();
        let mut k: usize = 0;
        while k < sorted.len() && string_le(&sorted[k], &name)
            invariant
                k <= sorted.len(),
                forall|j: int| 0 <= j < k ==> lex_le(#[trigger] strings_view(sorted@)[j], name@),
            decreases sorted.len() - k,
        {
            k = k + 1;
        }
        let ghost before = strings_view(sorted@);
        proof {
            if k < sorted.len() {
                lemma_lex_connected(before[k as int], name@);
                assert forall|j: int| k <= j < before.len() implies lex_le(
                    name@,
                    #[trigger] before[j],
                ) by {
                    if j > k {
                        assert(lex_leq()(before[k as int], before[j]));
                    }
                    lemma_lex_transitive(name@, before[k as int], before[j]);
                }
            }
        }
        sorted.insert(k, name);
        proof {
            let after = strings_view(sorted@);
            assert(after =~= before.insert(k as int, names@[i as int]@));
            assert forall|a: int, b: int| 0 <= a < b < after.len() implies #[trigger] lex_leq()(
                after[a],
                after[b],
            ) by {
                if a < k && b < k {
                    assert(lex_leq()(before[a], before[b]));
                } else if a < k && b == k {
                } else if a < k {
                    lemma_lex_transitive(before[a], names@[i as int]@, before[b - 1]);
                } else if a == k {
                } else {
                    assert(lex_leq()(before[a - 1], before[b - 1]));
                }
            }
            vstd::seq_lib::to_multiset_insert(before, k as int, names@[i as int]@);
            assert(input.take(i + 1) =~= input.take(i as int).push(input[i as int]));
            vstd::seq_lib::to_multiset_build(input.take(i as int), input[i as int]);
        }
        i = i + 1;
    }
    proof {
        assert(input.take(names.len() as int) =~= input);
        input.lemma_sort_by_ensures(lex_leq());
        vstd::seq_lib::lemma_sorted_unique(strings_view(sorted@), input.sort_by(lex_leq()), lex_leq());
    }
    sorted
}

/// Where an entry of key `key` goes in `sorted`: before the first entry whose key is not smaller.
pub open spec fn key_insert_at<T>(sorted: Seq<(u32, T)>, key: u32) -> int
    decreases sorted.len(),
{
    if sorted.len() == 0 || sorted[0].0 >= key {
        0
    } else {
        1 + key_insert_at(sorted.drop_first(), key)
    }
}

/// The entries in key order, entries of equal key in the order they came: read from the last,
/// each entry inserted before every later one whose key is not smaller.
pub open spec fn sort_by_key<T>(s: Seq<(u32, T)>) -> Seq<(u32, T)>
    decreases s.len(),
{
    if s.len() == 0 {
        s
    } else {
        let sorted = sort_by_key(s.drop_first());
        let at = key_insert_at(sorted, s[0].0);
        sorted.take(at).push(s[0]) + sorted.skip(at)
    }
}

proof fn lemma_key_insert_at_bounds<T>(sorted: Seq<(u32, T)>, key: u32)
    ensures
        0 <= key_insert_at(sorted, key) <= sorted.len(),
    decreases sorted.len(),
{
    if sorted.len() > 0 && sorted[0].0 < key {
        lemma_key_insert_at_bounds(sorted.drop_first(), key);
    }
}

/// Mapping the values, keys kept, commutes with sorting by key.
pub proof fn lemma_sort_by_key_map<T, U>(s: Seq<(u32, T)>, f: spec_fn(T) -> U)
    ensures
        sort_by_key(s.map_values(|p: (u32, T)| (p.0, f(p.1)))) == sort_by_key(s).map_values(
            |p: (u32, T)| (p.0, f(p.1)),
        ),
    decreases s.len(),
{
    let g = |p: (u32, T)| (p.0, f(p.1));
    if s.len() > 0 {
        lemma_sort_by_key_map(s.drop_first(), f);
        assert(s.map_values(g).drop_first() =~= s.drop_first().map_values(g));
        let sorted = sort_by_key(s.drop_first());
        let msorted = sorted.map_values(g);
        lemma_key_insert_at_same(sorted, msorted, s[0].0, f);
        let at = key_insert_at(sorted, s[0].0);
        lemma_key_insert_at_bounds(sorted, s[0].0);
        assert(msorted.take(at).push(g(s[0])) + msorted.skip(at) =~= (sorted.take(at).push(s[0])
            + sorted.skip(at)).map_values(g));
    } else {
        assert(s.map_values(g) =~= s.map_values(g));
    }
}

proof fn lemma_key_insert_at_same<T, U>(a: Seq<(u32, T)>, b: Seq<(u32, U)>, key: u32, f: spec_fn(T) -> U)
    requires
        b == a.map_values(|p: (u32, T)| (p.0, f(p.1))),
    ensures
        key_insert_at(a, key) == key_insert_at(b, key),
    decreases a.len(),
{
    if a.len() > 0 {
        assert(b.drop_first() =~= a.drop_first().map_values(|p: (u32, T)| (p.0, f(p.1))));
        lemma_key_insert_at_same(a.drop_first(), b.drop_first(), key, f);
    }
}

/// Where an entry of key `key` goes among `entries`.
fn key_position<T>(entries: &Vec<(u32, T)>, key: u32) -> (at: usize)
    ensures
        at as int == key_insert_at(entries@, key),
        at <= entries@.len(),
{
    let mut i: usize = 0;
    assert(entries@.skip(0) =~= entries@);
    while i < entries.len() && entries[i].0 < key
        invariant
            i <= entries@.len(),
            key_insert_at(entries@, key) == i + key_insert_at(entries@.skip(i as int), key),
        decreases entries.len() - i,
    {
        assert(entries@.skip(i as int)[0] == entries@[i as int]);
        assert(entries@.skip(i as int).drop_first() =~= entries@.skip(i + 1));
        i = i + 1;
    }
    if i < entries.len() {
        assert(entries@.skip(i as int)[0] == entries@[i as int]);
    }
    i
}

/// The entries in key order, equal keys keeping the order they came in.
pub fn sort_keyed<T>(entries: Vec<(u32, T)>) -> (sorted: Vec<(u32, T)>)
    ensures
        sorted@ == sort_by_key(entries@),
{
    let ghost all = entries@;
    let mut rest = entries;
    let mut sorted: Vec<(u32, T)> = Vec::new();
    assert(all.skip(all.len() as int) =~= Seq::<(u32, T)>::empty());
    while rest.len() > 0
        invariant
            rest@.len() <= all.len(),
            rest@ == all.take(rest@.len() as int),
            sorted@ == sort_by_key(all.skip(rest@.len() as int)),
        decreases rest.len(),
    {
        let ghost n = rest@.len() as int;
        let x = rest.pop().unwrap();
        assert(x == all[n - 1]) by {
            assert(all.take(n)[n - 1] == all[n - 1]);
        }
        assert(rest@ =~= all.take(n - 1));
        let ghost suffix = all.skip(n - 1);
        assert(suffix[0] == all[n - 1]);
        assert(suffix.drop_first() =~= all.skip(n));
        let at = key_position(&sorted, x.0);
        let ghost before = sorted@;
        sorted.insert(at, x);
        assert(sorted@ =~= before.take(at as int).push(x) + before.skip(at as int));
    }
    assert(all.skip(0) =~= all);
    sorted
}

/// The values of keyed entries, in order.
pub fn values_of<T>(entries: Vec<(u32, T)>) -> (values: Vec<T>)
    ensures
        values@ == entries@.map_values(|p: (u32, T)| p.1),
{
    let ghost all = entries@;
    let mut rest = entries;
    let mut reversed: Vec<T> = Vec::new();
    while rest.len() > 0
        invariant
            rest@.len() <= all.len(),
            rest@ == all.take(rest@.len() as int),
            reversed@.len() + rest@.len() == all.len(),
            forall|i: int| 0 <= i < reversed@.len() ==> #[trigger] reversed@[i] == all[all.len() - 1 - i].1,
        decreases rest.len(),
    {
        let ghost n = rest@.len() as int;
        let (_, x) = rest.pop().unwrap();
        assert(all.take(n)[n - 1] == all[n - 1]);
        assert(rest@ =~= all.take(n - 1));
        reversed.push(x);
    }
    let mut values: Vec<T> = Vec::new();
    while reversed.len() > 0
        invariant
            reversed@.len() + values@.len() == all.len(),
            forall|i: int| 0 <= i < reversed@.len() ==> #[trigger] reversed@[i] == all[all.len() - 1 - i].1,
            forall|i: int| 0 <= i < values@.len() ==> #[trigger] values@[i] == all[i].1,
        decreases reversed.len(),
    {
        let x = reversed.pop().unwrap();
        values.push(x);
    }
    assert(values@ =~= all.map_values(|p: (u32, T)| p.1));
    values
}

/// The keys of `s` never decrease.
pub open spec fn key_ordered<T>(s: Seq<(u32, T)>) -> bool {
    forall|i: int, j: int| 0 <= i <= j < s.len() ==> (#[trigger] s[i]).0 <= (#[trigger] s[j]).0
}

proof fn lemma_key_insert_keeps_order<T>(sorted: Seq<(u32, T)>, x: (u32, T))
    requires
        key_ordered(sorted),
    ensures
        key_ordered(sorted.insert(key_insert_at(sorted, x.0), x)),
    decreases sorted.len(),
{
    lemma_key_insert_at_bounds(sorted, x.0);
    let at = key_insert_at(sorted, x.0);
    if sorted.len() > 0 && sorted[0].0 < x.0 {
        let rest = sorted.drop_first();
        assert(key_ordered(rest)) by {
            assert forall|i: int, j: int| 0 <= i <= j < rest.len() implies (#[trigger] rest[i]).0
                <= (#[trigger] rest[j]).0 by {
                assert(rest[i] == sorted[i + 1]);
                assert(rest[j] == sorted[j + 1]);
            }
        }
        lemma_key_insert_keeps_order(rest, x);
        lemma_key_insert_at_bounds(rest, x.0);
        lemma_key_insert_at_before(rest, x.0);
        assert(at == 1 + key_insert_at(rest, x.0));
    }
    lemma_key_insert_at_before(sorted, x.0);
    let out = sorted.insert(at, x);
    assert forall|i: int, j: int| 0 <= i <= j < out.len() implies (#[trigger] out[i]).0
        <= (#[trigger] out[j]).0 by {
        if i < at && j < at {
            assert(out[i] == sorted[i] && out[j] == sorted[j]);
        } else if i < at && j == at {
            assert(out[i] == sorted[i]);
        } else if i < at {
            assert(out[i] == sorted[i] && out[j] == sorted[j - 1]);
        } else if i == at && j > at {
            assert(out[j] == sorted[j - 1]);
            assert(sorted[at].0 <= sorted[j - 1].0);
        } else if i > at {
            assert(out[i] == sorted[i - 1] && out[j] == sorted[j - 1]);
        }
    }
}

proof fn lemma_key_insert_at_before<T>(sorted: Seq<(u32, T)>, key: u32)
    ensures
        forall|k: int| 0 <= k < key_insert_at(sorted, key) ==> (#[trigger] sorted[k]).0 < key,
        key_insert_at(sorted, key) < sorted.len() ==> sorted[key_insert_at(sorted, key)].0 >= key,
    decreases sorted.len(),
{
    if sorted.len() > 0 && sorted[0].0 < key {
        let rest = sorted.drop_first();
        lemma_key_insert_at_before(rest, key);
        lemma_key_insert_at_bounds(rest, key);
        assert forall|k: int| 0 <= k < key_insert_at(sorted, key) implies (#[trigger] sorted[k]).0 < key by {
            if k > 0 {
                assert(sorted[k] == rest[k - 1]);
            }
        }
        if key_insert_at(sorted, key) < sorted.len() {
            assert(sorted[key_insert_at(sorted, key)] == rest[key_insert_at(rest, key)]);
        }
    }
}

/// Sorting by key orders the entries by key and keeps exactly the entries it was given.
pub proof fn lemma_sort_by_key_orders_and_keeps<T>(s: Seq<(u32, T)>)
    ensures
        key_ordered(sort_by_key(s)),
        sort_by_key(s).to_multiset() == s.to_multiset(),
    decreases s.len(),
{
    broadcast use vstd::seq_lib::group_to_multiset_ensures;

    if s.len() > 0 {
        lemma_sort_by_key_orders_and_keeps(s.drop_first());
        let sorted = sort_by_key(s.drop_first());
        let at = key_insert_at(sorted, s[0].0);
        lemma_key_insert_at_bounds(sorted, s[0].0);
        lemma_key_insert_keeps_order(sorted, s[0]);
        assert(sorted.take(at).push(s[0]) + sorted.skip(at) =~= sorted.insert(at, s[0]));
        vstd::seq_lib::to_multiset_insert(sorted, at, s[0]);
        assert(s =~= s.drop_first().insert(0, s[0]));
        vstd::seq_lib::to_multiset_insert(s.drop_first(), 0, s[0]);
    }
}

} // verus!
