//! Small tables kept as vectors of pairs with distinct keys, and the maps that they stand
//! for.

use vstd::prelude::*;

verus! {

/// Whether no key occurs twice.
pub open spec fn distinct<K, V>(s: Seq<(K, V)>) -> bool {
    forall|i: int, j: int| 0 <= i < j < s.len() ==> (#[trigger] s[i]).0 != (#[trigger] s[j]).0
}

/// The map that a sequence of pairs stands for.
pub open spec fn table<K, V>(s: Seq<(K, V)>) -> Map<K, V>
    decreases s.len(),
{
    if s.len() == 0 {
        Map::empty()
    } else {
        table(s.drop_last()).insert(s.last().0, s.last().1)
    }
}

/// The pairs whose value satisfies `keep`, in order.
pub open spec fn kept<K, V>(s: Seq<(K, V)>, keep: spec_fn(V) -> bool) -> Seq<(K, V)>
    decreases s.len(),
{
    if s.len() == 0 {
        Seq::empty()
    } else if keep(s.last().1) {
        kept(s.drop_last(), keep).push(s.last())
    } else {
        kept(s.drop_last(), keep)
    }
}

/// The part of a map whose values satisfy `keep`.
pub open spec fn kept_map<K, V>(m: Map<K, V>, keep: spec_fn(V) -> bool) -> Map<K, V> {
    m.restrict(m.dom().filter(|k: K| keep(m[k])))
}

/// A map holds the keys of its pairs and no others.
pub proof fn lemma_table_contains<K, V>(s: Seq<(K, V)>, k: K)
    ensures
        table(s).contains_key(k) <==> exists|i: int| 0 <= i < s.len() && (#[trigger] s[i]).0 == k,
    decreases s.len(),
{
    if s.len() > 0 {
        lemma_table_contains(s.drop_last(), k);
        if s.last().0 == k {
            assert(s[s.len() - 1].0 == k);
        }
        if exists|i: int| 0 <= i < s.drop_last().len() && (#[trigger] s.drop_last()[i]).0 == k {
            let i = choose|i: int|
                0 <= i < s.drop_last().len() && (#[trigger] s.drop_last()[i]).0 == k;
            assert(s[i].0 == k);
        }
        if exists|i: int| 0 <= i < s.len() && (#[trigger] s[i]).0 == k {
            let i = choose|i: int| 0 <= i < s.len() && (#[trigger] s[i]).0 == k;
            if i < s.len() - 1 {
                assert(s.drop_last()[i].0 == k);
            }
        }
    }
}

pub proof fn lemma_distinct_prefix<K, V>(s: Seq<(K, V)>)
    requires
        distinct(s),
        s.len() > 0,
    ensures
        distinct(s.drop_last()),
        !table(s.drop_last()).contains_key(s.last().0),
{
    lemma_table_contains(s.drop_last(), s.last().0);
    assert forall|i: int| 0 <= i < s.drop_last().len() implies (#[trigger] s.drop_last()[i]).0
        != s.last().0 by {
        assert(s[i].0 != s[s.len() - 1].0);
    }
    assert forall|i: int, j: int| 0 <= i < j < s.drop_last().len() implies (
    #[trigger] s.drop_last()[i]).0 != (#[trigger] s.drop_last()[j]).0 by {
        assert(s[i].0 != s[j].0);
    }
}

/// Each pair of a table with distinct keys is what its map says of its key.
pub proof fn lemma_table_lookup<K, V>(s: Seq<(K, V)>, i: int)
    requires
        distinct(s),
        0 <= i < s.len(),
    ensures
        table(s).contains_key(s[i].0),
        table(s)[s[i].0] == s[i].1,
    decreases s.len(),
{
    lemma_distinct_prefix(s);
    if i < s.len() - 1 {
        lemma_table_lookup(s.drop_last(), i);
        assert(s.drop_last()[i] == s[i]);
        assert(s[i].0 != s[s.len() - 1].0);
    }
}

/// A table with distinct keys has as many pairs as its map has keys.
pub proof fn lemma_table_len<K, V>(s: Seq<(K, V)>)
    requires
        distinct(s),
    ensures
        table(s).dom().finite(),
        table(s).dom().len() == s.len(),
    decreases s.len(),
{
    if s.len() > 0 {
        lemma_distinct_prefix(s);
        lemma_table_len(s.drop_last());
        assert(table(s).dom() =~= table(s.drop_last()).dom().insert(s.last().0));
    }
}

/// Two tables with the same pairs, in any order, stand for the same map.
pub proof fn lemma_table_same<K, V>(s: Seq<(K, V)>, m: Map<K, V>)
    requires
        distinct(s),
        forall|i: int|
            0 <= i < s.len() ==> m.contains_key((#[trigger] s[i]).0) && m[s[i].0] == s[i].1,
        forall|k: K|
            #[trigger] m.contains_key(k) ==> exists|i: int|
                0 <= i < s.len() && (#[trigger] s[i]).0 == k,
    ensures
        table(s) == m,
{
    assert forall|k: K| table(s).contains_key(k) <==> m.contains_key(k) by {
        lemma_table_contains(s, k);
        if exists|i: int| 0 <= i < s.len() && (#[trigger] s[i]).0 == k {
            let i = choose|i: int| 0 <= i < s.len() && (#[trigger] s[i]).0 == k;
            assert(m.contains_key(s[i].0));
        }
    }
    assert forall|k: K| #[trigger] table(s).contains_key(k) implies table(s)[k] == m[k] by {
        lemma_table_contains(s, k);
        let i = choose|i: int| 0 <= i < s.len() && (#[trigger] s[i]).0 == k;
        lemma_table_lookup(s, i);
    }
    assert(table(s) =~= m);
}

/// Changing the value of one pair changes what the map says of its key.
pub proof fn lemma_table_update<K, V>(s: Seq<(K, V)>, i: int, v: V)
    requires
        distinct(s),
        0 <= i < s.len(),
    ensures
        distinct(s.update(i, (s[i].0, v))),
        table(s.update(i, (s[i].0, v))) == table(s).insert(s[i].0, v),
{
    let t = s.update(i, (s[i].0, v));
    let m = table(s).insert(s[i].0, v);
    assert forall|a: int, b: int| 0 <= a < b < t.len() implies (#[trigger] t[a]).0 != (
    #[trigger] t[b]).0 by {
        assert(s[a].0 != s[b].0);
    }
    assert forall|j: int| 0 <= j < t.len() implies m.contains_key((#[trigger] t[j]).0) && m[t[j].0]
        == t[j].1 by {
        lemma_table_lookup(s, j);
        if j < i {
            assert(s[j].0 != s[i].0);
        } else if j > i {
            assert(s[i].0 != s[j].0);
        }
    }
    assert forall|k: K| #[trigger] m.contains_key(k) implies exists|j: int|
        0 <= j < t.len() && (#[trigger] t[j]).0 == k by {
        if k == s[i].0 {
            assert(t[i].0 == k);
        } else {
            lemma_table_contains(s, k);
            let j = choose|j: int| 0 <= j < s.len() && (#[trigger] s[j]).0 == k;
            assert(t[j].0 == k);
        }
    }
    lemma_table_same(t, m);
}

/// Adding a pair with a new key adds that key to the map.
pub proof fn lemma_table_push<K, V>(s: Seq<(K, V)>, k: K, v: V)
    requires
        distinct(s),
        !table(s).contains_key(k),
    ensures
        distinct(s.push((k, v))),
        table(s.push((k, v))) == table(s).insert(k, v),
{
    let t = s.push((k, v));
    assert(t.drop_last() =~= s);
    lemma_table_contains(s, k);
    assert forall|a: int, b: int| 0 <= a < b < t.len() implies (#[trigger] t[a]).0 != (
    #[trigger] t[b]).0 by {
        if b < s.len() {
            assert(s[a].0 != s[b].0);
        } else {
            assert(s[a].0 != k);
        }
    }
}

/// Taking a pair out takes its key out of the map.
pub proof fn lemma_table_remove<K, V>(s: Seq<(K, V)>, i: int)
    requires
        distinct(s),
        0 <= i < s.len(),
    ensures
        distinct(s.remove(i)),
        table(s.remove(i)) == table(s).remove(s[i].0),
{
    let t = s.remove(i);
    let m = table(s).remove(s[i].0);
    assert forall|a: int, b: int| 0 <= a < b < t.len() implies (#[trigger] t[a]).0 != (
    #[trigger] t[b]).0 by {
        let x = if a < i {
            a
        } else {
            a + 1
        };
        let y = if b < i {
            b
        } else {
            b + 1
        };
        assert(t[a] == s[x] && t[b] == s[y]);
        assert(s[x].0 != s[y].0);
    }
    assert forall|j: int| 0 <= j < t.len() implies m.contains_key((#[trigger] t[j]).0) && m[t[j].0]
        == t[j].1 by {
        let x = if j < i {
            j
        } else {
            j + 1
        };
        assert(t[j] == s[x]);
        lemma_table_lookup(s, x);
        if x < i {
            assert(s[x].0 != s[i].0);
        } else {
            assert(s[i].0 != s[x].0);
        }
    }
    assert forall|k: K| #[trigger] m.contains_key(k) implies exists|j: int|
        0 <= j < t.len() && (#[trigger] t[j]).0 == k by {
        lemma_table_contains(s, k);
        let x = choose|x: int| 0 <= x < s.len() && (#[trigger] s[x]).0 == k;
        assert(x != i);
        let j = if x < i {
            x
        } else {
            x - 1
        };
        assert(t[j] == s[x]);
        assert(t[j].0 == k);
    }
    lemma_table_same(t, m);
}

/// A pair that is kept is one of the pairs.
proof fn lemma_kept_from<K, V>(s: Seq<(K, V)>, keep: spec_fn(V) -> bool, j: int) -> (i: int)
    requires
        0 <= j < kept(s, keep).len(),
    ensures
        j <= i < s.len(),
        s[i] == kept(s, keep)[j],
        keep(s[i].1),
    decreases s.len(),
{
    let before = kept(s.drop_last(), keep);
    if j < before.len() {
        let i = lemma_kept_from(s.drop_last(), keep, j);
        i
    } else {
        lemma_kept_len(s.drop_last(), keep);
        s.len() - 1
    }
}

proof fn lemma_kept_len<K, V>(s: Seq<(K, V)>, keep: spec_fn(V) -> bool)
    ensures
        kept(s, keep).len() <= s.len(),
    decreases s.len(),
{
    if s.len() > 0 {
        lemma_kept_len(s.drop_last(), keep);
    }
}

proof fn lemma_kept_distinct<K, V>(s: Seq<(K, V)>, keep: spec_fn(V) -> bool)
    requires
        distinct(s),
    ensures
        distinct(kept(s, keep)),
    decreases s.len(),
{
    if s.len() > 0 {
        lemma_distinct_prefix(s);
        lemma_kept_distinct(s.drop_last(), keep);
        let before = kept(s.drop_last(), keep);
        let t = kept(s, keep);
        assert forall|a: int, b: int| 0 <= a < b < t.len() implies (#[trigger] t[a]).0 != (
        #[trigger] t[b]).0 by {
            if b < before.len() {
                assert(before[a].0 != before[b].0);
            } else {
                let i = lemma_kept_from(s.drop_last(), keep, a);
                assert(s[i].0 != s[s.len() - 1].0);
            }
        }
    }
}

proof fn lemma_kept_holds<K, V>(s: Seq<(K, V)>, keep: spec_fn(V) -> bool, i: int)
    requires
        0 <= i < s.len(),
        keep(s[i].1),
    ensures
        exists|j: int| 0 <= j < kept(s, keep).len() && (#[trigger] kept(s, keep)[j]) == s[i],
    decreases s.len(),
{
    let t = kept(s, keep);
    if i == s.len() - 1 {
        assert(t[t.len() - 1] == s[i]);
    } else {
        lemma_kept_holds(s.drop_last(), keep, i);
        let before = kept(s.drop_last(), keep);
        let j = choose|j: int|
            0 <= j < before.len() && (#[trigger] before[j]) == s.drop_last()[i];
        assert(t[j] == s[i]);
    }
}

/// Keeping some of the pairs keeps that part of the map.
pub proof fn lemma_table_kept<K, V>(s: Seq<(K, V)>, keep: spec_fn(V) -> bool)
    requires
        distinct(s),
    ensures
        distinct(kept(s, keep)),
        kept(s, keep).len() <= s.len(),
        table(kept(s, keep)) == kept_map(table(s), keep),
{
    let t = kept(s, keep);
    let m = kept_map(table(s), keep);
    lemma_kept_distinct(s, keep);
    lemma_kept_len(s, keep);
    assert forall|j: int| 0 <= j < t.len() implies m.contains_key((#[trigger] t[j]).0) && m[t[j].0]
        == t[j].1 by {
        let i = lemma_kept_from(s, keep, j);
        lemma_table_lookup(s, i);
    }
    assert forall|k: K| #[trigger] m.contains_key(k) implies exists|j: int|
        0 <= j < t.len() && (#[trigger] t[j]).0 == k by {
        lemma_table_contains(s, k);
        let i = choose|i: int| 0 <= i < s.len() && (#[trigger] s[i]).0 == k;
        lemma_table_lookup(s, i);
        lemma_kept_holds(s, keep, i);
        let j = choose|j: int| 0 <= j < t.len() && (#[trigger] t[j]) == s[i];
        assert(t[j].0 == k);
    }
    lemma_table_same(t, m);
}

/// The pairs that are kept are all those whose value is to be kept, in order.
pub proof fn kept_pairs_are_the_wanted_ones<K, V>(s: Seq<(K, V)>, keep: spec_fn(V) -> bool)
    ensures
        kept(s, keep) == s.filter(|p: (K, V)| keep(p.1)),
    decreases s.len(),
{
    reveal(Seq::filter);
    if s.len() > 0 {
        kept_pairs_are_the_wanted_ones(s.drop_last(), keep);
    }
}

} // verus!
