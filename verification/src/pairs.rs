//! Key-value pairs as maps.

use vstd::prelude::*;

verus! {

/// The map that results from inserting `pairs` in their order: of two pairs
/// with the same key the later one counts.
pub open spec fn map_of<V>(pairs: Seq<(Seq<char>, V)>) -> Map<Seq<char>, V>
    decreases pairs.len(),
{
    if pairs.len() == 0 {
        Map::empty()
    } else {
        map_of(pairs.drop_last()).insert(pairs.last().0, pairs.last().1)
    }
}

/// Whether no key occurs twice.
pub open spec fn distinct_keys<V>(pairs: Seq<(Seq<char>, V)>) -> bool {
    forall|i: int, j: int| 0 <= i < j < pairs.len() ==> #[trigger] pairs[i].0 != #[trigger] pairs[j].0
}

/// The keys of the map are the keys of the pairs.
pub proof fn lemma_map_of_keys<V>(pairs: Seq<(Seq<char>, V)>, key: Seq<char>)
    ensures
        map_of(pairs).contains_key(key) <==> exists|i: int|
            0 <= i < pairs.len() && #[trigger] pairs[i].0 == key,
    decreases pairs.len(),
{
    if pairs.len() > 0 {
        let front = pairs.drop_last();
        lemma_map_of_keys(front, key);
        assert(pairs.last() == pairs[pairs.len() - 1]);
        if exists|i: int| 0 <= i < front.len() && #[trigger] front[i].0 == key {
            let i = choose|i: int| 0 <= i < front.len() && #[trigger] front[i].0 == key;
            assert(pairs[i].0 == key);
        }
        if exists|i: int| 0 <= i < pairs.len() && #[trigger] pairs[i].0 == key {
            let i = choose|i: int| 0 <= i < pairs.len() && #[trigger] pairs[i].0 == key;
            if i < front.len() {
                assert(front[i].0 == key);
            }
        }
    }
}

/// Where no key occurs twice, each pair is in the map.
pub proof fn lemma_map_of_distinct<V>(pairs: Seq<(Seq<char>, V)>, i: int)
    requires
        distinct_keys(pairs),
        0 <= i < pairs.len(),
    ensures
        map_of(pairs).contains_key(pairs[i].0),
        map_of(pairs)[pairs[i].0] == pairs[i].1,
    decreases pairs.len(),
{
    if i < pairs.len() - 1 {
        let front = pairs.drop_last();
        assert(distinct_keys(front)) by {
            assert forall|a: int, b: int| 0 <= a < b < front.len() implies #[trigger] front[a].0
                != #[trigger] front[b].0 by {
                assert(pairs[a].0 != pairs[b].0);
            }
        }
        assert(front[i] == pairs[i]);
        lemma_map_of_distinct(front, i);
        assert(pairs[i].0 != pairs[pairs.len() - 1].0);
    }
}

/// Where no key occurs twice, the map depends on which pairs there are, not on
/// their order.
pub proof fn law_map_of_ignores_order<V>(a: Seq<(Seq<char>, V)>, b: Seq<(Seq<char>, V)>)
    requires
        distinct_keys(a),
        distinct_keys(b),
        forall|pair: (Seq<char>, V)| a.contains(pair) <==> b.contains(pair),
    ensures
        map_of(a) == map_of(b),
{
    lemma_map_of_includes(a, b);
    lemma_map_of_includes(b, a);
    assert(map_of(a) =~= map_of(b));
}

proof fn lemma_map_of_includes<V>(a: Seq<(Seq<char>, V)>, b: Seq<(Seq<char>, V)>)
    requires
        distinct_keys(a),
        distinct_keys(b),
        forall|pair: (Seq<char>, V)| a.contains(pair) ==> b.contains(pair),
    ensures
        forall|key: Seq<char>| #[trigger]
            map_of(a).contains_key(key) ==> map_of(b).contains_key(key) && map_of(a)[key]
                == map_of(b)[key],
{
    assert forall|key: Seq<char>| #[trigger] map_of(a).contains_key(key) implies map_of(
        b,
    ).contains_key(key) && map_of(a)[key] == map_of(b)[key] by {
        lemma_map_of_keys(a, key);
        let i = choose|i: int| 0 <= i < a.len() && #[trigger] a[i].0 == key;
        lemma_map_of_distinct(a, i);
        assert(a.contains(a[i]));
        assert(b.contains(a[i]));
        let j = choose|j: int| 0 <= j < b.len() && b[j] == a[i];
        lemma_map_of_distinct(b, j);
    }
}

/// Adding a pair sets its key and leaves every other key alone; without any
/// pair there is no key.
pub proof fn law_map_of_grows_pair_by_pair<V>(
    pairs: Seq<(Seq<char>, V)>,
    key: Seq<char>,
    value: V,
    other: Seq<char>,
)
    ensures
        !map_of(Seq::<(Seq<char>, V)>::empty()).contains_key(other),
        map_of(pairs.push((key, value))).contains_key(key),
        map_of(pairs.push((key, value)))[key] == value,
        other != key ==> (map_of(pairs.push((key, value))).contains_key(other) <==> map_of(
            pairs,
        ).contains_key(other)),
        other != key && map_of(pairs).contains_key(other) ==> map_of(
            pairs.push((key, value)),
        )[other] == map_of(pairs)[other],
{
    assert(pairs.push((key, value)).drop_last() =~= pairs);
}

/// A key has the value of the last pair that names it.
pub proof fn law_map_of_last_pair_counts<V>(pairs: Seq<(Seq<char>, V)>, i: int)
    requires
        0 <= i < pairs.len(),
        forall|j: int| i < j < pairs.len() ==> (#[trigger] pairs[j]).0 != pairs[i].0,
    ensures
        map_of(pairs).contains_key(pairs[i].0),
        map_of(pairs)[pairs[i].0] == pairs[i].1,
    decreases pairs.len(),
{
    if i < pairs.len() - 1 {
        let front = pairs.drop_last();
        assert(forall|j: int| 0 <= j < front.len() ==> front[j] == pairs[j]);
        assert forall|j: int| i < j < front.len() implies (#[trigger] front[j]).0 != front[i].0 by {
            assert(pairs[j].0 != pairs[i].0);
        }
        law_map_of_last_pair_counts(front, i);
        assert(pairs[pairs.len() - 1].0 != pairs[i].0);
    }
}

} // verus!
