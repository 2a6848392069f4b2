//! Lists of named values, read as maps.

use vstd::prelude::*;

verus! {

/// No two pairs share a name.
pub open spec fn distinct<V>(pairs: Seq<(Seq<char>, V)>) -> bool {
    forall|i: int, j: int|
        #![trigger pairs[i], pairs[j]]
        0 <= i < j < pairs.len() ==> pairs[i].0 != pairs[j].0
}

/// The map of a list of pairs; a later pair replaces an earlier one.
pub open spec fn as_map<V>(pairs: Seq<(Seq<char>, V)>) -> Map<Seq<char>, V>
    decreases pairs.len(),
{
    if pairs.len() == 0 {
        Map::empty()
    } else {
        as_map(pairs.drop_last()).insert(pairs.last().0, pairs.last().1)
    }
}

proof fn lemma_distinct_head<V>(pairs: Seq<(Seq<char>, V)>)
    requires
        distinct(pairs),
        pairs.len() > 0,
    ensures
        distinct(pairs.drop_last()),
{
    let head = pairs.drop_last();
    assert forall|i: int, j: int|
        #![trigger head[i], head[j]]
        0 <= i < j < head.len() implies head[i].0 != head[j].0 by {
        assert(head[i] == pairs[i] && head[j] == pairs[j]);
    }
}

/// A name is in the map if and only if a pair has it, and then its value is the
/// value of that pair.
pub proof fn lemma_lookup<V>(pairs: Seq<(Seq<char>, V)>)
    requires
        distinct(pairs),
    ensures
        forall|i: int|
            0 <= i < pairs.len() ==> as_map(pairs).dom().contains((#[trigger] pairs[i]).0)
                && as_map(pairs)[pairs[i].0] == pairs[i].1,
        forall|name: Seq<char>| #[trigger]
            as_map(pairs).dom().contains(name) ==> exists|i: int|
                0 <= i < pairs.len() && (#[trigger] pairs[i]).0 == name,
    decreases pairs.len(),
{
    if pairs.len() > 0 {
        let head = pairs.drop_last();
        lemma_distinct_head(pairs);
        lemma_lookup(head);
        assert forall|i: int| 0 <= i < pairs.len() implies as_map(pairs).dom().contains(
            (#[trigger] pairs[i]).0,
        ) && as_map(pairs)[pairs[i].0] == pairs[i].1 by {
            if i < head.len() {
                assert(head[i] == pairs[i]);
                assert(pairs[i].0 != pairs[pairs.len() - 1].0);
            }
        }
        assert forall|name: Seq<char>| #[trigger] as_map(pairs).dom().contains(name) implies exists|i: int|
            0 <= i < pairs.len() && (#[trigger] pairs[i]).0 == name by {
            if name == pairs.last().0 {
                assert(pairs[pairs.len() - 1].0 == name);
            } else {
                assert(as_map(head).dom().contains(name));
                let i = choose|i: int| 0 <= i < head.len() && (#[trigger] head[i]).0 == name;
                assert(pairs[i].0 == name);
            }
        }
    }
}

/// Removing a pair removes its name.
pub proof fn lemma_remove<V>(pairs: Seq<(Seq<char>, V)>, index: int)
    requires
        distinct(pairs),
        0 <= index < pairs.len(),
    ensures
        distinct(pairs.remove(index)),
        as_map(pairs.remove(index)) == as_map(pairs).remove(pairs[index].0),
{
    let rest = pairs.remove(index);
    let name = pairs[index].0;
    assert forall|i: int, j: int|
        #![trigger rest[i], rest[j]]
        0 <= i < j < rest.len() implies rest[i].0 != rest[j].0 by {
        let i2 = if i < index { i } else { i + 1 };
        let j2 = if j < index { j } else { j + 1 };
        assert(rest[i] == pairs[i2] && rest[j] == pairs[j2]);
    }
    lemma_lookup(pairs);
    lemma_lookup(rest);
    let before = as_map(pairs).remove(name);
    let after = as_map(rest);
    assert forall|key: Seq<char>| #[trigger] after.dom().contains(key) implies before.dom().contains(
        key,
    ) && before[key] == after[key] by {
        let i = choose|i: int| 0 <= i < rest.len() && (#[trigger] rest[i]).0 == key;
        let i2 = if i < index { i } else { i + 1 };
        assert(rest[i] == pairs[i2]);
        assert(pairs[i2].0 != pairs[index].0);
    }
    assert forall|key: Seq<char>| #[trigger] before.dom().contains(key) implies after.dom().contains(
        key,
    ) by {
        assert(as_map(pairs).dom().contains(key));
        let i = choose|i: int| 0 <= i < pairs.len() && (#[trigger] pairs[i]).0 == key;
        let i2 = if i < index { i } else { i - 1 };
        assert(rest[i2] == pairs[i]);
        assert(rest[i2].0 == key);
    }
    assert(after =~= before);
}

/// A pair with a new name adds that name.
pub proof fn lemma_push<V>(pairs: Seq<(Seq<char>, V)>, name: Seq<char>, value: V)
    requires
        distinct(pairs),
        !as_map(pairs).dom().contains(name),
    ensures
        distinct(pairs.push((name, value))),
        as_map(pairs.push((name, value))) == as_map(pairs).insert(name, value),
{
    let more = pairs.push((name, value));
    lemma_lookup(pairs);
    assert(more.drop_last() =~= pairs);
    assert forall|i: int, j: int|
        #![trigger more[i], more[j]]
        0 <= i < j < more.len() implies more[i].0 != more[j].0 by {
        assert(more[i] == pairs[i]);
        assert(as_map(pairs).dom().contains(pairs[i].0));
    }
}

} // verus!
