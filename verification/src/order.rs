//! Stable sorting and sorted lists of strings.

use vstd::prelude::*;

use crate::text;
use crate::text::{str_equal, text_order};

verus! {

/// A value with a strict order of its own.
pub trait Ranked {
    /// Whether this value comes strictly before the other one.
    spec fn ranks_before(&self, other: &Self) -> bool;

    fn is_before(&self, other: &Self) -> (r: bool)
        ensures
            r == self.ranks_before(other),
    ;
}

/// `list` with `item` put in behind everything that it does not come before.
pub open spec fn insert_stable<T: Ranked>(list: Seq<T>, item: T) -> Seq<T>
    decreases list.len(),
{
    if list.len() == 0 || !item.ranks_before(&list.last()) {
        list.push(item)
    } else {
        insert_stable(list.drop_last(), item).push(list.last())
    }
}

/// The items in order; items of equal rank keep the order they came in.
pub open spec fn stable_sort<T: Ranked>(items: Seq<T>) -> Seq<T>
    decreases items.len(),
{
    if items.len() == 0 {
        Seq::empty()
    } else {
        insert_stable(stable_sort(items.drop_last()), items.last())
    }
}

/// The values behind a sequence of references.
pub open spec fn targets<T>(items: Seq<&T>) -> Seq<T> {
    items.map_values(|item: &T| *item)
}

proof fn lemma_insert_at<T: Ranked>(list: Seq<T>, item: T, position: int)
    requires
        0 <= position <= list.len(),
        position > 0 ==> !item.ranks_before(&list[position - 1]),
        forall|i: int| position <= i < list.len() ==> item.ranks_before(&#[trigger] list[i]),
    ensures
        insert_stable(list, item) == list.insert(position, item),
    decreases list.len(),
{
    if position == list.len() {
        assert(list.insert(position, item) =~= list.push(item));
    } else {
        assert(list.last() == list[list.len() - 1]);
        assert forall|i: int| position <= i < list.drop_last().len() implies item.ranks_before(
            &#[trigger] list.drop_last()[i],
        ) by {
            assert(list.drop_last()[i] == list[i]);
        }
        if position > 0 {
            assert(list.drop_last()[position - 1] == list[position - 1]);
        }
        lemma_insert_at(list.drop_last(), item, position);
        assert(list.insert(position, item) =~= list.drop_last().insert(position, item).push(
            list.last(),
        ));
    }
}

/// References to the items in stable order.
pub fn sorted_refs<T: Ranked>(items: &[T]) -> (r: Vec<&T>)
    ensures
        targets(r@) == stable_sort(items@),
{
    let mut sorted: Vec<&T> = Vec::new();
    let mut index: usize = 0;
    assert(targets(sorted@) =~= stable_sort(items@.take(0)));
    while index < items.len()
        invariant
            index <= items.len(),
            targets(sorted@) == stable_sort(items@.take(index as int)),
        decreases items.len() - index,
    {
        let item = &items[index];
        let mut position: usize = sorted.len();
        while position > 0 && item.is_before(sorted[position - 1])
            invariant
                position <= sorted.len(),
                forall|i: int|
                    position <= i < sorted.len() ==> item.ranks_before(#[trigger] sorted@[i]),
            decreases position,
        {
            position -= 1;
        }
        let ghost before = targets(sorted@);
        proof {
            assert(items@.take(index + 1).drop_last() =~= items@.take(index as int));
            assert forall|i: int| position <= i < before.len() implies item.ranks_before(
                &#[trigger] before[i],
            ) by {
                assert(before[i] == *sorted@[i]);
            }
            if position > 0 {
                assert(before[position - 1] == *sorted@[position - 1]);
            }
            lemma_insert_at(before, *item, position as int);
        }
        sorted.insert(position, item);
        assert(targets(sorted@) =~= before.insert(position as int, *item));
        index += 1;
    }
    assert(items@.take(index as int) =~= items@);
    sorted
}

proof fn lemma_insert_multiset<T: Ranked>(list: Seq<T>, item: T)
    ensures
        insert_stable(list, item).to_multiset() == list.to_multiset().insert(item),
    decreases list.len(),
{
    broadcast use vstd::seq_lib::group_to_multiset_ensures;

    if list.len() == 0 || !item.ranks_before(&list.last()) {
    } else {
        lemma_insert_multiset(list.drop_last(), item);
        assert(list.drop_last().push(list.last()) =~= list);
        assert(list.drop_last().to_multiset().insert(list.last()) == list.to_multiset());
        assert(insert_stable(list, item).to_multiset() =~= list.to_multiset().insert(item));
    }
}

/// Sorting neither adds nor drops an item.
pub proof fn stable_sort_is_a_permutation<T: Ranked>(items: Seq<T>)
    ensures
        stable_sort(items).to_multiset() == items.to_multiset(),
    decreases items.len(),
{
    broadcast use vstd::seq_lib::group_to_multiset_ensures;

    if items.len() == 0 {
        assert(stable_sort(items) =~= items);
    } else {
        stable_sort_is_a_permutation(items.drop_last());
        lemma_insert_multiset(stable_sort(items.drop_last()), items.last());
        assert(items.drop_last().push(items.last()) =~= items);
    }
}

/// No item comes before one that precedes it.
pub open spec fn in_order<T: Ranked>(items: Seq<T>) -> bool {
    forall|i: int, j: int|
        #![trigger items[i], items[j]]
        0 <= i < j < items.len() ==> !items[j].ranks_before(&items[i])
}

/// The order is a strict weak order.
pub open spec fn strict_weak_order<T: Ranked>() -> bool {
    &&& forall|a: T, b: T| #[trigger] a.ranks_before(&b) ==> !b.ranks_before(&a)
    &&& forall|a: T, b: T, c: T|
        #![trigger a.ranks_before(&c), b.ranks_before(&c)]
        #![trigger a.ranks_before(&c), b.ranks_before(&a)]
        a.ranks_before(&c) ==> a.ranks_before(&b) || b.ranks_before(&c)
}

proof fn lemma_insert_member<T: Ranked>(list: Seq<T>, item: T, index: int)
    requires
        0 <= index < insert_stable(list, item).len(),
    ensures
        insert_stable(list, item)[index] == item || exists|k: int|
            0 <= k < list.len() && #[trigger] list[k] == insert_stable(list, item)[index],
    decreases list.len(),
{
    let result = insert_stable(list, item);
    if list.len() == 0 || !item.ranks_before(&list.last()) {
        if index < list.len() {
            assert(list[index] == result[index]);
        }
    } else if index < result.len() - 1 {
        lemma_insert_member(list.drop_last(), item, index);
        if result[index] != item {
            let k = choose|k: int|
                0 <= k < list.drop_last().len() && #[trigger] list.drop_last()[k] == result[index];
            assert(list[k] == result[index]);
        }
    } else {
        assert(list[list.len() - 1] == result[index]);
    }
}

proof fn lemma_insert_in_order<T: Ranked>(list: Seq<T>, item: T)
    requires
        strict_weak_order::<T>(),
        in_order(list),
    ensures
        in_order(insert_stable(list, item)),
    decreases list.len(),
{
    let result = insert_stable(list, item);
    if list.len() == 0 {
    } else if !item.ranks_before(&list.last()) {
        assert forall|i: int, j: int|
            #![trigger result[i], result[j]]
            0 <= i < j < result.len() implies !result[j].ranks_before(&result[i]) by {
            if j == list.len() {
                let last = list[list.len() - 1];
                if item.ranks_before(&list[i]) {
                    // either the item precedes the last element or the last element precedes this one
                    assert(item.ranks_before(&last) || last.ranks_before(&list[i]));
                }
            }
        }
    } else {
        let head = list.drop_last();
        assert forall|i: int, j: int|
            #![trigger head[i], head[j]]
            0 <= i < j < head.len() implies !head[j].ranks_before(&head[i]) by {
            assert(head[i] == list[i] && head[j] == list[j]);
        }
        lemma_insert_in_order(head, item);
        assert forall|i: int, j: int|
            #![trigger result[i], result[j]]
            0 <= i < j < result.len() implies !result[j].ranks_before(&result[i]) by {
            if j == result.len() - 1 {
                lemma_insert_member(head, item, i);
                let last = list[list.len() - 1];
                if result[i] == item {
                } else {
                    let k = choose|k: int| 0 <= k < head.len() && #[trigger] head[k] == result[i];
                    assert(list[k] == result[i]);
                }
            } else {
                assert(insert_stable(head, item)[i] == result[i]);
                assert(insert_stable(head, item)[j] == result[j]);
            }
        }
    }
}

/// Sorting by a strict weak order puts the items in order.
pub proof fn stable_sort_is_in_order<T: Ranked>(items: Seq<T>)
    requires
        strict_weak_order::<T>(),
    ensures
        in_order(stable_sort(items)),
    decreases items.len(),
{
    if items.len() > 0 {
        stable_sort_is_in_order(items.drop_last());
        lemma_insert_in_order(stable_sort(items.drop_last()), items.last());
    }
}

/// The number of items that come before a bound.
spec fn count_before<T: Ranked>(items: Seq<T>, bound: T) -> nat
    decreases items.len(),
{
    if items.len() == 0 {
        0
    } else {
        count_before(items.drop_last(), bound) + (if items.last().ranks_before(&bound) {
            1nat
        } else {
            0
        })
    }
}

proof fn lemma_count_of_multiset<T: Ranked>(items: Seq<T>, bound: T)
    ensures
        count_before(items, bound) == items.to_multiset().filter(
            |item: T| item.ranks_before(&bound),
        ).len(),
    decreases items.len(),
{
    broadcast use vstd::multiset::group_multiset_axioms;
    broadcast use vstd::seq_lib::group_to_multiset_ensures;

    let chosen = |item: T| item.ranks_before(&bound);
    let all = items.to_multiset();
    if items.len() == 0 {
        assert(all.filter(chosen) =~= vstd::multiset::Multiset::empty());
    } else {
        let head = items.drop_last();
        let last = items.last();
        lemma_count_of_multiset(head, bound);
        assert(head.push(last) =~= items);
        assert(all =~= head.to_multiset().insert(last));
        if chosen(last) {
            assert(all.filter(chosen) =~= head.to_multiset().filter(chosen).insert(last));
        } else {
            assert(all.filter(chosen) =~= head.to_multiset().filter(chosen));
        }
    }
}

proof fn lemma_count_bounds<T: Ranked>(items: Seq<T>, bound: T, position: int)
    requires
        0 <= position <= items.len(),
    ensures
        (forall|i: int| 0 <= i < position ==> (#[trigger] items[i]).ranks_before(&bound))
            ==> count_before(items, bound) >= position,
        (forall|i: int|
            position <= i < items.len() ==> !(#[trigger] items[i]).ranks_before(&bound))
            ==> count_before(items, bound) <= position,
    decreases items.len(),
{
    if items.len() > 0 {
        let head = items.drop_last();
        assert(forall|i: int| 0 <= i < head.len() ==> #[trigger] head[i] == items[i]);
        if position == items.len() {
            lemma_count_bounds(head, bound, position - 1);
            if forall|i: int| 0 <= i < position ==> (#[trigger] items[i]).ranks_before(&bound) {
                assert(items[position - 1].ranks_before(&bound));
                assert(forall|i: int|
                    0 <= i < position - 1 ==> (#[trigger] head[i]).ranks_before(&bound));
            }
        } else {
            lemma_count_bounds(head, bound, position);
            if forall|i: int| 0 <= i < position ==> (#[trigger] items[i]).ranks_before(&bound) {
                assert(forall|i: int|
                    0 <= i < position ==> (#[trigger] head[i]).ranks_before(&bound));
            }
            if forall|i: int|
                position <= i < items.len() ==> !(#[trigger] items[i]).ranks_before(&bound) {
                assert(!items[items.len() - 1].ranks_before(&bound));
                assert(forall|i: int|
                    position <= i < head.len() ==> !(#[trigger] head[i]).ranks_before(&bound));
            }
        }
        if position == items.len() {
            lemma_count_limit(head, bound);
        }
    }
}

proof fn lemma_count_limit<T: Ranked>(items: Seq<T>, bound: T)
    ensures
        count_before(items, bound) <= items.len(),
    decreases items.len(),
{
    if items.len() > 0 {
        lemma_count_limit(items.drop_last(), bound);
    }
}

proof fn lemma_not_smaller<T: Ranked>(left: Seq<T>, right: Seq<T>, index: int)
    requires
        strict_weak_order::<T>(),
        in_order(left),
        in_order(right),
        left.to_multiset() == right.to_multiset(),
        left.len() == right.len(),
        0 <= index < left.len(),
    ensures
        !left[index].ranks_before(&right[index]),
{
    let bound = right[index];
    if left[index].ranks_before(&bound) {
        assert forall|i: int| 0 <= i < index + 1 implies (#[trigger] left[i]).ranks_before(
            &bound,
        ) by {
            if i < index {
                assert(!left[index].ranks_before(&left[i]));
            }
        }
        assert forall|i: int| index <= i < right.len() implies !(#[trigger] right[i]).ranks_before(
            &bound,
        ) by {
            if i > index {
                assert(!right[i].ranks_before(&right[index]));
            }
        }
        lemma_count_bounds(left, bound, index + 1);
        lemma_count_bounds(right, bound, index);
        lemma_count_of_multiset(left, bound);
        lemma_count_of_multiset(right, bound);
    }
}

/// The order that items came in does not matter for the ranks after sorting: at
/// every position two sorted lists of the same items hold items of equal rank.
pub proof fn sorted_ranks_depend_on_the_items_alone<T: Ranked>(left: Seq<T>, right: Seq<T>)
    requires
        strict_weak_order::<T>(),
        left.to_multiset() == right.to_multiset(),
    ensures
        stable_sort(left).len() == stable_sort(right).len(),
        forall|i: int|
            #![trigger stable_sort(left)[i]]
            #![trigger stable_sort(right)[i]]
            0 <= i < stable_sort(left).len() ==> !stable_sort(left)[i].ranks_before(
                &stable_sort(right)[i],
            ) && !stable_sort(right)[i].ranks_before(&stable_sort(left)[i]),
{
    broadcast use vstd::seq_lib::group_to_multiset_ensures;

    let (a, b) = (stable_sort(left), stable_sort(right));
    stable_sort_is_a_permutation(left);
    stable_sort_is_a_permutation(right);
    stable_sort_is_in_order(left);
    stable_sort_is_in_order(right);
    assert(a.len() == a.to_multiset().len());
    assert(b.len() == b.to_multiset().len());
    assert forall|i: int|
        #![trigger a[i]]
        #![trigger b[i]]
        0 <= i < a.len() implies !a[i].ranks_before(&b[i]) && !b[i].ranks_before(&a[i]) by {
        lemma_not_smaller(a, b, i);
        lemma_not_smaller(b, a, i);
    }
}


/// A sorted list with one more entry; an entry that is there already stays alone.
pub open spec fn insert_sorted(list: Seq<Seq<char>>, entry: Seq<char>) -> Seq<Seq<char>>
    decreases list.len(),
{
    if list.len() == 0 {
        seq![entry]
    } else if entry == list[0] {
        list
    } else if text::text_before(entry, list[0]) {
        seq![entry] + list
    } else {
        seq![list[0]] + insert_sorted(list.skip(1), entry)
    }
}

pub proof fn lemma_insert_sorted(list: Seq<Seq<char>>, entry: Seq<char>, position: int)
    requires
        0 <= position <= list.len(),
        forall|i: int| 0 <= i < position ==> text::text_before(#[trigger] list[i], entry),
        position < list.len() ==> entry == list[position] || text::text_before(
            entry,
            list[position],
        ),
    ensures
        insert_sorted(list, entry) == (if position < list.len() && list[position] == entry {
            list
        } else {
            list.insert(position, entry)
        }),
    decreases list.len(),
{
    if position == 0 {
        assert(list.insert(0, entry) =~= seq![entry] + list);
    } else {
        text::lemma_text_before_total(list[0], entry);
        let rest = list.skip(1);
        assert forall|i: int| 0 <= i < position - 1 implies text::text_before(
            #[trigger] rest[i],
            entry,
        ) by {
            assert(rest[i] == list[i + 1]);
        }
        lemma_insert_sorted(rest, entry, position - 1);
        assert(list =~= seq![list[0]] + rest);
        assert(list.insert(position, entry) =~= seq![list[0]] + rest.insert(position - 1, entry));
    }
}

/// Strictly ascending in the order of strings.
pub open spec fn ascending(list: Seq<Seq<char>>) -> bool {
    forall|i: int, j: int|
        #![trigger list[i], list[j]]
        0 <= i < j < list.len() ==> text::text_before(list[i], list[j])
}

pub proof fn lemma_insert_sorted_ascending(list: Seq<Seq<char>>, entry: Seq<char>)
    requires
        ascending(list),
    ensures
        ascending(insert_sorted(list, entry)),
        forall|s: Seq<char>| #[trigger]
            insert_sorted(list, entry).contains(s) <==> s == entry || list.contains(s),
    decreases list.len(),
{
    let result = insert_sorted(list, entry);
    if list.len() == 0 {
        assert(result[0] == entry);
    } else if entry == list[0] {
        assert(list.contains(entry));
    } else {
        let rest = list.skip(1);
        assert(list =~= seq![list[0]] + rest);
        assert forall|i: int, j: int|
            #![trigger rest[i], rest[j]]
            0 <= i < j < rest.len() implies text::text_before(rest[i], rest[j]) by {
            assert(rest[i] == list[i + 1] && rest[j] == list[j + 1]);
        }
        if text::text_before(entry, list[0]) {
            assert forall|i: int, j: int|
                #![trigger result[i], result[j]]
                0 <= i < j < result.len() implies text::text_before(result[i], result[j]) by {
                if i == 0 {
                    if j > 1 {
                        assert(text::text_before(list[0], list[j - 1]));
                        text::lemma_text_before_transitive(entry, list[0], list[j - 1]);
                    }
                } else {
                    assert(result[i] == list[i - 1] && result[j] == list[j - 1]);
                }
            }
            assert forall|s: Seq<char>| #[trigger] result.contains(s) <==> s == entry
                || list.contains(s) by {
                if list.contains(s) {
                    let k = choose|k: int| 0 <= k < list.len() && list[k] == s;
                    assert(result[k + 1] == s);
                }
                if s == entry {
                    assert(result[0] == s);
                }
                if result.contains(s) && s != entry {
                    let k = choose|k: int| 0 <= k < result.len() && result[k] == s;
                    assert(list[k - 1] == s);
                }
            }
        } else {
            lemma_insert_sorted_ascending(rest, entry);
            text::lemma_text_before_total(entry, list[0]);
            let tail = insert_sorted(rest, entry);
            assert forall|i: int, j: int|
                #![trigger result[i], result[j]]
                0 <= i < j < result.len() implies text::text_before(result[i], result[j]) by {
                if i == 0 {
                    assert(result[j] == tail[j - 1]);
                    assert(tail.contains(tail[j - 1]));
                    if tail[j - 1] != entry {
                        let k = choose|k: int| 0 <= k < rest.len() && rest[k] == tail[j - 1];
                        assert(text::text_before(list[0], list[k + 1]));
                    }
                } else {
                    assert(result[i] == tail[i - 1] && result[j] == tail[j - 1]);
                }
            }
            assert forall|s: Seq<char>| #[trigger] result.contains(s) <==> s == entry
                || list.contains(s) by {
                if result.contains(s) {
                    let k = choose|k: int| 0 <= k < result.len() && result[k] == s;
                    if k == 0 {
                        assert(list[0] == s);
                    } else {
                        assert(tail[k - 1] == s);
                        assert(tail.contains(s));
                        if s != entry {
                            let m = choose|m: int| 0 <= m < rest.len() && rest[m] == s;
                            assert(list[m + 1] == s);
                        }
                    }
                }
                if s == entry || list.contains(s) {
                    if list.contains(s) {
                        let k = choose|k: int| 0 <= k < list.len() && list[k] == s;
                        if k == 0 {
                            assert(result[0] == s);
                        } else {
                            assert(rest[k - 1] == s);
                            assert(rest.contains(s));
                        }
                    }
                    if s == entry || rest.contains(s) {
                        assert(tail.contains(s));
                        let k = choose|k: int| 0 <= k < tail.len() && tail[k] == s;
                        assert(result[k + 1] == s);
                    }
                }
            }
        }
    }
}


/// The strings of a finite set in ascending order.
pub open spec fn ascending_list(names: Set<Seq<char>>) -> Seq<Seq<char>> {
    choose|list: Seq<Seq<char>>| #[trigger] lists(list, names)
}

/// The list is ascending and holds exactly the strings of the set.
pub open spec fn lists(list: Seq<Seq<char>>, names: Set<Seq<char>>) -> bool {
    &&& ascending(list)
    &&& forall|name: Seq<char>| #[trigger] list.contains(name) <==> names.contains(name)
}

/// Every finite set has an ascending list.
pub proof fn finite_sets_have_an_ascending_list(names: Set<Seq<char>>)
    requires
        names.finite(),
    ensures
        lists(ascending_list(names), names),
    decreases names.len(),
{
    if names.len() == 0 {
        let none = Seq::<Seq<char>>::empty();
        assert(names =~= Set::empty());
        assert(lists(none, names));
    } else {
        let name = names.choose();
        let rest = names.remove(name);
        finite_sets_have_an_ascending_list(rest);
        let list = insert_sorted(ascending_list(rest), name);
        lemma_insert_sorted_ascending(ascending_list(rest), name);
        assert(lists(list, names));
    }
}

/// There is only one ascending list of a set.
pub proof fn ascending_lists_are_unique(
    left: Seq<Seq<char>>,
    right: Seq<Seq<char>>,
    names: Set<Seq<char>>,
)
    requires
        lists(left, names),
        lists(right, names),
    ensures
        left == right,
    decreases left.len(),
{
    if left.len() == 0 {
        if right.len() > 0 {
            assert(right.contains(right[0]));
            assert(left.contains(right[0]));
        }
        assert(left =~= right);
    } else {
        assert(left.contains(left[0]));
        assert(right.contains(left[0]));
        let k = choose|k: int| 0 <= k < right.len() && right[k] == left[0];
        assert(right.contains(right[0]));
        assert(left.contains(right[0]));
        let m = choose|m: int| 0 <= m < left.len() && left[m] == right[0];
        if k > 0 && m > 0 {
            assert(text::text_before(right[0], right[k]));
            assert(text::text_before(left[0], left[m]));
            text::lemma_text_before_total(left[0], right[0]);
        }
        assert(left[0] == right[0]);
        let rest = names.remove(left[0]);
        lemma_tail_lists(left, names);
        lemma_tail_lists(right, names);
        ascending_lists_are_unique(left.skip(1), right.skip(1), rest);
        assert(left =~= seq![left[0]] + left.skip(1));
        assert(right =~= seq![right[0]] + right.skip(1));
    }
}

proof fn lemma_tail_lists(list: Seq<Seq<char>>, names: Set<Seq<char>>)
    requires
        list.len() > 0,
        lists(list, names),
    ensures
        lists(list.skip(1), names.remove(list[0])),
{
    let tail = list.skip(1);
    assert forall|i: int, j: int|
        #![trigger tail[i], tail[j]]
        0 <= i < j < tail.len() implies text::text_before(tail[i], tail[j]) by {
        assert(tail[i] == list[i + 1] && tail[j] == list[j + 1]);
    }
    assert forall|name: Seq<char>| #[trigger] tail.contains(name) <==> names.remove(
        list[0],
    ).contains(name) by {
        if tail.contains(name) {
            let k = choose|k: int| 0 <= k < tail.len() && tail[k] == name;
            assert(list[k + 1] == name);
            assert(list.contains(name));
            assert(text::text_before(list[0], list[k + 1]));
            text::lemma_text_before_total(list[0], name);
        }
        if names.remove(list[0]).contains(name) {
            assert(list.contains(name));
            let k = choose|k: int| 0 <= k < list.len() && list[k] == name;
            assert(tail[k - 1] == name);
        }
    }
}

/// Puts a string into an ascending list unless it is there already.
pub fn insert_ascending(list: &mut Vec<String>, entry: String)
    ensures
        text::texts(final(list)@) == insert_sorted(text::texts(old(list)@), entry@),
{
    let ghost before = text::texts(list@);
    let mut position: usize = 0;
    while position < list.len() && text_order(list[position].as_str(), entry.as_str())
        invariant
            position <= list.len(),
            before == text::texts(list@),
            forall|i: int| 0 <= i < position ==> text::text_before(#[trigger] before[i], entry@),
        decreases list.len() - position,
    {
        position += 1;
    }
    proof {
        if position < list.len() {
            assert(before[position as int] == list@[position as int]@);
            text::lemma_text_before_total(before[position as int], entry@);
        }
        lemma_insert_sorted(before, entry@, position as int);
    }
    let known = position < list.len() && str_equal(list[position].as_str(), entry.as_str());
    if !known {
        let ghost added = entry@;
        list.insert(position, entry);
        assert(text::texts(list@) =~= before.insert(position as int, added));
    }
}

/// The items of a list that rank neither before nor behind a given one.
pub open spec fn ranked_alike<T: Ranked>(items: Seq<T>, with: T) -> Seq<T>
    decreases items.len(),
{
    if items.len() == 0 {
        Seq::empty()
    } else {
        let earlier = ranked_alike(items.drop_last(), with);
        let last = items.last();
        if !last.ranks_before(&with) && !with.ranks_before(&last) {
            earlier.push(last)
        } else {
            earlier
        }
    }
}

proof fn lemma_insert_behind_its_likes<T: Ranked>(list: Seq<T>, item: T, with: T)
    requires
        strict_weak_order::<T>(),
    ensures
        ranked_alike(insert_stable(list, item), with) == (if !item.ranks_before(&with)
            && !with.ranks_before(&item) {
            ranked_alike(list, with).push(item)
        } else {
            ranked_alike(list, with)
        }),
    decreases list.len(),
{
    let result = insert_stable(list, item);
    if list.len() == 0 || !item.ranks_before(&list.last()) {
        assert(result.drop_last() =~= list);
    } else {
        let head = list.drop_last();
        let last = list.last();
        lemma_insert_behind_its_likes(head, item, with);
        assert(result.drop_last() =~= insert_stable(head, item));
        // the item comes before the last element, so both cannot rank alike with another
        assert(item.ranks_before(&last));
        assert(item.ranks_before(&with) || with.ranks_before(&last));
    }
}

/// Items that rank alike keep the order in which they came.
pub proof fn likes_keep_their_order<T: Ranked>(items: Seq<T>, with: T)
    requires
        strict_weak_order::<T>(),
    ensures
        ranked_alike(stable_sort(items), with) == ranked_alike(items, with),
    decreases items.len(),
{
    if items.len() > 0 {
        likes_keep_their_order(items.drop_last(), with);
        lemma_insert_behind_its_likes(stable_sort(items.drop_last()), items.last(), with);
    }
}

} // verus!
