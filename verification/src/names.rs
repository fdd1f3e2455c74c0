//! Normalising a list of model names: sorted ascending, each name once.

use vstd::prelude::*;
use vstd::seq_lib::*;
use vstd::string::*;

use crate::order::lemma_text_le_antisymmetric;
use crate::order::lemma_text_le_reflexive;
use crate::order::lemma_text_le_total;
use crate::order::lemma_text_le_transitive;
use crate::order::name_le;
use crate::order::text_le;
use crate::order::text_lt;

verus! {

/// The texts of a list of names, in the list's order.
pub open spec fn names_of(names: Seq<String>) -> Seq<Seq<char>> {
    Seq::new(names.len(), |i: int| names[i]@)
}

/// Every name is at most each name after it.
pub open spec fn ascending(names: Seq<Seq<char>>) -> bool {
    forall|i: int, j: int| 0 <= i < j < names.len() ==> text_le(#[trigger] names[i], #[trigger] names[j])
}

/// Every name is strictly before each name after it, so no name occurs twice.
pub open spec fn strictly_ascending(names: Seq<Seq<char>>) -> bool {
    forall|i: int, j: int| 0 <= i < j < names.len() ==> text_lt(#[trigger] names[i], #[trigger] names[j])
}

/// Sorts `names` ascending by the standard ordering of text. Names that occur
/// several times keep all their occurrences. The sort is by insertion: a
/// daemon reports a handful of models.
pub fn sort_names(names: &mut Vec<String>)
    ensures
        ascending(names_of(final(names)@)),
        names_of(final(names)@).to_multiset() == names_of(old(names)@).to_multiset(),
{
    let mut i: usize = 0;
    while i < names.len()
        invariant
            i <= names@.len(),
            ascending(names_of(names@).take(i as int)),
            names_of(names@).to_multiset() == names_of(old(names)@).to_multiset(),
        decreases names@.len() - i,
    {
        let ghost before = names_of(names@);
        let name = names.remove(i);
        let ghost rest = names_of(names@);
        let mut at: usize = i;
        while at > 0 && !name_le(names[at - 1].as_str(), name.as_str())
            invariant
                at <= i,
                i <= names@.len(),
                rest == names_of(names@),
                forall|k: int| at <= k < i ==> !text_le(#[trigger] rest[k], name@),
            decreases at,
        {
            at -= 1;
        }
        names.insert(at, name);
        proof {
            let after = names_of(names@);
            assert(rest =~= before.remove(i as int));
            assert(after =~= rest.insert(at as int, name@));
            to_multiset_remove(before, i as int);
            to_multiset_insert(rest, at as int, name@);
            before.to_multiset_ensures();
            assert(before.contains(before[i as int]));
            assert(after.to_multiset() =~= before.to_multiset());
            let sorted = after.take(i + 1);
            assert forall|p: int, q: int| 0 <= p < q < sorted.len() implies text_le(
                #[trigger] sorted[p],
                #[trigger] sorted[q],
            ) by {
                let sorted_before = before.take(i as int);
                if q == at {
                    assert(sorted_before[p] == rest[p]);
                    assert(sorted_before[at - 1] == rest[at - 1]);
                    if p < at - 1 {
                        lemma_text_le_transitive(rest[p], rest[at - 1], name@);
                    }
                } else if p == at {
                    lemma_text_le_total(rest[q - 1], name@);
                } else {
                    let from = if p < at { p } else { p - 1 };
                    let to = if q < at { q } else { q - 1 };
                    assert(sorted_before[from] == rest[from]);
                    assert(sorted_before[to] == rest[to]);
                }
            }
        }
        i += 1;
    }
    proof {
        assert(names_of(names@).take(i as int) =~= names_of(names@));
    }
}

/// `names` without its consecutive repetitions: of each run of equal names the
/// first stays.
pub open spec fn dedup_adjacent(names: Seq<Seq<char>>) -> Seq<Seq<char>>
    decreases names.len(),
{
    if names.len() == 0 {
        names
    } else {
        let kept = dedup_adjacent(names.drop_last());
        if names.len() >= 2 && names[names.len() - 2] == names.last() {
            kept
        } else {
            kept.push(names.last())
        }
    }
}

/// Removes the consecutive repetitions from `names`.
pub fn dedup_names(names: &mut Vec<String>)
    ensures
        names_of(final(names)@) == dedup_adjacent(names_of(old(names)@)),
{
    let mut kept: Vec<String> = Vec::new();
    let mut i: usize = 0;
    while i < names.len()
        invariant
            i <= names@.len(),
            names@ == old(names)@,
            names_of(kept@) =~= dedup_adjacent(names_of(names@).take(i as int)),
        decreases names@.len() - i,
    {
        let ghost seen = names_of(names@).take(i + 1);
        proof {
            assert(seen.drop_last() =~= names_of(names@).take(i as int));
        }
        if i == 0 || names[i - 1] != names[i] {
            kept.push(names[i].clone());
        }
        i += 1;
    }
    proof {
        assert(names_of(names@).take(i as int) =~= names_of(names@));
    }
    *names = kept;
}

/// `list` is the sorted, duplicate-free form of `names`: strictly ascending,
/// and holding exactly the names that occur in `names`.
pub open spec fn is_sorted_set_of(list: Seq<Seq<char>>, names: Seq<Seq<char>>) -> bool {
    strictly_ascending(list) && list.to_set() == names.to_set()
}

/// Removing the consecutive repetitions from an ascending list leaves its
/// sorted, duplicate-free form.
pub proof fn lemma_dedup_of_ascending(names: Seq<Seq<char>>)
    requires
        ascending(names),
    ensures
        is_sorted_set_of(dedup_adjacent(names), names),
    decreases names.len(),
{
    let list = dedup_adjacent(names);
    if names.len() == 0 {
        assert(list.to_set() =~= names.to_set());
    } else {
        let front = names.drop_last();
        let kept = dedup_adjacent(front);
        let last = names.last();
        assert forall|i: int, j: int| 0 <= i < j < front.len() implies text_le(
            #[trigger] front[i],
            #[trigger] front[j],
        ) by {
            assert(front[i] == names[i] && front[j] == names[j]);
        }
        lemma_dedup_of_ascending(front);
        assert forall|name: Seq<char>| names.contains(name) <==> (front.contains(name) || name
            == last) by {
            if names.contains(name) {
                let k = choose|k: int| 0 <= k < names.len() && names[k] == name;
                if k < front.len() {
                    assert(front[k] == name);
                }
            }
            if front.contains(name) {
                let k = choose|k: int| 0 <= k < front.len() && front[k] == name;
                assert(names[k] == name);
            }
            if name == last {
                assert(names[names.len() - 1] == name);
            }
        }
        if names.len() >= 2 && names[names.len() - 2] == last {
            assert(front[front.len() - 1] == last);
            assert(list.to_set() =~= names.to_set());
        } else {
            assert forall|i: int, j: int| 0 <= i < j < list.len() implies text_lt(
                #[trigger] list[i],
                #[trigger] list[j],
            ) by {
                if j == kept.len() {
                    assert(kept.contains(kept[i]));
                    assert(kept.to_set().contains(kept[i]));
                    assert(front.contains(kept[i]));
                    let k = choose|k: int| 0 <= k < front.len() && front[k] == kept[i];
                    assert(names[k] == kept[i]);
                    assert(names[names.len() - 1] == last);
                    if kept[i] == last {
                        assert(names[names.len() - 2] == front[front.len() - 1]);
                        if k < front.len() - 1 {
                            assert(text_le(names[k], names[names.len() - 2]));
                        }
                        assert(text_le(names[names.len() - 2], names[names.len() - 1]));
                        lemma_text_le_antisymmetric(names[names.len() - 2], last);
                    }
                } else {
                    assert(list[i] == kept[i] && list[j] == kept[j]);
                }
            }
            assert forall|name: Seq<char>| list.contains(name) <==> (kept.contains(name) || name
                == last) by {
                if list.contains(name) {
                    let k = choose|k: int| 0 <= k < list.len() && list[k] == name;
                    if k < kept.len() {
                        assert(kept[k] == name);
                    }
                }
                if kept.contains(name) {
                    let k = choose|k: int| 0 <= k < kept.len() && kept[k] == name;
                    assert(list[k] == name);
                }
                if name == last {
                    assert(list[list.len() - 1] == name);
                }
            }
            assert forall|name: Seq<char>| list.to_set().contains(name) <==> names.to_set().contains(
                name,
            ) by {
                assert(kept.to_set().contains(name) <==> front.to_set().contains(name));
            }
            assert(list.to_set() =~= names.to_set());
        }
    }
}

/// The sorted, duplicate-free list of the names in `names`: sorted ascending
/// by the standard ordering of text, then freed of consecutive repetitions.
pub fn normalize_names(names: Vec<String>) -> (list: Vec<String>)
    ensures
        is_sorted_set_of(names_of(list@), names_of(names@)),
{
    let mut list = names;
    sort_names(&mut list);
    let ghost sorted = names_of(list@);
    dedup_names(&mut list);
    proof {
        lemma_dedup_of_ascending(sorted);
        sorted.to_multiset_ensures();
        names_of(names@).to_multiset_ensures();
        assert forall|name: Seq<char>| sorted.contains(name) <==> names_of(names@).contains(
            name,
        ) by {
            assert(sorted.to_multiset().count(name) == names_of(names@).to_multiset().count(name));
        }
        assert(sorted.to_set() =~= names_of(names@).to_set());
    }
    list
}

/// In a strictly ascending list every name is at most the last.
proof fn lemma_last_is_greatest(list: Seq<Seq<char>>, name: Seq<char>)
    requires
        strictly_ascending(list),
        list.contains(name),
    ensures
        text_le(name, list.last()),
{
    let k = choose|k: int| 0 <= k < list.len() && list[k] == name;
    if k < list.len() - 1 {
        assert(text_lt(list[k], list[list.len() - 1]));
    } else {
        lemma_text_le_reflexive(name);
    }
}

/// Of two strictly ascending lists that hold the same names and end alike,
/// every name before the end of the first stands before the end of the second.
proof fn lemma_fronts_agree(first: Seq<Seq<char>>, second: Seq<Seq<char>>, name: Seq<char>)
    requires
        strictly_ascending(first),
        first.to_set() == second.to_set(),
        first.len() > 0,
        second.len() > 0,
        first.last() == second.last(),
        first.drop_last().contains(name),
    ensures
        second.drop_last().contains(name),
{
    let i = choose|i: int| 0 <= i < first.len() - 1 && first.drop_last()[i] == name;
    assert(text_lt(first[i], first[first.len() - 1]));
    assert(first.contains(first[i]));
    assert(first.to_set().contains(name));
    assert(second.contains(name));
    let k = choose|k: int| 0 <= k < second.len() && second[k] == name;
    assert(second.drop_last()[k] == name);
}

/// A set of names has one strictly ascending list only: two strictly
/// ascending lists that hold the same names are the same list.
pub proof fn lemma_strictly_ascending_unique(first: Seq<Seq<char>>, second: Seq<Seq<char>>)
    requires
        strictly_ascending(first),
        strictly_ascending(second),
        first.to_set() == second.to_set(),
    ensures
        first == second,
    decreases first.len(),
{
    if first.len() == 0 || second.len() == 0 {
        if first.len() > 0 {
            assert(first.contains(first[0]));
            assert(second.to_set().contains(first[0]));
        }
        if second.len() > 0 {
            assert(second.contains(second[0]));
            assert(first.to_set().contains(second[0]));
        }
        assert(first =~= second);
    } else {
        assert(first.contains(first[first.len() - 1]));
        assert(second.to_set().contains(first.last()));
        assert(second.contains(second[second.len() - 1]));
        assert(first.to_set().contains(second.last()));
        lemma_last_is_greatest(second, first.last());
        lemma_last_is_greatest(first, second.last());
        lemma_text_le_antisymmetric(first.last(), second.last());
        let first_front = first.drop_last();
        let second_front = second.drop_last();
        assert forall|name: Seq<char>| first_front.contains(name) <==> second_front.contains(
            name,
        ) by {
            if first_front.contains(name) {
                lemma_fronts_agree(first, second, name);
            }
            if second_front.contains(name) {
                lemma_fronts_agree(second, first, name);
            }
        }
        assert(first_front.to_set() =~= second_front.to_set());
        assert forall|i: int, j: int| 0 <= i < j < first_front.len() implies text_lt(
            #[trigger] first_front[i],
            #[trigger] first_front[j],
        ) by {
            assert(first_front[i] == first[i] && first_front[j] == first[j]);
        }
        assert forall|i: int, j: int| 0 <= i < j < second_front.len() implies text_lt(
            #[trigger] second_front[i],
            #[trigger] second_front[j],
        ) by {
            assert(second_front[i] == second[i] && second_front[j] == second[j]);
        }
        lemma_strictly_ascending_unique(first_front, second_front);
        assert(first =~= first_front.push(first.last()));
        assert(second =~= second_front.push(second.last()));
    }
}

/// The sorted, duplicate-free form depends on which names occur and on
/// nothing else: not on their order, not on how often each occurs. Two lists
/// of names that hold the same names have the same form, so normalising the
/// same names again gives the same list.
pub proof fn lemma_same_names_same_list(
    first_names: Seq<Seq<char>>,
    first_list: Seq<Seq<char>>,
    second_names: Seq<Seq<char>>,
    second_list: Seq<Seq<char>>,
)
    requires
        first_names.to_set() == second_names.to_set(),
        is_sorted_set_of(first_list, first_names),
        is_sorted_set_of(second_list, second_names),
    ensures
        first_list == second_list,
{
    lemma_strictly_ascending_unique(first_list, second_list);
}

/// Normalising is idempotent: the sorted, duplicate-free form of a list that
/// is already in that form is the list itself.
pub proof fn lemma_normalizing_twice_changes_nothing(
    names: Seq<Seq<char>>,
    once: Seq<Seq<char>>,
    twice: Seq<Seq<char>>,
)
    requires
        is_sorted_set_of(once, names),
        is_sorted_set_of(twice, once),
    ensures
        twice == once,
{
    lemma_strictly_ascending_unique(twice, once);
}

} // verus!
