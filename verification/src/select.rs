//! Which outputs a payment spends: the largest first, until they cover the amount.
use vstd::prelude::*;

use crate::list;
use crate::wallet::{OwnedOutput, OwnedView};

verus! {

/// The amounts of some outputs.
pub open spec fn amounts(outputs: Seq<OwnedView>) -> Seq<u64> {
    outputs.map_values(|o: OwnedView| o.amount)
}

/// How many indexes at the front of a list stand for amounts of at least `a`.
pub open spec fn at_least(list: Seq<int>, amounts: Seq<u64>, a: u64) -> int
    decreases list.len(),
{
    if list.len() == 0 || amounts[list[0]] < a {
        0
    } else {
        1 + at_least(list.skip(1), amounts, a)
    }
}

/// The indexes of some amounts, the largest amount first, and of equal amounts
/// the one that comes first in the list.
pub open spec fn order(amounts: Seq<u64>) -> Seq<int>
    decreases amounts.len(),
{
    if amounts.len() == 0 {
        Seq::empty()
    } else {
        let before = order(amounts.drop_last());
        before.insert(at_least(before, amounts, amounts.last()), amounts.len() - 1)
    }
}

/// The sum of the amounts at some indexes.
pub open spec fn sum_at(list: Seq<int>, amounts: Seq<u64>) -> nat
    decreases list.len(),
{
    if list.len() == 0 {
        0
    } else {
        sum_at(list.drop_last(), amounts) + amounts[list.last()] as nat
    }
}

/// So many outputs cover what is needed, and no fewer from the front do.
pub open spec fn is_shortest(amounts: Seq<u64>, need: int, count: int) -> bool {
    let all = order(amounts);
    &&& 0 <= count <= all.len()
    &&& sum_at(all.take(count), amounts) >= need
    &&& forall|k: int| 0 <= k < count ==> sum_at(#[trigger] all.take(k), amounts) < need
}

/// The indexes of a list are those of some amounts.
pub open spec fn indexes_of(list: Seq<int>, amounts: Seq<u64>) -> bool {
    forall|i: int| 0 <= i < list.len() ==> 0 <= #[trigger] list[i] < amounts.len()
}

/// A list of indexes goes from the largest amount to the smallest, and of equal
/// amounts from the first to the last.
pub open spec fn is_sorted(list: Seq<int>, amounts: Seq<u64>) -> bool {
    forall|i: int, j: int|
        0 <= i < j < list.len() ==> amounts[#[trigger] list[i]] > amounts[#[trigger] list[j]] || (
        amounts[list[i]] == amounts[list[j]] && list[i] < list[j])
}

// ---------------------------------------------------------------------------
// Lemmas
// ---------------------------------------------------------------------------

/// What lies in front of the place that [`at_least`] tells, and what lies at it.
proof fn lemma_at_least(list: Seq<int>, amounts: Seq<u64>, a: u64)
    ensures
        0 <= at_least(list, amounts, a) <= list.len(),
        forall|i: int|
            0 <= i < at_least(list, amounts, a) ==> amounts[#[trigger] list[i]] >= a,
        at_least(list, amounts, a) < list.len() ==> amounts[list[at_least(list, amounts, a)]] < a,
    decreases list.len(),
{
    if list.len() > 0 && amounts[list[0]] >= a {
        let rest = list.skip(1);
        lemma_at_least(rest, amounts, a);
        assert forall|i: int| 0 <= i < at_least(list, amounts, a) implies amounts[
            #[trigger] list[i]] >= a by {
            if i > 0 {
                assert(rest[i - 1] == list[i]);
            }
        }
        if at_least(list, amounts, a) < list.len() {
            assert(rest[at_least(rest, amounts, a)] == list[at_least(list, amounts, a)]);
        }
    }
}

/// The place is found by walking from the front.
proof fn lemma_place(list: Seq<int>, amounts: Seq<u64>, a: u64, p: int)
    requires
        0 <= p <= list.len(),
        forall|i: int| 0 <= i < p ==> amounts[#[trigger] list[i]] >= a,
        p < list.len() ==> amounts[list[p]] < a,
    ensures
        at_least(list, amounts, a) == p,
{
    lemma_at_least(list, amounts, a);
    let q = at_least(list, amounts, a);
    if q < p {
        assert(amounts[list[q]] >= a);
    }
    if p < q {
        assert(amounts[list[p]] >= a);
    }
}

/// Amounts behind the indexes of a list make no difference to their sum.
proof fn lemma_same_sum(list: Seq<int>, amounts: Seq<u64>, more: Seq<u64>)
    requires
        indexes_of(list, amounts),
        amounts.len() <= more.len(),
        forall|i: int| 0 <= i < amounts.len() ==> #[trigger] more[i] == amounts[i],
    ensures
        sum_at(list, amounts) == sum_at(list, more),
    decreases list.len(),
{
    if list.len() > 0 {
        let front = list.drop_last();
        assert forall|i: int| 0 <= i < front.len() implies 0 <= #[trigger] front[i]
            < amounts.len() by {
            assert(front[i] == list[i]);
        }
        assert(0 <= list[list.len() - 1] < amounts.len());
        assert(more[list.last()] == amounts[list.last()]);
        lemma_same_sum(front, amounts, more);
    }
}

/// A sum does not depend on where an index stands in the list.
proof fn lemma_sum_insert(list: Seq<int>, amounts: Seq<u64>, p: int, x: int)
    requires
        0 <= p <= list.len(),
    ensures
        sum_at(list.insert(p, x), amounts) == sum_at(list, amounts) + amounts[x] as nat,
    decreases list.len(),
{
    let with = list.insert(p, x);
    if p == list.len() {
        assert(with.drop_last() =~= list);
    } else {
        assert(with.drop_last() =~= list.drop_last().insert(p, x));
        assert(with.last() == list.last());
        lemma_sum_insert(list.drop_last(), amounts, p, x);
    }
}

// ---------------------------------------------------------------------------
// Laws
// ---------------------------------------------------------------------------

/// The order of some amounts names each of them exactly once.
pub proof fn law_order_names_each_once(amounts: Seq<u64>)
    ensures
        order(amounts).len() == amounts.len(),
        indexes_of(order(amounts), amounts),
        order(amounts).no_duplicates(),
        forall|x: int| 0 <= x < amounts.len() ==> #[trigger] order(amounts).contains(x),
    decreases amounts.len(),
{
    if amounts.len() > 0 {
        let less = amounts.drop_last();
        let before = order(less);
        let n = amounts.len() - 1;
        law_order_names_each_once(less);
        lemma_at_least(before, amounts, amounts.last());
        let p = at_least(before, amounts, amounts.last());
        let all = order(amounts);
        assert forall|i: int| 0 <= i < all.len() implies 0 <= #[trigger] all[i]
            < amounts.len() by {
            if i < p {
                assert(all[i] == before[i]);
            } else if i > p {
                assert(all[i] == before[i - 1]);
            }
        }
        assert forall|i: int, j: int| 0 <= i < all.len() && 0 <= j < all.len() && i != j implies all[i]
            != all[j] by {
            let a = if i < p {
                i
            } else {
                i - 1
            };
            let b = if j < p {
                j
            } else {
                j - 1
            };
            if i != p {
                assert(all[i] == before[a]);
            }
            if j != p {
                assert(all[j] == before[b]);
            }
        }
        assert forall|x: int| 0 <= x < amounts.len() implies #[trigger] all.contains(x) by {
            if x == n {
                assert(all[p] == n);
            } else {
                assert(before.contains(x));
                let k = choose|k: int| 0 <= k < before.len() && before[k] == x;
                if k < p {
                    assert(all[k] == x);
                } else {
                    assert(all[k + 1] == x);
                }
            }
        }
    }
}

/// The order of some amounts goes from the largest to the smallest, and equal
/// amounts stay in the order of the list.
pub proof fn law_order_is_sorted(amounts: Seq<u64>)
    ensures
        is_sorted(order(amounts), amounts),
    decreases amounts.len(),
{
    if amounts.len() > 0 {
        let less = amounts.drop_last();
        let before = order(less);
        let n = amounts.len() - 1;
        law_order_names_each_once(less);
        law_order_is_sorted(less);
        lemma_at_least(before, amounts, amounts.last());
        let p = at_least(before, amounts, amounts.last());
        let all = order(amounts);
        assert forall|i: int, j: int| 0 <= i < j < all.len() implies amounts[#[trigger] all[i]]
            > amounts[#[trigger] all[j]] || (amounts[all[i]] == amounts[all[j]] && all[i]
            < all[j]) by {
            let a = if i < p {
                i
            } else {
                i - 1
            };
            let b = if j < p {
                j
            } else {
                j - 1
            };
            if i != p && j != p {
                assert(all[i] == before[a] && all[j] == before[b]);
                assert(less[before[a]] == amounts[before[a]]);
                assert(less[before[b]] == amounts[before[b]]);
            } else if j == p {
                assert(all[i] == before[i]);
                assert(0 <= before[i] < less.len());
            } else {
                assert(all[j] == before[b]);
                if b > p {
                    assert(less[before[p]] == amounts[before[p]]);
                    assert(less[before[b]] == amounts[before[b]]);
                }
            }
        }
    }
}

/// All outputs together are worth the sum of their amounts, whatever their order.
pub proof fn law_order_keeps_the_sum(outputs: Seq<OwnedView>)
    ensures
        sum_at(order(amounts(outputs)), amounts(outputs)) == crate::wallet::amount_sum(outputs),
    decreases outputs.len(),
{
    if outputs.len() > 0 {
        let all = amounts(outputs);
        let less = outputs.drop_last();
        assert(amounts(less) =~= all.drop_last());
        law_order_keeps_the_sum(less);
        law_order_names_each_once(amounts(less));
        let before = order(amounts(less));
        lemma_same_sum(before, amounts(less), all);
        lemma_at_least(before, all, all.last());
        lemma_sum_insert(before, all, at_least(before, all, all.last()), all.len() - 1);
    }
}

/// Among distinct indexes, some stands at or behind any place that there are
/// enough of them to reach.
proof fn lemma_someone_behind(list: Seq<int>, chosen: Seq<int>, m: int)
    requires
        0 <= m < chosen.len(),
        list.no_duplicates(),
        chosen.no_duplicates(),
        forall|i: int| 0 <= i < chosen.len() ==> list.contains(#[trigger] chosen[i]),
        m < list.len(),
    ensures
        exists|i: int, k: int|
            0 <= i < chosen.len() && m <= k < list.len() && #[trigger] chosen[i]
                == #[trigger] list[k],
{
    if forall|i: int, k: int|
        0 <= i < chosen.len() && m <= k < list.len() ==> #[trigger] chosen[i]
            != #[trigger] list[k] {
        let front = list.take(m);
        front.unique_seq_to_set();
        chosen.unique_seq_to_set();
        assert forall|x: int| chosen.to_set().contains(x) implies front.to_set().contains(x) by {
            let i = choose|i: int| 0 <= i < chosen.len() && chosen[i] == x;
            assert(list.contains(chosen[i]));
            let k = choose|k: int| 0 <= k < list.len() && list[k] == chosen[i];
            assert(k < m);
            assert(front[k] == x);
        }
        vstd::set_lib::lemma_len_subset(chosen.to_set(), front.to_set());
    }
}

/// So many distinct outputs are worth no more than as many from the front of the order.
proof fn lemma_front_is_worth_most(amounts: Seq<u64>, chosen: Seq<int>)
    requires
        indexes_of(chosen, amounts),
        chosen.no_duplicates(),
        chosen.len() <= amounts.len(),
    ensures
        sum_at(chosen, amounts) <= sum_at(order(amounts).take(chosen.len() as int), amounts),
    decreases chosen.len(),
{
    if chosen.len() > 0 {
        let all = order(amounts);
        let m = chosen.len() - 1;
        law_order_names_each_once(amounts);
        law_order_is_sorted(amounts);
        assert forall|i: int| 0 <= i < chosen.len() implies all.contains(#[trigger] chosen[i]) by {}
        lemma_someone_behind(all, chosen, m);
        let (i, k) = choose|i: int, k: int|
            0 <= i < chosen.len() && m <= k < all.len() && #[trigger] chosen[i]
                == #[trigger] all[k];
        let rest = chosen.remove(i);
        assert forall|j: int| 0 <= j < rest.len() implies 0 <= #[trigger] rest[j]
            < amounts.len() by {
            assert(rest[j] == chosen[if j < i {
                j
            } else {
                j + 1
            }]);
        }
        assert forall|a: int, b: int| 0 <= a < rest.len() && 0 <= b < rest.len() && a != b implies rest[a]
            != rest[b] by {
            assert(rest[a] == chosen[if a < i {
                a
            } else {
                a + 1
            }]);
            assert(rest[b] == chosen[if b < i {
                b
            } else {
                b + 1
            }]);
        }
        lemma_front_is_worth_most(amounts, rest);
        lemma_sum_insert(rest, amounts, i, chosen[i]);
        assert(rest.insert(i, chosen[i]) =~= chosen);
        assert(all.take(chosen.len() as int).drop_last() =~= all.take(m));
        if k > m {
            assert(amounts[all[m]] >= amounts[all[k]]);
        }
    }
}

/// No payment can be covered by fewer outputs than are selected for it.
pub proof fn law_selection_is_smallest(
    amounts: Seq<u64>,
    need: int,
    count: int,
    chosen: Seq<int>,
)
    requires
        is_shortest(amounts, need, count),
        indexes_of(chosen, amounts),
        chosen.no_duplicates(),
        sum_at(chosen, amounts) >= need,
    ensures
        chosen.len() >= count,
{
    if chosen.len() < count {
        law_order_names_each_once(amounts);
        lemma_front_is_worth_most(amounts, chosen);
        assert(sum_at(order(amounts).take(chosen.len() as int), amounts) < need);
    }
}

/// The more is needed, the more outputs are selected, and those selected for less
/// come first among those selected for more.
pub proof fn law_more_need_selects_more(
    amounts: Seq<u64>,
    less: int,
    more: int,
    count1: int,
    count2: int,
)
    requires
        less <= more,
        is_shortest(amounts, less, count1),
        is_shortest(amounts, more, count2),
    ensures
        count1 <= count2,
        order(amounts).take(count2).take(count1) == order(amounts).take(count1),
{
    if count2 < count1 {
        assert(sum_at(order(amounts).take(count2), amounts) < less);
    }
    assert(order(amounts).take(count2).take(count1) =~= order(amounts).take(count1));
}

/// Where a selection covers what is needed, all outputs together do.
pub proof fn law_selection_is_affordable(outputs: Seq<OwnedView>, need: int, count: int)
    requires
        is_shortest(amounts(outputs), need, count),
    ensures
        crate::wallet::amount_sum(outputs) >= need,
{
    law_order_keeps_the_sum(outputs);
    lemma_sum_prefix(order(amounts(outputs)), amounts(outputs), count);
}

/// A prefix sums to no more than the list.
proof fn lemma_sum_prefix(list: Seq<int>, amounts: Seq<u64>, i: int)
    requires
        0 <= i <= list.len(),
    ensures
        sum_at(list.take(i), amounts) <= sum_at(list, amounts),
    decreases list.len() - i,
{
    if i == list.len() {
        assert(list.take(i) =~= list);
    } else {
        assert(list.take(i + 1).drop_last() =~= list.take(i));
        lemma_sum_prefix(list, amounts, i + 1);
    }
}

// ---------------------------------------------------------------------------
// Selecting
// ---------------------------------------------------------------------------

/// Machine indexes as numbers.
pub open spec fn as_ints(list: Seq<usize>) -> Seq<int> {
    list.map_values(|i: usize| i as int)
}

/// The indexes of some outputs, from the largest amount to the smallest.
pub fn by_amount(outputs: &Vec<OwnedOutput>) -> (r: Vec<usize>)
    ensures
        as_ints(r@) == order(amounts(list::views(outputs@))),
{
    let ghost all = amounts(list::views(outputs@));
    let mut sorted: Vec<usize> = Vec::new();
    let mut n: usize = 0;
    assert(as_ints(sorted@) =~= order(all.take(0)));
    while n < outputs.len()
        invariant
            n <= outputs.len(),
            all == amounts(list::views(outputs@)),
            as_ints(sorted@) == order(all.take(n as int)),
        decreases outputs.len() - n,
    {
        let ghost less = all.take(n as int);
        let ghost more = all.take(n + 1);
        let ghost before = order(less);
        proof {
            law_order_names_each_once(less);
            assert(more.drop_last() =~= less);
            assert(more.last() == outputs[n as int].amount);
            assert forall|i: int| 0 <= i < sorted.len() implies 0 <= #[trigger] sorted@[i]
                < outputs.len() by {
                assert(before[i] == sorted@[i]);
            }
        }
        let amount: u64 = outputs[n].amount;
        let mut p: usize = 0;
        while p < sorted.len() && outputs[sorted[p]].amount >= amount
            invariant
                n < outputs.len(),
                p <= sorted.len(),
                all == amounts(list::views(outputs@)),
                less == all.take(n as int),
                more == all.take(n + 1),
                before == order(less),
                as_ints(sorted@) == before,
                indexes_of(before, less),
                forall|i: int|
                    0 <= i < sorted.len() ==> 0 <= #[trigger] sorted@[i] < outputs.len(),
                forall|i: int| 0 <= i < p ==> more[#[trigger] before[i]] >= amount,
            decreases sorted.len() - p,
        {
            proof {
                assert(before[p as int] == sorted@[p as int]);
                assert(0 <= before[p as int] < less.len());
            }
            p += 1;
        }
        proof {
            if p < sorted.len() {
                assert(before[p as int] == sorted@[p as int]);
                assert(0 <= before[p as int] < less.len());
            }
            lemma_place(before, more, amount, p as int);
        }
        let ghost was = sorted@;
        sorted.insert(p, n);
        assert(as_ints(sorted@) =~= as_ints(was).insert(p as int, n as int));
        n += 1;
    }
    assert(all.take(outputs.len() as int) =~= all);
    sorted
}

/// Selects the outputs that cover an amount and a fee, the largest first. Where
/// all of them do not, the error says what they are worth.
pub fn select(outputs: &Vec<OwnedOutput>, amount: u64, fee: u64) -> (r: Result<Vec<usize>, u128>)
    ensures
        ({
            let all = amounts(list::views(outputs@));
            match r {
                Ok(v) => as_ints(v@) == order(all).take(v.len() as int) && is_shortest(
                    all,
                    amount + fee,
                    v.len() as int,
                ),
                Err(available) => available == crate::wallet::amount_sum(list::views(outputs@))
                    && available < amount + fee,
            }
        }),
{
    let ghost all = amounts(list::views(outputs@));
    let sorted: Vec<usize> = by_amount(outputs);
    let ghost whole = order(all);
    proof {
        law_order_names_each_once(all);
        law_order_keeps_the_sum(list::views(outputs@));
    }
    let need: u128 = amount as u128 + fee as u128;
    let mut selected: Vec<usize> = Vec::new();
    let mut total: u128 = 0;
    let mut i: usize = 0;
    assert(whole.take(0) =~= Seq::<int>::empty());
    assert(as_ints(selected@) =~= whole.take(0));
    while i < sorted.len() && total < need
        invariant
            i <= sorted.len(),
            all == amounts(list::views(outputs@)),
            whole == order(all),
            as_ints(sorted@) == whole,
            whole.len() == all.len(),
            indexes_of(whole, all),
            selected.len() == i,
            as_ints(selected@) == whole.take(i as int),
            need == amount + fee,
            total == sum_at(whole.take(i as int), all),
            total <= 3 * u64::MAX,
            forall|k: int| 0 <= k < i ==> sum_at(#[trigger] whole.take(k), all) < need,
        decreases sorted.len() - i,
    {
        let at: usize = sorted[i];
        proof {
            assert(whole[i as int] == at);
            assert(0 <= whole[i as int] < all.len());
            assert(whole.take(i + 1).drop_last() =~= whole.take(i as int));
            assert(whole.take(i + 1).last() == at);
        }
        total = total + outputs[at].amount as u128;
        let ghost was = selected@;
        selected.push(at);
        assert(as_ints(selected@) =~= as_ints(was).push(at as int));
        assert(whole.take(i + 1) =~= whole.take(i as int).push(at as int));
        i += 1;
    }
    if total < need {
        assert(whole.take(i as int) =~= whole);
        return Err(total);
    }
    Ok(selected)
}

} // verus!
