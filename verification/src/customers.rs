//! The customers behind a list of subscriptions.

use vstd::prelude::*;

use crate::billing::{Customer, Expandable, Subscription};

verus! {

/// The expanded customers of the subscriptions, in order and with repetitions.
pub open spec fn expanded(subscriptions: Seq<Subscription>) -> Seq<Customer>
    decreases subscriptions.len(),
{
    if subscriptions.len() == 0 {
        seq![]
    } else {
        let before = expanded(subscriptions.drop_last());
        match subscriptions.last().customer.object() {
            Some(customer) => before.push(customer),
            None => before,
        }
    }
}

/// Whether one of the customers has the id.
pub open spec fn known(customers: Seq<Customer>, id: Seq<char>) -> bool {
    exists|i: int| 0 <= i < customers.len() && #[trigger] customers[i].id@ == id
}

/// The customers without those whose id came before, in the order in which
/// the ids were first seen.
pub open spec fn first_seen(customers: Seq<Customer>) -> Seq<Customer>
    decreases customers.len(),
{
    if customers.len() == 0 {
        seq![]
    } else {
        let before = customers.drop_last();
        if known(before, customers.last().id@) {
            first_seen(before)
        } else {
            first_seen(before).push(customers.last())
        }
    }
}

fn is_known(customers: &Vec<Customer>, id: &String) -> (r: bool)
    ensures
        r == known(customers@, id@),
{
    for i in 0..customers.len()
        invariant
            forall|j: int| 0 <= j < i ==> (#[trigger] customers@[j]).id@ != id@,
    {
        if customers[i].id == *id {
            assert(customers@[i as int].id@ == id@);
            return true;
        }
    }
    false
}

/// The distinct customers that `subscriptions` refer to, in first-seen order.
/// A subscription whose customer was not expanded is skipped.
pub fn distinct_customers(subscriptions: &[Subscription]) -> (r: Vec<Customer>)
    ensures
        r@ == first_seen(expanded(subscriptions@)),
        forall|i: int|
            0 <= i < subscriptions@.len() ==> (#[trigger] subscriptions@[i].customer matches
                Expandable::Object(customer) ==> exists|k: int|
                0 <= k < r@.len() && #[trigger] r@[k].id@ == customer.id@),
        forall|k: int|
            0 <= k < r@.len() ==> exists|i: int|
                0 <= i < subscriptions@.len() && #[trigger] subscriptions@[i].customer
                    == Expandable::Object(#[trigger] r@[k]),
        forall|k: int, l: int| 0 <= k < l < r@.len() ==> r@[k].id@ != r@[l].id@,
{
    let mut customers: Vec<Customer> = Vec::new();
    for i in 0..subscriptions.len()
        invariant
            customers@ == first_seen(expanded(subscriptions@.take(i as int))),
    {
        let ghost seen = expanded(subscriptions@.take(i as int));
        assert(subscriptions@.take(i + 1).drop_last() =~= subscriptions@.take(i as int));
        match subscriptions[i].customer.as_object() {
            None => {},
            Some(customer) => {
                proof {
                    law_same_ids(seen, customer.id@);
                    assert(seen.push(*customer).drop_last() =~= seen);
                }
                if !is_known(&customers, &customer.id) {
                    customers.push(customer.clone());
                }
            },
        }
    }
    assert(subscriptions@.take(subscriptions@.len() as int) =~= subscriptions@);
    proof {
        lemma_distinct_of_subscriptions(subscriptions@);
    }
    customers
}

proof fn lemma_distinct_of_subscriptions(subscriptions: Seq<Subscription>)
    ensures
        ({
            let found = first_seen(expanded(subscriptions));
            &&& forall|i: int|
                0 <= i < subscriptions.len() ==> (#[trigger] subscriptions[i].customer matches
                    Expandable::Object(customer) ==> exists|k: int|
                    0 <= k < found.len() && #[trigger] found[k].id@ == customer.id@)
            &&& forall|k: int|
                0 <= k < found.len() ==> exists|i: int|
                    0 <= i < subscriptions.len() && #[trigger] subscriptions[i].customer
                        == Expandable::Object(#[trigger] found[k])
            &&& forall|k: int, l: int|
                0 <= k < l < found.len() ==> found[k].id@ != found[l].id@
        }),
{
    let all = expanded(subscriptions);
    let found = first_seen(all);
    assert forall|i: int| 0 <= i < subscriptions.len() implies (
    #[trigger] subscriptions[i].customer matches Expandable::Object(customer) ==> exists|k: int|
        0 <= k < found.len() && #[trigger] found[k].id@ == customer.id@) by {
        if subscriptions[i].customer is Object {
            let k = lemma_expanded_has(subscriptions, i);
            law_same_ids(all, all[k].id@);
            assert(known(all, all[k].id@));
        }
    }
    law_first_seen_order(all);
    assert forall|k: int| 0 <= k < found.len() implies exists|i: int|
        0 <= i < subscriptions.len() && #[trigger] subscriptions[i].customer
            == Expandable::Object(#[trigger] found[k]) by {
        let i = lemma_expanded_from(subscriptions, first_positions(all)[k]);
        assert(subscriptions[i].customer == Expandable::Object(found[k]));
    }
    assert forall|k: int, l: int| 0 <= k < l < found.len() implies found[k].id@ != found[l].id@ by {
        law_ids_are_distinct(all, k, l);
    }
}

/// The distinct customers have exactly the ids of all customers.
pub proof fn law_same_ids(customers: Seq<Customer>, id: Seq<char>)
    ensures
        known(first_seen(customers), id) <==> known(customers, id),
    decreases customers.len(),
{
    if customers.len() > 0 {
        let before = customers.drop_last();
        let last = customers.last();
        law_same_ids(before, id);
        let distinct = first_seen(customers);
        if known(customers, id) {
            let i = choose|i: int| 0 <= i < customers.len() && #[trigger] customers[i].id@ == id;
            if i < before.len() {
                assert(before[i].id@ == id);
                let j = choose|j: int|
                    0 <= j < first_seen(before).len() && #[trigger] first_seen(before)[j].id@ == id;
                assert(distinct[j].id@ == id);
            } else if known(before, last.id@) {
                law_same_ids(before, last.id@);
            } else {
                assert(distinct[distinct.len() - 1].id@ == id);
            }
        }
        if known(distinct, id) {
            let i = choose|i: int| 0 <= i < distinct.len() && #[trigger] distinct[i].id@ == id;
            if i < first_seen(before).len() {
                assert(first_seen(before)[i].id@ == id);
                let j = choose|j: int| 0 <= j < before.len() && #[trigger] before[j].id@ == id;
                assert(customers[j].id@ == id);
            } else {
                assert(customers[customers.len() - 1].id@ == id);
            }
        }
    }
}

/// No two of the distinct customers have the same id.
pub proof fn law_ids_are_distinct(customers: Seq<Customer>, i: int, j: int)
    requires
        0 <= i < j < first_seen(customers).len(),
    ensures
        first_seen(customers)[i].id@ != first_seen(customers)[j].id@,
    decreases customers.len(),
{
    let before = customers.drop_last();
    let last = customers.last();
    if j < first_seen(before).len() {
        law_ids_are_distinct(before, i, j);
    } else {
        law_same_ids(before, last.id@);
        assert(first_seen(customers)[i] == first_seen(before)[i]);
    }
}

/// The positions at which an id occurs for the first time.
pub open spec fn first_positions(customers: Seq<Customer>) -> Seq<int>
    decreases customers.len(),
{
    if customers.len() == 0 {
        seq![]
    } else {
        let before = customers.drop_last();
        if known(before, customers.last().id@) {
            first_positions(before)
        } else {
            first_positions(before).push(customers.len() - 1)
        }
    }
}

/// Each of the distinct customers stands where its id occurs first, and they
/// keep the order of these positions.
pub proof fn law_first_seen_order(customers: Seq<Customer>)
    ensures
        first_positions(customers).len() == first_seen(customers).len(),
        forall|k: int|
            #![trigger first_positions(customers)[k]]
            0 <= k < first_positions(customers).len() ==> {
                let position = first_positions(customers)[k];
                &&& 0 <= position < customers.len()
                &&& first_seen(customers)[k] == customers[position]
                &&& !known(customers.take(position), customers[position].id@)
            },
        forall|k: int, l: int|
            0 <= k < l < first_positions(customers).len() ==> first_positions(customers)[k]
                < first_positions(customers)[l],
    decreases customers.len(),
{
    if customers.len() > 0 {
        let before = customers.drop_last();
        law_first_seen_order(before);
        let positions = first_positions(customers);
        assert forall|k: int| 0 <= k < positions.len() implies {
            let position = #[trigger] positions[k];
            &&& 0 <= position < customers.len()
            &&& first_seen(customers)[k] == customers[position]
            &&& !known(customers.take(position), customers[position].id@)
        } by {
            if k < first_positions(before).len() {
                let position = first_positions(before)[k];
                assert(before.take(position) =~= customers.take(position));
            } else {
                assert(customers.take(customers.len() - 1) =~= before);
            }
        }
    }
}

/// Making a list of customers distinct twice changes nothing more.
pub proof fn law_first_seen_is_idempotent(customers: Seq<Customer>)
    ensures
        first_seen(first_seen(customers)) == first_seen(customers),
    decreases customers.len(),
{
    if customers.len() > 0 {
        let before = customers.drop_last();
        law_first_seen_is_idempotent(before);
        law_same_ids(before, customers.last().id@);
        if !known(before, customers.last().id@) {
            assert(first_seen(customers).drop_last() =~= first_seen(before));
        }
    }
}

/// Each expanded customer comes from a subscription.
pub proof fn lemma_expanded_from(subscriptions: Seq<Subscription>, k: int) -> (i: int)
    requires
        0 <= k < expanded(subscriptions).len(),
    ensures
        0 <= i < subscriptions.len(),
        subscriptions[i].customer.object() == Some(expanded(subscriptions)[k]),
    decreases subscriptions.len(),
{
    let before = subscriptions.drop_last();
    if k < expanded(before).len() {
        lemma_expanded_from(before, k)
    } else {
        subscriptions.len() - 1
    }
}

/// The customer of each subscription, where it was expanded, is among the
/// expanded customers.
pub proof fn lemma_expanded_has(subscriptions: Seq<Subscription>, i: int) -> (k: int)
    requires
        0 <= i < subscriptions.len(),
        subscriptions[i].customer.object() is Some,
    ensures
        0 <= k < expanded(subscriptions).len(),
        subscriptions[i].customer.object() == Some(expanded(subscriptions)[k]),
    decreases subscriptions.len(),
{
    let before = subscriptions.drop_last();
    if i < before.len() {
        lemma_expanded_has(before, i)
    } else {
        expanded(subscriptions).len() - 1
    }
}

/// The expanded customers of two lists of subscriptions, one after the other.
pub proof fn lemma_expanded_of_both(first: Seq<Subscription>, second: Seq<Subscription>)
    ensures
        expanded(first + second) == expanded(first) + expanded(second),
    decreases second.len(),
{
    if second.len() == 0 {
        assert(first + second =~= first);
    } else {
        assert((first + second).drop_last() =~= first + second.drop_last());
        lemma_expanded_of_both(first, second.drop_last());
    }
}

proof fn lemma_first_seen_of_both(first: Seq<Customer>, second: Seq<Customer>)
    ensures
        first_seen(first).is_prefix_of(first_seen(first + second)),
        (forall|i: int| 0 <= i < second.len() ==> known(first, #[trigger] second[i].id@))
            ==> first_seen(first + second) == first_seen(first),
    decreases second.len(),
{
    if second.len() == 0 {
        assert(first + second =~= first);
    } else {
        let front = second.drop_last();
        assert((first + second).drop_last() =~= first + front);
        lemma_first_seen_of_both(first, front);
        if forall|i: int| 0 <= i < second.len() ==> known(first, #[trigger] second[i].id@) {
            assert forall|i: int| 0 <= i < front.len() implies known(
                first,
                #[trigger] front[i].id@,
            ) by {
                assert(known(first, second[i].id@));
            }
            let id = second.last().id@;
            assert(known(first, second[second.len() - 1].id@));
            let i = choose|i: int| 0 <= i < first.len() && #[trigger] first[i].id@ == id;
            assert((first + front)[i].id@ == id);
        }
    }
}

/// More subscriptions only add customers after those that were there, and
/// subscriptions that come again add none.
pub proof fn law_later_subscriptions_only_add(
    first: Seq<Subscription>,
    second: Seq<Subscription>,
)
    ensures
        first_seen(expanded(first)).is_prefix_of(first_seen(expanded(first + second))),
        first_seen(expanded(first + first)) == first_seen(expanded(first)),
{
    lemma_expanded_of_both(first, second);
    lemma_first_seen_of_both(expanded(first), expanded(second));
    lemma_expanded_of_both(first, first);
    let all = expanded(first);
    assert forall|i: int| 0 <= i < all.len() implies known(all, #[trigger] all[i].id@) by {}
    lemma_first_seen_of_both(all, all);
}

/// There are at most as many distinct customers as customers.
pub proof fn lemma_first_seen_is_no_longer(customers: Seq<Customer>)
    ensures
        first_seen(customers).len() <= customers.len(),
    decreases customers.len(),
{
    if customers.len() > 0 {
        lemma_first_seen_is_no_longer(customers.drop_last());
    }
}

/// The expanded customers are a selection from the subscriptions: there are
/// places, from first to last, whose subscriptions refer to them expanded, and
/// no other subscription refers to its customer so.
pub proof fn law_expanded_is_a_selection(subscriptions: Seq<Subscription>) -> (positions: Seq<int>)
    ensures
        positions.len() == expanded(subscriptions).len(),
        forall|k: int|
            #![trigger positions[k]]
            0 <= k < positions.len() ==> 0 <= positions[k] < subscriptions.len()
                && subscriptions[positions[k]].customer == Expandable::Object(
                expanded(subscriptions)[k],
            ),
        forall|k: int, l: int| 0 <= k < l < positions.len() ==> positions[k] < positions[l],
        forall|i: int|
            0 <= i < subscriptions.len() && (#[trigger] subscriptions[i]).customer is Object
                ==> positions.contains(i),
    decreases subscriptions.len(),
{
    if subscriptions.len() == 0 {
        seq![]
    } else {
        let front = subscriptions.drop_last();
        let before = law_expanded_is_a_selection(front);
        let last = subscriptions.len() - 1;
        let positions = if subscriptions.last().customer is Object {
            before.push(last)
        } else {
            before
        };
        assert forall|i: int|
            0 <= i < subscriptions.len()
                && (#[trigger] subscriptions[i]).customer is Object implies positions.contains(i) by {
            if i < last {
                assert(front[i].customer is Object);
                let k = choose|k: int| 0 <= k < before.len() && before[k] == i;
                assert(positions[k] == i);
            } else {
                assert(positions[positions.len() - 1] == i);
            }
        }
        positions
    }
}

/// The distinct customers are those that stand where their id stands for the
/// first time, in this order: there are places, from first to last, at which
/// they stand, and these are exactly the places before which no customer has
/// the same id.
pub proof fn law_distinct_are_the_first_of_their_id(customers: Seq<Customer>) -> (positions: Seq<
    int,
>)
    ensures
        positions.len() == first_seen(customers).len(),
        forall|k: int|
            #![trigger positions[k]]
            0 <= k < positions.len() ==> 0 <= positions[k] < customers.len() && first_seen(
                customers,
            )[k] == customers[positions[k]],
        forall|k: int, l: int| 0 <= k < l < positions.len() ==> positions[k] < positions[l],
        forall|i: int|
            #![trigger positions.contains(i)]
            0 <= i < customers.len() ==> (positions.contains(i) <==> forall|j: int|
                0 <= j < i ==> (#[trigger] customers[j]).id@ != customers[i].id@),
    decreases customers.len(),
{
    if customers.len() == 0 {
        seq![]
    } else {
        let front = customers.drop_last();
        let before = law_distinct_are_the_first_of_their_id(front);
        let last = customers.len() - 1;
        let id = customers.last().id@;
        let positions = if known(front, id) {
            before
        } else {
            before.push(last)
        };
        assert forall|i: int| #![trigger positions.contains(i)] 0 <= i < customers.len() implies (
        positions.contains(i) <==> forall|j: int|
            0 <= j < i ==> (#[trigger] customers[j]).id@ != customers[i].id@) by {
            if i < last {
                assert(positions.contains(i) <==> before.contains(i)) by {
                    if before.contains(i) {
                        let k = choose|k: int| 0 <= k < before.len() && before[k] == i;
                        assert(positions[k] == i);
                    }
                    if positions.contains(i) {
                        let k = choose|k: int| 0 <= k < positions.len() && positions[k] == i;
                        assert(before[k] == i);
                    }
                }
                assert(forall|j: int| 0 <= j < i ==> front[j] == customers[j]);
                assert(front[i] == customers[i]);
                if before.contains(i) {
                    assert forall|j: int| 0 <= j < i implies (#[trigger] customers[j]).id@
                        != customers[i].id@ by {
                        assert(front[j].id@ != front[i].id@);
                    }
                }
                if forall|j: int| 0 <= j < i ==> (#[trigger] customers[j]).id@ != customers[i].id@ {
                    assert forall|j: int| 0 <= j < i implies (#[trigger] front[j]).id@
                        != front[i].id@ by {
                        assert(customers[j].id@ != customers[i].id@);
                    }
                }
            } else {
                if known(front, id) {
                    let j = choose|j: int| 0 <= j < front.len() && #[trigger] front[j].id@ == id;
                    assert(customers[j].id@ == id);
                    if positions.contains(i) {
                        let k = choose|k: int| 0 <= k < before.len() && before[k] == i;
                        assert(before[k] < front.len());
                    }
                } else {
                    assert(positions[positions.len() - 1] == i);
                    assert forall|j: int| 0 <= j < i implies (#[trigger] customers[j]).id@
                        != customers[i].id@ by {
                        assert(front[j].id@ != id);
                    }
                }
            }
        }
        positions
    }
}

} // verus!
