use crate::book::{
    empty_order, pop_front, queue_total, queue_well_formed, Book, PayoutView, RestingOrder,
};
use crate::consistency::{
    lemma_consume_queue_keeps_well_formed, lemma_empty_queue, lemma_first_free_slot,
    lemma_pop_front,
};
use crate::matching::{
    consume_and_pay, consume_queue, first_free_slot, lemma_record_each_keeps_length, min_u64,
    record_each, reduce_front, resting_payout, rest_order, settlement_kind,
};
use crate::pubkey::is_null_identity;
use vstd::prelude::*;

verus! {

/// The quantity that the orders ahead of slot `slot` hold.
pub open spec fn ahead_of(queue: Seq<RestingOrder>, slot: int) -> int
    decreases slot,
{
    if slot <= 0 {
        0
    } else {
        queue[slot - 1].amount + ahead_of(queue, slot - 1)
    }
}

/// What is taken from the order in slot `slot` when `quantity` is taken from
/// the queue in arrival order: what the orders ahead of it leave of
/// `quantity`, as far as the order has it.
pub open spec fn taken_from(queue: Seq<RestingOrder>, quantity: u64, slot: int) -> int {
    let left = quantity - ahead_of(queue, slot);
    if left <= 0 {
        0
    } else if left <= queue[slot].amount {
        left
    } else {
        queue[slot].amount as int
    }
}

/// The orders ahead of a slot hold at least what each of them holds.
pub proof fn lemma_ahead_of_grows(queue: Seq<RestingOrder>, earlier: int, later: int)
    requires
        0 <= earlier < later,
    ensures
        ahead_of(queue, later) >= ahead_of(queue, earlier) + queue[earlier].amount,
        ahead_of(queue, earlier) >= 0,
    decreases later,
{
    if later - 1 > earlier {
        lemma_ahead_of_grows(queue, earlier, later - 1);
    } else if earlier > 0 {
        lemma_ahead_of_grows(queue, earlier - 1, earlier);
    }
}

/// Without the first order, the orders ahead of a slot hold what that order
/// held less.
pub proof fn lemma_ahead_of_after_pop(queue: Seq<RestingOrder>, slot: int)
    requires
        queue.len() == 10,
        0 <= slot <= 9,
    ensures
        ahead_of(pop_front(queue), slot) == ahead_of(queue, slot + 1) - queue[0].amount,
    decreases slot,
{
    if slot > 0 {
        lemma_ahead_of_after_pop(queue, slot - 1);
        assert(pop_front(queue)[slot - 1] == queue[slot]);
    } else {
        assert(ahead_of(queue, 1) == queue[0].amount + ahead_of(queue, 0));
    }
}

/// Time priority: an order is touched only once every order that arrived
/// before it at the same price is used up.
pub proof fn lemma_earlier_order_is_used_up_first(
    queue: Seq<RestingOrder>,
    quantity: u64,
    earlier: int,
    later: int,
)
    requires
        0 <= earlier < later < 10,
        taken_from(queue, quantity, later) > 0,
    ensures
        taken_from(queue, quantity, earlier) == queue[earlier].amount,
{
    lemma_ahead_of_grows(queue, earlier, later);
}

/// `after` is `paid` followed by one payout for each order of `queue` from
/// which taking `quantity` in arrival order takes anything: in arrival order,
/// to the owner of the order, for what is taken from it.
pub open spec fn pays_in_arrival_order(
    queue: Seq<RestingOrder>,
    quantity: u64,
    price: u64,
    token_mint: Seq<u8>,
    collateral_mint: Seq<u8>,
    paid: Seq<PayoutView>,
    after: Seq<PayoutView>,
) -> bool {
    &&& paid.len() <= after.len() <= paid.len() + 10
    &&& after.take(paid.len() as int) == paid
    &&& forall|slot: int|
        0 <= slot < 10 && #[trigger] taken_from(queue, quantity, slot) > 0 ==> paid.len() + slot
            < after.len() && after[paid.len() + slot] == resting_payout(
            queue[slot],
            taken_from(queue, quantity, slot) as u64,
            price,
            token_mint,
            collateral_mint,
        )
    &&& forall|slot: int|
        0 <= slot < 10 && #[trigger] taken_from(queue, quantity, slot) == 0 ==> after.len()
            <= paid.len() + slot
}

/// Who is paid when `quantity` is taken from a queue: the owners of the
/// orders, in arrival order, each for what is taken from their order, and
/// nobody else.
pub proof fn lemma_consume_queue_pays_in_arrival_order(
    queue: Seq<RestingOrder>,
    quantity: u64,
    price: u64,
    token_mint: Seq<u8>,
    collateral_mint: Seq<u8>,
    paid: Seq<PayoutView>,
)
    requires
        queue_well_formed(queue),
        consume_queue(queue, quantity, price, token_mint, collateral_mint, paid) is Ok,
    ensures
        pays_in_arrival_order(
            queue,
            quantity,
            price,
            token_mint,
            collateral_mint,
            paid,
            consume_queue(queue, quantity, price, token_mint, collateral_mint, paid)->Ok_0.1,
        ),
    decreases quantity,
{
    let after = consume_queue(queue, quantity, price, token_mint, collateral_mint, paid)->Ok_0.1;
    if quantity == 0 {
        assert(after.take(paid.len() as int) =~= paid);
        assert forall|slot: int| 0 <= slot < 10 implies #[trigger] taken_from(
            queue,
            quantity,
            slot,
        ) == 0 by {
            if slot > 0 {
                lemma_ahead_of_grows(queue, 0, slot);
            }
        }
    } else if queue[0].amount == 0 {
        assert(after.take(paid.len() as int) =~= paid);
        lemma_empty_queue(queue);
        assert forall|slot: int| 0 <= slot < 10 implies #[trigger] taken_from(
            queue,
            quantity,
            slot,
        ) == 0 by {
            assert(queue[slot].is_empty());
        }
    } else {
        let taken = min_u64(queue[0].amount, quantity);
        let payout = resting_payout(queue[0], taken, price, token_mint, collateral_mint);
        let paid_next = paid.push(payout);
        let left = (quantity - taken) as u64;
        assert(ahead_of(queue, 0) == 0);
        assert(taken_from(queue, quantity, 0) == taken);
        if taken == queue[0].amount {
            let rest = pop_front(queue);
            lemma_pop_front(queue);
            lemma_consume_queue_pays_in_arrival_order(
                rest,
                left,
                price,
                token_mint,
                collateral_mint,
                paid_next,
            );
            assert(after.take(paid.len() as int) =~= after.take(paid_next.len() as int).take(
                paid.len() as int,
            ));
            assert(paid_next.take(paid.len() as int) =~= paid);
            assert(after[paid.len() as int] == after.take(paid_next.len() as int)[paid.len() as int]);
            assert forall|slot: int| 1 <= slot < 10 implies taken_from(queue, quantity, slot)
                == #[trigger] taken_from(rest, left, slot - 1) && queue[slot] == rest[slot - 1] by {
                lemma_ahead_of_after_pop(queue, slot - 1);
            }
            assert forall|slot: int|
                0 <= slot < 10 && #[trigger] taken_from(queue, quantity, slot) > 0 implies paid.len()
                + slot < after.len() && after[paid.len() + slot] == resting_payout(
                queue[slot],
                taken_from(queue, quantity, slot) as u64,
                price,
                token_mint,
                collateral_mint,
            ) by {
                if slot > 0 {
                    assert(taken_from(rest, left, slot - 1) > 0);
                }
            }
            assert forall|slot: int|
                0 <= slot < 10 && #[trigger] taken_from(queue, quantity, slot) == 0 implies after.len()
                <= paid.len() + slot by {
                assert(slot > 0);
                assert(taken_from(rest, left, slot - 1) == 0);
            }
            assert(rest[9] == empty_order());
            assert(taken_from(rest, left, 9) == 0);
            } else {
            assert(left == 0);
            reveal_with_fuel(consume_queue, 2);
            assert(after == paid_next);
            assert(after.take(paid.len() as int) =~= paid);
            assert forall|slot: int| 1 <= slot < 10 implies #[trigger] taken_from(
                queue,
                quantity,
                slot,
            ) == 0 by {
                lemma_ahead_of_grows(queue, 0, slot);
            }
            }
    }
}

/// What is taken from the orders ahead of slot `slot`, together, when
/// `quantity` is taken from the queue.
pub open spec fn taken_ahead_of(queue: Seq<RestingOrder>, quantity: u64, slot: int) -> int
    decreases slot,
{
    if slot <= 0 {
        0
    } else {
        taken_from(queue, quantity, slot - 1) + taken_ahead_of(queue, quantity, slot - 1)
    }
}

/// What is taken from the orders of a queue adds up to the quantity asked
/// for, or to all that the orders hold if that is less.
pub proof fn lemma_taken_adds_up(queue: Seq<RestingOrder>, quantity: u64, slot: int)
    requires
        0 <= slot,
    ensures
        ahead_of(queue, slot) >= 0,
        taken_ahead_of(queue, quantity, slot) == if quantity <= ahead_of(queue, slot) {
            quantity as int
        } else {
            ahead_of(queue, slot)
        },
    decreases slot,
{
    if slot > 0 {
        lemma_taken_adds_up(queue, quantity, slot - 1);
    }
}

/// The orders ahead of the end of a queue hold all that the queue holds.
pub proof fn lemma_ahead_of_the_end(queue: Seq<RestingOrder>)
    ensures
        ahead_of(queue, 10) == queue_total(queue),
{
    reveal_with_fuel(ahead_of, 11);
}

/// The number of orders that taking `quantity` uses up, given that those
/// before slot `slot` are used up.
pub open spec fn used_up(queue: Seq<RestingOrder>, quantity: u64, slot: int) -> int
    decreases 10 - slot,
{
    if slot < 0 || slot >= 10 {
        10
    } else if queue[slot].amount > 0 && ahead_of(queue, slot + 1) <= quantity {
        used_up(queue, quantity, slot + 1)
    } else {
        slot
    }
}

/// The order in slot `slot` after `quantity` is taken from the queue.
pub open spec fn left_of(queue: Seq<RestingOrder>, quantity: u64, slot: int) -> RestingOrder {
    RestingOrder {
        amount: (queue[slot].amount - taken_from(queue, quantity, slot)) as u64,
        ..queue[slot]
    }
}

/// The queue after `quantity` is taken from it in arrival order: the orders
/// that are not used up, in their order, each with what is left of it.
pub open spec fn queue_after(queue: Seq<RestingOrder>, quantity: u64) -> Seq<RestingOrder> {
    let gone = used_up(queue, quantity, 0);
    Seq::new(
        10,
        |slot: int|
            if slot + gone < 10 {
                left_of(queue, quantity, slot + gone)
            } else {
                empty_order()
            },
    )
}

/// The orders used up are the first ones.
pub proof fn lemma_used_up_in_range(queue: Seq<RestingOrder>, quantity: u64, slot: int)
    requires
        0 <= slot <= 10,
    ensures
        slot <= used_up(queue, quantity, slot) <= 10,
    decreases 10 - slot,
{
    if slot < 10 && queue[slot].amount > 0 && ahead_of(queue, slot + 1) <= quantity {
        lemma_used_up_in_range(queue, quantity, slot + 1);
    }
}

/// Once the first order is used up, the orders used up are that one and
/// those that the rest of the quantity uses up of the rest of the queue.
proof fn lemma_used_up_after_pop(queue: Seq<RestingOrder>, quantity: u64, slot: int)
    requires
        queue.len() == 10,
        0 <= slot <= 9,
        0 < queue[0].amount <= quantity,
    ensures
        used_up(queue, quantity, slot + 1) == 1 + used_up(
            pop_front(queue),
            (quantity - queue[0].amount) as u64,
            slot,
        ),
    decreases 10 - slot,
{
    let rest = pop_front(queue);
    if slot < 9 {
        lemma_ahead_of_after_pop(queue, slot + 1);
        assert(rest[slot] == queue[slot + 1]);
        lemma_used_up_after_pop(queue, quantity, slot + 1);
    } else {
        assert(rest[9] == empty_order());
    }
}

/// What is left of a queue when `quantity` is taken from it: the orders that
/// are not used up, in their order; the first of them may be partly taken,
/// and all behind it are as they were.
pub proof fn lemma_consume_queue_leaves_the_rest(
    queue: Seq<RestingOrder>,
    quantity: u64,
    price: u64,
    token_mint: Seq<u8>,
    collateral_mint: Seq<u8>,
    paid: Seq<PayoutView>,
)
    requires
        queue_well_formed(queue),
        consume_queue(queue, quantity, price, token_mint, collateral_mint, paid) is Ok,
    ensures
        consume_queue(queue, quantity, price, token_mint, collateral_mint, paid)->Ok_0.0
            == queue_after(queue, quantity),
    decreases quantity,
{
    let left = consume_queue(queue, quantity, price, token_mint, collateral_mint, paid)->Ok_0.0;
    if quantity == 0 || queue[0].amount == 0 {
        if quantity != 0 {
            lemma_empty_queue(queue);
        }
        assert(ahead_of(queue, 1) == queue[0].amount + ahead_of(queue, 0));
        assert(used_up(queue, quantity, 0) == 0);
        assert forall|slot: int| 0 <= slot < 10 implies left_of(queue, quantity, slot)
            == #[trigger] queue[slot] by {
            if slot > 0 {
                lemma_ahead_of_grows(queue, 0, slot);
            }
            assert(queue[slot].is_live() || queue[slot].is_empty());
        }
        assert(left =~= queue_after(queue, quantity));
    } else {
        let taken = min_u64(queue[0].amount, quantity);
        let payout = resting_payout(queue[0], taken, price, token_mint, collateral_mint);
        let rest_quantity = (quantity - taken) as u64;
        assert(ahead_of(queue, 0) == 0);
        assert(ahead_of(queue, 1) == queue[0].amount + ahead_of(queue, 0));
        if taken == queue[0].amount {
            let rest = pop_front(queue);
            lemma_pop_front(queue);
            lemma_consume_queue_leaves_the_rest(
                rest,
                rest_quantity,
                price,
                token_mint,
                collateral_mint,
                paid.push(payout),
            );
            lemma_used_up_after_pop(queue, quantity, 0);
            let gone = used_up(rest, rest_quantity, 0);
            lemma_used_up_in_range(rest, rest_quantity, 0);
            assert(used_up(queue, quantity, 0) == 1 + gone);
            assert forall|slot: int| 0 <= slot < 10 implies #[trigger] queue_after(
                rest,
                rest_quantity,
            )[slot] == queue_after(queue, quantity)[slot] by {
                let from = slot + gone;
                if from < 9 {
                    lemma_ahead_of_after_pop(queue, from);
                    assert(rest[from] == queue[from + 1]);
                } else if from == 9 {
                    assert(rest[9] == empty_order());
                    lemma_ahead_of_grows(rest, 0, 9);
                }
            }
            assert(queue_after(rest, rest_quantity) =~= queue_after(queue, quantity));
        } else {
            reveal_with_fuel(consume_queue, 2);
            assert(left == reduce_front(queue, taken));
            assert(used_up(queue, quantity, 0) == 0);
            assert forall|slot: int| 0 <= slot < 10 implies #[trigger] left[slot] == left_of(
                queue,
                quantity,
                slot,
            ) by {
                if slot > 0 {
                    lemma_ahead_of_grows(queue, 0, slot);
                }
            }
            assert(left =~= queue_after(queue, quantity));
        }
    }
}

/// What taking from the queue of one side at a price does to the book: that
/// queue loses, oldest order first, what is taken, and the owners of the
/// orders touched are paid in arrival order; every other queue, of either
/// side, and the quantities resting are as they were. Once the caller has
/// lowered the quantity resting on the side by what it asked for, which the
/// side had resting, the book is well formed again.
pub proof fn lemma_consume_and_pay_takes_from_one_queue(
    book: Book,
    is_yes: bool,
    quantity: u64,
    price: u64,
    token_mint: Seq<u8>,
    collateral_mint: Seq<u8>,
)
    requires
        book.well_formed(),
        consume_and_pay(book, is_yes, quantity, price, token_mint, collateral_mint) is Ok,
    ensures
        ({
            let after = consume_and_pay(
                book,
                is_yes,
                quantity,
                price,
                token_mint,
                collateral_mint,
            )->Ok_0;
            let queue = book.queues(is_yes)[price as int];
            let paid = consume_queue(
                queue,
                quantity,
                price,
                token_mint,
                collateral_mint,
                Seq::empty(),
            )->Ok_0.1;
            let resting = book.buy_amounts(is_yes)[price as int];
            &&& price <= 100
            &&& after.queues(is_yes)[price as int] == queue_after(queue, quantity)
            &&& queue_total(after.queues(is_yes)[price as int]) == if quantity <= resting {
                resting - quantity
            } else {
                0
            }
            &&& forall|side: bool, other: int|
                0 <= other <= 100 && (side != is_yes || other != price) ==> #[trigger] after.queues(
                    side,
                )[other] == book.queues(side)[other]
            &&& after.yes_buy_amounts == book.yes_buy_amounts
            &&& after.no_buy_amounts == book.no_buy_amounts
            &&& pays_in_arrival_order(
                queue,
                quantity,
                price,
                token_mint,
                collateral_mint,
                Seq::empty(),
                paid,
            )
            &&& after.payouts == record_each(book.payouts, paid)
            &&& quantity <= resting ==> after.with_buy_amount(
                is_yes,
                price as int,
                (resting - quantity) as u64,
            ).well_formed()
        }),
{
    let level = price as int;
    let queue = book.queues(is_yes)[level];
    let resting = book.buy_amounts(is_yes)[level];
    let after = consume_and_pay(book, is_yes, quantity, price, token_mint, collateral_mint)->Ok_0;
    assert(book.level_well_formed(is_yes, level));
    lemma_consume_queue_leaves_the_rest(
        queue,
        quantity,
        price,
        token_mint,
        collateral_mint,
        Seq::empty(),
    );
    lemma_consume_queue_pays_in_arrival_order(
        queue,
        quantity,
        price,
        token_mint,
        collateral_mint,
        Seq::empty(),
    );
    lemma_consume_queue_keeps_well_formed(
        queue,
        quantity,
        price,
        token_mint,
        collateral_mint,
        Seq::empty(),
    );
    let paid = consume_queue(queue, quantity, price, token_mint, collateral_mint, Seq::empty())->Ok_0.1;
    lemma_record_each_keeps_length(book.payouts, paid);
    if quantity <= resting {
        let lowered = after.with_buy_amount(is_yes, level, (resting - quantity) as u64);
        assert forall|side: bool, other: int| 0 <= other <= 100 implies
            #[trigger] lowered.level_well_formed(side, other) by {
            assert(book.level_well_formed(side, other));
            if side == is_yes && other == level {
            } else if side == is_yes {
                assert(lowered.queues(side)[other] == book.queues(side)[other]);
                assert(lowered.buy_amounts(side)[other] == book.buy_amounts(side)[other]);
            } else {
                assert(lowered.queues(side) == book.queues(side));
                assert(lowered.buy_amounts(side) == book.buy_amounts(side));
            }
        }
        assert(lowered.has_shape()) by {
            if is_yes {
                assert forall|other: int| 0 <= other <= 100 implies (
                #[trigger] lowered.yes_queues[other]).len() == 10 by {
                    assert(book.level_well_formed(true, other));
                    assert(lowered.level_well_formed(true, other));
                }
            } else {
                assert forall|other: int| 0 <= other <= 100 implies (
                #[trigger] lowered.no_queues[other]).len() == 10 by {
                    assert(book.level_well_formed(false, other));
                    assert(lowered.level_well_formed(false, other));
                }
            }
        }
    }
}

/// Orders wait in arrival order: of two orders left resting on the same
/// side at the same price one after the other, the first is in a slot ahead
/// of the second.
pub proof fn lemma_orders_rest_in_arrival_order(
    book: Book,
    is_yes: bool,
    price: u64,
    first_owner: Seq<u8>,
    first_in_collateral: bool,
    first_amount: u64,
    second_owner: Seq<u8>,
    second_in_collateral: bool,
    second_amount: u64,
)
    requires
        book.has_shape(),
        first_amount > 0,
        second_amount > 0,
        rest_order(book, is_yes, price, first_owner, first_in_collateral, first_amount) is Ok,
        rest_order(
            rest_order(book, is_yes, price, first_owner, first_in_collateral, first_amount)->Ok_0,
            is_yes,
            price,
            second_owner,
            second_in_collateral,
            second_amount,
        ) is Ok,
    ensures
        ({
            let with_first = rest_order(
                book,
                is_yes,
                price,
                first_owner,
                first_in_collateral,
                first_amount,
            )->Ok_0;
            let with_both = rest_order(
                with_first,
                is_yes,
                price,
                second_owner,
                second_in_collateral,
                second_amount,
            )->Ok_0;
            let first_slot = first_free_slot(book.queues(is_yes)[price as int], 0);
            let second_slot = first_free_slot(with_first.queues(is_yes)[price as int], 0);
            let queue = with_both.queues(is_yes)[price as int];
            &&& 0 <= first_slot < second_slot < 10
            &&& queue[first_slot] == RestingOrder {
                owner: first_owner,
                kind: settlement_kind(first_in_collateral),
                amount: first_amount,
            }
            &&& queue[second_slot] == RestingOrder {
                owner: second_owner,
                kind: settlement_kind(second_in_collateral),
                amount: second_amount,
            }
        }),
{
    let level = price as int;
    let with_first = rest_order(
        book,
        is_yes,
        price,
        first_owner,
        first_in_collateral,
        first_amount,
    )->Ok_0;
    let before = book.queues(is_yes)[level];
    let between = with_first.queues(is_yes)[level];
    let first_slot = first_free_slot(before, 0);
    let second_slot = first_free_slot(between, 0);
    lemma_first_free_slot(before, 0);
    lemma_first_free_slot(between, 0);
    assert(between == before.update(first_slot, between[first_slot]));
    assert(between[first_slot].owner == first_owner);
    assert forall|j: int| 0 <= j <= first_slot implies !is_null_identity(
        (#[trigger] between[j]).owner,
    ) by {
        if j < first_slot {
            assert(between[j] == before[j]);
        }
    }
}

} // verus!
