use crate::book::{
    book_of, buy_amount_offset, order_amount_offset, order_at, order_kind_offset, payout_at,
    pop_front, queue_total, queue_well_formed, Book, PayoutView, RestingOrder,
    SETTLES_IN_COLLATERAL,
};
use crate::matching::{
    consume_queue, cross_level, cross_levels, first_free_slot, lemma_record_each_keeps_length,
    match_and_place, min_u64, offer_trade, reduce_front, rest_order, resting_payout, taker_of,
    taker_payouts, trade_funding, Taker,
};
use crate::pubkey::is_null_identity;
use crate::state::{u64_at, MARKET_DATA_LEN};
use vstd::bytes::{
    lemma_auto_spec_u64_to_from_le_bytes, spec_u64_to_le_bytes, spec_u64_to_le_bytes_to_open,
};
use vstd::prelude::*;

verus! {

/// The first slot without an owner comes after slots that all have one.
pub proof fn lemma_first_free_slot(queue: Seq<RestingOrder>, from: int)
    requires
        0 <= from <= 10,
    ensures
        from <= first_free_slot(queue, from) <= 10,
        forall|j: int|
            from <= j < first_free_slot(queue, from) ==> !is_null_identity(
                (#[trigger] queue[j]).owner,
            ),
        first_free_slot(queue, from) < 10 ==> is_null_identity(
            queue[first_free_slot(queue, from)].owner,
        ),
    decreases 10 - from,
{
    if from < 10 && !is_null_identity(queue[from].owner) {
        lemma_first_free_slot(queue, from + 1);
    }
}

/// Resting an order changes one level of one side and nothing else: the
/// other side, the other prices of its own side and the ledger are as they
/// were.
pub proof fn lemma_rest_order_touches_one_level(
    book: Book,
    is_yes: bool,
    price: u64,
    owner: Seq<u8>,
    settles_in_collateral: bool,
    amount: u64,
)
    requires
        book.has_shape(),
        rest_order(book, is_yes, price, owner, settles_in_collateral, amount) is Ok,
    ensures
        ({
            let rested = rest_order(book, is_yes, price, owner, settles_in_collateral, amount)->Ok_0;
            &&& rested.has_shape()
            &&& rested.queues(!is_yes) == book.queues(!is_yes)
            &&& rested.buy_amounts(!is_yes) == book.buy_amounts(!is_yes)
            &&& rested.payouts == book.payouts
            &&& forall|other: int|
                0 <= other <= 100 && other != price ==> #[trigger] rested.queues(is_yes)[other]
                    == book.queues(is_yes)[other]
            &&& forall|other: int|
                0 <= other <= 100 && other != price ==> #[trigger] rested.buy_amounts(
                    is_yes,
                )[other] == book.buy_amounts(is_yes)[other]
        }),
{
    if amount > 0 {
        let level = price as int;
        let rested = rest_order(book, is_yes, price, owner, settles_in_collateral, amount)->Ok_0;
        let queue = book.queues(is_yes)[level];
        lemma_first_free_slot(queue, 0);
        if is_yes {
            assert(book.yes_queues[level].len() == 10);
            assert forall|other: int| 0 <= other <= 100 implies (
            #[trigger] rested.yes_queues[other]).len() == 10 by {
                assert(book.yes_queues[other].len() == 10);
            }
        } else {
            assert(book.no_queues[level].len() == 10);
            assert forall|other: int| 0 <= other <= 100 implies (
            #[trigger] rested.no_queues[other]).len() == 10 by {
                assert(book.no_queues[other].len() == 10);
            }
        }
    }
}

/// An order that is left resting keeps the book well formed.
pub proof fn lemma_rest_order_keeps_well_formed(
    book: Book,
    is_yes: bool,
    price: u64,
    owner: Seq<u8>,
    settles_in_collateral: bool,
    amount: u64,
)
    requires
        book.well_formed(),
        owner.len() == 32,
    ensures
        match rest_order(book, is_yes, price, owner, settles_in_collateral, amount) {
            Ok(rested) => rested.well_formed(),
            Err(_) => true,
        },
{
    match rest_order(book, is_yes, price, owner, settles_in_collateral, amount) {
        Ok(rested) => {
            if amount > 0 {
                let level = price as int;
                let queue = book.queues(is_yes)[level];
                let slot = first_free_slot(queue, 0);
                lemma_first_free_slot(queue, 0);
                lemma_rest_order_touches_one_level(
                    book,
                    is_yes,
                    price,
                    owner,
                    settles_in_collateral,
                    amount,
                );
                let after = rested.queues(is_yes)[level];
                assert(book.level_well_formed(is_yes, level));
                assert(queue[slot].is_empty());
                assert forall|j: int| 0 <= j < slot implies (#[trigger] queue[j]).is_live() by {}
                assert(after == queue.update(slot, after[slot]));
                assert(after[slot].is_live());
                assert(queue_well_formed(after)) by {
                    assert forall|j: int| 0 <= j < 10 implies (#[trigger] after[j]).is_live()
                        || after[j].is_empty() by {
                        assert(queue[j].is_live() || queue[j].is_empty());
                    }
                    assert forall|i: int, j: int|
                        0 <= i <= j < 10 && (#[trigger] after[i]).is_empty() implies (
                    #[trigger] after[j]).is_empty() by {
                        assert(i != slot);
                        assert(queue[i].is_empty());
                        assert(!queue[i].is_live());
                        assert(i > slot);
                        assert(queue[j].is_empty());
                    }
                }
                assert(queue_total(after) == queue_total(queue) + amount);
                assert forall|side: bool, other: int| 0 <= other <= 100 implies
                    #[trigger] rested.level_well_formed(side, other) by {
                    assert(book.level_well_formed(side, other));
                    if side != is_yes {
                        assert(rested.queues(side) == book.queues(side));
                    } else if other != level {
                        assert(rested.queues(side)[other] == book.queues(side)[other]);
                        assert(rested.buy_amounts(side)[other] == book.buy_amounts(side)[other]);
                    }
                }
            }
        },
        Err(_) => {},
    }
}

/// A queue without its first order is well formed, and holds what that
/// order held less.
pub proof fn lemma_pop_front(queue: Seq<RestingOrder>)
    requires
        queue_well_formed(queue),
    ensures
        queue_well_formed(pop_front(queue)),
        queue_total(pop_front(queue)) == queue_total(queue) - queue[0].amount,
{
    let rest = pop_front(queue);
    assert forall|j: int| 0 <= j < 10 implies (#[trigger] rest[j]).is_live() || rest[j].is_empty() by {
        if j < 9 {
            assert(queue[j + 1].is_live() || queue[j + 1].is_empty());
        }
    }
    assert forall|i: int, j: int| 0 <= i <= j < 10 && (#[trigger] rest[i]).is_empty() implies (
    #[trigger] rest[j]).is_empty() by {
        if j < 9 {
            assert(queue[i + 1].is_empty());
            assert(queue[j + 1].is_empty());
        }
    }
}

/// A well-formed queue whose first slot holds nothing holds nothing at all.
pub proof fn lemma_empty_queue(queue: Seq<RestingOrder>)
    requires
        queue_well_formed(queue),
        queue[0].amount == 0,
    ensures
        queue_total(queue) == 0,
        forall|j: int| 0 <= j < 10 ==> (#[trigger] queue[j]).is_empty(),
{
    assert(queue[0].is_live() || queue[0].is_empty());
    assert forall|j: int| 0 <= j < 10 implies (#[trigger] queue[j]).is_empty() by {
        assert(queue[0].is_empty());
    }
    assert(queue[1].is_empty() && queue[2].is_empty() && queue[3].is_empty()
        && queue[4].is_empty() && queue[5].is_empty() && queue[6].is_empty()
        && queue[7].is_empty() && queue[8].is_empty() && queue[9].is_empty());
}

/// Taking from a queue of ten slots leaves a queue of ten slots.
pub proof fn lemma_consume_queue_keeps_length(
    queue: Seq<RestingOrder>,
    quantity: u64,
    price: u64,
    token_mint: Seq<u8>,
    collateral_mint: Seq<u8>,
    paid: Seq<PayoutView>,
)
    requires
        queue.len() == 10,
    ensures
        match consume_queue(
            queue,
            quantity,
            price,
            token_mint,
            collateral_mint,
            paid,
        ) {
            Ok((left, _)) => left.len() == 10,
            Err(_) => true,
        },
    decreases quantity,
{
    if quantity == 0 || queue[0].amount == 0 {
    } else {
        let taken = min_u64(queue[0].amount, quantity);
        if queue[0].kind == SETTLES_IN_COLLATERAL && taken * (100 - price) > u64::MAX {
        } else {
            let payout = resting_payout(
                queue[0],
                taken,
                price,
                token_mint,
                collateral_mint,
            );
            let rest = if taken == queue[0].amount {
                pop_front(queue)
            } else {
                reduce_front(queue, taken)
            };
            lemma_consume_queue_keeps_length(
                rest,
                (quantity - taken) as u64,
                price,
                token_mint,
                collateral_mint,
                paid.push(payout),
            );
        }
    }
}

/// Taking from a well-formed queue leaves a well-formed queue, which holds
/// what was asked for less, or nothing if it held no more than that.
pub proof fn lemma_consume_queue_keeps_well_formed(
    queue: Seq<RestingOrder>,
    quantity: u64,
    price: u64,
    token_mint: Seq<u8>,
    collateral_mint: Seq<u8>,
    paid: Seq<PayoutView>,
)
    requires
        queue_well_formed(queue),
    ensures
        match consume_queue(queue, quantity, price, token_mint, collateral_mint, paid) {
            Ok((left, _)) => queue_well_formed(left) && queue_total(left) == if quantity
                <= queue_total(queue) {
                queue_total(queue) - quantity
            } else {
                0
            },
            Err(_) => true,
        },
    decreases quantity,
{
    if quantity == 0 {
    } else if queue[0].amount == 0 {
        lemma_empty_queue(queue);
    } else {
        let taken = min_u64(queue[0].amount, quantity);
        if queue[0].kind == SETTLES_IN_COLLATERAL && taken * (100 - price) > u64::MAX {
        } else {
            let payout = resting_payout(
                queue[0],
                taken,
                price,
                token_mint,
                collateral_mint,
            );
            if taken == queue[0].amount {
                lemma_pop_front(queue);
                lemma_consume_queue_keeps_well_formed(
                    pop_front(queue),
                    (quantity - taken) as u64,
                    price,
                    token_mint,
                    collateral_mint,
                    paid.push(payout),
                );
            } else {
                let rest = reduce_front(queue, taken);
                assert(queue[0].is_live() || queue[0].is_empty());
                assert(rest[0].is_live());
                assert(queue_well_formed(rest)) by {
                    assert forall|j: int| 0 <= j < 10 implies (#[trigger] rest[j]).is_live()
                        || rest[j].is_empty() by {
                        assert(queue[j].is_live() || queue[j].is_empty());
                    }
                    assert forall|i: int, j: int|
                        0 <= i <= j < 10 && (#[trigger] rest[i]).is_empty() implies (
                    #[trigger] rest[j]).is_empty() by {
                        assert(i != 0);
                        assert(queue[i].is_empty());
                        assert(queue[j].is_empty());
                    }
                }
                assert(queue_total(rest) == queue_total(queue) - taken);
                lemma_consume_queue_keeps_well_formed(
                    rest,
                    (quantity - taken) as u64,
                    price,
                    token_mint,
                    collateral_mint,
                    paid.push(payout),
                );
            }
        }
    }
}

/// Crossing one price level changes the other side at that price, and the
/// ledger, and nothing else: the order's own side and the other prices of
/// the other side are as they were.
pub proof fn lemma_cross_level_touches_one_level(
    book: Book,
    taker: Taker,
    inverse_price: u64,
    unmatched: u64,
)
    requires
        book.has_shape(),
        inverse_price <= 100,
        cross_level(book, taker, inverse_price, unmatched) is Ok,
    ensures
        ({
            let (crossed, left) = cross_level(book, taker, inverse_price, unmatched)->Ok_0;
            let matched = min_u64(unmatched, book.buy_amounts(!taker.is_yes)[inverse_price as int]);
            &&& crossed.has_shape()
            &&& left == unmatched - matched
            &&& crossed.queues(taker.is_yes) == book.queues(taker.is_yes)
            &&& crossed.buy_amounts(taker.is_yes) == book.buy_amounts(taker.is_yes)
            &&& crossed.buy_amounts(!taker.is_yes) == book.buy_amounts(!taker.is_yes).update(
                inverse_price as int,
                (book.buy_amounts(!taker.is_yes)[inverse_price as int] - matched) as u64,
            )
            &&& forall|side: bool, other: int|
                0 <= other <= 100 && (side == taker.is_yes || other != inverse_price)
                    ==> #[trigger] crossed.queues(side)[other] == book.queues(side)[other]
            &&& matched == 0 ==> crossed == book
        }),
{
    let level = inverse_price as int;
    let resting = book.buy_amounts(!taker.is_yes)[level];
    let matched = min_u64(unmatched, resting);
    if matched > 0 {
        let consumed = consume_queue(
            book.queues(!taker.is_yes)[level],
            matched,
            inverse_price,
            taker.inverse_mint(),
            taker.collateral_mint,
            Seq::empty(),
        );
        let own = taker_payouts(taker, inverse_price, matched);
        lemma_record_each_keeps_length(book.payouts, consumed->Ok_0.1 + own->Ok_0);
        lemma_consume_queue_keeps_length(
            book.queues(!taker.is_yes)[level],
            matched,
            inverse_price,
            taker.inverse_mint(),
            taker.collateral_mint,
            Seq::empty(),
        );
        let (crossed, left) = cross_level(book, taker, inverse_price, unmatched)->Ok_0;
        assert(crossed.buy_amounts(!taker.is_yes) =~= book.buy_amounts(!taker.is_yes).update(
            level,
            (resting - matched) as u64,
        ));
    } else {
        assert(book.buy_amounts(!taker.is_yes) =~= book.buy_amounts(!taker.is_yes).update(
            level,
            resting,
        ));
    }
}

/// Crossing one price level keeps the book well formed, and matches no more
/// than was unmatched.
pub proof fn lemma_cross_level_keeps_well_formed(
    book: Book,
    taker: Taker,
    inverse_price: u64,
    unmatched: u64,
)
    requires
        book.well_formed(),
        inverse_price <= 100,
    ensures
        match cross_level(book, taker, inverse_price, unmatched) {
            Ok((crossed, left)) => crossed.well_formed() && left <= unmatched,
            Err(_) => true,
        },
{
    let level = inverse_price as int;
    let resting = book.buy_amounts(!taker.is_yes)[level];
    let matched = min_u64(unmatched, resting);
    match cross_level(book, taker, inverse_price, unmatched) {
        Ok((crossed, left)) => {
            if matched > 0 {
                lemma_cross_level_touches_one_level(book, taker, inverse_price, unmatched);
                assert(book.level_well_formed(!taker.is_yes, level));
                lemma_consume_queue_keeps_well_formed(
                    book.queues(!taker.is_yes)[level],
                    matched,
                    inverse_price,
                    taker.inverse_mint(),
                    taker.collateral_mint,
                    Seq::empty(),
                );
                assert(book.level_well_formed(!taker.is_yes, level));
                assert(matched <= queue_total(book.queues(!taker.is_yes)[level]));
                assert forall|side: bool, other: int| 0 <= other <= 100 implies
                    #[trigger] crossed.level_well_formed(side, other) by {
                    assert(book.level_well_formed(side, other));
                    if side == taker.is_yes {
                        assert(crossed.queues(side) == book.queues(side));
                    } else if other != level {
                        assert(crossed.queues(side)[other] == book.queues(side)[other]);
                    }
                }
            }
        },
        Err(_) => {},
    }
}

/// Crossing the price levels from `level` down keeps the book well formed,
/// whether or not an error stops it.
pub proof fn lemma_cross_levels_keeps_well_formed(
    book: Book,
    taker: Taker,
    level: int,
    unmatched: u64,
)
    requires
        book.well_formed(),
    ensures
        cross_levels(book, taker, level, unmatched).0.well_formed(),
        cross_levels(book, taker, level, unmatched).1 <= unmatched,
    decreases level + 1,
{
    if level < 0 || level > 100 || level < taker.lowest_crossing_price() {
    } else {
        lemma_cross_level_keeps_well_formed(book, taker, level as u64, unmatched);
        match cross_level(book, taker, level as u64, unmatched) {
            Err(_) => {},
            Ok((crossed, left)) => {
                lemma_cross_levels_keeps_well_formed(crossed, taker, level - 1, left);
            },
        }
    }
}

/// The invariant of the book holds after every order, executed or refused:
/// at each price the queue is well formed and holds exactly the quantity that
/// the two sides have resting there.
pub proof fn lemma_match_and_place_keeps_well_formed(book: Book, taker: Taker, size: u64)
    requires
        book.well_formed(),
        taker.owner.len() == 32,
    ensures
        match_and_place(book, taker, size).0.well_formed(),
{
    if taker.limit_price <= 100 && !is_null_identity(taker.owner) {
        lemma_cross_levels_keeps_well_formed(book, taker, 100, size);
        let (crossed, unmatched, stopped) = cross_levels(book, taker, 100, size);
        lemma_rest_order_keeps_well_formed(
            crossed,
            taker.is_yes,
            taker.limit_price,
            taker.owner,
            taker.settles_in_collateral,
            unmatched,
        );
    }
}

/// The invariant of the book holds after every submission, executed or
/// refused.
pub proof fn lemma_offer_trade_keeps_well_formed(
    book: Book,
    is_yes: bool,
    price: u64,
    amount: u64,
    inverse_balance: u64,
    owner: Seq<u8>,
    yes_mint: Seq<u8>,
    no_mint: Seq<u8>,
    collateral_mint: Seq<u8>,
)
    requires
        book.well_formed(),
        owner.len() == 32,
    ensures
        offer_trade(
            book,
            is_yes,
            price,
            amount,
            inverse_balance,
            owner,
            yes_mint,
            no_mint,
            collateral_mint,
        ).0.well_formed(),
{
    match trade_funding(price, amount, inverse_balance) {
        Err(_) => {},
        Ok(funding) => {
            let first_taker = taker_of(is_yes, price, true, owner, yes_mint, no_mint, collateral_mint);
            let second_taker = taker_of(
                is_yes,
                price,
                false,
                owner,
                yes_mint,
                no_mint,
                collateral_mint,
            );
            lemma_match_and_place_keeps_well_formed(
                book,
                first_taker,
                funding.inverse_collateralized_amount,
            );
            let first = match_and_place(book, first_taker, funding.inverse_collateralized_amount);
            lemma_match_and_place_keeps_well_formed(
                first.0,
                second_taker,
                funding.usd_collateralized_amount,
            );
        },
    }
}

/// A change to the ledger alone keeps the book well formed.
pub proof fn lemma_ledger_change_keeps_well_formed(book: Book, payouts: Seq<PayoutView>)
    requires
        book.well_formed(),
        payouts.len() == 100,
    ensures
        book.with_payouts(payouts).well_formed(),
{
    let changed = book.with_payouts(payouts);
    assert forall|is_yes: bool, price: int| 0 <= price <= 100 implies
        #[trigger] changed.level_well_formed(is_yes, price) by {
        assert(book.level_well_formed(is_yes, price));
    }
}

/// In a well-formed book the quantity resting on a side at a price is the
/// sum of the quantities of the orders in the queue of that side there.
pub proof fn lemma_buy_amount_is_queue_total(book: Book, is_yes: bool, price: int)
    requires
        book.well_formed(),
        0 <= price <= 100,
    ensures
        book.buy_amounts(is_yes)[price] == queue_total(book.queues(is_yes)[price]),
        queue_well_formed(book.queues(is_yes)[price]),
{
    assert(book.level_well_formed(is_yes, price));
}

/// Eight zero bytes encode the integer zero.
pub proof fn lemma_zero_bytes_encode_zero(bytes: Seq<u8>, offset: int)
    requires
        0 <= offset,
        offset + 8 <= bytes.len(),
        forall|i: int| offset <= i < offset + 8 ==> bytes[i] == 0,
    ensures
        u64_at(bytes, offset) == 0,
{
    lemma_auto_spec_u64_to_from_le_bytes();
    spec_u64_to_le_bytes_to_open(0);
    assert(0u64 & 0xff == 0 && (0u64 >> 8) & 0xff == 0 && (0u64 >> 16) & 0xff == 0 && (0u64 >> 24)
        & 0xff == 0 && (0u64 >> 32) & 0xff == 0 && (0u64 >> 40) & 0xff == 0 && (0u64 >> 48) & 0xff
        == 0 && (0u64 >> 56) & 0xff == 0) by (bit_vector);
    assert(bytes.subrange(offset, offset + 8) =~= spec_u64_to_le_bytes(0));
}

/// A buffer of zeros holds a well-formed book: the empty one, with nothing
/// resting and no order in any queue.
pub proof fn lemma_zeroed_buffer_is_well_formed(bytes: Seq<u8>)
    requires
        bytes.len() >= MARKET_DATA_LEN,
        forall|i: int| 0 <= i < bytes.len() ==> bytes[i] == 0,
    ensures
        book_of(bytes).well_formed(),
        forall|is_yes: bool, price: int|
            0 <= price <= 100 ==> #[trigger] book_of(bytes).buy_amounts(is_yes)[price] == 0,
        forall|is_yes: bool, price: int, slot: int|
            0 <= price <= 100 && 0 <= slot < 10 ==> (#[trigger] book_of(bytes).queues(
                is_yes,
            )[price][slot]).is_empty(),
        forall|index: int| 0 <= index < 100 ==> (#[trigger] book_of(bytes).payouts[index]).is_free(),
{
    let book = book_of(bytes);
    assert forall|is_yes: bool, price: int| 0 <= price <= 100 implies #[trigger] book.buy_amounts(
        is_yes,
    )[price] == 0 by {
        lemma_zero_bytes_encode_zero(bytes, buy_amount_offset(is_yes, price));
    }
    assert forall|is_yes: bool, price: int, slot: int|
        0 <= price <= 100 && 0 <= slot < 10 implies (#[trigger] book.queues(
        is_yes,
    )[price][slot]).is_empty() by {
        lemma_zero_bytes_encode_zero(bytes, order_kind_offset(is_yes, price, slot));
        lemma_zero_bytes_encode_zero(bytes, order_amount_offset(is_yes, price, slot));
        assert(book.queues(is_yes)[price][slot] == order_at(bytes, is_yes, price, slot));
    }
    assert forall|is_yes: bool, price: int| 0 <= price <= 100 implies
        #[trigger] book.level_well_formed(is_yes, price) by {
        let queue = book.queues(is_yes)[price];
        assert(book.buy_amounts(is_yes)[price] == 0);
        assert forall|slot: int| 0 <= slot < 10 implies (#[trigger] queue[slot]).is_empty() by {
            assert(book.queues(is_yes)[price][slot].is_empty());
        }
        assert(queue[0].is_empty() && queue[1].is_empty() && queue[2].is_empty()
            && queue[3].is_empty() && queue[4].is_empty() && queue[5].is_empty()
            && queue[6].is_empty() && queue[7].is_empty() && queue[8].is_empty()
            && queue[9].is_empty());
    }
    assert forall|index: int| 0 <= index < 100 implies (#[trigger] book.payouts[index]).is_free() by {
        assert(book.payouts[index] == payout_at(bytes, index));
    }
}

} // verus!
