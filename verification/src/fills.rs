use crate::book::{Book, PayoutView, RestingOrder};
use crate::consistency::{lemma_cross_level_touches_one_level, lemma_rest_order_touches_one_level};
use crate::error::BettingMarketError;
use crate::fifo::{lemma_ahead_of_the_end, lemma_taken_adds_up, taken_ahead_of};
use crate::matching::{
    consume_queue, cross_level, cross_levels, first_free_slot, lemma_record_each_keeps_queued,
    match_and_place, min_u64, record_each, settlement_kind, taker_payouts, Taker,
};
use crate::pubkey::is_null_identity;
use vstd::prelude::*;

verus! {

/// The lesser of two integers.
pub open spec fn min_int(a: int, b: int) -> int {
    if a <= b {
        a
    } else {
        b
    }
}

/// The quantity resting at the prices above `level` up to `top`.
pub open spec fn resting_between(amounts: Seq<u64>, level: int, top: int) -> int
    decreases top - level,
{
    if top <= level {
        0
    } else {
        amounts[top] + resting_between(amounts, level, top - 1)
    }
}

/// The quantity that an order of `size` takes at `level` when it crosses the
/// levels from `top` down: what the levels above leave of it, as far as the
/// level has it.
pub open spec fn fill_at(amounts: Seq<u64>, size: u64, level: int, top: int) -> int {
    let left = size - resting_between(amounts, level, top);
    if left <= 0 {
        0
    } else if left <= amounts[level] {
        left
    } else {
        amounts[level] as int
    }
}

/// What a unit costs an order that is filled against the other side at
/// `inverse_price`.
pub open spec fn fill_price(inverse_price: int) -> int {
    100 - inverse_price
}

/// The quantities resting, by price, on the side that an order crosses with.
pub open spec fn other_side(book: Book, taker: Taker) -> Seq<u64> {
    if taker.is_yes {
        book.no_buy_amounts
    } else {
        book.yes_buy_amounts
    }
}

/// The queues, by price, of the side that an order crosses with.
pub open spec fn other_queues(book: Book, taker: Taker) -> Seq<Seq<RestingOrder>> {
    if taker.is_yes {
        book.no_queues
    } else {
        book.yes_queues
    }
}

/// The queues, by price, of the side of an order.
pub open spec fn own_queues(book: Book, taker: Taker) -> Seq<Seq<RestingOrder>> {
    if taker.is_yes {
        book.yes_queues
    } else {
        book.no_queues
    }
}

/// The quantities resting, by price, on the side of an order.
pub open spec fn own_side(book: Book, taker: Taker) -> Seq<u64> {
    if taker.is_yes {
        book.yes_buy_amounts
    } else {
        book.no_buy_amounts
    }
}

/// The quantity resting between two prices depends on the levels between
/// them alone.
pub proof fn lemma_resting_between_same(a: Seq<u64>, b: Seq<u64>, level: int, top: int)
    requires
        forall|p: int| level < p <= top ==> a[p] == b[p],
    ensures
        resting_between(a, level, top) == resting_between(b, level, top),
    decreases top - level,
{
    if top > level {
        lemma_resting_between_same(a, b, level, top - 1);
    }
}

/// The quantity resting above a level is what rests above a higher level,
/// and between the two.
pub proof fn lemma_resting_between_split(amounts: Seq<u64>, level: int, middle: int, top: int)
    requires
        level <= middle <= top,
    ensures
        resting_between(amounts, level, top) == resting_between(amounts, level, middle)
            + resting_between(amounts, middle, top),
        resting_between(amounts, level, middle) >= 0,
        level < middle ==> resting_between(amounts, level, middle) >= amounts[middle],
    decreases top - level,
{
    if top > middle {
        lemma_resting_between_split(amounts, level, middle, top - 1);
    } else if middle > level {
        lemma_resting_between_split(amounts, level, middle - 1, middle - 1);
    }
}

/// Crossing, whether it ends or an error stops it, never touches the
/// order's own side nor the other side outside the prices from `top` down to
/// the lowest that the limit allows; it adds to no level; and the other side
/// loses, in all, exactly what the order has matched.
pub proof fn lemma_cross_levels_only_takes(book: Book, taker: Taker, top: int, unmatched: u64)
    requires
        book.has_shape(),
        taker.limit_price <= 100,
        -1 <= top <= 100,
    ensures
        ({
            let (crossed, left, _) = cross_levels(book, taker, top, unmatched);
            let amounts = other_side(book, taker);
            let lowest = taker.lowest_crossing_price();
            let after = other_side(crossed, taker);
            &&& crossed.has_shape()
            &&& left <= unmatched
            &&& own_side(crossed, taker) == own_side(book, taker)
            &&& own_queues(crossed, taker) == own_queues(book, taker)
            &&& forall|p: int| 0 <= p <= 100 ==> #[trigger] after[p] <= amounts[p]
            &&& forall|p: int|
                0 <= p <= 100 && !(lowest <= p <= top) ==> #[trigger] after[p] == amounts[p]
            &&& forall|p: int|
                0 <= p <= 100 && !(lowest <= p <= top) ==> #[trigger] other_queues(
                    crossed,
                    taker,
                )[p] == other_queues(book, taker)[p]
            &&& resting_between(after, lowest - 1, top) == resting_between(
                amounts,
                lowest - 1,
                top,
            ) - (unmatched - left)
        }),
    decreases top + 1,
{
    let amounts = other_side(book, taker);
    let lowest = taker.lowest_crossing_price();
    if top < 0 || top < lowest {
    } else {
        match cross_level(book, taker, top as u64, unmatched) {
            Err(_) => {},
            Ok((next, rest)) => {
                lemma_cross_level_touches_one_level(book, taker, top as u64, unmatched);
                let matched = min_u64(unmatched, amounts[top]);
                let next_amounts = other_side(next, taker);
                assert(amounts == book.buy_amounts(!taker.is_yes));
                assert(next_amounts == next.buy_amounts(!taker.is_yes));
                assert(own_side(next, taker) == next.buy_amounts(taker.is_yes));
                assert(own_queues(next, taker) == next.queues(taker.is_yes));
                assert(other_queues(next, taker) == next.queues(!taker.is_yes));
                lemma_cross_levels_only_takes(next, taker, top - 1, rest);
                let (crossed, left, _) = cross_levels(next, taker, top - 1, rest);
                let after = other_side(crossed, taker);
                assert(after[top] == next_amounts[top]);
                lemma_resting_between_same(next_amounts, amounts, lowest - 1, top - 1);
            },
        }
    }
}

/// What crossing does to the quantities resting: at each level from `top`
/// down to the lowest that the limit allows, the other side loses what the
/// order fills there, and what is left of the order is what the levels
/// together could not fill.
pub proof fn lemma_cross_levels_fills(book: Book, taker: Taker, top: int, unmatched: u64)
    requires
        book.has_shape(),
        taker.limit_price <= 100,
        -1 <= top <= 100,
        cross_levels(book, taker, top, unmatched).2 is None,
    ensures
        ({
            let (crossed, left, _) = cross_levels(book, taker, top, unmatched);
            let amounts = other_side(book, taker);
            let lowest = taker.lowest_crossing_price();
            let after = other_side(crossed, taker);
            &&& forall|p: int|
                lowest <= p <= top ==> #[trigger] after[p] == amounts[p] - fill_at(
                    amounts,
                    unmatched,
                    p,
                    top,
                )
            &&& left == unmatched - min_int(
                unmatched as int,
                resting_between(amounts, lowest - 1, top),
            )
        }),
    decreases top + 1,
{
    let amounts = other_side(book, taker);
    let lowest = taker.lowest_crossing_price();
    if top < 0 || top < lowest {
    } else {
        match cross_level(book, taker, top as u64, unmatched) {
            Err(_) => {},
            Ok((next, rest)) => {
                lemma_cross_level_touches_one_level(book, taker, top as u64, unmatched);
                let matched = min_u64(unmatched, amounts[top]);
                let next_amounts = other_side(next, taker);
                assert(amounts == book.buy_amounts(!taker.is_yes));
                assert(next_amounts == next.buy_amounts(!taker.is_yes));
                lemma_cross_levels_fills(next, taker, top - 1, rest);
                lemma_cross_levels_only_takes(next, taker, top - 1, rest);
                let (crossed, left, _) = cross_levels(next, taker, top - 1, rest);
                let after = other_side(crossed, taker);
                assert forall|p: int| lowest <= p <= top implies #[trigger] after[p] == amounts[p]
                    - fill_at(amounts, unmatched, p, top) by {
                    if p <= top - 1 {
                        lemma_resting_between_same(next_amounts, amounts, p, top - 1);
                        lemma_resting_between_split(amounts, p, top - 1, top - 1);
                        assert(rest == unmatched - matched);
                        assert(resting_between(amounts, p, top) == amounts[top] + resting_between(
                            amounts,
                            p,
                            top - 1,
                        ));
                        assert(next_amounts[p] == amounts[p]);
                        assert(after[p] == next_amounts[p] - fill_at(
                            next_amounts,
                            rest,
                            p,
                            top - 1,
                        ));
                    } else {
                        assert(resting_between(amounts, top, top) == 0);
                        assert(after[p] == next_amounts[p]);
                    }
                }
                lemma_resting_between_same(next_amounts, amounts, lowest - 1, top - 1);
                lemma_resting_between_split(amounts, lowest - 1, top - 1, top);
            },
        }
    }
}

/// Conservation of an executed order: the quantity matched is the size of
/// the order or the quantity that rests on the other side at the prices its
/// limit allows, whichever is less; the other side loses exactly that much
/// there; and what is left of the order is exactly what is added to its own
/// side at its limit price, as one new order behind those that wait there.
/// An order that is matched whole leaves its own side as it was.
pub proof fn lemma_matched_quantity_is_conserved(book: Book, taker: Taker, size: u64)
    requires
        book.has_shape(),
        match_and_place(book, taker, size).1 is Ok,
    ensures
        ({
            let (after, result) = match_and_place(book, taker, size);
            let rested = result->Ok_0;
            let lowest = taker.lowest_crossing_price();
            let limit = taker.limit_price as int;
            let available = resting_between(other_side(book, taker), lowest - 1, 100);
            let matched = min_int(size as int, available);
            let own = own_side(after, taker);
            let queues = own_queues(after, taker);
            let queue = own_queues(book, taker)[limit];
            &&& rested == size - matched
            &&& resting_between(other_side(after, taker), lowest - 1, 100) == available - matched
            &&& forall|p: int|
                0 <= p <= 100 ==> #[trigger] other_side(after, taker)[p] <= other_side(
                    book,
                    taker,
                )[p]
            &&& own[limit] == own_side(book, taker)[limit] + rested
            &&& forall|p: int|
                0 <= p <= 100 && p != limit ==> #[trigger] own[p] == own_side(book, taker)[p]
            &&& forall|p: int|
                0 <= p <= 100 && p != limit ==> #[trigger] queues[p] == own_queues(
                    book,
                    taker,
                )[p]
            &&& rested == 0 ==> queues[limit] == queue
            &&& rested > 0 ==> first_free_slot(queue, 0) < 10 && queues[limit] == queue.update(
                first_free_slot(queue, 0),
                RestingOrder {
                    owner: taker.owner,
                    kind: settlement_kind(taker.settles_in_collateral),
                    amount: rested,
                },
            )
        }),
{
    lemma_cross_levels_fills(book, taker, 100, size);
    lemma_cross_levels_only_takes(book, taker, 100, size);
    let (crossed, unmatched, _) = cross_levels(book, taker, 100, size);
    let (after, _) = match_and_place(book, taker, size);
    lemma_rest_order_touches_one_level(
        crossed,
        taker.is_yes,
        taker.limit_price,
        taker.owner,
        taker.settles_in_collateral,
        unmatched,
    );
    assert(other_side(after, taker) == after.buy_amounts(!taker.is_yes));
    assert(other_side(crossed, taker) == crossed.buy_amounts(!taker.is_yes));
    assert(own_side(after, taker) == after.buy_amounts(taker.is_yes));
    assert(own_side(crossed, taker) == crossed.buy_amounts(taker.is_yes));
    assert(own_queues(after, taker) == after.queues(taker.is_yes));
    assert(own_queues(crossed, taker) == crossed.queues(taker.is_yes));
}

/// An order stopped by an error has added to no level of the other side,
/// has left its own side as it was, and has taken from the other side, in
/// all, no more than its size.
pub proof fn lemma_stopped_order_only_takes(book: Book, taker: Taker, size: u64)
    requires
        book.has_shape(),
        taker.limit_price <= 100,
        match_and_place(book, taker, size).1 is Err,
    ensures
        ({
            let after = match_and_place(book, taker, size).0;
            let lowest = taker.lowest_crossing_price();
            let taken = resting_between(other_side(book, taker), lowest - 1, 100)
                - resting_between(other_side(after, taker), lowest - 1, 100);
            &&& 0 <= taken <= size
            &&& forall|p: int|
                0 <= p <= 100 ==> #[trigger] other_side(after, taker)[p] <= other_side(
                    book,
                    taker,
                )[p]
            &&& own_side(after, taker) == own_side(book, taker)
            &&& own_queues(after, taker) == own_queues(book, taker)
        }),
{
    lemma_cross_levels_only_takes(book, taker, 100, size);
}

/// Both legs of a crossing match the same quantity: what an order fills at a
/// price is what is taken, together, from the orders that wait there.
pub proof fn lemma_fill_is_taken_from_the_queue(
    book: Book,
    taker: Taker,
    inverse_price: u64,
    unmatched: u64,
)
    requires
        book.well_formed(),
        inverse_price <= 100,
    ensures
        taken_ahead_of(
            other_queues(book, taker)[inverse_price as int],
            min_u64(unmatched, other_side(book, taker)[inverse_price as int]),
            10,
        ) == min_u64(unmatched, other_side(book, taker)[inverse_price as int]),
{
    let queue = other_queues(book, taker)[inverse_price as int];
    let matched = min_u64(unmatched, other_side(book, taker)[inverse_price as int]);
    lemma_taken_adds_up(queue, matched, 10);
    lemma_ahead_of_the_end(queue);
    assert(book.level_well_formed(!taker.is_yes, inverse_price as int));
}

/// Price priority of an executed order: it fills nothing at a price worse
/// than its limit: the other side is untouched below the lowest price that
/// the limit allows, and every price at which it can be filled costs no more
/// than the limit. And it fills at a price only once every better price, that
/// is every higher price of the other side, has nothing left.
pub proof fn lemma_best_price_is_filled_first(book: Book, taker: Taker, size: u64)
    requires
        book.has_shape(),
        match_and_place(book, taker, size).1 is Ok,
    ensures
        ({
            let after = other_side(match_and_place(book, taker, size).0, taker);
            let before = other_side(book, taker);
            let lowest = taker.lowest_crossing_price();
            &&& forall|p: int| 0 <= p < lowest ==> #[trigger] after[p] == before[p]
            &&& forall|p: int|
                0 <= p < lowest ==> #[trigger] other_queues(
                    match_and_place(book, taker, size).0,
                    taker,
                )[p] == other_queues(book, taker)[p]
            &&& forall|p: int| lowest <= p <= 100 ==> #[trigger] fill_price(p) <= taker.limit_price
            &&& forall|p: int, q: int|
                lowest <= p < q <= 100 && #[trigger] after[p] < before[p] ==> #[trigger] after[q]
                    == 0
        }),
{
    lemma_cross_levels_fills(book, taker, 100, size);
    lemma_cross_levels_only_takes(book, taker, 100, size);
    let (crossed, unmatched, _) = cross_levels(book, taker, 100, size);
    let (rested, _) = match_and_place(book, taker, size);
    lemma_rest_order_touches_one_level(
        crossed,
        taker.is_yes,
        taker.limit_price,
        taker.owner,
        taker.settles_in_collateral,
        unmatched,
    );
    let before = other_side(book, taker);
    let after = other_side(rested, taker);
    let lowest = taker.lowest_crossing_price();
    assert(after == rested.buy_amounts(!taker.is_yes));
    assert(other_side(crossed, taker) == crossed.buy_amounts(!taker.is_yes));
    assert(other_queues(rested, taker) == rested.queues(!taker.is_yes));
    assert(other_queues(crossed, taker) == crossed.queues(!taker.is_yes));
    assert(after == other_side(crossed, taker));
    assert forall|p: int, q: int|
        lowest <= p < q <= 100 && #[trigger] after[p] < before[p] implies #[trigger] after[q]
        == 0 by {
        lemma_resting_between_split(before, p, q, 100);
        assert(after[q] == before[q] - fill_at(before, size, q, 100));
        assert(after[p] == before[p] - fill_at(before, size, p, 100));
    }
}

/// An order that finds nothing resting on the other side at the prices its
/// limit allows crosses nothing: the book stays as it is and the whole order
/// is left to rest.
pub proof fn lemma_nothing_to_cross(book: Book, taker: Taker, top: int, unmatched: u64)
    requires
        book.has_shape(),
        top <= 100,
        forall|p: int|
            0 <= p <= top && taker.lowest_crossing_price() <= p ==> #[trigger] other_side(
                book,
                taker,
            )[p] == 0,
    ensures
        cross_levels(book, taker, top, unmatched) == (book, unmatched, None::<BettingMarketError>),
    decreases top + 1,
{
    if top < 0 || top < taker.lowest_crossing_price() {
    } else {
        assert(other_side(book, taker)[top] == 0);
        assert(other_side(book, taker) == book.buy_amounts(!taker.is_yes));
        lemma_nothing_to_cross(book, taker, top - 1, unmatched);
    }
}

/// What an order is paid for a fill: an order that settles in collateral is
/// paid the price of the fill for each unit; any other order is paid the
/// units in the token it buys, and is refunded, for each unit, what its limit
/// price exceeds the price of the fill by, which is never less than nothing
/// at a price that the limit allows.
pub proof fn lemma_taker_is_paid_the_fill(taker: Taker, inverse_price: u64, matched: u64)
    requires
        taker.limit_price <= 100,
        taker.lowest_crossing_price() <= inverse_price <= 100,
        taker_payouts(taker, inverse_price, matched) is Ok,
    ensures
        ({
            let paid = taker_payouts(taker, inverse_price, matched)->Ok_0;
            let price = fill_price(inverse_price as int);
            &&& 0 <= price <= taker.limit_price
            &&& taker.settles_in_collateral ==> paid == seq![
                PayoutView {
                    recipient: taker.owner,
                    mint: taker.collateral_mint,
                    amount: (matched * price) as u64,
                },
            ] && matched * price <= u64::MAX
            &&& !taker.settles_in_collateral ==> paid == seq![
                PayoutView { recipient: taker.owner, mint: taker.forward_mint(), amount: matched },
                PayoutView {
                    recipient: taker.owner,
                    mint: taker.collateral_mint,
                    amount: (matched * (taker.limit_price - price)) as u64,
                },
            ] && 0 <= matched * (taker.limit_price - price) <= u64::MAX
        }),
{
    let price = fill_price(inverse_price as int);
    assert(0 <= matched * (taker.limit_price - price)) by (nonlinear_arith)
        requires
            0 <= matched,
            0 <= taker.limit_price - price,
    ;
}

/// Crossing writes free slots of the ledger only: a payout that was queued
/// before stays in its slot, whether the crossing ends or an error stops it.
pub proof fn lemma_cross_levels_keeps_queued_payouts(
    book: Book,
    taker: Taker,
    top: int,
    unmatched: u64,
)
    requires
        book.has_shape(),
        taker.limit_price <= 100,
        -1 <= top <= 100,
    ensures
        forall|slot: int|
            0 <= slot < 100 && !book.payouts[slot].is_free() ==> #[trigger] cross_levels(
                book,
                taker,
                top,
                unmatched,
            ).0.payouts[slot] == book.payouts[slot],
    decreases top + 1,
{
    if top < 0 || top < taker.lowest_crossing_price() {
    } else {
        match cross_level(book, taker, top as u64, unmatched) {
            Err(_) => {},
            Ok((next, rest)) => {
                lemma_cross_level_touches_one_level(book, taker, top as u64, unmatched);
                let matched = min_u64(unmatched, book.buy_amounts(!taker.is_yes)[top]);
                if matched > 0 {
                    let consumed = consume_queue(
                        book.queues(!taker.is_yes)[top],
                        matched,
                        top as u64,
                        taker.inverse_mint(),
                        taker.collateral_mint,
                        Seq::empty(),
                    );
                    let own = taker_payouts(taker, top as u64, matched);
                    let batch = consumed->Ok_0.1 + own->Ok_0;
                    lemma_record_each_keeps_queued(book.payouts, batch);
                    assert(next.payouts == record_each(book.payouts, batch));
                }
                lemma_cross_levels_keeps_queued_payouts(next, taker, top - 1, rest);
                let ended = cross_levels(next, taker, top - 1, rest).0;
                assert(cross_levels(book, taker, top, unmatched).0 == ended);
                assert forall|slot: int|
                    0 <= slot < 100 && !book.payouts[slot].is_free() implies #[trigger] cross_levels(
                    book,
                    taker,
                    top,
                    unmatched,
                ).0.payouts[slot] == book.payouts[slot] by {
                    if matched > 0 {
                        let consumed = consume_queue(
                            book.queues(!taker.is_yes)[top],
                            matched,
                            top as u64,
                            taker.inverse_mint(),
                            taker.collateral_mint,
                            Seq::empty(),
                        );
                        let own = taker_payouts(taker, top as u64, matched);
                        let batch = consumed->Ok_0.1 + own->Ok_0;
                        assert(record_each(book.payouts, batch)[slot] == book.payouts[slot]);
                    }
                    assert(next.payouts[slot] == book.payouts[slot]);
                    assert(cross_levels(next, taker, top - 1, rest).0.payouts[slot]
                        == next.payouts[slot]);
                }
            },
        }
    }
}

/// An order, executed or stopped, writes free slots of the ledger only: every
/// payout that was queued before it stays in its slot.
pub proof fn lemma_order_keeps_queued_payouts(book: Book, taker: Taker, size: u64)
    requires
        book.has_shape(),
    ensures
        forall|slot: int|
            0 <= slot < 100 && !book.payouts[slot].is_free() ==> #[trigger] match_and_place(
                book,
                taker,
                size,
            ).0.payouts[slot] == book.payouts[slot],
{
    if taker.limit_price <= 100 && !is_null_identity(taker.owner) {
        lemma_cross_levels_keeps_queued_payouts(book, taker, 100, size);
    }
}

} // verus!
