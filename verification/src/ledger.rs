use crate::book::{pop_front, Book, PayoutView, RestingOrder};
use crate::consistency::lemma_cross_level_touches_one_level;
use crate::matching::{
    consume_queue, cross_level, cross_levels, free_payout_slots, first_free_payout,
    lemma_first_free_payout_in_range, lemma_record_payout_takes_a_slot, match_and_place, min_u64,
    payouts_due, record_each, record_payout, reduce_front, resting_payout, taker_payouts, Taker,
};
use crate::pubkey::is_null_identity;
use vstd::prelude::*;

verus! {

/// What a payout adds to what `recipient` is owed in the asset `mint`.
pub open spec fn counted(payout: PayoutView, recipient: Seq<u8>, mint: Seq<u8>) -> int {
    if !payout.is_free() && payout.recipient == recipient && payout.mint == mint {
        payout.amount as int
    } else {
        0
    }
}

/// What the payouts of a ledger, or of a batch, owe `recipient` in the asset
/// `mint`, in all.
pub open spec fn owed(payouts: Seq<PayoutView>, recipient: Seq<u8>, mint: Seq<u8>) -> int
    decreases payouts.len(),
{
    if payouts.len() == 0 {
        0
    } else {
        owed(payouts.drop_last(), recipient, mint) + counted(payouts.last(), recipient, mint)
    }
}

/// Writing one slot changes what is owed by that slot alone.
pub proof fn lemma_owed_after_write(
    payouts: Seq<PayoutView>,
    slot: int,
    payout: PayoutView,
    recipient: Seq<u8>,
    mint: Seq<u8>,
)
    requires
        0 <= slot < payouts.len(),
    ensures
        owed(payouts.update(slot, payout), recipient, mint) == owed(payouts, recipient, mint)
            - counted(payouts[slot], recipient, mint) + counted(payout, recipient, mint),
    decreases payouts.len(),
{
    let written = payouts.update(slot, payout);
    if slot == payouts.len() - 1 {
        assert(written.drop_last() =~= payouts.drop_last());
    } else {
        assert(written.drop_last() =~= payouts.drop_last().update(slot, payout));
        lemma_owed_after_write(payouts.drop_last(), slot, payout, recipient, mint);
    }
}

/// What two batches owe together is what each owes.
pub proof fn lemma_owed_of_both(
    first: Seq<PayoutView>,
    second: Seq<PayoutView>,
    recipient: Seq<u8>,
    mint: Seq<u8>,
)
    ensures
        owed(first + second, recipient, mint) == owed(first, recipient, mint) + owed(
            second,
            recipient,
            mint,
        ),
    decreases second.len(),
{
    if second.len() == 0 {
        assert(first + second =~= first);
    } else {
        assert((first + second).drop_last() =~= first + second.drop_last());
        lemma_owed_of_both(first, second.drop_last(), recipient, mint);
    }
}

/// Queuing payouts leaves at least as many slots free as the ledger had
/// beyond those that the payouts need.
pub proof fn lemma_record_each_takes_slots(payouts: Seq<PayoutView>, batch: Seq<PayoutView>)
    ensures
        free_payout_slots(record_each(payouts, batch)) + payouts_due(batch) >= free_payout_slots(
            payouts,
        ),
    decreases batch.len(),
{
    if batch.len() > 0 {
        lemma_record_each_takes_slots(payouts, batch.drop_last());
        lemma_record_payout_takes_a_slot(record_each(payouts, batch.drop_last()), batch.last());
    }
}

/// A batch that the ledger has room for adds to what is owed exactly what
/// its payouts owe.
pub proof fn lemma_owed_after_batch(
    payouts: Seq<PayoutView>,
    batch: Seq<PayoutView>,
    recipient: Seq<u8>,
    mint: Seq<u8>,
)
    requires
        payouts_due(batch) <= free_payout_slots(payouts),
    ensures
        owed(record_each(payouts, batch), recipient, mint) == owed(payouts, recipient, mint)
            + owed(batch, recipient, mint),
    decreases batch.len(),
{
    if batch.len() > 0 {
        let before = record_each(payouts, batch.drop_last());
        let last = batch.last();
        lemma_owed_after_batch(payouts, batch.drop_last(), recipient, mint);
        lemma_record_each_takes_slots(payouts, batch.drop_last());
        lemma_record_payout_takes_a_slot(before, last);
        if last.amount > 0 {
            let slot = first_free_payout(before, 0);
            lemma_first_free_payout_in_range(before, 0);
            assert(record_payout(before, last) is Ok);
            lemma_owed_after_write(before, slot, last, recipient, mint);
        }
    }
}

/// The owners of resting orders are paid in the token of their side or in
/// collateral: in no other asset is anything owed for taking from a queue.
pub proof fn lemma_resting_payouts_owe_no_other_asset(
    queue: Seq<RestingOrder>,
    quantity: u64,
    price: u64,
    token_mint: Seq<u8>,
    collateral_mint: Seq<u8>,
    paid: Seq<PayoutView>,
    recipient: Seq<u8>,
    mint: Seq<u8>,
)
    requires
        mint != token_mint,
        mint != collateral_mint,
        consume_queue(queue, quantity, price, token_mint, collateral_mint, paid) is Ok,
    ensures
        owed(
            consume_queue(queue, quantity, price, token_mint, collateral_mint, paid)->Ok_0.1,
            recipient,
            mint,
        ) == owed(paid, recipient, mint),
    decreases quantity,
{
    if quantity == 0 || queue[0].amount == 0 {
    } else {
        let taken = min_u64(queue[0].amount, quantity);
        let payout = resting_payout(queue[0], taken, price, token_mint, collateral_mint);
        let rest = if taken == queue[0].amount {
            pop_front(queue)
        } else {
            reduce_front(queue, taken)
        };
        assert(paid.push(payout).drop_last() =~= paid);
        lemma_resting_payouts_owe_no_other_asset(
            rest,
            (quantity - taken) as u64,
            price,
            token_mint,
            collateral_mint,
            paid.push(payout),
            recipient,
            mint,
        );
    }
}

/// Crossing one price level queues for the incoming order, in the token it
/// buys, exactly the quantity that it has matched there.
pub proof fn lemma_level_owes_the_fill(book: Book, taker: Taker, inverse_price: u64, unmatched: u64)
    requires
        book.has_shape(),
        inverse_price <= 100,
        !taker.settles_in_collateral,
        !is_null_identity(taker.owner),
        taker.forward_mint() != taker.inverse_mint(),
        taker.forward_mint() != taker.collateral_mint,
        cross_level(book, taker, inverse_price, unmatched) is Ok,
    ensures
        ({
            let (crossed, left) = cross_level(book, taker, inverse_price, unmatched)->Ok_0;
            owed(crossed.payouts, taker.owner, taker.forward_mint()) == owed(
                book.payouts,
                taker.owner,
                taker.forward_mint(),
            ) + (unmatched - left)
        }),
{
    let level = inverse_price as int;
    let matched = min_u64(unmatched, book.buy_amounts(!taker.is_yes)[level]);
    lemma_cross_level_touches_one_level(book, taker, inverse_price, unmatched);
    if matched > 0 {
        let consumed = consume_queue(
            book.queues(!taker.is_yes)[level],
            matched,
            inverse_price,
            taker.inverse_mint(),
            taker.collateral_mint,
            Seq::empty(),
        );
        let paid = consumed->Ok_0.1;
        let own = taker_payouts(taker, inverse_price, matched)->Ok_0;
        let owner = taker.owner;
        let mint = taker.forward_mint();
        lemma_resting_payouts_owe_no_other_asset(
            book.queues(!taker.is_yes)[level],
            matched,
            inverse_price,
            taker.inverse_mint(),
            taker.collateral_mint,
            Seq::empty(),
            owner,
            mint,
        );
        assert(owed(Seq::<PayoutView>::empty(), owner, mint) == 0);
        lemma_owed_of_both(paid, own, owner, mint);
        assert(own.drop_last() =~= seq![own[0]]);
        assert(own.drop_last().drop_last() =~= Seq::<PayoutView>::empty());
        assert(owed(own, owner, mint) == matched) by {
            reveal_with_fuel(owed, 3);
        }
        lemma_owed_after_batch(book.payouts, paid + own, owner, mint);
    }
}

/// Crossing queues for the incoming order, in the token it buys, exactly the
/// quantity that it has matched.
pub proof fn lemma_cross_levels_owe_the_fills(book: Book, taker: Taker, top: int, unmatched: u64)
    requires
        book.has_shape(),
        -1 <= top <= 100,
        !taker.settles_in_collateral,
        !is_null_identity(taker.owner),
        taker.forward_mint() != taker.inverse_mint(),
        taker.forward_mint() != taker.collateral_mint,
    ensures
        ({
            let (crossed, left, _) = cross_levels(book, taker, top, unmatched);
            owed(crossed.payouts, taker.owner, taker.forward_mint()) == owed(
                book.payouts,
                taker.owner,
                taker.forward_mint(),
            ) + (unmatched - left)
        }),
    decreases top + 1,
{
    if top < 0 || top < taker.lowest_crossing_price() {
    } else {
        match cross_level(book, taker, top as u64, unmatched) {
            Err(_) => {},
            Ok((next, rest)) => {
                lemma_level_owes_the_fill(book, taker, top as u64, unmatched);
                lemma_cross_level_touches_one_level(book, taker, top as u64, unmatched);
                lemma_cross_levels_owe_the_fills(next, taker, top - 1, rest);
            },
        }
    }
}

/// Both legs of an order carry the same quantity: an order that settles in
/// the token it buys is owed, in that token, exactly the quantity that it has
/// matched, which is its size less what is left to rest. This holds where
/// the token it buys is neither the token of the other side nor the
/// collateral.
pub proof fn lemma_order_is_owed_what_it_matched(book: Book, taker: Taker, size: u64)
    requires
        book.has_shape(),
        !taker.settles_in_collateral,
        taker.forward_mint() != taker.inverse_mint(),
        taker.forward_mint() != taker.collateral_mint,
        match_and_place(book, taker, size).1 is Ok,
    ensures
        ({
            let (after, result) = match_and_place(book, taker, size);
            owed(after.payouts, taker.owner, taker.forward_mint()) == owed(
                book.payouts,
                taker.owner,
                taker.forward_mint(),
            ) + (size - result->Ok_0)
        }),
{
    lemma_cross_levels_owe_the_fills(book, taker, 100, size);
}

} // verus!
