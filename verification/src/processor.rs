use crate::book::{
    book_of, empty_payout, get_buy_amount, get_queue, null_identity, pop_front,
    same_outside_book,
    set_buy_amount, set_queue, PayoutView, PriceQueue, RestingOrder, MAX_PRICE,
    SETTLES_IN_COLLATERAL, SETTLES_IN_TOKEN,
};
use crate::consistency::{
    lemma_ledger_change_keeps_well_formed, lemma_match_and_place_keeps_well_formed,
    lemma_rest_order_keeps_well_formed,
};
use crate::error::BettingMarketError;
use crate::matching::{
    consume_and_pay, consume_queue, cross_levels, first_free_payout, first_free_slot,
    free_payout_slots, lemma_payouts_due_grows, lemma_record_each_keeps_length,
    lemma_record_payout_takes_a_slot, match_and_place, offer_trade, payouts_due, record_each,
    record_payout, record_payouts, reduce_front, rest_order, settlement_kind, taker_of,
    TradeFunding,
};
use crate::pubkey::{is_null_identity, Pubkey};
use crate::settlement::{
    next_due, oracle_result, owed_to, redemption, settlement_of, Redemption, Settlement,
    ORACLE_PRICE_SCALE, RESULT_NO, RESULT_UNRESOLVED, RESULT_YES,
};
use crate::state::{
    get_payout_at_index, get_u64_at_ptr_offset, get_u8_at_ptr_offset, packed,
    payout_exists_at_index, set_payout_at_index, set_u64_at_ptr_offset, set_u8_at_ptr_offset,
    u64_at, unchanged_outside, BettingMarket, BettingMarketView, Payout, BETTING_MARKET_LEN,
    MARKET_DATA_LEN, PAYOUT_LEDGER_END,
};
use vstd::bytes::spec_u64_to_le_bytes;
use vstd::prelude::*;

verus! {

/// The entries of a batch of payouts, as the ledger holds them.
pub open spec fn payout_views(batch: Seq<Payout>) -> Seq<PayoutView> {
    batch.map_values(|payout: Payout| payout@)
}

/// Whether a buffer holds a market record that can be overwritten: it has
/// the 138 bytes of a record, and its first byte is 0 or 1.
pub open spec fn record_can_be_written(bytes: Seq<u8>) -> bool {
    bytes.len() >= 138 && bytes[0] <= 1
}

/// `after` is `before` with the record of a new market in its first 138
/// bytes: initialized, unresolved, with strike price 0 and the given mints,
/// collateral account and judge.
pub open spec fn new_market_written(
    before: Seq<u8>,
    after: Seq<u8>,
    yes_token_mint: Seq<u8>,
    no_token_mint: Seq<u8>,
    usd_token_account: Seq<u8>,
    judge: Seq<u8>,
) -> bool {
    &&& unchanged_outside(before, after, 0, 138)
    &&& after.subrange(0, 138) == packed(
        BettingMarketView {
            is_initialized: true,
            result: 0,
            yes_token_mint,
            no_token_mint,
            usd_token_account,
            strike_price: 0,
            judge,
        },
    )
}

/// The operations of the market on its data buffer.
pub struct Processor;

impl Processor {
    /// Queues a payout of `payout_amount` of the asset `payout_mint` to
    /// `payout_user_account`, in the first free slot of the ledger.
    ///
    /// A payout of nothing is not queued. When no slot is free the payout is
    /// refused and the buffer is left as it was.
    pub fn add_payout(
        data: &mut [u8],
        payout_user_account: Pubkey,
        payout_mint: Pubkey,
        payout_amount: u64,
    ) -> (result: Result<(), BettingMarketError>)
        requires
            old(data).len() >= MARKET_DATA_LEN,
        ensures
            same_outside_book(old(data)@, final(data)@),
            match record_payout(
                book_of(old(data)@).payouts,
                (Payout {
                    recipient: payout_user_account,
                    mint: payout_mint,
                    amount: payout_amount,
                })@,
            ) {
                Ok(payouts) => result is Ok && book_of(final(data)@) == book_of(
                    old(data)@,
                ).with_payouts(payouts),
                Err(e) => result == Err::<(), BettingMarketError>(e) && final(data)@ == old(data)@,
            },
            payout_amount == 0 ==> final(data)@ == old(data)@,
            book_of(old(data)@).well_formed() ==> book_of(final(data)@).well_formed(),
    {
        if payout_amount == 0 {
            return Ok(());
        }
        let ghost payouts = book_of(data@).payouts;
        let mut i: usize = 0;
        while i < 100
            invariant
                i <= 100,
                payout_amount > 0,
                data.len() >= MARKET_DATA_LEN,
                data@ == old(data)@,
                payouts == book_of(data@).payouts,
                first_free_payout(payouts, 0) == first_free_payout(payouts, i as int),
            decreases 100 - i,
        {
            if !payout_exists_at_index(data, i) {
                set_payout_at_index(data, i, payout_user_account, payout_mint, payout_amount);
                proof {
                    if book_of(old(data)@).well_formed() {
                        lemma_ledger_change_keeps_well_formed(
                            book_of(old(data)@),
                            book_of(data@).payouts,
                        );
                    }
                }
                return Ok(());
            }
            i += 1;
        }
        Err(BettingMarketError::CapacityExceeded)
    }

    /// Queues a batch of payouts, all or none: the batch is refused, and the
    /// buffer left as it was, when the ledger has fewer free slots than the
    /// batch has payouts of more than nothing.
    pub fn add_payouts(data: &mut [u8], batch: &Vec<Payout>) -> (result: Result<
        (),
        BettingMarketError,
    >)
        requires
            old(data).len() >= MARKET_DATA_LEN,
        ensures
            same_outside_book(old(data)@, final(data)@),
            match record_payouts(book_of(old(data)@).payouts, payout_views(batch@)) {
                Ok(payouts) => result is Ok && book_of(final(data)@) == book_of(
                    old(data)@,
                ).with_payouts(payouts),
                Err(e) => result == Err::<(), BettingMarketError>(e) && final(data)@ == old(data)@,
            },
            book_of(old(data)@).well_formed() ==> book_of(final(data)@).well_formed(),
    {
        let ghost payouts = book_of(data@).payouts;
        let ghost views = payout_views(batch@);
        proof {
            lemma_record_each_keeps_length(payouts, views);
        }
        let mut free: usize = 0;
        let mut i: usize = 0;
        while i < 100
            invariant
                i <= 100,
                data.len() >= MARKET_DATA_LEN,
                payouts == book_of(data@).payouts,
                free == free_payout_slots(payouts.take(i as int)),
                free <= i,
            decreases 100 - i,
        {
            proof {
                assert(payouts.take(i + 1).drop_last() =~= payouts.take(i as int));
            }
            if !payout_exists_at_index(data, i) {
                free += 1;
            }
            i += 1;
        }
        assert(payouts.take(100) =~= payouts);
        let mut due: usize = 0;
        let mut k: usize = 0;
        while k < batch.len()
            invariant
                k <= batch.len(),
                views == payout_views(batch@),
                due == payouts_due(views.take(k as int)),
                due <= k,
            decreases batch.len() - k,
        {
            proof {
                assert(views.take(k + 1).drop_last() =~= views.take(k as int));
            }
            if batch[k].amount > 0 {
                due += 1;
            }
            k += 1;
        }
        assert(views.take(batch.len() as int) =~= views);
        if due > free {
            return Err(BettingMarketError::CapacityExceeded);
        }
        let mut k: usize = 0;
        while k < batch.len()
            invariant
                k <= batch.len(),
                data.len() >= MARKET_DATA_LEN,
                views == payout_views(batch@),
                payouts == book_of(old(data)@).payouts,
                same_outside_book(old(data)@, data@),
                book_of(data@) == book_of(old(data)@).with_payouts(
                    record_each(payouts, views.take(k as int)),
                ),
                free_payout_slots(book_of(data@).payouts) + payouts_due(views.take(k as int))
                    >= payouts_due(views),
            decreases batch.len() - k,
        {
            let ghost before = book_of(data@).payouts;
            proof {
                assert(views.take(k + 1).drop_last() =~= views.take(k as int));
                assert(views.take(k + 1).last() == batch[k as int]@);
                lemma_payouts_due_grows(views, k as int);
                lemma_record_payout_takes_a_slot(before, batch[k as int]@);
            }
            let payout = batch[k];
            let added = Self::add_payout(data, payout.recipient, payout.mint, payout.amount);
            assert(added is Ok);
            k += 1;
        }
        assert(views.take(batch.len() as int) =~= views);
        proof {
            if book_of(old(data)@).well_formed() {
                lemma_ledger_change_keeps_well_formed(book_of(old(data)@), book_of(data@).payouts);
            }
        }
        Ok(())
    }

    /// Leaves `order_size` resting for `user_account` on one side at `price`:
    /// the order takes the first free slot of the queue of that side at that
    /// price, and the quantity resting there grows by `order_size`. The other
    /// side and the other prices are left as they are.
    ///
    /// An order of nothing is not recorded. The order is refused, and the
    /// buffer left as it was, when the price is above 100, the owner is the
    /// all-zero identity, the quantity resting would overflow, or all ten
    /// slots of the queue are taken.
    pub fn add_order_to_orderbook(
        user_account: &Pubkey,
        data: &mut [u8],
        is_yes: bool,
        price: u64,
        order_size: u64,
        should_payout_in_usd: bool,
    ) -> (result: Result<(), BettingMarketError>)
        requires
            old(data).len() >= MARKET_DATA_LEN,
        ensures
            same_outside_book(old(data)@, final(data)@),
            match rest_order(
                book_of(old(data)@),
                is_yes,
                price,
                user_account@,
                should_payout_in_usd,
                order_size,
            ) {
                Ok(book) => result is Ok && book_of(final(data)@) == book,
                Err(e) => result == Err::<(), BettingMarketError>(e) && final(data)@ == old(data)@,
            },
            order_size == 0 ==> final(data)@ == old(data)@,
            book_of(old(data)@).well_formed() ==> book_of(final(data)@).well_formed(),
    {
        proof {
            if book_of(data@).well_formed() {
                lemma_rest_order_keeps_well_formed(
                    book_of(data@),
                    is_yes,
                    price,
                    user_account@,
                    should_payout_in_usd,
                    order_size,
                );
            }
        }
        if order_size == 0 {
            return Ok(());
        }
        if price > MAX_PRICE {
            return Err(BettingMarketError::InvalidPrice);
        }
        if user_account.is_null() {
            return Err(BettingMarketError::NullOwner);
        }
        let current_buy_amount = get_buy_amount(data, is_yes, price);
        let updated_buy_amount = match current_buy_amount.checked_add(order_size) {
            Some(sum) => sum,
            None => {
                return Err(BettingMarketError::AmountOverflow);
            },
        };
        let mut queue = get_queue(data, is_yes, price);
        let ghost resting = queue@;
        let mut slot: usize = 0;
        while slot < 10 && !queue.owners[slot].is_null()
            invariant
                slot <= 10,
                queue@ == resting,
                first_free_slot(resting, 0) == first_free_slot(resting, slot as int),
            decreases 10 - slot,
        {
            slot += 1;
        }
        if slot == 10 {
            return Err(BettingMarketError::CapacityExceeded);
        }
        queue.owners[slot] = *user_account;
        queue.kinds[slot] = if should_payout_in_usd {
            SETTLES_IN_COLLATERAL
        } else {
            SETTLES_IN_TOKEN
        };
        queue.amounts[slot] = order_size;
        proof {
            assert(queue@ =~= resting.update(
                slot as int,
                RestingOrder {
                    owner: user_account@,
                    kind: settlement_kind(should_payout_in_usd),
                    amount: order_size,
                },
            ));
        }
        set_buy_amount(data, is_yes, price, updated_buy_amount);
        set_queue(data, is_yes, price, &queue);
        Ok(())
    }

    /// Takes up to `quantity` from the front of a queue, oldest order first,
    /// and adds to `batch` one payout for the owner of each order touched.
    /// An order that is used up leaves the queue.
    pub fn take_from_queue(
        queue: PriceQueue,
        quantity: u64,
        price: u64,
        token_mint: Pubkey,
        usd_token_mint: Pubkey,
        batch: Vec<Payout>,
    ) -> (result: Result<(PriceQueue, Vec<Payout>), BettingMarketError>)
        requires
            price <= MAX_PRICE,
        ensures
            match consume_queue(
                queue@,
                quantity,
                price,
                token_mint@,
                usd_token_mint@,
                payout_views(batch@),
            ) {
                Ok((left, paid)) => result is Ok && result->Ok_0.0@ == left && payout_views(
                    result->Ok_0.1@,
                ) == paid,
                Err(e) => result is Err && result->Err_0 == e,
            },
    {
        let mut left = queue;
        let mut paid = batch;
        let mut unmatched = quantity;
        while unmatched > 0 && left.amounts[0] > 0
            invariant
                price <= MAX_PRICE,
                consume_queue(
                    left@,
                    unmatched,
                    price,
                    token_mint@,
                    usd_token_mint@,
                    payout_views(paid@),
                ) == consume_queue(
                    queue@,
                    quantity,
                    price,
                    token_mint@,
                    usd_token_mint@,
                    payout_views(batch@),
                ),
            decreases unmatched,
        {
            let ghost front_queue = left@;
            let ghost paid_before = payout_views(paid@);
            let front = left.amounts[0];
            let taken = if front <= unmatched {
                front
            } else {
                unmatched
            };
            let payout = if left.kinds[0] == SETTLES_IN_COLLATERAL {
                match taken.checked_mul(MAX_PRICE - price) {
                    Some(amount) => Payout { recipient: left.owners[0], mint: usd_token_mint, amount },
                    None => {
                        assert(taken * (100 - price) > u64::MAX);
                        return Err(BettingMarketError::AmountOverflow);
                    },
                }
            } else {
                Payout { recipient: left.owners[0], mint: token_mint, amount: taken }
            };
            paid.push(payout);
            unmatched -= taken;
            left.amounts[0] = front - taken;
            proof {
                assert(left@ =~= reduce_front(front_queue, taken));
                assert(payout_views(paid@) =~= paid_before.push(payout@));
            }
            if taken == front {
                let ghost reduced = left@;
                left.pop_front();
                proof {
                    assert(pop_front(reduced) =~= pop_front(front_queue));
                }
            }
        }
        Ok((left, paid))
    }

    /// Takes up to `order_size` from the front of the queue of one side at
    /// `order_price`, oldest order first, and queues one payout for the owner
    /// of each order touched: the quantity taken from it in
    /// `order_token_mint`, or, for an order that settles in collateral,
    /// `100 - order_price` for each unit in `usd_token_mint`. An order that is
    /// used up leaves the queue.
    ///
    /// The quantity resting on the side is left as it is: the caller lowers
    /// it by what it has matched. All is refused, and the buffer left as it
    /// was, when the price is above 100, a payout overflows, or the ledger has
    /// too few free slots.
    pub fn match_orders_at_price_fifo(
        data: &mut [u8],
        is_yes: bool,
        order_size: u64,
        order_price: u64,
        order_token_mint: Pubkey,
        usd_token_mint: Pubkey,
    ) -> (result: Result<(), BettingMarketError>)
        requires
            old(data).len() >= MARKET_DATA_LEN,
        ensures
            same_outside_book(old(data)@, final(data)@),
            match consume_and_pay(
                book_of(old(data)@),
                is_yes,
                order_size,
                order_price,
                order_token_mint@,
                usd_token_mint@,
            ) {
                Ok(book) => result is Ok && book_of(final(data)@) == book,
                Err(e) => result == Err::<(), BettingMarketError>(e) && final(data)@ == old(data)@,
            },
    {
        if order_price > MAX_PRICE {
            return Err(BettingMarketError::InvalidPrice);
        }
        let resting = get_queue(data, is_yes, order_price);
        let batch: Vec<Payout> = Vec::new();
        assert(payout_views(batch@) =~= Seq::empty());
        let (queue, batch) = match Self::take_from_queue(
            resting,
            order_size,
            order_price,
            order_token_mint,
            usd_token_mint,
            batch,
        ) {
            Ok(taken) => taken,
            Err(e) => {
                return Err(e);
            },
        };
        match Self::add_payouts(data, &batch) {
            Ok(()) => {},
            Err(e) => {
                return Err(e);
            },
        }
        set_queue(data, is_yes, order_price, &queue);
        proof {
            let before = book_of(old(data)@);
            assert(book_of(data@) =~= before.with_queue(
                is_yes,
                order_price as int,
                queue@,
            ).with_payouts(record_each(before.payouts, payout_views(batch@))));
        }
        Ok(())
    }

    /// Crosses an incoming order with the other side at one price: takes what
    /// can be matched from the queue of the other side there, pays the owners of the orders
    /// touched and the incoming order, and lowers the quantity resting on the
    /// other side. Gives the quantity that is still unmatched.
    ///
    /// The level is crossed whole or not at all: when a payout overflows or
    /// the ledger has too few free slots, the buffer is left as it was.
    fn cross_level(
        data: &mut [u8],
        is_yes: bool,
        limit_price: u64,
        order_payout_in_usd: bool,
        user_account: &Pubkey,
        inverse_buy_price: u64,
        unmatched_amount: u64,
        yes_token_mint: Pubkey,
        no_token_mint: Pubkey,
        usd_token_mint: Pubkey,
    ) -> (result: Result<u64, BettingMarketError>)
        requires
            old(data).len() >= MARKET_DATA_LEN,
            limit_price <= MAX_PRICE,
            MAX_PRICE - limit_price <= inverse_buy_price <= MAX_PRICE,
        ensures
            same_outside_book(old(data)@, final(data)@),
            match crate::matching::cross_level(
                book_of(old(data)@),
                taker_of(
                    is_yes,
                    limit_price,
                    order_payout_in_usd,
                    user_account@,
                    yes_token_mint@,
                    no_token_mint@,
                    usd_token_mint@,
                ),
                inverse_buy_price,
                unmatched_amount,
            ) {
                Ok((book, left)) => result == Ok::<u64, BettingMarketError>(left) && book_of(
                    final(data)@,
                ) == book,
                Err(e) => result == Err::<u64, BettingMarketError>(e) && final(data)@ == old(
                    data,
                )@,
            },
    {
        let ghost taker = taker_of(
            is_yes,
            limit_price,
            order_payout_in_usd,
            user_account@,
            yes_token_mint@,
            no_token_mint@,
            usd_token_mint@,
        );
        let (forward_token_mint, inverse_token_mint) = if is_yes {
            (yes_token_mint, no_token_mint)
        } else {
            (no_token_mint, yes_token_mint)
        };
        let amount_at_inverse_buy_price = get_buy_amount(data, !is_yes, inverse_buy_price);
        let matched_at_price = if unmatched_amount <= amount_at_inverse_buy_price {
            unmatched_amount
        } else {
            amount_at_inverse_buy_price
        };
        if matched_at_price == 0 {
            return Ok(unmatched_amount);
        }
        let resting = get_queue(data, !is_yes, inverse_buy_price);
        let batch: Vec<Payout> = Vec::new();
        assert(payout_views(batch@) =~= Seq::empty());
        let (queue, mut batch) = match Self::take_from_queue(
            resting,
            matched_at_price,
            inverse_buy_price,
            inverse_token_mint,
            usd_token_mint,
            batch,
        ) {
            Ok(taken) => taken,
            Err(e) => {
                return Err(e);
            },
        };
        let ghost paid = payout_views(batch@);
        let forward_buy_price = MAX_PRICE - inverse_buy_price;
        let forward_buy_price_differential = limit_price - forward_buy_price;
        if order_payout_in_usd {
            let amount = match matched_at_price.checked_mul(forward_buy_price) {
                Some(amount) => amount,
                None => {
                    assert(matched_at_price * (100 - inverse_buy_price) > u64::MAX);
                    return Err(BettingMarketError::AmountOverflow);
                },
            };
            let payout = Payout { recipient: *user_account, mint: usd_token_mint, amount };
            batch.push(payout);
            proof {
                assert(payout_views(batch@) =~= paid + seq![payout@]);
            }
        } else {
            let amount = match matched_at_price.checked_mul(forward_buy_price_differential) {
                Some(amount) => amount,
                None => {
                    assert(matched_at_price * (limit_price - (100 - inverse_buy_price))
                        > u64::MAX);
                    return Err(BettingMarketError::AmountOverflow);
                },
            };
            let bought = Payout {
                recipient: *user_account,
                mint: forward_token_mint,
                amount: matched_at_price,
            };
            let refund = Payout { recipient: *user_account, mint: usd_token_mint, amount };
            batch.push(bought);
            batch.push(refund);
            proof {
                assert(payout_views(batch@) =~= paid + seq![bought@, refund@]);
            }
        }
        match Self::add_payouts(data, &batch) {
            Ok(()) => {},
            Err(e) => {
                return Err(e);
            },
        }
        set_buy_amount(
            data,
            !is_yes,
            inverse_buy_price,
            amount_at_inverse_buy_price - matched_at_price,
        );
        set_queue(data, !is_yes, inverse_buy_price, &queue);
        proof {
            let before = book_of(old(data)@);
            let expected = crate::matching::cross_level(
                before,
                taker,
                inverse_buy_price,
                unmatched_amount,
            );
            assert(expected is Ok);
            assert(book_of(data@) =~= expected->Ok_0.0);
        }
        Ok(unmatched_amount - matched_at_price)
    }

    /// Executes one order: crosses it with the other side, best price first,
    /// from price 100 down to `100 - limit_price`, then leaves what is
    /// unmatched resting at `limit_price`. Gives the quantity left resting.
    ///
    /// The order is refused when its price is above 100 or its owner is the
    /// all-zero identity. Each price level is crossed whole or not at all; an
    /// error at one level, or when resting, stops the order there and leaves
    /// the levels crossed before it crossed.
    pub fn match_and_place_limit_order(
        is_yes: bool,
        order_size: u64,
        limit_price: u64,
        order_payout_in_usd: bool,
        user_account: &Pubkey,
        data: &mut [u8],
        yes_token_mint: Pubkey,
        no_token_mint: Pubkey,
        usd_token_mint: Pubkey,
    ) -> (result: Result<u64, BettingMarketError>)
        requires
            old(data).len() >= MARKET_DATA_LEN,
        ensures
            same_outside_book(old(data)@, final(data)@),
            book_of(final(data)@) == match_and_place(
                book_of(old(data)@),
                taker_of(
                    is_yes,
                    limit_price,
                    order_payout_in_usd,
                    user_account@,
                    yes_token_mint@,
                    no_token_mint@,
                    usd_token_mint@,
                ),
                order_size,
            ).0,
            result == match_and_place(
                book_of(old(data)@),
                taker_of(
                    is_yes,
                    limit_price,
                    order_payout_in_usd,
                    user_account@,
                    yes_token_mint@,
                    no_token_mint@,
                    usd_token_mint@,
                ),
                order_size,
            ).1,
            book_of(old(data)@).well_formed() ==> book_of(final(data)@).well_formed(),
    {
        proof {
            if book_of(data@).well_formed() {
                lemma_match_and_place_keeps_well_formed(
                    book_of(data@),
                    taker_of(
                        is_yes,
                        limit_price,
                        order_payout_in_usd,
                        user_account@,
                        yes_token_mint@,
                        no_token_mint@,
                        usd_token_mint@,
                    ),
                    order_size,
                );
            }
        }
        if limit_price > MAX_PRICE {
            return Err(BettingMarketError::InvalidPrice);
        }
        if user_account.is_null() {
            return Err(BettingMarketError::NullOwner);
        }
        let ghost taker = taker_of(
            is_yes,
            limit_price,
            order_payout_in_usd,
            user_account@,
            yes_token_mint@,
            no_token_mint@,
            usd_token_mint@,
        );
        let lowest = MAX_PRICE - limit_price;
        let mut level: u64 = MAX_PRICE + 1;
        let mut unmatched_amount = order_size;
        while level > lowest
            invariant
                limit_price <= MAX_PRICE,
                !is_null_identity(user_account@),
                lowest == MAX_PRICE - limit_price,
                lowest <= level <= MAX_PRICE + 1,
                data.len() >= MARKET_DATA_LEN,
                same_outside_book(old(data)@, data@),
                taker == taker_of(
                    is_yes,
                    limit_price,
                    order_payout_in_usd,
                    user_account@,
                    yes_token_mint@,
                    no_token_mint@,
                    usd_token_mint@,
                ),
                cross_levels(book_of(data@), taker, level - 1, unmatched_amount) == cross_levels(
                    book_of(old(data)@),
                    taker,
                    100,
                    order_size,
                ),
                book_of(old(data)@).well_formed() ==> match_and_place(
                    book_of(old(data)@),
                    taker,
                    order_size,
                ).0.well_formed(),
            decreases level,
        {
            level -= 1;
            match Self::cross_level(
                data,
                is_yes,
                limit_price,
                order_payout_in_usd,
                user_account,
                level,
                unmatched_amount,
                yes_token_mint,
                no_token_mint,
                usd_token_mint,
            ) {
                Ok(left) => {
                    unmatched_amount = left;
                },
                Err(e) => {
                    return Err(e);
                },
            }
        }
        match Self::add_order_to_orderbook(
            user_account,
            data,
            is_yes,
            limit_price,
            unmatched_amount,
            order_payout_in_usd,
        ) {
            Ok(()) => Ok(unmatched_amount),
            Err(e) => Err(e),
        }
    }

    /// How a submission of `amount` at `price` is paid for by a user who
    /// holds `inverse_balance` of the other side's token: that token is burnt
    /// first, as far as the balance goes, and the rest is bought at `price` a
    /// unit in collateral.
    pub fn trade_funding(price: u64, amount: u64, inverse_balance: u64) -> (result: Result<
        TradeFunding,
        BettingMarketError,
    >)
        ensures
            result == crate::matching::trade_funding(price, amount, inverse_balance),
    {
        if price > MAX_PRICE {
            return Err(BettingMarketError::InvalidPrice);
        }
        let inverse_collateralized_amount = if inverse_balance <= amount {
            inverse_balance
        } else {
            amount
        };
        let usd_collateralized_amount = amount - inverse_collateralized_amount;
        match price.checked_mul(usd_collateralized_amount) {
            Some(usd_amount) => Ok(
                TradeFunding {
                    inverse_collateralized_amount,
                    usd_collateralized_amount,
                    usd_amount,
                },
            ),
            None => Err(BettingMarketError::AmountOverflow),
        }
    }

    /// Executes the submission of `amount` at `price` on one side by
    /// `user_account`, who holds `inverse_balance` of the other side's token,
    /// as two orders: first the part paid for with that token, which settles
    /// in collateral, then the part paid for in collateral, which settles in
    /// the token bought. Gives the funding that is to be collected.
    ///
    /// A submission whose funding cannot be computed changes nothing. After
    /// that, an error stops the submission where it occurs.
    pub fn offer_trade(
        data: &mut [u8],
        user_account: &Pubkey,
        is_yes: bool,
        price: u64,
        amount: u64,
        inverse_balance: u64,
        yes_token_mint: Pubkey,
        no_token_mint: Pubkey,
        usd_token_mint: Pubkey,
    ) -> (result: Result<TradeFunding, BettingMarketError>)
        requires
            old(data).len() >= MARKET_DATA_LEN,
        ensures
            same_outside_book(old(data)@, final(data)@),
            book_of(final(data)@) == offer_trade(
                book_of(old(data)@),
                is_yes,
                price,
                amount,
                inverse_balance,
                user_account@,
                yes_token_mint@,
                no_token_mint@,
                usd_token_mint@,
            ).0,
            result == offer_trade(
                book_of(old(data)@),
                is_yes,
                price,
                amount,
                inverse_balance,
                user_account@,
                yes_token_mint@,
                no_token_mint@,
                usd_token_mint@,
            ).1,
            crate::matching::trade_funding(price, amount, inverse_balance) is Err ==> final(data)@
                == old(data)@,
            book_of(old(data)@).well_formed() ==> book_of(final(data)@).well_formed(),
    {
        let funding = match Self::trade_funding(price, amount, inverse_balance) {
            Ok(funding) => funding,
            Err(e) => {
                return Err(e);
            },
        };
        match Self::match_and_place_limit_order(
            is_yes,
            funding.inverse_collateralized_amount,
            price,
            true,
            user_account,
            data,
            yes_token_mint,
            no_token_mint,
            usd_token_mint,
        ) {
            Ok(_) => {},
            Err(e) => {
                return Err(e);
            },
        }
        match Self::match_and_place_limit_order(
            is_yes,
            funding.usd_collateralized_amount,
            price,
            false,
            user_account,
            data,
            yes_token_mint,
            no_token_mint,
            usd_token_mint,
        ) {
            Ok(_) => Ok(funding),
            Err(e) => Err(e),
        }
    }

    /// Whether slot `index` of the ledger holds a payout queued for
    /// `user_account`, and if so how it is to be paid: a payout in
    /// `usd_token_mint` is transferred, one in `yes_token_mint` or
    /// `no_token_mint` is minted, and one in any other asset is not paid.
    ///
    /// Gives `None` where the slot holds nothing for the user, `Some(None)`
    /// where it holds a payout that is not paid, and `Some(Some(..))` with
    /// the payment where it holds one that is. The buffer is only read: the
    /// slot is cleared by `clear_payout`, once the payment has been made.
    pub fn payout_due_at(
        data: &[u8],
        index: usize,
        user_account: &Pubkey,
        usd_token_mint: &Pubkey,
        yes_token_mint: &Pubkey,
        no_token_mint: &Pubkey,
    ) -> (due: Option<Option<Settlement>>)
        requires
            data.len() >= PAYOUT_LEDGER_END,
            index < 100,
        ensures
            due == (if owed_to(book_of(data@).payouts[index as int], user_account@) {
                Some(
                    settlement_of(
                        book_of(data@).payouts[index as int],
                        usd_token_mint@,
                        yes_token_mint@,
                        no_token_mint@,
                    ),
                )
            } else {
                None
            }),
    {
        if !payout_exists_at_index(data, index) {
            return None;
        }
        let (payout_user_account, payout_mint, payout_amount) = get_payout_at_index(data, index);
        proof {
            Pubkey::lemma_eq_iff_same_bytes(payout_user_account, *user_account);
            Pubkey::lemma_eq_iff_same_bytes(payout_mint, *usd_token_mint);
            Pubkey::lemma_eq_iff_same_bytes(payout_mint, *yes_token_mint);
            Pubkey::lemma_eq_iff_same_bytes(payout_mint, *no_token_mint);
        }
        if payout_user_account != *user_account {
            None
        } else if payout_mint == *usd_token_mint {
            Some(Some(Settlement::TransferCollateral { amount: payout_amount }))
        } else if payout_mint == *yes_token_mint {
            Some(Some(Settlement::MintYes { amount: payout_amount }))
        } else if payout_mint == *no_token_mint {
            Some(Some(Settlement::MintNo { amount: payout_amount }))
        } else {
            Some(None)
        }
    }

    /// Scans the ledger from slot `start` on, in the order of the slots, for
    /// the next payout queued for `user_account`: gives its slot and how it
    /// is to be paid, as `payout_due_at` says, or `None` where no slot from
    /// `start` on holds anything for the user. The buffer is only read.
    ///
    /// Started at 0 and again behind each slot found, it visits every payout
    /// of the user once, in the order of the slots.
    pub fn next_payout_due(
        data: &[u8],
        start: usize,
        user_account: &Pubkey,
        usd_token_mint: &Pubkey,
        yes_token_mint: &Pubkey,
        no_token_mint: &Pubkey,
    ) -> (next: Option<(usize, Option<Settlement>)>)
        requires
            data.len() >= PAYOUT_LEDGER_END,
        ensures
            next == next_due(
                book_of(data@).payouts,
                start as int,
                user_account@,
                usd_token_mint@,
                yes_token_mint@,
                no_token_mint@,
            ),
    {
        let ghost payouts = book_of(data@).payouts;
        let mut index = start;
        while index < 100
            invariant
                data.len() >= PAYOUT_LEDGER_END,
                payouts == book_of(data@).payouts,
                payouts.len() == 100,
                start <= index,
                next_due(
                    payouts,
                    index as int,
                    user_account@,
                    usd_token_mint@,
                    yes_token_mint@,
                    no_token_mint@,
                ) == next_due(
                    payouts,
                    start as int,
                    user_account@,
                    usd_token_mint@,
                    yes_token_mint@,
                    no_token_mint@,
                ),
            decreases 100 - index,
        {
            match Self::payout_due_at(
                data,
                index,
                user_account,
                usd_token_mint,
                yes_token_mint,
                no_token_mint,
            ) {
                Some(payment) => {
                    return Some((index, payment));
                },
                None => {},
            }
            index += 1;
        }
        None
    }

    /// Clears slot `index` of the ledger: the payout that it held is no
    /// longer queued, and the slot is free again. Everything else is left as
    /// it is.
    pub fn clear_payout(data: &mut [u8], index: usize)
        requires
            old(data).len() >= MARKET_DATA_LEN,
            index < 100,
        ensures
            same_outside_book(old(data)@, final(data)@),
            book_of(final(data)@) == book_of(old(data)@).with_payouts(
                book_of(old(data)@).payouts.update(index as int, empty_payout()),
            ),
            book_of(old(data)@).well_formed() ==> book_of(final(data)@).well_formed(),
    {
        let null = Pubkey::null();
        proof {
            assert(null@ =~= null_identity());
        }
        set_payout_at_index(data, index, null, null, 0);
        proof {
            if book_of(old(data)@).well_formed() {
                lemma_ledger_change_keeps_well_formed(book_of(old(data)@), book_of(data@).payouts);
            }
        }
    }

    /// Whether the market record in `data` holds a result: yes or no.
    pub fn is_decided(data: &[u8]) -> (decided: bool)
        requires
            data.len() >= BETTING_MARKET_LEN,
        ensures
            decided == (data@[1] == RESULT_YES || data@[1] == RESULT_NO),
    {
        let market_result = get_u8_at_ptr_offset(data, 1);
        market_result == RESULT_YES || market_result == RESULT_NO
    }

    /// What a user who holds `user_yes_token_amount` and
    /// `user_no_token_amount` redeems, given the result that the market
    /// record in `data` holds: nothing while the market is unresolved;
    /// otherwise both balances are burnt and each token of the winning side
    /// is worth 100 of collateral.
    pub fn redeem(
        data: &[u8],
        user_yes_token_amount: u64,
        user_no_token_amount: u64,
    ) -> (result: Result<Option<Redemption>, BettingMarketError>)
        requires
            data.len() >= BETTING_MARKET_LEN,
        ensures
            result == redemption(data@[1], user_yes_token_amount, user_no_token_amount),
    {
        let market_result = get_u8_at_ptr_offset(data, 1);
        if market_result == RESULT_YES || market_result == RESULT_NO {
            let winning = if market_result == RESULT_YES {
                user_yes_token_amount
            } else {
                user_no_token_amount
            };
            match winning.checked_mul(100) {
                Some(usd_transfer_amount) => Ok(
                    Some(
                        Redemption {
                            burn_yes: user_yes_token_amount,
                            burn_no: user_no_token_amount,
                            usd_transfer_amount,
                        },
                    ),
                ),
                None => Err(BettingMarketError::AmountOverflow),
            }
        } else {
            Ok(None)
        }
    }

    /// Sets the result of the market by hand: 0 unresolved, 1 yes, 2 no. Any
    /// other result is refused.
    pub fn process_judge_betting_market_manually(data: &mut [u8], result: u64) -> (outcome: Result<
        (),
        BettingMarketError,
    >)
        requires
            old(data).len() >= BETTING_MARKET_LEN,
        ensures
            result <= 2 ==> outcome is Ok && final(data)@ == old(data)@.update(1, result as u8),
            result > 2 ==> outcome == Err::<(), BettingMarketError>(
                BettingMarketError::InvalidInstruction,
            ) && final(data)@ == old(data)@,
    {
        if result > 2 {
            return Err(BettingMarketError::InvalidInstruction);
        }
        set_u8_at_ptr_offset(data, 1, result as u8);
        Ok(())
    }

    /// Sets the result of the market from the oracle's price: yes when the
    /// price is above the strike price of the market record, no otherwise.
    /// Gives the result. A strike price too high to compare is refused.
    pub fn process_judge_betting_market_oracle(data: &mut [u8], oracle_price: i64) -> (outcome:
        Result<u8, BettingMarketError>)
        requires
            old(data).len() >= BETTING_MARKET_LEN,
        ensures
            outcome == oracle_result(u64_at(old(data)@, 98), oracle_price),
            match outcome {
                Ok(result) => final(data)@ == old(data)@.update(1, result),
                Err(_) => final(data)@ == old(data)@,
            },
    {
        let strike_price = get_u64_at_ptr_offset(data, 98);
        let threshold = match strike_price.checked_mul(ORACLE_PRICE_SCALE) {
            Some(threshold) => threshold,
            None => {
                return Err(BettingMarketError::AmountOverflow);
            },
        };
        if threshold > 0x7fff_ffff_ffff_ffff {
            return Err(BettingMarketError::AmountOverflow);
        }
        let betting_market_result = if oracle_price > threshold as i64 {
            RESULT_YES
        } else {
            RESULT_NO
        };
        set_u8_at_ptr_offset(data, 1, betting_market_result);
        Ok(betting_market_result)
    }

    /// Sets the strike price of the market.
    pub fn process_set_strike_price(data: &mut [u8], strike_price: u64)
        requires
            old(data).len() >= BETTING_MARKET_LEN,
        ensures
            unchanged_outside(old(data)@, final(data)@, 98, 106),
            final(data)@.subrange(98, 106) == spec_u64_to_le_bytes(strike_price),
            u64_at(final(data)@, 98) == strike_price,
    {
        set_u64_at_ptr_offset(data, 98, strike_price);
    }

    /// Writes the record of a new market to the first 138 bytes of `data`:
    /// initialized, unresolved, with strike price 0 and the given mints,
    /// collateral account and judge.
    ///
    /// Refused, with the buffer left as it was, when `data` has fewer than
    /// 138 bytes or its first byte is neither 0 nor 1.
    pub fn init_betting_market(
        data: &mut [u8],
        yes_token_mint: &Pubkey,
        no_token_mint: &Pubkey,
        usd_token_account: &Pubkey,
        judge: &Pubkey,
    ) -> (outcome: Result<(), BettingMarketError>)
        ensures
            match outcome {
                Ok(()) => record_can_be_written(old(data)@) && new_market_written(
                    old(data)@,
                    final(data)@,
                    yes_token_mint@,
                    no_token_mint@,
                    usd_token_account@,
                    judge@,
                ),
                Err(e) => e == BettingMarketError::InvalidAccountData && !record_can_be_written(
                    old(data)@,
                ) && final(data)@ == old(data)@,
            },
    {
        if data.len() < BETTING_MARKET_LEN {
            return Err(BettingMarketError::InvalidAccountData);
        }
        let mut betting_market_data = match BettingMarket::unpack_from_slice(data) {
            Ok(market) => market,
            Err(e) => {
                return Err(e);
            },
        };
        betting_market_data.is_initialized = true;
        betting_market_data.result = RESULT_UNRESOLVED;
        betting_market_data.yes_token_mint = *yes_token_mint;
        betting_market_data.no_token_mint = *no_token_mint;
        betting_market_data.usd_token_account = *usd_token_account;
        betting_market_data.strike_price = 0;
        betting_market_data.judge = *judge;
        betting_market_data.pack_into_slice(data);
        Ok(())
    }
}

} // verus!
