use crate::book::{
    pop_front, Book, PayoutView, RestingOrder, SETTLES_IN_COLLATERAL, SETTLES_IN_TOKEN,
};
use crate::error::BettingMarketError;
use crate::pubkey::is_null_identity;
use vstd::prelude::*;

verus! {

/// An incoming order: who places it, on which side, at what limit price and
/// how it is settled, with the three assets of the market.
pub struct Taker {
    pub is_yes: bool,
    pub limit_price: u64,
    pub settles_in_collateral: bool,
    pub owner: Seq<u8>,
    pub yes_mint: Seq<u8>,
    pub no_mint: Seq<u8>,
    pub collateral_mint: Seq<u8>,
}

impl Taker {
    /// The token that the order buys.
    pub open spec fn forward_mint(self) -> Seq<u8> {
        if self.is_yes {
            self.yes_mint
        } else {
            self.no_mint
        }
    }

    /// The token of the other side.
    pub open spec fn inverse_mint(self) -> Seq<u8> {
        if self.is_yes {
            self.no_mint
        } else {
            self.yes_mint
        }
    }

    /// The lowest price on the other side that the order crosses.
    pub open spec fn lowest_crossing_price(self) -> int {
        100 - self.limit_price
    }
}

/// The lesser of two quantities.
pub open spec fn min_u64(a: u64, b: u64) -> u64 {
    if a <= b {
        a
    } else {
        b
    }
}

/// The first free slot of the ledger at or after `from`; the length of the
/// ledger if there is none.
pub open spec fn first_free_payout(payouts: Seq<PayoutView>, from: int) -> int
    decreases payouts.len() - from,
{
    if from < 0 || from >= payouts.len() {
        payouts.len() as int
    } else if payouts[from].is_free() {
        from
    } else {
        first_free_payout(payouts, from + 1)
    }
}

/// The ledger after one payout is queued: a payout of nothing changes
/// nothing, any other goes to the first free slot.
pub open spec fn record_payout(payouts: Seq<PayoutView>, payout: PayoutView) -> Result<
    Seq<PayoutView>,
    BettingMarketError,
> {
    if payout.amount == 0 {
        Ok(payouts)
    } else {
        let slot = first_free_payout(payouts, 0);
        if slot < payouts.len() {
            Ok(payouts.update(slot, payout))
        } else {
            Err(BettingMarketError::CapacityExceeded)
        }
    }
}

/// The number of free slots of the ledger.
pub open spec fn free_payout_slots(payouts: Seq<PayoutView>) -> nat
    decreases payouts.len(),
{
    if payouts.len() == 0 {
        0
    } else {
        free_payout_slots(payouts.drop_last()) + if payouts.last().is_free() {
            1nat
        } else {
            0nat
        }
    }
}

/// The number of payouts in `batch` that take a slot: those of more than nothing.
pub open spec fn payouts_due(batch: Seq<PayoutView>) -> nat
    decreases batch.len(),
{
    if batch.len() == 0 {
        0
    } else {
        payouts_due(batch.drop_last()) + if batch.last().amount > 0 {
            1nat
        } else {
            0nat
        }
    }
}

/// The ledger after the payouts of `batch` are queued one after the other;
/// one that finds no free slot is left out.
pub open spec fn record_each(payouts: Seq<PayoutView>, batch: Seq<PayoutView>) -> Seq<PayoutView>
    decreases batch.len(),
{
    if batch.len() == 0 {
        payouts
    } else {
        let before = record_each(payouts, batch.drop_last());
        match record_payout(before, batch.last()) {
            Ok(recorded) => recorded,
            Err(_) => before,
        }
    }
}

/// The ledger after a batch of payouts is queued, all or none: the batch is
/// refused when the ledger has fewer free slots than the batch needs.
pub open spec fn record_payouts(payouts: Seq<PayoutView>, batch: Seq<PayoutView>) -> Result<
    Seq<PayoutView>,
    BettingMarketError,
> {
    if payouts_due(batch) <= free_payout_slots(payouts) {
        Ok(record_each(payouts, batch))
    } else {
        Err(BettingMarketError::CapacityExceeded)
    }
}

/// The first slot of the queue at or after `from` that has no owner; 10 if
/// there is none.
pub open spec fn first_free_slot(queue: Seq<RestingOrder>, from: int) -> int
    decreases 10 - from,
{
    if from < 0 || from >= 10 {
        10
    } else if is_null_identity(queue[from].owner) {
        from
    } else {
        first_free_slot(queue, from + 1)
    }
}

/// The settlement kind that a resting order is stored with.
pub open spec fn settlement_kind(settles_in_collateral: bool) -> u64 {
    if settles_in_collateral {
        SETTLES_IN_COLLATERAL
    } else {
        SETTLES_IN_TOKEN
    }
}

/// The book after `amount` is left resting for `owner` on one side at `price`.
///
/// Nothing rests when `amount` is zero. Otherwise the order takes the first
/// free slot of the queue of its side at `price` and the quantity resting
/// there grows by `amount`; it is refused when the price is above 100, the owner is
/// the all-zero identity, the quantity would overflow, or the queue is full.
pub open spec fn rest_order(
    book: Book,
    is_yes: bool,
    price: u64,
    owner: Seq<u8>,
    settles_in_collateral: bool,
    amount: u64,
) -> Result<Book, BettingMarketError> {
    let price = price as int;
    if amount == 0 {
        Ok(book)
    } else if price > 100 {
        Err(BettingMarketError::InvalidPrice)
    } else if is_null_identity(owner) {
        Err(BettingMarketError::NullOwner)
    } else if book.buy_amounts(is_yes)[price] + amount > u64::MAX {
        Err(BettingMarketError::AmountOverflow)
    } else {
        let slot = first_free_slot(book.queues(is_yes)[price], 0);
        if slot >= 10 {
            Err(BettingMarketError::CapacityExceeded)
        } else {
            let order = RestingOrder {
                owner,
                kind: settlement_kind(settles_in_collateral),
                amount,
            };
            Ok(
                book.with_buy_amount(
                    is_yes,
                    price,
                    (book.buy_amounts(is_yes)[price] + amount) as u64,
                ).with_queue(is_yes, price, book.queues(is_yes)[price].update(slot, order)),
            )
        }
    }
}

/// What the owner of a resting order is paid when `taken` of it is matched at
/// `price`: the token it bought, or, for an order that settles in collateral,
/// `100 - price` of collateral for each unit.
pub open spec fn resting_payout(
    order: RestingOrder,
    taken: u64,
    price: u64,
    token_mint: Seq<u8>,
    collateral_mint: Seq<u8>,
) -> PayoutView {
    if order.kind == SETTLES_IN_COLLATERAL {
        PayoutView {
            recipient: order.owner,
            mint: collateral_mint,
            amount: (taken * (100 - price)) as u64,
        }
    } else {
        PayoutView { recipient: order.owner, mint: token_mint, amount: taken }
    }
}

/// The queue with `taken` less in its first order.
pub open spec fn reduce_front(queue: Seq<RestingOrder>, taken: u64) -> Seq<RestingOrder> {
    queue.update(0, RestingOrder { amount: (queue[0].amount - taken) as u64, ..queue[0] })
}

/// Takes up to `quantity` from the front of a queue, oldest order first.
///
/// Gives the queue that is left and, after `paid`, one payout for each order
/// that was touched. An order that is used up leaves the queue. Fails when a
/// payout in collateral overflows.
pub open spec fn consume_queue(
    queue: Seq<RestingOrder>,
    quantity: u64,
    price: u64,
    token_mint: Seq<u8>,
    collateral_mint: Seq<u8>,
    paid: Seq<PayoutView>,
) -> Result<(Seq<RestingOrder>, Seq<PayoutView>), BettingMarketError>
    decreases quantity,
{
    if quantity == 0 || queue[0].amount == 0 {
        Ok((queue, paid))
    } else {
        let taken = min_u64(queue[0].amount, quantity);
        if queue[0].kind == SETTLES_IN_COLLATERAL && taken * (100 - price) > u64::MAX {
            Err(BettingMarketError::AmountOverflow)
        } else {
            let payout = resting_payout(queue[0], taken, price, token_mint, collateral_mint);
            let rest = if taken == queue[0].amount {
                pop_front(queue)
            } else {
                reduce_front(queue, taken)
            };
            consume_queue(
                rest,
                (quantity - taken) as u64,
                price,
                token_mint,
                collateral_mint,
                paid.push(payout),
            )
        }
    }
}

/// The book after up to `quantity` is taken from the queue of one side at
/// `price` and the owners of the orders that were touched are paid. The
/// quantity resting on the side is left as it is.
pub open spec fn consume_and_pay(
    book: Book,
    is_yes: bool,
    quantity: u64,
    price: u64,
    token_mint: Seq<u8>,
    collateral_mint: Seq<u8>,
) -> Result<Book, BettingMarketError> {
    if price > 100 {
        Err(BettingMarketError::InvalidPrice)
    } else {
        match consume_queue(
            book.queues(is_yes)[price as int],
            quantity,
            price,
            token_mint,
            collateral_mint,
            Seq::empty(),
        ) {
            Err(e) => Err(e),
            Ok((queue, paid)) => match record_payouts(book.payouts, paid) {
                Err(e) => Err(e),
                Ok(payouts) => Ok(
                    book.with_queue(is_yes, price as int, queue).with_payouts(payouts),
                ),
            },
        }
    }
}

/// What the incoming order is paid for `matched` units filled against the
/// other side at `inverse_price`.
///
/// The fill costs `100 - inverse_price` a unit. An order that settles in
/// collateral is paid that price for each unit. Any other order is paid the
/// units in the token it buys, and the part of its limit price that the fill
/// did not need, for each unit, in collateral.
pub open spec fn taker_payouts(taker: Taker, inverse_price: u64, matched: u64) -> Result<
    Seq<PayoutView>,
    BettingMarketError,
> {
    let forward_price = 100 - inverse_price;
    let differential = taker.limit_price - forward_price;
    if taker.settles_in_collateral {
        if matched * forward_price > u64::MAX {
            Err(BettingMarketError::AmountOverflow)
        } else {
            Ok(
                seq![
                    PayoutView {
                        recipient: taker.owner,
                        mint: taker.collateral_mint,
                        amount: (matched * forward_price) as u64,
                    },
                ],
            )
        }
    } else {
        if matched * differential > u64::MAX {
            Err(BettingMarketError::AmountOverflow)
        } else {
            Ok(
                seq![
                    PayoutView { recipient: taker.owner, mint: taker.forward_mint(), amount: matched },
                    PayoutView {
                        recipient: taker.owner,
                        mint: taker.collateral_mint,
                        amount: (matched * differential) as u64,
                    },
                ],
            )
        }
    }
}

/// Crosses the incoming order with the other side at one price: takes what
/// can be matched from the queue of the other side there.
///
/// Gives the book afterwards and the quantity still unmatched. The level is
/// crossed whole or not at all.
pub open spec fn cross_level(book: Book, taker: Taker, inverse_price: u64, unmatched: u64) -> Result<
    (Book, u64),
    BettingMarketError,
> {
    let level = inverse_price as int;
    let resting = book.buy_amounts(!taker.is_yes)[level];
    let matched = min_u64(unmatched, resting);
    if matched == 0 {
        Ok((book, unmatched))
    } else {
        match consume_queue(
            book.queues(!taker.is_yes)[level],
            matched,
            inverse_price,
            taker.inverse_mint(),
            taker.collateral_mint,
            Seq::empty(),
        ) {
            Err(e) => Err(e),
            Ok((queue, paid)) => match taker_payouts(taker, inverse_price, matched) {
                Err(e) => Err(e),
                Ok(own) => match record_payouts(book.payouts, paid + own) {
                    Err(e) => Err(e),
                    Ok(payouts) => Ok(
                        (
                            book.with_buy_amount(
                                !taker.is_yes,
                                level,
                                (resting - matched) as u64,
                            ).with_queue(!taker.is_yes, level, queue).with_payouts(payouts),
                            (unmatched - matched) as u64,
                        ),
                    ),
                },
            },
        }
    }
}

/// Crosses the incoming order with the other side from `level` down to the
/// lowest price that its limit allows, best price first.
///
/// Gives the book afterwards, the quantity still unmatched, and the error that
/// stopped the crossing, if one did: the levels crossed before it stay crossed.
pub open spec fn cross_levels(book: Book, taker: Taker, level: int, unmatched: u64) -> (
    Book,
    u64,
    Option<BettingMarketError>,
)
    decreases level + 1,
{
    if level < 0 || level > 100 || level < taker.lowest_crossing_price() {
        (book, unmatched, None)
    } else {
        match cross_level(book, taker, level as u64, unmatched) {
            Err(e) => (book, unmatched, Some(e)),
            Ok((crossed, left)) => cross_levels(crossed, taker, level - 1, left),
        }
    }
}

/// Executes one order: crosses it with the other side, then leaves what is
/// unmatched resting at its limit price.
///
/// Gives the book afterwards and the quantity left resting, or the error that
/// stopped the order.
pub open spec fn match_and_place(book: Book, taker: Taker, size: u64) -> (
    Book,
    Result<u64, BettingMarketError>,
) {
    if taker.limit_price > 100 {
        (book, Err(BettingMarketError::InvalidPrice))
    } else if is_null_identity(taker.owner) {
        (book, Err(BettingMarketError::NullOwner))
    } else {
        let (crossed, unmatched, stopped) = cross_levels(book, taker, 100, size);
        match stopped {
            Some(e) => (crossed, Err(e)),
            None => match rest_order(
                crossed,
                taker.is_yes,
                taker.limit_price,
                taker.owner,
                taker.settles_in_collateral,
                unmatched,
            ) {
                Err(e) => (crossed, Err(e)),
                Ok(rested) => (rested, Ok(unmatched)),
            },
        }
    }
}

/// The incoming order that the arguments of an order submission describe.
pub open spec fn taker_of(
    is_yes: bool,
    limit_price: u64,
    settles_in_collateral: bool,
    owner: Seq<u8>,
    yes_mint: Seq<u8>,
    no_mint: Seq<u8>,
    collateral_mint: Seq<u8>,
) -> Taker {
    Taker { is_yes, limit_price, settles_in_collateral, owner, yes_mint, no_mint, collateral_mint }
}

/// How a submission of `amount` at `price` is paid for by a user who holds
/// `inverse_balance` of the other side's token.
#[derive(Clone, Copy, Debug, PartialEq, Eq, Structural)]
pub struct TradeFunding {
    /// The part paid for with tokens of the other side, which are burnt.
    pub inverse_collateralized_amount: u64,
    /// The part paid for in collateral.
    pub usd_collateralized_amount: u64,
    /// The collateral to transfer: the price of each unit of that part.
    pub usd_amount: u64,
}

/// The funding of a submission: tokens of the other side are used first, as
/// far as the balance goes, and the rest is bought at `price` a unit.
pub open spec fn trade_funding(price: u64, amount: u64, inverse_balance: u64) -> Result<
    TradeFunding,
    BettingMarketError,
> {
    let inverse = min_u64(inverse_balance, amount);
    let rest = (amount - inverse) as u64;
    if price > 100 {
        Err(BettingMarketError::InvalidPrice)
    } else if price * rest > u64::MAX {
        Err(BettingMarketError::AmountOverflow)
    } else {
        Ok(
            TradeFunding {
                inverse_collateralized_amount: inverse,
                usd_collateralized_amount: rest,
                usd_amount: (price * rest) as u64,
            },
        )
    }
}

/// Executes one submission as two orders on the same side at the same limit
/// price: first the part paid for with tokens of the other side, which
/// settles in collateral, then the part paid for in collateral, which settles
/// in the token bought.
///
/// Gives the book afterwards and the funding, or the error that stopped the
/// submission; what was done before the error stays done.
pub open spec fn offer_trade(
    book: Book,
    is_yes: bool,
    price: u64,
    amount: u64,
    inverse_balance: u64,
    owner: Seq<u8>,
    yes_mint: Seq<u8>,
    no_mint: Seq<u8>,
    collateral_mint: Seq<u8>,
) -> (Book, Result<TradeFunding, BettingMarketError>) {
    match trade_funding(price, amount, inverse_balance) {
        Err(e) => (book, Err(e)),
        Ok(funding) => {
            let first = match_and_place(
                book,
                taker_of(is_yes, price, true, owner, yes_mint, no_mint, collateral_mint),
                funding.inverse_collateralized_amount,
            );
            match first.1 {
                Err(e) => (first.0, Err(e)),
                Ok(_) => {
                    let second = match_and_place(
                        first.0,
                        taker_of(is_yes, price, false, owner, yes_mint, no_mint, collateral_mint),
                        funding.usd_collateralized_amount,
                    );
                    match second.1 {
                        Err(e) => (second.0, Err(e)),
                        Ok(_) => (second.0, Ok(funding)),
                    }
                },
            }
        },
    }
}

/// The payouts that take a slot among the first `upto` of a batch are no more
/// than those of the whole batch.
pub proof fn lemma_payouts_due_grows(batch: Seq<PayoutView>, upto: int)
    requires
        0 <= upto <= batch.len(),
    ensures
        payouts_due(batch.take(upto)) <= payouts_due(batch),
        upto < batch.len() && batch[upto].amount > 0 ==> payouts_due(batch.take(upto)) < payouts_due(
            batch,
        ),
    decreases batch.len() - upto,
{
    if upto < batch.len() {
        assert(batch.take(upto + 1).drop_last() =~= batch.take(upto));
        lemma_payouts_due_grows(batch, upto + 1);
    } else {
        assert(batch.take(upto) =~= batch);
    }
}

/// Queuing payouts leaves the ledger its length.
pub proof fn lemma_record_each_keeps_length(payouts: Seq<PayoutView>, batch: Seq<PayoutView>)
    ensures
        record_each(payouts, batch).len() == payouts.len(),
    decreases batch.len(),
{
    if batch.len() > 0 {
        lemma_record_each_keeps_length(payouts, batch.drop_last());
        lemma_first_free_payout_in_range(record_each(payouts, batch.drop_last()), 0);
    }
}

/// A ledger in which no slot from `from` on is found free has none there.
pub proof fn lemma_no_free_payout(payouts: Seq<PayoutView>, from: int)
    requires
        0 <= from <= payouts.len(),
        first_free_payout(payouts, from) >= payouts.len(),
    ensures
        forall|j: int| from <= j < payouts.len() ==> !(#[trigger] payouts[j]).is_free(),
    decreases payouts.len() - from,
{
    if from < payouts.len() {
        lemma_no_free_payout(payouts, from + 1);
    }
}

/// A ledger whose slots are all taken has no free slot to count.
pub proof fn lemma_full_ledger(payouts: Seq<PayoutView>)
    requires
        forall|j: int| 0 <= j < payouts.len() ==> !(#[trigger] payouts[j]).is_free(),
    ensures
        free_payout_slots(payouts) == 0,
    decreases payouts.len(),
{
    if payouts.len() > 0 {
        lemma_full_ledger(payouts.drop_last());
    }
}

/// Writing one slot changes the number of free slots by that slot alone.
pub proof fn lemma_free_slots_after_write(payouts: Seq<PayoutView>, slot: int, payout: PayoutView)
    requires
        0 <= slot < payouts.len(),
    ensures
        free_payout_slots(payouts.update(slot, payout)) + (if payouts[slot].is_free() {
            1nat
        } else {
            0nat
        }) == free_payout_slots(payouts) + (if payout.is_free() {
            1nat
        } else {
            0nat
        }),
    decreases payouts.len(),
{
    let written = payouts.update(slot, payout);
    if slot == payouts.len() - 1 {
        assert(written.drop_last() =~= payouts.drop_last());
    } else {
        assert(written.drop_last() =~= payouts.drop_last().update(slot, payout));
        lemma_free_slots_after_write(payouts.drop_last(), slot, payout);
    }
}

/// Queuing one payout takes at most one free slot, and succeeds whenever a
/// slot is free.
pub proof fn lemma_record_payout_takes_a_slot(payouts: Seq<PayoutView>, payout: PayoutView)
    ensures
        free_payout_slots(payouts) > 0 ==> record_payout(payouts, payout) is Ok,
        match record_payout(payouts, payout) {
            Ok(recorded) => recorded.len() == payouts.len() && free_payout_slots(recorded) + (
            if payout.amount > 0 {
                1nat
            } else {
                0nat
            }) >= free_payout_slots(payouts),
            Err(_) => free_payout_slots(payouts) == 0,
        },
{
    if payout.amount > 0 {
        let slot = first_free_payout(payouts, 0);
        lemma_first_free_payout_in_range(payouts, 0);
        if slot < payouts.len() {
            lemma_free_slots_after_write(payouts, slot, payout);
        } else {
            lemma_no_free_payout(payouts, 0);
            lemma_full_ledger(payouts);
        }
    }
}

/// The first free slot at or after `from`, if there is one, is a free slot.
pub proof fn lemma_first_free_payout_in_range(payouts: Seq<PayoutView>, from: int)
    requires
        0 <= from <= payouts.len(),
    ensures
        from <= first_free_payout(payouts, from) <= payouts.len(),
        first_free_payout(payouts, from) < payouts.len() ==> payouts[first_free_payout(
            payouts,
            from,
        )].is_free(),
    decreases payouts.len() - from,
{
    if from < payouts.len() && !payouts[from].is_free() {
        lemma_first_free_payout_in_range(payouts, from + 1);
    }
}

/// Queuing payouts writes free slots only: a payout that was queued before
/// stays in its slot.
pub proof fn lemma_record_each_keeps_queued(payouts: Seq<PayoutView>, batch: Seq<PayoutView>)
    ensures
        record_each(payouts, batch).len() == payouts.len(),
        forall|slot: int|
            0 <= slot < payouts.len() && !payouts[slot].is_free() ==> #[trigger] record_each(
                payouts,
                batch,
            )[slot] == payouts[slot],
    decreases batch.len(),
{
    lemma_record_each_keeps_length(payouts, batch);
    if batch.len() > 0 {
        let before = record_each(payouts, batch.drop_last());
        lemma_record_each_keeps_queued(payouts, batch.drop_last());
        lemma_first_free_payout_in_range(before, 0);
        assert forall|slot: int|
            0 <= slot < payouts.len() && !payouts[slot].is_free() implies #[trigger] record_each(
            payouts,
            batch,
        )[slot] == payouts[slot] by {
            assert(before[slot] == payouts[slot]);
        }
    }
}

} // verus!
