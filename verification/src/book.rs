use crate::pubkey::{is_null_identity, Pubkey};
use crate::state::{
    get_pubkey_10_at_ptr_offset, get_u64_10_at_ptr_offset, get_u64_at_ptr_offset,
    lemma_field_untouched, pubkey_at, set_pubkey_10_at_ptr_offset, set_u64_10_at_ptr_offset,
    set_u64_at_ptr_offset, u64_at, unchanged_outside, MARKET_DATA_LEN, PUBKEY_10_USIZE,
    U64_10_USIZE, U64_USIZE,
    NO_BUY_AMOUNT_START_OFFSET, NO_PAYOUT_AMOUNTS_FOR_PRICE_START_OFFSET,
    NO_PAYOUT_IN_USD_FOR_PRICE_START_OFFSET, NO_USER_ACCOUNTS_FOR_PRICE_START_OFFSET,
    PAYOUT_AMOUNTS_FOR_PRICE_START_OFFSET, PAYOUT_AMOUNTS_OFFSET,
    PAYOUT_IN_USD_FOR_PRICE_START_OFFSET, PAYOUT_MINTS_OFFSET, PAYOUT_USER_ACCOUNTS_OFFSET,
    USER_ACCOUNTS_FOR_PRICE_START_OFFSET, YES_BUY_AMOUNT_START_OFFSET,
};
use vstd::prelude::*;

verus! {

/// The highest price; a yes token and a no token together are worth this much.
pub const MAX_PRICE: u64 = 100;

/// Settlement kind of a resting order that pays out in the token it bought.
pub const SETTLES_IN_TOKEN: u64 = 1;

/// Settlement kind of a resting order that pays out in collateral.
pub const SETTLES_IN_COLLATERAL: u64 = 2;

/// One slot of the queue of a price level.
pub struct RestingOrder {
    pub owner: Seq<u8>,
    pub kind: u64,
    pub amount: u64,
}

/// One slot of the payout ledger.
pub struct PayoutView {
    pub recipient: Seq<u8>,
    pub mint: Seq<u8>,
    pub amount: u64,
}

/// The order book and the payout ledger that a market data buffer holds.
///
/// Each side has, for each price, the quantity that rests there and the queue
/// of the orders that make it up.
pub struct Book {
    pub yes_buy_amounts: Seq<u64>,
    pub no_buy_amounts: Seq<u64>,
    pub yes_queues: Seq<Seq<RestingOrder>>,
    pub no_queues: Seq<Seq<RestingOrder>>,
    pub payouts: Seq<PayoutView>,
}

/// The all-zero identity.
pub open spec fn null_identity() -> Seq<u8> {
    Seq::new(32, |i: int| 0u8)
}

/// The content of an empty queue slot.
pub open spec fn empty_order() -> RestingOrder {
    RestingOrder { owner: null_identity(), kind: 0, amount: 0 }
}

/// The content of a cleared ledger slot.
pub open spec fn empty_payout() -> PayoutView {
    PayoutView { recipient: null_identity(), mint: null_identity(), amount: 0 }
}

impl RestingOrder {
    pub open spec fn is_empty(self) -> bool {
        is_null_identity(self.owner) && self.kind == 0 && self.amount == 0
    }

    pub open spec fn is_live(self) -> bool {
        &&& self.owner.len() == 32
        &&& !is_null_identity(self.owner)
        &&& (self.kind == SETTLES_IN_TOKEN || self.kind == SETTLES_IN_COLLATERAL)
        &&& self.amount > 0
    }
}

impl PayoutView {
    /// A slot is free when its recipient is the all-zero identity.
    pub open spec fn is_free(self) -> bool {
        is_null_identity(self.recipient)
    }
}

/// The live orders of a queue come first, and every other slot is empty.
pub open spec fn queue_well_formed(queue: Seq<RestingOrder>) -> bool {
    &&& queue.len() == 10
    &&& forall|j: int| 0 <= j < 10 ==> (#[trigger] queue[j]).is_live() || queue[j].is_empty()
    &&& forall|i: int, j: int|
        0 <= i <= j < 10 && (#[trigger] queue[i]).is_empty() ==> (#[trigger] queue[j]).is_empty()
}

/// The quantity that rests in a queue.
pub open spec fn queue_total(queue: Seq<RestingOrder>) -> int {
    queue[0].amount + queue[1].amount + queue[2].amount + queue[3].amount + queue[4].amount
        + queue[5].amount + queue[6].amount + queue[7].amount + queue[8].amount + queue[9].amount
}

impl Book {
    pub open spec fn buy_amounts(self, is_yes: bool) -> Seq<u64> {
        if is_yes {
            self.yes_buy_amounts
        } else {
            self.no_buy_amounts
        }
    }

    pub open spec fn with_buy_amount(self, is_yes: bool, price: int, amount: u64) -> Book {
        if is_yes {
            Book { yes_buy_amounts: self.yes_buy_amounts.update(price, amount), ..self }
        } else {
            Book { no_buy_amounts: self.no_buy_amounts.update(price, amount), ..self }
        }
    }

    /// The queues of one side, by price.
    pub open spec fn queues(self, is_yes: bool) -> Seq<Seq<RestingOrder>> {
        if is_yes {
            self.yes_queues
        } else {
            self.no_queues
        }
    }

    pub open spec fn with_queue(self, is_yes: bool, price: int, queue: Seq<RestingOrder>) -> Book {
        if is_yes {
            Book { yes_queues: self.yes_queues.update(price, queue), ..self }
        } else {
            Book { no_queues: self.no_queues.update(price, queue), ..self }
        }
    }

    pub open spec fn with_payouts(self, payouts: Seq<PayoutView>) -> Book {
        Book { payouts, ..self }
    }

    /// The book has 101 price levels on each side, ten slots in each queue and
    /// 100 ledger slots.
    pub open spec fn has_shape(self) -> bool {
        &&& self.yes_buy_amounts.len() == 101
        &&& self.no_buy_amounts.len() == 101
        &&& self.yes_queues.len() == 101
        &&& self.no_queues.len() == 101
        &&& forall|price: int|
            0 <= price <= 100 ==> (#[trigger] self.yes_queues[price]).len() == 10
        &&& forall|price: int| 0 <= price <= 100 ==> (#[trigger] self.no_queues[price]).len() == 10
        &&& self.payouts.len() == 100
    }

    /// One side of the book is sound at `price`: its queue there is well
    /// formed and holds exactly the quantity that rests on the side there.
    pub open spec fn level_well_formed(self, is_yes: bool, price: int) -> bool {
        &&& queue_well_formed(self.queues(is_yes)[price])
        &&& self.buy_amounts(is_yes)[price] == queue_total(self.queues(is_yes)[price])
    }

    /// The invariant of the book: for every side and price, the queue is well
    /// formed and the quantity resting is the sum of the quantities of the
    /// orders in the queue.
    pub open spec fn well_formed(self) -> bool {
        &&& self.has_shape()
        &&& forall|is_yes: bool, price: int|
            0 <= price <= 100 ==> #[trigger] self.level_well_formed(is_yes, price)
    }
}

pub open spec fn buy_amount_offset(is_yes: bool, price: int) -> int {
    if is_yes {
        YES_BUY_AMOUNT_START_OFFSET + 8 * price
    } else {
        NO_BUY_AMOUNT_START_OFFSET + 8 * price
    }
}

pub open spec fn order_owner_offset(is_yes: bool, price: int, slot: int) -> int {
    if is_yes {
        USER_ACCOUNTS_FOR_PRICE_START_OFFSET + 320 * price + 32 * slot
    } else {
        NO_USER_ACCOUNTS_FOR_PRICE_START_OFFSET + 320 * price + 32 * slot
    }
}

pub open spec fn order_kind_offset(is_yes: bool, price: int, slot: int) -> int {
    if is_yes {
        PAYOUT_IN_USD_FOR_PRICE_START_OFFSET + 80 * price + 8 * slot
    } else {
        NO_PAYOUT_IN_USD_FOR_PRICE_START_OFFSET + 80 * price + 8 * slot
    }
}

pub open spec fn order_amount_offset(is_yes: bool, price: int, slot: int) -> int {
    if is_yes {
        PAYOUT_AMOUNTS_FOR_PRICE_START_OFFSET + 80 * price + 8 * slot
    } else {
        NO_PAYOUT_AMOUNTS_FOR_PRICE_START_OFFSET + 80 * price + 8 * slot
    }
}

pub open spec fn payout_recipient_offset(index: int) -> int {
    PAYOUT_USER_ACCOUNTS_OFFSET + 32 * index
}

pub open spec fn payout_mint_offset(index: int) -> int {
    PAYOUT_MINTS_OFFSET + 32 * index
}

pub open spec fn payout_amount_offset(index: int) -> int {
    PAYOUT_AMOUNTS_OFFSET + 8 * index
}

/// The quantity that rests on one side at `price`, as the buffer holds it.
pub open spec fn buy_amount_at(bytes: Seq<u8>, is_yes: bool, price: int) -> u64 {
    u64_at(bytes, buy_amount_offset(is_yes, price))
}

/// Slot `slot` of the queue of one side at `price`, as the buffer holds it.
pub open spec fn order_at(bytes: Seq<u8>, is_yes: bool, price: int, slot: int) -> RestingOrder {
    RestingOrder {
        owner: pubkey_at(bytes, order_owner_offset(is_yes, price, slot)),
        kind: u64_at(bytes, order_kind_offset(is_yes, price, slot)),
        amount: u64_at(bytes, order_amount_offset(is_yes, price, slot)),
    }
}

/// The queue of one side at `price`, as the buffer holds it.
pub open spec fn queue_at(bytes: Seq<u8>, is_yes: bool, price: int) -> Seq<RestingOrder> {
    Seq::new(10, |slot: int| order_at(bytes, is_yes, price, slot))
}

/// Slot `index` of the payout ledger, as the buffer holds it.
pub open spec fn payout_at(bytes: Seq<u8>, index: int) -> PayoutView {
    PayoutView {
        recipient: pubkey_at(bytes, payout_recipient_offset(index)),
        mint: pubkey_at(bytes, payout_mint_offset(index)),
        amount: u64_at(bytes, payout_amount_offset(index)),
    }
}

/// The book and ledger that a market data buffer holds.
pub open spec fn book_of(bytes: Seq<u8>) -> Book {
    Book {
        yes_buy_amounts: Seq::new(101, |price: int| buy_amount_at(bytes, true, price)),
        no_buy_amounts: Seq::new(101, |price: int| buy_amount_at(bytes, false, price)),
        yes_queues: Seq::new(101, |price: int| queue_at(bytes, true, price)),
        no_queues: Seq::new(101, |price: int| queue_at(bytes, false, price)),
        payouts: Seq::new(100, |index: int| payout_at(bytes, index)),
    }
}

/// Whether byte `i` belongs to the book or the ledger.
pub open spec fn in_book(i: int) -> bool {
    ||| 1000 <= i < 1808
    ||| 2000 <= i < 2808
    ||| 10000 <= i < 42320
    ||| 50000 <= i < 58080
    ||| 60000 <= i < 68080
    ||| 70000 <= i < 73200
    ||| 80000 <= i < 83200
    ||| 90000 <= i < 90800
    ||| 100000 <= i < 132320
    ||| 140000 <= i < 148080
    ||| 150000 <= i < 158080
}

/// `after` has the length of `before` and the same bytes wherever the layout
/// keeps neither book nor ledger: the market record and the gaps.
pub open spec fn same_outside_book(before: Seq<u8>, after: Seq<u8>) -> bool {
    &&& after.len() == before.len()
    &&& forall|i: int| 0 <= i < before.len() && !in_book(i) ==> after[i] == before[i]
}

/// Whether the field of `width` bytes at `field` lies outside `lo..hi`.
pub open spec fn apart(field: int, width: int, lo: int, hi: int) -> bool {
    field + width <= lo || hi <= field
}

/// A write to the buffer leaves every entry of the book that it does not
/// overlap as it was.
pub proof fn lemma_write_keeps_entries(before: Seq<u8>, after: Seq<u8>, lo: int, hi: int)
    requires
        before.len() >= MARKET_DATA_LEN,
        unchanged_outside(before, after, lo, hi),
    ensures
        forall|is_yes: bool, price: int|
            0 <= price <= 100 && apart(buy_amount_offset(is_yes, price), 8, lo, hi)
                ==> #[trigger] buy_amount_at(after, is_yes, price) == buy_amount_at(
                before,
                is_yes,
                price,
            ),
        forall|is_yes: bool, price: int, slot: int|
            0 <= price <= 100 && 0 <= slot < 10 && apart(
                order_owner_offset(is_yes, price, slot),
                32,
                lo,
                hi,
            ) && apart(order_kind_offset(is_yes, price, slot), 8, lo, hi) && apart(
                order_amount_offset(is_yes, price, slot),
                8,
                lo,
                hi,
            ) ==> #[trigger] order_at(after, is_yes, price, slot) == order_at(
                before,
                is_yes,
                price,
                slot,
            ),
        forall|index: int|
            0 <= index < 100 && apart(payout_recipient_offset(index), 32, lo, hi) && apart(
                payout_mint_offset(index),
                32,
                lo,
                hi,
            ) && apart(payout_amount_offset(index), 8, lo, hi) ==> #[trigger] payout_at(
                after,
                index,
            ) == payout_at(before, index),
{
    assert forall|is_yes: bool, price: int|
        0 <= price <= 100 && apart(buy_amount_offset(is_yes, price), 8, lo, hi) implies
        #[trigger] buy_amount_at(after, is_yes, price) == buy_amount_at(before, is_yes, price) by {
        lemma_field_untouched(before, after, lo, hi, buy_amount_offset(is_yes, price), 8);
    }
    assert forall|is_yes: bool, price: int, slot: int|
        0 <= price <= 100 && 0 <= slot < 10 && apart(
            order_owner_offset(is_yes, price, slot),
            32,
            lo,
            hi,
        ) && apart(order_kind_offset(is_yes, price, slot), 8, lo, hi) && apart(
            order_amount_offset(is_yes, price, slot),
            8,
            lo,
            hi,
        ) implies #[trigger] order_at(after, is_yes, price, slot) == order_at(
        before,
        is_yes,
        price,
        slot,
    ) by {
        lemma_field_untouched(before, after, lo, hi, order_owner_offset(is_yes, price, slot), 32);
        lemma_field_untouched(before, after, lo, hi, order_kind_offset(is_yes, price, slot), 8);
        lemma_field_untouched(before, after, lo, hi, order_amount_offset(is_yes, price, slot), 8);
    }
    assert forall|index: int|
        0 <= index < 100 && apart(payout_recipient_offset(index), 32, lo, hi) && apart(
            payout_mint_offset(index),
            32,
            lo,
            hi,
        ) && apart(payout_amount_offset(index), 8, lo, hi) implies #[trigger] payout_at(
        after,
        index,
    ) == payout_at(before, index) by {
        lemma_field_untouched(before, after, lo, hi, payout_recipient_offset(index), 32);
        lemma_field_untouched(before, after, lo, hi, payout_mint_offset(index), 32);
        lemma_field_untouched(before, after, lo, hi, payout_amount_offset(index), 8);
    }
}

/// A write that keeps the ten orders of a queue keeps the queue.
pub proof fn lemma_queue_kept(before: Seq<u8>, after: Seq<u8>, is_yes: bool, price: int)
    requires
        forall|slot: int|
            0 <= slot < 10 ==> #[trigger] order_at(after, is_yes, price, slot) == order_at(
                before,
                is_yes,
                price,
                slot,
            ),
    ensures
        queue_at(after, is_yes, price) == queue_at(before, is_yes, price),
{
    assert(queue_at(after, is_yes, price) =~= queue_at(before, is_yes, price));
}

/// The queue of one price level, read out of the buffer: owners, settlement
/// kinds and quantities of its ten slots.
pub struct PriceQueue {
    pub owners: [Pubkey; 10],
    pub kinds: [u64; 10],
    pub amounts: [u64; 10],
}

impl View for PriceQueue {
    type V = Seq<RestingOrder>;

    open spec fn view(&self) -> Seq<RestingOrder> {
        Seq::new(
            10,
            |slot: int|
                RestingOrder {
                    owner: self.owners[slot]@,
                    kind: self.kinds[slot],
                    amount: self.amounts[slot],
                },
        )
    }
}

/// The queue without its first order: the others move up one slot and the
/// last slot is empty.
pub open spec fn pop_front(queue: Seq<RestingOrder>) -> Seq<RestingOrder> {
    Seq::new(
        10,
        |slot: int|
            if slot < 9 {
                queue[slot + 1]
            } else {
                empty_order()
            },
    )
}

impl PriceQueue {
    /// Removes the first order: the others move up one slot and the last slot
    /// is emptied.
    pub fn pop_front(&mut self)
        ensures
            final(self)@ == pop_front(old(self)@),
    {
        let mut i: usize = 0;
        while i < 9
            invariant
                i <= 9,
                forall|j: int| 0 <= j < i ==> (#[trigger] self@[j]) == old(self)@[j + 1],
                forall|j: int| i <= j < 10 ==> (#[trigger] self@[j]) == old(self)@[j],
            decreases 9 - i,
        {
            let ghost before = self@;
            self.owners[i] = self.owners[i + 1];
            self.kinds[i] = self.kinds[i + 1];
            self.amounts[i] = self.amounts[i + 1];
            proof {
                assert forall|j: int| 0 <= j < 10 && j != i implies #[trigger] self@[j]
                    == before[j] by {}
                assert(self@[i as int] == before[i + 1]);
            }
            i += 1;
        }
        let ghost before = self@;
        self.owners[9] = Pubkey::null();
        self.kinds[9] = 0;
        self.amounts[9] = 0;
        proof {
            assert forall|j: int| 0 <= j < 9 implies #[trigger] self@[j] == before[j] by {}
            assert(self.owners[9]@ =~= null_identity());
            assert(self@ =~= pop_front(old(self)@));
        }
    }
}

/// The offset of the quantity that rests on one side at `price`.
pub fn buy_amount_offset_of(is_yes: bool, price: u64) -> (offset: usize)
    requires
        price <= MAX_PRICE,
    ensures
        offset == buy_amount_offset(is_yes, price as int),
        offset + 8 <= MARKET_DATA_LEN,
{
    if is_yes {
        YES_BUY_AMOUNT_START_OFFSET + U64_USIZE * (price as usize)
    } else {
        NO_BUY_AMOUNT_START_OFFSET + U64_USIZE * (price as usize)
    }
}

/// Reads the quantity that rests on one side at `price`.
pub fn get_buy_amount(data: &[u8], is_yes: bool, price: u64) -> (amount: u64)
    requires
        price <= MAX_PRICE,
        data.len() >= buy_amount_offset(is_yes, price as int) + 8,
    ensures
        amount == book_of(data@).buy_amounts(is_yes)[price as int],
{
    get_u64_at_ptr_offset(data, buy_amount_offset_of(is_yes, price))
}

/// Writes the quantity that rests on one side at `price`.
pub fn set_buy_amount(data: &mut [u8], is_yes: bool, price: u64, amount: u64)
    requires
        old(data).len() >= MARKET_DATA_LEN,
        price <= MAX_PRICE,
    ensures
        book_of(final(data)@) == book_of(old(data)@).with_buy_amount(
            is_yes,
            price as int,
            amount,
        ),
        same_outside_book(old(data)@, final(data)@),
{
    let offset = buy_amount_offset_of(is_yes, price);
    set_u64_at_ptr_offset(data, offset, amount);
    proof {
        let before = book_of(old(data)@);
        let after = book_of(data@);
        lemma_write_keeps_entries(old(data)@, data@, offset as int, offset + 8);
        assert(after.yes_buy_amounts =~= before.with_buy_amount(
            is_yes,
            price as int,
            amount,
        ).yes_buy_amounts);
        assert(after.no_buy_amounts =~= before.with_buy_amount(
            is_yes,
            price as int,
            amount,
        ).no_buy_amounts);
        assert forall|side: bool, level: int| 0 <= level <= 100 implies #[trigger] queue_at(
            data@,
            side,
            level,
        ) == queue_at(old(data)@, side, level) by {
            lemma_queue_kept(old(data)@, data@, side, level);
        }
        assert(after.yes_queues =~= before.yes_queues);
        assert(after.no_queues =~= before.no_queues);
        assert(after.payouts =~= before.payouts);
    }
}

/// The offset of the owners of the queue of one side at `price`.
pub fn queue_owners_offset_of(is_yes: bool, price: u64) -> (offset: usize)
    requires
        price <= MAX_PRICE,
    ensures
        offset == order_owner_offset(is_yes, price as int, 0),
        offset + 320 <= MARKET_DATA_LEN,
{
    if is_yes {
        USER_ACCOUNTS_FOR_PRICE_START_OFFSET + PUBKEY_10_USIZE * (price as usize)
    } else {
        NO_USER_ACCOUNTS_FOR_PRICE_START_OFFSET + PUBKEY_10_USIZE * (price as usize)
    }
}

/// The offset of the settlement kinds of the queue of one side at `price`.
pub fn queue_kinds_offset_of(is_yes: bool, price: u64) -> (offset: usize)
    requires
        price <= MAX_PRICE,
    ensures
        offset == order_kind_offset(is_yes, price as int, 0),
        offset + 80 <= MARKET_DATA_LEN,
{
    if is_yes {
        PAYOUT_IN_USD_FOR_PRICE_START_OFFSET + U64_10_USIZE * (price as usize)
    } else {
        NO_PAYOUT_IN_USD_FOR_PRICE_START_OFFSET + U64_10_USIZE * (price as usize)
    }
}

/// The offset of the quantities of the queue of one side at `price`.
pub fn queue_amounts_offset_of(is_yes: bool, price: u64) -> (offset: usize)
    requires
        price <= MAX_PRICE,
    ensures
        offset == order_amount_offset(is_yes, price as int, 0),
        offset + 80 <= MARKET_DATA_LEN,
{
    if is_yes {
        PAYOUT_AMOUNTS_FOR_PRICE_START_OFFSET + U64_10_USIZE * (price as usize)
    } else {
        NO_PAYOUT_AMOUNTS_FOR_PRICE_START_OFFSET + U64_10_USIZE * (price as usize)
    }
}

/// Reads the queue of one side at `price`. Of the three tables of a side the
/// quantities come last: a buffer that holds the quantities of the queue
/// holds all of it.
pub fn get_queue(data: &[u8], is_yes: bool, price: u64) -> (queue: PriceQueue)
    requires
        price <= MAX_PRICE,
        data.len() >= order_amount_offset(is_yes, price as int, 0) + 80,
    ensures
        queue@ == book_of(data@).queues(is_yes)[price as int],
{
    let owners = get_pubkey_10_at_ptr_offset(data, queue_owners_offset_of(is_yes, price));
    let kinds = get_u64_10_at_ptr_offset(data, queue_kinds_offset_of(is_yes, price));
    let amounts = get_u64_10_at_ptr_offset(data, queue_amounts_offset_of(is_yes, price));
    let queue = PriceQueue { owners, kinds, amounts };
    assert(queue@ =~= queue_at(data@, is_yes, price as int));
    queue
}

/// Writes the queue of one side at `price`.
pub fn set_queue(data: &mut [u8], is_yes: bool, price: u64, queue: &PriceQueue)
    requires
        old(data).len() >= MARKET_DATA_LEN,
        price <= MAX_PRICE,
    ensures
        book_of(final(data)@) == book_of(old(data)@).with_queue(is_yes, price as int, queue@),
        same_outside_book(old(data)@, final(data)@),
{
    let owners_offset = queue_owners_offset_of(is_yes, price);
    let kinds_offset = queue_kinds_offset_of(is_yes, price);
    let amounts_offset = queue_amounts_offset_of(is_yes, price);
    set_pubkey_10_at_ptr_offset(data, owners_offset, queue.owners);
    let ghost with_owners = data@;
    set_u64_10_at_ptr_offset(data, kinds_offset, queue.kinds);
    let ghost with_kinds = data@;
    set_u64_10_at_ptr_offset(data, amounts_offset, queue.amounts);
    proof {
        let before = book_of(old(data)@);
        let after = book_of(data@);
        let level = price as int;
        lemma_write_keeps_entries(old(data)@, with_owners, owners_offset as int, owners_offset + 320);
        lemma_write_keeps_entries(with_owners, with_kinds, kinds_offset as int, kinds_offset + 80);
        lemma_write_keeps_entries(with_kinds, data@, amounts_offset as int, amounts_offset + 80);
        assert(after.yes_buy_amounts =~= before.yes_buy_amounts);
        assert(after.no_buy_amounts =~= before.no_buy_amounts);
        assert(after.payouts =~= before.payouts);
        assert forall|slot: int| 0 <= slot < 10 implies order_at(data@, is_yes, level, slot)
            == #[trigger] queue@[slot] by {
            lemma_field_untouched(
                with_owners,
                with_kinds,
                kinds_offset as int,
                kinds_offset + 80,
                order_owner_offset(is_yes, level, slot),
                32,
            );
            lemma_field_untouched(
                with_kinds,
                data@,
                amounts_offset as int,
                amounts_offset + 80,
                order_owner_offset(is_yes, level, slot),
                32,
            );
            lemma_field_untouched(
                with_kinds,
                data@,
                amounts_offset as int,
                amounts_offset + 80,
                order_kind_offset(is_yes, level, slot),
                8,
            );
            assert(queue.owners[slot]@ == pubkey_at(with_owners, owners_offset + 32 * slot));
            assert(queue.kinds[slot] == u64_at(with_kinds, kinds_offset + 8 * slot));
            assert(queue.amounts[slot] == u64_at(data@, amounts_offset + 8 * slot));
        }
        assert(queue_at(data@, is_yes, level) =~= queue@);
        assert forall|side: bool, other: int|
            0 <= other <= 100 && (side != is_yes || other != level) implies #[trigger] queue_at(
            data@,
            side,
            other,
        ) == queue_at(old(data)@, side, other) by {
            assert forall|slot: int| 0 <= slot < 10 implies #[trigger] order_at(
                data@,
                side,
                other,
                slot,
            ) == order_at(old(data)@, side, other, slot) by {
                assert(order_at(with_owners, side, other, slot) == order_at(
                    old(data)@,
                    side,
                    other,
                    slot,
                ));
                assert(order_at(with_kinds, side, other, slot) == order_at(
                    with_owners,
                    side,
                    other,
                    slot,
                ));
                assert(order_at(data@, side, other, slot) == order_at(
                    with_kinds,
                    side,
                    other,
                    slot,
                ));
            }
            lemma_queue_kept(old(data)@, data@, side, other);
        }
        let expected = before.with_queue(is_yes, level, queue@);
        assert(after.yes_queues =~= expected.yes_queues);
        assert(after.no_queues =~= expected.no_queues);
    }
}

} // verus!
