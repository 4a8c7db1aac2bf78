use crate::book::{
    book_of, lemma_queue_kept, lemma_write_keeps_entries, order_at, payout_amount_offset,
    payout_at,
    payout_mint_offset, payout_recipient_offset, queue_at, same_outside_book, PayoutView,
};
use crate::error::BettingMarketError;
use crate::pubkey::{is_null_identity, Pubkey};
use vstd::bytes::{
    lemma_auto_spec_u64_to_from_le_bytes, spec_u64_from_le_bytes, spec_u64_to_le_bytes,
    u64_from_le_bytes, u64_to_le_bytes,
};
use vstd::prelude::*;
use vstd::slice::slice_subrange;

verus! {

// Layout of the market data buffer (byte offsets, integers little-endian):
//
//      0..138    market record
//   1000..1808   [u64; 101]         quantity resting on the yes side, by price
//   2000..2808   [u64; 101]         quantity resting on the no side, by price
//  10000..42320  [[Pubkey; 10]; 101] owners of the orders resting on the yes side, by price
//  50000..58080  [[u64; 10]; 101]   settlement kind of those orders (0 empty, 1 token, 2 collateral)
//  60000..68080  [[u64; 10]; 101]   quantity of those orders
//  70000..73200  [Pubkey; 100]      payout recipients
//  80000..83200  [Pubkey; 100]      payout assets
//  90000..90800  [u64; 100]         payout amounts
// 100000..132320 [[Pubkey; 10]; 101] owners of the orders resting on the no side, by price
// 140000..148080 [[u64; 10]; 101]   settlement kind of those orders
// 150000..158080 [[u64; 10]; 101]   quantity of those orders
//
// Each side has queues of its own. Those of the no side come after the
// ledger, so that every other table keeps its place.
pub const YES_BUY_AMOUNT_START_OFFSET: usize = 1000;

pub const NO_BUY_AMOUNT_START_OFFSET: usize = 2000;

pub const USER_ACCOUNTS_FOR_PRICE_START_OFFSET: usize = 10000;

pub const PAYOUT_IN_USD_FOR_PRICE_START_OFFSET: usize = 50000;

pub const PAYOUT_AMOUNTS_FOR_PRICE_START_OFFSET: usize = 60000;

pub const PAYOUT_USER_ACCOUNTS_OFFSET: usize = 70000;

pub const PAYOUT_MINTS_OFFSET: usize = 80000;

pub const PAYOUT_AMOUNTS_OFFSET: usize = 90000;

pub const NO_USER_ACCOUNTS_FOR_PRICE_START_OFFSET: usize = 100000;

pub const NO_PAYOUT_IN_USD_FOR_PRICE_START_OFFSET: usize = 140000;

pub const NO_PAYOUT_AMOUNTS_FOR_PRICE_START_OFFSET: usize = 150000;

/// Where the payout ledger ends: a buffer of this length holds the whole
/// ledger.
pub const PAYOUT_LEDGER_END: usize = 90800;

/// Length in bytes of a buffer that holds every field of the layout.
pub const MARKET_DATA_LEN: usize = 158080;

pub const PUBKEY_USIZE: usize = 32;

pub const U64_USIZE: usize = 8;

pub const PUBKEY_10_USIZE: usize = 320;

pub const U64_10_USIZE: usize = 80;

/// The integer that the eight bytes of `bytes` from `offset` on encode.
pub open spec fn u64_at(bytes: Seq<u8>, offset: int) -> u64 {
    spec_u64_from_le_bytes(bytes.subrange(offset, offset + 8))
}

/// The identity that the 32 bytes of `bytes` from `offset` on hold.
pub open spec fn pubkey_at(bytes: Seq<u8>, offset: int) -> Seq<u8> {
    bytes.subrange(offset, offset + 32)
}

/// `after` has the length of `before` and differs from it at most in `lo..hi`.
pub open spec fn unchanged_outside(before: Seq<u8>, after: Seq<u8>, lo: int, hi: int) -> bool {
    &&& after.len() == before.len()
    &&& forall|i: int| 0 <= i < before.len() && !(lo <= i < hi) ==> after[i] == before[i]
}

/// Two buffers that agree on `lo..hi` hold the same bytes there.
pub proof fn lemma_same_bytes(a: Seq<u8>, b: Seq<u8>, lo: int, hi: int)
    requires
        0 <= lo <= hi <= a.len(),
        hi <= b.len(),
        forall|i: int| lo <= i < hi ==> a[i] == b[i],
    ensures
        a.subrange(lo, hi) == b.subrange(lo, hi),
{
    assert(a.subrange(lo, hi) =~= b.subrange(lo, hi));
}

/// A write leaves every field that lies outside it as it was.
pub proof fn lemma_field_untouched(
    before: Seq<u8>,
    after: Seq<u8>,
    lo: int,
    hi: int,
    field: int,
    width: int,
)
    requires
        unchanged_outside(before, after, lo, hi),
        0 <= field,
        0 <= width,
        field + width <= before.len(),
        field + width <= lo || hi <= field,
    ensures
        after.subrange(field, field + width) == before.subrange(field, field + width),
{
    lemma_same_bytes(after, before, field, field + width);
}

pub fn get_u8_at_ptr(data: &[u8]) -> (value: u8)
    requires
        data.len() >= 1,
    ensures
        value == data@[0],
{
    data[0]
}

pub fn get_u8_at_ptr_offset(data: &[u8], offset: usize) -> (value: u8)
    requires
        offset < data.len(),
    ensures
        value == data@[offset as int],
{
    get_u8_at_ptr(slice_subrange(data, offset, data.len()))
}

pub fn set_u8_at_ptr_offset(data: &mut [u8], offset: usize, value: u8)
    requires
        offset < old(data).len(),
    ensures
        final(data)@ == old(data)@.update(offset as int, value),
{
    data[offset] = value;
}

pub fn set_u8_at_ptr(data: &mut [u8], value: u8)
    requires
        old(data).len() >= 1,
    ensures
        final(data)@ == old(data)@.update(0, value),
{
    set_u8_at_ptr_offset(data, 0, value);
}

pub fn get_u64_at_ptr(data: &[u8]) -> (num: u64)
    requires
        data.len() >= 8,
    ensures
        num == u64_at(data@, 0),
{
    u64_from_le_bytes(slice_subrange(data, 0, U64_USIZE))
}

pub fn get_u64_at_ptr_offset(data: &[u8], offset: usize) -> (num: u64)
    requires
        offset + 8 <= data.len(),
    ensures
        num == u64_at(data@, offset as int),
{
    let tail = slice_subrange(data, offset, data.len());
    assert(tail@.subrange(0, 8) =~= data@.subrange(offset as int, offset + 8));
    get_u64_at_ptr(tail)
}

pub fn set_u64_at_ptr_offset(data: &mut [u8], offset: usize, num: u64)
    requires
        offset + 8 <= old(data).len(),
    ensures
        unchanged_outside(old(data)@, final(data)@, offset as int, offset + 8),
        final(data)@.subrange(offset as int, offset + 8) == spec_u64_to_le_bytes(num),
        u64_at(final(data)@, offset as int) == num,
{
    let bytes = u64_to_le_bytes(num);
    proof {
        lemma_auto_spec_u64_to_from_le_bytes();
    }
    let mut i: usize = 0;
    while i < U64_USIZE
        invariant
            i <= 8,
            bytes@.len() == 8,
            offset + 8 <= data.len(),
            unchanged_outside(old(data)@, data@, offset as int, offset + i),
            forall|j: int| 0 <= j < i ==> data@[offset + j] == bytes@[j],
        decreases 8 - i,
    {
        data[offset + i] = bytes[i];
        i += 1;
    }
    assert(data@.subrange(offset as int, offset + 8) =~= bytes@);
}

pub fn set_u64_at_ptr(data: &mut [u8], num: u64)
    requires
        old(data).len() >= 8,
    ensures
        unchanged_outside(old(data)@, final(data)@, 0, 8),
        final(data)@.subrange(0, 8) == spec_u64_to_le_bytes(num),
        u64_at(final(data)@, 0) == num,
{
    set_u64_at_ptr_offset(data, 0, num);
}

pub fn get_pubkey_at_ptr(data: &[u8]) -> (pubkey: Pubkey)
    requires
        data.len() >= 32,
    ensures
        pubkey@ == pubkey_at(data@, 0),
{
    let mut bytes: [u8; 32] = [0u8; 32];
    let mut i: usize = 0;
    while i < PUBKEY_USIZE
        invariant
            i <= 32,
            data.len() >= 32,
            forall|j: int| 0 <= j < i ==> bytes@[j] == data@[j],
        decreases 32 - i,
    {
        bytes[i] = data[i];
        i += 1;
    }
    assert(bytes@ =~= data@.subrange(0, 32));
    Pubkey::new_from_array(bytes)
}

pub fn get_pubkey_at_ptr_offset(data: &[u8], offset: usize) -> (pubkey: Pubkey)
    requires
        offset + 32 <= data.len(),
    ensures
        pubkey@ == pubkey_at(data@, offset as int),
{
    let tail = slice_subrange(data, offset, data.len());
    assert(tail@.subrange(0, 32) =~= data@.subrange(offset as int, offset + 32));
    get_pubkey_at_ptr(tail)
}

pub fn set_pubkey_at_ptr_offset(data: &mut [u8], offset: usize, pubkey: Pubkey)
    requires
        offset + 32 <= old(data).len(),
    ensures
        unchanged_outside(old(data)@, final(data)@, offset as int, offset + 32),
        pubkey_at(final(data)@, offset as int) == pubkey@,
{
    let bytes = pubkey.to_bytes();
    let mut i: usize = 0;
    while i < PUBKEY_USIZE
        invariant
            i <= 32,
            bytes == pubkey.0,
            offset + 32 <= data.len(),
            unchanged_outside(old(data)@, data@, offset as int, offset + i),
            forall|j: int| 0 <= j < i ==> data@[offset + j] == bytes@[j],
        decreases 32 - i,
    {
        data[offset + i] = bytes[i];
        i += 1;
    }
    assert(data@.subrange(offset as int, offset + 32) =~= pubkey@);
}

pub fn set_pubkey_at_ptr(data: &mut [u8], pubkey: Pubkey)
    requires
        old(data).len() >= 32,
    ensures
        unchanged_outside(old(data)@, final(data)@, 0, 32),
        pubkey_at(final(data)@, 0) == pubkey@,
{
    set_pubkey_at_ptr_offset(data, 0, pubkey);
}

pub fn get_pubkey_10_at_ptr_offset(data: &[u8], offset: usize) -> (pubkey_10: [Pubkey; 10])
    requires
        offset + 320 <= data.len(),
    ensures
        forall|i: int| 0 <= i < 10 ==> (#[trigger] pubkey_10[i])@ == pubkey_at(data@, offset + 32 * i),
{
    let mut arr: [Pubkey; 10] = [Pubkey::null(); 10];
    let mut i: usize = 0;
    while i < 10
        invariant
            i <= 10,
            offset + 320 <= data.len(),
            forall|j: int| 0 <= j < i ==> (#[trigger] arr[j])@ == pubkey_at(data@, offset + 32 * j),
        decreases 10 - i,
    {
        arr[i] = get_pubkey_at_ptr_offset(data, offset + i * PUBKEY_USIZE);
        i += 1;
    }
    arr
}

pub fn set_pubkey_10_at_ptr_offset(data: &mut [u8], offset: usize, pubkey_10: [Pubkey; 10])
    requires
        offset + 320 <= old(data).len(),
    ensures
        unchanged_outside(old(data)@, final(data)@, offset as int, offset + 320),
        forall|i: int|
            0 <= i < 10 ==> pubkey_at(final(data)@, offset + 32 * i) == (#[trigger] pubkey_10[i])@,
{
    let mut i: usize = 0;
    while i < 10
        invariant
            i <= 10,
            offset + 320 <= data.len(),
            unchanged_outside(old(data)@, data@, offset as int, offset + 32 * i),
            forall|j: int|
                0 <= j < i ==> pubkey_at(data@, offset + 32 * j) == (#[trigger] pubkey_10[j])@,
        decreases 10 - i,
    {
        let ghost before = data@;
        set_pubkey_at_ptr_offset(data, offset + i * PUBKEY_USIZE, pubkey_10[i]);
        proof {
            assert forall|j: int| 0 <= j < i implies pubkey_at(data@, offset + 32 * j) == (
            #[trigger] pubkey_10[j])@ by {
                lemma_field_untouched(
                    before,
                    data@,
                    offset + 32 * i,
                    offset + 32 * i + 32,
                    offset + 32 * j,
                    32,
                );
            }
        }
        i += 1;
    }
}

pub fn get_u64_10_at_ptr_offset(data: &[u8], offset: usize) -> (num_10: [u64; 10])
    requires
        offset + 80 <= data.len(),
    ensures
        forall|i: int| 0 <= i < 10 ==> #[trigger] num_10[i] == u64_at(data@, offset + 8 * i),
{
    let mut arr: [u64; 10] = [0; 10];
    let mut i: usize = 0;
    while i < 10
        invariant
            i <= 10,
            offset + 80 <= data.len(),
            forall|j: int| 0 <= j < i ==> #[trigger] arr[j] == u64_at(data@, offset + 8 * j),
        decreases 10 - i,
    {
        arr[i] = get_u64_at_ptr_offset(data, offset + i * U64_USIZE);
        i += 1;
    }
    arr
}

pub fn set_u64_10_at_ptr_offset(data: &mut [u8], offset: usize, num_10: [u64; 10])
    requires
        offset + 80 <= old(data).len(),
    ensures
        unchanged_outside(old(data)@, final(data)@, offset as int, offset + 80),
        forall|i: int| 0 <= i < 10 ==> u64_at(final(data)@, offset + 8 * i) == #[trigger] num_10[i],
        forall|i: int|
            0 <= i < 10 ==> final(data)@.subrange(offset + 8 * i, offset + 8 * i + 8)
                == spec_u64_to_le_bytes(#[trigger] num_10[i]),
{
    let mut i: usize = 0;
    while i < 10
        invariant
            i <= 10,
            offset + 80 <= data.len(),
            unchanged_outside(old(data)@, data@, offset as int, offset + 8 * i),
            forall|j: int| 0 <= j < i ==> u64_at(data@, offset + 8 * j) == #[trigger] num_10[j],
            forall|j: int|
                0 <= j < i ==> data@.subrange(offset + 8 * j, offset + 8 * j + 8)
                    == spec_u64_to_le_bytes(#[trigger] num_10[j]),
        decreases 10 - i,
    {
        let ghost before = data@;
        set_u64_at_ptr_offset(data, offset + i * U64_USIZE, num_10[i]);
        proof {
            assert forall|j: int| 0 <= j < i implies u64_at(data@, offset + 8 * j)
                == #[trigger] num_10[j] && data@.subrange(offset + 8 * j, offset + 8 * j + 8)
                == spec_u64_to_le_bytes(num_10[j]) by {
                lemma_field_untouched(
                    before,
                    data@,
                    offset + 8 * i,
                    offset + 8 * i + 8,
                    offset + 8 * j,
                    8,
                );
            }
        }
        i += 1;
    }
}

/// One entry of the payout ledger: `amount` of the asset `mint` is owed to
/// `recipient`.
#[derive(Clone, Copy, Debug)]
pub struct Payout {
    pub recipient: Pubkey,
    pub mint: Pubkey,
    pub amount: u64,
}

impl View for Payout {
    type V = PayoutView;

    open spec fn view(&self) -> PayoutView {
        PayoutView { recipient: self.recipient@, mint: self.mint@, amount: self.amount }
    }
}

pub fn payout_exists_at_index(data: &[u8], index: usize) -> (exists: bool)
    requires
        data.len() >= PAYOUT_LEDGER_END,
        index < 100,
    ensures
        exists == !book_of(data@).payouts[index as int].is_free(),
{
    let payout_user_account_offset = PAYOUT_USER_ACCOUNTS_OFFSET + PUBKEY_USIZE * index;
    let recipient = get_pubkey_at_ptr_offset(data, payout_user_account_offset);
    let null = Pubkey::null();
    proof {
        Pubkey::lemma_eq_iff_same_bytes(recipient, null);
        if is_null_identity(recipient@) {
            assert(recipient@ =~= null@);
        }
    }
    if recipient == null {
        false
    } else {
        true
    }
}

pub fn get_payout_at_index(data: &[u8], index: usize) -> (payout: (Pubkey, Pubkey, u64))
    requires
        data.len() >= PAYOUT_LEDGER_END,
        index < 100,
    ensures
        (Payout { recipient: payout.0, mint: payout.1, amount: payout.2 })@ == book_of(
            data@,
        ).payouts[index as int],
{
    let payout_user_account_offset = PAYOUT_USER_ACCOUNTS_OFFSET + PUBKEY_USIZE * index;
    let payout_mints_offset = PAYOUT_MINTS_OFFSET + PUBKEY_USIZE * index;
    let payout_amounts_offset = PAYOUT_AMOUNTS_OFFSET + U64_USIZE * index;
    (
        get_pubkey_at_ptr_offset(data, payout_user_account_offset),
        get_pubkey_at_ptr_offset(data, payout_mints_offset),
        get_u64_at_ptr_offset(data, payout_amounts_offset),
    )
}

pub fn set_payout_at_index(
    data: &mut [u8],
    index: usize,
    payout_user_account: Pubkey,
    payout_mint: Pubkey,
    payout_amount: u64,
)
    requires
        old(data).len() >= MARKET_DATA_LEN,
        index < 100,
    ensures
        book_of(final(data)@) == book_of(old(data)@).with_payouts(
            book_of(old(data)@).payouts.update(
                index as int,
                (Payout {
                    recipient: payout_user_account,
                    mint: payout_mint,
                    amount: payout_amount,
                })@,
            ),
        ),
        same_outside_book(old(data)@, final(data)@),
{
    let payout_user_account_offset = PAYOUT_USER_ACCOUNTS_OFFSET + PUBKEY_USIZE * index;
    let payout_mints_offset = PAYOUT_MINTS_OFFSET + PUBKEY_USIZE * index;
    let payout_amounts_offset = PAYOUT_AMOUNTS_OFFSET + U64_USIZE * index;
    set_pubkey_at_ptr_offset(data, payout_user_account_offset, payout_user_account);
    let ghost with_recipient = data@;
    set_pubkey_at_ptr_offset(data, payout_mints_offset, payout_mint);
    let ghost with_mint = data@;
    set_u64_at_ptr_offset(data, payout_amounts_offset, payout_amount);
    proof {
        let before = book_of(old(data)@);
        let after = book_of(data@);
        let slot = index as int;
        lemma_write_keeps_entries(
            old(data)@,
            with_recipient,
            payout_recipient_offset(slot),
            payout_recipient_offset(slot) + 32,
        );
        lemma_write_keeps_entries(
            with_recipient,
            with_mint,
            payout_mint_offset(slot),
            payout_mint_offset(slot) + 32,
        );
        lemma_write_keeps_entries(
            with_mint,
            data@,
            payout_amount_offset(slot),
            payout_amount_offset(slot) + 8,
        );
        lemma_field_untouched(
            with_recipient,
            with_mint,
            payout_mint_offset(slot),
            payout_mint_offset(slot) + 32,
            payout_recipient_offset(slot),
            32,
        );
        lemma_field_untouched(
            with_mint,
            data@,
            payout_amount_offset(slot),
            payout_amount_offset(slot) + 8,
            payout_recipient_offset(slot),
            32,
        );
        lemma_field_untouched(
            with_mint,
            data@,
            payout_amount_offset(slot),
            payout_amount_offset(slot) + 8,
            payout_mint_offset(slot),
            32,
        );
        assert(after.yes_buy_amounts =~= before.yes_buy_amounts);
        assert(after.no_buy_amounts =~= before.no_buy_amounts);
        assert forall|side: bool, level: int| 0 <= level <= 100 implies #[trigger] queue_at(
            data@,
            side,
            level,
        ) == queue_at(old(data)@, side, level) by {
            assert forall|j: int| 0 <= j < 10 implies #[trigger] order_at(data@, side, level, j)
                == order_at(old(data)@, side, level, j) by {
                assert(order_at(with_recipient, side, level, j) == order_at(
                    old(data)@,
                    side,
                    level,
                    j,
                ));
                assert(order_at(with_mint, side, level, j) == order_at(
                    with_recipient,
                    side,
                    level,
                    j,
                ));
            }
            lemma_queue_kept(old(data)@, data@, side, level);
        }
        assert(after.yes_queues =~= before.yes_queues);
        assert(after.no_queues =~= before.no_queues);
        assert forall|other: int| 0 <= other < 100 && other != slot implies payout_at(
            data@,
            other,
        ) == payout_at(old(data)@, other) by {
            assert(payout_at(with_recipient, other) == payout_at(old(data)@, other));
            assert(payout_at(with_mint, other) == payout_at(with_recipient, other));
        }
        assert(after.payouts =~= before.payouts.update(
            slot,
            (Payout {
                recipient: payout_user_account,
                mint: payout_mint,
                amount: payout_amount,
            })@,
        ));
    }
}

/// Length in bytes of the packed market record.
pub const BETTING_MARKET_LEN: usize = 138;

/// The market record: whether the market is initialized, its result
/// (0 unresolved, 1 yes, 2 no), the yes and no token mints, the account that
/// holds the collateral, the strike price and the judge.
#[derive(Clone, Copy, Debug)]
pub struct BettingMarket {
    pub is_initialized: bool,
    pub result: u8,
    pub yes_token_mint: Pubkey,
    pub no_token_mint: Pubkey,
    pub usd_token_account: Pubkey,
    pub strike_price: u64,
    pub judge: Pubkey,
}

/// The fields of a market record, identities as byte sequences.
pub struct BettingMarketView {
    pub is_initialized: bool,
    pub result: u8,
    pub yes_token_mint: Seq<u8>,
    pub no_token_mint: Seq<u8>,
    pub usd_token_account: Seq<u8>,
    pub strike_price: u64,
    pub judge: Seq<u8>,
}

impl View for BettingMarket {
    type V = BettingMarketView;

    open spec fn view(&self) -> BettingMarketView {
        BettingMarketView {
            is_initialized: self.is_initialized,
            result: self.result,
            yes_token_mint: self.yes_token_mint@,
            no_token_mint: self.no_token_mint@,
            usd_token_account: self.usd_token_account@,
            strike_price: self.strike_price,
            judge: self.judge@,
        }
    }
}

impl BettingMarketView {
    /// Every identity of the record has 32 bytes.
    pub open spec fn well_formed(self) -> bool {
        &&& self.yes_token_mint.len() == 32
        &&& self.no_token_mint.len() == 32
        &&& self.usd_token_account.len() == 32
        &&& self.judge.len() == 32
    }
}

/// The 138 bytes that hold a market record: the flag, the result, the two
/// mints, the collateral account, the strike price in little-endian order,
/// and the judge.
pub open spec fn packed(market: BettingMarketView) -> Seq<u8> {
    seq![
        if market.is_initialized {
            1u8
        } else {
            0u8
        },
        market.result,
    ] + market.yes_token_mint + market.no_token_mint + market.usd_token_account
        + spec_u64_to_le_bytes(market.strike_price) + market.judge
}

/// The market record that the first 138 bytes of `bytes` hold, if they hold
/// one: the first byte has to be 0 or 1.
pub open spec fn unpacked(bytes: Seq<u8>) -> Option<BettingMarketView> {
    if bytes.len() < 138 || bytes[0] > 1 {
        None
    } else {
        Some(
            BettingMarketView {
                is_initialized: bytes[0] == 1,
                result: bytes[1],
                yes_token_mint: pubkey_at(bytes, 2),
                no_token_mint: pubkey_at(bytes, 34),
                usd_token_account: pubkey_at(bytes, 66),
                strike_price: u64_at(bytes, 98),
                judge: pubkey_at(bytes, 106),
            },
        )
    }
}

/// Packing a market record and unpacking the bytes gives the record back.
pub proof fn lemma_unpack_of_packed(market: BettingMarketView)
    requires
        market.well_formed(),
    ensures
        packed(market).len() == 138,
        unpacked(packed(market)) == Some(market),
{
    lemma_auto_spec_u64_to_from_le_bytes();
    let bytes = packed(market);
    assert(pubkey_at(bytes, 2) =~= market.yes_token_mint);
    assert(pubkey_at(bytes, 34) =~= market.no_token_mint);
    assert(pubkey_at(bytes, 66) =~= market.usd_token_account);
    assert(bytes.subrange(98, 106) =~= spec_u64_to_le_bytes(market.strike_price));
    assert(pubkey_at(bytes, 106) =~= market.judge);
}

/// A buffer whose first 138 bytes are a packed market record unpacks to that
/// record, whatever follows them.
pub proof fn lemma_unpack_after_pack(market: BettingMarket, bytes: Seq<u8>)
    requires
        bytes.len() >= 138,
        bytes.subrange(0, 138) == packed(market@),
    ensures
        unpacked(bytes) == Some(market@),
{
    lemma_unpack_of_packed(market@);
    let record = bytes.subrange(0, 138);
    assert(bytes[0] == record[0]);
    assert(bytes[1] == record[1]);
    assert(pubkey_at(bytes, 2) =~= pubkey_at(record, 2));
    assert(pubkey_at(bytes, 34) =~= pubkey_at(record, 34));
    assert(pubkey_at(bytes, 66) =~= pubkey_at(record, 66));
    assert(bytes.subrange(98, 106) =~= record.subrange(98, 106));
    assert(pubkey_at(bytes, 106) =~= pubkey_at(record, 106));
}

/// Unpacking 138 bytes and packing the record gives the bytes back.
pub proof fn lemma_packed_of_unpacked(bytes: Seq<u8>)
    requires
        bytes.len() == 138,
        unpacked(bytes) is Some,
    ensures
        packed(unpacked(bytes)->0) == bytes,
{
    lemma_auto_spec_u64_to_from_le_bytes();
    let market = unpacked(bytes)->0;
    assert(spec_u64_to_le_bytes(market.strike_price) == bytes.subrange(98, 106));
    assert(packed(market) =~= bytes);
}

/// Two market records with the same fields are the same record.
pub proof fn lemma_same_fields_same_market(a: BettingMarket, b: BettingMarket)
    requires
        a@ == b@,
    ensures
        a == b,
{
    Pubkey::lemma_eq_iff_same_bytes(a.yes_token_mint, b.yes_token_mint);
    Pubkey::lemma_eq_iff_same_bytes(a.no_token_mint, b.no_token_mint);
    Pubkey::lemma_eq_iff_same_bytes(a.usd_token_account, b.usd_token_account);
    Pubkey::lemma_eq_iff_same_bytes(a.judge, b.judge);
}

impl BettingMarket {
    pub fn is_initialized(&self) -> (initialized: bool)
        ensures
            initialized == self.is_initialized,
    {
        self.is_initialized
    }

    /// Reads a market record from the first 138 bytes of `src`.
    pub fn unpack_from_slice(src: &[u8]) -> (result: Result<BettingMarket, BettingMarketError>)
        requires
            src.len() >= BETTING_MARKET_LEN,
        ensures
            match result {
                Ok(market) => unpacked(src@) == Some(market@),
                Err(e) => e == BettingMarketError::InvalidAccountData && unpacked(src@) is None,
            },
    {
        let is_initialized = match src[0] {
            0 => false,
            1 => true,
            _ => {
                return Err(BettingMarketError::InvalidAccountData);
            },
        };
        Ok(
            BettingMarket {
                is_initialized,
                result: src[1],
                yes_token_mint: get_pubkey_at_ptr_offset(src, 2),
                no_token_mint: get_pubkey_at_ptr_offset(src, 34),
                usd_token_account: get_pubkey_at_ptr_offset(src, 66),
                strike_price: get_u64_at_ptr_offset(src, 98),
                judge: get_pubkey_at_ptr_offset(src, 106),
            },
        )
    }

    /// Writes the market record to the first 138 bytes of `dst`.
    pub fn pack_into_slice(&self, dst: &mut [u8])
        requires
            old(dst).len() >= BETTING_MARKET_LEN,
        ensures
            unchanged_outside(old(dst)@, final(dst)@, 0, 138),
            final(dst)@.subrange(0, 138) == packed(self@),
    {
        dst[0] = if self.is_initialized {
            1
        } else {
            0
        };
        dst[1] = self.result;
        let ghost start = dst@;
        set_pubkey_at_ptr_offset(dst, 2, self.yes_token_mint);
        let ghost with_yes = dst@;
        set_pubkey_at_ptr_offset(dst, 34, self.no_token_mint);
        let ghost with_no = dst@;
        set_pubkey_at_ptr_offset(dst, 66, self.usd_token_account);
        let ghost with_usd = dst@;
        set_u64_at_ptr_offset(dst, 98, self.strike_price);
        let ghost with_strike = dst@;
        set_pubkey_at_ptr_offset(dst, 106, self.judge);
        proof {
            lemma_auto_spec_u64_to_from_le_bytes();
            let written = dst@.subrange(0, 138);
            let expected = packed(self@);
            assert forall|i: int| 0 <= i < 138 implies written[i] == expected[i] by {
                if i < 2 {
                    assert(dst@[i] == start[i]);
                } else if i < 34 {
                    assert(dst@[i] == with_yes[i]);
                    assert(with_yes[i] == pubkey_at(with_yes, 2)[i - 2]);
                } else if i < 66 {
                    assert(dst@[i] == with_no[i]);
                    assert(with_no[i] == pubkey_at(with_no, 34)[i - 34]);
                } else if i < 98 {
                    assert(dst@[i] == with_usd[i]);
                    assert(with_usd[i] == pubkey_at(with_usd, 66)[i - 66]);
                } else if i < 106 {
                    assert(dst@[i] == with_strike[i]);
                    assert(with_strike[i] == with_strike.subrange(98, 106)[i - 98]);
                } else {
                    assert(dst@[i] == pubkey_at(dst@, 106)[i - 106]);
                }
            }
            assert(written =~= expected);
        }
    }

    /// Reads a market record from `input`, which has to be exactly as long
    /// as a record.
    pub fn unpack_unchecked(input: &[u8]) -> (result: Result<BettingMarket, BettingMarketError>)
        ensures
            match result {
                Ok(market) => input@.len() == 138 && unpacked(input@) == Some(market@),
                Err(e) => e == BettingMarketError::InvalidAccountData && (input@.len() != 138
                    || unpacked(input@) is None),
            },
    {
        if input.len() != BETTING_MARKET_LEN {
            return Err(BettingMarketError::InvalidAccountData);
        }
        Self::unpack_from_slice(input)
    }

    /// Writes the market record `src` to `dst`, which has to be exactly as
    /// long as a record.
    pub fn pack(src: BettingMarket, dst: &mut [u8]) -> (result: Result<(), BettingMarketError>)
        ensures
            match result {
                Ok(()) => old(dst)@.len() == 138 && final(dst)@ == packed(src@),
                Err(e) => e == BettingMarketError::InvalidAccountData && old(dst)@.len() != 138
                    && final(dst)@ == old(dst)@,
            },
    {
        if dst.len() != BETTING_MARKET_LEN {
            return Err(BettingMarketError::InvalidAccountData);
        }
        src.pack_into_slice(dst);
        assert(dst@.subrange(0, 138) =~= dst@);
        Ok(())
    }
}

} // verus!
