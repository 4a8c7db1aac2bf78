use crate::book::PayoutView;
use crate::error::BettingMarketError;
use vstd::prelude::*;

verus! {

/// The market has no result yet.
pub const RESULT_UNRESOLVED: u8 = 0;

/// The yes side has won.
pub const RESULT_YES: u8 = 1;

/// The no side has won.
pub const RESULT_NO: u8 = 2;

/// The oracle quotes its price in thousand-millionths of the unit of the
/// strike price.
pub const ORACLE_PRICE_SCALE: u64 = 1_000_000_000;

/// What the asset ledger has to do to pay a queued payout.
#[derive(Clone, Copy, Debug, PartialEq, Eq, Structural)]
pub enum Settlement {
    /// Transfer `amount` of collateral from the market to the user.
    TransferCollateral { amount: u64 },
    /// Mint `amount` yes tokens to the user.
    MintYes { amount: u64 },
    /// Mint `amount` no tokens to the user.
    MintNo { amount: u64 },
}

/// What the asset ledger has to do when a user redeems tokens of a market
/// that has a result.
#[derive(Clone, Copy, Debug, PartialEq, Eq, Structural)]
pub struct Redemption {
    /// The yes tokens to burn: all that the user holds.
    pub burn_yes: u64,
    /// The no tokens to burn: all that the user holds.
    pub burn_no: u64,
    /// The collateral to transfer to the user.
    pub usd_transfer_amount: u64,
}

/// Whether the payout is queued for `user`.
pub open spec fn owed_to(payout: PayoutView, user: Seq<u8>) -> bool {
    !payout.is_free() && payout.recipient == user
}

/// How a payout is paid: collateral is transferred, tokens are minted. A
/// payout in any other asset is not paid.
pub open spec fn settlement_of(
    payout: PayoutView,
    usd_mint: Seq<u8>,
    yes_mint: Seq<u8>,
    no_mint: Seq<u8>,
) -> Option<Settlement> {
    if payout.mint == usd_mint {
        Some(Settlement::TransferCollateral { amount: payout.amount })
    } else if payout.mint == yes_mint {
        Some(Settlement::MintYes { amount: payout.amount })
    } else if payout.mint == no_mint {
        Some(Settlement::MintNo { amount: payout.amount })
    } else {
        None
    }
}

/// The first slot at or after `start` that holds a payout queued for `user`,
/// with how that payout is paid; `None` if there is none.
pub open spec fn next_due(
    payouts: Seq<PayoutView>,
    start: int,
    user: Seq<u8>,
    usd_mint: Seq<u8>,
    yes_mint: Seq<u8>,
    no_mint: Seq<u8>,
) -> Option<(usize, Option<Settlement>)>
    decreases payouts.len() - start,
{
    if start < 0 || start >= payouts.len() {
        None
    } else if owed_to(payouts[start], user) {
        Some((start as usize, settlement_of(payouts[start], usd_mint, yes_mint, no_mint)))
    } else {
        next_due(payouts, start + 1, user, usd_mint, yes_mint, no_mint)
    }
}

/// The slot that a scan from `start` finds is the least slot from `start` on
/// that holds a payout for the user; where it finds none, there is none.
pub proof fn lemma_next_due_is_the_least(
    payouts: Seq<PayoutView>,
    start: int,
    user: Seq<u8>,
    usd_mint: Seq<u8>,
    yes_mint: Seq<u8>,
    no_mint: Seq<u8>,
)
    requires
        0 <= start,
        payouts.len() <= usize::MAX,
    ensures
        match next_due(payouts, start, user, usd_mint, yes_mint, no_mint) {
            Some((slot, payment)) => start <= slot < payouts.len() && owed_to(
                payouts[slot as int],
                user,
            ) && payment == settlement_of(payouts[slot as int], usd_mint, yes_mint, no_mint)
                && forall|earlier: int|
                start <= earlier < slot ==> !owed_to(#[trigger] payouts[earlier], user),
            None => forall|slot: int|
                start <= slot < payouts.len() ==> !owed_to(#[trigger] payouts[slot], user),
        },
    decreases payouts.len() - start,
{
    if start < payouts.len() && !owed_to(payouts[start], user) {
        lemma_next_due_is_the_least(payouts, start + 1, user, usd_mint, yes_mint, no_mint);
    }
}

/// What a user who holds `yes_balance` and `no_balance` redeems when the
/// market has `result`: nothing while the market is unresolved; otherwise
/// both balances are burnt and each token of the winning side is worth 100
/// of collateral.
pub open spec fn redemption(result: u8, yes_balance: u64, no_balance: u64) -> Result<
    Option<Redemption>,
    BettingMarketError,
> {
    if result == RESULT_YES || result == RESULT_NO {
        let winning = if result == RESULT_YES {
            yes_balance
        } else {
            no_balance
        };
        if winning * 100 > u64::MAX {
            Err(BettingMarketError::AmountOverflow)
        } else {
            Ok(
                Some(
                    Redemption {
                        burn_yes: yes_balance,
                        burn_no: no_balance,
                        usd_transfer_amount: (winning * 100) as u64,
                    },
                ),
            )
        }
    } else {
        Ok(None)
    }
}

/// The result that the oracle's price gives a market with `strike_price`:
/// yes when the price is above the strike price, no otherwise. The strike
/// price counts in units of a thousand million of the oracle's.
pub open spec fn oracle_result(strike_price: u64, oracle_price: i64) -> Result<
    u8,
    BettingMarketError,
> {
    if strike_price * ORACLE_PRICE_SCALE > i64::MAX {
        Err(BettingMarketError::AmountOverflow)
    } else if oracle_price > strike_price * ORACLE_PRICE_SCALE {
        Ok(RESULT_YES)
    } else {
        Ok(RESULT_NO)
    }
}

} // verus!
