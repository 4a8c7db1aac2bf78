use crate::book::{book_of, same_outside_book, Book};
use crate::error::BettingMarketError;
use crate::matching::{offer_trade, trade_funding, TradeFunding};
use crate::processor::Processor;
use crate::pubkey::Pubkey;
use crate::settlement::{redemption, Redemption, RESULT_NO, RESULT_YES};
use crate::pda::{authority_check, authority_seed, program_address};
use crate::state::{pubkey_at, u64_at, BETTING_MARKET_LEN, MARKET_DATA_LEN};
use vstd::prelude::*;

verus! {

/// What the data of an account of the token program holds: the mint of the
/// account and its balance; or, where the data is no initialized account,
/// the host's number of the error.
pub uninterp spec fn token_account(data: Seq<u8>) -> Result<(Seq<u8>, u64), u64>;

/// Calls `unpack` of `solana_program::program_pack::Pack` for
/// `spl_token::state::Account`, and gives the mint and the balance of the
/// account, or the error as the host's number for it, which `u64::from`
/// gives for a `solana_program::program_error::ProgramError`.
///
/// Believed of it, not proved: what it gives depends on the bytes of `data`
/// alone; `token_account` is the name of that. And where it gives an
/// account, the data has the 165 bytes of one, the mint is the first 32 of
/// them, and the balance the eight from byte 64 on, in little-endian order.
#[verifier::external_body]
fn unpack_token_account(data: &[u8]) -> (account: Result<(Pubkey, u64), u64>)
    ensures
        match account {
            Ok((mint, amount)) => token_account(data@) == Ok::<(Seq<u8>, u64), u64>(
                (mint@, amount),
            ) && data@.len() == 165 && mint@ == pubkey_at(data@, 0) && amount == u64_at(
                data@,
                64,
            ),
            Err(code) => token_account(data@) == Err::<(Seq<u8>, u64), u64>(code),
        },
{
    let unpacked: Result<spl_token::state::Account, solana_program::program_error::ProgramError> =
        solana_program::program_pack::Pack::unpack(data);
    match unpacked {
        Ok(account) => Ok((Pubkey(account.mint.to_bytes()), account.amount)),
        Err(e) => Err(u64::from(e)),
    }
}

/// How a submission is paid for, as read from the user's token accounts: the
/// funding, the balance of the account of the other side's token, and the
/// mint of that account, from which tokens are burnt.
#[derive(Clone, Copy, Debug)]
pub struct OfferedTrade {
    pub funding: TradeFunding,
    pub inverse_balance: u64,
    pub inverse_sell_mint: Pubkey,
}

/// What the funding of a submission is once the control account is checked
/// and the user's three token accounts are read: a control account that is
/// not the market's authority stops it; then the first account, in the order
/// yes, no, collateral, that is no initialized token account stops it; otherwise the funding follows from the
/// balance of the account of the other side's token. Gives the funding, that
/// balance and the mint of that account.
pub open spec fn funding_from_accounts(
    authority: Result<u8, BettingMarketError>,
    is_yes: bool,
    price: u64,
    amount: u64,
    yes_account: Result<(Seq<u8>, u64), u64>,
    no_account: Result<(Seq<u8>, u64), u64>,
    usd_account: Result<(Seq<u8>, u64), u64>,
) -> Result<(TradeFunding, u64, Seq<u8>), BettingMarketError> {
    if authority is Err {
        Err(authority->Err_0)
    } else if yes_account is Err {
        Err(BettingMarketError::Program(yes_account->Err_0))
    } else if no_account is Err {
        Err(BettingMarketError::Program(no_account->Err_0))
    } else if usd_account is Err {
        Err(BettingMarketError::Program(usd_account->Err_0))
    } else {
        let inverse = if is_yes {
            no_account->Ok_0
        } else {
            yes_account->Ok_0
        };
        match trade_funding(price, amount, inverse.1) {
            Ok(funding) => Ok((funding, inverse.1, inverse.0)),
            Err(e) => Err(e),
        }
    }
}

/// What a submission gives once the control account is checked and the
/// user's three token accounts are read: a control account that is not the
/// market's authority, or an account that is no initialized token account,
/// stops it before anything changes; otherwise it is executed with the balance of the account of the
/// other side's token.
pub open spec fn offer_trade_from_accounts(
    book: Book,
    authority: Result<u8, BettingMarketError>,
    is_yes: bool,
    price: u64,
    amount: u64,
    owner: Seq<u8>,
    yes_account: Result<(Seq<u8>, u64), u64>,
    no_account: Result<(Seq<u8>, u64), u64>,
    usd_account: Result<(Seq<u8>, u64), u64>,
    yes_mint: Seq<u8>,
    no_mint: Seq<u8>,
    collateral_mint: Seq<u8>,
) -> (Book, Result<(TradeFunding, Seq<u8>), BettingMarketError>) {
    if authority is Err {
        (book, Err(authority->Err_0))
    } else if yes_account is Err {
        (book, Err(BettingMarketError::Program(yes_account->Err_0)))
    } else if no_account is Err {
        (book, Err(BettingMarketError::Program(no_account->Err_0)))
    } else if usd_account is Err {
        (book, Err(BettingMarketError::Program(usd_account->Err_0)))
    } else {
        let inverse = if is_yes {
            no_account->Ok_0
        } else {
            yes_account->Ok_0
        };
        let executed = offer_trade(
            book,
            is_yes,
            price,
            amount,
            inverse.1,
            owner,
            yes_mint,
            no_mint,
            collateral_mint,
        );
        match executed.1 {
            Ok(funding) => (executed.0, Ok((funding, inverse.0))),
            Err(e) => (executed.0, Err(e)),
        }
    }
}

/// What a user redeems once the two token accounts are read: an account that
/// is no initialized token account stops the redemption.
pub open spec fn redemption_from_accounts(
    result: u8,
    yes_account: Result<(Seq<u8>, u64), u64>,
    no_account: Result<(Seq<u8>, u64), u64>,
) -> Result<Option<Redemption>, BettingMarketError> {
    if result != RESULT_YES && result != RESULT_NO {
        Ok(None)
    } else if yes_account is Err {
        Err(BettingMarketError::Program(yes_account->Err_0))
    } else if no_account is Err {
        Err(BettingMarketError::Program(no_account->Err_0))
    } else {
        redemption(result, yes_account->Ok_0.1, no_account->Ok_0.1)
    }
}

impl Processor {
    /// Executes the submission of `amount` at `price` on one side by
    /// `user_account`, whose three token accounts hold the given data: the
    /// balance of the account of the other side's token is used first, and
    /// the rest is paid for in collateral. Gives the funding that is to be
    /// collected, and the mint of the account from which tokens are burnt.
    ///
    /// `pda_key` has to be the authority of the market run by the program
    /// `program_id`, and the data of each account that of an initialized
    /// token account: a control account that is not the authority, then the
    /// first account that is no token account, in the order yes, no,
    /// collateral, then a funding that cannot be computed, stops the
    /// submission with its error, before anything changes.
    pub fn process_offer_trade(
        data: &mut [u8],
        program_id: &Pubkey,
        pda_key: &Pubkey,
        user_account: &Pubkey,
        is_yes: bool,
        price: u64,
        amount: u64,
        user_yes_token_account: &[u8],
        user_no_token_account: &[u8],
        user_usd_token_account: &[u8],
        yes_token_mint: Pubkey,
        no_token_mint: Pubkey,
        usd_token_mint: Pubkey,
    ) -> (result: Result<OfferedTrade, BettingMarketError>)
        requires
            old(data).len() >= MARKET_DATA_LEN,
        ensures
            same_outside_book(old(data)@, final(data)@),
            book_of(final(data)@) == offer_trade_from_accounts(
                book_of(old(data)@),
                authority_check(program_address(authority_seed(), program_id@), pda_key@),
                is_yes,
                price,
                amount,
                user_account@,
                token_account(user_yes_token_account@),
                token_account(user_no_token_account@),
                token_account(user_usd_token_account@),
                yes_token_mint@,
                no_token_mint@,
                usd_token_mint@,
            ).0,
            match offer_trade_from_accounts(
                book_of(old(data)@),
                authority_check(program_address(authority_seed(), program_id@), pda_key@),
                is_yes,
                price,
                amount,
                user_account@,
                token_account(user_yes_token_account@),
                token_account(user_no_token_account@),
                token_account(user_usd_token_account@),
                yes_token_mint@,
                no_token_mint@,
                usd_token_mint@,
            ).1 {
                Ok((funding, mint)) => result is Ok && result->Ok_0.funding == funding
                    && result->Ok_0.inverse_sell_mint@ == mint && token_account(
                    if is_yes {
                        user_no_token_account@
                    } else {
                        user_yes_token_account@
                    },
                ) is Ok && result->Ok_0.inverse_balance == token_account(
                    if is_yes {
                        user_no_token_account@
                    } else {
                        user_yes_token_account@
                    },
                )->Ok_0.1,
                Err(e) => result is Err && result->Err_0 == e,
            },
            funding_from_accounts(
                authority_check(program_address(authority_seed(), program_id@), pda_key@),
                is_yes,
                price,
                amount,
                token_account(user_yes_token_account@),
                token_account(user_no_token_account@),
                token_account(user_usd_token_account@),
            ) is Err ==> final(data)@ == old(data)@,
            authority_check(program_address(authority_seed(), program_id@), pda_key@) is Err
                ==> result is Err && result->Err_0 == BettingMarketError::InvalidPda,
            book_of(old(data)@).well_formed() ==> book_of(final(data)@).well_formed(),
    {
        let offered = match Self::offer_funding(
            program_id,
            pda_key,
            is_yes,
            price,
            amount,
            user_yes_token_account,
            user_no_token_account,
            user_usd_token_account,
        ) {
            Ok(offered) => offered,
            Err(e) => {
                return Err(e);
            },
        };
        match Self::offer_trade(
            data,
            user_account,
            is_yes,
            price,
            amount,
            offered.inverse_balance,
            yes_token_mint,
            no_token_mint,
            usd_token_mint,
        ) {
            Ok(_) => Ok(offered),
            Err(e) => Err(e),
        }
    }

    /// How the submission of `amount` at `price` on one side is paid for by a
    /// user whose three token accounts hold the given data: the balance of
    /// the account of the other side's token is used first, and the rest is
    /// paid for in collateral. Nothing is changed.
    ///
    /// `pda_key` has to be the authority of the market run by the program
    /// `program_id`, and the data of each account that of an initialized
    /// token account: a control account that is not the authority, then the
    /// first account that is no token account, in the order yes, no,
    /// collateral, stops the submission with its error.
    pub fn offer_funding(
        program_id: &Pubkey,
        pda_key: &Pubkey,
        is_yes: bool,
        price: u64,
        amount: u64,
        user_yes_token_account: &[u8],
        user_no_token_account: &[u8],
        user_usd_token_account: &[u8],
    ) -> (result: Result<OfferedTrade, BettingMarketError>)
        ensures
            match funding_from_accounts(
                authority_check(program_address(authority_seed(), program_id@), pda_key@),
                is_yes,
                price,
                amount,
                token_account(user_yes_token_account@),
                token_account(user_no_token_account@),
                token_account(user_usd_token_account@),
            ) {
                Ok((funding, balance, mint)) => result is Ok && result->Ok_0.funding == funding
                    && result->Ok_0.inverse_balance == balance
                    && result->Ok_0.inverse_sell_mint@ == mint,
                Err(e) => result is Err && result->Err_0 == e,
            },
            authority_check(program_address(authority_seed(), program_id@), pda_key@) is Err
                ==> result is Err && result->Err_0 == BettingMarketError::InvalidPda,
    {
        match Self::check_pda(program_id, pda_key) {
            Ok(_) => {},
            Err(e) => {
                return Err(e);
            },
        }
        let yes_account = match unpack_token_account(user_yes_token_account) {
            Ok(account) => account,
            Err(code) => {
                return Err(BettingMarketError::Program(code));
            },
        };
        let no_account = match unpack_token_account(user_no_token_account) {
            Ok(account) => account,
            Err(code) => {
                return Err(BettingMarketError::Program(code));
            },
        };
        match unpack_token_account(user_usd_token_account) {
            Ok(_) => {},
            Err(code) => {
                return Err(BettingMarketError::Program(code));
            },
        }
        let (inverse_sell_mint, inverse_balance) = if is_yes {
            no_account
        } else {
            yes_account
        };
        match Self::trade_funding(price, amount, inverse_balance) {
            Ok(funding) => Ok(OfferedTrade { funding, inverse_balance, inverse_sell_mint }),
            Err(e) => Err(e),
        }
    }

    /// What a user whose yes and no token accounts hold the given data
    /// redeems, given the result that the market record in `data` holds:
    /// nothing while the market is unresolved; otherwise both balances are
    /// burnt and each token of the winning side is worth 100 of collateral.
    ///
    /// Once the market has a result, the data of each account has to be that
    /// of an initialized token account.
    pub fn process_redemption(
        data: &[u8],
        user_yes_token_account: &[u8],
        user_no_token_account: &[u8],
    ) -> (result: Result<Option<Redemption>, BettingMarketError>)
        requires
            data.len() >= BETTING_MARKET_LEN,
        ensures
            result == redemption_from_accounts(
                data@[1],
                token_account(user_yes_token_account@),
                token_account(user_no_token_account@),
            ),
    {
        if !Self::is_decided(data) {
            return Ok(None);
        }
        let (_, user_yes_token_amount) = match unpack_token_account(user_yes_token_account) {
            Ok(account) => account,
            Err(code) => {
                return Err(BettingMarketError::Program(code));
            },
        };
        let (_, user_no_token_amount) = match unpack_token_account(user_no_token_account) {
            Ok(account) => account,
            Err(code) => {
                return Err(BettingMarketError::Program(code));
            },
        };
        Self::redeem(data, user_yes_token_amount, user_no_token_amount)
    }
}

} // verus!
