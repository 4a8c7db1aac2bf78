use crate::error::BettingMarketError;
use crate::processor::{new_market_written, record_can_be_written, Processor};
use crate::pubkey::Pubkey;
use vstd::prelude::*;

verus! {

/// The address that a program derives from a seed, with the bump seed that
/// gives it, if the program has one for the seed.
pub uninterp spec fn program_address(seed: Seq<u8>, program_id: Seq<u8>) -> Option<(Seq<u8>, u8)>;

/// The seed from which the market derives its authority: the ASCII bytes of
/// the word "betting".
pub open spec fn authority_seed() -> Seq<u8> {
    seq![98u8, 101u8, 116u8, 116u8, 105u8, 110u8, 103u8]
}

/// Calls `solana_program::pubkey::Pubkey::try_find_program_address` with the
/// one seed `seed`.
///
/// Believed of it, not proved: what it gives depends on the seed and the
/// program id alone; `program_address` is the name of that.
#[verifier::external_body]
fn try_find_program_address(seed: &[u8], program_id: &Pubkey) -> (found: Option<(Pubkey, u8)>)
    ensures
        match found {
            Some((address, bump)) => program_address(seed@, program_id@) == Some((address@, bump)),
            None => program_address(seed@, program_id@) is None,
        },
{
    let id = solana_program::pubkey::Pubkey::new_from_array(program_id.0);
    match solana_program::pubkey::Pubkey::try_find_program_address(&[seed], &id) {
        Some((address, bump)) => Some((Pubkey(address.to_bytes()), bump)),
        None => None,
    }
}

/// Whether `pda_key` is the derived address: gives the bump seed if it is.
pub open spec fn authority_check(derived: Option<(Seq<u8>, u8)>, pda_key: Seq<u8>) -> Result<
    u8,
    BettingMarketError,
> {
    match derived {
        Some((address, bump)) => if address == pda_key {
            Ok(bump)
        } else {
            Err(BettingMarketError::InvalidPda)
        },
        None => Err(BettingMarketError::InvalidPda),
    }
}

/// What the check of the accounts of an initialization gives: the control
/// account has to be the market's authority, the token program the expected
/// one, and the initializer has to have signed.
pub open spec fn init_accounts_check(
    derived: Option<(Seq<u8>, u8)>,
    pda_key: Seq<u8>,
    token_program_id: Seq<u8>,
    expected_token_program_id: Seq<u8>,
    initializer_is_signer: bool,
) -> Result<u8, BettingMarketError> {
    match authority_check(derived, pda_key) {
        Err(e) => Err(e),
        Ok(bump) => if token_program_id != expected_token_program_id {
            Err(BettingMarketError::IncorrectProgramId)
        } else if !initializer_is_signer {
            Err(BettingMarketError::MissingRequiredSignature)
        } else {
            Ok(bump)
        },
    }
}

/// What an initialization gives, for what the check of its accounts gave and
/// the buffer that is to hold the record: the error of the check; or, where
/// the buffer holds no record that can be overwritten, that the account data
/// is invalid; or the bump seed of the authority.
pub open spec fn market_initialization(
    accounts: Result<u8, BettingMarketError>,
    data: Seq<u8>,
) -> Result<u8, BettingMarketError> {
    match accounts {
        Err(e) => Err(e),
        Ok(bump) => if record_can_be_written(data) {
            Ok(bump)
        } else {
            Err(BettingMarketError::InvalidAccountData)
        },
    }
}

/// The derived address and bump seed, identities as byte sequences.
pub open spec fn derived_view(derived: Option<(Pubkey, u8)>) -> Option<(Seq<u8>, u8)> {
    match derived {
        Some((address, bump)) => Some((address@, bump)),
        None => None,
    }
}

impl Processor {
    /// Checks a control account against the address derived for the market's
    /// authority: gives the bump seed when `pda_key` is that address, and
    /// refuses the account otherwise, also when no address could be derived.
    pub fn check_authority(derived: Option<(Pubkey, u8)>, pda_key: &Pubkey) -> (outcome: Result<
        u8,
        BettingMarketError,
    >)
        ensures
            outcome == authority_check(derived_view(derived), pda_key@),
    {
        match derived {
            Some((address, bump)) => {
                proof {
                    Pubkey::lemma_eq_iff_same_bytes(address, *pda_key);
                }
                if address == *pda_key {
                    Ok(bump)
                } else {
                    Err(BettingMarketError::InvalidPda)
                }
            },
            None => Err(BettingMarketError::InvalidPda),
        }
    }

    /// Checks that `pda_key` is the authority of the market run by the
    /// program `program_id`: the address that the program derives from the
    /// seed "betting". Gives the bump seed of the address.
    pub fn check_pda(program_id: &Pubkey, pda_key: &Pubkey) -> (outcome: Result<
        u8,
        BettingMarketError,
    >)
        ensures
            outcome == authority_check(program_address(authority_seed(), program_id@), pda_key@),
    {
        let seed: [u8; 7] = [98, 101, 116, 116, 105, 110, 103];
        assert(seed@ =~= authority_seed());
        let derived = try_find_program_address(seed.as_slice(), program_id);
        Self::check_authority(derived, pda_key)
    }

    /// Checks the accounts of an initialization: the control account has to
    /// be the market's authority, the token program the expected one, and the
    /// initializer has to have signed. Gives the bump seed of the authority.
    pub fn check_init_accounts(
        program_id: &Pubkey,
        pda_key: &Pubkey,
        token_program_id: &Pubkey,
        expected_token_program_id: &Pubkey,
        initializer_is_signer: bool,
    ) -> (outcome: Result<u8, BettingMarketError>)
        ensures
            outcome == init_accounts_check(
                program_address(authority_seed(), program_id@),
                pda_key@,
                token_program_id@,
                expected_token_program_id@,
                initializer_is_signer,
            ),
    {
        let bump = match Self::check_pda(program_id, pda_key) {
            Ok(bump) => bump,
            Err(e) => {
                return Err(e);
            },
        };
        proof {
            Pubkey::lemma_eq_iff_same_bytes(*token_program_id, *expected_token_program_id);
        }
        if *token_program_id != *expected_token_program_id {
            Err(BettingMarketError::IncorrectProgramId)
        } else if !initializer_is_signer {
            Err(BettingMarketError::MissingRequiredSignature)
        } else {
            Ok(bump)
        }
    }

    /// Initializes a market: checks the accounts, then writes the record of
    /// the new market to the first 138 bytes of `data`: initialized,
    /// unresolved, with strike price 0 and the given mints, collateral
    /// account and judge. Gives the bump seed of the authority.
    ///
    /// The control account has to be the market's authority, the token
    /// program the expected one, and the initializer has to have signed: the
    /// first of these that fails refuses the initialization. After that it is
    /// refused when `data` has fewer than 138 bytes or its first byte is
    /// neither 0 nor 1. A refusal leaves the buffer as it was.
    pub fn process_init_betting_market(
        data: &mut [u8],
        program_id: &Pubkey,
        pda_key: &Pubkey,
        token_program_id: &Pubkey,
        expected_token_program_id: &Pubkey,
        initializer_is_signer: bool,
        yes_token_mint: &Pubkey,
        no_token_mint: &Pubkey,
        usd_token_account: &Pubkey,
        judge: &Pubkey,
    ) -> (outcome: Result<u8, BettingMarketError>)
        ensures
            outcome == market_initialization(
                init_accounts_check(
                    program_address(authority_seed(), program_id@),
                    pda_key@,
                    token_program_id@,
                    expected_token_program_id@,
                    initializer_is_signer,
                ),
                old(data)@,
            ),
            outcome is Err ==> final(data)@ == old(data)@,
            outcome is Ok ==> new_market_written(
                old(data)@,
                final(data)@,
                yes_token_mint@,
                no_token_mint@,
                usd_token_account@,
                judge@,
            ),
    {
        let bump = match Self::check_init_accounts(
            program_id,
            pda_key,
            token_program_id,
            expected_token_program_id,
            initializer_is_signer,
        ) {
            Ok(bump) => bump,
            Err(e) => {
                return Err(e);
            },
        };
        match Self::init_betting_market(
            data,
            yes_token_mint,
            no_token_mint,
            usd_token_account,
            judge,
        ) {
            Ok(()) => Ok(bump),
            Err(e) => Err(e),
        }
    }
}

} // verus!
