use crate::error::BettingMarketError;
use crate::state::{get_u64_at_ptr_offset, get_u8_at_ptr, u64_at};
use vstd::prelude::*;
use vstd::slice::slice_subrange;

verus! {

/// A command to the market, as decoded from its bytes.
#[derive(Clone, Copy, Debug, PartialEq, Eq, Structural)]
pub enum BettingMarketInstruction {
    /// Initializes a betting market.
    InitBettingMarket {  },
    /// Submits an order to buy `amount` tokens of one side at up to `price`.
    OfferTrade { is_yes: bool, price: u64, amount: u64 },
    /// Pays out all the payouts queued for a user.
    Payout {  },
    /// Mints `amount` tokens to a user for free.
    FreeMint { amount: u64 },
    /// Sets the result of the betting market by hand.
    JudgeBettingMarketManually { result: u64 },
    /// Sets the result of the betting market from the oracle's price.
    JudgeBettingMarketOracle {  },
    /// Sets the strike price of the betting market.
    SetStrikePrice { strike_price: u64 },
}

/// The command that `input` encodes: one byte that tells the command, then
/// its arguments, integers in little-endian order. Bytes after the arguments
/// are ignored.
pub open spec fn decoded(input: Seq<u8>) -> Result<BettingMarketInstruction, BettingMarketError> {
    if input.len() == 0 {
        Err(BettingMarketError::InvalidInstruction)
    } else {
        let rest = input.subrange(1, input.len() as int);
        if input[0] == 2 {
            Ok(BettingMarketInstruction::InitBettingMarket {  })
        } else if input[0] == 3 {
            if rest.len() < 17 {
                Err(BettingMarketError::InvalidInstruction)
            } else {
                Ok(
                    BettingMarketInstruction::OfferTrade {
                        is_yes: rest[0] == 1,
                        price: u64_at(rest, 1),
                        amount: u64_at(rest, 9),
                    },
                )
            }
        } else if input[0] == 4 {
            Ok(BettingMarketInstruction::Payout {  })
        } else if input[0] == 5 {
            match decoded_amount(rest) {
                Some(amount) => Ok(BettingMarketInstruction::FreeMint { amount }),
                None => Err(BettingMarketError::InvalidInstruction),
            }
        } else if input[0] == 6 {
            match decoded_amount(rest) {
                Some(result) => Ok(BettingMarketInstruction::JudgeBettingMarketManually { result }),
                None => Err(BettingMarketError::InvalidInstruction),
            }
        } else if input[0] == 7 {
            Ok(BettingMarketInstruction::JudgeBettingMarketOracle {  })
        } else if input[0] == 8 {
            match decoded_amount(rest) {
                Some(strike_price) => Ok(BettingMarketInstruction::SetStrikePrice { strike_price }),
                None => Err(BettingMarketError::InvalidInstruction),
            }
        } else {
            Err(BettingMarketError::InvalidInstruction)
        }
    }
}

/// The integer that the first eight bytes of `input` encode, if it has eight.
pub open spec fn decoded_amount(input: Seq<u8>) -> Option<u64> {
    if input.len() < 8 {
        None
    } else {
        Some(u64_at(input, 0))
    }
}

impl BettingMarketInstruction {
    /// Unpacks a byte buffer into a command. An empty buffer, an unknown
    /// command and arguments cut short are refused.
    pub fn unpack(input: &[u8]) -> (result: Result<BettingMarketInstruction, BettingMarketError>)
        ensures
            result == decoded(input@),
    {
        if input.len() == 0 {
            return Err(BettingMarketError::InvalidInstruction);
        }
        let tag = input[0];
        let rest = slice_subrange(input, 1, input.len());
        match tag {
            2 => Ok(BettingMarketInstruction::InitBettingMarket {  }),
            3 => {
                if rest.len() < 17 {
                    return Err(BettingMarketError::InvalidInstruction);
                }
                Ok(
                    BettingMarketInstruction::OfferTrade {
                        is_yes: get_u8_at_ptr(rest) == 1,
                        price: get_u64_at_ptr_offset(rest, 1),
                        amount: get_u64_at_ptr_offset(rest, 9),
                    },
                )
            },
            4 => Ok(BettingMarketInstruction::Payout {  }),
            5 => match Self::unpack_amount(rest) {
                Ok(amount) => Ok(BettingMarketInstruction::FreeMint { amount }),
                Err(e) => Err(e),
            },
            6 => match Self::unpack_amount(rest) {
                Ok(result) => Ok(BettingMarketInstruction::JudgeBettingMarketManually { result }),
                Err(e) => Err(e),
            },
            7 => Ok(BettingMarketInstruction::JudgeBettingMarketOracle {  }),
            8 => match Self::unpack_amount(rest) {
                Ok(strike_price) => Ok(BettingMarketInstruction::SetStrikePrice { strike_price }),
                Err(e) => Err(e),
            },
            _ => Err(BettingMarketError::InvalidInstruction),
        }
    }

    /// Reads the integer that the first eight bytes of `input` encode.
    pub fn unpack_amount(input: &[u8]) -> (result: Result<u64, BettingMarketError>)
        ensures
            match decoded_amount(input@) {
                Some(amount) => result == Ok::<u64, BettingMarketError>(amount),
                None => result == Err::<u64, BettingMarketError>(
                    BettingMarketError::InvalidInstruction,
                ),
            },
    {
        if input.len() < 8 {
            return Err(BettingMarketError::InvalidInstruction);
        }
        Ok(get_u64_at_ptr_offset(input, 0))
    }
}

} // verus!
