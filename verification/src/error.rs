use vstd::prelude::*;

verus! {

/// Why an operation on the market was refused.
#[derive(Clone, Copy, Debug, PartialEq, Eq, Structural)]
pub enum BettingMarketError {
    /// Invalid instruction
    InvalidInstruction,
    /// Not rent exempt
    NotRentExempt,
    /// Expected amount mismatch
    ExpectedAmountMismatch,
    /// Amount overflow
    AmountOverflow,
    /// Invalid pda
    InvalidPda,
    /// The queue of a price level, or the payout ledger, has no room
    CapacityExceeded,
    /// A price above 100
    InvalidPrice,
    /// The all-zero identity cannot own an order
    NullOwner,
    /// The market record does not decode
    InvalidAccountData,
    /// The token program is not the expected one
    IncorrectProgramId,
    /// The account that had to sign did not
    MissingRequiredSignature,
    /// An error of the host or of another program, under the host's number
    /// for it
    Program(u64),
}

impl BettingMarketError {
    /// The number of an error of the market's own: its position in the list
    /// of errors. The errors that the host has a name for have none.
    pub open spec fn spec_custom_code(self) -> Option<u32> {
        match self {
            BettingMarketError::InvalidInstruction => Some(0),
            BettingMarketError::NotRentExempt => Some(1),
            BettingMarketError::ExpectedAmountMismatch => Some(2),
            BettingMarketError::AmountOverflow => Some(3),
            BettingMarketError::InvalidPda => Some(4),
            BettingMarketError::CapacityExceeded => Some(5),
            BettingMarketError::InvalidPrice => Some(6),
            BettingMarketError::NullOwner => Some(7),
            BettingMarketError::InvalidAccountData => None,
            BettingMarketError::IncorrectProgramId => None,
            BettingMarketError::MissingRequiredSignature => None,
            BettingMarketError::Program(_) => None,
        }
    }

    /// The number under which an error of the market's own is reported to
    /// the host as a custom error.
    #[verifier::when_used_as_spec(spec_custom_code)]
    pub fn custom_code(self) -> (code: Option<u32>)
        ensures
            code == self.spec_custom_code(),
    {
        match self {
            BettingMarketError::InvalidInstruction => Some(0),
            BettingMarketError::NotRentExempt => Some(1),
            BettingMarketError::ExpectedAmountMismatch => Some(2),
            BettingMarketError::AmountOverflow => Some(3),
            BettingMarketError::InvalidPda => Some(4),
            BettingMarketError::CapacityExceeded => Some(5),
            BettingMarketError::InvalidPrice => Some(6),
            BettingMarketError::NullOwner => Some(7),
            BettingMarketError::InvalidAccountData => None,
            BettingMarketError::IncorrectProgramId => None,
            BettingMarketError::MissingRequiredSignature => None,
            BettingMarketError::Program(_) => None,
        }
    }

    /// The error in words.
    pub fn message(self) -> (text: &'static str)
        ensures
            text@ == match self {
                BettingMarketError::InvalidInstruction => "Invalid Instruction"@,
                BettingMarketError::NotRentExempt => "Not rent exempt"@,
                BettingMarketError::ExpectedAmountMismatch => "Expected amount mismatch"@,
                BettingMarketError::AmountOverflow => "Amount overflow"@,
                BettingMarketError::InvalidPda => "Invalid pda"@,
                BettingMarketError::CapacityExceeded => "Capacity exceeded"@,
                BettingMarketError::InvalidPrice => "Invalid price"@,
                BettingMarketError::NullOwner => "Null owner"@,
                BettingMarketError::InvalidAccountData => "Invalid account data"@,
                BettingMarketError::IncorrectProgramId => "Incorrect program id"@,
                BettingMarketError::MissingRequiredSignature => "Missing required signature"@,
                BettingMarketError::Program(_) => "Program error"@,
            },
    {
        match self {
            BettingMarketError::InvalidInstruction => "Invalid Instruction",
            BettingMarketError::NotRentExempt => "Not rent exempt",
            BettingMarketError::ExpectedAmountMismatch => "Expected amount mismatch",
            BettingMarketError::AmountOverflow => "Amount overflow",
            BettingMarketError::InvalidPda => "Invalid pda",
            BettingMarketError::CapacityExceeded => "Capacity exceeded",
            BettingMarketError::InvalidPrice => "Invalid price",
            BettingMarketError::NullOwner => "Null owner",
            BettingMarketError::InvalidAccountData => "Invalid account data",
            BettingMarketError::IncorrectProgramId => "Incorrect program id",
            BettingMarketError::MissingRequiredSignature => "Missing required signature",
            BettingMarketError::Program(_) => "Program error",
        }
    }
}

} // verus!
