use betting_market::error::BettingMarketError;

#[test]
fn custom_codes_follow_the_list_of_errors() {
    assert_eq!(BettingMarketError::InvalidInstruction.custom_code(), Some(0));
    assert_eq!(BettingMarketError::NotRentExempt.custom_code(), Some(1));
    assert_eq!(BettingMarketError::ExpectedAmountMismatch.custom_code(), Some(2));
    assert_eq!(BettingMarketError::AmountOverflow.custom_code(), Some(3));
    assert_eq!(BettingMarketError::InvalidPda.custom_code(), Some(4));
    assert_eq!(BettingMarketError::CapacityExceeded.custom_code(), Some(5));
    assert_eq!(BettingMarketError::InvalidPrice.custom_code(), Some(6));
    assert_eq!(BettingMarketError::NullOwner.custom_code(), Some(7));
}

#[test]
fn errors_of_the_host_have_no_custom_code() {
    assert_eq!(BettingMarketError::InvalidAccountData.custom_code(), None);
    assert_eq!(BettingMarketError::IncorrectProgramId.custom_code(), None);
    assert_eq!(BettingMarketError::MissingRequiredSignature.custom_code(), None);
    assert_eq!(BettingMarketError::Program(17).custom_code(), None);
}

#[test]
fn messages() {
    assert_eq!(BettingMarketError::InvalidInstruction.message(), "Invalid Instruction");
    assert_eq!(BettingMarketError::NotRentExempt.message(), "Not rent exempt");
    assert_eq!(BettingMarketError::ExpectedAmountMismatch.message(), "Expected amount mismatch");
    assert_eq!(BettingMarketError::AmountOverflow.message(), "Amount overflow");
    assert_eq!(BettingMarketError::InvalidPda.message(), "Invalid pda");
    assert_eq!(BettingMarketError::CapacityExceeded.message(), "Capacity exceeded");
    assert_eq!(BettingMarketError::InvalidPrice.message(), "Invalid price");
    assert_eq!(BettingMarketError::NullOwner.message(), "Null owner");
}
