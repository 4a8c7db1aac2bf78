use betting_market::error::BettingMarketError;
use betting_market::processor::Processor;
use betting_market::pubkey::Pubkey;
use betting_market::state::{BettingMarket, BETTING_MARKET_LEN, MARKET_DATA_LEN};

fn key(first: u8) -> Pubkey {
    let mut bytes = [0u8; 32];
    bytes[0] = first;
    bytes[3] = 1;
    Pubkey::new_from_array(bytes)
}

#[test]
fn judging_by_hand_sets_the_result() {
    let mut data = vec![0u8; MARKET_DATA_LEN];
    for result in [1u64, 2, 0] {
        assert_eq!(Processor::process_judge_betting_market_manually(&mut data, result), Ok(()));
        assert_eq!(data[1], result as u8);
        let mut expected = vec![0u8; MARKET_DATA_LEN];
        expected[1] = result as u8;
        assert_eq!(data, expected);
    }
}

#[test]
fn judging_by_hand_refuses_what_is_no_result() {
    let mut data = vec![0u8; BETTING_MARKET_LEN];
    data[1] = 1;
    for result in [3u64, 255, 256, u64::MAX] {
        assert_eq!(
            Processor::process_judge_betting_market_manually(&mut data, result),
            Err(BettingMarketError::InvalidInstruction)
        );
        assert_eq!(data[1], 1);
    }
}

#[test]
fn oracle_price_above_the_strike_price_is_yes() {
    let mut data = vec![0u8; BETTING_MARKET_LEN];
    Processor::process_set_strike_price(&mut data, 50);
    assert_eq!(Processor::process_judge_betting_market_oracle(&mut data, 50_000_000_001), Ok(1));
    assert_eq!(data[1], 1);
}

#[test]
fn oracle_price_at_or_below_the_strike_price_is_no() {
    let mut data = vec![0u8; BETTING_MARKET_LEN];
    Processor::process_set_strike_price(&mut data, 50);
    assert_eq!(Processor::process_judge_betting_market_oracle(&mut data, 50_000_000_000), Ok(2));
    assert_eq!(data[1], 2);
    assert_eq!(Processor::process_judge_betting_market_oracle(&mut data, -1), Ok(2));
    assert_eq!(Processor::process_judge_betting_market_oracle(&mut data, i64::MIN), Ok(2));
}

#[test]
fn oracle_with_strike_price_zero() {
    let mut data = vec![0u8; BETTING_MARKET_LEN];
    assert_eq!(Processor::process_judge_betting_market_oracle(&mut data, 1), Ok(1));
    assert_eq!(Processor::process_judge_betting_market_oracle(&mut data, 0), Ok(2));
}

#[test]
fn strike_price_too_high_to_compare_is_refused() {
    let mut data = vec![0u8; BETTING_MARKET_LEN];
    let highest = i64::MAX as u64 / 1_000_000_000;
    Processor::process_set_strike_price(&mut data, highest);
    assert_eq!(Processor::process_judge_betting_market_oracle(&mut data, i64::MAX), Ok(1));
    assert_eq!(
        Processor::process_judge_betting_market_oracle(&mut data, (highest * 1_000_000_000) as i64),
        Ok(2)
    );
    Processor::process_set_strike_price(&mut data, highest + 1);
    data[1] = 0;
    let before = data.clone();
    assert_eq!(
        Processor::process_judge_betting_market_oracle(&mut data, i64::MAX),
        Err(BettingMarketError::AmountOverflow)
    );
    assert_eq!(data, before);
    Processor::process_set_strike_price(&mut data, u64::MAX);
    assert_eq!(
        Processor::process_judge_betting_market_oracle(&mut data, 0),
        Err(BettingMarketError::AmountOverflow)
    );
}

#[test]
fn strike_price_is_stored_in_the_record() {
    let mut data = vec![0x11u8; BETTING_MARKET_LEN];
    data[0] = 1;
    Processor::process_set_strike_price(&mut data, 0x0102_0304_0506_0708);
    assert_eq!(&data[98..106], &[8, 7, 6, 5, 4, 3, 2, 1]);
    assert!(data[1..98].iter().all(|byte| *byte == 0x11));
    assert!(data[106..].iter().all(|byte| *byte == 0x11));
    assert_eq!(BettingMarket::unpack_from_slice(&data).unwrap().strike_price, 0x0102_0304_0506_0708);
}

#[test]
fn new_market_record() {
    let mut data = vec![0u8; MARKET_DATA_LEN];
    data[500] = 9;
    assert_eq!(
        Processor::init_betting_market(&mut data, &key(1), &key(2), &key(3), &key(4)),
        Ok(())
    );
    let market = BettingMarket::unpack_from_slice(&data).unwrap();
    assert!(market.is_initialized);
    assert_eq!(market.result, 0);
    assert!(market.yes_token_mint == key(1));
    assert!(market.no_token_mint == key(2));
    assert!(market.usd_token_account == key(3));
    assert_eq!(market.strike_price, 0);
    assert!(market.judge == key(4));
    assert_eq!(data[500], 9);
    assert!(data[138..500].iter().all(|byte| *byte == 0));
}

#[test]
fn new_market_record_resets_result_and_strike_price() {
    let mut data = vec![0u8; BETTING_MARKET_LEN];
    data[0] = 1;
    data[1] = 2;
    Processor::process_set_strike_price(&mut data, 77);
    assert_eq!(
        Processor::init_betting_market(&mut data, &key(1), &key(2), &key(3), &key(4)),
        Ok(())
    );
    let market = BettingMarket::unpack_from_slice(&data).unwrap();
    assert_eq!(market.result, 0);
    assert_eq!(market.strike_price, 0);
}

#[test]
fn new_market_record_needs_a_record_to_overwrite() {
    let mut short = vec![0u8; BETTING_MARKET_LEN - 1];
    assert_eq!(
        Processor::init_betting_market(&mut short, &key(1), &key(2), &key(3), &key(4)),
        Err(BettingMarketError::InvalidAccountData)
    );
    assert_eq!(short, vec![0u8; BETTING_MARKET_LEN - 1]);
    let mut bad = vec![0u8; BETTING_MARKET_LEN];
    bad[0] = 2;
    let before = bad.clone();
    assert_eq!(
        Processor::init_betting_market(&mut bad, &key(1), &key(2), &key(3), &key(4)),
        Err(BettingMarketError::InvalidAccountData)
    );
    assert_eq!(bad, before);
}
