use betting_market::error::BettingMarketError;
use betting_market::instruction::BettingMarketInstruction;

fn with_payload(tag: u8, payload: &[u8]) -> Vec<u8> {
    let mut bytes = vec![tag];
    bytes.extend_from_slice(payload);
    bytes
}

#[test]
fn unpack_init_betting_market() {
    assert_eq!(
        BettingMarketInstruction::unpack(&[2]),
        Ok(BettingMarketInstruction::InitBettingMarket {})
    );
}

#[test]
fn unpack_offer_trade() {
    let mut payload = vec![1u8];
    payload.extend_from_slice(&60u64.to_le_bytes());
    payload.extend_from_slice(&100u64.to_le_bytes());
    assert_eq!(
        BettingMarketInstruction::unpack(&with_payload(3, &payload)),
        Ok(BettingMarketInstruction::OfferTrade { is_yes: true, price: 60, amount: 100 })
    );
}

#[test]
fn unpack_offer_trade_on_the_no_side() {
    let mut payload = vec![0u8];
    payload.extend_from_slice(&40u64.to_le_bytes());
    payload.extend_from_slice(&0x0102_0304_0506_0708u64.to_le_bytes());
    assert_eq!(
        BettingMarketInstruction::unpack(&with_payload(3, &payload)),
        Ok(BettingMarketInstruction::OfferTrade {
            is_yes: false,
            price: 40,
            amount: 0x0102_0304_0506_0708
        })
    );
}

#[test]
fn unpack_offer_trade_side_byte_other_than_one_is_no() {
    let mut payload = vec![2u8];
    payload.extend_from_slice(&1u64.to_le_bytes());
    payload.extend_from_slice(&1u64.to_le_bytes());
    assert_eq!(
        BettingMarketInstruction::unpack(&with_payload(3, &payload)),
        Ok(BettingMarketInstruction::OfferTrade { is_yes: false, price: 1, amount: 1 })
    );
}

#[test]
fn unpack_offer_trade_cut_short() {
    let mut payload = vec![1u8];
    payload.extend_from_slice(&60u64.to_le_bytes());
    payload.extend_from_slice(&100u64.to_le_bytes()[..7]);
    assert_eq!(
        BettingMarketInstruction::unpack(&with_payload(3, &payload)),
        Err(BettingMarketError::InvalidInstruction)
    );
    assert_eq!(
        BettingMarketInstruction::unpack(&[3]),
        Err(BettingMarketError::InvalidInstruction)
    );
}

#[test]
fn unpack_payout() {
    assert_eq!(BettingMarketInstruction::unpack(&[4]), Ok(BettingMarketInstruction::Payout {}));
}

#[test]
fn unpack_free_mint() {
    assert_eq!(
        BettingMarketInstruction::unpack(&with_payload(5, &7u64.to_le_bytes())),
        Ok(BettingMarketInstruction::FreeMint { amount: 7 })
    );
}

#[test]
fn unpack_judge_manually() {
    assert_eq!(
        BettingMarketInstruction::unpack(&with_payload(6, &2u64.to_le_bytes())),
        Ok(BettingMarketInstruction::JudgeBettingMarketManually { result: 2 })
    );
}

#[test]
fn unpack_judge_oracle() {
    assert_eq!(
        BettingMarketInstruction::unpack(&[7]),
        Ok(BettingMarketInstruction::JudgeBettingMarketOracle {})
    );
}

#[test]
fn unpack_set_strike_price() {
    assert_eq!(
        BettingMarketInstruction::unpack(&with_payload(8, &u64::MAX.to_le_bytes())),
        Ok(BettingMarketInstruction::SetStrikePrice { strike_price: u64::MAX })
    );
}

#[test]
fn unpack_ignores_bytes_after_the_arguments() {
    let mut payload = 9u64.to_le_bytes().to_vec();
    payload.push(0xff);
    assert_eq!(
        BettingMarketInstruction::unpack(&with_payload(5, &payload)),
        Ok(BettingMarketInstruction::FreeMint { amount: 9 })
    );
}

#[test]
fn unpack_empty_input() {
    assert_eq!(BettingMarketInstruction::unpack(&[]), Err(BettingMarketError::InvalidInstruction));
}

#[test]
fn unpack_unknown_command() {
    for tag in [0u8, 1, 9, 255] {
        assert_eq!(
            BettingMarketInstruction::unpack(&with_payload(tag, &[0u8; 32])),
            Err(BettingMarketError::InvalidInstruction)
        );
    }
}

#[test]
fn unpack_amount_cut_short() {
    for tag in [5u8, 6, 8] {
        assert_eq!(
            BettingMarketInstruction::unpack(&with_payload(tag, &[1u8; 7])),
            Err(BettingMarketError::InvalidInstruction)
        );
    }
}

#[test]
fn unpack_amount_reads_little_endian() {
    assert_eq!(
        BettingMarketInstruction::unpack_amount(&[1, 2, 0, 0, 0, 0, 0, 0]),
        Ok(513)
    );
    assert_eq!(
        BettingMarketInstruction::unpack_amount(&[]),
        Err(BettingMarketError::InvalidInstruction)
    );
}
