use betting_market::error::BettingMarketError;
use betting_market::pubkey::Pubkey;
use betting_market::state::{
    get_payout_at_index, get_pubkey_10_at_ptr_offset, get_pubkey_at_ptr,
    get_pubkey_at_ptr_offset, get_u64_10_at_ptr_offset, get_u64_at_ptr, get_u64_at_ptr_offset,
    get_u8_at_ptr, get_u8_at_ptr_offset, payout_exists_at_index, set_payout_at_index,
    set_pubkey_10_at_ptr_offset, set_pubkey_at_ptr, set_pubkey_at_ptr_offset,
    set_u64_10_at_ptr_offset, set_u64_at_ptr, set_u64_at_ptr_offset, set_u8_at_ptr,
    set_u8_at_ptr_offset, BettingMarket, BETTING_MARKET_LEN, MARKET_DATA_LEN,
};

fn key(first: u8) -> Pubkey {
    let mut bytes = [0u8; 32];
    bytes[0] = first;
    bytes[31] = 0xee;
    Pubkey::new_from_array(bytes)
}

fn sample_market() -> BettingMarket {
    BettingMarket {
        is_initialized: true,
        result: 2,
        yes_token_mint: key(1),
        no_token_mint: key(2),
        usd_token_account: key(3),
        strike_price: 0x1122_3344_5566_7788,
        judge: key(4),
    }
}

#[test]
fn pubkey_keeps_its_bytes() {
    let mut bytes = [0u8; 32];
    for (i, byte) in bytes.iter_mut().enumerate() {
        *byte = i as u8;
    }
    assert_eq!(Pubkey::new_from_array(bytes).to_bytes(), bytes);
}

#[test]
fn pubkey_equality_is_by_bytes() {
    assert!(key(1) == key(1));
    assert!(key(1) != key(2));
    let mut bytes = key(1).to_bytes();
    bytes[31] = 0;
    assert!(Pubkey::new_from_array(bytes) != key(1));
}

#[test]
fn null_pubkey_is_all_zero() {
    assert_eq!(Pubkey::null().to_bytes(), [0u8; 32]);
    assert!(Pubkey::null().is_null());
    assert!(!key(0).is_null());
    assert!(!key(1).is_null());
}

#[test]
fn u8_at_offset() {
    let mut data = vec![0u8; 16];
    set_u8_at_ptr_offset(&mut data, 5, 0xab);
    assert_eq!(get_u8_at_ptr_offset(&data, 5), 0xab);
    assert_eq!(data[5], 0xab);
    set_u8_at_ptr(&mut data, 7);
    assert_eq!(get_u8_at_ptr(&data), 7);
    assert_eq!(data.iter().filter(|byte| **byte != 0).count(), 2);
}

#[test]
fn u64_is_stored_little_endian() {
    let mut data = vec![0xffu8; 24];
    set_u64_at_ptr_offset(&mut data, 8, 0x0102_0304_0506_0708);
    assert_eq!(&data[8..16], &[8, 7, 6, 5, 4, 3, 2, 1]);
    assert_eq!(&data[..8], &[0xff; 8]);
    assert_eq!(&data[16..], &[0xff; 8]);
    assert_eq!(get_u64_at_ptr_offset(&data, 8), 0x0102_0304_0506_0708);
}

#[test]
fn u64_at_the_start() {
    let mut data = vec![0u8; 9];
    set_u64_at_ptr(&mut data, 258);
    assert_eq!(data, vec![2, 1, 0, 0, 0, 0, 0, 0, 0]);
    assert_eq!(get_u64_at_ptr(&data), 258);
}

#[test]
fn u64_extremes_round_trip() {
    let mut data = vec![0u8; 8];
    for value in [0u64, 1, u64::MAX, 1 << 63, 0x00ff_00ff_00ff_00ff] {
        set_u64_at_ptr_offset(&mut data, 0, value);
        assert_eq!(get_u64_at_ptr_offset(&data, 0), value);
        assert_eq!(data, value.to_le_bytes().to_vec());
    }
}

#[test]
fn pubkey_at_offset() {
    let mut data = vec![0u8; 70];
    set_pubkey_at_ptr_offset(&mut data, 3, key(9));
    assert_eq!(&data[3..35], &key(9).to_bytes());
    assert!(get_pubkey_at_ptr_offset(&data, 3) == key(9));
    assert_eq!(&data[35..], &[0u8; 35]);
    set_pubkey_at_ptr(&mut data, key(5));
    assert!(get_pubkey_at_ptr(&data) == key(5));
}

#[test]
fn ten_integers_round_trip() {
    let mut data = vec![0u8; 100];
    let values = [1u64, 2, 3, 4, 5, 6, 7, 8, 9, u64::MAX];
    set_u64_10_at_ptr_offset(&mut data, 10, values);
    assert_eq!(get_u64_10_at_ptr_offset(&data, 10), values);
    assert_eq!(get_u64_at_ptr_offset(&data, 10 + 8 * 4), 5);
    assert_eq!(&data[..10], &[0u8; 10]);
    assert_eq!(&data[90..], &[0u8; 10]);
}

#[test]
fn ten_pubkeys_round_trip() {
    let mut data = vec![0u8; 400];
    let mut keys = [Pubkey::null(); 10];
    for (i, slot) in keys.iter_mut().enumerate() {
        *slot = key(i as u8 + 1);
    }
    set_pubkey_10_at_ptr_offset(&mut data, 40, keys);
    let read = get_pubkey_10_at_ptr_offset(&data, 40);
    for i in 0..10 {
        assert!(read[i] == keys[i]);
    }
    assert!(get_pubkey_at_ptr_offset(&data, 40 + 32 * 7) == key(8));
    assert_eq!(&data[..40], &[0u8; 40]);
    assert_eq!(&data[360..], &[0u8; 40]);
}

#[test]
fn payout_slots_start_free() {
    let data = vec![0u8; MARKET_DATA_LEN];
    for index in 0..100 {
        assert!(!payout_exists_at_index(&data, index));
    }
}

#[test]
fn payout_slot_round_trip() {
    let mut data = vec![0u8; MARKET_DATA_LEN];
    set_payout_at_index(&mut data, 99, key(1), key(2), 77);
    assert!(payout_exists_at_index(&data, 99));
    assert!(!payout_exists_at_index(&data, 98));
    let (recipient, mint, amount) = get_payout_at_index(&data, 99);
    assert!(recipient == key(1));
    assert!(mint == key(2));
    assert_eq!(amount, 77);
    assert_eq!(&data[70000 + 32 * 99..70000 + 32 * 100], &key(1).to_bytes());
    assert_eq!(&data[80000 + 32 * 99..80000 + 32 * 100], &key(2).to_bytes());
    assert_eq!(&data[90000 + 8 * 99..90000 + 8 * 100], &77u64.to_le_bytes());
}

#[test]
fn payout_slot_with_a_null_recipient_is_free() {
    let mut data = vec![0u8; MARKET_DATA_LEN];
    set_payout_at_index(&mut data, 0, Pubkey::null(), key(2), 77);
    assert!(!payout_exists_at_index(&data, 0));
}

#[test]
fn market_record_layout() {
    let mut data = vec![0xaau8; BETTING_MARKET_LEN + 4];
    sample_market().pack_into_slice(&mut data);
    assert_eq!(data[0], 1);
    assert_eq!(data[1], 2);
    assert_eq!(&data[2..34], &key(1).to_bytes());
    assert_eq!(&data[34..66], &key(2).to_bytes());
    assert_eq!(&data[66..98], &key(3).to_bytes());
    assert_eq!(&data[98..106], &0x1122_3344_5566_7788u64.to_le_bytes());
    assert_eq!(&data[106..138], &key(4).to_bytes());
    assert_eq!(&data[138..], &[0xaa; 4]);
}

#[test]
fn market_record_round_trip() {
    for is_initialized in [false, true] {
        for result in [0u8, 1, 2, 255] {
            for strike_price in [0u64, 1, u64::MAX] {
                let market = BettingMarket {
                    is_initialized,
                    result,
                    yes_token_mint: key(result),
                    no_token_mint: Pubkey::new_from_array([0xff; 32]),
                    usd_token_account: Pubkey::null(),
                    strike_price,
                    judge: key(7),
                };
                let mut data = vec![0u8; BETTING_MARKET_LEN];
                market.pack_into_slice(&mut data);
                let read = BettingMarket::unpack_from_slice(&data).unwrap();
                assert_eq!(read.is_initialized, is_initialized);
                assert_eq!(read.is_initialized(), is_initialized);
                assert_eq!(read.result, result);
                assert!(read.yes_token_mint == market.yes_token_mint);
                assert!(read.no_token_mint == market.no_token_mint);
                assert!(read.usd_token_account == market.usd_token_account);
                assert_eq!(read.strike_price, strike_price);
                assert!(read.judge == market.judge);
            }
        }
    }
}

#[test]
fn market_record_bytes_round_trip() {
    let mut data = vec![0u8; BETTING_MARKET_LEN];
    for (i, byte) in data.iter_mut().enumerate() {
        *byte = (i * 7 + 3) as u8;
    }
    data[0] = 1;
    let market = BettingMarket::unpack_from_slice(&data).unwrap();
    let mut written = vec![0u8; BETTING_MARKET_LEN];
    market.pack_into_slice(&mut written);
    assert_eq!(written, data);
}

#[test]
fn market_record_with_a_bad_flag() {
    let mut data = vec![0u8; BETTING_MARKET_LEN];
    for flag in [2u8, 3, 255] {
        data[0] = flag;
        assert_eq!(
            BettingMarket::unpack_from_slice(&data).err(),
            Some(BettingMarketError::InvalidAccountData)
        );
    }
}

#[test]
fn unpack_unchecked_wants_the_exact_length() {
    let data = vec![0u8; BETTING_MARKET_LEN];
    assert!(BettingMarket::unpack_unchecked(&data).is_ok());
    assert_eq!(
        BettingMarket::unpack_unchecked(&data[..137]).err(),
        Some(BettingMarketError::InvalidAccountData)
    );
    let longer = vec![0u8; BETTING_MARKET_LEN + 1];
    assert_eq!(
        BettingMarket::unpack_unchecked(&longer).err(),
        Some(BettingMarketError::InvalidAccountData)
    );
}

#[test]
fn pack_wants_the_exact_length() {
    let mut data = vec![0u8; BETTING_MARKET_LEN];
    assert_eq!(BettingMarket::pack(sample_market(), &mut data), Ok(()));
    assert_eq!(data[1], 2);
    let mut longer = vec![0u8; BETTING_MARKET_LEN + 1];
    assert_eq!(
        BettingMarket::pack(sample_market(), &mut longer),
        Err(BettingMarketError::InvalidAccountData)
    );
    assert_eq!(longer, vec![0u8; BETTING_MARKET_LEN + 1]);
}
