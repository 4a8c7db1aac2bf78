use betting_market::book::{get_buy_amount, get_queue, set_buy_amount, set_queue, PriceQueue};
use betting_market::error::BettingMarketError;
use betting_market::processor::Processor;
use betting_market::pubkey::Pubkey;
use betting_market::state::MARKET_DATA_LEN;

fn key(first: u8) -> Pubkey {
    let mut bytes = [0u8; 32];
    bytes[0] = first;
    bytes[1] = 1;
    Pubkey::new_from_array(bytes)
}

fn empty_market() -> Vec<u8> {
    vec![0u8; MARKET_DATA_LEN]
}

fn queue_total(data: &[u8], is_yes: bool, price: u64) -> u128 {
    get_queue(data, is_yes, price).amounts.iter().map(|amount| *amount as u128).sum()
}

fn assert_balanced(data: &[u8]) {
    for is_yes in [true, false] {
        for price in 0..=100u64 {
            let resting = get_buy_amount(data, is_yes, price) as u128;
            assert_eq!(resting, queue_total(data, is_yes, price), "{} {}", is_yes, price);
            let queue = get_queue(data, is_yes, price);
            let mut seen_empty = false;
            for slot in 0..10 {
                let empty = queue.owners[slot].is_null();
                if empty {
                    assert_eq!(queue.kinds[slot], 0);
                    assert_eq!(queue.amounts[slot], 0);
                    seen_empty = true;
                } else {
                    assert!(!seen_empty);
                    assert!(queue.kinds[slot] == 1 || queue.kinds[slot] == 2);
                    assert!(queue.amounts[slot] > 0);
                }
            }
        }
    }
}

#[test]
fn buy_amounts_live_at_their_offsets() {
    let mut data = empty_market();
    set_buy_amount(&mut data, true, 0, 11);
    set_buy_amount(&mut data, true, 100, 12);
    set_buy_amount(&mut data, false, 0, 13);
    set_buy_amount(&mut data, false, 100, 14);
    assert_eq!(&data[1000..1008], &11u64.to_le_bytes());
    assert_eq!(&data[1800..1808], &12u64.to_le_bytes());
    assert_eq!(&data[2000..2008], &13u64.to_le_bytes());
    assert_eq!(&data[2800..2808], &14u64.to_le_bytes());
    assert_eq!(get_buy_amount(&data, true, 100), 12);
    assert_eq!(get_buy_amount(&data, false, 0), 13);
    assert_eq!(get_buy_amount(&data, true, 50), 0);
}

#[test]
fn queues_live_at_their_offsets() {
    let mut data = empty_market();
    let mut queue = PriceQueue { owners: [Pubkey::null(); 10], kinds: [0; 10], amounts: [0; 10] };
    queue.owners[9] = key(3);
    queue.kinds[9] = 2;
    queue.amounts[9] = 500;
    set_queue(&mut data, true, 100, &queue);
    assert_eq!(&data[10000 + 320 * 100 + 32 * 9..42320], &key(3).to_bytes());
    assert_eq!(&data[50000 + 80 * 100 + 8 * 9..58080], &2u64.to_le_bytes());
    assert_eq!(&data[60000 + 80 * 100 + 8 * 9..68080], &500u64.to_le_bytes());
    let read = get_queue(&data, true, 100);
    assert!(read.owners[9] == key(3));
    assert_eq!(read.kinds, queue.kinds);
    assert_eq!(read.amounts, queue.amounts);
    assert_eq!(get_queue(&data, true, 99).amounts, [0; 10]);
    assert_eq!(get_queue(&data, false, 100).amounts, [0; 10]);
}

#[test]
fn queues_of_the_no_side_live_after_the_ledger() {
    assert_eq!(MARKET_DATA_LEN, 158080);
    let mut data = empty_market();
    let mut queue = PriceQueue { owners: [Pubkey::null(); 10], kinds: [0; 10], amounts: [0; 10] };
    queue.owners[0] = key(4);
    queue.kinds[0] = 1;
    queue.amounts[0] = 77;
    set_queue(&mut data, false, 0, &queue);
    assert_eq!(&data[100000..100032], &key(4).to_bytes());
    assert_eq!(&data[140000..140008], &1u64.to_le_bytes());
    assert_eq!(&data[150000..150008], &77u64.to_le_bytes());
    queue.owners[9] = key(5);
    queue.kinds[9] = 2;
    queue.amounts[9] = 78;
    set_queue(&mut data, false, 100, &queue);
    assert_eq!(&data[100000 + 320 * 100 + 32 * 9..132320], &key(5).to_bytes());
    assert_eq!(&data[140000 + 80 * 100 + 8 * 9..148080], &2u64.to_le_bytes());
    assert_eq!(&data[150000 + 80 * 100 + 8 * 9..158080], &78u64.to_le_bytes());
    assert!(data[..100000].iter().all(|byte| *byte == 0));
    assert_eq!(get_queue(&data, false, 100).amounts, queue.amounts);
    assert_eq!(get_queue(&data, true, 100).amounts, [0; 10]);
    assert_eq!(get_queue(&data, true, 0).amounts, [0; 10]);
}

#[test]
fn yes_side_is_read_from_a_buffer_that_ends_with_its_tables() {
    let mut data = empty_market();
    Processor::add_order_to_orderbook(&key(1), &mut data, true, 100, 9, true).unwrap();
    assert_eq!(get_buy_amount(&data[..1808], true, 100), 9);
    assert_eq!(get_buy_amount(&data[..2808], false, 100), 0);
    let queue = get_queue(&data[..68080], true, 100);
    assert!(queue.owners[0] == key(1));
    assert_eq!(queue.kinds[0], 2);
    assert_eq!(queue.amounts[0], 9);
}

#[test]
fn pop_front_moves_the_orders_up() {
    let mut queue = PriceQueue { owners: [Pubkey::null(); 10], kinds: [0; 10], amounts: [0; 10] };
    for slot in 0..10 {
        queue.owners[slot] = key(slot as u8 + 1);
        queue.kinds[slot] = 1 + (slot as u64 % 2);
        queue.amounts[slot] = 10 * (slot as u64 + 1);
    }
    queue.pop_front();
    for slot in 0..9 {
        assert!(queue.owners[slot] == key(slot as u8 + 2));
        assert_eq!(queue.kinds[slot], 1 + ((slot as u64 + 1) % 2));
        assert_eq!(queue.amounts[slot], 10 * (slot as u64 + 2));
    }
    assert!(queue.owners[9].is_null());
    assert_eq!(queue.kinds[9], 0);
    assert_eq!(queue.amounts[9], 0);
}

#[test]
fn resting_order_takes_the_first_slot() {
    let mut data = empty_market();
    assert_eq!(Processor::add_order_to_orderbook(&key(1), &mut data, true, 60, 100, false), Ok(()));
    assert_eq!(get_buy_amount(&data, true, 60), 100);
    assert_eq!(get_buy_amount(&data, false, 60), 0);
    let queue = get_queue(&data, true, 60);
    assert!(queue.owners[0] == key(1));
    assert_eq!(queue.kinds[0], 1);
    assert_eq!(queue.amounts[0], 100);
    assert!(queue.owners[1].is_null());
    assert!(get_queue(&data, false, 60).owners[0].is_null());
    assert_balanced(&data);
}

#[test]
fn resting_order_that_settles_in_collateral_has_kind_two() {
    let mut data = empty_market();
    assert_eq!(Processor::add_order_to_orderbook(&key(1), &mut data, false, 0, 5, true), Ok(()));
    assert_eq!(get_buy_amount(&data, false, 0), 5);
    assert_eq!(get_queue(&data, false, 0).kinds[0], 2);
    assert_eq!(get_queue(&data, true, 0).kinds[0], 0);
    assert_balanced(&data);
}

#[test]
fn resting_orders_queue_in_arrival_order() {
    let mut data = empty_market();
    for i in 0..4u8 {
        Processor::add_order_to_orderbook(&key(i + 1), &mut data, true, 30, 10 + i as u64, false)
            .unwrap();
    }
    let queue = get_queue(&data, true, 30);
    for i in 0..4usize {
        assert!(queue.owners[i] == key(i as u8 + 1));
        assert_eq!(queue.amounts[i], 10 + i as u64);
    }
    assert_eq!(get_buy_amount(&data, true, 30), 10 + 11 + 12 + 13);
    assert_balanced(&data);
}

#[test]
fn each_side_has_its_own_queue_at_a_price() {
    let mut data = empty_market();
    Processor::add_order_to_orderbook(&key(1), &mut data, true, 30, 100, false).unwrap();
    let with_yes = data.clone();
    Processor::add_order_to_orderbook(&key(2), &mut data, false, 30, 50, false).unwrap();
    let yes_queue = get_queue(&data, true, 30);
    let no_queue = get_queue(&data, false, 30);
    assert!(yes_queue.owners[0] == key(1));
    assert!(yes_queue.owners[1].is_null());
    assert_eq!(yes_queue.amounts[..2], [100, 0]);
    assert!(no_queue.owners[0] == key(2));
    assert!(no_queue.owners[1].is_null());
    assert_eq!(no_queue.amounts[..2], [50, 0]);
    assert_eq!(get_buy_amount(&data, true, 30), 100);
    assert_eq!(get_buy_amount(&data, false, 30), 50);
    assert_eq!(queue_total(&data, true, 30), 100);
    assert_eq!(queue_total(&data, false, 30), 50);
    assert_eq!(&data[..2000], &with_yes[..2000]);
    assert_eq!(&data[2808..100000], &with_yes[2808..100000]);
    assert_eq!(&data[2000 + 8 * 30..2000 + 8 * 31], &50u64.to_le_bytes());
    assert_balanced(&data);
}

#[test]
fn resting_order_of_nothing_changes_nothing() {
    let mut data = empty_market();
    assert_eq!(Processor::add_order_to_orderbook(&key(1), &mut data, true, 60, 0, false), Ok(()));
    assert_eq!(data, empty_market());
    assert_eq!(
        Processor::add_order_to_orderbook(&Pubkey::null(), &mut data, true, 101, 0, false),
        Ok(())
    );
    assert_eq!(data, empty_market());
}

#[test]
fn resting_order_above_the_highest_price_is_refused() {
    let mut data = empty_market();
    assert_eq!(
        Processor::add_order_to_orderbook(&key(1), &mut data, true, 101, 1, false),
        Err(BettingMarketError::InvalidPrice)
    );
    assert_eq!(data, empty_market());
}

#[test]
fn resting_order_of_the_null_owner_is_refused() {
    let mut data = empty_market();
    assert_eq!(
        Processor::add_order_to_orderbook(&Pubkey::null(), &mut data, true, 60, 1, false),
        Err(BettingMarketError::NullOwner)
    );
    assert_eq!(data, empty_market());
}

#[test]
fn resting_quantity_that_overflows_is_refused() {
    let mut data = empty_market();
    Processor::add_order_to_orderbook(&key(1), &mut data, true, 60, u64::MAX, false).unwrap();
    let before = data.clone();
    assert_eq!(
        Processor::add_order_to_orderbook(&key(2), &mut data, true, 60, 1, false),
        Err(BettingMarketError::AmountOverflow)
    );
    assert_eq!(data, before);
}

#[test]
fn eleventh_order_at_a_price_is_refused() {
    let mut data = empty_market();
    for i in 0..10u8 {
        assert_eq!(
            Processor::add_order_to_orderbook(&key(i + 1), &mut data, true, 60, 7, false),
            Ok(())
        );
    }
    assert_eq!(get_buy_amount(&data, true, 60), 70);
    let before = data.clone();
    assert_eq!(
        Processor::add_order_to_orderbook(&key(11), &mut data, true, 60, 7, false),
        Err(BettingMarketError::CapacityExceeded)
    );
    assert_eq!(data, before);
    assert_balanced(&data);
    assert_eq!(
        Processor::add_order_to_orderbook(&key(11), &mut data, false, 60, 7, true),
        Ok(())
    );
    assert_eq!(
        Processor::add_order_to_orderbook(&key(11), &mut data, true, 61, 7, false),
        Ok(())
    );
    assert_balanced(&data);
}

#[test]
fn resting_order_leaves_the_rest_of_the_buffer() {
    let mut data = vec![0u8; MARKET_DATA_LEN + 10];
    for byte in data[..1000].iter_mut() {
        *byte = 0x5a;
    }
    for byte in data[MARKET_DATA_LEN..].iter_mut() {
        *byte = 0x5a;
    }
    Processor::add_order_to_orderbook(&key(1), &mut data, true, 60, 100, false).unwrap();
    assert!(data[..1000].iter().all(|byte| *byte == 0x5a));
    assert!(data[MARKET_DATA_LEN..].iter().all(|byte| *byte == 0x5a));
    assert!(data[1808..2000].iter().all(|byte| *byte == 0));
    assert!(data[70000..MARKET_DATA_LEN].iter().all(|byte| *byte == 0));
}
