use betting_market::book::{get_buy_amount, get_queue};
use betting_market::error::BettingMarketError;
use betting_market::matching::TradeFunding;
use betting_market::processor::Processor;
use betting_market::pubkey::Pubkey;
use betting_market::settlement::Redemption;
use betting_market::state::{BettingMarket, MARKET_DATA_LEN};
use solana_program::program_error::ProgramError;
use solana_program::program_option::COption;
use solana_program::program_pack::Pack;

fn key(first: u8) -> Pubkey {
    let mut bytes = [0u8; 32];
    bytes[0] = first;
    bytes[5] = 1;
    Pubkey::new_from_array(bytes)
}

fn host_key(key: &Pubkey) -> solana_program::pubkey::Pubkey {
    solana_program::pubkey::Pubkey::new_from_array(key.to_bytes())
}

fn program() -> Pubkey {
    key(150)
}

fn authority() -> (Pubkey, u8) {
    let (address, bump) =
        solana_program::pubkey::Pubkey::find_program_address(&[b"betting"], &host_key(&program()));
    (Pubkey::new_from_array(address.to_bytes()), bump)
}

fn token_account(mint: &Pubkey, amount: u64) -> Vec<u8> {
    let account = spl_token::state::Account {
        mint: host_key(mint),
        owner: host_key(&key(90)),
        amount,
        delegate: COption::None,
        state: spl_token::state::AccountState::Initialized,
        is_native: COption::None,
        delegated_amount: 0,
        close_authority: COption::None,
    };
    let mut data = vec![0u8; spl_token::state::Account::LEN];
    spl_token::state::Account::pack(account, &mut data).unwrap();
    data
}

#[test]
fn authority_is_the_derived_address() {
    assert_eq!(Processor::check_authority(Some((key(1), 254)), &key(1)), Ok(254));
    assert_eq!(Processor::check_authority(Some((key(1), 0)), &key(1)), Ok(0));
    assert_eq!(
        Processor::check_authority(Some((key(1), 254)), &key(2)),
        Err(BettingMarketError::InvalidPda)
    );
    assert_eq!(Processor::check_authority(None, &key(1)), Err(BettingMarketError::InvalidPda));
}

#[test]
fn authority_is_derived_from_the_seed_betting() {
    for first in [1u8, 2, 3, 77] {
        let program_id = key(first);
        let (address, bump) = solana_program::pubkey::Pubkey::find_program_address(
            &[b"betting"],
            &host_key(&program_id),
        );
        let pda = Pubkey::new_from_array(address.to_bytes());
        assert_eq!(Processor::check_pda(&program_id, &pda), Ok(bump));
        assert_eq!(
            Processor::check_pda(&program_id, &program_id),
            Err(BettingMarketError::InvalidPda)
        );
        let (other, _) = solana_program::pubkey::Pubkey::find_program_address(
            &[b"bettinh"],
            &host_key(&program_id),
        );
        assert_eq!(
            Processor::check_pda(&program_id, &Pubkey::new_from_array(other.to_bytes())),
            Err(BettingMarketError::InvalidPda)
        );
    }
}

#[test]
fn accounts_of_an_initialization() {
    let program_id = key(1);
    let (address, bump) =
        solana_program::pubkey::Pubkey::find_program_address(&[b"betting"], &host_key(&program_id));
    let pda = Pubkey::new_from_array(address.to_bytes());
    assert_eq!(Processor::check_init_accounts(&program_id, &pda, &key(5), &key(5), true), Ok(bump));
    assert_eq!(
        Processor::check_init_accounts(&program_id, &key(9), &key(6), &key(5), false),
        Err(BettingMarketError::InvalidPda)
    );
    assert_eq!(
        Processor::check_init_accounts(&program_id, &pda, &key(6), &key(5), false),
        Err(BettingMarketError::IncorrectProgramId)
    );
    assert_eq!(
        Processor::check_init_accounts(&program_id, &pda, &key(5), &key(5), false),
        Err(BettingMarketError::MissingRequiredSignature)
    );
}

#[test]
fn submission_uses_the_balance_of_the_other_token() {
    let mut data = vec![0u8; MARKET_DATA_LEN];
    let yes_account = token_account(&key(201), 1000);
    let no_account = token_account(&key(202), 30);
    let usd_account = token_account(&key(203), 5);
    let offered = Processor::process_offer_trade(
        &mut data,
        &program(),
        &authority().0,
        &key(1),
        true,
        60,
        100,
        &yes_account,
        &no_account,
        &usd_account,
        key(201),
        key(202),
        key(203),
    )
    .unwrap();
    assert_eq!(
        offered.funding,
        TradeFunding {
            inverse_collateralized_amount: 30,
            usd_collateralized_amount: 70,
            usd_amount: 4200
        }
    );
    assert!(offered.inverse_sell_mint == key(202));
    assert_eq!(offered.inverse_balance, 30);
    assert_eq!(get_buy_amount(&data, true, 60), 100);
    assert_eq!(get_queue(&data, true, 60).amounts[..3], [30, 70, 0]);
    assert_eq!(get_queue(&data, true, 60).kinds[..3], [2, 1, 0]);
}

#[test]
fn submission_on_the_no_side_uses_the_yes_balance() {
    let mut data = vec![0u8; MARKET_DATA_LEN];
    let yes_account = token_account(&key(211), 8);
    let no_account = token_account(&key(202), 30);
    let usd_account = token_account(&key(203), 5);
    let offered = Processor::process_offer_trade(
        &mut data,
        &program(),
        &authority().0,
        &key(1),
        false,
        25,
        10,
        &yes_account,
        &no_account,
        &usd_account,
        key(201),
        key(202),
        key(203),
    )
    .unwrap();
    assert_eq!(
        offered.funding,
        TradeFunding {
            inverse_collateralized_amount: 8,
            usd_collateralized_amount: 2,
            usd_amount: 50
        }
    );
    assert!(offered.inverse_sell_mint == key(211));
    assert_eq!(get_buy_amount(&data, false, 25), 10);
}

#[test]
fn funding_is_read_from_the_accounts_without_a_change() {
    let yes_account = token_account(&key(211), 8);
    let no_account = token_account(&key(212), 30);
    let usd_account = token_account(&key(203), 5);
    let offered =
        Processor::offer_funding(&program(), &authority().0, true, 60, 100, &yes_account, &no_account, &usd_account).unwrap();
    assert_eq!(
        offered.funding,
        TradeFunding {
            inverse_collateralized_amount: 30,
            usd_collateralized_amount: 70,
            usd_amount: 4200
        }
    );
    assert_eq!(offered.inverse_balance, 30);
    assert!(offered.inverse_sell_mint == key(212));
    let offered =
        Processor::offer_funding(&program(), &authority().0, false, 25, 5, &yes_account, &no_account, &usd_account).unwrap();
    assert_eq!(
        offered.funding,
        TradeFunding {
            inverse_collateralized_amount: 5,
            usd_collateralized_amount: 0,
            usd_amount: 0
        }
    );
    assert_eq!(offered.inverse_balance, 8);
    assert!(offered.inverse_sell_mint == key(211));
    let short = vec![0u8; 10];
    assert_eq!(
        Processor::offer_funding(&program(), &authority().0, true, 60, 100, &yes_account, &short, &usd_account).err(),
        Some(BettingMarketError::Program(u64::from(ProgramError::InvalidAccountData)))
    );
    assert_eq!(
        Processor::offer_funding(&program(), &authority().0, true, 101, 100, &yes_account, &no_account, &usd_account).err(),
        Some(BettingMarketError::InvalidPrice)
    );
    assert_eq!(
        Processor::offer_funding(&program(), &authority().0, true, 100, u64::MAX, &yes_account, &no_account, &usd_account)
            .err(),
        Some(BettingMarketError::AmountOverflow)
    );
}

#[test]
fn submission_with_a_wrong_control_account_is_refused() {
    let yes_account = token_account(&key(211), 8);
    let no_account = token_account(&key(212), 30);
    let usd_account = token_account(&key(203), 5);
    let short = vec![0u8; 10];
    for wrong in [key(9), program(), Pubkey::null()] {
        assert_eq!(
            Processor::offer_funding(
                &program(),
                &wrong,
                true,
                60,
                100,
                &yes_account,
                &no_account,
                &usd_account
            )
            .err(),
            Some(BettingMarketError::InvalidPda)
        );
        assert_eq!(
            Processor::offer_funding(&program(), &wrong, true, 101, 100, &short, &short, &short)
                .err(),
            Some(BettingMarketError::InvalidPda)
        );
        let mut data = vec![0u8; MARKET_DATA_LEN];
        let refused = Processor::process_offer_trade(
            &mut data,
            &program(),
            &wrong,
            &key(1),
            true,
            60,
            100,
            &yes_account,
            &no_account,
            &usd_account,
            key(201),
            key(202),
            key(203),
        );
        assert_eq!(refused.err(), Some(BettingMarketError::InvalidPda));
        assert_eq!(data, vec![0u8; MARKET_DATA_LEN]);
    }
    let other_program = key(151);
    assert_eq!(
        Processor::offer_funding(
            &other_program,
            &authority().0,
            true,
            60,
            100,
            &yes_account,
            &no_account,
            &usd_account
        )
        .err(),
        Some(BettingMarketError::InvalidPda)
    );
}

#[test]
fn initialization_checks_the_accounts_before_it_writes() {
    let (pda, bump) = authority();
    let token_program = key(5);
    let mut data = vec![0u8; MARKET_DATA_LEN];
    data[1] = 2;
    let before = data.clone();
    let refused = Processor::process_init_betting_market(
        &mut data,
        &program(),
        &key(9),
        &key(6),
        &token_program,
        false,
        &key(1),
        &key(2),
        &key(3),
        &key(4),
    );
    assert_eq!(refused, Err(BettingMarketError::InvalidPda));
    assert_eq!(data, before);
    let refused = Processor::process_init_betting_market(
        &mut data,
        &program(),
        &pda,
        &key(6),
        &token_program,
        false,
        &key(1),
        &key(2),
        &key(3),
        &key(4),
    );
    assert_eq!(refused, Err(BettingMarketError::IncorrectProgramId));
    assert_eq!(data, before);
    let refused = Processor::process_init_betting_market(
        &mut data,
        &program(),
        &pda,
        &token_program,
        &token_program,
        false,
        &key(1),
        &key(2),
        &key(3),
        &key(4),
    );
    assert_eq!(refused, Err(BettingMarketError::MissingRequiredSignature));
    assert_eq!(data, before);
    let mut bad = before.clone();
    bad[0] = 2;
    let refused = Processor::process_init_betting_market(
        &mut bad,
        &program(),
        &pda,
        &token_program,
        &token_program,
        true,
        &key(1),
        &key(2),
        &key(3),
        &key(4),
    );
    assert_eq!(refused, Err(BettingMarketError::InvalidAccountData));
    assert_eq!(bad[0], 2);
    let mut short = vec![0u8; 137];
    let refused = Processor::process_init_betting_market(
        &mut short,
        &program(),
        &pda,
        &token_program,
        &token_program,
        true,
        &key(1),
        &key(2),
        &key(3),
        &key(4),
    );
    assert_eq!(refused, Err(BettingMarketError::InvalidAccountData));
    let initialized = Processor::process_init_betting_market(
        &mut data,
        &program(),
        &pda,
        &token_program,
        &token_program,
        true,
        &key(1),
        &key(2),
        &key(3),
        &key(4),
    );
    assert_eq!(initialized, Ok(bump));
    let market = BettingMarket::unpack_from_slice(&data).unwrap();
    assert!(market.is_initialized);
    assert_eq!(market.result, 0);
    assert!(market.yes_token_mint == key(1));
    assert!(market.no_token_mint == key(2));
    assert!(market.usd_token_account == key(3));
    assert_eq!(market.strike_price, 0);
    assert!(market.judge == key(4));
    assert_eq!(&data[138..], &before[138..]);
}

#[test]
fn token_account_is_read_at_its_offsets() {
    let mut account = token_account(&key(212), 0x0102_0304_0506_0708);
    assert_eq!(account.len(), 165);
    assert_eq!(&account[..32], &key(212).to_bytes());
    assert_eq!(&account[64..72], &[8, 7, 6, 5, 4, 3, 2, 1]);
    account[64] = 9;
    account[0] = 0xaa;
    let usd_account = token_account(&key(203), 5);
    let offered = Processor::offer_funding(
        &program(),
        &authority().0,
        true,
        0,
        u64::MAX,
        &usd_account,
        &account,
        &usd_account,
    )
    .unwrap();
    assert_eq!(offered.inverse_balance, 0x0102_0304_0506_0709);
    assert_eq!(offered.inverse_sell_mint.to_bytes()[0], 0xaa);
    assert_eq!(&offered.inverse_sell_mint.to_bytes()[1..], &key(212).to_bytes()[1..]);
}

#[test]
fn submission_needs_three_token_accounts() {
    let good = token_account(&key(201), 1000);
    let uninitialized = vec![0u8; spl_token::state::Account::LEN];
    let short = vec![0u8; spl_token::state::Account::LEN - 1];
    let mut bad_tag = token_account(&key(201), 1000);
    bad_tag[72] = 7;
    let not_initialized = u64::from(ProgramError::UninitializedAccount);
    let invalid = u64::from(ProgramError::InvalidAccountData);
    let cases: Vec<(&[u8], &[u8], &[u8], u64)> = vec![
        (&uninitialized, &good, &good, not_initialized),
        (&good, &short, &good, invalid),
        (&good, &good, &bad_tag, invalid),
        (&short, &uninitialized, &good, invalid),
        (&good, &uninitialized, &short, not_initialized),
    ];
    for (yes_account, no_account, usd_account, code) in cases {
        let mut data = vec![0u8; MARKET_DATA_LEN];
        let refused = Processor::process_offer_trade(
            &mut data,
            &program(),
            &authority().0,
            &key(1),
            true,
            60,
            100,
            yes_account,
            no_account,
            usd_account,
            key(201),
            key(202),
            key(203),
        );
        assert_eq!(refused.err(), Some(BettingMarketError::Program(code)));
        assert_eq!(data, vec![0u8; MARKET_DATA_LEN]);
    }
}

#[test]
fn submission_with_accounts_reports_the_errors_of_the_order() {
    let mut data = vec![0u8; MARKET_DATA_LEN];
    let account = token_account(&key(201), 0);
    let refused = Processor::process_offer_trade(
        &mut data,
        &program(),
        &authority().0,
        &key(1),
        true,
        101,
        100,
        &account,
        &account,
        &account,
        key(201),
        key(202),
        key(203),
    );
    assert_eq!(refused.err(), Some(BettingMarketError::InvalidPrice));
    let refused = Processor::process_offer_trade(
        &mut data,
        &program(),
        &authority().0,
        &Pubkey::null(),
        true,
        60,
        100,
        &account,
        &account,
        &account,
        key(201),
        key(202),
        key(203),
    );
    assert_eq!(refused.err(), Some(BettingMarketError::NullOwner));
    assert_eq!(data, vec![0u8; MARKET_DATA_LEN]);
}

#[test]
fn redemption_reads_the_balances_of_the_accounts() {
    let mut data = vec![0u8; MARKET_DATA_LEN];
    let yes_account = token_account(&key(201), 5);
    let no_account = token_account(&key(202), 6);
    assert_eq!(Processor::process_redemption(&data, &yes_account, &no_account), Ok(None));
    data[1] = 1;
    assert_eq!(
        Processor::process_redemption(&data, &yes_account, &no_account),
        Ok(Some(Redemption { burn_yes: 5, burn_no: 6, usd_transfer_amount: 500 }))
    );
    data[1] = 2;
    assert_eq!(
        Processor::process_redemption(&data, &yes_account, &no_account),
        Ok(Some(Redemption { burn_yes: 5, burn_no: 6, usd_transfer_amount: 600 }))
    );
}

#[test]
fn redemption_needs_token_accounts_once_the_market_is_decided() {
    let mut data = vec![0u8; MARKET_DATA_LEN];
    let good = token_account(&key(201), 5);
    let uninitialized = vec![0u8; spl_token::state::Account::LEN];
    let short = vec![0u8; 3];
    assert_eq!(Processor::process_redemption(&data, &short, &uninitialized), Ok(None));
    data[1] = 2;
    assert_eq!(
        Processor::process_redemption(&data, &short, &uninitialized),
        Err(BettingMarketError::Program(u64::from(ProgramError::InvalidAccountData)))
    );
    assert_eq!(
        Processor::process_redemption(&data, &good, &uninitialized),
        Err(BettingMarketError::Program(u64::from(ProgramError::UninitializedAccount)))
    );
    let rich = token_account(&key(202), u64::MAX);
    assert_eq!(
        Processor::process_redemption(&data, &good, &rich),
        Err(BettingMarketError::AmountOverflow)
    );
}
