use tx_mock::ledger::{AccountData, BlockInfo, BlockchainMock, EsdtData, EsdtInstanceMetadata, LedgerError};
use tx_mock::scenario::{
    check_message, check_state, check_value, execute_transfer_call, set_state, CheckAccount,
    ScCallMandos, StateCheckError, TxCheckError, TxExpectMandos,
};
use tx_mock::tx_result::{TxPanic, TxResult};

fn block() -> BlockInfo {
    BlockInfo { block_timestamp: 0, block_nonce: 0, block_round: 0, block_epoch: 0, block_random_seed: vec![0; 48] }
}

fn ledger_with(accounts: &[(u8, u128)]) -> BlockchainMock {
    let mut state = BlockchainMock::new(block());
    for (tag, balance) in accounts {
        let mut acc = AccountData::new(vec![*tag; 32]);
        acc.egld_balance = *balance;
        state.add_account(acc);
    }
    state
}

fn transfer(from: u8, to: u8, value: u128) -> ScCallMandos {
    ScCallMandos {
        from: vec![from; 32],
        to: vec![to; 32],
        egld_value: value,
        esdt: vec![],
        function: String::new(),
        arguments: vec![],
        gas_limit: 0,
        gas_price: 0,
    }
}

fn balance(state: &BlockchainMock, tag: u8) -> u128 {
    state.get_account(&[tag; 32]).unwrap().egld_balance
}

fn item(tag: u8) -> EsdtInstanceMetadata {
    EsdtInstanceMetadata {
        name: vec![tag],
        creator: None,
        royalties: 0,
        hash: None,
        uri: None,
        attributes: vec![],
    }
}

#[test]
fn transfer_of_one_hundred_out_of_one_thousand() {
    let mut state = ledger_with(&[(1, 1000), (2, 0)]);
    let r = execute_transfer_call(&mut state, &transfer(1, 2, 100));
    assert_eq!(r.result_status, 0);
    assert!(r.assert_ok().is_ok());
    assert_eq!(balance(&state, 1), 900);
    assert_eq!(balance(&state, 2), 100);
}

#[test]
fn transfer_beyond_balance_is_refused() {
    let mut state = ledger_with(&[(1, 50), (2, 7)]);
    let r = execute_transfer_call(&mut state, &transfer(1, 2, 100));
    assert_eq!(r.result_status, 10);
    assert_eq!(r.result_message, "insufficient funds");
    assert_eq!(balance(&state, 1), 50);
    assert_eq!(balance(&state, 2), 7);
}

#[test]
fn transfer_to_unknown_account_is_refused() {
    let mut state = ledger_with(&[(1, 50)]);
    assert_eq!(state.transfer_egld(&[1; 32], &[9; 32], 1), Err(LedgerError::UnknownAccount));
    let r = execute_transfer_call(&mut state, &transfer(1, 9, 1));
    assert_eq!(r.result_status, 10);
    assert_eq!(r.result_message, "unknown account");
    assert_eq!(balance(&state, 1), 50);
}

#[test]
fn transfer_that_would_overflow_is_refused() {
    let mut state = ledger_with(&[(1, 10), (2, u128::MAX)]);
    assert_eq!(state.transfer_egld(&[1; 32], &[2; 32], 1), Err(LedgerError::BalanceOverflow));
    assert_eq!(balance(&state, 2), u128::MAX);
}

#[test]
fn transfer_to_self_keeps_balance() {
    let mut state = ledger_with(&[(1, 10)]);
    assert_eq!(state.transfer_egld(&[1; 32], &[1; 32], 10), Ok(()));
    assert_eq!(balance(&state, 1), 10);
}

#[test]
fn add_account_overwrites_same_address() {
    let mut state = ledger_with(&[(1, 10), (2, 20)]);
    let mut acc = AccountData::new(vec![1; 32]);
    acc.egld_balance = 99;
    state.add_account(acc);
    assert_eq!(state.accounts.len(), 2);
    assert_eq!(balance(&state, 1), 99);
    assert!(matches!(state.get_account(&[3; 32]), Err(LedgerError::UnknownAccount)));
}

#[test]
fn storage_set_and_get() {
    let mut acc = AccountData::new(vec![1; 32]);
    assert_eq!(acc.get_storage(b"k"), Vec::<u8>::new());
    acc.set_storage(b"k".to_vec(), vec![1]);
    acc.set_storage(b"j".to_vec(), vec![2]);
    acc.set_storage(b"k".to_vec(), vec![3]);
    assert_eq!(acc.storage.len(), 2);
    assert_eq!(acc.get_storage(b"k"), vec![3]);
    assert_eq!(acc.get_storage(b"j"), vec![2]);
}

#[test]
fn three_mints_in_separate_steps() {
    let mut e = EsdtData::new(b"NFT-1".to_vec());
    assert_eq!(e.nft_create(1, item(1)), Ok(1));
    assert_eq!(e.nft_create(1, item(2)), Ok(2));
    assert_eq!(e.nft_create(1, item(3)), Ok(3));
    assert_eq!(e.last_nonce, 3);
    let nonces: Vec<u64> = e.instances.iter().map(|i| i.nonce).collect();
    assert_eq!(nonces, vec![1, 2, 3]);
    assert_eq!(e.balance_of(2), 1);
    assert_eq!(e.balance_of(4), 0);
    assert_eq!(e.get_instance(3).unwrap().metadata.name, vec![3]);
}

#[test]
fn three_mints_in_one_step() {
    let mut e = EsdtData::new(b"NFT-1".to_vec());
    let nonces = e.nft_create_many(vec![(1, item(1)), (1, item(2)), (1, item(3))]).unwrap();
    assert_eq!(nonces, vec![1, 2, 3]);
    assert_eq!(e.last_nonce, 3);
    let held: Vec<u64> = e.instances.iter().map(|i| i.nonce).collect();
    assert_eq!(held, vec![1, 2, 3]);
    assert_eq!(e.get_instance(2).unwrap().metadata.name, vec![2]);
}

#[test]
fn minting_stops_at_the_last_nonce() {
    let mut e = EsdtData::new(b"NFT-1".to_vec());
    e.last_nonce = u64::MAX - 1;
    assert_eq!(e.nft_create_many(vec![(1, item(1)), (1, item(2))]).err(), Some(LedgerError::NonceOverflow));
    assert!(e.instances.is_empty());
    assert_eq!(e.nft_create(1, item(1)), Ok(u64::MAX));
    assert_eq!(e.nft_create(1, item(2)), Err(LedgerError::NonceOverflow));
}

#[test]
fn roles_are_sorted_and_not_repeated() {
    let mut e = EsdtData::new(b"T".to_vec());
    e.add_role("ESDTRoleLocalMint".to_string());
    e.add_role("ESDTRoleLocalBurn".to_string());
    e.add_role("ESDTRoleLocalMint".to_string());
    e.add_role("ESDTRoleNFTCreate".to_string());
    e.add_role("ESDTRoleLocalBurn".to_string());
    assert_eq!(
        e.get_roles(),
        vec!["ESDTRoleLocalBurn".to_string(), "ESDTRoleLocalMint".to_string(), "ESDTRoleNFTCreate".to_string()]
    );
    assert!(e.has_role(&"ESDTRoleLocalBurn".to_string()));
    assert!(!e.has_role(&"ESDTRoleNFTBurn".to_string()));
}

#[test]
fn wildcard_matches_any_value_and_message() {
    assert!(check_value(&b"*".to_vec(), &vec![]));
    assert!(check_value(&b"*".to_vec(), &vec![1, 2, 3]));
    assert!(check_value(&vec![1, 2], &vec![1, 2]));
    assert!(!check_value(&vec![1, 2], &vec![1]));
    assert!(!check_value(&b"**".to_vec(), &vec![1]));
    assert!(check_message(&"*".to_string(), &"anything at all".to_string()));
    assert!(check_message(&"*".to_string(), &String::new()));
    assert!(!check_message(&"a".to_string(), &"b".to_string()));
}

#[test]
fn expectation_check_reports_first_difference() {
    let r = TxResult::from_panic_obj(&TxPanic { status: 4, message: "insufficient funds".to_string() });
    let ok = TxExpectMandos { out: vec![], status: 4, message: "insufficient funds".to_string() };
    assert_eq!(ok.check(&r), Ok(()));
    let star = TxExpectMandos { out: vec![], status: 4, message: "*".to_string() };
    assert_eq!(star.check(&r), Ok(()));
    let wrong_status = TxExpectMandos { out: vec![], status: 0, message: "*".to_string() };
    assert_eq!(wrong_status.check(&r), Err(TxCheckError::Status { want: 0, have: 4 }));
    let wrong_message = TxExpectMandos { out: vec![], status: 4, message: "other".to_string() };
    assert_eq!(wrong_message.check(&r), Err(TxCheckError::Message));
    let wrong_count = TxExpectMandos { out: vec![b"*".to_vec()], status: 4, message: "*".to_string() };
    assert_eq!(wrong_count.check(&r), Err(TxCheckError::OutCount { want: 1, have: 0 }));
    let mut with_values = TxResult::empty();
    with_values.result_values = vec![vec![], vec![5]];
    let values = TxExpectMandos { out: vec![b"*".to_vec(), vec![6]], status: 0, message: "".to_string() };
    assert_eq!(values.check(&with_values), Err(TxCheckError::OutValue { index: 1 }));
    let any = TxExpectMandos { out: vec![b"*".to_vec(), b"*".to_vec()], status: 0, message: "*".to_string() };
    assert_eq!(any.check(&with_values), Ok(()));
}

#[test]
fn add_quantity_and_burn_change_one_unit() {
    let mut e = EsdtData::new(b"SFT-1".to_vec());
    e.nft_create(10, item(1)).unwrap();
    e.nft_create(5, item(2)).unwrap();
    assert_eq!(e.add_quantity(1, 7), Ok(()));
    assert_eq!(e.balance_of(1), 17);
    assert_eq!(e.balance_of(2), 5);
    assert_eq!(e.add_quantity(9, 1), Err(LedgerError::UnknownTokenNonce));
    assert_eq!(e.add_quantity(2, u128::MAX), Err(LedgerError::BalanceOverflow));
    assert_eq!(e.burn(2, 6), Err(LedgerError::InsufficientFunds));
    assert_eq!(e.burn(1, 7), Ok(()));
    assert_eq!(e.balance_of(1), 10);
    assert_eq!(e.burn(2, 5), Ok(()));
    assert!(e.get_instance(2).is_none());
    assert_eq!(e.instances.len(), 1);
    assert_eq!(e.last_nonce, 2);
    assert_eq!(e.burn(2, 1), Err(LedgerError::UnknownTokenNonce));
}

#[test]
fn nonce_increases_by_one() {
    let mut state = ledger_with(&[(1, 0)]);
    assert_eq!(state.increase_nonce(&[1; 32]), Ok(()));
    assert_eq!(state.increase_nonce(&[1; 32]), Ok(()));
    assert_eq!(state.get_account(&[1; 32]).unwrap().nonce, 2);
    assert_eq!(state.increase_nonce(&[2; 32]), Err(LedgerError::UnknownAccount));
    let mut full = AccountData::new(vec![3; 32]);
    full.nonce = u64::MAX;
    state.add_account(full);
    assert_eq!(state.increase_nonce(&[3; 32]), Err(LedgerError::NonceOverflow));
}

#[test]
fn account_mints_sequential_nonces() {
    let mut state = ledger_with(&[(1, 0), (2, 0)]);
    assert_eq!(state.esdt_nft_create(&[1; 32], b"NFT-1".to_vec(), 1, item(1)), Ok(1));
    assert_eq!(state.esdt_nft_create(&[1; 32], b"NFT-1".to_vec(), 1, item(2)), Ok(2));
    assert_eq!(state.esdt_nft_create(&[1; 32], b"NFT-1".to_vec(), 1, item(3)), Ok(3));
    assert_eq!(state.esdt_nft_create(&[1; 32], b"OTHER-1".to_vec(), 1, item(4)), Ok(1));
    assert_eq!(state.esdt_nft_create(&[9; 32], b"NFT-1".to_vec(), 1, item(1)), Err(LedgerError::UnknownAccount));
    let acc = state.get_account(&[1; 32]).unwrap();
    let i = acc.esdt_index(b"NFT-1").unwrap();
    assert_eq!(acc.esdt[i].last_nonce, 3);
    let nonces: Vec<u64> = acc.esdt[i].instances.iter().map(|x| x.nonce).collect();
    assert_eq!(nonces, vec![1, 2, 3]);
    assert!(state.get_account(&[2; 32]).unwrap().esdt.is_empty());
}

fn expect(tag: u8, nonce: Option<u64>, balance: Option<u128>, storage: Vec<(Vec<u8>, Vec<u8>)>) -> CheckAccount {
    CheckAccount { address: vec![tag; 32], nonce, balance, storage }
}

#[test]
fn set_state_then_check_state() {
    let mut state = BlockchainMock::new(block());
    let mut a = AccountData::new(vec![1; 32]);
    a.egld_balance = 1000;
    a.set_storage(b"owner".to_vec(), vec![7]);
    let b = AccountData::new(vec![2; 32]);
    let mut a_again = AccountData::new(vec![1; 32]);
    a_again.egld_balance = 1000;
    a_again.set_storage(b"owner".to_vec(), vec![7]);
    set_state(&mut state, vec![a, b, a_again]);
    assert_eq!(state.accounts.len(), 2);
    let r = execute_transfer_call(&mut state, &transfer(1, 2, 100));
    assert_eq!(r.result_status, 0);
    let ok = vec![
        expect(1, Some(0), Some(900), vec![(b"owner".to_vec(), vec![7]), (b"none".to_vec(), vec![])]),
        expect(2, None, Some(100), vec![]),
    ];
    assert_eq!(check_state(&state, &ok), Ok(()));
    assert_eq!(check_state(&state, &vec![expect(3, None, None, vec![])]), Err(StateCheckError::MissingAccount { index: 0 }));
    assert_eq!(
        check_state(&state, &vec![expect(2, None, None, vec![]), expect(1, None, Some(1000), vec![])]),
        Err(StateCheckError::Balance { index: 1, want: 1000, have: 900 })
    );
    assert_eq!(check_state(&state, &vec![expect(1, Some(3), None, vec![])]), Err(StateCheckError::Nonce { index: 0, want: 3, have: 0 }));
    assert_eq!(
        check_state(&state, &vec![expect(1, None, None, vec![(b"owner".to_vec(), vec![8])])]),
        Err(StateCheckError::Storage { index: 0, key_index: 0 })
    );
}

#[test]
fn transfer_overflow_message() {
    let mut state = ledger_with(&[(1, 10), (2, u128::MAX)]);
    let r = execute_transfer_call(&mut state, &transfer(1, 2, 1));
    assert_eq!(r.result_status, 10);
    assert_eq!(r.result_message, "balance overflow");
}
