use tx_mock::decode::{account_from_raw, bytes_of_raw, esdt_from_raw, DecodeError};
use tx_mock::ledger::{AccountData, BlockInfo, EsdtData, EsdtInstanceMetadata};
use tx_mock::raw::{
    account_as_raw, biguint_as_raw, biguint_from_raw, block_info_as_raw, bytes_as_raw,
    bytes_from_raw, esdt_data_as_raw, tx_call_as_raw, tx_expect_as_raw, tx_query_as_raw,
    u64_as_raw, u64_from_raw, CheckValueRaw,
};
use tx_mock::scenario::{ScCallMandos, ScQueryMandos, TxEsdtTransfer, TxExpectMandos};
use tx_mock::text::parse_decimal_u128;

fn metadata(tag: u8) -> EsdtInstanceMetadata {
    EsdtInstanceMetadata {
        name: vec![],
        creator: Some(vec![tag; 32]),
        royalties: 3000,
        hash: None,
        uri: Some(b"https://example.org/1".to_vec()),
        attributes: b"tags:test".to_vec(),
    }
}

#[test]
fn bytes_encode_as_prefixed_lowercase_hex() {
    assert_eq!(bytes_as_raw(&[0x12, 0xab, 0x00]), "0x12ab00");
    assert_eq!(bytes_as_raw(&[]), "0x");
}

#[test]
fn integers_encode_in_base_ten() {
    assert_eq!(u64_as_raw(0), "0");
    assert_eq!(u64_as_raw(1000), "1000");
    assert_eq!(u64_as_raw(u64::MAX), "18446744073709551615");
    assert_eq!(biguint_as_raw(u128::MAX), "340282366920938463463374607431768211455");
}

#[test]
fn bytes_decode_from_hex_of_either_case() {
    assert_eq!(bytes_from_raw("0x12AB"), Some(vec![0x12, 0xab]));
    assert_eq!(bytes_from_raw("0x"), Some(vec![]));
    assert_eq!(bytes_from_raw("12ab"), None);
    assert_eq!(bytes_from_raw("0x1"), None);
    assert_eq!(bytes_from_raw("0xzz"), None);
    assert_eq!(bytes_of_raw(&"0x0a0b".to_string()), Some(vec![10, 11]));
}

#[test]
fn integers_decode_within_range() {
    assert_eq!(u64_from_raw("18446744073709551615"), Some(u64::MAX));
    assert_eq!(u64_from_raw("18446744073709551616"), None);
    assert_eq!(u64_from_raw(""), None);
    assert_eq!(u64_from_raw("1a"), None);
    assert_eq!(u64_from_raw("007"), Some(7));
    assert_eq!(biguint_from_raw("340282366920938463463374607431768211455"), Some(u128::MAX));
    assert_eq!(parse_decimal_u128("340282366920938463463374607431768211456"), None);
}

#[test]
fn esdt_last_nonce_left_out_while_zero() {
    let e = EsdtData::new(b"NFT-123456".to_vec());
    let raw = esdt_data_as_raw(&e);
    assert!(raw.last_nonce.is_none());
    assert_eq!(raw.token_identifier.as_deref(), Some("0x4e46542d313233343536"));
    assert!(raw.instances.is_empty());
}

#[test]
fn esdt_full_form_lists_every_unit() {
    let mut e = EsdtData::new(b"NFT-1".to_vec());
    e.add_role("ESDTRoleNFTCreate".to_string());
    e.nft_create(1, metadata(7)).unwrap();
    let raw = esdt_data_as_raw(&e);
    assert_eq!(raw.last_nonce.as_deref(), Some("1"));
    assert_eq!(raw.roles, vec!["ESDTRoleNFTCreate".to_string()]);
    assert_eq!(raw.instances.len(), 1);
    let inst = &raw.instances[0];
    assert_eq!(inst.nonce.as_deref(), Some("1"));
    assert_eq!(inst.balance.as_deref(), Some("1"));
    assert_eq!(inst.royalties.as_deref(), Some("3000"));
    assert!(inst.hash.is_none());
    assert_eq!(inst.attributes.as_deref(), Some("0x746167733a74657374"));
}

#[test]
fn account_round_trip_keeps_present_fields() {
    let mut acc = AccountData::new(vec![0xaa; 32]);
    acc.egld_balance = 1000;
    acc.nonce = 5;
    acc.contract_path = Some("file:out/adder.wasm".to_string());
    acc.contract_owner = Some(vec![0xbb; 32]);
    acc.set_storage(b"sum".to_vec(), vec![0x05]);
    let mut e = EsdtData::new(b"NFT-1".to_vec());
    e.nft_create(1, metadata(3)).unwrap();
    e.nft_create(1, metadata(4)).unwrap();
    acc.esdt.push(e);
    let raw = account_as_raw(&acc);
    assert_eq!(raw.balance.as_deref(), Some("1000"));
    assert_eq!(raw.nonce.as_deref(), Some("5"));
    assert_eq!(raw.storage, vec![("0x73756d".to_string(), "0x05".to_string())]);
    let back = account_from_raw(&acc.address, &raw).unwrap();
    assert_eq!(back.address, acc.address);
    assert_eq!(back.egld_balance, 1000);
    assert_eq!(back.nonce, 5);
    assert_eq!(back.contract_path, acc.contract_path);
    assert_eq!(back.contract_owner, acc.contract_owner);
    assert_eq!(back.storage, acc.storage);
    assert_eq!(back.esdt.len(), 1);
    assert_eq!(back.esdt[0].token_identifier, b"NFT-1".to_vec());
    assert_eq!(back.esdt[0].last_nonce, 2);
    assert_eq!(back.esdt[0].instances.len(), 2);
    assert_eq!(back.esdt[0].instances[1].nonce, 2);
    assert_eq!(back.esdt[0].instances[1].metadata.creator, Some(vec![4; 32]));
    assert_eq!(back.esdt[0].instances[1].metadata.uri, Some(b"https://example.org/1".to_vec()));
    assert_eq!(back.esdt[0].instances[1].metadata.attributes, b"tags:test".to_vec());
}

#[test]
fn malformed_fields_are_refused() {
    let acc = AccountData::new(vec![1; 32]);
    let mut raw = account_as_raw(&acc);
    raw.balance = Some("-1".to_string());
    assert_eq!(account_from_raw(&acc.address, &raw).err(), Some(DecodeError::Malformed));
    let e = esdt_data_as_raw(&EsdtData::new(b"T".to_vec()));
    assert_eq!(esdt_from_raw(&"str:T".to_string(), &e).err(), Some(DecodeError::Malformed));
}

#[test]
fn absent_fields_decode_as_defaults() {
    let acc = AccountData::new(vec![1; 32]);
    let mut raw = account_as_raw(&acc);
    raw.balance = None;
    raw.nonce = None;
    let back = account_from_raw(&acc.address, &raw).unwrap();
    assert_eq!(back.egld_balance, 0);
    assert_eq!(back.nonce, 0);
}

#[test]
fn block_info_fields() {
    let b = BlockInfo {
        block_timestamp: 1,
        block_nonce: 2,
        block_round: 3,
        block_epoch: 4,
        block_random_seed: vec![0xde, 0xad],
    };
    let raw = block_info_as_raw(&b);
    assert_eq!(raw.block_timestamp.as_deref(), Some("1"));
    assert_eq!(raw.block_nonce.as_deref(), Some("2"));
    assert_eq!(raw.block_round.as_deref(), Some("3"));
    assert_eq!(raw.block_epoch.as_deref(), Some("4"));
    assert_eq!(raw.block_random_seed.as_deref(), Some("0xdead"));
}

#[test]
fn call_writes_value_under_current_name() {
    let call = ScCallMandos {
        from: vec![1, 2],
        to: vec![3],
        egld_value: 100,
        esdt: vec![TxEsdtTransfer { token_identifier: b"T".to_vec(), nonce: 2, value: 50 }],
        function: "add".to_string(),
        arguments: vec![vec![0x05], vec![]],
        gas_limit: 5000000,
        gas_price: 0,
    };
    let raw = tx_call_as_raw(&call);
    assert_eq!(raw.from, "0x0102");
    assert_eq!(raw.to, "0x03");
    assert!(raw.value.is_none());
    assert_eq!(raw.egld_value.as_deref(), Some("100"));
    assert_eq!(raw.esdt_value.len(), 1);
    assert_eq!(raw.esdt_value[0].token_identifier.as_deref(), Some("0x54"));
    assert_eq!(raw.esdt_value[0].nonce.as_deref(), Some("2"));
    assert_eq!(raw.esdt_value[0].value, "50");
    assert_eq!(raw.function, "add");
    assert_eq!(raw.arguments, vec!["0x05".to_string(), "0x".to_string()]);
    assert_eq!(raw.gas_limit, "5000000");
    assert_eq!(raw.gas_price, "0");
    let q = tx_query_as_raw(&ScQueryMandos { to: vec![3], function: "getSum".to_string(), arguments: vec![] });
    assert_eq!(q.to, "0x03");
    assert_eq!(q.function, "getSum");
    assert!(q.arguments.is_empty());
}

#[test]
fn expectation_uses_wildcards_and_str_prefix() {
    let e = TxExpectMandos { out: vec![b"*".to_vec(), vec![0x07]], status: 4, message: "insufficient funds".to_string() };
    let raw = tx_expect_as_raw(&e);
    assert!(matches!(raw.out[0], CheckValueRaw::Star));
    assert!(matches!(&raw.out[1], CheckValueRaw::Equal(s) if s == "0x07"));
    assert!(matches!(&raw.status, CheckValueRaw::Equal(s) if s == "4"));
    assert!(matches!(&raw.message, CheckValueRaw::Equal(s) if s == "str:insufficient funds"));
    assert!(matches!(raw.logs, CheckValueRaw::Star));
    assert!(matches!(raw.gas, CheckValueRaw::Star));
    assert!(matches!(raw.refund, CheckValueRaw::Star));
    let any = TxExpectMandos { out: vec![], status: 0, message: "*".to_string() };
    assert!(matches!(tx_expect_as_raw(&any).message, CheckValueRaw::Star));
}
