//! The scenario text form of values: byte strings as `0x` and lowercase hex,
//! integers in base 10, free text after `str:`, and `*` for "any value".
use vstd::prelude::*;
use vstd::string::*;

use crate::ledger::{AccountData, BlockInfo, EsdtData, EsdtInstance};
use crate::scenario::{ScCallMandos, ScQueryMandos, TxExpectMandos};
use crate::text::{
    bytes_to_hex, decimal_of, decimal_value, hex_digit, hex_of, hex_spells, hex_value,
    is_decimal_char, lemma_decimal_of_digits, parse_decimal_u128, parse_decimal_u64,
    u64_to_decimal, biguint_decimal,
};

verus! {

/// The wildcard that matches any value.
pub const STAR_STR: &'static str = "*";

/// The prefix of free text.
pub const STR_PREFIX: &'static str = "str:";

/// The text form of a byte string.
pub open spec fn bytes_text(b: Seq<u8>) -> Seq<char> {
    seq!['0', 'x'] + hex_of(b)
}

pub open spec fn opt_view(o: Option<String>) -> Option<Seq<char>> {
    match o {
        Some(s) => Some(s@),
        None => None,
    }
}

pub open spec fn texts(v: Seq<String>) -> Seq<Seq<char>> {
    v.map_values(|s: String| s@)
}

/// The text form of a byte string.
pub fn bytes_as_raw(bytes: &[u8]) -> (r: String)
    ensures
        r@ == bytes_text(bytes@),
{
    bytes_to_hex(bytes)
}

/// The text form of an address.
pub fn address_as_raw(address: &Vec<u8>) -> (r: String)
    ensures
        r@ == bytes_text(address@),
{
    bytes_as_raw(address.as_slice())
}

/// The text form of a `u64`.
pub fn u64_as_raw(value: u64) -> (r: String)
    ensures
        r@ == decimal_of(value as nat),
{
    u64_to_decimal(value)
}

/// The text form of an amount.
pub fn biguint_as_raw(value: u128) -> (r: String)
    ensures
        r@ == decimal_of(value as nat),
{
    biguint_decimal(value)
}

/// The value of one hex digit of either case.
pub fn hex_char_value(c: char) -> (r: Option<u8>)
    ensures
        r is Some <==> hex_value(c) >= 0,
        r is Some ==> r->Some_0 as int == hex_value(c),
{
    if '0' <= c && c <= '9' {
        Some((c as u32 - '0' as u32) as u8)
    } else if 'a' <= c && c <= 'f' {
        Some((c as u32 - 'a' as u32 + 10) as u8)
    } else if 'A' <= c && c <= 'F' {
        Some((c as u32 - 'A' as u32 + 10) as u8)
    } else {
        None
    }
}

/// `s` is `0x` followed by an even number of hex digits.
pub open spec fn is_bytes_text(s: Seq<char>) -> bool {
    &&& s.len() >= 2
    &&& s[0] == '0'
    &&& s[1] == 'x'
    &&& (s.len() - 2) % 2 == 0
    &&& forall|i: int| 2 <= i < s.len() ==> hex_value(#[trigger] s[i]) >= 0
}

/// Reads a byte string from its text form: `None` unless `s` is `0x`
/// followed by an even number of hex digits.
pub fn bytes_from_raw(s: &str) -> (r: Option<Vec<u8>>)
    ensures
        r is Some <==> is_bytes_text(s@),
        r is Some ==> hex_spells(s@.subrange(2, s@.len() as int), r->Some_0@),
{
    let n = s.unicode_len();
    if n < 2 || s.get_char(0) != '0' || s.get_char(1) != 'x' || (n - 2) % 2 != 0 {
        return None;
    }
    let ghost digits = s@.subrange(2, n as int);
    let m = (n - 2) / 2;
    let mut out: Vec<u8> = Vec::new();
    let mut i: usize = 0;
    while i < m
        invariant
            n == s@.len(),
            n >= 2,
            m * 2 == n - 2,
            digits == s@.subrange(2, n as int),
            i <= m,
            out@.len() == i,
            forall|k: int| 2 <= k < 2 + 2 * i ==> hex_value(#[trigger] s@[k]) >= 0,
            forall|k: int|
                0 <= k < i ==> #[trigger] out@[k] == hex_value(digits[2 * k]) * 16 + hex_value(
                    digits[2 * k + 1],
                ),
        decreases m - i,
    {
        let hi = hex_char_value(s.get_char(2 + 2 * i));
        let lo = hex_char_value(s.get_char(3 + 2 * i));
        match (hi, lo) {
            (Some(h), Some(l)) => {
                assert(digits[2 * i as int] == s@[2 + 2 * i as int]);
                assert(digits[2 * i as int + 1] == s@[3 + 2 * i as int]);
                out.push(h * 16 + l);
            },
            _ => {
                return None;
            },
        }
        i = i + 1;
    }
    assert forall|k: int| 0 <= k < m implies hex_value(#[trigger] digits[2 * k]) >= 0 && hex_value(
        digits[2 * k + 1],
    ) >= 0 && out@[k] == hex_value(digits[2 * k]) * 16 + hex_value(digits[2 * k + 1]) by {
        assert(digits[2 * k] == s@[2 + 2 * k]);
        assert(digits[2 * k + 1] == s@[2 + 2 * k + 1]);
    }
    Some(out)
}

/// Reads a `u64` from its text form.
pub fn u64_from_raw(s: &str) -> (r: Option<u64>)
    ensures
        r is Some <==> (s@.len() > 0 && (forall|i: int| 0 <= i < s@.len() ==> is_decimal_char(#[trigger] s@[i]))
            && decimal_value(s@) <= u64::MAX),
        r is Some ==> r->Some_0 as nat == decimal_value(s@),
{
    parse_decimal_u64(s)
}

/// Reads an amount from its text form.
pub fn biguint_from_raw(s: &str) -> (r: Option<u128>)
    ensures
        r is Some <==> (s@.len() > 0 && (forall|i: int| 0 <= i < s@.len() ==> is_decimal_char(#[trigger] s@[i]))
            && decimal_value(s@) <= u128::MAX),
        r is Some ==> r->Some_0 as nat == decimal_value(s@),
{
    parse_decimal_u128(s)
}

pub proof fn lemma_hex_digit_value(n: int)
    requires
        0 <= n < 16,
    ensures
        hex_value(hex_digit(n)) == n,
{
    let t = seq!['0', '1', '2', '3', '4', '5', '6', '7', '8', '9', 'a', 'b', 'c', 'd', 'e', 'f'];
    assert(t[0] == '0' && t[1] == '1' && t[2] == '2' && t[3] == '3' && t[4] == '4');
    assert(t[5] == '5' && t[6] == '6' && t[7] == '7' && t[8] == '8' && t[9] == '9');
    assert(t[10] == 'a' && t[11] == 'b' && t[12] == 'c' && t[13] == 'd' && t[14] == 'e');
    assert(t[15] == 'f');
}

/// The text form of a byte string reads back as that byte string, and as
/// nothing else.
pub proof fn lemma_bytes_round_trip(b: Seq<u8>)
    ensures
        is_bytes_text(bytes_text(b)),
        hex_spells(bytes_text(b).subrange(2, bytes_text(b).len() as int), b),
        forall|c: Seq<u8>|
            hex_spells(bytes_text(b).subrange(2, bytes_text(b).len() as int), c) ==> c == b,
{
    let s = bytes_text(b);
    let h = hex_of(b);
    assert(s.subrange(2, s.len() as int) =~= h);
    assert forall|i: int| 0 <= i < b.len() implies hex_value(#[trigger] h[2 * i]) == b[i] as int / 16
        && hex_value(h[2 * i + 1]) == b[i] as int % 16 by {
        lemma_hex_digit_value(b[i] as int / 16);
        lemma_hex_digit_value(b[i] as int % 16);
        assert((2 * i) / 2 == i && (2 * i) % 2 == 0);
        assert((2 * i + 1) / 2 == i && (2 * i + 1) % 2 == 1);
    }
    assert forall|k: int| 2 <= k < s.len() implies hex_value(#[trigger] s[k]) >= 0 by {
        let i = (k - 2) / 2;
        assert(h[2 * i] == s[k] || h[2 * i + 1] == s[k]);
    }
    assert forall|c: Seq<u8>| hex_spells(h, c) implies c == b by {
        assert(c.len() == b.len());
        assert forall|i: int| 0 <= i < b.len() implies c[i] == b[i] by {
            assert(h[2 * i] == hex_digit(b[i] as int / 16));
        }
        assert(c =~= b);
    }
}

/// The text form of an integer reads back as that integer.
pub proof fn lemma_decimal_round_trip(n: nat)
    ensures
        decimal_of(n).len() > 0,
        forall|i: int| 0 <= i < decimal_of(n).len() ==> is_decimal_char(#[trigger] decimal_of(n)[i]),
        decimal_value(decimal_of(n)) == n,
{
    lemma_decimal_of_digits(n);
}

/// An expected value: any value, or exactly this text.
#[derive(Clone, Debug)]
pub enum CheckValueRaw {
    Star,
    Equal(String),
}

pub open spec fn check_view(c: CheckValueRaw) -> Option<Seq<char>> {
    match c {
        CheckValueRaw::Star => None,
        CheckValueRaw::Equal(s) => Some(s@),
    }
}

/// One unit of a token in text form; an absent field is left unchecked.
#[derive(Clone, Debug)]
pub struct InstanceRaw {
    pub nonce: Option<String>,
    pub balance: Option<String>,
    pub creator: Option<String>,
    pub royalties: Option<String>,
    pub hash: Option<String>,
    pub uri: Option<String>,
    pub attributes: Option<String>,
}

/// A token entry in text form.
#[derive(Clone, Debug)]
pub struct EsdtFullRaw {
    pub token_identifier: Option<String>,
    pub instances: Vec<InstanceRaw>,
    pub last_nonce: Option<String>,
    pub roles: Vec<String>,
}

/// An account in text form; token entries and storage are keyed by the text
/// form of their identifier and key.
#[derive(Clone, Debug)]
pub struct AccountRaw {
    pub nonce: Option<String>,
    pub balance: Option<String>,
    pub esdt: Vec<(String, EsdtFullRaw)>,
    pub storage: Vec<(String, String)>,
    pub code: Option<String>,
    pub owner: Option<String>,
}

#[derive(Clone, Debug)]
pub struct BlockInfoRaw {
    pub block_timestamp: Option<String>,
    pub block_nonce: Option<String>,
    pub block_round: Option<String>,
    pub block_epoch: Option<String>,
    pub block_random_seed: Option<String>,
}

#[derive(Clone, Debug)]
pub struct TxEsdtRaw {
    pub token_identifier: Option<String>,
    pub nonce: Option<String>,
    pub value: String,
}

/// A call in text form. `value` is the older name of `egld_value`, read
/// where `egld_value` is absent and never written.
#[derive(Clone, Debug)]
pub struct TxCallRaw {
    pub from: String,
    pub to: String,
    pub value: Option<String>,
    pub egld_value: Option<String>,
    pub esdt_value: Vec<TxEsdtRaw>,
    pub function: String,
    pub arguments: Vec<String>,
    pub gas_limit: String,
    pub gas_price: String,
}

#[derive(Clone, Debug)]
pub struct TxQueryRaw {
    pub to: String,
    pub function: String,
    pub arguments: Vec<String>,
}

/// What a call is expected to give; logs, gas and refund are never pinned.
#[derive(Clone, Debug)]
pub struct TxExpectRaw {
    pub out: Vec<CheckValueRaw>,
    pub status: CheckValueRaw,
    pub message: CheckValueRaw,
    pub logs: CheckValueRaw,
    pub gas: CheckValueRaw,
    pub refund: CheckValueRaw,
}

pub open spec fn opt_bytes_text(o: Option<Vec<u8>>) -> Option<Seq<char>> {
    match o {
        Some(b) => Some(bytes_text(b@)),
        None => None,
    }
}

/// `r` is the text form of the unit `inst`.
pub open spec fn instance_raw_of(r: InstanceRaw, inst: EsdtInstance) -> bool {
    &&& opt_view(r.nonce) == Some(decimal_of(inst.nonce as nat))
    &&& opt_view(r.balance) == Some(decimal_of(inst.balance as nat))
    &&& opt_view(r.creator) == opt_bytes_text(inst.metadata.creator)
    &&& opt_view(r.royalties) == Some(decimal_of(inst.metadata.royalties as nat))
    &&& opt_view(r.hash) == opt_bytes_text(inst.metadata.hash)
    &&& opt_view(r.uri) == opt_bytes_text(inst.metadata.uri)
    &&& opt_view(r.attributes) == Some(bytes_text(inst.metadata.attributes@))
}

/// `r` is the text form of the token entry `e`: the last nonce is left out
/// while it is zero.
pub open spec fn esdt_raw_of(r: EsdtFullRaw, e: EsdtData) -> bool {
    &&& opt_view(r.token_identifier) == Some(bytes_text(e.token_identifier@))
    &&& opt_view(r.last_nonce) == if e.last_nonce == 0 {
        None::<Seq<char>>
    } else {
        Some(decimal_of(e.last_nonce as nat))
    }
    &&& texts(r.roles@) == e@.roles
    &&& r.instances@.len() == e.instances@.len()
    &&& forall|i: int|
        0 <= i < r.instances@.len() ==> instance_raw_of(#[trigger] r.instances@[i], e.instances@[i])
}

/// `r` is the text form of the account `a`.
pub open spec fn account_raw_of(r: AccountRaw, a: AccountData) -> bool {
    &&& opt_view(r.balance) == Some(decimal_of(a.egld_balance as nat))
    &&& opt_view(r.nonce) == Some(decimal_of(a.nonce as nat))
    &&& opt_view(r.code) == opt_view(a.contract_path)
    &&& opt_view(r.owner) == opt_bytes_text(a.contract_owner)
    &&& r.storage@.len() == a.storage@.len()
    &&& forall|i: int|
        0 <= i < r.storage@.len() ==> (#[trigger] r.storage@[i]).0@ == bytes_text(a.storage@[i].0@)
            && r.storage@[i].1@ == bytes_text(a.storage@[i].1@)
    &&& r.esdt@.len() == a.esdt@.len()
    &&& forall|i: int|
        0 <= i < r.esdt@.len() ==> (#[trigger] r.esdt@[i]).0@ == bytes_text(
            a.esdt@[i].token_identifier@,
        ) && esdt_raw_of(r.esdt@[i].1, a.esdt@[i])
}

fn opt_bytes_as_raw(o: &Option<Vec<u8>>) -> (r: Option<String>)
    ensures
        opt_view(r) == opt_bytes_text(*o),
{
    match o {
        Some(b) => Some(bytes_as_raw(b.as_slice())),
        None => None,
    }
}

/// The text form of one unit of a token.
pub fn instance_as_raw(inst: &EsdtInstance) -> (r: InstanceRaw)
    ensures
        instance_raw_of(r, *inst),
{
    InstanceRaw {
        attributes: Some(bytes_as_raw(inst.metadata.attributes.as_slice())),
        balance: Some(biguint_as_raw(inst.balance)),
        creator: opt_bytes_as_raw(&inst.metadata.creator),
        hash: opt_bytes_as_raw(&inst.metadata.hash),
        nonce: Some(u64_as_raw(inst.nonce)),
        royalties: Some(u64_as_raw(inst.metadata.royalties)),
        uri: opt_bytes_as_raw(&inst.metadata.uri),
    }
}

/// The full text form of a token entry; the roles come out in the order in
/// which the entry keeps them, which is sorted.
pub fn esdt_data_as_raw(esdt: &EsdtData) -> (r: EsdtFullRaw)
    ensures
        esdt_raw_of(r, *esdt),
{
    let last_nonce_raw = if esdt.last_nonce == 0 {
        None
    } else {
        Some(u64_as_raw(esdt.last_nonce))
    };
    let roles_raw = esdt.get_roles();
    let mut instances_raw: Vec<InstanceRaw> = Vec::new();
    let mut i: usize = 0;
    while i < esdt.instances.len()
        invariant
            i <= esdt.instances.len(),
            instances_raw@.len() == i,
            forall|k: int|
                0 <= k < i ==> instance_raw_of(#[trigger] instances_raw@[k], esdt.instances@[k]),
        decreases esdt.instances.len() - i,
    {
        let inst_raw = instance_as_raw(&esdt.instances[i]);
        instances_raw.push(inst_raw);
        i = i + 1;
    }
    EsdtFullRaw {
        token_identifier: Some(bytes_as_raw(esdt.token_identifier.as_slice())),
        instances: instances_raw,
        last_nonce: last_nonce_raw,
        roles: roles_raw,
    }
}

/// The text form of an account.
pub fn account_as_raw(acc: &AccountData) -> (r: AccountRaw)
    ensures
        account_raw_of(r, *acc),
{
    let code_raw = match &acc.contract_path {
        Some(c) => Some(c.clone()),
        None => None,
    };
    let mut all_esdt_raw: Vec<(String, EsdtFullRaw)> = Vec::new();
    let mut i: usize = 0;
    while i < acc.esdt.len()
        invariant
            i <= acc.esdt.len(),
            all_esdt_raw@.len() == i,
            forall|k: int|
                0 <= k < i ==> (#[trigger] all_esdt_raw@[k]).0@ == bytes_text(
                    acc.esdt@[k].token_identifier@,
                ) && esdt_raw_of(all_esdt_raw@[k].1, acc.esdt@[k]),
        decreases acc.esdt.len() - i,
    {
        let token_id_raw = bytes_as_raw(acc.esdt[i].token_identifier.as_slice());
        let esdt_raw = esdt_data_as_raw(&acc.esdt[i]);
        all_esdt_raw.push((token_id_raw, esdt_raw));
        i = i + 1;
    }
    let mut storage_raw: Vec<(String, String)> = Vec::new();
    let mut j: usize = 0;
    while j < acc.storage.len()
        invariant
            j <= acc.storage.len(),
            storage_raw@.len() == j,
            forall|k: int|
                0 <= k < j ==> (#[trigger] storage_raw@[k]).0@ == bytes_text(acc.storage@[k].0@)
                    && storage_raw@[k].1@ == bytes_text(acc.storage@[k].1@),
        decreases acc.storage.len() - j,
    {
        let key_raw = bytes_as_raw(acc.storage[j].0.as_slice());
        let value_raw = bytes_as_raw(acc.storage[j].1.as_slice());
        storage_raw.push((key_raw, value_raw));
        j = j + 1;
    }
    AccountRaw {
        balance: Some(biguint_as_raw(acc.egld_balance)),
        code: code_raw,
        esdt: all_esdt_raw,
        nonce: Some(u64_as_raw(acc.nonce)),
        owner: opt_bytes_as_raw(&acc.contract_owner),
        storage: storage_raw,
    }
}

/// The text form of the block fields.
pub fn block_info_as_raw(block_info: &BlockInfo) -> (r: BlockInfoRaw)
    ensures
        opt_view(r.block_epoch) == Some(decimal_of(block_info.block_epoch as nat)),
        opt_view(r.block_nonce) == Some(decimal_of(block_info.block_nonce as nat)),
        opt_view(r.block_round) == Some(decimal_of(block_info.block_round as nat)),
        opt_view(r.block_timestamp) == Some(decimal_of(block_info.block_timestamp as nat)),
        opt_view(r.block_random_seed) == Some(bytes_text(block_info.block_random_seed@)),
{
    BlockInfoRaw {
        block_epoch: Some(u64_as_raw(block_info.block_epoch)),
        block_nonce: Some(u64_as_raw(block_info.block_nonce)),
        block_round: Some(u64_as_raw(block_info.block_round)),
        block_timestamp: Some(u64_as_raw(block_info.block_timestamp)),
        block_random_seed: Some(bytes_as_raw(block_info.block_random_seed.as_slice())),
    }
}

fn arguments_as_raw(arguments: &Vec<Vec<u8>>) -> (r: Vec<String>)
    ensures
        r@.len() == arguments@.len(),
        forall|k: int| 0 <= k < r@.len() ==> (#[trigger] r@[k])@ == bytes_text(arguments@[k]@),
{
    let mut r: Vec<String> = Vec::new();
    let mut i: usize = 0;
    while i < arguments.len()
        invariant
            i <= arguments.len(),
            r@.len() == i,
            forall|k: int| 0 <= k < i ==> (#[trigger] r@[k])@ == bytes_text(arguments@[k]@),
        decreases arguments.len() - i,
    {
        r.push(bytes_as_raw(arguments[i].as_slice()));
        i = i + 1;
    }
    r
}

/// The text form of a call; the value goes under its current name only.
pub fn tx_call_as_raw(tx_call: &ScCallMandos) -> (r: TxCallRaw)
    ensures
        r.from@ == bytes_text(tx_call.from@),
        r.to@ == bytes_text(tx_call.to@),
        r.value is None,
        opt_view(r.egld_value) == Some(decimal_of(tx_call.egld_value as nat)),
        r.esdt_value@.len() == tx_call.esdt@.len(),
        forall|k: int|
            0 <= k < r.esdt_value@.len() ==> {
                let e = #[trigger] r.esdt_value@[k];
                let t = tx_call.esdt@[k];
                &&& opt_view(e.token_identifier) == Some(bytes_text(t.token_identifier@))
                &&& opt_view(e.nonce) == Some(decimal_of(t.nonce as nat))
                &&& e.value@ == decimal_of(t.value as nat)
            },
        r.function@ == tx_call.function@,
        r.arguments@.len() == tx_call.arguments@.len(),
        forall|k: int|
            0 <= k < r.arguments@.len() ==> (#[trigger] r.arguments@[k])@ == bytes_text(
                tx_call.arguments@[k]@,
            ),
        r.gas_limit@ == decimal_of(tx_call.gas_limit as nat),
        r.gas_price@ == decimal_of(tx_call.gas_price as nat),
{
    let mut all_esdt_raw: Vec<TxEsdtRaw> = Vec::new();
    let mut i: usize = 0;
    while i < tx_call.esdt.len()
        invariant
            i <= tx_call.esdt.len(),
            all_esdt_raw@.len() == i,
            forall|k: int|
                0 <= k < i ==> {
                    let e = #[trigger] all_esdt_raw@[k];
                    let t = tx_call.esdt@[k];
                    &&& opt_view(e.token_identifier) == Some(bytes_text(t.token_identifier@))
                    &&& opt_view(e.nonce) == Some(decimal_of(t.nonce as nat))
                    &&& e.value@ == decimal_of(t.value as nat)
                },
        decreases tx_call.esdt.len() - i,
    {
        let t = &tx_call.esdt[i];
        let esdt_raw = TxEsdtRaw {
            token_identifier: Some(bytes_as_raw(t.token_identifier.as_slice())),
            nonce: Some(u64_as_raw(t.nonce)),
            value: biguint_as_raw(t.value),
        };
        all_esdt_raw.push(esdt_raw);
        i = i + 1;
    }
    TxCallRaw {
        from: address_as_raw(&tx_call.from),
        to: address_as_raw(&tx_call.to),
        value: None,
        egld_value: Some(biguint_as_raw(tx_call.egld_value)),
        esdt_value: all_esdt_raw,
        function: tx_call.function.clone(),
        arguments: arguments_as_raw(&tx_call.arguments),
        gas_limit: u64_as_raw(tx_call.gas_limit),
        gas_price: u64_as_raw(tx_call.gas_price),
    }
}

/// The text form of a query.
pub fn tx_query_as_raw(tx_query: &ScQueryMandos) -> (r: TxQueryRaw)
    ensures
        r.to@ == bytes_text(tx_query.to@),
        r.function@ == tx_query.function@,
        r.arguments@.len() == tx_query.arguments@.len(),
        forall|k: int|
            0 <= k < r.arguments@.len() ==> (#[trigger] r.arguments@[k])@ == bytes_text(
                tx_query.arguments@[k]@,
            ),
{
    TxQueryRaw {
        to: address_as_raw(&tx_query.to),
        function: tx_query.function.clone(),
        arguments: arguments_as_raw(&tx_query.arguments),
    }
}

/// Whether a byte string is the lone wildcard byte `*`.
pub open spec fn is_star_bytes(b: Seq<u8>) -> bool {
    b.len() == 1 && b[0] == 42
}

/// The text form of an expectation: a lone `*` (as a return value or as the
/// whole message) becomes the wildcard, a message otherwise gets the `str:`
/// prefix, and logs, gas and refund are wildcards.
pub fn tx_expect_as_raw(tx_expect: &TxExpectMandos) -> (r: TxExpectRaw)
    ensures
        r.out@.len() == tx_expect.out@.len(),
        forall|k: int|
            0 <= k < r.out@.len() ==> check_view(#[trigger] r.out@[k]) == if is_star_bytes(
                tx_expect.out@[k]@,
            ) {
                None
            } else {
                Some(bytes_text(tx_expect.out@[k]@))
            },
        check_view(r.status) == Some(decimal_of(tx_expect.status as nat)),
        check_view(r.message) == if tx_expect.message@ == STAR_STR@ {
            None
        } else {
            Some(STR_PREFIX@ + tx_expect.message@)
        },
        check_view(r.logs) is None,
        check_view(r.gas) is None,
        check_view(r.refund) is None,
{
    let mut out_values_raw: Vec<CheckValueRaw> = Vec::new();
    let mut i: usize = 0;
    while i < tx_expect.out.len()
        invariant
            i <= tx_expect.out.len(),
            out_values_raw@.len() == i,
            forall|k: int|
                0 <= k < i ==> check_view(#[trigger] out_values_raw@[k]) == if is_star_bytes(
                    tx_expect.out@[k]@,
                ) {
                    None
                } else {
                    Some(bytes_text(tx_expect.out@[k]@))
                },
        decreases tx_expect.out.len() - i,
    {
        let out_val = &tx_expect.out[i];
        let out_raw = if out_val.len() == 1 && out_val[0] == 42u8 {
            CheckValueRaw::Star
        } else {
            CheckValueRaw::Equal(bytes_as_raw(out_val.as_slice()))
        };
        out_values_raw.push(out_raw);
        i = i + 1;
    }
    let star = String::from_str(STAR_STR);
    let msg_raw = if tx_expect.message == star {
        CheckValueRaw::Star
    } else {
        let prefix = String::from_str(STR_PREFIX);
        CheckValueRaw::Equal(prefix.concat(tx_expect.message.as_str()))
    };
    TxExpectRaw {
        out: out_values_raw,
        status: CheckValueRaw::Equal(u64_as_raw(tx_expect.status)),
        message: msg_raw,
        logs: CheckValueRaw::Star,
        gas: CheckValueRaw::Star,
        refund: CheckValueRaw::Star,
    }
}

} // verus!
