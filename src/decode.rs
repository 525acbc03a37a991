//! Reading ledger values back from their scenario text form.
use vstd::prelude::*;

use crate::ledger::{AccountData, EsdtData, EsdtInstance, EsdtInstanceMetadata};
use crate::raw::{
    account_raw_of, biguint_from_raw, bytes_from_raw, bytes_text, esdt_raw_of, instance_raw_of,
    is_bytes_text, lemma_bytes_round_trip, lemma_decimal_round_trip, opt_bytes_text, opt_view,
    texts, u64_from_raw, AccountRaw, EsdtFullRaw, InstanceRaw,
};
use crate::text::{decimal_of, decimal_value, hex_spells, hex_value, is_decimal_char};

verus! {

/// Why a text form could not be read.
#[derive(Clone, Debug, PartialEq, Eq)]
pub enum DecodeError {
    /// A field holds text that is not the form its value takes.
    Malformed,
}

pub open spec fn is_digits(s: Seq<char>) -> bool {
    s.len() > 0 && forall|i: int| 0 <= i < s.len() ==> is_decimal_char(#[trigger] s[i])
}

/// The `u64` that `s` spells in base 10, if it spells one.
pub open spec fn u64_of_text(s: Seq<char>) -> Option<u64> {
    if is_digits(s) && decimal_value(s) <= u64::MAX {
        Some(decimal_value(s) as u64)
    } else {
        None
    }
}

/// The amount that `s` spells in base 10, if it spells one.
pub open spec fn amount_of_text(s: Seq<char>) -> Option<u128> {
    if is_digits(s) && decimal_value(s) <= u128::MAX {
        Some(decimal_value(s) as u128)
    } else {
        None
    }
}

/// The byte string that `s` spells as `0x` and hex digits, if it spells one.
pub open spec fn bytes_of_text(s: Seq<char>) -> Option<Seq<u8>> {
    if is_bytes_text(s) {
        Some(choose|b: Seq<u8>| hex_spells(s.subrange(2, s.len() as int), b))
    } else {
        None
    }
}

/// An integer field: zero where absent.
pub open spec fn u64_field(o: Option<Seq<char>>) -> Option<u64> {
    match o {
        None => Some(0),
        Some(s) => u64_of_text(s),
    }
}

/// An amount field: zero where absent.
pub open spec fn amount_field(o: Option<Seq<char>>) -> Option<u128> {
    match o {
        None => Some(0),
        Some(s) => amount_of_text(s),
    }
}

/// A byte string field: empty where absent.
pub open spec fn bytes_field(o: Option<Seq<char>>) -> Option<Seq<u8>> {
    match o {
        None => Some(Seq::empty()),
        Some(s) => bytes_of_text(s),
    }
}

/// An optional byte string field: absent where absent.
pub open spec fn opt_bytes_field(o: Option<Seq<char>>) -> Option<Option<Seq<u8>>> {
    match o {
        None => Some(None),
        Some(s) => match bytes_of_text(s) {
            Some(b) => Some(Some(b)),
            None => None,
        },
    }
}

pub open spec fn opt_bytes_view(o: Option<Vec<u8>>) -> Option<Seq<u8>> {
    match o {
        Some(b) => Some(b@),
        None => None,
    }
}

pub proof fn lemma_hex_spells_unique(s: Seq<char>, b1: Seq<u8>, b2: Seq<u8>)
    requires
        hex_spells(s, b1),
        hex_spells(s, b2),
    ensures
        b1 == b2,
{
    assert forall|i: int| 0 <= i < b1.len() implies b1[i] == b2[i] by {
        assert(b1[i] == hex_value(s[2 * i]) * 16 + hex_value(s[2 * i + 1]));
        assert(b2[i] == hex_value(s[2 * i]) * 16 + hex_value(s[2 * i + 1]));
    }
    assert(b1 =~= b2);
}

fn u64_field_from(o: &Option<String>) -> (r: Option<u64>)
    ensures
        r == u64_field(opt_view(*o)),
{
    match o {
        None => Some(0),
        Some(s) => u64_from_raw(s.as_str()),
    }
}

fn amount_field_from(o: &Option<String>) -> (r: Option<u128>)
    ensures
        r == amount_field(opt_view(*o)),
{
    match o {
        None => Some(0),
        Some(s) => biguint_from_raw(s.as_str()),
    }
}

/// Reads a byte string from its text form, with the contract over
/// [`bytes_of_text`].
pub fn bytes_of_raw(s: &String) -> (r: Option<Vec<u8>>)
    ensures
        opt_bytes_view(r) == bytes_of_text(s@),
{
    let r = bytes_from_raw(s.as_str());
    proof {
        if r is Some {
            let b = r->Some_0@;
            let t = s@.subrange(2, s@.len() as int);
            let c = choose|c: Seq<u8>| hex_spells(t, c);
            lemma_hex_spells_unique(t, b, c);
        }
    }
    r
}

fn bytes_field_from(o: &Option<String>) -> (r: Option<Vec<u8>>)
    ensures
        opt_bytes_view(r) == bytes_field(opt_view(*o)),
{
    match o {
        None => Some(Vec::new()),
        Some(s) => bytes_of_raw(s),
    }
}

fn opt_bytes_field_from(o: &Option<String>) -> (r: Option<Option<Vec<u8>>>)
    ensures
        r is Some <==> opt_bytes_field(opt_view(*o)) is Some,
        r is Some ==> opt_bytes_view(r->Some_0) == opt_bytes_field(opt_view(*o))->Some_0,
{
    match o {
        None => Some(None),
        Some(s) => match bytes_of_raw(s) {
            Some(b) => Some(Some(b)),
            None => None,
        },
    }
}

pub open spec fn instance_raw_valid(r: InstanceRaw) -> bool {
    &&& u64_field(opt_view(r.nonce)) is Some
    &&& amount_field(opt_view(r.balance)) is Some
    &&& opt_bytes_field(opt_view(r.creator)) is Some
    &&& u64_field(opt_view(r.royalties)) is Some
    &&& opt_bytes_field(opt_view(r.hash)) is Some
    &&& opt_bytes_field(opt_view(r.uri)) is Some
    &&& bytes_field(opt_view(r.attributes)) is Some
}

/// `d` is what `r` reads as; the name, which has no text form, is empty.
pub open spec fn instance_decoded(r: InstanceRaw, d: EsdtInstance) -> bool {
    &&& Some(d.nonce) == u64_field(opt_view(r.nonce))
    &&& Some(d.balance) == amount_field(opt_view(r.balance))
    &&& Some(opt_bytes_view(d.metadata.creator)) == opt_bytes_field(opt_view(r.creator))
    &&& Some(d.metadata.royalties) == u64_field(opt_view(r.royalties))
    &&& Some(opt_bytes_view(d.metadata.hash)) == opt_bytes_field(opt_view(r.hash))
    &&& Some(opt_bytes_view(d.metadata.uri)) == opt_bytes_field(opt_view(r.uri))
    &&& Some(d.metadata.attributes@) == bytes_field(opt_view(r.attributes))
    &&& d.metadata.name@ == Seq::<u8>::empty()
}

/// Reads one unit of a token; an absent field reads as zero, empty or absent.
pub fn instance_from_raw(r: &InstanceRaw) -> (res: Result<EsdtInstance, DecodeError>)
    ensures
        res is Ok <==> instance_raw_valid(*r),
        res is Ok ==> instance_decoded(*r, res->Ok_0),
{
    let nonce = match u64_field_from(&r.nonce) {
        Some(v) => v,
        None => return Err(DecodeError::Malformed),
    };
    let balance = match amount_field_from(&r.balance) {
        Some(v) => v,
        None => return Err(DecodeError::Malformed),
    };
    let creator = match opt_bytes_field_from(&r.creator) {
        Some(v) => v,
        None => return Err(DecodeError::Malformed),
    };
    let royalties = match u64_field_from(&r.royalties) {
        Some(v) => v,
        None => return Err(DecodeError::Malformed),
    };
    let hash = match opt_bytes_field_from(&r.hash) {
        Some(v) => v,
        None => return Err(DecodeError::Malformed),
    };
    let uri = match opt_bytes_field_from(&r.uri) {
        Some(v) => v,
        None => return Err(DecodeError::Malformed),
    };
    let attributes = match bytes_field_from(&r.attributes) {
        Some(v) => v,
        None => return Err(DecodeError::Malformed),
    };
    let name: Vec<u8> = Vec::new();
    Ok(
        EsdtInstance {
            nonce,
            balance,
            metadata: EsdtInstanceMetadata { name, creator, royalties, hash, uri, attributes },
        },
    )
}

pub open spec fn esdt_raw_valid(key: Seq<char>, r: EsdtFullRaw) -> bool {
    &&& bytes_of_text(key) is Some
    &&& u64_field(opt_view(r.last_nonce)) is Some
    &&& forall|i: int| 0 <= i < r.instances@.len() ==> instance_raw_valid(#[trigger] r.instances@[i])
}

/// `d` is what the entry `r`, filed under `key`, reads as.
pub open spec fn esdt_decoded(key: Seq<char>, r: EsdtFullRaw, d: EsdtData) -> bool {
    &&& Some(d.token_identifier@) == bytes_of_text(key)
    &&& Some(d.last_nonce) == u64_field(opt_view(r.last_nonce))
    &&& texts(d.roles@) == texts(r.roles@)
    &&& d.instances@.len() == r.instances@.len()
    &&& forall|i: int|
        0 <= i < d.instances@.len() ==> instance_decoded(r.instances@[i], #[trigger] d.instances@[i])
}

fn copy_texts(v: &Vec<String>) -> (r: Vec<String>)
    ensures
        texts(r@) == texts(v@),
{
    let mut r: Vec<String> = Vec::new();
    let mut i: usize = 0;
    while i < v.len()
        invariant
            i <= v.len(),
            r@.len() == i,
            forall|k: int| 0 <= k < i ==> (#[trigger] r@[k])@ == v@[k]@,
        decreases v.len() - i,
    {
        r.push(v[i].clone());
        i = i + 1;
    }
    assert(texts(r@) =~= texts(v@));
    r
}

/// Reads a token entry filed under the text form `key` of its identifier.
pub fn esdt_from_raw(key: &String, r: &EsdtFullRaw) -> (res: Result<EsdtData, DecodeError>)
    ensures
        res is Ok <==> esdt_raw_valid(key@, *r),
        res is Ok ==> esdt_decoded(key@, *r, res->Ok_0),
{
    let token_identifier = match bytes_of_raw(key) {
        Some(v) => v,
        None => return Err(DecodeError::Malformed),
    };
    let last_nonce = match u64_field_from(&r.last_nonce) {
        Some(v) => v,
        None => return Err(DecodeError::Malformed),
    };
    let mut instances: Vec<EsdtInstance> = Vec::new();
    let mut i: usize = 0;
    while i < r.instances.len()
        invariant
            i <= r.instances.len(),
            instances@.len() == i,
            forall|k: int| 0 <= k < i ==> instance_raw_valid(#[trigger] r.instances@[k]),
            forall|k: int|
                0 <= k < i ==> instance_decoded(r.instances@[k], #[trigger] instances@[k]),
        decreases r.instances.len() - i,
    {
        match instance_from_raw(&r.instances[i]) {
            Ok(inst) => instances.push(inst),
            Err(e) => return Err(e),
        }
        i = i + 1;
    }
    Ok(EsdtData { token_identifier, last_nonce, roles: copy_texts(&r.roles), instances })
}

pub open spec fn account_raw_valid(r: AccountRaw) -> bool {
    &&& amount_field(opt_view(r.balance)) is Some
    &&& u64_field(opt_view(r.nonce)) is Some
    &&& opt_bytes_field(opt_view(r.owner)) is Some
    &&& forall|i: int|
        0 <= i < r.storage@.len() ==> bytes_of_text((#[trigger] r.storage@[i]).0@) is Some
            && bytes_of_text(r.storage@[i].1@) is Some
    &&& forall|i: int|
        0 <= i < r.esdt@.len() ==> esdt_raw_valid((#[trigger] r.esdt@[i]).0@, r.esdt@[i].1)
}

/// `d` is what `r` reads as, at `address`.
pub open spec fn account_decoded(address: Seq<u8>, r: AccountRaw, d: AccountData) -> bool {
    &&& d.address@ == address
    &&& Some(d.egld_balance) == amount_field(opt_view(r.balance))
    &&& Some(d.nonce) == u64_field(opt_view(r.nonce))
    &&& opt_view(d.contract_path) == opt_view(r.code)
    &&& Some(opt_bytes_view(d.contract_owner)) == opt_bytes_field(opt_view(r.owner))
    &&& d.storage@.len() == r.storage@.len()
    &&& forall|i: int|
        0 <= i < d.storage@.len() ==> Some((#[trigger] d.storage@[i]).0@) == bytes_of_text(
            r.storage@[i].0@,
        ) && Some(d.storage@[i].1@) == bytes_of_text(r.storage@[i].1@)
    &&& d.esdt@.len() == r.esdt@.len()
    &&& forall|i: int|
        0 <= i < d.esdt@.len() ==> esdt_decoded(r.esdt@[i].0@, r.esdt@[i].1, #[trigger] d.esdt@[i])
}

/// Reads the account at `address` from its text form.
pub fn account_from_raw(address: &Vec<u8>, r: &AccountRaw) -> (res: Result<AccountData, DecodeError>)
    ensures
        res is Ok <==> account_raw_valid(*r),
        res is Ok ==> account_decoded(address@, *r, res->Ok_0),
{
    let egld_balance = match amount_field_from(&r.balance) {
        Some(v) => v,
        None => return Err(DecodeError::Malformed),
    };
    let nonce = match u64_field_from(&r.nonce) {
        Some(v) => v,
        None => return Err(DecodeError::Malformed),
    };
    let contract_owner = match opt_bytes_field_from(&r.owner) {
        Some(v) => v,
        None => return Err(DecodeError::Malformed),
    };
    let contract_path = match &r.code {
        Some(c) => Some(c.clone()),
        None => None,
    };
    let mut storage: Vec<(Vec<u8>, Vec<u8>)> = Vec::new();
    let mut i: usize = 0;
    while i < r.storage.len()
        invariant
            i <= r.storage.len(),
            storage@.len() == i,
            forall|k: int|
                0 <= k < i ==> bytes_of_text((#[trigger] r.storage@[k]).0@) is Some
                    && bytes_of_text(r.storage@[k].1@) is Some,
            forall|k: int|
                0 <= k < i ==> Some((#[trigger] storage@[k]).0@) == bytes_of_text(r.storage@[k].0@)
                    && Some(storage@[k].1@) == bytes_of_text(r.storage@[k].1@),
        decreases r.storage.len() - i,
    {
        let key = match bytes_of_raw(&r.storage[i].0) {
            Some(v) => v,
            None => return Err(DecodeError::Malformed),
        };
        let value = match bytes_of_raw(&r.storage[i].1) {
            Some(v) => v,
            None => return Err(DecodeError::Malformed),
        };
        storage.push((key, value));
        i = i + 1;
    }
    let mut esdt: Vec<EsdtData> = Vec::new();
    let mut j: usize = 0;
    while j < r.esdt.len()
        invariant
            j <= r.esdt.len(),
            esdt@.len() == j,
            forall|k: int| 0 <= k < j ==> esdt_raw_valid((#[trigger] r.esdt@[k]).0@, r.esdt@[k].1),
            forall|k: int|
                0 <= k < j ==> esdt_decoded(r.esdt@[k].0@, r.esdt@[k].1, #[trigger] esdt@[k]),
        decreases r.esdt.len() - j,
    {
        match esdt_from_raw(&r.esdt[j].0, &r.esdt[j].1) {
            Ok(e) => esdt.push(e),
            Err(e) => return Err(e),
        }
        j = j + 1;
    }
    Ok(
        AccountData {
            address: address.clone(),
            nonce,
            egld_balance,
            storage,
            esdt,
            username: Vec::new(),
            contract_path,
            contract_owner,
        },
    )
}

proof fn lemma_u64_text(v: u64)
    ensures
        u64_of_text(decimal_of(v as nat)) == Some(v),
        amount_of_text(decimal_of(v as nat)) == Some(v as u128),
{
    lemma_decimal_round_trip(v as nat);
}

proof fn lemma_amount_text(v: u128)
    ensures
        amount_of_text(decimal_of(v as nat)) == Some(v),
{
    lemma_decimal_round_trip(v as nat);
}

proof fn lemma_bytes_text(b: Seq<u8>)
    ensures
        bytes_of_text(bytes_text(b)) == Some(b),
{
    lemma_bytes_round_trip(b);
    let s = bytes_text(b);
    let t = s.subrange(2, s.len() as int);
    let c = choose|c: Seq<u8>| hex_spells(t, c);
}

proof fn lemma_opt_bytes_text(o: Option<Vec<u8>>)
    ensures
        opt_bytes_field(opt_bytes_text(o)) == Some(opt_bytes_view(o)),
{
    if let Some(b) = o {
        lemma_bytes_text(b@);
    }
}

/// A unit of a token reads back from its text form with every field that the
/// text form holds.
pub proof fn lemma_instance_round_trip(inst: EsdtInstance, r: InstanceRaw, d: EsdtInstance)
    requires
        instance_raw_of(r, inst),
    ensures
        instance_raw_valid(r),
        instance_decoded(r, d) ==> {
            &&& d.nonce == inst.nonce
            &&& d.balance == inst.balance
            &&& opt_bytes_view(d.metadata.creator) == opt_bytes_view(inst.metadata.creator)
            &&& d.metadata.royalties == inst.metadata.royalties
            &&& opt_bytes_view(d.metadata.hash) == opt_bytes_view(inst.metadata.hash)
            &&& opt_bytes_view(d.metadata.uri) == opt_bytes_view(inst.metadata.uri)
            &&& d.metadata.attributes@ == inst.metadata.attributes@
        },
{
    lemma_u64_text(inst.nonce);
    lemma_amount_text(inst.balance);
    lemma_u64_text(inst.metadata.royalties);
    lemma_opt_bytes_text(inst.metadata.creator);
    lemma_opt_bytes_text(inst.metadata.hash);
    lemma_opt_bytes_text(inst.metadata.uri);
    lemma_bytes_text(inst.metadata.attributes@);
}

/// A token entry reads back from its text form with its identifier, last
/// nonce, roles and units.
pub proof fn lemma_esdt_round_trip(e: EsdtData, key: Seq<char>, r: EsdtFullRaw, d: EsdtData)
    requires
        key == bytes_text(e.token_identifier@),
        esdt_raw_of(r, e),
    ensures
        esdt_raw_valid(key, r),
        esdt_decoded(key, r, d) ==> {
            &&& d.token_identifier@ == e.token_identifier@
            &&& d.last_nonce == e.last_nonce
            &&& texts(d.roles@) == texts(e.roles@)
            &&& d.instances@.len() == e.instances@.len()
            &&& forall|i: int|
                0 <= i < d.instances@.len() ==> (#[trigger] d.instances@[i]).nonce
                    == e.instances@[i].nonce && d.instances@[i].balance == e.instances@[i].balance
                    && d.instances@[i].metadata.attributes@ == e.instances@[i].metadata.attributes@
                    && d.instances@[i].metadata.royalties == e.instances@[i].metadata.royalties
                    && opt_bytes_view(d.instances@[i].metadata.creator) == opt_bytes_view(
                    e.instances@[i].metadata.creator,
                ) && opt_bytes_view(d.instances@[i].metadata.hash) == opt_bytes_view(
                    e.instances@[i].metadata.hash,
                ) && opt_bytes_view(d.instances@[i].metadata.uri) == opt_bytes_view(
                    e.instances@[i].metadata.uri,
                )
        },
{
    lemma_bytes_text(e.token_identifier@);
    if e.last_nonce != 0 {
        lemma_u64_text(e.last_nonce);
    }
    assert forall|i: int| 0 <= i < r.instances@.len() implies instance_raw_valid(
        #[trigger] r.instances@[i],
    ) by {
        lemma_instance_round_trip(e.instances@[i], r.instances@[i], e.instances@[i]);
    }
    if esdt_decoded(key, r, d) {
        assert forall|i: int| 0 <= i < d.instances@.len() implies (#[trigger] d.instances@[i]).nonce
            == e.instances@[i].nonce && d.instances@[i].balance == e.instances@[i].balance
            && d.instances@[i].metadata.attributes@ == e.instances@[i].metadata.attributes@
            && d.instances@[i].metadata.royalties == e.instances@[i].metadata.royalties
            && opt_bytes_view(d.instances@[i].metadata.creator) == opt_bytes_view(
            e.instances@[i].metadata.creator,
        ) && opt_bytes_view(d.instances@[i].metadata.hash) == opt_bytes_view(
            e.instances@[i].metadata.hash,
        ) && opt_bytes_view(d.instances@[i].metadata.uri) == opt_bytes_view(
            e.instances@[i].metadata.uri,
        ) by {
            lemma_instance_round_trip(e.instances@[i], r.instances@[i], d.instances@[i]);
        }
    }
}

/// An account reads back from its text form with its balance, nonce, code,
/// owner and storage; its token entries read back as
/// [`lemma_esdt_round_trip`] states.
pub proof fn lemma_account_round_trip(a: AccountData, r: AccountRaw, d: AccountData)
    requires
        account_raw_of(r, a),
    ensures
        account_raw_valid(r),
        account_decoded(a.address@, r, d) ==> {
            &&& d.address@ == a.address@
            &&& d.egld_balance == a.egld_balance
            &&& d.nonce == a.nonce
            &&& opt_view(d.contract_path) == opt_view(a.contract_path)
            &&& opt_bytes_view(d.contract_owner) == opt_bytes_view(a.contract_owner)
            &&& d.storage@.len() == a.storage@.len()
            &&& forall|i: int|
                0 <= i < d.storage@.len() ==> (#[trigger] d.storage@[i]).0@ == a.storage@[i].0@
                    && d.storage@[i].1@ == a.storage@[i].1@
            &&& d.esdt@.len() == a.esdt@.len()
            &&& forall|i: int|
                0 <= i < d.esdt@.len() ==> (#[trigger] d.esdt@[i]).token_identifier@
                    == a.esdt@[i].token_identifier@ && d.esdt@[i].last_nonce == a.esdt@[i].last_nonce
        },
{
    lemma_amount_text(a.egld_balance);
    lemma_u64_text(a.nonce);
    lemma_opt_bytes_text(a.contract_owner);
    assert forall|i: int| 0 <= i < r.storage@.len() implies bytes_of_text(
        (#[trigger] r.storage@[i]).0@,
    ) == Some(a.storage@[i].0@) && bytes_of_text(r.storage@[i].1@) == Some(a.storage@[i].1@) by {
        lemma_bytes_text(a.storage@[i].0@);
        lemma_bytes_text(a.storage@[i].1@);
    }
    assert forall|i: int| 0 <= i < r.esdt@.len() implies esdt_raw_valid(
        (#[trigger] r.esdt@[i]).0@,
        r.esdt@[i].1,
    ) by {
        lemma_esdt_round_trip(a.esdt@[i], r.esdt@[i].0@, r.esdt@[i].1, a.esdt@[i]);
    }
    if account_decoded(a.address@, r, d) {
        assert forall|i: int| 0 <= i < d.esdt@.len() implies (
        #[trigger] d.esdt@[i]).token_identifier@ == a.esdt@[i].token_identifier@
            && d.esdt@[i].last_nonce == a.esdt@[i].last_nonce by {
            lemma_esdt_round_trip(a.esdt@[i], r.esdt@[i].0@, r.esdt@[i].1, d.esdt@[i]);
        }
    }
}

} // verus!
