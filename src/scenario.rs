//! Scenario steps: calls, queries and what their results are expected to be.
use vstd::prelude::*;
use vstd::string::*;

use crate::ledger::{
    account_wf, bytes_eq, storage_map, transferred, AccountData, BlockchainMock, LedgerError,
};
use crate::raw::{is_star_bytes, STAR_STR};
use crate::tx_result::{bytes_views, failure_model, TxResult, STATUS_OK, STATUS_VM_ERROR};

verus! {

/// A token transfer that goes with a call.
#[derive(Clone, Debug)]
pub struct TxEsdtTransfer {
    pub token_identifier: Vec<u8>,
    pub nonce: u64,
    pub value: u128,
}

/// A call of a contract endpoint.
#[derive(Clone, Debug)]
pub struct ScCallMandos {
    pub from: Vec<u8>,
    pub to: Vec<u8>,
    pub egld_value: u128,
    pub esdt: Vec<TxEsdtTransfer>,
    pub function: String,
    pub arguments: Vec<Vec<u8>>,
    pub gas_limit: u64,
    pub gas_price: u64,
}

/// A read-only call of a contract endpoint.
#[derive(Clone, Debug)]
pub struct ScQueryMandos {
    pub to: Vec<u8>,
    pub function: String,
    pub arguments: Vec<Vec<u8>>,
}

/// What a call is expected to give. A return value that is the lone byte `*`,
/// or a message that is the lone character `*`, matches anything.
#[derive(Clone, Debug)]
pub struct TxExpectMandos {
    pub out: Vec<Vec<u8>>,
    pub status: u64,
    pub message: String,
}

/// An expected byte string matches an actual one: the lone byte `*` matches
/// anything, any other value only itself.
pub open spec fn value_matches(expected: Seq<u8>, actual: Seq<u8>) -> bool {
    is_star_bytes(expected) || expected == actual
}

/// An expected message matches an actual one: the lone `*` matches anything,
/// any other text only itself.
pub open spec fn message_matches(expected: Seq<char>, actual: Seq<char>) -> bool {
    expected == STAR_STR@ || expected == actual
}

/// Every return value, the status and the message match.
pub open spec fn expect_matches(
    out: Seq<Seq<u8>>,
    status: u64,
    message: Seq<char>,
    result: crate::tx_result::TxResultModel,
) -> bool {
    &&& out.len() == result.values.len()
    &&& forall|i: int| 0 <= i < out.len() ==> value_matches(#[trigger] out[i], result.values[i])
    &&& status == result.status
    &&& message_matches(message, result.message)
}

/// The wildcard byte string matches every byte string, the empty one too,
/// and the wildcard message matches every message.
pub proof fn lemma_star_matches_anything(actual: Seq<u8>, actual_message: Seq<char>)
    ensures
        value_matches(seq![42u8], actual),
        message_matches(STAR_STR@, actual_message),
{
    assert(is_star_bytes(seq![42u8]));
}

/// Where an expectation and a result part ways.
#[derive(Clone, Debug, PartialEq, Eq)]
pub enum TxCheckError {
    /// The numbers of return values differ.
    OutCount { want: usize, have: usize },
    /// The return value at this position differs.
    OutValue { index: usize },
    Status { want: u64, have: u64 },
    Message,
}

/// Whether the expected byte string matches the actual one.
pub fn check_value(expected: &Vec<u8>, actual: &Vec<u8>) -> (r: bool)
    ensures
        r == value_matches(expected@, actual@),
{
    (expected.len() == 1 && expected[0] == 42u8) || bytes_eq(expected.as_slice(), actual.as_slice())
}

/// Whether the expected message matches the actual one.
pub fn check_message(expected: &String, actual: &String) -> (r: bool)
    ensures
        r == message_matches(expected@, actual@),
{
    let star = String::from_str(STAR_STR);
    *expected == star || *expected == *actual
}

impl TxExpectMandos {
    /// `Ok` exactly when `result` meets this expectation; otherwise the first
    /// part that differs, in the order count, values, status, message.
    pub fn check(&self, result: &TxResult) -> (r: Result<(), TxCheckError>)
        ensures
            r is Ok <==> expect_matches(bytes_views(self.out@), self.status, self.message@, result@),
            r matches Err(TxCheckError::OutCount { want, have }) ==> want == self.out@.len()
                && have == result.result_values@.len() && want != have,
            r matches Err(TxCheckError::OutValue { index }) ==> index < self.out@.len() && !value_matches(
                self.out@[index as int]@,
                result.result_values@[index as int]@,
            ),
            r matches Err(TxCheckError::Status { want, have }) ==> want == self.status && have
                == result.result_status && want != have,
            r matches Err(TxCheckError::Message) ==> !message_matches(
                self.message@,
                result.result_message@,
            ),
    {
        if self.out.len() != result.result_values.len() {
            return Err(TxCheckError::OutCount { want: self.out.len(), have: result.result_values.len() });
        }
        let mut i: usize = 0;
        while i < self.out.len()
            invariant
                i <= self.out.len(),
                self.out@.len() == result.result_values@.len(),
                forall|k: int|
                    0 <= k < i ==> value_matches(
                        #[trigger] bytes_views(self.out@)[k],
                        bytes_views(result.result_values@)[k],
                    ),
            decreases self.out.len() - i,
        {
            if !check_value(&self.out[i], &result.result_values[i]) {
                assert(!value_matches(
                    bytes_views(self.out@)[i as int],
                    bytes_views(result.result_values@)[i as int],
                ));
                return Err(TxCheckError::OutValue { index: i });
            }
            i = i + 1;
        }
        if self.status != result.result_status {
            return Err(TxCheckError::Status { want: self.status, have: result.result_status });
        }
        if !check_message(&self.message, &result.result_message) {
            return Err(TxCheckError::Message);
        }
        Ok(())
    }
}

/// The message of a call that the ledger refused.
pub open spec fn ledger_error_message(e: LedgerError) -> Seq<char> {
    match e {
        LedgerError::UnknownAccount => "unknown account"@,
        LedgerError::InsufficientFunds => "insufficient funds"@,
        LedgerError::BalanceOverflow => "balance overflow"@,
        LedgerError::NonceOverflow => "nonce overflow"@,
        LedgerError::UnknownTokenNonce => "unknown token nonce"@,
    }
}

/// The text of [`ledger_error_message`].
pub fn ledger_error_text(e: &LedgerError) -> (r: String)
    ensures
        r@ == ledger_error_message(*e),
{
    match e {
        LedgerError::UnknownAccount => String::from_str("unknown account"),
        LedgerError::InsufficientFunds => String::from_str("insufficient funds"),
        LedgerError::BalanceOverflow => String::from_str("balance overflow"),
        LedgerError::NonceOverflow => String::from_str("nonce overflow"),
        LedgerError::UnknownTokenNonce => String::from_str("unknown token nonce"),
    }
}

/// Runs a call to an account without code: the native value moves from the
/// sender to the recipient. A refused move is a runtime error and leaves the
/// ledger as it was.
pub fn execute_transfer_call(state: &mut BlockchainMock, call: &ScCallMandos) -> (r: TxResult)
    requires
        old(state).wf(),
    ensures
        final(state).wf(),
        ({
            let m = old(state).view();
            let ok = m.contains_key(call.from@) && m.contains_key(call.to@)
                && m[call.from@].egld_balance >= call.egld_value && (call.from@ == call.to@
                || m[call.to@].egld_balance + call.egld_value <= u128::MAX);
            &&& ok ==> final(state).view() == transferred(m, call.from@, call.to@, call.egld_value)
                && r@ == failure_model(STATUS_OK, Seq::empty())
            &&& !ok ==> final(state).view() == m && r@ == failure_model(
                STATUS_VM_ERROR,
                if !m.contains_key(call.from@) || !m.contains_key(call.to@) {
                    ledger_error_message(LedgerError::UnknownAccount)
                } else if m[call.from@].egld_balance < call.egld_value {
                    ledger_error_message(LedgerError::InsufficientFunds)
                } else {
                    ledger_error_message(LedgerError::BalanceOverflow)
                },
            )
        }),
{
    match state.transfer_egld(call.from.as_slice(), call.to.as_slice(), call.egld_value) {
        Ok(()) => TxResult::empty(),
        Err(e) => {
            let msg = ledger_error_text(&e);
            TxResult::from_vm_error(msg)
        },
    }
}

/// What a check-state step expects of one account; an absent field is a
/// wildcard, and only the listed storage keys are looked at.
#[derive(Clone, Debug)]
pub struct CheckAccount {
    pub address: Vec<u8>,
    pub nonce: Option<u64>,
    pub balance: Option<u128>,
    pub storage: Vec<(Vec<u8>, Vec<u8>)>,
}

/// The first way in which the ledger differs from a check-state step.
#[derive(Clone, Debug, PartialEq, Eq)]
pub enum StateCheckError {
    MissingAccount { index: usize },
    Nonce { index: usize, want: u64, have: u64 },
    Balance { index: usize, want: u128, have: u128 },
    Storage { index: usize, key_index: usize },
}

/// The value that an account stores under `key`: empty where nothing is.
pub open spec fn stored(a: AccountData, key: Seq<u8>) -> Seq<u8> {
    if storage_map(a.storage@).contains_key(key) {
        storage_map(a.storage@)[key]
    } else {
        Seq::empty()
    }
}

/// The ledger `m` meets what `c` expects of one account.
pub open spec fn account_meets(m: Map<Seq<u8>, AccountData>, c: CheckAccount) -> bool {
    &&& m.contains_key(c.address@)
    &&& (c.nonce matches Some(n) ==> m[c.address@].nonce == n)
    &&& (c.balance matches Some(b) ==> m[c.address@].egld_balance == b)
    &&& forall|k: int|
        0 <= k < c.storage@.len() ==> stored(m[c.address@], (#[trigger] c.storage@[k]).0@)
            == c.storage@[k].1@
}

/// Compares the ledger with what a check-state step expects of each account,
/// in order; `Ok` exactly when every account meets it.
pub fn check_state(state: &BlockchainMock, expected: &Vec<CheckAccount>) -> (r: Result<
    (),
    StateCheckError,
>)
    requires
        state.wf(),
    ensures
        r is Ok <==> forall|i: int|
            0 <= i < expected@.len() ==> account_meets(state.view(), #[trigger] expected@[i]),
        r matches Err(StateCheckError::MissingAccount { index }) ==> index < expected@.len()
            && !state.view().contains_key(expected@[index as int].address@),
        r matches Err(StateCheckError::Nonce { index, want, have }) ==> index < expected@.len()
            && expected@[index as int].nonce == Some(want) && state.view()[expected@[index as int].address@].nonce
            == have && want != have,
        r matches Err(StateCheckError::Balance { index, want, have }) ==> index < expected@.len()
            && expected@[index as int].balance == Some(want)
            && state.view()[expected@[index as int].address@].egld_balance == have && want != have,
        r matches Err(StateCheckError::Storage { index, key_index }) ==> index < expected@.len()
            && key_index < expected@[index as int].storage@.len() && stored(
            state.view()[expected@[index as int].address@],
            expected@[index as int].storage@[key_index as int].0@,
        ) != expected@[index as int].storage@[key_index as int].1@,
{
    let mut i: usize = 0;
    while i < expected.len()
        invariant
            state.wf(),
            i <= expected@.len(),
            forall|j: int| 0 <= j < i ==> account_meets(state.view(), #[trigger] expected@[j]),
        decreases expected@.len() - i,
    {
        let c = &expected[i];
        let acc = match state.get_account(c.address.as_slice()) {
            Ok(a) => a,
            Err(_) => return Err(StateCheckError::MissingAccount { index: i }),
        };
        match c.nonce {
            Some(n) => {
                if acc.nonce != n {
                    return Err(StateCheckError::Nonce { index: i, want: n, have: acc.nonce });
                }
            },
            None => {},
        }
        match c.balance {
            Some(b) => {
                if acc.egld_balance != b {
                    return Err(StateCheckError::Balance { index: i, want: b, have: acc.egld_balance });
                }
            },
            None => {},
        }
        proof {
            assert(account_wf(*acc)) by {
                lemma_view_wf(*state, c.address@);
            }
        }
        let mut k: usize = 0;
        while k < c.storage.len()
            invariant
                account_wf(*acc),
                state.wf(),
                i < expected@.len(),
                *c == expected@[i as int],
                state.view().contains_key(c.address@),
                *acc == state.view()[c.address@],
                forall|j: int| 0 <= j < i ==> account_meets(state.view(), #[trigger] expected@[j]),
                (c.nonce matches Some(n) ==> acc.nonce == n),
                (c.balance matches Some(b) ==> acc.egld_balance == b),
                k <= c.storage@.len(),
                forall|q: int|
                    0 <= q < k ==> stored(*acc, (#[trigger] c.storage@[q]).0@) == c.storage@[q].1@,
            decreases c.storage@.len() - k,
        {
            let have = acc.get_storage(c.storage[k].0.as_slice());
            if !bytes_eq(have.as_slice(), c.storage[k].1.as_slice()) {
                assert(!account_meets(state.view(), expected@[i as int]));
                return Err(StateCheckError::Storage { index: i, key_index: k });
            }
            k = k + 1;
        }
        i = i + 1;
    }
    Ok(())
}

/// Every account that the ledger holds is well formed.
proof fn lemma_view_wf(state: BlockchainMock, address: Seq<u8>)
    requires
        state.wf(),
        state.view().contains_key(address),
    ensures
        account_wf(state.view()[address]),
{
    let j = choose|j: int|
        0 <= j < state.accounts@.len() && (#[trigger] state.accounts@[j]).address@ == address;
    assert(account_wf(state.accounts@[j]));
}

/// Loads the accounts of a set-state step into the ledger, in order; a later
/// account replaces an earlier one at the same address.
pub fn set_state(state: &mut BlockchainMock, accounts: Vec<AccountData>)
    requires
        old(state).wf(),
        forall|i: int| 0 <= i < accounts@.len() ==> account_wf(#[trigger] accounts@[i]),
    ensures
        final(state).wf(),
        final(state).view() == with_accounts(old(state).view(), accounts@),
        final(state).current_block_info == old(state).current_block_info,
{
    let ghost all = accounts@;
    let total: usize = accounts.len();
    let mut rest = accounts;
    let mut i: usize = 0;
    while rest.len() > 0
        invariant
            state.wf(),
            i + rest@.len() == all.len(),
            all.len() == total,
            rest@ == all.subrange(i as int, all.len() as int),
            forall|j: int| 0 <= j < all.len() ==> account_wf(#[trigger] all[j]),
            state.view() == with_accounts(old(state).view(), all.subrange(0, i as int)),
            state.current_block_info == old(state).current_block_info,
        decreases rest@.len(),
    {
        let acc = rest.remove(0);
        assert(acc == all[i as int]);
        state.add_account(acc);
        proof {
            let s = all.subrange(0, i as int + 1);
            assert(s.drop_last() =~= all.subrange(0, i as int));
            assert(s.last() == all[i as int]);
        }
        i = i + 1;
    }
    assert(all.subrange(0, all.len() as int) =~= all);
}

/// The accounts `m` after each of `accounts` is put in, in order.
pub open spec fn with_accounts(
    m: Map<Seq<u8>, AccountData>,
    accounts: Seq<AccountData>,
) -> Map<Seq<u8>, AccountData>
    decreases accounts.len(),
{
    if accounts.len() == 0 {
        m
    } else {
        with_accounts(m, accounts.drop_last()).insert(accounts.last().address@, accounts.last())
    }
}

} // verus!
