//! The outcome of one contract invocation, and how a synchronous sub-call's
//! outcome folds into its caller's.
use vstd::prelude::*;
use vstd::string::*;

use crate::text::{bytes_to_hex, hex_of, join_strings, joined, string_views};

verus! {

/// Status of a successful call.
pub const STATUS_OK: u64 = 0;

/// Status of an error that a contract signals itself.
pub const STATUS_USER_ERROR: u64 = 4;

/// Status of an error of the runtime beneath the contract.
pub const STATUS_VM_ERROR: u64 = 10;

/// Message that replaces the detail of an unexpected internal fault.
pub const PANIC_MESSAGE: &'static str = "panic occurred";

pub open spec fn bytes_views(v: Seq<Vec<u8>>) -> Seq<Seq<u8>> {
    v.map_values(|b: Vec<u8>| b@)
}

/// Copies a byte string.
pub fn copy_bytes(b: &Vec<u8>) -> (r: Vec<u8>)
    ensures
        r@ == b@,
{
    b.clone()
}

/// Copies a list of byte strings.
pub fn copy_byte_strings(v: &Vec<Vec<u8>>) -> (r: Vec<Vec<u8>>)
    ensures
        bytes_views(r@) == bytes_views(v@),
{
    let mut r: Vec<Vec<u8>> = Vec::new();
    let mut i: usize = 0;
    while i < v.len()
        invariant
            i <= v.len(),
            r@.len() == i,
            forall|k: int| 0 <= k < i ==> (#[trigger] r@[k])@ == v@[k]@,
        decreases v.len() - i,
    {
        let b = copy_bytes(&v[i]);
        r.push(b);
        i = i + 1;
    }
    assert(bytes_views(r@) =~= bytes_views(v@));
    r
}

/// An event that a contract emitted.
#[derive(Clone, Debug)]
pub struct TxLog {
    pub address: Vec<u8>,
    pub endpoint: Vec<u8>,
    pub topics: Vec<Vec<u8>>,
    pub data: Vec<u8>,
}

pub struct TxLogModel {
    pub address: Seq<u8>,
    pub endpoint: Seq<u8>,
    pub topics: Seq<Seq<u8>>,
    pub data: Seq<u8>,
}

impl View for TxLog {
    type V = TxLogModel;

    open spec fn view(&self) -> TxLogModel {
        TxLogModel {
            address: self.address@,
            endpoint: self.endpoint@,
            topics: bytes_views(self.topics@),
            data: self.data@,
        }
    }
}

impl TxLog {
    pub fn copy(&self) -> (r: TxLog)
        ensures
            r@ == self@,
    {
        TxLog {
            address: self.address.clone(),
            endpoint: self.endpoint.clone(),
            topics: copy_byte_strings(&self.topics),
            data: self.data.clone(),
        }
    }
}

pub open spec fn log_views(v: Seq<TxLog>) -> Seq<TxLogModel> {
    v.map_values(|l: TxLog| l@)
}

/// A deferred call to another contract, resolved by a later call.
#[derive(Clone, Debug)]
pub struct AsyncCallTxData {
    pub from: Vec<u8>,
    pub to: Vec<u8>,
    pub call_value: u128,
    pub endpoint_name: String,
    pub arguments: Vec<Vec<u8>>,
    pub tx_hash: Vec<u8>,
}

pub struct AsyncCallModel {
    pub from: Seq<u8>,
    pub to: Seq<u8>,
    pub call_value: u128,
    pub endpoint_name: Seq<char>,
    pub arguments: Seq<Seq<u8>>,
    pub tx_hash: Seq<u8>,
}

impl View for AsyncCallTxData {
    type V = AsyncCallModel;

    open spec fn view(&self) -> AsyncCallModel {
        AsyncCallModel {
            from: self.from@,
            to: self.to@,
            call_value: self.call_value,
            endpoint_name: self.endpoint_name@,
            arguments: bytes_views(self.arguments@),
            tx_hash: self.tx_hash@,
        }
    }
}

impl AsyncCallTxData {
    pub fn copy(&self) -> (r: AsyncCallTxData)
        ensures
            r@ == self@,
    {
        AsyncCallTxData {
            from: self.from.clone(),
            to: self.to.clone(),
            call_value: self.call_value,
            endpoint_name: self.endpoint_name.clone(),
            arguments: copy_byte_strings(&self.arguments),
            tx_hash: self.tx_hash.clone(),
        }
    }
}

/// The follow-up calls of a result: at most one pending asynchronous call.
#[derive(Clone, Debug)]
pub struct TxResultCalls {
    pub async_call: Option<AsyncCallTxData>,
}

impl TxResultCalls {
    pub fn empty() -> (r: TxResultCalls)
        ensures
            r.async_call is None,
    {
        TxResultCalls { async_call: None }
    }
}

/// A failure that a contract raised, as the runtime caught it.
#[derive(Clone, Debug)]
pub struct TxPanic {
    pub status: u64,
    pub message: String,
}

pub struct TxResultModel {
    pub status: u64,
    pub message: Seq<char>,
    pub values: Seq<Seq<u8>>,
    pub logs: Seq<TxLogModel>,
    pub async_call: Option<AsyncCallModel>,
}

pub open spec fn async_view(a: Option<AsyncCallTxData>) -> Option<AsyncCallModel> {
    match a {
        Some(c) => Some(c@),
        None => None,
    }
}

/// A failure result: the given status and message, nothing else.
pub open spec fn failure_model(status: u64, message: Seq<char>) -> TxResultModel {
    TxResultModel {
        status,
        message,
        values: Seq::empty(),
        logs: Seq::empty(),
        async_call: None,
    }
}

/// What the caller `p` becomes once the sub-call `c` is folded into it: `None`
/// where both hold a pending asynchronous call.
pub open spec fn merged(p: TxResultModel, c: TxResultModel) -> Option<TxResultModel> {
    if p.async_call is Some && c.async_call is Some {
        None
    } else {
        Some(
            TxResultModel {
                status: p.status,
                message: p.message,
                values: p.values + c.values,
                logs: p.logs + c.logs,
                async_call: if c.async_call is Some {
                    c.async_call
                } else {
                    p.async_call
                },
            },
        )
    }
}

/// A fault of the simulator or of a contract, never an outcome a scenario expects.
#[derive(Clone, Debug, PartialEq, Eq)]
pub enum InvariantViolation {
    /// A second pending asynchronous call was about to join a result.
    MultipleAsyncCalls,
}

/// Why a result did not match what a test expected of it.
#[derive(Clone, Debug)]
pub enum TxAssertError {
    /// Success was expected.
    NotOk { status: u64, message: String },
    /// The message differs from the one expected.
    MessageMismatch {
        want_status: u64,
        want_message: String,
        have_status: u64,
        have_message: String,
    },
    /// The message matches, the status does not.
    StatusMismatch {
        want_status: u64,
        want_message: String,
        have_status: u64,
        have_message: String,
    },
}

#[derive(Clone, Debug)]
pub struct TxResult {
    pub result_status: u64,
    pub result_message: String,
    pub result_values: Vec<Vec<u8>>,
    pub result_logs: Vec<TxLog>,
    pub result_calls: TxResultCalls,
}

impl View for TxResult {
    type V = TxResultModel;

    open spec fn view(&self) -> TxResultModel {
        TxResultModel {
            status: self.result_status,
            message: self.result_message@,
            values: bytes_views(self.result_values@),
            logs: log_views(self.result_logs@),
            async_call: async_view(self.result_calls.async_call),
        }
    }
}

impl TxResult {
    /// A success with nothing returned, logged or pending.
    pub fn empty() -> (r: TxResult)
        ensures
            r@ == failure_model(STATUS_OK, Seq::empty()),
    {
        let r = TxResult {
            result_status: STATUS_OK,
            result_message: String::new(),
            result_values: Vec::new(),
            result_logs: Vec::new(),
            result_calls: TxResultCalls::empty(),
        };
        assert(r@.values =~= Seq::<Seq<u8>>::empty());
        assert(r@.logs =~= Seq::<TxLogModel>::empty());
        r
    }

    /// The result of a structured failure: its own status and message.
    pub fn from_panic_obj(panic_obj: &TxPanic) -> (r: TxResult)
        ensures
            r@ == failure_model(panic_obj.status, panic_obj.message@),
    {
        let r = TxResult {
            result_status: panic_obj.status,
            result_message: panic_obj.message.clone(),
            result_values: Vec::new(),
            result_logs: Vec::new(),
            result_calls: TxResultCalls::empty(),
        };
        assert(r@.values =~= Seq::<Seq<u8>>::empty());
        assert(r@.logs =~= Seq::<TxLogModel>::empty());
        r
    }

    /// The result of an unexpected internal fault. Its detail is dropped: the
    /// status and message are always the same.
    pub fn from_panic_string(_s: &str) -> (r: TxResult)
        ensures
            r@ == failure_model(STATUS_USER_ERROR, PANIC_MESSAGE@),
    {
        let r = TxResult {
            result_status: STATUS_USER_ERROR,
            result_message: String::from_str(PANIC_MESSAGE),
            result_values: Vec::new(),
            result_logs: Vec::new(),
            result_calls: TxResultCalls::empty(),
        };
        assert(r@.values =~= Seq::<Seq<u8>>::empty());
        assert(r@.logs =~= Seq::<TxLogModel>::empty());
        r
    }

    /// The result of a fault whose detail is unknown.
    pub fn from_unknown_panic() -> (r: TxResult)
        ensures
            r@ == failure_model(STATUS_USER_ERROR, PANIC_MESSAGE@),
    {
        Self::from_panic_string("")
    }

    /// The result of an error of the runtime, with its message.
    pub fn from_vm_error(result_message: String) -> (r: TxResult)
        ensures
            r@ == failure_model(STATUS_VM_ERROR, result_message@),
    {
        let r = TxResult {
            result_status: STATUS_VM_ERROR,
            result_message,
            result_values: Vec::new(),
            result_logs: Vec::new(),
            result_calls: TxResultCalls::empty(),
        };
        assert(r@.values =~= Seq::<Seq<u8>>::empty());
        assert(r@.logs =~= Seq::<TxLogModel>::empty());
        r
    }

    /// Folds the result of a synchronous sub-call into this one: its return
    /// values and logs follow this one's, and its pending asynchronous call, if
    /// any, becomes this one's. Where both hold a pending asynchronous call
    /// nothing changes and the violation is returned.
    pub fn merge_after_sync_call(&mut self, sync_call_result: &TxResult) -> (r: Result<
        (),
        InvariantViolation,
    >)
        ensures
            r is Err <==> merged(old(self)@, sync_call_result@) is None,
            r is Err ==> final(self)@ == old(self)@,
            r is Ok ==> final(self)@ == merged(old(self)@, sync_call_result@)->Some_0,
    {
        if self.result_calls.async_call.is_some()
            && sync_call_result.result_calls.async_call.is_some() {
            return Err(InvariantViolation::MultipleAsyncCalls);
        }
        let ghost before = self@;
        let ghost old_values = self.result_values@;
        let ghost old_logs = self.result_logs@;
        let mut i: usize = 0;
        while i < sync_call_result.result_values.len()
            invariant
                i <= sync_call_result.result_values.len(),
                self.result_values@.len() == old_values.len() + i,
                forall|k: int|
                    0 <= k < old_values.len() ==> (#[trigger] self.result_values@[k])@
                        == old_values[k]@,
                forall|k: int|
                    0 <= k < i ==> (#[trigger] self.result_values@[old_values.len() + k])@
                        == sync_call_result.result_values@[k]@,
                self.result_logs@ == old_logs,
                self.result_status == before.status,
                self.result_message@ == before.message,
                async_view(self.result_calls.async_call) == before.async_call,
            decreases sync_call_result.result_values.len() - i,
        {
            let b = copy_bytes(&sync_call_result.result_values[i]);
            self.result_values.push(b);
            i = i + 1;
        }
        assert forall|k: int|
            old_values.len() <= k < self.result_values@.len() implies (
            #[trigger] self.result_values@[k])@ == sync_call_result.result_values@[k
            - old_values.len()]@ by {
            let m = k - old_values.len();
            assert(self.result_values@[old_values.len() + m]@
                == sync_call_result.result_values@[m]@);
        }
        assert(bytes_views(self.result_values@) =~= before.values + sync_call_result@.values);
        let mut j: usize = 0;
        while j < sync_call_result.result_logs.len()
            invariant
                j <= sync_call_result.result_logs.len(),
                bytes_views(self.result_values@) == before.values + sync_call_result@.values,
                self.result_logs@.len() == old_logs.len() + j,
                forall|k: int|
                    0 <= k < old_logs.len() ==> (#[trigger] self.result_logs@[k])@ == old_logs[k]@,
                forall|k: int|
                    0 <= k < j ==> (#[trigger] self.result_logs@[old_logs.len() + k])@
                        == sync_call_result.result_logs@[k]@,
                self.result_status == before.status,
                self.result_message@ == before.message,
                async_view(self.result_calls.async_call) == before.async_call,
            decreases sync_call_result.result_logs.len() - j,
        {
            let l = sync_call_result.result_logs[j].copy();
            self.result_logs.push(l);
            j = j + 1;
        }
        assert forall|k: int|
            old_logs.len() <= k < self.result_logs@.len() implies (
            #[trigger] self.result_logs@[k])@ == sync_call_result.result_logs@[k
            - old_logs.len()]@ by {
            let m = k - old_logs.len();
            assert(self.result_logs@[old_logs.len() + m]@ == sync_call_result.result_logs@[m]@);
        }
        assert(log_views(self.result_logs@) =~= before.logs + sync_call_result@.logs);
        match &sync_call_result.result_calls.async_call {
            Some(pending) => {
                self.result_calls.async_call = Some(pending.copy());
            },
            None => {},
        }
        Ok(())
    }

    /// `Ok` exactly when the status is success.
    pub fn assert_ok(&self) -> (r: Result<(), TxAssertError>)
        ensures
            r is Ok <==> self.result_status == STATUS_OK,
            r matches Err(TxAssertError::NotOk { status, message }) ==> status
                == self.result_status && message@ == self.result_message@,
            r is Err ==> r matches Err(TxAssertError::NotOk { .. }),
    {
        if self.result_status == STATUS_OK {
            Ok(())
        } else {
            Err(TxAssertError::NotOk { status: self.result_status, message: self.result_message.clone() })
        }
    }

    /// `Ok` exactly when both the status and the message are the expected
    /// ones; the message is compared first.
    pub fn assert_error(&self, expected_status: u64, expected_message: &str) -> (r: Result<
        (),
        TxAssertError,
    >)
        ensures
            r is Ok <==> (self.result_status == expected_status && self.result_message@
                == expected_message@),
            r matches Err(TxAssertError::MessageMismatch { .. }) <==> self.result_message@
                != expected_message@,
            r matches Err(TxAssertError::StatusMismatch { .. }) <==> (self.result_message@
                == expected_message@ && self.result_status != expected_status),
            r matches Err(TxAssertError::MessageMismatch {
                want_status,
                want_message,
                have_status,
                have_message,
            }) ==> want_status == expected_status && want_message@ == expected_message@
                && have_status == self.result_status && have_message@ == self.result_message@,
            r matches Err(TxAssertError::StatusMismatch {
                want_status,
                want_message,
                have_status,
                have_message,
            }) ==> want_status == expected_status && want_message@ == expected_message@
                && have_status == self.result_status && have_message@ == self.result_message@,
    {
        let want = String::from_str(expected_message);
        if self.result_message != want {
            return Err(
                TxAssertError::MessageMismatch {
                    want_status: expected_status,
                    want_message: want,
                    have_status: self.result_status,
                    have_message: self.result_message.clone(),
                },
            );
        }
        if self.result_status != expected_status {
            return Err(
                TxAssertError::StatusMismatch {
                    want_status: expected_status,
                    want_message: want,
                    have_status: self.result_status,
                    have_message: self.result_message.clone(),
                },
            );
        }
        Ok(())
    }

    /// [`TxResult::assert_error`] with the status of a contract-signalled error.
    pub fn assert_user_error(&self, expected_message: &str) -> (r: Result<(), TxAssertError>)
        ensures
            r is Ok <==> (self.result_status == STATUS_USER_ERROR && self.result_message@
                == expected_message@),
            r matches Err(TxAssertError::MessageMismatch { .. }) <==> self.result_message@
                != expected_message@,
            r matches Err(TxAssertError::StatusMismatch { .. }) <==> (self.result_message@
                == expected_message@ && self.result_status != STATUS_USER_ERROR),
    {
        self.assert_error(STATUS_USER_ERROR, expected_message)
    }

    /// The return values as `0x`-prefixed hex, separated by `", "`.
    pub fn result_values_to_string(&self) -> (r: String)
        ensures
            r@ == joined(
                self@.values.map_values(|b: Seq<u8>| seq!['0', 'x'] + hex_of(b)),
                seq![',', ' '],
            ),
    {
        let mut parts: Vec<String> = Vec::new();
        let mut i: usize = 0;
        while i < self.result_values.len()
            invariant
                i <= self.result_values.len(),
                parts@.len() == i,
                forall|k: int|
                    0 <= k < i ==> (#[trigger] parts@[k])@ == seq!['0', 'x'] + hex_of(
                        self.result_values@[k]@,
                    ),
            decreases self.result_values.len() - i,
        {
            let h = bytes_to_hex(self.result_values[i].as_slice());
            parts.push(h);
            i = i + 1;
        }
        assert(string_views(parts@) =~= self@.values.map_values(
            |b: Seq<u8>| seq!['0', 'x'] + hex_of(b),
        ));
        proof {
            reveal_strlit(", ");
            assert(", "@ =~= seq![',', ' ']);
        }
        join_strings(&parts, ", ")
    }
}

/// Folding sub-calls one after another keeps their return values and logs in
/// the order of the calls: folding `c1` and then `c2` into `p` gives what
/// folding into `p` the fold of `c2` into `c1` gives, and both fail together.
pub proof fn lemma_merge_associative(p: TxResultModel, c1: TxResultModel, c2: TxResultModel)
    requires
        merged(p, c1) is Some,
        merged(c1, c2) is Some,
    ensures
        merged(merged(p, c1)->Some_0, c2) is Some <==> merged(p, merged(c1, c2)->Some_0) is Some,
        merged(merged(p, c1)->Some_0, c2) is Some ==> ({
            let a = merged(merged(p, c1)->Some_0, c2)->Some_0;
            let b = merged(p, merged(c1, c2)->Some_0)->Some_0;
            &&& a.values == p.values + c1.values + c2.values
            &&& a.logs == p.logs + c1.logs + c2.logs
            &&& a == b
        }),
{
    let c12 = merged(c1, c2)->Some_0;
    assert(c12.values + Seq::<Seq<u8>>::empty() == c12.values);
    assert(p.values + (c1.values + c2.values) =~= p.values + c1.values + c2.values);
    assert(p.logs + (c1.logs + c2.logs) =~= p.logs + c1.logs + c2.logs);
}

/// A result that already holds a pending asynchronous call never takes on a
/// second one: the fold fails and leaves nothing to overwrite it.
pub proof fn lemma_second_async_call_refused(p: TxResultModel, c: TxResultModel)
    requires
        p.async_call is Some,
        c.async_call is Some,
    ensures
        merged(p, c) is None,
{
}

} // verus!
