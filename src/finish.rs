//! What an endpoint hands back to the runtime, by the shape of its return
//! value: each shape maps to a fixed sequence of finish calls.
use vstd::prelude::*;

verus! {

/// A value that an endpoint returns, tagged by its shape.
#[derive(Debug)]
pub enum ReturnValue {
    Address([u8; 32]),
    /// A byte buffer, finished whole.
    Bytes(Vec<u8>),
    BigInt(i128),
    BigUint(u128),
    I64(i64),
    Bool(bool),
    /// A list or a tuple: each item is finished in turn.
    Items(Vec<ReturnValue>),
    /// The success side of a result with an error channel.
    ResultOk(Box<ReturnValue>),
    /// The error side of a result with an error channel: it is signalled
    /// with its message.
    ResultErr(Vec<u8>),
}

/// One call into the runtime that hands back part of a result.
#[derive(Clone, Debug, PartialEq, Eq)]
pub enum FinishCall {
    Bytes32([u8; 32]),
    Bytes(Vec<u8>),
    BigInt(i128),
    BigUint(u128),
    I64(i64),
    /// Ends the call with a contract error carrying this message.
    SignalError(Vec<u8>),
}

pub enum FinishCallModel {
    Bytes32(Seq<u8>),
    Bytes(Seq<u8>),
    BigInt(i128),
    BigUint(u128),
    I64(i64),
    SignalError(Seq<u8>),
}

impl View for FinishCall {
    type V = FinishCallModel;

    open spec fn view(&self) -> FinishCallModel {
        match self {
            FinishCall::Bytes32(a) => FinishCallModel::Bytes32(a@),
            FinishCall::Bytes(b) => FinishCallModel::Bytes(b@),
            FinishCall::BigInt(x) => FinishCallModel::BigInt(*x),
            FinishCall::BigUint(x) => FinishCallModel::BigUint(*x),
            FinishCall::I64(x) => FinishCallModel::I64(*x),
            FinishCall::SignalError(m) => FinishCallModel::SignalError(m@),
        }
    }
}

pub open spec fn calls_view(s: Seq<FinishCall>) -> Seq<FinishCallModel> {
    s.map_values(|c: FinishCall| c@)
}

/// Whether a sequence of calls ends the call with an error.
pub open spec fn signals_error(calls: Seq<FinishCallModel>) -> bool {
    calls.len() > 0 && calls.last() is SignalError
}

/// The calls that finish `v`: nothing follows a signalled error.
pub open spec fn finish_calls(v: ReturnValue) -> Seq<FinishCallModel>
    decreases v,
{
    match v {
        ReturnValue::Address(a) => seq![FinishCallModel::Bytes32(a@)],
        ReturnValue::Bytes(b) => seq![FinishCallModel::Bytes(b@)],
        ReturnValue::BigInt(x) => seq![FinishCallModel::BigInt(x)],
        ReturnValue::BigUint(x) => seq![FinishCallModel::BigUint(x)],
        ReturnValue::I64(x) => seq![FinishCallModel::I64(x)],
        ReturnValue::Bool(b) => seq![FinishCallModel::I64(if b { 1 } else { 0 })],
        ReturnValue::Items(items) => items_calls(items@, items@.len() as int),
        ReturnValue::ResultOk(ok) => finish_calls(*ok),
        ReturnValue::ResultErr(message) => seq![FinishCallModel::SignalError(message@)],
    }
}

/// The calls that finish the first `n` of `items`, one after the other,
/// stopping at the first item that signals an error.
pub open spec fn items_calls(items: Seq<ReturnValue>, n: int) -> Seq<FinishCallModel>
    decreases items, n,
{
    if n <= 0 || n > items.len() {
        Seq::empty()
    } else {
        let before = items_calls(items, n - 1);
        if signals_error(before) {
            before
        } else {
            before + finish_calls(items[n - 1])
        }
    }
}

/// Appends to `out` the calls that finish `v`; returns whether they end with
/// a signalled error.
pub fn finish_value(v: &ReturnValue, out: &mut Vec<FinishCall>) -> (r: bool)
    ensures
        calls_view(final(out)@) == calls_view(old(out)@) + finish_calls(*v),
        r == signals_error(finish_calls(*v)),
    decreases value_size(*v),
{
    match v {
        ReturnValue::Address(a) => {
            out.push(FinishCall::Bytes32(*a));
            proof {
                assert(calls_view(out@) =~= calls_view(old(out)@) + finish_calls(*v));
            }
            false
        },
        ReturnValue::Bytes(b) => {
            out.push(FinishCall::Bytes(b.clone()));
            proof {
                assert(calls_view(out@) =~= calls_view(old(out)@) + finish_calls(*v));
            }
            false
        },
        ReturnValue::BigInt(x) => {
            out.push(FinishCall::BigInt(*x));
            proof {
                assert(calls_view(out@) =~= calls_view(old(out)@) + finish_calls(*v));
            }
            false
        },
        ReturnValue::BigUint(x) => {
            out.push(FinishCall::BigUint(*x));
            proof {
                assert(calls_view(out@) =~= calls_view(old(out)@) + finish_calls(*v));
            }
            false
        },
        ReturnValue::I64(x) => {
            out.push(FinishCall::I64(*x));
            proof {
                assert(calls_view(out@) =~= calls_view(old(out)@) + finish_calls(*v));
            }
            false
        },
        ReturnValue::Bool(b) => {
            out.push(FinishCall::I64(if *b { 1 } else { 0 }));
            proof {
                assert(calls_view(out@) =~= calls_view(old(out)@) + finish_calls(*v));
            }
            false
        },
        ReturnValue::Items(items) => {
            let mut i: usize = 0;
            let ghost start = out@;
            assert(calls_view(start) + items_calls(items@, 0) =~= calls_view(start));
            while i < items.len()
                invariant
                    *v == ReturnValue::Items(*items),
                    value_size(*v) == 1 + items_size(items@, items@.len() as int),
                    start == old(out)@,
                    i <= items@.len(),
                    calls_view(out@) == calls_view(start) + items_calls(items@, i as int),
                    !signals_error(items_calls(items@, i as int)),
                decreases items@.len() - i,
            {
                proof {
                    lemma_item_smaller(items@, i as int, items@.len() as int);
                }
                let failed = finish_value(&items[i], out);
                proof {
                    assert(items_calls(items@, i as int + 1) == items_calls(items@, i as int)
                        + finish_calls(items@[i as int]));
                    assert(calls_view(start) + items_calls(items@, i as int) + finish_calls(
                        items@[i as int],
                    ) =~= calls_view(start) + items_calls(items@, i as int + 1));
                }
                i = i + 1;
                if failed {
                    proof {
                        let prior = items_calls(items@, i as int - 1);
                        let last = finish_calls(items@[i as int - 1]);
                        assert(items_calls(items@, i as int) == prior + last);
                        assert((prior + last).last() == last.last());
                        lemma_items_calls_stop(items@, i as int);
                        assert(finish_calls(*v) == items_calls(items@, items@.len() as int));
                    }
                    return true;
                }
            }
            false
        },
        ReturnValue::ResultOk(ok) => finish_value(ok, out),
        ReturnValue::ResultErr(message) => {
            out.push(FinishCall::SignalError(message.clone()));
            proof {
                assert(calls_view(out@) =~= calls_view(old(out)@) + finish_calls(*v));
            }
            true
        },
    }
}

/// Once an item signals an error, the items after it add no call.
proof fn lemma_items_calls_stop(items: Seq<ReturnValue>, k: int)
    requires
        0 <= k <= items.len(),
        signals_error(items_calls(items, k)),
    ensures
        items_calls(items, items.len() as int) == items_calls(items, k),
    decreases items.len() - k,
{
    if k < items.len() {
        assert(items_calls(items, k + 1) == items_calls(items, k));
        lemma_items_calls_stop(items, k + 1);
    }
}

/// The calls that end an endpoint: none where it returns nothing, else
/// those that finish its return value.
pub fn finish_endpoint_result(ret: &Option<ReturnValue>) -> (r: Vec<FinishCall>)
    ensures
        calls_view(r@) == match *ret {
            None => Seq::<FinishCallModel>::empty(),
            Some(v) => finish_calls(v),
        },
{
    let mut out: Vec<FinishCall> = Vec::new();
    proof {
        assert(calls_view(out@) =~= Seq::<FinishCallModel>::empty());
    }
    match ret {
        None => {},
        Some(v) => {
            let _ = finish_value(v, &mut out);
            proof {
                assert(calls_view(Seq::<FinishCall>::empty()) + finish_calls(*v) =~= finish_calls(*v));
            }
        },
    }
    out
}

/// The number of tags in `v`.
pub open spec fn value_size(v: ReturnValue) -> nat
    decreases v,
{
    match v {
        ReturnValue::Items(items) => 1 + items_size(items@, items@.len() as int),
        ReturnValue::ResultOk(ok) => 1 + value_size(*ok),
        _ => 1,
    }
}

/// The number of tags in the first `n` of `items`.
pub open spec fn items_size(items: Seq<ReturnValue>, n: int) -> nat
    decreases items, n,
{
    if n <= 0 || n > items.len() {
        0
    } else {
        items_size(items, n - 1) + value_size(items[n - 1])
    }
}

proof fn lemma_item_smaller(items: Seq<ReturnValue>, k: int, n: int)
    requires
        0 <= k < n <= items.len(),
    ensures
        value_size(items[k]) <= items_size(items, n),
    decreases n,
{
    if k < n - 1 {
        lemma_item_smaller(items, k, n - 1);
    }
}

} // verus!
