use tx_mock::tx_result::{
    AsyncCallTxData, InvariantViolation, TxAssertError, TxLog, TxPanic, TxResult, TxResultCalls,
};

fn result_with(values: Vec<Vec<u8>>, logs: Vec<TxLog>, async_call: Option<AsyncCallTxData>) -> TxResult {
    TxResult {
        result_status: 0,
        result_message: String::new(),
        result_values: values,
        result_logs: logs,
        result_calls: TxResultCalls { async_call },
    }
}

fn log(tag: u8) -> TxLog {
    TxLog { address: vec![tag; 4], endpoint: b"ep".to_vec(), topics: vec![vec![tag]], data: vec![tag, tag] }
}

fn async_call(endpoint: &str) -> AsyncCallTxData {
    AsyncCallTxData {
        from: vec![1; 32],
        to: vec![2; 32],
        call_value: 5,
        endpoint_name: endpoint.to_string(),
        arguments: vec![vec![9]],
        tx_hash: vec![0; 32],
    }
}

#[test]
fn empty_is_a_plain_success() {
    let r = TxResult::empty();
    assert_eq!(r.result_status, 0);
    assert_eq!(r.result_message, "");
    assert!(r.result_values.is_empty());
    assert!(r.result_logs.is_empty());
    assert!(r.result_calls.async_call.is_none());
    assert!(r.assert_ok().is_ok());
}

#[test]
fn from_panic_obj_keeps_status_and_message() {
    let r = TxResult::from_panic_obj(&TxPanic { status: 7, message: "boom".to_string() });
    assert_eq!(r.result_status, 7);
    assert_eq!(r.result_message, "boom");
    assert!(r.result_values.is_empty());
}

#[test]
fn from_panic_string_drops_the_detail() {
    let r = TxResult::from_panic_string("index out of bounds");
    assert_eq!(r.result_status, 4);
    assert_eq!(r.result_message, "panic occurred");
    let u = TxResult::from_unknown_panic();
    assert_eq!(u.result_status, 4);
    assert_eq!(u.result_message, "panic occurred");
}

#[test]
fn from_vm_error_has_status_ten() {
    let r = TxResult::from_vm_error("out of gas".to_string());
    assert_eq!(r.result_status, 10);
    assert_eq!(r.result_message, "out of gas");
}

#[test]
fn merge_appends_values_and_logs_in_order() {
    let mut parent = result_with(vec![vec![1]], vec![log(1)], None);
    let child = result_with(vec![vec![2], vec![3]], vec![log(2)], None);
    assert!(parent.merge_after_sync_call(&child).is_ok());
    assert_eq!(parent.result_values, vec![vec![1], vec![2], vec![3]]);
    assert_eq!(parent.result_logs.len(), 2);
    assert_eq!(parent.result_logs[0].data, vec![1, 1]);
    assert_eq!(parent.result_logs[1].data, vec![2, 2]);
    assert!(parent.result_calls.async_call.is_none());
}

#[test]
fn merge_takes_over_the_async_call() {
    let mut parent = result_with(vec![], vec![], None);
    let child = result_with(vec![], vec![], Some(async_call("callBack")));
    assert!(parent.merge_after_sync_call(&child).is_ok());
    let taken = parent.result_calls.async_call.expect("async call moved to the caller");
    assert_eq!(taken.endpoint_name, "callBack");
    assert_eq!(taken.call_value, 5);
    assert_eq!(taken.arguments, vec![vec![9]]);
}

#[test]
fn second_async_call_is_refused_and_nothing_changes() {
    let mut parent = result_with(vec![vec![1]], vec![log(1)], Some(async_call("first")));
    let child = result_with(vec![vec![2]], vec![log(2)], Some(async_call("second")));
    assert_eq!(parent.merge_after_sync_call(&child), Err(InvariantViolation::MultipleAsyncCalls));
    assert_eq!(parent.result_values, vec![vec![1]]);
    assert_eq!(parent.result_logs.len(), 1);
    assert_eq!(parent.result_calls.async_call.unwrap().endpoint_name, "first");
}

#[test]
fn merging_in_sequence_keeps_order() {
    let c1 = result_with(vec![vec![1], vec![2]], vec![log(1)], None);
    let c2 = result_with(vec![vec![3]], vec![log(2), log(3)], None);
    let mut one_by_one = result_with(vec![vec![0]], vec![log(0)], None);
    one_by_one.merge_after_sync_call(&c1).unwrap();
    one_by_one.merge_after_sync_call(&c2).unwrap();
    let mut grouped_child = c1.clone();
    grouped_child.merge_after_sync_call(&c2).unwrap();
    let mut grouped = result_with(vec![vec![0]], vec![log(0)], None);
    grouped.merge_after_sync_call(&grouped_child).unwrap();
    assert_eq!(one_by_one.result_values, vec![vec![0], vec![1], vec![2], vec![3]]);
    assert_eq!(one_by_one.result_values, grouped.result_values);
    let a: Vec<Vec<u8>> = one_by_one.result_logs.iter().map(|l| l.data.clone()).collect();
    let b: Vec<Vec<u8>> = grouped.result_logs.iter().map(|l| l.data.clone()).collect();
    assert_eq!(a, vec![vec![0, 0], vec![1, 1], vec![2, 2], vec![3, 3]]);
    assert_eq!(a, b);
}

#[test]
fn assert_ok_fails_on_error_status() {
    let r = TxResult::from_vm_error("bad".to_string());
    match r.assert_ok() {
        Err(TxAssertError::NotOk { status, message }) => {
            assert_eq!(status, 10);
            assert_eq!(message, "bad");
        },
        other => panic!("unexpected {:?}", other),
    }
}

#[test]
fn assert_user_error_matches_exact_message() {
    let r = TxResult::from_panic_obj(&TxPanic { status: 4, message: "insufficient funds".to_string() });
    assert_eq!(r.result_status, 4);
    assert_eq!(r.result_message, "insufficient funds");
    assert!(r.assert_user_error("insufficient funds").is_ok());
    assert!(matches!(r.assert_user_error("other"), Err(TxAssertError::MessageMismatch { .. })));
}

#[test]
fn assert_error_checks_status_after_message() {
    let r = TxResult::from_vm_error("x".to_string());
    assert!(r.assert_error(10, "x").is_ok());
    assert!(matches!(r.assert_error(4, "x"), Err(TxAssertError::StatusMismatch { want_status: 4, have_status: 10, .. })));
    assert!(matches!(r.assert_error(4, "y"), Err(TxAssertError::MessageMismatch { .. })));
    assert!(matches!(r.assert_user_error("x"), Err(TxAssertError::StatusMismatch { .. })));
}

#[test]
fn result_values_as_hex_list() {
    let r = result_with(vec![vec![0x01, 0xab], vec![], vec![0xff]], vec![], None);
    assert_eq!(r.result_values_to_string(), "0x01ab, 0x, 0xff");
    assert_eq!(TxResult::empty().result_values_to_string(), "");
}
