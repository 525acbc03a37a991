use tx_mock::finish::{finish_endpoint_result, finish_value, FinishCall, ReturnValue};

#[test]
fn scalar_shapes_finish_once() {
    let mut out = Vec::new();
    assert!(!finish_value(&ReturnValue::Bool(true), &mut out));
    assert!(!finish_value(&ReturnValue::Bool(false), &mut out));
    assert!(!finish_value(&ReturnValue::I64(-5), &mut out));
    assert!(!finish_value(&ReturnValue::BigUint(7), &mut out));
    assert!(!finish_value(&ReturnValue::BigInt(-7), &mut out));
    assert!(!finish_value(&ReturnValue::Address([3; 32]), &mut out));
    assert!(!finish_value(&ReturnValue::Bytes(vec![1, 2]), &mut out));
    assert_eq!(
        out,
        vec![
            FinishCall::I64(1),
            FinishCall::I64(0),
            FinishCall::I64(-5),
            FinishCall::BigUint(7),
            FinishCall::BigInt(-7),
            FinishCall::Bytes32([3; 32]),
            FinishCall::Bytes(vec![1, 2]),
        ]
    );
}

#[test]
fn items_finish_in_order_and_stop_at_error() {
    let v = ReturnValue::Items(vec![
        ReturnValue::I64(1),
        ReturnValue::ResultOk(Box::new(ReturnValue::Items(vec![ReturnValue::Bool(true), ReturnValue::BigUint(2)]))),
        ReturnValue::ResultErr(b"bad input".to_vec()),
        ReturnValue::I64(99),
    ]);
    let mut out = vec![FinishCall::I64(42)];
    assert!(finish_value(&v, &mut out));
    assert_eq!(
        out,
        vec![
            FinishCall::I64(42),
            FinishCall::I64(1),
            FinishCall::I64(1),
            FinishCall::BigUint(2),
            FinishCall::SignalError(b"bad input".to_vec()),
        ]
    );
}

#[test]
fn endpoint_without_return_value_finishes_nothing() {
    assert!(finish_endpoint_result(&None).is_empty());
    assert_eq!(finish_endpoint_result(&Some(ReturnValue::Items(vec![]))), vec![]);
    assert_eq!(
        finish_endpoint_result(&Some(ReturnValue::ResultErr(b"no".to_vec()))),
        vec![FinishCall::SignalError(b"no".to_vec())]
    );
}
