use avm_contract_sdk::{
    encode_batch_output, encode_event_fields, encode_message_output, AccountAddress, BatchOutput,
    CallbackIntent, CodeUpgradeIntent, CurrencyAmount, EncodeError, EventField, EventIntent,
    EventKind, EventValue, MessageOutput, OutboundIntent, StatePatch, StateOutputMode, StateUpdate,
};

fn address(dapp: u8, account: u8) -> AccountAddress {
    AccountAddress { dapp_id: [dapp; 32], account_id: [account; 32] }
}

fn outbound(input_index: u32) -> OutboundIntent {
    OutboundIntent {
        input_index,
        destination: address(1, 2),
        value_main: 3,
        fuel_fee_shells: 4,
        extra: Vec::new(),
        method_id: 5,
        body: b"b".to_vec(),
    }
}

fn event(input_index: u32, fields_binary: Vec<u8>) -> EventIntent {
    EventIntent {
        input_index,
        kind: EventKind::External,
        event_class: 6,
        event_name: "e".into(),
        topics: Vec::new(),
        fields_binary,
    }
}

fn empty_fields() -> Vec<u8> {
    encode_event_fields(&[]).unwrap()
}

#[test]
fn failure_with_free_status_encodes_exactly() {
    let encoded = encode_message_output(&MessageOutput::failure(1000)).unwrap();
    let mut expected = Vec::new();
    expected.extend_from_slice(b"ACMO");
    expected.extend_from_slice(&1000u32.to_le_bytes());
    expected.push(0);
    expected.extend_from_slice(&[0; 16]);
    assert_eq!(encoded, expected);
}

#[test]
fn reserved_status_is_invalid_status_code() {
    assert_eq!(encode_message_output(&MessageOutput::failure(7)).unwrap_err(), EncodeError::InvalidStatusCode);
    assert_eq!(encode_message_output(&MessageOutput::failure(999)).unwrap_err(), EncodeError::InvalidStatusCode);
}

#[test]
fn success_without_state_is_missing_state_update() {
    assert_eq!(encode_message_output(&MessageOutput::failure(0)).unwrap_err(), EncodeError::MissingStateUpdate);
}

#[test]
fn failure_with_effects_is_refused() {
    let mut output = MessageOutput::failure(1001);
    output.callback_result_body = b"x".to_vec();
    assert_eq!(encode_message_output(&output).unwrap_err(), EncodeError::EffectsOnFailure);
}

#[test]
fn success_full_replace_encodes_exactly() {
    let output = MessageOutput::success(StateUpdate::FullReplace(b"abc".to_vec()));
    let encoded = encode_message_output(&output).unwrap();
    let mut expected = Vec::new();
    expected.extend_from_slice(b"ACMO");
    expected.extend_from_slice(&0u32.to_le_bytes());
    expected.push(1);
    expected.extend_from_slice(&[0, 0, 0, 0]);
    expected.extend_from_slice(&3u32.to_le_bytes());
    expected.extend_from_slice(b"abc");
    expected.extend_from_slice(&[0; 16]);
    assert_eq!(encoded, expected);
    assert_eq!(output.state_update.as_ref().unwrap().mode(), StateOutputMode::FullReplace);
}

#[test]
fn patch_list_encodes_exactly() {
    let update = StateUpdate::DataPatchList(vec![
        StatePatch { offset: 0, old_len: 2, new_bytes: b"AB".to_vec() },
        StatePatch { offset: 2, old_len: 0, new_bytes: b"C".to_vec() },
    ]);
    assert_eq!(update.mode(), StateOutputMode::DataPatchList);
    let encoded = encode_message_output(&MessageOutput::success(update)).unwrap();
    let mut expected = Vec::new();
    expected.extend_from_slice(b"ACMO");
    expected.extend_from_slice(&0u32.to_le_bytes());
    expected.push(1);
    expected.extend_from_slice(&[1, 0, 0, 0]);
    expected.extend_from_slice(&2u16.to_le_bytes());
    expected.extend_from_slice(&0u16.to_le_bytes());
    for (offset, old_len, bytes) in [(0u32, 2u32, &b"AB"[..]), (2, 0, &b"C"[..])] {
        expected.extend_from_slice(&offset.to_le_bytes());
        expected.extend_from_slice(&old_len.to_le_bytes());
        expected.extend_from_slice(&(bytes.len() as u32).to_le_bytes());
        expected.extend_from_slice(bytes);
    }
    expected.extend_from_slice(&[0; 16]);
    assert_eq!(encoded, expected);
}

#[test]
fn overlapping_patches_are_invalid_patch_order() {
    let update = StateUpdate::DataPatchList(vec![
        StatePatch { offset: 0, old_len: 4, new_bytes: Vec::new() },
        StatePatch { offset: 3, old_len: 1, new_bytes: Vec::new() },
    ]);
    assert_eq!(encode_message_output(&MessageOutput::success(update)).unwrap_err(), EncodeError::InvalidPatchOrder);
    let overflow = StateUpdate::DataPatchList(vec![StatePatch {
        offset: u32::MAX,
        old_len: 1,
        new_bytes: Vec::new(),
    }]);
    assert_eq!(encode_message_output(&MessageOutput::success(overflow)).unwrap_err(), EncodeError::InvalidPatchOrder);
}

#[test]
fn unsorted_outbound_extra_is_invalid_extra_currencies() {
    let mut output = MessageOutput::success(StateUpdate::FullReplace(Vec::new()));
    let mut intent = outbound(0);
    intent.extra = vec![
        CurrencyAmount { currency_id: 3, amount: 1 },
        CurrencyAmount { currency_id: 3, amount: 2 },
    ];
    output.outbound_intents = vec![intent];
    assert_eq!(encode_message_output(&output).unwrap_err(), EncodeError::InvalidExtraCurrencies);
}

#[test]
fn outbound_with_zero_destination_is_invalid_index() {
    let mut output = MessageOutput::success(StateUpdate::FullReplace(Vec::new()));
    let mut intent = outbound(0);
    intent.destination = AccountAddress { dapp_id: [0; 32], account_id: [1; 32] };
    output.outbound_intents = vec![intent];
    assert_eq!(encode_message_output(&output).unwrap_err(), EncodeError::InvalidIndex);
}

#[test]
fn message_effects_must_belong_to_input_zero() {
    let mut output = MessageOutput::success(StateUpdate::FullReplace(Vec::new()));
    output.event_intents = vec![event(1, empty_fields())];
    assert_eq!(encode_message_output(&output).unwrap_err(), EncodeError::InvalidIndex);
}

#[test]
fn callbacks_must_name_distinct_outbounds() {
    let mut output = MessageOutput::success(StateUpdate::FullReplace(Vec::new()));
    output.outbound_intents = vec![outbound(0)];
    output.callback_intents = vec![CallbackIntent { outbound_index: 1, handler_method_id: 9 }];
    assert_eq!(encode_message_output(&output).unwrap_err(), EncodeError::InvalidCallback);
    output.callback_intents = vec![
        CallbackIntent { outbound_index: 0, handler_method_id: 9 },
        CallbackIntent { outbound_index: 0, handler_method_id: 8 },
    ];
    assert_eq!(encode_message_output(&output).unwrap_err(), EncodeError::InvalidCallback);
    output.callback_intents = vec![CallbackIntent { outbound_index: 0, handler_method_id: 0 }];
    assert_eq!(encode_message_output(&output).unwrap_err(), EncodeError::InvalidCallback);
}

#[test]
fn upgrade_intent_is_appended() {
    let mut output = MessageOutput::success(StateUpdate::FullReplace(Vec::new()));
    output.code_upgrade_intent = Some(CodeUpgradeIntent {
        target_selected_code_id: [0xaa; 32],
        expected_code_hash: [0xbb; 32],
    });
    let encoded = encode_message_output(&output).unwrap();
    assert_eq!(encoded[8], 3);
    assert!(encoded.ends_with(&[0xbb; 32]));
    assert_eq!(&encoded[encoded.len() - 64..encoded.len() - 32], &[0xaa; 32]);
}

#[test]
fn event_fields_encode_exactly() {
    let fields = encode_event_fields(&[
        EventField { name: "a".into(), value: EventValue::Bool(true) },
        EventField { name: "b".into(), value: EventValue::I64(-2) },
        EventField { name: "c".into(), value: EventValue::Text("é".into()) },
    ])
    .unwrap();
    let mut expected = Vec::new();
    expected.extend_from_slice(&3u16.to_le_bytes());
    expected.extend_from_slice(&0u16.to_le_bytes());
    expected.extend_from_slice(&[1, 0, 1, 1, 0, b'a', 1]);
    expected.extend_from_slice(&[1, 0, 3, 8, 0, b'b']);
    expected.extend_from_slice(&(-2i64).to_le_bytes());
    expected.extend_from_slice(&[1, 0, 6, 2, 0, b'c', 0xc3, 0xa9]);
    assert_eq!(fields, expected);
}

#[test]
fn encoded_fields_are_accepted_by_event_validation() {
    let fields = encode_event_fields(&[
        EventField { name: "addr".into(), value: EventValue::Address(address(7, 8)) },
        EventField { name: "data".into(), value: EventValue::Data(vec![1, 2, 3]) },
        EventField { name: "n".into(), value: EventValue::Null },
        EventField { name: "text".into(), value: EventValue::Text("ok".into()) },
        EventField { name: "u128".into(), value: EventValue::U128(5) },
        EventField { name: "i128".into(), value: EventValue::I128(-5) },
    ]);
    assert_eq!(fields.unwrap_err(), EncodeError::InvalidEvent);
    let fields = encode_event_fields(&[
        EventField { name: "addr".into(), value: EventValue::Address(address(7, 8)) },
        EventField { name: "data".into(), value: EventValue::Data(vec![1, 2, 3]) },
        EventField { name: "i128".into(), value: EventValue::I128(-5) },
        EventField { name: "n".into(), value: EventValue::Null },
        EventField { name: "text".into(), value: EventValue::Text("ok".into()) },
        EventField { name: "u128".into(), value: EventValue::U128(5) },
    ])
    .unwrap();
    let mut output = MessageOutput::success(StateUpdate::FullReplace(Vec::new()));
    output.event_intents = vec![event(0, fields)];
    assert!(encode_message_output(&output).is_ok());
}

#[test]
fn malformed_fields_are_invalid_event() {
    let mut output = MessageOutput::success(StateUpdate::FullReplace(Vec::new()));
    let mut bad_text = Vec::new();
    bad_text.extend_from_slice(&1u16.to_le_bytes());
    bad_text.extend_from_slice(&0u16.to_le_bytes());
    bad_text.extend_from_slice(&[1, 0, 6, 1, 0, b'x', 0xff]);
    output.event_intents = vec![event(0, bad_text.clone())];
    assert_eq!(encode_message_output(&output).unwrap_err(), EncodeError::InvalidEvent);
    let last = bad_text.len() - 1;
    bad_text[last] = b'y';
    output.event_intents = vec![event(0, bad_text.clone())];
    assert!(encode_message_output(&output).is_ok());
    bad_text.push(0);
    output.event_intents = vec![event(0, bad_text)];
    assert_eq!(encode_message_output(&output).unwrap_err(), EncodeError::InvalidEvent);
}

#[test]
fn too_many_fields_is_length_overflow() {
    let fields: Vec<EventField> =
        (0..65536).map(|i| EventField { name: format!("{:08}", i), value: EventValue::Null }).collect();
    assert_eq!(encode_event_fields(&fields).unwrap_err(), EncodeError::LengthOverflow);
}

#[test]
fn batch_output_checks_statuses_and_mode() {
    let output = BatchOutput {
        state_update: StateUpdate::FullReplace(Vec::new()),
        status_codes: vec![0, 5],
        outbound_intents: Vec::new(),
        event_intents: Vec::new(),
    };
    assert_eq!(encode_batch_output(&output).unwrap_err(), EncodeError::InvalidStatusCode);
    let output = BatchOutput {
        state_update: StateUpdate::DataPatchList(Vec::new()),
        status_codes: vec![1000],
        outbound_intents: vec![outbound(0)],
        event_intents: vec![event(0, empty_fields())],
    };
    let encoded = encode_batch_output(&output).unwrap();
    assert_eq!(&encoded[..4], b"ACBO");
    assert_eq!(&encoded[4..12], &[1, 0, 0, 0, 0, 0, 0, 0]);
    assert_eq!(u32::from_le_bytes(encoded[12..16].try_into().unwrap()), 1);
    assert_eq!(u32::from_le_bytes(encoded[16..20].try_into().unwrap()), 1000);
}
