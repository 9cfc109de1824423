use avm_contract_sdk::{
    decode_batch_input, decode_message_input, AccountAddress, Caller, CanonicalMessage,
    DecodeError, StateOutputMode,
};

fn address(dapp: u8, account: u8) -> AccountAddress {
    AccountAddress { dapp_id: [dapp; 32], account_id: [account; 32] }
}

/// An internal message with one extra currency (id 2, amount 3).
fn internal(source: AccountAddress, destination: AccountAddress, flags: u8, body: &[u8]) -> Vec<u8> {
    let mut bytes = vec![0; 192];
    bytes[1] = flags;
    bytes[2..4].copy_from_slice(&1u16.to_le_bytes());
    bytes[4..8].copy_from_slice(&(body.len() as u32).to_le_bytes());
    bytes[8..16].copy_from_slice(&5u64.to_le_bytes());
    bytes[16..32].copy_from_slice(&6u128.to_le_bytes());
    bytes[32..48].copy_from_slice(&7u128.to_le_bytes());
    bytes[48..56].copy_from_slice(&8u64.to_le_bytes());
    bytes[56..60].copy_from_slice(&9u32.to_le_bytes());
    bytes[64..96].copy_from_slice(&source.dapp_id);
    bytes[96..128].copy_from_slice(&source.account_id);
    bytes[128..160].copy_from_slice(&destination.dapp_id);
    bytes[160..192].copy_from_slice(&destination.account_id);
    if flags & 0x04 != 0 {
        bytes.extend_from_slice(&11u64.to_le_bytes());
    }
    bytes.extend_from_slice(&2u32.to_le_bytes());
    bytes.extend_from_slice(&3u128.to_le_bytes());
    bytes.extend_from_slice(body);
    bytes
}

/// A signed external message without extra currencies.
fn external(destination: AccountAddress, pubkey: [u8; 32], flags: u8, body: &[u8]) -> Vec<u8> {
    let mut bytes = vec![0; 208];
    bytes[0] = 1;
    bytes[1] = flags;
    bytes[4..8].copy_from_slice(&(body.len() as u32).to_le_bytes());
    bytes[8..16].copy_from_slice(&21u64.to_le_bytes());
    bytes[16..32].copy_from_slice(&22u128.to_le_bytes());
    bytes[32..48].copy_from_slice(&23u128.to_le_bytes());
    bytes[48..56].copy_from_slice(&24u64.to_le_bytes());
    bytes[56..60].copy_from_slice(&25u32.to_le_bytes());
    bytes[60..64].copy_from_slice(&26u32.to_le_bytes());
    bytes[64..96].copy_from_slice(&destination.dapp_id);
    bytes[96..128].copy_from_slice(&destination.account_id);
    bytes[128..160].copy_from_slice(&pubkey);
    bytes[160..162].copy_from_slice(&64u16.to_le_bytes());
    bytes.extend_from_slice(body);
    bytes.extend_from_slice(&[0x77; 64]);
    bytes
}

struct Frame {
    caller_kind: u8,
    source: AccountAddress,
    pubkey: [u8; 32],
    destination: AccountAddress,
    mode: u8,
    extra: Vec<(u32, u128)>,
}

fn acmi(frame: &Frame, message: &[u8]) -> Vec<u8> {
    let mut bytes = Vec::new();
    bytes.extend_from_slice(b"ACMI");
    bytes.extend_from_slice(&1u64.to_le_bytes());
    bytes.extend_from_slice(&2u32.to_le_bytes());
    bytes.extend_from_slice(&3u32.to_le_bytes());
    bytes.extend_from_slice(&[4; 32]);
    bytes.push(frame.caller_kind);
    bytes.extend_from_slice(&[0; 7]);
    bytes.extend_from_slice(&frame.source.dapp_id);
    bytes.extend_from_slice(&frame.source.account_id);
    bytes.extend_from_slice(&frame.pubkey);
    bytes.extend_from_slice(&frame.destination.dapp_id);
    bytes.extend_from_slice(&frame.destination.account_id);
    bytes.extend_from_slice(&[5; 32]);
    bytes.push(frame.mode);
    bytes.extend_from_slice(&[0; 7]);
    bytes.extend_from_slice(&6u128.to_le_bytes());
    bytes.extend_from_slice(&(frame.extra.len() as u16).to_le_bytes());
    for (id, amount) in &frame.extra {
        bytes.extend_from_slice(&id.to_le_bytes());
        bytes.extend_from_slice(&amount.to_le_bytes());
    }
    bytes.extend_from_slice(&2u32.to_le_bytes());
    bytes.extend_from_slice(b"st");
    bytes.extend_from_slice(&(message.len() as u32).to_le_bytes());
    bytes.extend_from_slice(message);
    bytes.extend_from_slice(&0u32.to_le_bytes());
    bytes
}

fn internal_frame(source: AccountAddress, destination: AccountAddress) -> Frame {
    Frame { caller_kind: 0, source, pubkey: [0; 32], destination, mode: 0, extra: Vec::new() }
}

fn acbi(destination: AccountAddress, messages: &[Vec<u8>]) -> Vec<u8> {
    let mut bytes = Vec::new();
    bytes.extend_from_slice(b"ACBI");
    bytes.extend_from_slice(&1u64.to_le_bytes());
    bytes.extend_from_slice(&2u32.to_le_bytes());
    bytes.extend_from_slice(&3u32.to_le_bytes());
    bytes.extend_from_slice(&[4; 32]);
    bytes.extend_from_slice(&destination.dapp_id);
    bytes.extend_from_slice(&destination.account_id);
    bytes.extend_from_slice(&[5; 32]);
    bytes.push(1);
    bytes.extend_from_slice(&[0; 7]);
    bytes.extend_from_slice(&6u128.to_le_bytes());
    bytes.extend_from_slice(&0u16.to_le_bytes());
    bytes.extend_from_slice(&0u32.to_le_bytes());
    bytes.extend_from_slice(&(messages.len() as u32).to_le_bytes());
    let mut offset = 0u32;
    bytes.extend_from_slice(&offset.to_le_bytes());
    for message in messages {
        offset += message.len() as u32;
        bytes.extend_from_slice(&offset.to_le_bytes());
    }
    for message in messages {
        bytes.extend_from_slice(message);
    }
    bytes.extend_from_slice(&0u32.to_le_bytes());
    bytes
}

#[test]
fn internal_caller_and_header_fields_decode() {
    let source = address(1, 2);
    let destination = address(3, 4);
    let message = internal(source, destination, 0, b"xyz");
    let frame_bytes = acmi(&internal_frame(source, destination), &message);
    let input = decode_message_input(&frame_bytes).unwrap();
    assert_eq!(input.caller, Caller::Internal(source));
    assert_eq!(input.required_state_output_mode, StateOutputMode::FullReplace);
    assert_eq!(input.state, b"st");
    assert_eq!(input.internal_event_results, b"");
    assert_eq!(input.message.value_main(), 6);
    assert_eq!(input.message.fuel_fee_shells(), 7);
    assert_eq!(input.message.canonical_bytes(), &message[..]);
    assert_eq!(input.message.extra().len(), 1);
    assert!(!input.message.is_deploy());
    assert!(!input.message.is_callback());
    match input.message {
        CanonicalMessage::Internal(m) => {
            assert_eq!(m.created_lt, 8);
            assert_eq!(m.created_at, 9);
            assert_eq!(m.source, source);
            assert_eq!(m.callback, None);
            assert_eq!(m.callback_handler_method_id, None);
        }
        CanonicalMessage::External(_) => panic!("expected internal message"),
    }
}

#[test]
fn external_caller_decodes_with_signature() {
    let destination = address(3, 4);
    let message = external(destination, [9; 32], 0x03, b"hi");
    let frame = Frame {
        caller_kind: 1,
        source: AccountAddress { dapp_id: [0; 32], account_id: [0; 32] },
        pubkey: [9; 32],
        destination,
        mode: 1,
        extra: vec![(1, 10), (4, 40)],
    };
    let frame_bytes = acmi(&frame, &message);
    let input = decode_message_input(&frame_bytes).unwrap();
    assert_eq!(input.caller, Caller::External([9; 32]));
    assert_eq!(input.extra.len(), 2);
    assert!(input.message.is_deploy());
    match input.message {
        CanonicalMessage::External(m) => {
            assert_eq!(m.nonce, 24);
            assert_eq!(m.expire_at, 26);
            assert_eq!(m.body, b"hi");
            assert_eq!(m.signature, &[0x77; 64][..]);
        }
        CanonicalMessage::Internal(_) => panic!("expected external message"),
    }
}

#[test]
fn short_frame_is_unexpected_eof() {
    assert_eq!(decode_message_input(b"AC").unwrap_err(), DecodeError::UnexpectedEof);
    assert_eq!(decode_message_input(b"ACMI").unwrap_err(), DecodeError::UnexpectedEof);
}

#[test]
fn wrong_magic_is_bad_magic() {
    assert_eq!(decode_message_input(b"ACBI0000").unwrap_err(), DecodeError::BadMagic);
    assert_eq!(decode_batch_input(b"ACBO").unwrap_err(), DecodeError::BadMagic);
}

#[test]
fn reserved_bytes_must_be_zero() {
    let source = address(1, 2);
    let destination = address(3, 4);
    let mut bytes = acmi(&internal_frame(source, destination), &internal(source, destination, 0, b""));
    bytes[55] = 1;
    assert_eq!(decode_message_input(&bytes).unwrap_err(), DecodeError::NonZeroReserved);
}

#[test]
fn unknown_state_mode_is_invalid_value() {
    let source = address(1, 2);
    let destination = address(3, 4);
    let mut frame = internal_frame(source, destination);
    frame.mode = 2;
    let bytes = acmi(&frame, &internal(source, destination, 0, b""));
    assert_eq!(decode_message_input(&bytes).unwrap_err(), DecodeError::InvalidValue);
}

#[test]
fn unknown_caller_kind_is_unknown_tag() {
    let source = address(1, 2);
    let destination = address(3, 4);
    let mut frame = internal_frame(source, destination);
    frame.caller_kind = 2;
    let bytes = acmi(&frame, &internal(source, destination, 0, b""));
    assert_eq!(decode_message_input(&bytes).unwrap_err(), DecodeError::UnknownTag);
}

#[test]
fn unknown_message_tag_is_unknown_tag() {
    let source = address(1, 2);
    let destination = address(3, 4);
    let mut message = internal(source, destination, 0, b"");
    message[0] = 7;
    let bytes = acmi(&internal_frame(source, destination), &message);
    assert_eq!(decode_message_input(&bytes).unwrap_err(), DecodeError::UnknownTag);
}

#[test]
fn unsorted_extra_is_unsorted() {
    let source = address(1, 2);
    let destination = address(3, 4);
    let mut frame = internal_frame(source, destination);
    frame.extra = vec![(5, 1), (5, 2)];
    let bytes = acmi(&frame, &internal(source, destination, 0, b""));
    assert_eq!(decode_message_input(&bytes).unwrap_err(), DecodeError::Unsorted);
}

#[test]
fn caller_must_match_message_source() {
    let source = address(1, 2);
    let destination = address(3, 4);
    let bytes = acmi(&internal_frame(address(1, 9), destination), &internal(source, destination, 0, b""));
    assert_eq!(decode_message_input(&bytes).unwrap_err(), DecodeError::CallerMismatch);
}

#[test]
fn message_must_be_addressed_to_destination() {
    let source = address(1, 2);
    let destination = address(3, 4);
    let bytes = acmi(&internal_frame(source, destination), &internal(source, address(3, 5), 0, b""));
    assert_eq!(decode_message_input(&bytes).unwrap_err(), DecodeError::DestinationMismatch);
}

#[test]
fn trailing_bytes_are_refused() {
    let source = address(1, 2);
    let destination = address(3, 4);
    let mut bytes = acmi(&internal_frame(source, destination), &internal(source, destination, 0, b""));
    bytes.push(0);
    assert_eq!(decode_message_input(&bytes).unwrap_err(), DecodeError::TrailingBytes);
}

#[test]
fn callback_with_deploy_flag_is_invalid() {
    let source = address(1, 2);
    let destination = address(3, 4);
    let bytes = acmi(&internal_frame(source, destination), &internal(source, destination, 0x03, b""));
    assert_eq!(decode_message_input(&bytes).unwrap_err(), DecodeError::InvalidValue);
}

#[test]
fn zero_callback_handler_is_invalid() {
    let source = address(1, 2);
    let destination = address(3, 4);
    let mut message = internal(source, destination, 0x04, b"");
    message[192..200].copy_from_slice(&0u64.to_le_bytes());
    let bytes = acmi(&internal_frame(source, destination), &message);
    assert_eq!(decode_message_input(&bytes).unwrap_err(), DecodeError::InvalidValue);
}

#[test]
fn external_signature_must_be_64_bytes() {
    let destination = address(3, 4);
    let mut message = external(destination, [9; 32], 0x01, b"");
    message[160..162].copy_from_slice(&63u16.to_le_bytes());
    let frame = Frame {
        caller_kind: 1,
        source: AccountAddress { dapp_id: [0; 32], account_id: [0; 32] },
        pubkey: [9; 32],
        destination,
        mode: 0,
        extra: Vec::new(),
    };
    assert_eq!(decode_message_input(&acmi(&frame, &message)).unwrap_err(), DecodeError::InvalidLength);
}

#[test]
fn unsigned_external_is_invalid() {
    let destination = address(3, 4);
    let message = external(destination, [9; 32], 0x02, b"");
    let frame = Frame {
        caller_kind: 1,
        source: AccountAddress { dapp_id: [0; 32], account_id: [0; 32] },
        pubkey: [9; 32],
        destination,
        mode: 0,
        extra: Vec::new(),
    };
    assert_eq!(decode_message_input(&acmi(&frame, &message)).unwrap_err(), DecodeError::InvalidValue);
}

#[test]
fn batch_messages_iterate_in_order() {
    let destination = address(3, 4);
    let first = internal(address(1, 1), destination, 0, b"a");
    let second = external(destination, [9; 32], 0x01, b"b");
    let frame_bytes = acbi(destination, &[first, second]);
    let input = decode_batch_input(&frame_bytes).unwrap();
    assert_eq!(input.message_count(), 2);
    assert_eq!(input.required_state_output_mode, StateOutputMode::DataPatchList);
    let mut iter = input.messages();
    assert_eq!(iter.size_hint(), (2, Some(2)));
    assert_eq!(iter.next().unwrap().unwrap().body(), b"a");
    assert_eq!(iter.size_hint(), (1, Some(1)));
    assert_eq!(iter.next().unwrap().unwrap().body(), b"b");
    assert!(iter.next().is_none());
    assert_eq!(iter.size_hint(), (0, Some(0)));
}

#[test]
fn batch_refuses_callback_requests() {
    let destination = address(3, 4);
    let message = internal(address(1, 1), destination, 0x04, b"");
    assert_eq!(decode_batch_input(&acbi(destination, &[message])).unwrap_err(), DecodeError::CallbackForbidden);
}

#[test]
fn batch_refuses_foreign_destination() {
    let destination = address(3, 4);
    let message = internal(address(1, 1), address(3, 3), 0, b"");
    assert_eq!(decode_batch_input(&acbi(destination, &[message])).unwrap_err(), DecodeError::DestinationMismatch);
}

#[test]
fn batch_first_offset_must_be_zero() {
    let destination = address(3, 4);
    let message = internal(address(1, 1), destination, 0, b"");
    let mut bytes = acbi(destination, &[message]);
    let offsets_at = 174 + 4 + 4;
    bytes[offsets_at] = 1;
    assert_eq!(decode_batch_input(&bytes).unwrap_err(), DecodeError::InvalidLength);
}

#[test]
fn batch_count_at_u32_max_overflows() {
    let destination = address(3, 4);
    let mut bytes = acbi(destination, &[]);
    let count_at = 174 + 4;
    bytes[count_at..count_at + 4].copy_from_slice(&u32::MAX.to_le_bytes());
    assert_eq!(decode_batch_input(&bytes).unwrap_err(), DecodeError::IntegerOverflow);
}

#[test]
fn event_reads_iterate_and_must_be_sorted() {
    let source = address(1, 2);
    let destination = address(3, 4);
    let mut message = internal(source, destination, 0x08, b"");
    let mut reads = Vec::new();
    reads.extend_from_slice(&2u16.to_le_bytes());
    reads.extend_from_slice(&0u16.to_le_bytes());
    for class in [5u64, 6u64] {
        reads.extend_from_slice(&[0x10; 32]);
        reads.extend_from_slice(&[0x11; 32]);
        reads.extend_from_slice(&class.to_le_bytes());
    }
    let tail = message.split_off(192);
    message.extend_from_slice(&reads);
    message.extend_from_slice(&tail);
    let frame_bytes = acmi(&internal_frame(source, destination), &message);
    let input = decode_message_input(&frame_bytes).unwrap();
    let event_reads = match input.message {
        CanonicalMessage::Internal(m) => m.event_reads.unwrap(),
        CanonicalMessage::External(_) => panic!("expected internal message"),
    };
    assert_eq!(event_reads.len(), 2);
    assert_eq!(event_reads.canonical_bytes(), &reads[..]);
    let mut iter = event_reads.iter();
    assert_eq!(iter.size_hint(), (2, Some(2)));
    assert_eq!(iter.next().unwrap().event_class, 5);
    assert_eq!(iter.size_hint(), (1, Some(1)));
    assert_eq!(iter.next().unwrap().event_class, 6);
    assert!(iter.next().is_none());
    assert_eq!(iter.size_hint(), (0, Some(0)));

    let mut unsorted = message.clone();
    unsorted[192 + 4 + 64] = 7;
    assert_eq!(
        decode_message_input(&acmi(&internal_frame(source, destination), &unsorted)).unwrap_err(),
        DecodeError::Unsorted
    );
}

#[test]
fn extra_currencies_iterate_with_exact_size() {
    let source = address(1, 2);
    let destination = address(3, 4);
    let mut frame = internal_frame(source, destination);
    frame.extra = vec![(2, 20), (7, 70), (9, 90)];
    let frame_bytes = acmi(&frame, &internal(source, destination, 0, b""));
    let input = decode_message_input(&frame_bytes).unwrap();
    assert_eq!(input.extra.len(), 3);
    let mut iter = input.extra.iter();
    assert_eq!(iter.size_hint(), (3, Some(3)));
    let first = iter.next().unwrap();
    assert_eq!((first.currency_id, first.amount), (2, 20));
    assert_eq!(iter.size_hint(), (2, Some(2)));
    assert_eq!(iter.next().unwrap().currency_id, 7);
    assert_eq!(iter.next().unwrap().amount, 90);
    assert!(iter.next().is_none());
    assert_eq!(iter.size_hint(), (0, Some(0)));
}

#[test]
fn batch_accessors_match_the_frame() {
    let destination = address(3, 4);
    let first = internal(address(1, 1), destination, 0, b"ab");
    let second = internal(address(1, 2), destination, 0, b"c");
    let frame_bytes = acbi(destination, &[first.clone(), second.clone()]);
    let input = decode_batch_input(&frame_bytes).unwrap();
    assert_eq!(input.destination(), destination);
    assert_eq!(input.destination(), input.destination);
    assert_eq!(input.context().block_lt, 1);
    assert_eq!(input.context().block_time, 2);
    assert_eq!(input.context().block_seq_no, 3);
    assert_eq!(input.selected_code_id(), [5; 32]);
    assert_eq!(input.required_state_output_mode(), StateOutputMode::DataPatchList);
    assert_eq!(input.balance_main(), 6);
    assert!(input.extra().is_empty());
    assert_eq!(input.state(), b"");
    assert_eq!(input.internal_event_results(), b"");
    let mut iter = input.messages();
    let a = iter.next().unwrap().unwrap();
    let b = iter.next().unwrap().unwrap();
    assert_eq!(a.canonical_bytes(), &first[..]);
    assert_eq!(b.canonical_bytes(), &second[..]);
    assert!(iter.next().is_none());
}

#[test]
fn batch_frame_is_exactly_its_sections() {
    let destination = address(3, 4);
    let first = internal(address(1, 1), destination, 0, b"abc");
    let second = internal(address(1, 2), destination, 0, b"");
    let frame_bytes = acbi(destination, &[first.clone(), second.clone()]);
    let input = decode_batch_input(&frame_bytes).unwrap();
    let n = input.message_count() as usize;
    let mut total = 0;
    let mut iter = input.messages();
    while let Some(message) = iter.next() {
        total += message.unwrap().canonical_bytes().len();
    }
    assert_eq!(total, first.len() + second.len());
    assert_eq!(
        frame_bytes.len(),
        186 + 20 * input.extra().len() + input.state().len() + 4 * (n + 1) + total
            + input.internal_event_results().len()
    );
    assert!(frame_bytes.ends_with(input.internal_event_results()));
}
