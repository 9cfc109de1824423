use avm_contract_sdk::{
    dispatch_batch, dispatch_init, dispatch_message, encode_batch_output, encode_message_output,
    AccountAddress, BatchContract, BatchInput, BatchOutput, Contract, GuestArena, MessageInput,
    MessageOutput, StateUpdate, CODE_UPGRADE_METHOD_ID,
};

const BASE: u32 = 0x1000;
const ARENA: usize = 4096;

type Entry = fn(&mut GuestArena<ARENA>, u32, u32, Option<u32>) -> u64;

/// Places `input` in a fresh arena as the host would, runs `entry` on it, and
/// reads back the output frame that its handle designates; the host then
/// frees the output and the input, newest first.
fn run(input: &[u8], entry: Entry) -> Option<Vec<u8>> {
    let mut arena = GuestArena::<ARENA>::new();
    let handle = arena.write_output(input, Some(BASE));
    assert_ne!(handle, 0);
    let (ptr, len) = ((handle >> 32) as u32, handle as u32);
    let output = entry(&mut arena, ptr, len, Some(BASE));
    if output == 0 {
        assert_eq!(arena.allocate(1, Some(BASE)), ptr + len);
        return None;
    }
    let (output_ptr, output_len) = ((output >> 32) as u32, output as u32);
    assert_eq!(output_ptr, ptr + len);
    let frame = arena.read(output_ptr, output_len, Some(BASE));
    assert!(arena.free(output_ptr, output_len, Some(BASE)));
    assert!(arena.free(ptr, len, Some(BASE)));
    frame
}

fn address(dapp: u8, account: u8) -> AccountAddress {
    AccountAddress { dapp_id: [dapp; 32], account_id: [account; 32] }
}

fn internal_message(flags: u8, method_id: u64, body: &[u8]) -> Vec<u8> {
    let source = address(0x20, 0x21);
    let destination = address(0x30, 0x31);
    let mut bytes = vec![0; 192];
    bytes[1] = flags;
    bytes[4..8].copy_from_slice(&(body.len() as u32).to_le_bytes());
    bytes[8..16].copy_from_slice(&method_id.to_le_bytes());
    bytes[64..96].copy_from_slice(&source.dapp_id);
    bytes[96..128].copy_from_slice(&source.account_id);
    bytes[128..160].copy_from_slice(&destination.dapp_id);
    bytes[160..192].copy_from_slice(&destination.account_id);
    if flags & 0x04 != 0 {
        bytes.extend_from_slice(&99u64.to_le_bytes());
    }
    bytes.extend_from_slice(body);
    bytes
}

fn message_input(message: &[u8]) -> Vec<u8> {
    let source = address(0x20, 0x21);
    let destination = address(0x30, 0x31);
    let mut bytes = Vec::new();
    bytes.extend_from_slice(b"ACMI");
    bytes.extend_from_slice(&1u64.to_le_bytes());
    bytes.extend_from_slice(&2u32.to_le_bytes());
    bytes.extend_from_slice(&3u32.to_le_bytes());
    bytes.extend_from_slice(&[0x12; 32]);
    bytes.push(0);
    bytes.extend_from_slice(&[0; 7]);
    bytes.extend_from_slice(&source.dapp_id);
    bytes.extend_from_slice(&source.account_id);
    bytes.extend_from_slice(&[0; 32]);
    bytes.extend_from_slice(&destination.dapp_id);
    bytes.extend_from_slice(&destination.account_id);
    bytes.extend_from_slice(&[0x44; 32]);
    bytes.push(0);
    bytes.extend_from_slice(&[0; 7]);
    bytes.extend_from_slice(&500u128.to_le_bytes());
    bytes.extend_from_slice(&0u16.to_le_bytes());
    bytes.extend_from_slice(&5u32.to_le_bytes());
    bytes.extend_from_slice(b"state");
    bytes.extend_from_slice(&(message.len() as u32).to_le_bytes());
    bytes.extend_from_slice(message);
    bytes.extend_from_slice(&0u32.to_le_bytes());
    bytes
}

fn batch_input(messages: &[Vec<u8>]) -> Vec<u8> {
    let destination = address(0x30, 0x31);
    let mut bytes = Vec::new();
    bytes.extend_from_slice(b"ACBI");
    bytes.extend_from_slice(&1u64.to_le_bytes());
    bytes.extend_from_slice(&2u32.to_le_bytes());
    bytes.extend_from_slice(&3u32.to_le_bytes());
    bytes.extend_from_slice(&[0x12; 32]);
    bytes.extend_from_slice(&destination.dapp_id);
    bytes.extend_from_slice(&destination.account_id);
    bytes.extend_from_slice(&[0x44; 32]);
    bytes.push(0);
    bytes.extend_from_slice(&[0; 7]);
    bytes.extend_from_slice(&500u128.to_le_bytes());
    bytes.extend_from_slice(&0u16.to_le_bytes());
    bytes.extend_from_slice(&3u32.to_le_bytes());
    bytes.extend_from_slice(b"old");
    bytes.extend_from_slice(&(messages.len() as u32).to_le_bytes());
    let mut offset = 0u32;
    bytes.extend_from_slice(&offset.to_le_bytes());
    for message in messages {
        offset += message.len() as u32;
        bytes.extend_from_slice(&offset.to_le_bytes());
    }
    for message in messages {
        bytes.extend_from_slice(message);
    }
    bytes.extend_from_slice(&0u32.to_le_bytes());
    bytes
}

/// Answers by method: 1 replaces the state with the body, 2 fails, 3 returns
/// a callback result, anything else succeeds without an upgrade.
struct Echo;

impl Contract for Echo {
    fn init(input: MessageInput<'_>) -> MessageOutput {
        MessageOutput::success(StateUpdate::FullReplace(input.message.body().to_vec()))
    }

    fn process_message(input: MessageInput<'_>) -> MessageOutput {
        match input.message.method_id() {
            1 => MessageOutput::success(StateUpdate::FullReplace(input.message.body().to_vec())),
            2 => MessageOutput::failure(1000),
            3 => {
                let mut output = MessageOutput::success(StateUpdate::FullReplace(Vec::new()));
                output.callback_result_body = b"reply".to_vec();
                output
            }
            _ => MessageOutput::success(StateUpdate::FullReplace(input.state.to_vec())),
        }
    }
}

impl BatchContract for Echo {
    fn process_batch(input: BatchInput<'_>) -> BatchOutput {
        let mut status_codes = Vec::new();
        let mut messages = input.messages();
        while let Some(message) = messages.next() {
            let method_id = message.expect("validated message").method_id();
            status_codes.push(if method_id == 2 { 1000 } else { 0 });
        }
        if input.state == b"old" && status_codes.len() == 3 {
            status_codes.pop();
        }
        BatchOutput {
            state_update: StateUpdate::FullReplace(b"new".to_vec()),
            status_codes,
            outbound_intents: Vec::new(),
            event_intents: Vec::new(),
        }
    }
}

#[test]
fn arena_refuses_empty_and_oversized_requests() {
    let mut arena = GuestArena::<64>::new();
    assert_eq!(arena.allocate(0, Some(BASE)), 0);
    assert_eq!(arena.allocate(65, Some(BASE)), 0);
    assert_eq!(arena.allocate(8, None), 0);
    assert_eq!(arena.allocate(8, Some(0)), 0);
    assert_eq!(arena.allocate(8, Some(u32::MAX)), u32::MAX);
    assert_eq!(arena.storage().len(), 64);
}

#[test]
fn arena_stacks_at_most_two_allocations() {
    let mut arena = GuestArena::<64>::new();
    assert_eq!(arena.allocate(8, Some(BASE)), BASE);
    assert_eq!(arena.allocate(16, Some(BASE)), BASE + 8);
    assert_eq!(arena.allocate(1, Some(BASE)), 0);
}

#[test]
fn arena_frees_last_in_first_out() {
    let mut arena = GuestArena::<64>::new();
    let input = arena.allocate(8, Some(BASE));
    let output = arena.allocate(4, Some(BASE));
    assert!(!arena.free(input, 8, Some(BASE)));
    assert!(!arena.free(output, 3, Some(BASE)));
    assert!(arena.free(output, 4, Some(BASE)));
    assert!(!arena.free(output, 4, Some(BASE)));
    assert!(arena.free(input, 8, Some(BASE)));
    assert!(!arena.free(input, 8, Some(BASE)));
    assert_eq!(arena.allocate(8, Some(BASE)), BASE);
}

#[test]
fn arena_allocate_then_free_restores_the_arena() {
    let mut arena = GuestArena::<32>::new();
    let first = arena.allocate(10, Some(BASE));
    let second = arena.allocate(5, Some(BASE));
    assert!(arena.free(second, 5, Some(BASE)));
    assert_eq!(arena.allocate(5, Some(BASE)), second);
    assert!(arena.free(second, 5, Some(BASE)));
    assert!(arena.free(first, 10, Some(BASE)));
    assert_eq!(arena.allocate(32, Some(BASE)), BASE);
}

#[test]
fn arena_reads_only_inside_the_used_part() {
    let mut arena = GuestArena::<16>::new();
    assert_eq!(arena.read(BASE, 0, Some(BASE)), Some(Vec::new()));
    assert_eq!(arena.read(BASE, 1, Some(BASE)), None);
    let ptr = arena.allocate(4, Some(BASE));
    assert_eq!(arena.read(ptr, 4, Some(BASE)), Some(vec![0, 0, 0, 0]));
    assert_eq!(arena.read(ptr, 5, Some(BASE)), None);
    assert_eq!(arena.read(BASE - 1, 1, Some(BASE)), None);
    assert_eq!(arena.read(BASE + 16, 0, Some(BASE)), None);
    assert_eq!(arena.read(ptr, 4, None), None);
}

#[test]
fn arena_write_output_reads_back_through_its_handle() {
    let mut arena = GuestArena::<32>::new();
    let input = arena.allocate(3, Some(BASE));
    assert_eq!(input, BASE);
    let handle = arena.write_output(b"hello", Some(BASE));
    let ptr = (handle >> 32) as u32;
    let len = handle as u32;
    assert_eq!(ptr, BASE + 3);
    assert_eq!(len, 5);
    assert_eq!(handle, (u64::from(BASE + 3) << 32) | 5);
    assert_eq!(arena.read(ptr, len, Some(BASE)), Some(b"hello".to_vec()));
    assert_eq!(&arena.storage()[3..8], b"hello");
    assert!(arena.free(ptr, len, Some(BASE)));
    assert!(arena.free(input, 3, Some(BASE)));
}

#[test]
fn arena_write_output_refuses_what_does_not_fit() {
    let mut arena = GuestArena::<8>::new();
    assert_eq!(arena.write_output(b"123456789", Some(BASE)), 0);
    assert_eq!(arena.write_output(b"", Some(BASE)), 0);
    assert_eq!(arena.write_output(b"1234", None), 0);
    assert_eq!(arena.storage(), &[0u8; 8]);
}

#[test]
fn dispatch_init_answers_a_deploy_message() {
    let input = message_input(&internal_message(0x02, 7, b"genesis"));
    let expected =
        encode_message_output(&MessageOutput::success(StateUpdate::FullReplace(b"genesis".to_vec())))
            .unwrap();
    assert_eq!(run(&input, dispatch_init::<Echo, ARENA>), Some(expected));
    assert_eq!(run(&input, dispatch_message::<Echo, ARENA>), None);
}

#[test]
fn dispatch_message_answers_an_ordinary_message() {
    let input = message_input(&internal_message(0, 1, b"next"));
    let expected =
        encode_message_output(&MessageOutput::success(StateUpdate::FullReplace(b"next".to_vec())))
            .unwrap();
    assert_eq!(run(&input, dispatch_message::<Echo, ARENA>), Some(expected));
    assert_eq!(run(&input, dispatch_init::<Echo, ARENA>), None);
}

#[test]
fn dispatch_message_encodes_a_failure() {
    let input = message_input(&internal_message(0, 2, b""));
    let expected = encode_message_output(&MessageOutput::failure(1000)).unwrap();
    assert_eq!(run(&input, dispatch_message::<Echo, ARENA>), Some(expected));
}

#[test]
fn dispatch_message_refuses_a_callback_result_without_request() {
    let without_request = message_input(&internal_message(0, 3, b""));
    assert_eq!(run(&without_request, dispatch_message::<Echo, ARENA>), None);
    let with_request = message_input(&internal_message(0x04, 3, b""));
    assert!(run(&with_request, dispatch_message::<Echo, ARENA>).is_some());
}

#[test]
fn dispatch_message_requires_an_upgrade_for_the_upgrade_method() {
    let input = message_input(&internal_message(0, CODE_UPGRADE_METHOD_ID, b""));
    assert_eq!(run(&input, dispatch_message::<Echo, ARENA>), None);
}

#[test]
fn dispatch_refuses_undecodable_input() {
    assert_eq!(run(b"ACMI", dispatch_init::<Echo, ARENA>), None);
    assert_eq!(run(b"ACMO", dispatch_message::<Echo, ARENA>), None);
    assert_eq!(run(b"ACBI", dispatch_batch::<Echo, ARENA>), None);
}

#[test]
fn dispatch_refuses_input_outside_the_used_arena() {
    let input = message_input(&internal_message(0, 1, b"next"));
    let mut arena = GuestArena::<ARENA>::new();
    let handle = arena.write_output(&input, Some(BASE));
    let (ptr, len) = ((handle >> 32) as u32, handle as u32);
    assert_eq!(dispatch_message::<Echo, ARENA>(&mut arena, ptr, len + 1, Some(BASE)), 0);
    assert_eq!(dispatch_message::<Echo, ARENA>(&mut arena, ptr, len, None), 0);
    assert_eq!(dispatch_message::<Echo, ARENA>(&mut arena, ptr + 1, len, Some(BASE)), 0);
    assert_ne!(dispatch_message::<Echo, ARENA>(&mut arena, ptr, len, Some(BASE)), 0);
}

#[test]
fn dispatch_batch_answers_one_status_per_message() {
    let input = batch_input(&[internal_message(0, 1, b"a"), internal_message(0, 2, b"b")]);
    let expected = encode_batch_output(&BatchOutput {
        state_update: StateUpdate::FullReplace(b"new".to_vec()),
        status_codes: vec![0, 1000],
        outbound_intents: Vec::new(),
        event_intents: Vec::new(),
    })
    .unwrap();
    assert_eq!(run(&input, dispatch_batch::<Echo, ARENA>), Some(expected));
}

#[test]
fn dispatch_batch_refuses_a_status_count_mismatch() {
    let input = batch_input(&[
        internal_message(0, 1, b"a"),
        internal_message(0, 1, b"b"),
        internal_message(0, 1, b"c"),
    ]);
    assert_eq!(run(&input, dispatch_batch::<Echo, ARENA>), None);
}

#[test]
fn default_arena_is_empty() {
    let mut arena: GuestArena<16> = Default::default();
    assert_eq!(arena.storage(), &[0u8; 16]);
    assert_eq!(arena.allocate(16, Some(BASE)), BASE);
}
