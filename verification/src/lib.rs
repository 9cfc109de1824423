//! Guest-side runtime and canonical byte codecs for AVM core-WASM contracts.
//!
//! The decoders turn the canonical ACMI/ACBI input frames into borrowed views,
//! the encoders produce the canonical ACMO/ACBO output frames, and the runtime
//! part holds the arena bookkeeping and the entrypoint decisions.
use vstd::prelude::*;

pub mod input;
pub mod output;
pub mod runtime;
pub mod wire;

pub use input::{
    decode_batch_input, decode_message_input, BatchInput, BatchMessageIter, CallbackHeader, Caller,
    CanonicalMessage, CurrencyAmountIter, CurrencyAmounts, DecodeError, ExternalMessage,
    InternalEventReadRequest, InternalEventReadRequestIter, InternalEventReadRequests,
    InternalMessage, MessageInput,
};
pub use output::{
    encode_batch_output, encode_event_fields, encode_message_output, BatchOutput, CallbackIntent,
    CodeUpgradeIntent, EncodeError, EventField, EventIntent, EventKind, EventValue, MessageOutput,
    OutboundIntent, StatePatch, StateUpdate,
};
pub use runtime::{dispatch_batch, dispatch_init, dispatch_message, GuestArena};

verus! {

/// Identifier of a DApp.
pub type DappId = [u8; 32];

/// A 32-byte account identifier inside a DApp.
pub type AccountId = [u8; 32];

/// Identifier of a selected code version.
pub type SelectedCodeId = [u8; 32];

/// Hash of a code image.
pub type CodeHash = [u8; 32];

/// An amount of value.
pub type AvmAmount = u128;

/// The VM-reserved method identifier for an account-local code upgrade.
pub const CODE_UPGRADE_METHOD_ID: u64 = 0xc2c6_c51b_c610_249d;

/// Default arena capacity used by the export entrypoints.
pub const DEFAULT_GUEST_ARENA_BYTES: usize = 8 * 1024 * 1024 + 16;

/// The address of an account: its DApp and its account identifier.
#[derive(Clone, Copy, Debug, Eq, PartialEq)]
pub struct AccountAddress {
    pub dapp_id: DappId,
    pub account_id: AccountId,
}

/// The mathematical value of an [`AccountAddress`].
pub struct AddressView {
    pub dapp_id: Seq<u8>,
    pub account_id: Seq<u8>,
}

impl View for AccountAddress {
    type V = AddressView;

    open spec fn view(&self) -> AddressView {
        AddressView { dapp_id: self.dapp_id@, account_id: self.account_id@ }
    }
}

/// An amount of one extra currency.
#[derive(Clone, Copy, Debug, Eq, PartialEq)]
pub struct CurrencyAmount {
    pub currency_id: u32,
    pub amount: AvmAmount,
}

/// The block context of an execution.
#[derive(Clone, Copy, Debug, Eq, PartialEq)]
pub struct ExecutionContext {
    pub block_lt: u64,
    pub block_time: u32,
    pub block_seq_no: u32,
    pub block_rand: [u8; 32],
}

/// The mathematical value of an [`ExecutionContext`].
pub struct ExecutionContextView {
    pub block_lt: u64,
    pub block_time: u32,
    pub block_seq_no: u32,
    pub block_rand: Seq<u8>,
}

impl View for ExecutionContext {
    type V = ExecutionContextView;

    open spec fn view(&self) -> ExecutionContextView {
        ExecutionContextView {
            block_lt: self.block_lt,
            block_time: self.block_time,
            block_seq_no: self.block_seq_no,
            block_rand: self.block_rand@,
        }
    }
}

/// How a contract must report its new state.
#[derive(Clone, Copy, Debug, Eq, PartialEq, Structural)]
pub enum StateOutputMode {
    FullReplace,
    DataPatchList,
}

/// The wire byte of a [`StateOutputMode`].
pub open spec fn state_output_mode_byte(mode: StateOutputMode) -> u8 {
    match mode {
        StateOutputMode::FullReplace => 0,
        StateOutputMode::DataPatchList => 1,
    }
}

/// High-level contract entrypoints.
pub trait Contract {
    /// Answers the deploy message that creates the account.
    fn init(input: input::MessageInput<'_>) -> output::MessageOutput
        requires
            input@.message.is_deploy(),
    ;

    /// Answers a message that is not a deploy.
    fn process_message(input: input::MessageInput<'_>) -> output::MessageOutput
        requires
            !input@.message.is_deploy(),
    ;
}

/// AccountBatch fast path.
pub trait BatchContract: Contract {
    fn process_batch(input: input::BatchInput<'_>) -> output::BatchOutput;
}

} // verus!
