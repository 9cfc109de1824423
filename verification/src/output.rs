//! Encoding of the canonical ACMO and ACBO output frames and of event field
//! lists.
//!
//! Each encoder first validates its input against the rules of the frame,
//! then writes the frame. The spec functions below state, for every input,
//! either the frame's bytes or the first rule that the input breaks.
use crate::input::{
    is_zero_address_spec, BatchInput, MessageInput, MessageInputView,
};
use crate::wire::{
    append_bytes, bytes_less, bytes_lt, concat_map, lemma_concat_map_take, le_u16,
};
use crate::{
    state_output_mode_byte, AccountAddress, AddressView, AvmAmount, CodeHash, CurrencyAmount,
    SelectedCodeId, StateOutputMode, CODE_UPGRADE_METHOD_ID,
};
use vstd::bytes::{
    spec_u128_to_le_bytes, spec_u16_to_le_bytes, spec_u32_to_le_bytes, spec_u64_to_le_bytes,
    u128_to_le_bytes, u16_to_le_bytes, u32_to_le_bytes, u64_to_le_bytes,
};
use vstd::prelude::*;

verus! {

broadcast use vstd::slice::group_slice_axioms;

/// Why an output could not be encoded.
#[derive(Clone, Copy, Debug, Eq, PartialEq, Structural)]
pub enum EncodeError {
    LengthOverflow,
    InvalidStatusCode,
    MissingStateUpdate,
    EffectsOnFailure,
    StateModeMismatch,
    InvalidExtraCurrencies,
    InvalidPatchOrder,
    InvalidIndex,
    InvalidCallback,
    InvalidEvent,
    UpgradeForbidden,
    UpgradeRequired,
}

/// Flag of an ACMO frame: a state update follows.
pub const FLAG_HAS_STATE_UPDATE: u8 = 1;

/// Flag of an ACMO frame: a code-upgrade intent ends the frame.
pub const FLAG_HAS_UPGRADE_INTENT: u8 = 2;

// ---------------------------------------------------------------------------
// Output types and their views
// ---------------------------------------------------------------------------
/// A replacement of `old_len` bytes at `offset` of the state by `new_bytes`.
#[derive(Clone, Debug, Eq, PartialEq)]
pub struct StatePatch {
    pub offset: u32,
    pub old_len: u32,
    pub new_bytes: Vec<u8>,
}

/// The mathematical value of a [`StatePatch`].
pub struct StatePatchView {
    pub offset: u32,
    pub old_len: u32,
    pub new_bytes: Seq<u8>,
}

impl View for StatePatch {
    type V = StatePatchView;

    open spec fn view(&self) -> StatePatchView {
        StatePatchView { offset: self.offset, old_len: self.old_len, new_bytes: self.new_bytes@ }
    }
}

/// The new state of the account.
#[derive(Clone, Debug, Eq, PartialEq)]
pub enum StateUpdate {
    FullReplace(Vec<u8>),
    DataPatchList(Vec<StatePatch>),
}

/// The mathematical value of a [`StateUpdate`].
pub enum StateUpdateView {
    FullReplace(Seq<u8>),
    DataPatchList(Seq<StatePatchView>),
}

impl View for StateUpdate {
    type V = StateUpdateView;

    open spec fn view(&self) -> StateUpdateView {
        match self {
            StateUpdate::FullReplace(s) => StateUpdateView::FullReplace(s@),
            StateUpdate::DataPatchList(p) => StateUpdateView::DataPatchList(
                p@.map_values(|x: StatePatch| x@),
            ),
        }
    }
}

impl StateUpdateView {
    /// The mode this update reports the state in.
    pub open spec fn mode(self) -> StateOutputMode {
        match self {
            StateUpdateView::FullReplace(_) => StateOutputMode::FullReplace,
            StateUpdateView::DataPatchList(_) => StateOutputMode::DataPatchList,
        }
    }
}

impl StateUpdate {
    /// The mode this update reports the state in.
    pub fn mode(&self) -> (r: StateOutputMode)
        ensures
            r == self@.mode(),
    {
        match self {
            StateUpdate::FullReplace(_) => StateOutputMode::FullReplace,
            StateUpdate::DataPatchList(_) => StateOutputMode::DataPatchList,
        }
    }
}

/// An outbound internal message the contract asks for.
#[derive(Clone, Debug, Eq, PartialEq)]
pub struct OutboundIntent {
    pub input_index: u32,
    pub destination: AccountAddress,
    pub value_main: AvmAmount,
    pub fuel_fee_shells: AvmAmount,
    pub extra: Vec<CurrencyAmount>,
    pub method_id: u64,
    pub body: Vec<u8>,
}

/// The mathematical value of an [`OutboundIntent`].
pub struct OutboundIntentView {
    pub input_index: u32,
    pub destination: AddressView,
    pub value_main: u128,
    pub fuel_fee_shells: u128,
    pub extra: Seq<CurrencyAmount>,
    pub method_id: u64,
    pub body: Seq<u8>,
}

impl View for OutboundIntent {
    type V = OutboundIntentView;

    open spec fn view(&self) -> OutboundIntentView {
        OutboundIntentView {
            input_index: self.input_index,
            destination: self.destination@,
            value_main: self.value_main,
            fuel_fee_shells: self.fuel_fee_shells,
            extra: self.extra@,
            method_id: self.method_id,
            body: self.body@,
        }
    }
}

/// A callback requested for outbound intent `outbound_index`.
#[derive(Clone, Copy, Debug, Eq, PartialEq)]
pub struct CallbackIntent {
    pub outbound_index: u32,
    pub handler_method_id: u64,
}

/// Who may read an event.
#[derive(Clone, Copy, Debug, Eq, PartialEq, Structural)]
pub enum EventKind {
    External,
    Internal,
}

/// The wire byte of an [`EventKind`].
pub open spec fn event_kind_byte(kind: EventKind) -> u8 {
    match kind {
        EventKind::External => 0,
        EventKind::Internal => 1,
    }
}

/// An event the contract emits.
#[derive(Clone, Debug, Eq, PartialEq)]
pub struct EventIntent {
    pub input_index: u32,
    pub kind: EventKind,
    pub event_class: u64,
    pub event_name: String,
    pub topics: Vec<Vec<u8>>,
    pub fields_binary: Vec<u8>,
}

/// The mathematical value of an [`EventIntent`]; the name is taken by its
/// UTF-8 bytes.
pub struct EventIntentView {
    pub input_index: u32,
    pub kind: EventKind,
    pub event_class: u64,
    pub event_name: Seq<u8>,
    pub topics: Seq<Seq<u8>>,
    pub fields_binary: Seq<u8>,
}

impl View for EventIntent {
    type V = EventIntentView;

    open spec fn view(&self) -> EventIntentView {
        EventIntentView {
            input_index: self.input_index,
            kind: self.kind,
            event_class: self.event_class,
            event_name: vstd::utf8::encode_utf8(self.event_name@),
            topics: self.topics@.map_values(|t: Vec<u8>| t@),
            fields_binary: self.fields_binary@,
        }
    }
}

/// A request to upgrade the account's code.
#[derive(Clone, Debug, Eq, PartialEq)]
pub struct CodeUpgradeIntent {
    pub target_selected_code_id: SelectedCodeId,
    pub expected_code_hash: CodeHash,
}

/// The mathematical value of a [`CodeUpgradeIntent`].
pub struct CodeUpgradeIntentView {
    pub target_selected_code_id: Seq<u8>,
    pub expected_code_hash: Seq<u8>,
}

impl View for CodeUpgradeIntent {
    type V = CodeUpgradeIntentView;

    open spec fn view(&self) -> CodeUpgradeIntentView {
        CodeUpgradeIntentView {
            target_selected_code_id: self.target_selected_code_id@,
            expected_code_hash: self.expected_code_hash@,
        }
    }
}

/// The result of one message execution.
#[derive(Clone, Debug, Eq, PartialEq)]
pub struct MessageOutput {
    pub status_code: u32,
    pub state_update: Option<StateUpdate>,
    pub callback_result_body: Vec<u8>,
    pub outbound_intents: Vec<OutboundIntent>,
    pub callback_intents: Vec<CallbackIntent>,
    pub event_intents: Vec<EventIntent>,
    pub code_upgrade_intent: Option<CodeUpgradeIntent>,
}

/// The mathematical value of a [`MessageOutput`].
pub struct MessageOutputView {
    pub status_code: u32,
    pub state_update: Option<StateUpdateView>,
    pub callback_result_body: Seq<u8>,
    pub outbound_intents: Seq<OutboundIntentView>,
    pub callback_intents: Seq<CallbackIntent>,
    pub event_intents: Seq<EventIntentView>,
    pub code_upgrade_intent: Option<CodeUpgradeIntentView>,
}

impl View for MessageOutput {
    type V = MessageOutputView;

    open spec fn view(&self) -> MessageOutputView {
        MessageOutputView {
            status_code: self.status_code,
            state_update: match self.state_update {
                Some(u) => Some(u@),
                None => None,
            },
            callback_result_body: self.callback_result_body@,
            outbound_intents: self.outbound_intents@.map_values(|o: OutboundIntent| o@),
            callback_intents: self.callback_intents@,
            event_intents: self.event_intents@.map_values(|e: EventIntent| e@),
            code_upgrade_intent: match self.code_upgrade_intent {
                Some(c) => Some(c@),
                None => None,
            },
        }
    }
}

/// The result of an account-batch execution.
#[derive(Clone, Debug, Eq, PartialEq)]
pub struct BatchOutput {
    pub state_update: StateUpdate,
    pub status_codes: Vec<u32>,
    pub outbound_intents: Vec<OutboundIntent>,
    pub event_intents: Vec<EventIntent>,
}

/// The mathematical value of a [`BatchOutput`].
pub struct BatchOutputView {
    pub state_update: StateUpdateView,
    pub status_codes: Seq<u32>,
    pub outbound_intents: Seq<OutboundIntentView>,
    pub event_intents: Seq<EventIntentView>,
}

impl View for BatchOutput {
    type V = BatchOutputView;

    open spec fn view(&self) -> BatchOutputView {
        BatchOutputView {
            state_update: self.state_update@,
            status_codes: self.status_codes@,
            outbound_intents: self.outbound_intents@.map_values(|o: OutboundIntent| o@),
            event_intents: self.event_intents@.map_values(|e: EventIntent| e@),
        }
    }
}

/// One named field of an event.
#[derive(Clone, Debug, Eq, PartialEq)]
pub struct EventField {
    pub name: String,
    pub value: EventValue,
}

/// The value of an event field.
#[derive(Clone, Debug, Eq, PartialEq)]
pub enum EventValue {
    Null,
    Bool(bool),
    U64(u64),
    I64(i64),
    U128(u128),
    I128(i128),
    Text(String),
    Data(Vec<u8>),
    Address(AccountAddress),
}

/// The mathematical value of an [`EventValue`]; a text is taken by its UTF-8
/// bytes.
pub enum EventValueView {
    Null,
    Bool(bool),
    U64(u64),
    I64(i64),
    U128(u128),
    I128(i128),
    Text(Seq<u8>),
    Data(Seq<u8>),
    Address(AddressView),
}

impl View for EventValue {
    type V = EventValueView;

    open spec fn view(&self) -> EventValueView {
        match self {
            EventValue::Null => EventValueView::Null,
            EventValue::Bool(b) => EventValueView::Bool(*b),
            EventValue::U64(v) => EventValueView::U64(*v),
            EventValue::I64(v) => EventValueView::I64(*v),
            EventValue::U128(v) => EventValueView::U128(*v),
            EventValue::I128(v) => EventValueView::I128(*v),
            EventValue::Text(t) => EventValueView::Text(vstd::utf8::encode_utf8(t@)),
            EventValue::Data(d) => EventValueView::Data(d@),
            EventValue::Address(a) => EventValueView::Address(a@),
        }
    }
}

/// The mathematical value of an [`EventField`]; the name is taken by its
/// UTF-8 bytes.
pub struct EventFieldView {
    pub name: Seq<u8>,
    pub value: EventValueView,
}

impl View for EventField {
    type V = EventFieldView;

    open spec fn view(&self) -> EventFieldView {
        EventFieldView { name: vstd::utf8::encode_utf8(self.name@), value: self.value@ }
    }
}

/// A successful output that only updates the state.
pub open spec fn success_output(u: StateUpdateView) -> MessageOutputView {
    MessageOutputView {
        status_code: 0,
        state_update: Some(u),
        callback_result_body: Seq::empty(),
        outbound_intents: Seq::empty(),
        callback_intents: Seq::empty(),
        event_intents: Seq::empty(),
        code_upgrade_intent: None,
    }
}

/// A failed output with no effect.
pub open spec fn failure_output(status_code: u32) -> MessageOutputView {
    MessageOutputView {
        status_code,
        state_update: None,
        callback_result_body: Seq::empty(),
        outbound_intents: Seq::empty(),
        callback_intents: Seq::empty(),
        event_intents: Seq::empty(),
        code_upgrade_intent: None,
    }
}

impl MessageOutput {
    /// A successful result that only updates the state.
    pub fn success(state_update: StateUpdate) -> (r: Self)
        ensures
            r@ == success_output(state_update@),
    {
        let r = MessageOutput {
            status_code: 0,
            state_update: Some(state_update),
            callback_result_body: Vec::new(),
            outbound_intents: Vec::new(),
            callback_intents: Vec::new(),
            event_intents: Vec::new(),
            code_upgrade_intent: None,
        };
        assert(r@.outbound_intents =~= Seq::empty());
        assert(r@.event_intents =~= Seq::empty());
        r
    }

    /// A failed result with the given status code and no effect.
    pub fn failure(status_code: u32) -> (r: Self)
        ensures
            r@ == failure_output(status_code),
            message_output_spec(r@, None) == failure_encoding(status_code),
    {
        proof {
            lemma_failure_output_encoding(status_code, None);
        }
        let r = MessageOutput {
            status_code,
            state_update: None,
            callback_result_body: Vec::new(),
            outbound_intents: Vec::new(),
            callback_intents: Vec::new(),
            event_intents: Vec::new(),
            code_upgrade_intent: None,
        };
        assert(r@.outbound_intents =~= Seq::empty());
        assert(r@.event_intents =~= Seq::empty());
        r
    }
}

} // verus!

verus! {

// ---------------------------------------------------------------------------
// Frame layout
// ---------------------------------------------------------------------------
/// Little-endian bytes of a `u16`.
pub open spec fn le16(x: u16) -> Seq<u8> {
    spec_u16_to_le_bytes(x)
}

/// Little-endian bytes of a `u32`.
pub open spec fn le32(x: u32) -> Seq<u8> {
    spec_u32_to_le_bytes(x)
}

/// Little-endian bytes of a `u64`.
pub open spec fn le64(x: u64) -> Seq<u8> {
    spec_u64_to_le_bytes(x)
}

/// Little-endian bytes of a `u128`.
pub open spec fn le128(x: u128) -> Seq<u8> {
    spec_u128_to_le_bytes(x)
}

/// A patch: offset, old length, new length, new bytes.
pub open spec fn patch_bytes(p: StatePatchView) -> Seq<u8> {
    le32(p.offset) + le32(p.old_len) + le32(p.new_bytes.len() as u32) + p.new_bytes
}

pub open spec fn patch_encoder() -> spec_fn(StatePatchView) -> Seq<u8> {
    |p: StatePatchView| patch_bytes(p)
}

/// Every length of a state update fits its length field.
pub open spec fn state_update_fits(u: StateUpdateView) -> bool {
    match u {
        StateUpdateView::FullReplace(s) => s.len() <= u32::MAX,
        StateUpdateView::DataPatchList(ps) => ps.len() <= u16::MAX && forall|i: int|
            0 <= i < ps.len() ==> #[trigger] ps[i].new_bytes.len() <= u32::MAX,
    }
}

/// A state update: mode byte, three zero bytes, then the length-prefixed
/// state or the count-prefixed patch list.
pub open spec fn state_update_bytes(u: StateUpdateView) -> Seq<u8> {
    seq![state_output_mode_byte(u.mode()), 0u8, 0u8, 0u8] + match u {
        StateUpdateView::FullReplace(s) => le32(s.len() as u32) + s,
        StateUpdateView::DataPatchList(ps) => le16(ps.len() as u16) + le16(0) + concat_map(
            ps,
            patch_encoder(),
        ),
    }
}

/// An extra-currency record: currency id, amount.
pub open spec fn currency_bytes(a: CurrencyAmount) -> Seq<u8> {
    le32(a.currency_id) + le128(a.amount)
}

pub open spec fn currency_encoder() -> spec_fn(CurrencyAmount) -> Seq<u8> {
    |a: CurrencyAmount| currency_bytes(a)
}

/// Every length of an outbound intent fits its length field.
pub open spec fn outbound_fits(o: OutboundIntentView) -> bool {
    o.extra.len() <= u16::MAX && o.body.len() <= u32::MAX
}

/// An outbound intent.
pub open spec fn outbound_bytes(o: OutboundIntentView) -> Seq<u8> {
    le32(o.input_index) + o.destination.dapp_id + o.destination.account_id + le128(o.value_main)
        + le128(o.fuel_fee_shells) + le16(o.extra.len() as u16) + concat_map(
        o.extra,
        currency_encoder(),
    ) + le64(o.method_id) + le32(o.body.len() as u32) + o.body
}

pub open spec fn outbound_encoder() -> spec_fn(OutboundIntentView) -> Seq<u8> {
    |o: OutboundIntentView| outbound_bytes(o)
}

/// Every length of an outbound list fits its length field.
pub open spec fn outbounds_fit(s: Seq<OutboundIntentView>) -> bool {
    s.len() <= u32::MAX && forall|i: int| 0 <= i < s.len() ==> #[trigger] outbound_fits(s[i])
}

/// A count-prefixed outbound list.
pub open spec fn outbound_list_bytes(s: Seq<OutboundIntentView>) -> Seq<u8> {
    le32(s.len() as u32) + concat_map(s, outbound_encoder())
}

/// A length-prefixed topic.
pub open spec fn topic_bytes(t: Seq<u8>) -> Seq<u8> {
    le16(t.len() as u16) + t
}

pub open spec fn topic_encoder() -> spec_fn(Seq<u8>) -> Seq<u8> {
    |t: Seq<u8>| topic_bytes(t)
}

/// Every length of an event intent fits its length field.
pub open spec fn event_fits(e: EventIntentView) -> bool {
    &&& e.event_name.len() <= u16::MAX
    &&& e.topics.len() <= u16::MAX
    &&& forall|i: int| 0 <= i < e.topics.len() ==> #[trigger] e.topics[i].len() <= u16::MAX
    &&& e.fields_binary.len() <= u32::MAX
}

/// An event intent.
pub open spec fn event_bytes(e: EventIntentView) -> Seq<u8> {
    le32(e.input_index) + seq![event_kind_byte(e.kind)] + le64(e.event_class) + le16(
        e.event_name.len() as u16,
    ) + e.event_name + le16(e.topics.len() as u16) + concat_map(e.topics, topic_encoder()) + le32(
        e.fields_binary.len() as u32,
    ) + e.fields_binary
}

pub open spec fn event_encoder() -> spec_fn(EventIntentView) -> Seq<u8> {
    |e: EventIntentView| event_bytes(e)
}

/// Every length of an event list fits its length field.
pub open spec fn events_fit(s: Seq<EventIntentView>) -> bool {
    s.len() <= u32::MAX && forall|i: int| 0 <= i < s.len() ==> #[trigger] event_fits(s[i])
}

/// A count-prefixed event list.
pub open spec fn event_list_bytes(s: Seq<EventIntentView>) -> Seq<u8> {
    le32(s.len() as u32) + concat_map(s, event_encoder())
}

/// A callback intent.
pub open spec fn callback_bytes(c: CallbackIntent) -> Seq<u8> {
    le32(c.outbound_index) + le64(c.handler_method_id)
}

pub open spec fn callback_encoder() -> spec_fn(CallbackIntent) -> Seq<u8> {
    |c: CallbackIntent| callback_bytes(c)
}

pub open spec fn status_encoder() -> spec_fn(u32) -> Seq<u8> {
    |c: u32| le32(c)
}

/// The magic of an ACMO frame.
pub open spec fn acmo_magic() -> Seq<u8> {
    seq![0x41u8, 0x43u8, 0x4du8, 0x4fu8]
}

/// The magic of an ACBO frame.
pub open spec fn acbo_magic() -> Seq<u8> {
    seq![0x41u8, 0x43u8, 0x42u8, 0x4fu8]
}

/// The flag byte of an ACMO frame.
pub open spec fn message_output_flags(o: MessageOutputView) -> u8 {
    ((if o.state_update is Some {
        FLAG_HAS_STATE_UPDATE
    } else {
        0
    }) + (if o.code_upgrade_intent is Some {
        FLAG_HAS_UPGRADE_INTENT
    } else {
        0
    })) as u8
}

/// Every length of a message output fits its length field.
pub open spec fn message_output_fits(o: MessageOutputView) -> bool {
    &&& (o.state_update matches Some(u) ==> state_update_fits(u))
    &&& o.callback_result_body.len() <= u32::MAX
    &&& outbounds_fit(o.outbound_intents)
    &&& o.callback_intents.len() <= u32::MAX
    &&& events_fit(o.event_intents)
}

/// An ACMO frame: magic, status code, flags, the state update if any, the
/// callback result body, outbound intents, callback intents, event intents,
/// and the code-upgrade intent if any.
pub open spec fn message_output_bytes(o: MessageOutputView) -> Seq<u8> {
    acmo_magic() + le32(o.status_code) + seq![message_output_flags(o)] + match o.state_update {
        Some(u) => state_update_bytes(u),
        None => Seq::empty(),
    } + le32(o.callback_result_body.len() as u32) + o.callback_result_body + outbound_list_bytes(
        o.outbound_intents,
    ) + le32(o.callback_intents.len() as u32) + concat_map(o.callback_intents, callback_encoder())
        + event_list_bytes(o.event_intents) + match o.code_upgrade_intent {
        Some(c) => c.target_selected_code_id + c.expected_code_hash,
        None => Seq::empty(),
    }
}

/// Every length of a batch output fits its length field.
pub open spec fn batch_output_fits(o: BatchOutputView) -> bool {
    &&& state_update_fits(o.state_update)
    &&& o.status_codes.len() <= u32::MAX
    &&& outbounds_fit(o.outbound_intents)
    &&& events_fit(o.event_intents)
}

/// An ACBO frame: magic, state update, status codes, outbound intents and
/// event intents.
pub open spec fn batch_output_bytes(o: BatchOutputView) -> Seq<u8> {
    acbo_magic() + state_update_bytes(o.state_update) + le32(o.status_codes.len() as u32)
        + concat_map(o.status_codes, status_encoder()) + outbound_list_bytes(o.outbound_intents)
        + event_list_bytes(o.event_intents)
}

// ---------------------------------------------------------------------------
// Writing
// ---------------------------------------------------------------------------
fn push_u16(bytes: &mut Vec<u8>, value: u16)
    ensures
        final(bytes)@ == old(bytes)@ + le16(value),
{
    let b = u16_to_le_bytes(value);
    append_bytes(bytes, b.as_slice());
}

fn push_u32(bytes: &mut Vec<u8>, value: u32)
    ensures
        final(bytes)@ == old(bytes)@ + le32(value),
{
    let b = u32_to_le_bytes(value);
    append_bytes(bytes, b.as_slice());
}

fn push_u64(bytes: &mut Vec<u8>, value: u64)
    ensures
        final(bytes)@ == old(bytes)@ + le64(value),
{
    let b = u64_to_le_bytes(value);
    append_bytes(bytes, b.as_slice());
}

fn push_u128(bytes: &mut Vec<u8>, value: u128)
    ensures
        final(bytes)@ == old(bytes)@ + le128(value),
{
    let b = u128_to_le_bytes(value);
    append_bytes(bytes, b.as_slice());
}

/// A length as a `u16`, if it fits.
fn len_u16(length: usize) -> (r: Result<u16, EncodeError>)
    ensures
        length <= u16::MAX ==> r == Ok::<u16, EncodeError>(length as u16),
        length > u16::MAX ==> r == Err::<u16, EncodeError>(EncodeError::LengthOverflow),
{
    if length > 0xffff {
        Err(EncodeError::LengthOverflow)
    } else {
        Ok(length as u16)
    }
}

/// A length as a `u32`, if it fits.
fn len_u32(length: usize) -> (r: Result<u32, EncodeError>)
    ensures
        length <= u32::MAX ==> r == Ok::<u32, EncodeError>(length as u32),
        length > u32::MAX ==> r == Err::<u32, EncodeError>(EncodeError::LengthOverflow),
{
    if length > 0xffff_ffff {
        Err(EncodeError::LengthOverflow)
    } else {
        Ok(length as u32)
    }
}

/// Appends the length-prefixed `value`.
fn push_length_prefixed_u32(bytes: &mut Vec<u8>, value: &[u8]) -> (r: Result<(), EncodeError>)
    ensures
        value@.len() <= u32::MAX ==> r is Ok && final(bytes)@ == old(bytes)@ + le32(
            value@.len() as u32,
        ) + value@,
        value@.len() > u32::MAX ==> r == Err::<(), EncodeError>(EncodeError::LengthOverflow),
{
    let length = len_u32(value.len())?;
    push_u32(bytes, length);
    append_bytes(bytes, value);
    Ok(())
}

/// The wire byte of a state output mode.
fn mode_byte(mode: StateOutputMode) -> (r: u8)
    ensures
        r == state_output_mode_byte(mode),
{
    match mode {
        StateOutputMode::FullReplace => 0,
        StateOutputMode::DataPatchList => 1,
    }
}

/// Appends a state update.
fn encode_state_update(bytes: &mut Vec<u8>, update: &StateUpdate) -> (r: Result<(), EncodeError>)
    ensures
        state_update_fits(update@) ==> r is Ok && final(bytes)@ == old(bytes)@
            + state_update_bytes(update@),
        !state_update_fits(update@) ==> r == Err::<(), EncodeError>(EncodeError::LengthOverflow),
{
    let ghost start = bytes@;
    bytes.push(mode_byte(update.mode()));
    bytes.push(0);
    bytes.push(0);
    bytes.push(0);
    let ghost header = seq![state_output_mode_byte(update@.mode()), 0u8, 0u8, 0u8];
    assert(bytes@ =~= start + header);
    match update {
        StateUpdate::FullReplace(state) => {
            push_length_prefixed_u32(bytes, state.as_slice())?;
            assert(bytes@ =~= start + state_update_bytes(update@));
            Ok(())
        },
        StateUpdate::DataPatchList(patches) => {
            let ghost views = patches@.map_values(|x: StatePatch| x@);
            assert(update@ == StateUpdateView::DataPatchList(views));
            let count = len_u16(patches.len())?;
            push_u16(bytes, count);
            push_u16(bytes, 0);
            let ghost prefix = bytes@;
            let mut i: usize = 0;
            while i < patches.len()
                invariant
                    i <= patches@.len(),
                    views == patches@.map_values(|x: StatePatch| x@),
                    update@ == StateUpdateView::DataPatchList(views),
                    bytes@ == prefix + concat_map(views.take(i as int), patch_encoder()),
                    forall|j: int| 0 <= j < i ==> #[trigger] views[j].new_bytes.len() <= u32::MAX,
                decreases patches@.len() - i,
            {
                let patch = &patches[i];
                assert(views[i as int] == patch@);
                push_u32(bytes, patch.offset);
                push_u32(bytes, patch.old_len);
                let length = match len_u32(patch.new_bytes.len()) {
                    Ok(length) => length,
                    Err(e) => {
                        assert(views[i as int].new_bytes.len() > u32::MAX);
                        return Err(e);
                    },
                };
                push_u32(bytes, length);
                append_bytes(bytes, patch.new_bytes.as_slice());
                proof {
                    lemma_concat_map_take(views, patch_encoder(), i as int);
                    assert(views[i as int] == patch@);
                    assert(bytes@ =~= prefix + concat_map(views.take(i + 1), patch_encoder()));
                }
                i += 1;
            }
            assert(views.take(views.len() as int) =~= views);
            assert(bytes@ =~= start + state_update_bytes(update@));
            Ok(())
        },
    }
}

} // verus!

verus! {

/// Appends the count-prefixed extra-currency records.
fn encode_extra(bytes: &mut Vec<u8>, extra: &Vec<CurrencyAmount>) -> (r: Result<(), EncodeError>)
    ensures
        extra@.len() <= u16::MAX ==> r is Ok && final(bytes)@ == old(bytes)@ + le16(
            extra@.len() as u16,
        ) + concat_map(extra@, currency_encoder()),
        extra@.len() > u16::MAX ==> r == Err::<(), EncodeError>(EncodeError::LengthOverflow),
{
    let count = len_u16(extra.len())?;
    push_u16(bytes, count);
    let ghost prefix = bytes@;
    let mut i: usize = 0;
    while i < extra.len()
        invariant
            i <= extra@.len(),
            bytes@ == prefix + concat_map(extra@.take(i as int), currency_encoder()),
        decreases extra@.len() - i,
    {
        let amount = extra[i];
        push_u32(bytes, amount.currency_id);
        push_u128(bytes, amount.amount);
        proof {
            lemma_concat_map_take(extra@, currency_encoder(), i as int);
            assert(bytes@ =~= prefix + concat_map(extra@.take(i + 1), currency_encoder()));
        }
        i += 1;
    }
    assert(extra@.take(extra@.len() as int) =~= extra@);
    Ok(())
}

/// Appends one outbound intent.
fn encode_outbound_intent(bytes: &mut Vec<u8>, intent: &OutboundIntent) -> (r: Result<
    (),
    EncodeError,
>)
    ensures
        outbound_fits(intent@) ==> r is Ok && final(bytes)@ == old(bytes)@ + outbound_bytes(
            intent@,
        ),
        !outbound_fits(intent@) ==> r == Err::<(), EncodeError>(EncodeError::LengthOverflow),
{
    let ghost start = bytes@;
    push_u32(bytes, intent.input_index);
    append_bytes(bytes, &intent.destination.dapp_id);
    append_bytes(bytes, &intent.destination.account_id);
    push_u128(bytes, intent.value_main);
    push_u128(bytes, intent.fuel_fee_shells);
    encode_extra(bytes, &intent.extra)?;
    push_u64(bytes, intent.method_id);
    push_length_prefixed_u32(bytes, intent.body.as_slice())?;
    assert(bytes@ =~= start + outbound_bytes(intent@));
    Ok(())
}

/// Appends the count-prefixed outbound intents.
fn encode_outbound_intents(bytes: &mut Vec<u8>, intents: &Vec<OutboundIntent>) -> (r: Result<
    (),
    EncodeError,
>)
    ensures
        ({
            let v = intents@.map_values(|o: OutboundIntent| o@);
            &&& outbounds_fit(v) ==> r is Ok && final(bytes)@ == old(bytes)@ + outbound_list_bytes(
                v,
            )
            &&& !outbounds_fit(v) ==> r == Err::<(), EncodeError>(EncodeError::LengthOverflow)
        }),
{
    let ghost views = intents@.map_values(|o: OutboundIntent| o@);
    let ghost start = bytes@;
    let count = len_u32(intents.len())?;
    push_u32(bytes, count);
    let ghost prefix = bytes@;
    let mut i: usize = 0;
    while i < intents.len()
        invariant
            i <= intents@.len(),
            views == intents@.map_values(|o: OutboundIntent| o@),
            bytes@ == prefix + concat_map(views.take(i as int), outbound_encoder()),
            forall|j: int| 0 <= j < i ==> #[trigger] outbound_fits(views[j]),
        decreases intents@.len() - i,
    {
        assert(views[i as int] == intents[i as int]@);
        match encode_outbound_intent(bytes, &intents[i]) {
            Ok(()) => {},
            Err(e) => {
                assert(!outbound_fits(views[i as int]));
                return Err(e);
            },
        }
        proof {
            lemma_concat_map_take(views, outbound_encoder(), i as int);
            assert(bytes@ =~= prefix + concat_map(views.take(i + 1), outbound_encoder()));
        }
        i += 1;
    }
    assert(views.take(views.len() as int) =~= views);
    assert(bytes@ =~= start + outbound_list_bytes(views));
    Ok(())
}

/// Appends the count-prefixed topics of an event.
fn encode_topics(bytes: &mut Vec<u8>, topics: &Vec<Vec<u8>>) -> (r: Result<(), EncodeError>)
    ensures
        ({
            let v = topics@.map_values(|t: Vec<u8>| t@);
            let fits = v.len() <= u16::MAX && forall|i: int|
                0 <= i < v.len() ==> #[trigger] v[i].len() <= u16::MAX;
            &&& fits ==> r is Ok && final(bytes)@ == old(bytes)@ + le16(v.len() as u16)
                + concat_map(v, topic_encoder())
            &&& !fits ==> r == Err::<(), EncodeError>(EncodeError::LengthOverflow)
        }),
{
    let ghost views = topics@.map_values(|t: Vec<u8>| t@);
    let count = len_u16(topics.len())?;
    push_u16(bytes, count);
    let ghost prefix = bytes@;
    let mut i: usize = 0;
    while i < topics.len()
        invariant
            i <= topics@.len(),
            views == topics@.map_values(|t: Vec<u8>| t@),
            bytes@ == prefix + concat_map(views.take(i as int), topic_encoder()),
            forall|j: int| 0 <= j < i ==> #[trigger] views[j].len() <= u16::MAX,
        decreases topics@.len() - i,
    {
        let topic = &topics[i];
        assert(views[i as int] == topic@);
        let length = match len_u16(topic.len()) {
            Ok(length) => length,
            Err(e) => {
                assert(views[i as int].len() > u16::MAX);
                return Err(e);
            },
        };
        push_u16(bytes, length);
        append_bytes(bytes, topic.as_slice());
        proof {
            lemma_concat_map_take(views, topic_encoder(), i as int);
            assert(bytes@ =~= prefix + concat_map(views.take(i + 1), topic_encoder()));
        }
        i += 1;
    }
    assert(views.take(views.len() as int) =~= views);
    Ok(())
}

/// Appends one event intent.
fn encode_event_intent(bytes: &mut Vec<u8>, intent: &EventIntent) -> (r: Result<(), EncodeError>)
    ensures
        event_fits(intent@) ==> r is Ok && final(bytes)@ == old(bytes)@ + event_bytes(intent@),
        !event_fits(intent@) ==> r == Err::<(), EncodeError>(EncodeError::LengthOverflow),
{
    let ghost start = bytes@;
    push_u32(bytes, intent.input_index);
    bytes.push(event_kind_to_byte(intent.kind));
    push_u64(bytes, intent.event_class);
    let name = intent.event_name.as_str().as_bytes();
    let name_len = len_u16(name.len())?;
    push_u16(bytes, name_len);
    append_bytes(bytes, name);
    encode_topics(bytes, &intent.topics)?;
    push_length_prefixed_u32(bytes, intent.fields_binary.as_slice())?;
    assert(bytes@ =~= start + event_bytes(intent@));
    Ok(())
}

/// The wire byte of an event kind.
fn event_kind_to_byte(kind: EventKind) -> (r: u8)
    ensures
        r == event_kind_byte(kind),
{
    match kind {
        EventKind::External => 0,
        EventKind::Internal => 1,
    }
}

/// Appends the count-prefixed event intents.
fn encode_event_intents(bytes: &mut Vec<u8>, intents: &Vec<EventIntent>) -> (r: Result<
    (),
    EncodeError,
>)
    ensures
        ({
            let v = intents@.map_values(|e: EventIntent| e@);
            &&& events_fit(v) ==> r is Ok && final(bytes)@ == old(bytes)@ + event_list_bytes(v)
            &&& !events_fit(v) ==> r == Err::<(), EncodeError>(EncodeError::LengthOverflow)
        }),
{
    let ghost views = intents@.map_values(|e: EventIntent| e@);
    let ghost start = bytes@;
    let count = len_u32(intents.len())?;
    push_u32(bytes, count);
    let ghost prefix = bytes@;
    let mut i: usize = 0;
    while i < intents.len()
        invariant
            i <= intents@.len(),
            views == intents@.map_values(|e: EventIntent| e@),
            bytes@ == prefix + concat_map(views.take(i as int), event_encoder()),
            forall|j: int| 0 <= j < i ==> #[trigger] event_fits(views[j]),
        decreases intents@.len() - i,
    {
        assert(views[i as int] == intents[i as int]@);
        match encode_event_intent(bytes, &intents[i]) {
            Ok(()) => {},
            Err(e) => {
                assert(!event_fits(views[i as int]));
                return Err(e);
            },
        }
        proof {
            lemma_concat_map_take(views, event_encoder(), i as int);
            assert(bytes@ =~= prefix + concat_map(views.take(i + 1), event_encoder()));
        }
        i += 1;
    }
    assert(views.take(views.len() as int) =~= views);
    assert(bytes@ =~= start + event_list_bytes(views));
    Ok(())
}

} // verus!

verus! {

// ---------------------------------------------------------------------------
// Validation rules
// ---------------------------------------------------------------------------
/// The first error of `f` over the items of `s` from index `i` on.
pub open spec fn first_error_from<T>(
    s: Seq<T>,
    f: spec_fn(T) -> Result<(), EncodeError>,
    i: int,
) -> Result<(), EncodeError>
    decreases s.len() - i,
{
    if i >= s.len() {
        Ok(())
    } else {
        match f(s[i]) {
            Err(e) => Err(e),
            Ok(_) => first_error_from(s, f, i + 1),
        }
    }
}

/// Status codes 1 to 999 are reserved.
pub open spec fn status_code_valid(c: u32) -> bool {
    !(1 <= c && c < 1000)
}

/// The patches from `i` on start at or after the end of the patch before and
/// end inside `u32`; their count fits a `u16`.
pub open spec fn patches_check(ps: Seq<StatePatchView>, i: int, previous_end: int) -> Result<
    (),
    EncodeError,
>
    decreases ps.len() - i,
{
    if i >= ps.len() {
        if ps.len() > u16::MAX {
            Err(EncodeError::LengthOverflow)
        } else {
            Ok(())
        }
    } else {
        let p = ps[i];
        if p.offset + p.old_len > u32::MAX {
            Err(EncodeError::InvalidPatchOrder)
        } else if p.offset < previous_end {
            Err(EncodeError::InvalidPatchOrder)
        } else if p.new_bytes.len() > u32::MAX {
            Err(EncodeError::LengthOverflow)
        } else {
            patches_check(ps, i + 1, p.offset + p.old_len)
        }
    }
}

/// The rules on a state update (only a patch list has any).
pub open spec fn state_update_check(u: Option<StateUpdateView>) -> Result<(), EncodeError> {
    match u {
        Some(StateUpdateView::DataPatchList(ps)) => patches_check(ps, 0, 0),
        _ => Ok(()),
    }
}

/// Currency ids strictly increase.
pub open spec fn currency_ids_sorted(extra: Seq<CurrencyAmount>) -> bool {
    forall|i: int, j: int|
        #![trigger extra[i], extra[j]]
        0 <= i < j < extra.len() ==> extra[i].currency_id < extra[j].currency_id
}

/// The rules on the extra currencies of an outbound intent.
pub open spec fn extra_check(extra: Seq<CurrencyAmount>) -> Result<(), EncodeError> {
    if extra.len() > u16::MAX {
        Err(EncodeError::LengthOverflow)
    } else if !currency_ids_sorted(extra) {
        Err(EncodeError::InvalidExtraCurrencies)
    } else {
        Ok(())
    }
}

/// The rules on one outbound intent.
pub open spec fn outbound_check(o: OutboundIntentView) -> Result<(), EncodeError> {
    if is_zero_address_spec(o.destination) {
        Err(EncodeError::InvalidIndex)
    } else {
        match extra_check(o.extra) {
            Err(e) => Err(e),
            Ok(_) => if o.body.len() > u32::MAX {
                Err(EncodeError::LengthOverflow)
            } else {
                Ok(())
            },
        }
    }
}

/// [`outbound_check`] as a function value.
pub open spec fn outbound_rules() -> spec_fn(OutboundIntentView) -> Result<(), EncodeError> {
    |o: OutboundIntentView| outbound_check(o)
}

/// The rules on a list of outbound intents.
pub open spec fn outbounds_check(s: Seq<OutboundIntentView>) -> Result<(), EncodeError> {
    if s.len() > u32::MAX {
        Err(EncodeError::LengthOverflow)
    } else {
        first_error_from(s, outbound_rules(), 0)
    }
}

/// The rules on one event intent; its fields must form a valid field list.
pub open spec fn event_check(e: EventIntentView) -> Result<(), EncodeError> {
    if e.event_name.len() > u16::MAX {
        Err(EncodeError::LengthOverflow)
    } else if e.topics.len() > u16::MAX {
        Err(EncodeError::LengthOverflow)
    } else if exists|i: int| 0 <= i < e.topics.len() && #[trigger] e.topics[i].len() > u16::MAX {
        Err(EncodeError::LengthOverflow)
    } else if e.fields_binary.len() > u32::MAX {
        Err(EncodeError::LengthOverflow)
    } else {
        field_list_spec(e.fields_binary)
    }
}

/// [`event_check`] as a function value.
pub open spec fn event_rules() -> spec_fn(EventIntentView) -> Result<(), EncodeError> {
    |e: EventIntentView| event_check(e)
}

/// The rules on a list of event intents.
pub open spec fn events_check(s: Seq<EventIntentView>) -> Result<(), EncodeError> {
    if s.len() > u32::MAX {
        Err(EncodeError::LengthOverflow)
    } else {
        first_error_from(s, event_rules(), 0)
    }
}

/// Every callback names a distinct existing outbound intent and a non-zero
/// handler.
pub open spec fn callbacks_valid(cbs: Seq<CallbackIntent>, outbound_count: int) -> bool {
    &&& forall|i: int|
        #![trigger cbs[i]]
        0 <= i < cbs.len() ==> cbs[i].handler_method_id != 0 && cbs[i].outbound_index
            < outbound_count
    &&& forall|i: int, j: int|
        #![trigger cbs[i], cbs[j]]
        0 <= i < j < cbs.len() ==> cbs[i].outbound_index != cbs[j].outbound_index
}

/// A message output with any effect besides its status code.
pub open spec fn has_effects(o: MessageOutputView) -> bool {
    o.state_update is Some || o.callback_result_body.len() != 0 || o.outbound_intents.len() != 0
        || o.callback_intents.len() != 0 || o.event_intents.len() != 0
        || o.code_upgrade_intent is Some
}

/// The rules on the shape of a message output; `mode` is the state mode the
/// input requires, if it is known.
pub open spec fn message_shape_spec(o: MessageOutputView, mode: Option<StateOutputMode>) -> Result<
    (),
    EncodeError,
> {
    if !status_code_valid(o.status_code) {
        Err(EncodeError::InvalidStatusCode)
    } else if o.status_code == 0 && o.state_update is None {
        Err(EncodeError::MissingStateUpdate)
    } else if o.status_code == 0 && mode is Some && mode->Some_0 != o.state_update->Some_0.mode() {
        Err(EncodeError::StateModeMismatch)
    } else if o.status_code != 0 && has_effects(o) {
        Err(EncodeError::EffectsOnFailure)
    } else {
        match state_update_check(o.state_update) {
            Err(e) => Err(e),
            Ok(_) => match outbounds_check(o.outbound_intents) {
                Err(e) => Err(e),
                Ok(_) => match events_check(o.event_intents) {
                    Err(e) => Err(e),
                    Ok(_) => if !callbacks_valid(
                        o.callback_intents,
                        o.outbound_intents.len() as int,
                    ) {
                        Err(EncodeError::InvalidCallback)
                    } else if (exists|i: int|
                        0 <= i < o.outbound_intents.len()
                            && #[trigger] o.outbound_intents[i].input_index != 0) || (exists|
                        i: int,
                    |
                        0 <= i < o.event_intents.len() && #[trigger] o.event_intents[i].input_index
                            != 0) {
                        Err(EncodeError::InvalidIndex)
                    } else {
                        Ok(())
                    },
                },
            },
        }
    }
}

/// The encoding of a message output.
pub open spec fn message_output_spec(o: MessageOutputView, mode: Option<StateOutputMode>) -> Result<
    Seq<u8>,
    EncodeError,
> {
    match message_shape_spec(o, mode) {
        Err(e) => Err(e),
        Ok(_) => if message_output_fits(o) {
            Ok(message_output_bytes(o))
        } else {
            Err(EncodeError::LengthOverflow)
        },
    }
}

/// The rules on the shape of a batch output.
pub open spec fn batch_shape_spec(o: BatchOutputView, mode: Option<StateOutputMode>) -> Result<
    (),
    EncodeError,
> {
    if mode is Some && mode->Some_0 != o.state_update.mode() {
        Err(EncodeError::StateModeMismatch)
    } else {
        match state_update_check(Some(o.state_update)) {
            Err(e) => Err(e),
            Ok(_) => if exists|i: int|
                0 <= i < o.status_codes.len() && !status_code_valid(#[trigger] o.status_codes[i]) {
                Err(EncodeError::InvalidStatusCode)
            } else {
                match outbounds_check(o.outbound_intents) {
                    Err(e) => Err(e),
                    Ok(_) => events_check(o.event_intents),
                }
            },
        }
    }
}

/// The encoding of a batch output.
pub open spec fn batch_output_spec(o: BatchOutputView, mode: Option<StateOutputMode>) -> Result<
    Seq<u8>,
    EncodeError,
> {
    match batch_shape_spec(o, mode) {
        Err(e) => Err(e),
        Ok(_) => if batch_output_fits(o) {
            Ok(batch_output_bytes(o))
        } else {
            Err(EncodeError::LengthOverflow)
        },
    }
}

// ---------------------------------------------------------------------------
// Event field lists
// ---------------------------------------------------------------------------
/// The end of reading `n` bytes at `pos` of a field list of `len` bytes.
pub open spec fn field_take(len: int, pos: int, n: int) -> Result<int, EncodeError> {
    if pos + n > usize::MAX {
        Err(EncodeError::LengthOverflow)
    } else if pos + n > len {
        Err(EncodeError::InvalidEvent)
    } else {
        Ok(pos + n)
    }
}

/// A field value is well-formed for its kind.
pub open spec fn field_value_valid(kind: u8, value: Seq<u8>) -> bool {
    ||| kind == 0 && value.len() == 0
    ||| kind == 1 && value.len() == 1 && (value[0] == 0 || value[0] == 1)
    ||| (kind == 2 || kind == 3) && value.len() == 8
    ||| (kind == 4 || kind == 5) && value.len() == 16
    ||| kind == 6 && vstd::utf8::valid_utf8(value)
    ||| kind == 7
    ||| kind == 8 && value.len() == 64
}

/// Reads `remaining` fields at `pos`; each is a name length, a kind, a value
/// length, a UTF-8 name greater than the one before, and a value valid for
/// its kind. Gives the position after them.
pub open spec fn fields_from(
    b: Seq<u8>,
    pos: int,
    remaining: int,
    previous: Option<Seq<u8>>,
) -> Result<int, EncodeError>
    decreases remaining,
{
    if remaining <= 0 {
        Ok(pos)
    } else {
        let len = b.len() as int;
        match field_take(len, pos, 2) {
            Err(e) => Err(e),
            Ok(p1) => match field_take(len, p1, 1) {
                Err(e) => Err(e),
                Ok(p2) => match field_take(len, p2, 2) {
                    Err(e) => Err(e),
                    Ok(p3) => match field_take(len, p3, le_u16(b, pos) as int) {
                        Err(e) => Err(e),
                        Ok(p4) => {
                            let name = b.subrange(p3, p4);
                            if !vstd::utf8::valid_utf8(name) {
                                Err(EncodeError::InvalidEvent)
                            } else if previous is Some && !bytes_lt(previous->Some_0, name) {
                                Err(EncodeError::InvalidEvent)
                            } else {
                                match field_take(len, p4, le_u16(b, p2) as int) {
                                    Err(e) => Err(e),
                                    Ok(p5) => if !field_value_valid(b[p1], b.subrange(p4, p5)) {
                                        Err(EncodeError::InvalidEvent)
                                    } else {
                                        fields_from(b, p5, remaining - 1, Some(name))
                                    },
                                }
                            }
                        },
                    },
                },
            },
        }
    }
}

/// The rules on an encoded field list: a count, two zero bytes, the fields,
/// nothing after them.
pub open spec fn field_list_spec(b: Seq<u8>) -> Result<(), EncodeError> {
    if b.len() < 4 {
        Err(EncodeError::InvalidEvent)
    } else if le_u16(b, 2) != 0 {
        Err(EncodeError::InvalidEvent)
    } else {
        match fields_from(b, 4, le_u16(b, 0) as int, None) {
            Err(e) => Err(e),
            Ok(end) => if end != b.len() {
                Err(EncodeError::InvalidEvent)
            } else {
                Ok(())
            },
        }
    }
}

} // verus!

verus! {

fn validate_status_code(status_code: u32) -> (r: Result<(), EncodeError>)
    ensures
        status_code_valid(status_code) ==> r is Ok,
        !status_code_valid(status_code) ==> r == Err::<(), EncodeError>(
            EncodeError::InvalidStatusCode,
        ),
{
    if 1 <= status_code && status_code < 1000 {
        Err(EncodeError::InvalidStatusCode)
    } else {
        Ok(())
    }
}

/// The view of an optional state update.
pub open spec fn update_view(update: Option<&StateUpdate>) -> Option<StateUpdateView> {
    match update {
        Some(u) => Some(u@),
        None => None,
    }
}

fn validate_state_update(update: Option<&StateUpdate>) -> (r: Result<(), EncodeError>)
    ensures
        r == state_update_check(update_view(update)),
{
    let patches = match update {
        Some(StateUpdate::DataPatchList(patches)) => patches,
        _ => {
            return Ok(());
        },
    };
    let ghost views = patches@.map_values(|x: StatePatch| x@);
    assert(state_update_check(update_view(update)) == patches_check(views, 0, 0));
    let mut previous_end: u32 = 0;
    let mut i: usize = 0;
    while i < patches.len()
        invariant
            i <= patches@.len(),
            views == patches@.map_values(|x: StatePatch| x@),
            state_update_check(update_view(update)) == patches_check(views, 0, 0),
            patches_check(views, 0, 0) == patches_check(views, i as int, previous_end as int),
        decreases patches@.len() - i,
    {
        let patch = &patches[i];
        assert(views[i as int] == patch@);
        if patch.offset > u32::MAX - patch.old_len {
            return Err(EncodeError::InvalidPatchOrder);
        }
        let end = patch.offset + patch.old_len;
        if patch.offset < previous_end {
            return Err(EncodeError::InvalidPatchOrder);
        }
        len_u32(patch.new_bytes.len())?;
        previous_end = end;
        i += 1;
    }
    len_u16(patches.len())?;
    Ok(())
}

fn validate_extra(extra: &Vec<CurrencyAmount>) -> (r: Result<(), EncodeError>)
    ensures
        r == extra_check(extra@),
{
    len_u16(extra.len())?;
    if extra.len() <= 1 {
        return Ok(());
    }
    let mut i: usize = 1;
    while i < extra.len()
        invariant
            1 <= i <= extra@.len(),
            extra@.len() <= u16::MAX,
            currency_ids_sorted(extra@.take(i as int)),
        decreases extra@.len() - i,
    {
        if extra[i - 1].currency_id >= extra[i].currency_id {
            assert(!currency_ids_sorted(extra@)) by {
                assert(extra@[i - 1].currency_id >= extra@[i as int].currency_id);
            }
            return Err(EncodeError::InvalidExtraCurrencies);
        }
        assert forall|a: int, b: int|
            0 <= a < b < i + 1 implies #[trigger] extra@.take(i + 1)[a].currency_id
            < #[trigger] extra@.take(i + 1)[b].currency_id by {
            assert(extra@.take(i + 1)[a] == extra@[a]);
            assert(extra@.take(i + 1)[b] == extra@[b]);
            if b < i {
                assert(extra@.take(i as int)[a] == extra@[a]);
                assert(extra@.take(i as int)[b] == extra@[b]);
            } else if a < i - 1 {
                assert(extra@.take(i as int)[a] == extra@[a]);
                assert(extra@.take(i as int)[i - 1] == extra@[i - 1]);
            }
        }
        i += 1;
    }
    assert(extra@.take(extra@.len() as int) =~= extra@);
    Ok(())
}

fn validate_outbound_intent(intent: &OutboundIntent) -> (r: Result<(), EncodeError>)
    ensures
        r == outbound_check(intent@),
{
    if is_all_zero_array(&intent.destination.dapp_id) || is_all_zero_array(
        &intent.destination.account_id,
    ) {
        return Err(EncodeError::InvalidIndex);
    }
    validate_extra(&intent.extra)?;
    len_u32(intent.body.len())?;
    Ok(())
}

fn is_all_zero_array(a: &[u8; 32]) -> (r: bool)
    ensures
        r == crate::wire::all_zero(a@),
{
    crate::wire::is_all_zero(a)
}

fn validate_outbound_intents(intents: &Vec<OutboundIntent>) -> (r: Result<(), EncodeError>)
    ensures
        r == outbounds_check(intents@.map_values(|o: OutboundIntent| o@)),
{
    let ghost views = intents@.map_values(|o: OutboundIntent| o@);
    len_u32(intents.len())?;
    let mut i: usize = 0;
    while i < intents.len()
        invariant
            i <= intents@.len(),
            views == intents@.map_values(|o: OutboundIntent| o@),
            views.len() <= u32::MAX,
            outbounds_check(views) == first_error_from(views, outbound_rules(), 0),
            first_error_from(views, outbound_rules(), 0) == first_error_from(
                views,
                outbound_rules(),
                i as int,
            ),
        decreases intents@.len() - i,
    {
        assert(views[i as int] == intents[i as int]@);
        validate_outbound_intent(&intents[i])?;
        i += 1;
    }
    Ok(())
}

/// Whether the bytes are UTF-8, by `core::str::from_utf8`. Trusted: its
/// contract claims that `from_utf8` succeeds on exactly the byte strings that
/// `vstd::utf8::valid_utf8` describes as well-formed UTF-8.
#[verifier::external_body]
fn utf8_valid(bytes: &[u8]) -> (r: bool)
    ensures
        r == vstd::utf8::valid_utf8(bytes@),
{
    core::str::from_utf8(bytes).is_ok()
}

/// A cursor over an encoded field list.
struct FieldReader<'a> {
    bytes: &'a [u8],
    position: usize,
}

impl<'a> FieldReader<'a> {
    fn new(bytes: &'a [u8]) -> (r: Self)
        ensures
            r.bytes@ == bytes@,
            r.position == 0,
    {
        FieldReader { bytes, position: 0 }
    }

    fn take(&mut self, length: usize) -> (r: Result<&'a [u8], EncodeError>)
        requires
            old(self).position <= old(self).bytes@.len(),
        ensures
            final(self).bytes@ == old(self).bytes@,
            final(self).position <= final(self).bytes@.len(),
            match field_take(old(self).bytes@.len() as int, old(self).position as int, length as int) {
                Ok(end) => final(self).position == end && (r matches Ok(v) && v@ == old(
                    self,
                ).bytes@.subrange(old(self).position as int, end)),
                Err(e) => r == Err::<&'a [u8], EncodeError>(e),
            },
    {
        if self.position > usize::MAX - length {
            return Err(EncodeError::LengthOverflow);
        }
        let end = self.position + length;
        if end > self.bytes.len() {
            return Err(EncodeError::InvalidEvent);
        }
        let value = vstd::slice::slice_subrange(self.bytes, self.position, end);
        self.position = end;
        Ok(value)
    }

    fn u8(&mut self) -> (r: Result<u8, EncodeError>)
        requires
            old(self).position <= old(self).bytes@.len(),
        ensures
            final(self).bytes@ == old(self).bytes@,
            final(self).position <= final(self).bytes@.len(),
            match field_take(old(self).bytes@.len() as int, old(self).position as int, 1) {
                Ok(end) => final(self).position == end && r == Ok::<u8, EncodeError>(
                    old(self).bytes@[old(self).position as int],
                ),
                Err(e) => r == Err::<u8, EncodeError>(e),
            },
    {
        let v = self.take(1)?;
        Ok(v[0])
    }

    fn u16(&mut self) -> (r: Result<u16, EncodeError>)
        requires
            old(self).position <= old(self).bytes@.len(),
        ensures
            final(self).bytes@ == old(self).bytes@,
            final(self).position <= final(self).bytes@.len(),
            match field_take(old(self).bytes@.len() as int, old(self).position as int, 2) {
                Ok(end) => final(self).position == end && r == Ok::<u16, EncodeError>(
                    le_u16(old(self).bytes@, old(self).position as int),
                ),
                Err(e) => r == Err::<u16, EncodeError>(e),
            },
    {
        let p = self.position;
        let v = self.take(2)?;
        assert(v@.subrange(0, 2) =~= self.bytes@.subrange(p as int, p + 2));
        Ok(crate::wire::u16_at(v, 0))
    }

    fn finish(&self) -> (r: Result<(), EncodeError>)
        ensures
            self.position == self.bytes@.len() ==> r == Ok::<(), EncodeError>(()),
            self.position != self.bytes@.len() ==> r == Err::<(), EncodeError>(
                EncodeError::InvalidEvent,
            ),
    {
        if self.position == self.bytes.len() {
            Ok(())
        } else {
            Err(EncodeError::InvalidEvent)
        }
    }
}

/// Whether a field value is well-formed for its kind.
fn field_value_ok(kind: u8, value: &[u8]) -> (r: bool)
    ensures
        r == field_value_valid(kind, value@),
{
    if kind == 0 {
        value.len() == 0
    } else if kind == 1 {
        value.len() == 1 && (value[0] == 0 || value[0] == 1)
    } else if kind == 2 || kind == 3 {
        value.len() == 8
    } else if kind == 4 || kind == 5 {
        value.len() == 16
    } else if kind == 6 {
        utf8_valid(value)
    } else if kind == 7 {
        true
    } else if kind == 8 {
        value.len() == 64
    } else {
        false
    }
}

/// Checks an encoded event field list.
fn validate_event_field_list(bytes: &[u8]) -> (r: Result<(), EncodeError>)
    ensures
        r == field_list_spec(bytes@),
{
    let mut reader = FieldReader::new(bytes);
    let count = reader.u16()?;
    if reader.u16()? != 0 {
        return Err(EncodeError::InvalidEvent);
    }
    let mut previous_name: Option<&[u8]> = None;
    let mut index: u16 = 0;
    let ghost whole = bytes@;
    assert(field_list_spec(whole) == match fields_from(whole, 4, count as int, None) {
        Err(e) => Err(e),
        Ok(end) => if end != whole.len() {
            Err(EncodeError::InvalidEvent)
        } else {
            Ok(())
        },
    });
    while index < count
        invariant
            index <= count,
            reader.bytes@ == whole,
            reader.position <= whole.len(),
            whole == bytes@,
            field_list_spec(whole) == match fields_from(
                whole,
                reader.position as int,
                (count - index) as int,
                match previous_name {
                    Some(n) => Some(n@),
                    None => None,
                },
            ) {
                Err(e) => Err(e),
                Ok(end) => if end != whole.len() {
                    Err(EncodeError::InvalidEvent)
                } else {
                    Ok(())
                },
            },
        decreases count - index,
    {
        let name_len = reader.u16()? as usize;
        let kind = reader.u8()?;
        let value_len = reader.u16()? as usize;
        let name = reader.take(name_len)?;
        if !utf8_valid(name) {
            return Err(EncodeError::InvalidEvent);
        }
        if let Some(previous) = previous_name {
            if !bytes_less(previous, name) {
                return Err(EncodeError::InvalidEvent);
            }
        }
        previous_name = Some(name);
        let value = reader.take(value_len)?;
        if !field_value_ok(kind, value) {
            return Err(EncodeError::InvalidEvent);
        }
        index += 1;
    }
    assert(fields_from(whole, reader.position as int, 0, match previous_name {
        Some(n) => Some(n@),
        None => None,
    }) == Ok::<int, EncodeError>(reader.position as int));
    reader.finish()
}

} // verus!

verus! {

fn validate_event_intent(intent: &EventIntent) -> (r: Result<(), EncodeError>)
    ensures
        r == event_check(intent@),
{
    let name = intent.event_name.as_str().as_bytes();
    len_u16(name.len())?;
    len_u16(intent.topics.len())?;
    let ghost topics = intent.topics@.map_values(|t: Vec<u8>| t@);
    assert(topics == intent@.topics);
    let mut i: usize = 0;
    while i < intent.topics.len()
        invariant
            i <= intent.topics@.len(),
            topics == intent.topics@.map_values(|t: Vec<u8>| t@),
            forall|j: int| 0 <= j < i ==> #[trigger] topics[j].len() <= u16::MAX,
        decreases intent.topics@.len() - i,
    {
        assert(topics[i as int] == intent.topics[i as int]@);
        if intent.topics[i].len() > 0xffff {
            assert(topics[i as int].len() > u16::MAX);
            return Err(EncodeError::LengthOverflow);
        }
        i += 1;
    }
    len_u32(intent.fields_binary.len())?;
    validate_event_field_list(intent.fields_binary.as_slice())
}

fn validate_event_intents(intents: &Vec<EventIntent>) -> (r: Result<(), EncodeError>)
    ensures
        r == events_check(intents@.map_values(|e: EventIntent| e@)),
{
    let ghost views = intents@.map_values(|e: EventIntent| e@);
    len_u32(intents.len())?;
    let mut i: usize = 0;
    while i < intents.len()
        invariant
            i <= intents@.len(),
            views == intents@.map_values(|e: EventIntent| e@),
            views.len() <= u32::MAX,
            events_check(views) == first_error_from(views, event_rules(), 0),
            first_error_from(views, event_rules(), 0) == first_error_from(
                views,
                event_rules(),
                i as int,
            ),
        decreases intents@.len() - i,
    {
        assert(views[i as int] == intents[i as int]@);
        validate_event_intent(&intents[i])?;
        i += 1;
    }
    Ok(())
}

/// Whether the callbacks name distinct existing outbound intents and
/// non-zero handlers.
fn callbacks_ok(callbacks: &Vec<CallbackIntent>, outbound_count: usize) -> (r: bool)
    ensures
        r == callbacks_valid(callbacks@, outbound_count as int),
{
    let mut seen: Vec<u32> = Vec::new();
    let mut i: usize = 0;
    while i < callbacks.len()
        invariant
            i <= callbacks@.len(),
            seen@.len() == i,
            forall|k: int| 0 <= k < i ==> seen@[k] == #[trigger] callbacks@[k].outbound_index,
            callbacks_valid(callbacks@.take(i as int), outbound_count as int),
        decreases callbacks@.len() - i,
    {
        let callback = callbacks[i];
        if callback.handler_method_id == 0 || callback.outbound_index as usize >= outbound_count {
            assert(!callbacks_valid(callbacks@, outbound_count as int)) by {
                assert(callbacks@[i as int] == callback);
                assert(callbacks@[i as int].handler_method_id == 0
                    || callbacks@[i as int].outbound_index >= outbound_count);
            }
            return false;
        }
        let mut j: usize = 0;
        while j < seen.len()
            invariant
                j <= seen@.len(),
                seen@.len() == i,
                i < callbacks@.len(),
                callback == callbacks@[i as int],
                forall|k: int| 0 <= k < i ==> seen@[k] == #[trigger] callbacks@[k].outbound_index,
                forall|k: int| 0 <= k < j ==> seen@[k] != callback.outbound_index,
            decreases seen@.len() - j,
        {
            if seen[j] == callback.outbound_index {
                assert(!callbacks_valid(callbacks@, outbound_count as int)) by {
                    assert(callbacks@[j as int].outbound_index == callbacks@[i as int].outbound_index);
                }
                return false;
            }
            j += 1;
        }
        let ghost old_seen = seen@;
        seen.push(callback.outbound_index);
        assert(forall|k: int| 0 <= k < i ==> old_seen[k] != callback.outbound_index);
        assert forall|a: int, b: int|
            0 <= a < b < i + 1 implies #[trigger] callbacks@.take(i + 1)[a].outbound_index
            != #[trigger] callbacks@.take(i + 1)[b].outbound_index by {
            assert(callbacks@.take(i + 1)[a] == callbacks@[a]);
            assert(callbacks@.take(i + 1)[b] == callbacks@[b]);
            if b < i {
                assert(callbacks@.take(i as int)[a] == callbacks@[a]);
                assert(callbacks@.take(i as int)[b] == callbacks@[b]);
            } else {
                assert(old_seen[a] == callbacks@[a].outbound_index);
                assert(old_seen[a] != callback.outbound_index);
            }
        }
        assert forall|a: int| 0 <= a < i + 1 implies #[trigger] callbacks@.take(
            i + 1,
        )[a].handler_method_id != 0 && callbacks@.take(i + 1)[a].outbound_index
            < outbound_count by {
            assert(callbacks@.take(i + 1)[a] == callbacks@[a]);
            assert(callbacks@.take(i + 1)[a] == callbacks@[a]);
            if a < i {
                assert(callbacks@.take(i as int)[a] == callbacks@[a]);
            }
        }
        i += 1;
    }
    assert(callbacks@.take(callbacks@.len() as int) =~= callbacks@);
    true
}

/// Whether every outbound and event intent belongs to input 0.
fn all_indexes_zero(output: &MessageOutput) -> (r: bool)
    ensures
        r == !((exists|i: int|
            0 <= i < output@.outbound_intents.len()
                && #[trigger] output@.outbound_intents[i].input_index != 0) || (exists|i: int|
            0 <= i < output@.event_intents.len() && #[trigger] output@.event_intents[i].input_index
                != 0)),
{
    let ghost outs = output@.outbound_intents;
    let ghost events = output@.event_intents;
    let mut i: usize = 0;
    while i < output.outbound_intents.len()
        invariant
            i <= output.outbound_intents@.len(),
            outs == output.outbound_intents@.map_values(|o: OutboundIntent| o@),
            outs == output@.outbound_intents,
            forall|k: int| 0 <= k < i ==> #[trigger] outs[k].input_index == 0,
        decreases output.outbound_intents@.len() - i,
    {
        if output.outbound_intents[i].input_index != 0 {
            assert(outs[i as int].input_index != 0);
            return false;
        }
        i += 1;
    }
    let mut j: usize = 0;
    while j < output.event_intents.len()
        invariant
            j <= output.event_intents@.len(),
            events == output.event_intents@.map_values(|e: EventIntent| e@),
            events == output@.event_intents,
            forall|k: int| 0 <= k < outs.len() ==> #[trigger] outs[k].input_index == 0,
            forall|k: int| 0 <= k < j ==> #[trigger] events[k].input_index == 0,
        decreases output.event_intents@.len() - j,
    {
        if output.event_intents[j].input_index != 0 {
            assert(events[j as int].input_index != 0);
            return false;
        }
        j += 1;
    }
    true
}

/// Checks the shape of a message output.
fn validate_message_shape(output: &MessageOutput, required_mode: Option<StateOutputMode>) -> (r:
    Result<(), EncodeError>)
    ensures
        r == message_shape_spec(output@, required_mode),
{
    validate_status_code(output.status_code)?;
    if output.status_code == 0 {
        let update = match &output.state_update {
            Some(update) => update,
            None => {
                return Err(EncodeError::MissingStateUpdate);
            },
        };
        if let Some(mode) = required_mode {
            if mode != update.mode() {
                return Err(EncodeError::StateModeMismatch);
            }
        }
    } else if output.state_update.is_some() || output.callback_result_body.len() != 0
        || output.outbound_intents.len() != 0 || output.callback_intents.len() != 0
        || output.event_intents.len() != 0 || output.code_upgrade_intent.is_some() {
        return Err(EncodeError::EffectsOnFailure);
    }
    validate_state_update(output.state_update.as_ref())?;
    validate_outbound_intents(&output.outbound_intents)?;
    validate_event_intents(&output.event_intents)?;
    if !callbacks_ok(&output.callback_intents, output.outbound_intents.len()) {
        return Err(EncodeError::InvalidCallback);
    }
    if !all_indexes_zero(output) {
        return Err(EncodeError::InvalidIndex);
    }
    Ok(())
}

/// Checks the shape of a batch output.
fn validate_batch_shape(output: &BatchOutput, required_mode: Option<StateOutputMode>) -> (r:
    Result<(), EncodeError>)
    ensures
        r == batch_shape_spec(output@, required_mode),
{
    if let Some(mode) = required_mode {
        if mode != output.state_update.mode() {
            return Err(EncodeError::StateModeMismatch);
        }
    }
    validate_state_update(Some(&output.state_update))?;
    let mut i: usize = 0;
    while i < output.status_codes.len()
        invariant
            i <= output.status_codes@.len(),
            forall|k: int| 0 <= k < i ==> status_code_valid(#[trigger] output.status_codes@[k]),
            state_update_check(Some(output@.state_update)) is Ok,
            !(required_mode is Some && required_mode->Some_0 != output@.state_update.mode()),
        decreases output.status_codes@.len() - i,
    {
        if validate_status_code(output.status_codes[i]).is_err() {
            assert(!status_code_valid(output@.status_codes[i as int]));
            return Err(EncodeError::InvalidStatusCode);
        }
        i += 1;
    }
    validate_outbound_intents(&output.outbound_intents)?;
    validate_event_intents(&output.event_intents)
}

} // verus!

verus! {

// ---------------------------------------------------------------------------
// Rules that depend on the input
// ---------------------------------------------------------------------------
/// The rules that tie a message output to its input: an init answers a
/// deploy and carries no callback data or upgrade; a normal call is no
/// deploy, returns a callback body only when one was requested, must upgrade
/// when it successfully handles the upgrade method, and may upgrade only then.
pub open spec fn message_context_spec(
    input: MessageInputView,
    is_init: bool,
    o: MessageOutputView,
) -> Result<(), EncodeError> {
    if is_init {
        if !input.message.is_deploy() || o.callback_result_body.len() != 0
            || o.callback_intents.len() != 0 || o.code_upgrade_intent is Some {
            Err(EncodeError::InvalidCallback)
        } else {
            Ok(())
        }
    } else if input.message.is_deploy() {
        Err(EncodeError::InvalidCallback)
    } else if !input.message.has_callback_request() && o.callback_result_body.len() != 0 {
        Err(EncodeError::InvalidCallback)
    } else if o.status_code == 0 && input.message.method_id() == CODE_UPGRADE_METHOD_ID
        && o.code_upgrade_intent is None {
        Err(EncodeError::UpgradeRequired)
    } else if input.message.method_id() != CODE_UPGRADE_METHOD_ID && o.code_upgrade_intent is Some {
        Err(EncodeError::UpgradeForbidden)
    } else {
        Ok(())
    }
}

/// An effect of a batch must belong to a message that succeeded.
pub open spec fn batch_effect_index_ok(index: u32, statuses: Seq<u32>) -> bool {
    index < statuses.len() && statuses[index as int] == 0
}

/// The rules that tie a batch output to its input: one status per message,
/// and every effect belongs to a message that succeeded.
pub open spec fn batch_context_spec(message_count: u32, o: BatchOutputView) -> Result<
    (),
    EncodeError,
> {
    if message_count != o.status_codes.len() {
        Err(EncodeError::InvalidIndex)
    } else if (exists|i: int|
        0 <= i < o.outbound_intents.len() && !batch_effect_index_ok(
            #[trigger] o.outbound_intents[i].input_index,
            o.status_codes,
        )) || (exists|i: int|
        0 <= i < o.event_intents.len() && !batch_effect_index_ok(
            #[trigger] o.event_intents[i].input_index,
            o.status_codes,
        )) {
        Err(EncodeError::InvalidIndex)
    } else {
        Ok(())
    }
}

/// The bytes of an encoding result.
pub open spec fn bytes_result(r: Result<Vec<u8>, EncodeError>) -> Result<Seq<u8>, EncodeError> {
    match r {
        Ok(v) => Ok(v@),
        Err(e) => Err(e),
    }
}

fn validate_message_context(input: &MessageInput<'_>, is_init: bool, output: &MessageOutput) -> (r:
    Result<(), EncodeError>)
    ensures
        r == message_context_spec(input@, is_init, output@),
{
    if is_init {
        if !input.message.is_deploy() || output.callback_result_body.len() != 0
            || output.callback_intents.len() != 0 || output.code_upgrade_intent.is_some() {
            return Err(EncodeError::InvalidCallback);
        }
        return Ok(());
    }
    if input.message.is_deploy() {
        return Err(EncodeError::InvalidCallback);
    }
    if !input.message.has_callback_request() && output.callback_result_body.len() != 0 {
        return Err(EncodeError::InvalidCallback);
    }
    let upgrade_call = input.message.method_id() == CODE_UPGRADE_METHOD_ID;
    if output.status_code == 0 && upgrade_call && output.code_upgrade_intent.is_none() {
        return Err(EncodeError::UpgradeRequired);
    }
    if !upgrade_call && output.code_upgrade_intent.is_some() {
        return Err(EncodeError::UpgradeForbidden);
    }
    Ok(())
}

fn validate_batch_effect_index(index: u32, statuses: &Vec<u32>) -> (r: Result<(), EncodeError>)
    ensures
        batch_effect_index_ok(index, statuses@) ==> r == Ok::<(), EncodeError>(()),
        !batch_effect_index_ok(index, statuses@) ==> r == Err::<(), EncodeError>(
            EncodeError::InvalidIndex,
        ),
{
    let index = index as usize;
    if index >= statuses.len() || statuses[index] != 0 {
        return Err(EncodeError::InvalidIndex);
    }
    Ok(())
}

fn validate_batch_context(message_count: u32, output: &BatchOutput) -> (r: Result<(), EncodeError>)
    ensures
        r == batch_context_spec(message_count, output@),
{
    if message_count as usize != output.status_codes.len() {
        return Err(EncodeError::InvalidIndex);
    }
    let ghost outs = output@.outbound_intents;
    let ghost events = output@.event_intents;
    let mut i: usize = 0;
    while i < output.outbound_intents.len()
        invariant
            i <= output.outbound_intents@.len(),
            outs == output@.outbound_intents,
            outs == output.outbound_intents@.map_values(|o: OutboundIntent| o@),
            forall|k: int|
                0 <= k < i ==> batch_effect_index_ok(
                    #[trigger] outs[k].input_index,
                    output.status_codes@,
                ),
        decreases output.outbound_intents@.len() - i,
    {
        assert(outs[i as int].input_index == output.outbound_intents[i as int].input_index);
        validate_batch_effect_index(output.outbound_intents[i].input_index, &output.status_codes)?;
        i += 1;
    }
    let mut j: usize = 0;
    while j < output.event_intents.len()
        invariant
            j <= output.event_intents@.len(),
            events == output@.event_intents,
            events == output.event_intents@.map_values(|e: EventIntent| e@),
            forall|k: int|
                0 <= k < outs.len() ==> batch_effect_index_ok(
                    #[trigger] outs[k].input_index,
                    output.status_codes@,
                ),
            outs == output@.outbound_intents,
            forall|k: int|
                0 <= k < j ==> batch_effect_index_ok(
                    #[trigger] events[k].input_index,
                    output.status_codes@,
                ),
        decreases output.event_intents@.len() - j,
    {
        assert(events[j as int].input_index == output.event_intents[j as int].input_index);
        validate_batch_effect_index(output.event_intents[j].input_index, &output.status_codes)?;
        j += 1;
    }
    Ok(())
}

// ---------------------------------------------------------------------------
// Frame encoders
// ---------------------------------------------------------------------------
fn encode_message_output_inner(output: &MessageOutput, required_mode: Option<StateOutputMode>) -> (r:
    Result<Vec<u8>, EncodeError>)
    ensures
        bytes_result(r) == message_output_spec(output@, required_mode),
{
    validate_message_shape(output, required_mode)?;
    let mut bytes: Vec<u8> = Vec::new();
    bytes.push(0x41);
    bytes.push(0x43);
    bytes.push(0x4d);
    bytes.push(0x4f);
    push_u32(&mut bytes, output.status_code);
    let flags: u8 = (if output.state_update.is_some() {
        FLAG_HAS_STATE_UPDATE
    } else {
        0
    }) + (if output.code_upgrade_intent.is_some() {
        FLAG_HAS_UPGRADE_INTENT
    } else {
        0
    });
    bytes.push(flags);
    let ghost after_flags = bytes@;
    assert(after_flags =~= acmo_magic() + le32(output@.status_code) + seq![
        message_output_flags(output@),
    ]);
    if let Some(state_update) = &output.state_update {
        encode_state_update(&mut bytes, state_update)?;
    }
    let ghost after_state = bytes@;
    push_length_prefixed_u32(&mut bytes, output.callback_result_body.as_slice())?;
    encode_outbound_intents(&mut bytes, &output.outbound_intents)?;
    let ghost after_outbound = bytes@;
    let count = len_u32(output.callback_intents.len())?;
    push_u32(&mut bytes, count);
    let ghost prefix = bytes@;
    let mut i: usize = 0;
    while i < output.callback_intents.len()
        invariant
            i <= output.callback_intents@.len(),
            bytes@ == prefix + concat_map(
                output.callback_intents@.take(i as int),
                callback_encoder(),
            ),
        decreases output.callback_intents@.len() - i,
    {
        let callback = output.callback_intents[i];
        push_u32(&mut bytes, callback.outbound_index);
        push_u64(&mut bytes, callback.handler_method_id);
        proof {
            lemma_concat_map_take(output.callback_intents@, callback_encoder(), i as int);
            assert(bytes@ =~= prefix + concat_map(
                output.callback_intents@.take(i + 1),
                callback_encoder(),
            ));
        }
        i += 1;
    }
    assert(output.callback_intents@.take(output.callback_intents@.len() as int)
        =~= output.callback_intents@);
    encode_event_intents(&mut bytes, &output.event_intents)?;
    if let Some(upgrade) = &output.code_upgrade_intent {
        append_bytes(&mut bytes, &upgrade.target_selected_code_id);
        append_bytes(&mut bytes, &upgrade.expected_code_hash);
    }
    assert(bytes@ =~= message_output_bytes(output@));
    Ok(bytes)
}

fn encode_batch_output_inner(output: &BatchOutput, required_mode: Option<StateOutputMode>) -> (r:
    Result<Vec<u8>, EncodeError>)
    ensures
        bytes_result(r) == batch_output_spec(output@, required_mode),
{
    validate_batch_shape(output, required_mode)?;
    let mut bytes: Vec<u8> = Vec::new();
    bytes.push(0x41);
    bytes.push(0x43);
    bytes.push(0x42);
    bytes.push(0x4f);
    assert(bytes@ =~= acbo_magic());
    encode_state_update(&mut bytes, &output.state_update)?;
    let count = len_u32(output.status_codes.len())?;
    push_u32(&mut bytes, count);
    let ghost prefix = bytes@;
    let mut i: usize = 0;
    while i < output.status_codes.len()
        invariant
            i <= output.status_codes@.len(),
            bytes@ == prefix + concat_map(output.status_codes@.take(i as int), status_encoder()),
        decreases output.status_codes@.len() - i,
    {
        push_u32(&mut bytes, output.status_codes[i]);
        proof {
            lemma_concat_map_take(output.status_codes@, status_encoder(), i as int);
            assert(bytes@ =~= prefix + concat_map(
                output.status_codes@.take(i + 1),
                status_encoder(),
            ));
        }
        i += 1;
    }
    assert(output.status_codes@.take(output.status_codes@.len() as int) =~= output.status_codes@);
    encode_outbound_intents(&mut bytes, &output.outbound_intents)?;
    encode_event_intents(&mut bytes, &output.event_intents)?;
    assert(bytes@ =~= batch_output_bytes(output@));
    Ok(bytes)
}

/// Encodes an ACMO frame for a message output, without input context.
pub fn encode_message_output(output: &MessageOutput) -> (r: Result<Vec<u8>, EncodeError>)
    ensures
        bytes_result(r) == message_output_spec(output@, None),
{
    encode_message_output_inner(output, None)
}

/// Encodes an ACBO frame for a batch output, without input context.
pub fn encode_batch_output(output: &BatchOutput) -> (r: Result<Vec<u8>, EncodeError>)
    ensures
        bytes_result(r) == batch_output_spec(output@, None),
{
    encode_batch_output_inner(output, None)
}

/// The encoding of a message output answering `input`.
pub open spec fn message_output_for_spec(
    input: MessageInputView,
    is_init: bool,
    o: MessageOutputView,
) -> Result<Seq<u8>, EncodeError> {
    match message_context_spec(input, is_init, o) {
        Err(e) => Err(e),
        Ok(_) => message_output_spec(o, Some(input.required_state_output_mode)),
    }
}

/// Encodes the ACMO frame answering `input`.
pub(crate) fn encode_message_output_for(
    input: &MessageInput<'_>,
    is_init: bool,
    output: &MessageOutput,
) -> (r: Result<Vec<u8>, EncodeError>)
    ensures
        bytes_result(r) == message_output_for_spec(input@, is_init, output@),
{
    validate_message_context(input, is_init, output)?;
    encode_message_output_inner(output, Some(input.required_state_output_mode))
}

/// The encoding of a batch output answering a batch of `message_count`
/// messages that requires `mode`.
pub open spec fn batch_output_for_spec(
    message_count: u32,
    mode: StateOutputMode,
    o: BatchOutputView,
) -> Result<Seq<u8>, EncodeError> {
    match batch_context_spec(message_count, o) {
        Err(e) => Err(e),
        Ok(_) => batch_output_spec(o, Some(mode)),
    }
}

/// Encodes the ACBO frame answering `input`.
pub(crate) fn encode_batch_output_for(input: &BatchInput<'_>, output: &BatchOutput) -> (r: Result<
    Vec<u8>,
    EncodeError,
>)
    ensures
        bytes_result(r) == batch_output_for_spec(
            input@.message_count,
            input@.required_state_output_mode,
            output@,
        ),
{
    validate_batch_context(input.message_count(), output)?;
    encode_batch_output_inner(output, Some(input.required_state_output_mode()))
}

} // verus!

verus! {

// ---------------------------------------------------------------------------
// Event field encoding
// ---------------------------------------------------------------------------
/// The kind byte of an event value.
pub open spec fn event_value_kind(v: EventValueView) -> u8 {
    match v {
        EventValueView::Null => 0,
        EventValueView::Bool(_) => 1,
        EventValueView::U64(_) => 2,
        EventValueView::I64(_) => 3,
        EventValueView::U128(_) => 4,
        EventValueView::I128(_) => 5,
        EventValueView::Text(_) => 6,
        EventValueView::Data(_) => 7,
        EventValueView::Address(_) => 8,
    }
}

/// The value bytes of an event value: little-endian integers (two's
/// complement for signed ones), UTF-8 text, raw data, or DApp id then
/// account id.
pub open spec fn event_value_bytes(v: EventValueView) -> Seq<u8> {
    match v {
        EventValueView::Null => Seq::empty(),
        EventValueView::Bool(b) => seq![
            if b {
                1u8
            } else {
                0u8
            },
        ],
        EventValueView::U64(x) => le64(x),
        EventValueView::I64(x) => le64(x as u64),
        EventValueView::U128(x) => le128(x),
        EventValueView::I128(x) => le128(x as u128),
        EventValueView::Text(t) => t,
        EventValueView::Data(d) => d,
        EventValueView::Address(a) => a.dapp_id + a.account_id,
    }
}

/// One encoded field: name length, kind, value length, name, value.
pub open spec fn field_bytes(f: EventFieldView) -> Seq<u8> {
    le16(f.name.len() as u16) + seq![event_value_kind(f.value)] + le16(
        event_value_bytes(f.value).len() as u16,
    ) + f.name + event_value_bytes(f.value)
}

pub open spec fn field_encoder() -> spec_fn(EventFieldView) -> Seq<u8> {
    |f: EventFieldView| field_bytes(f)
}

/// The rules on fields `i..`: names strictly increase, and names and values
/// fit a `u16` length.
pub open spec fn fields_check(fs: Seq<EventFieldView>, i: int) -> Result<(), EncodeError>
    decreases fs.len() - i,
{
    if i >= fs.len() {
        Ok(())
    } else if i > 0 && !bytes_lt(fs[i - 1].name, fs[i].name) {
        Err(EncodeError::InvalidEvent)
    } else if fs[i].name.len() > u16::MAX {
        Err(EncodeError::LengthOverflow)
    } else if event_value_bytes(fs[i].value).len() > u16::MAX {
        Err(EncodeError::LengthOverflow)
    } else {
        fields_check(fs, i + 1)
    }
}

/// The encoding of an event field list: count, two zero bytes, the fields.
pub open spec fn event_fields_spec(fs: Seq<EventFieldView>) -> Result<Seq<u8>, EncodeError> {
    if fs.len() > u16::MAX {
        Err(EncodeError::LengthOverflow)
    } else {
        match fields_check(fs, 0) {
            Err(e) => Err(e),
            Ok(_) => Ok(le16(fs.len() as u16) + le16(0) + concat_map(fs, field_encoder())),
        }
    }
}

/// The kind and the bytes of an event value.
fn encode_event_value(value: &EventValue) -> (r: Result<(u8, Vec<u8>), EncodeError>)
    ensures
        event_value_bytes(value@).len() <= u16::MAX ==> (r matches Ok((k, b)) && k
            == event_value_kind(value@) && b@ == event_value_bytes(value@)),
        event_value_bytes(value@).len() > u16::MAX ==> r == Err::<(u8, Vec<u8>), EncodeError>(
            EncodeError::LengthOverflow,
        ),
{
    let encoded: (u8, Vec<u8>) = match value {
        EventValue::Null => (0, Vec::new()),
        EventValue::Bool(b) => {
            let mut v = Vec::new();
            v.push(if *b {
                1u8
            } else {
                0u8
            });
            (1, v)
        },
        EventValue::U64(x) => (2, u64_to_le_bytes(*x)),
        EventValue::I64(x) => (3, u64_to_le_bytes(*x as u64)),
        EventValue::U128(x) => (4, u128_to_le_bytes(*x)),
        EventValue::I128(x) => (5, u128_to_le_bytes(*x as u128)),
        EventValue::Text(t) => {
            let mut v = Vec::new();
            append_bytes(&mut v, t.as_str().as_bytes());
            (6, v)
        },
        EventValue::Data(d) => (7, d.clone()),
        EventValue::Address(a) => {
            let mut v = Vec::new();
            append_bytes(&mut v, &a.dapp_id);
            append_bytes(&mut v, &a.account_id);
            (8, v)
        },
    };
    assert(encoded.1@ =~= event_value_bytes(value@));
    len_u16(encoded.1.len())?;
    Ok(encoded)
}

/// Encodes a list of event fields, whose names must strictly increase.
pub fn encode_event_fields(fields: &[EventField]) -> (r: Result<Vec<u8>, EncodeError>)
    ensures
        bytes_result(r) == event_fields_spec(fields@.map_values(|f: EventField| f@)),
{
    let ghost views = fields@.map_values(|f: EventField| f@);
    let field_count = len_u16(fields.len())?;
    let mut bytes: Vec<u8> = Vec::new();
    push_u16(&mut bytes, field_count);
    push_u16(&mut bytes, 0);
    let ghost prefix = bytes@;
    let mut previous_name: Option<&[u8]> = None;
    let mut i: usize = 0;
    while i < fields.len()
        invariant
            i <= fields@.len(),
            fields@.len() <= u16::MAX,
            views == fields@.map_values(|f: EventField| f@),
            fields_check(views, 0) == fields_check(views, i as int),
            bytes@ == prefix + concat_map(views.take(i as int), field_encoder()),
            i == 0 ==> previous_name is None,
            i > 0 ==> (previous_name matches Some(p) && p@ == views[i - 1].name),
        decreases fields@.len() - i,
    {
        let field = &fields[i];
        assert(views[i as int] == field@);
        let name = field.name.as_str().as_bytes();
        if let Some(previous) = previous_name {
            if !bytes_less(previous, name) {
                return Err(EncodeError::InvalidEvent);
            }
        }
        previous_name = Some(name);
        let name_len = len_u16(name.len())?;
        push_u16(&mut bytes, name_len);
        let (kind, value) = encode_event_value(&field.value)?;
        bytes.push(kind);
        push_u16(&mut bytes, value.len() as u16);
        append_bytes(&mut bytes, name);
        append_bytes(&mut bytes, value.as_slice());
        proof {
            lemma_concat_map_take(views, field_encoder(), i as int);
            assert(bytes@ =~= prefix + concat_map(views.take(i + 1), field_encoder()));
        }
        i += 1;
    }
    assert(views.take(views.len() as int) =~= views);
    Ok(bytes)
}

} // verus!

verus! {

/// The encoding of a failure with `status_code` and no effect: refused for
/// status 0 (a failure needs a status) and for the reserved statuses below
/// 1000, else the ACMO header with no state update and four empty sections.
pub open spec fn failure_encoding(status_code: u32) -> Result<Seq<u8>, EncodeError> {
    if status_code == 0 {
        Err(EncodeError::MissingStateUpdate)
    } else if status_code < 1000 {
        Err(EncodeError::InvalidStatusCode)
    } else {
        Ok(acmo_magic() + le32(status_code) + seq![0u8] + le32(0) + le32(0) + le32(0) + le32(0))
    }
}

/// A failure output is refused for status 0 (it lacks a state update) and
/// for the reserved statuses 1 to 999; any other status encodes as a frame
/// with no flag and empty sections.
pub proof fn lemma_failure_output_encoding(status_code: u32, mode: Option<StateOutputMode>)
    ensures
        message_output_spec(failure_output(status_code), mode) == failure_encoding(status_code),
{
    let o = failure_output(status_code);
    if status_code >= 1000 {
        assert(message_output_bytes(o) =~= acmo_magic() + le32(status_code) + seq![0u8] + le32(0)
            + le32(0) + le32(0) + le32(0));
    }
}

/// A success output that only updates the state encodes exactly when the
/// update passes the update rules and, where a mode is required, has that
/// mode; the frame then holds status 0, the state flag and the update.
pub proof fn lemma_success_output_encoding(u: StateUpdateView, mode: Option<StateOutputMode>)
    requires
        state_update_fits(u),
    ensures
        message_output_spec(success_output(u), mode) == if mode is Some && mode->Some_0 != u.mode() {
            Err::<Seq<u8>, EncodeError>(EncodeError::StateModeMismatch)
        } else {
            match state_update_check(Some(u)) {
                Err(e) => Err(e),
                Ok(_) => Ok(
                    acmo_magic() + le32(0) + seq![FLAG_HAS_STATE_UPDATE] + state_update_bytes(u)
                        + le32(0) + le32(0) + le32(0) + le32(0),
                ),
            }
        },
{
    let o = success_output(u);
    assert(message_output_bytes(o) =~= acmo_magic() + le32(0) + seq![FLAG_HAS_STATE_UPDATE]
        + state_update_bytes(u) + le32(0) + le32(0) + le32(0) + le32(0));
}

} // verus!

verus! {

/// A field whose name is UTF-8 and whose value is well-formed for its kind.
pub open spec fn field_well_formed(f: EventFieldView) -> bool {
    &&& vstd::utf8::valid_utf8(f.name)
    &&& field_value_valid(event_value_kind(f.value), event_value_bytes(f.value))
}

/// The encoding of a prefix of a list is a prefix of the list's encoding.
proof fn lemma_concat_map_prefix<T>(s: Seq<T>, f: spec_fn(T) -> Seq<u8>, j: int, k: int)
    requires
        0 <= j <= k <= s.len(),
    ensures
        concat_map(s.take(j), f).len() <= concat_map(s.take(k), f).len(),
        concat_map(s.take(k), f).subrange(0, concat_map(s.take(j), f).len() as int) == concat_map(
            s.take(j),
            f,
        ),
    decreases k - j,
{
    if j == k {
        assert(concat_map(s.take(k), f).subrange(0, concat_map(s.take(k), f).len() as int)
            =~= concat_map(s.take(k), f));
    } else {
        lemma_concat_map_prefix(s, f, j, k - 1);
        lemma_concat_map_take(s, f, k - 1);
        let a = concat_map(s.take(j), f);
        let c = concat_map(s.take(k - 1), f);
        assert((c + f(s[k - 1])).subrange(0, a.len() as int) =~= c.subrange(0, a.len() as int));
    }
}

/// Reading a well-formed encoded field moves past it.
proof fn lemma_read_field(
    b: Seq<u8>,
    pos: int,
    remaining: int,
    previous: Option<Seq<u8>>,
    fld: EventFieldView,
)
    requires
        0 <= pos,
        remaining >= 1,
        pos + field_bytes(fld).len() <= b.len(),
        b.len() <= usize::MAX,
        b.subrange(pos, pos + field_bytes(fld).len()) == field_bytes(fld),
        fld.name.len() <= u16::MAX,
        event_value_bytes(fld.value).len() <= u16::MAX,
        field_well_formed(fld),
        previous is Some ==> bytes_lt(previous->Some_0, fld.name),
    ensures
        fields_from(b, pos, remaining, previous) == fields_from(
            b,
            pos + field_bytes(fld).len(),
            remaining - 1,
            Some(fld.name),
        ),
{
    vstd::bytes::lemma_auto_spec_u16_to_from_le_bytes();
    let fb = field_bytes(fld);
    let name = fld.name;
    let value = event_value_bytes(fld.value);
    let name_len = name.len() as u16;
    let value_len = value.len() as u16;
    assert(fb =~= le16(name_len) + seq![event_value_kind(fld.value)] + le16(value_len) + name
        + value);
    assert(b.subrange(pos, pos + 2) =~= fb.subrange(0, 2));
    assert(fb.subrange(0, 2) =~= le16(name_len));
    assert(b.subrange(pos + 3, pos + 5) =~= fb.subrange(3, 5));
    assert(fb.subrange(3, 5) =~= le16(value_len));
    assert(b[pos + 2] == fb[2]);
    let nl = name.len() as int;
    let vl = value.len() as int;
    assert(fb.len() == 5 + nl + vl);
    assert(fb.subrange(5, 5 + nl) =~= name);
    assert(fb.subrange(5 + nl, 5 + nl + vl) =~= value);
    assert(b.subrange(pos + 5, pos + 5 + nl) =~= fb.subrange(5, 5 + nl));
    assert(b.subrange(pos + 5 + nl, pos + 5 + nl + vl) =~= fb.subrange(5 + nl, 5 + nl + vl));
    assert(le_u16(b, pos) == name_len);
    assert(le_u16(b, pos + 3) == value_len);
}

/// Reading fields `k..` of an encoded list reaches the end of the list.
proof fn lemma_read_fields_from(b: Seq<u8>, fs: Seq<EventFieldView>, k: int)
    requires
        0 <= k <= fs.len(),
        fs.len() <= u16::MAX,
        fields_check(fs, 0) is Ok,
        forall|i: int| 0 <= i < fs.len() ==> field_well_formed(#[trigger] fs[i]),
        b == le16(fs.len() as u16) + le16(0) + concat_map(fs, field_encoder()),
        b.len() <= usize::MAX,
    ensures
        fields_from(
            b,
            4 + concat_map(fs.take(k), field_encoder()).len() as int,
            fs.len() - k,
            if k == 0 {
                None
            } else {
                Some(fs[k - 1].name)
            },
        ) == Ok::<int, EncodeError>(b.len() as int),
    decreases fs.len() - k,
{
    vstd::bytes::lemma_auto_spec_u16_to_from_le_bytes();
    let enc = field_encoder();
    if k == fs.len() {
        assert(fs.take(k) =~= fs);
    } else {
        lemma_read_fields_from(b, fs, k + 1);
        lemma_fields_check_at(fs, 0, k);
        lemma_concat_map_take(fs, enc, k);
        lemma_concat_map_prefix(fs, enc, k + 1, fs.len() as int);
        assert(fs.take(fs.len() as int) =~= fs);
        let ck = concat_map(fs.take(k), enc);
        let ck1 = concat_map(fs.take(k + 1), enc);
        let all = concat_map(fs, enc);
        let pos = 4 + ck.len() as int;
        let fb = field_bytes(fs[k]);
        assert(ck1 == ck + fb);
        assert(all.subrange(0, ck1.len() as int) == ck1);
        assert(b.subrange(pos, pos + fb.len()) =~= fb) by {
            assert(b.subrange(pos, pos + fb.len()) =~= all.subrange(ck.len() as int, ck1.len() as int));
            assert(ck1.subrange(ck.len() as int, ck1.len() as int) =~= fb);
        }
        lemma_read_field(
            b,
            pos,
            fs.len() - k,
            if k == 0 {
                None
            } else {
                Some(fs[k - 1].name)
            },
            fs[k],
        );
    }
}

/// The rules of `fields_check` hold at every position once they hold from
/// the start.
proof fn lemma_fields_check_at(fs: Seq<EventFieldView>, i: int, k: int)
    requires
        0 <= i <= k < fs.len(),
        fields_check(fs, i) is Ok,
    ensures
        k > 0 ==> bytes_lt(fs[k - 1].name, fs[k].name),
        fs[k].name.len() <= u16::MAX,
        event_value_bytes(fs[k].value).len() <= u16::MAX,
    decreases k - i,
{
    if i < k {
        lemma_fields_check_at(fs, i + 1, k);
    }
}

/// A field taken from an [`EventField`] is well-formed.
proof fn lemma_field_view_well_formed(f: EventField)
    ensures
        field_well_formed(f@),
{
    vstd::bytes::lemma_auto_spec_u64_to_from_le_bytes();
    vstd::bytes::lemma_auto_spec_u128_to_from_le_bytes();
    vstd::utf8::encode_utf8_valid_utf8(f.name@);
    match f.value {
        EventValue::Text(t) => {
            vstd::utf8::encode_utf8_valid_utf8(t@);
        },
        EventValue::U64(x) => {
            assert(le64(x).len() == 8);
        },
        EventValue::I64(x) => {
            assert(le64(x as u64).len() == 8);
        },
        EventValue::U128(x) => {
            assert(le128(x).len() == 16);
        },
        EventValue::I128(x) => {
            assert(le128(x as u128).len() == 16);
        },
        EventValue::Address(a) => {
            assert(a.dapp_id@.len() == 32);
            assert(a.account_id@.len() == 32);
        },
        _ => {},
    }
}

/// A field list produced by the field encoder passes the field-list rules
/// that event intents are held to, and starts with the number of fields and
/// a zero reserved `u16`.
pub proof fn lemma_encoded_fields_validate(fields: Seq<EventField>)
    requires
        event_fields_spec(fields.map_values(|f: EventField| f@)) is Ok,
        event_fields_spec(fields.map_values(|f: EventField| f@))->Ok_0.len() <= usize::MAX,
    ensures
        field_list_spec(event_fields_spec(fields.map_values(|f: EventField| f@))->Ok_0) == Ok::<
            (),
            EncodeError,
        >(()),
        le_u16(event_fields_spec(fields.map_values(|f: EventField| f@))->Ok_0, 0) == fields.len(),
        le_u16(event_fields_spec(fields.map_values(|f: EventField| f@))->Ok_0, 2) == 0,
{
    vstd::bytes::lemma_auto_spec_u16_to_from_le_bytes();
    let fs = fields.map_values(|f: EventField| f@);
    let b = event_fields_spec(fs)->Ok_0;
    assert forall|i: int| 0 <= i < fs.len() implies field_well_formed(#[trigger] fs[i]) by {
        lemma_field_view_well_formed(fields[i]);
    }
    lemma_read_fields_from(b, fs, 0);
    assert(fs.take(0) =~= Seq::<EventFieldView>::empty());
    assert(b.subrange(2, 4) =~= le16(0));
    assert(le_u16(b, 2) == 0);
    assert(b.subrange(0, 2) =~= le16(fs.len() as u16));
    assert(le_u16(b, 0) == fs.len());
}

} // verus!

verus! {

/// An encoding built from records of `w` bytes each has `w` bytes per item.
proof fn lemma_concat_map_fixed_len<T>(s: Seq<T>, f: spec_fn(T) -> Seq<u8>, w: int)
    requires
        0 <= w,
        forall|i: int| 0 <= i < s.len() ==> (#[trigger] f(s[i])).len() == w,
    ensures
        concat_map(s, f).len() == w * s.len(),
    decreases s.len(),
{
    if s.len() > 0 {
        assert forall|i: int| 0 <= i < s.drop_last().len() implies (#[trigger] f(
            s.drop_last()[i],
        )).len() == w by {
            assert(s.drop_last()[i] == s[i]);
        }
        lemma_concat_map_fixed_len(s.drop_last(), f, w);
        assert(f(s.last()).len() == w);
        assert(w * (s.len() - 1) + w == w * s.len()) by (nonlinear_arith);
    }
}

/// A callback record is 12 bytes: the outbound index as a little-endian
/// `u32`, then the handler method id as a little-endian `u64`.
pub proof fn lemma_callback_record(c: CallbackIntent)
    ensures
        callback_bytes(c).len() == 12,
        vstd::bytes::spec_u32_from_le_bytes(callback_bytes(c).subrange(0, 4)) == c.outbound_index,
        vstd::bytes::spec_u64_from_le_bytes(callback_bytes(c).subrange(4, 12))
            == c.handler_method_id,
{
    vstd::bytes::lemma_auto_spec_u32_to_from_le_bytes();
    vstd::bytes::lemma_auto_spec_u64_to_from_le_bytes();
    let b = callback_bytes(c);
    assert(b.subrange(0, 4) =~= le32(c.outbound_index));
    assert(b.subrange(4, 12) =~= le64(c.handler_method_id));
}

/// An outbound record reads back as its intent: input index at 0..4,
/// destination DApp id at 4..36 and account id at 36..68, value at 68..84,
/// fuel fee at 84..100, the extra count at 100..102 and its 20-byte records,
/// then the method id, the body length and the body, which ends the record.
pub proof fn lemma_outbound_record(o: OutboundIntentView)
    requires
        outbound_fits(o),
        o.destination.dapp_id.len() == 32,
        o.destination.account_id.len() == 32,
    ensures
        ({
            let b = outbound_bytes(o);
            let x: int = 102 + 20 * o.extra.len() as int;
            &&& b.len() == x + 12 + o.body.len()
            &&& vstd::bytes::spec_u32_from_le_bytes(b.subrange(0, 4)) == o.input_index
            &&& b.subrange(4, 36) == o.destination.dapp_id
            &&& b.subrange(36, 68) == o.destination.account_id
            &&& vstd::bytes::spec_u128_from_le_bytes(b.subrange(68, 84)) == o.value_main
            &&& vstd::bytes::spec_u128_from_le_bytes(b.subrange(84, 100)) == o.fuel_fee_shells
            &&& vstd::bytes::spec_u16_from_le_bytes(b.subrange(100, 102)) == o.extra.len()
            &&& b.subrange(102, x) == concat_map(o.extra, currency_encoder())
            &&& vstd::bytes::spec_u64_from_le_bytes(b.subrange(x, x + 8)) == o.method_id
            &&& vstd::bytes::spec_u32_from_le_bytes(b.subrange(x + 8, x + 12)) == o.body.len()
            &&& b.subrange(x + 12, b.len() as int) == o.body
        }),
{
    vstd::bytes::lemma_auto_spec_u16_to_from_le_bytes();
    vstd::bytes::lemma_auto_spec_u32_to_from_le_bytes();
    vstd::bytes::lemma_auto_spec_u64_to_from_le_bytes();
    vstd::bytes::lemma_auto_spec_u128_to_from_le_bytes();
    let e = concat_map(o.extra, currency_encoder());
    assert forall|i: int| 0 <= i < o.extra.len() implies (#[trigger] currency_encoder()(
        o.extra[i],
    )).len() == 20 by {
        assert(le32(o.extra[i].currency_id).len() == 4);
        assert(le128(o.extra[i].amount).len() == 16);
    }
    lemma_concat_map_fixed_len(o.extra, currency_encoder(), 20);
    let x: int = 102 + 20 * o.extra.len() as int;
    let b = outbound_bytes(o);
    let l1 = le32(o.input_index);
    let l2 = le128(o.value_main);
    let l3 = le128(o.fuel_fee_shells);
    let l4 = le16(o.extra.len() as u16);
    let l5 = le64(o.method_id);
    let l6 = le32(o.body.len() as u32);
    assert(b =~= l1 + o.destination.dapp_id + o.destination.account_id + l2 + l3 + l4 + e + l5
        + l6 + o.body);
    assert(b.subrange(0, 4) =~= l1);
    assert(b.subrange(4, 36) =~= o.destination.dapp_id);
    assert(b.subrange(36, 68) =~= o.destination.account_id);
    assert(b.subrange(68, 84) =~= l2);
    assert(b.subrange(84, 100) =~= l3);
    assert(b.subrange(100, 102) =~= l4);
    assert(b.subrange(102, x) =~= e);
    assert(b.subrange(x, x + 8) =~= l5);
    assert(b.subrange(x + 8, x + 12) =~= l6);
    assert(b.subrange(x + 12, b.len() as int) =~= o.body);
}

/// An address value is written as its DApp id followed by its account id;
/// integer values are their little-endian bytes; a boolean is one byte,
/// 1 or 0; text and data are written as they are; null is empty.
pub proof fn lemma_event_value_bytes(v: EventValueView)
    ensures
        v matches EventValueView::Address(a) ==> event_value_bytes(v).subrange(
            0,
            a.dapp_id.len() as int,
        ) == a.dapp_id && event_value_bytes(v).subrange(
            a.dapp_id.len() as int,
            event_value_bytes(v).len() as int,
        ) == a.account_id,
        v matches EventValueView::U64(x) ==> event_value_bytes(v).len() == 8
            && vstd::bytes::spec_u64_from_le_bytes(event_value_bytes(v)) == x,
        v matches EventValueView::U128(x) ==> event_value_bytes(v).len() == 16
            && vstd::bytes::spec_u128_from_le_bytes(event_value_bytes(v)) == x,
        v matches EventValueView::I64(x) ==> event_value_bytes(v).len() == 8
            && vstd::bytes::spec_u64_from_le_bytes(event_value_bytes(v)) == x as u64,
        v matches EventValueView::I128(x) ==> event_value_bytes(v).len() == 16
            && vstd::bytes::spec_u128_from_le_bytes(event_value_bytes(v)) == x as u128,
        v matches EventValueView::Bool(x) ==> event_value_bytes(v) == seq![
            if x {
                1u8
            } else {
                0u8
            },
        ],
        v matches EventValueView::Text(t) ==> event_value_bytes(v) == t,
        v matches EventValueView::Data(d) ==> event_value_bytes(v) == d,
        v is Null ==> event_value_bytes(v).len() == 0,
{
    vstd::bytes::lemma_auto_spec_u64_to_from_le_bytes();
    vstd::bytes::lemma_auto_spec_u128_to_from_le_bytes();
    match v {
        EventValueView::Address(a) => {
            assert(event_value_bytes(v).subrange(0, a.dapp_id.len() as int) =~= a.dapp_id);
            assert(event_value_bytes(v).subrange(
                a.dapp_id.len() as int,
                event_value_bytes(v).len() as int,
            ) =~= a.account_id);
        },
        EventValueView::U128(x) => {
            assert(spec_u128_to_le_bytes(x).len() == 16);
        },
        EventValueView::I128(x) => {
            assert(spec_u128_to_le_bytes(x as u128).len() == 16);
        },
        _ => {},
    }
}

/// An encoded field reads back as the field: name length at 0..2, value kind
/// at 2, value length at 3..5, then the name and the value bytes.
pub proof fn lemma_field_record(f: EventFieldView)
    requires
        f.name.len() <= u16::MAX,
        event_value_bytes(f.value).len() <= u16::MAX,
    ensures
        ({
            let b = field_bytes(f);
            let n = f.name.len() as int;
            &&& b.len() == 5 + n + event_value_bytes(f.value).len()
            &&& vstd::bytes::spec_u16_from_le_bytes(b.subrange(0, 2)) == f.name.len()
            &&& b[2] == match f.value {
                EventValueView::Null => 0u8,
                EventValueView::Bool(_) => 1u8,
                EventValueView::U64(_) => 2u8,
                EventValueView::I64(_) => 3u8,
                EventValueView::U128(_) => 4u8,
                EventValueView::I128(_) => 5u8,
                EventValueView::Text(_) => 6u8,
                EventValueView::Data(_) => 7u8,
                EventValueView::Address(_) => 8u8,
            }
            &&& vstd::bytes::spec_u16_from_le_bytes(b.subrange(3, 5)) == event_value_bytes(
                f.value,
            ).len()
            &&& b.subrange(5, 5 + n) == f.name
            &&& b.subrange(5 + n, b.len() as int) == event_value_bytes(f.value)
        }),
{
    vstd::bytes::lemma_auto_spec_u16_to_from_le_bytes();
    let b = field_bytes(f);
    let n = f.name.len() as int;
    let l1 = le16(f.name.len() as u16);
    let l2 = le16(event_value_bytes(f.value).len() as u16);
    assert(b.subrange(0, 2) =~= l1);
    assert(b.subrange(3, 5) =~= l2);
    assert(b.subrange(5, 5 + n) =~= f.name);
    assert(b.subrange(5 + n, b.len() as int) =~= event_value_bytes(f.value));
}

/// A batch answer whose outbound or event intent belongs to a message that
/// did not succeed, or to no message of the batch, is refused with
/// `InvalidIndex`.
pub proof fn lemma_batch_effect_of_failed_message(
    message_count: u32,
    mode: StateOutputMode,
    o: BatchOutputView,
    k: int,
)
    requires
        (0 <= k < o.outbound_intents.len() && (o.outbound_intents[k].input_index
            >= o.status_codes.len() || o.status_codes[o.outbound_intents[k].input_index as int]
            != 0)) || (0 <= k < o.event_intents.len() && (o.event_intents[k].input_index
            >= o.status_codes.len() || o.status_codes[o.event_intents[k].input_index as int]
            != 0)),
    ensures
        batch_output_for_spec(message_count, mode, o) == Err::<Seq<u8>, EncodeError>(
            EncodeError::InvalidIndex,
        ),
{
    if 0 <= k < o.outbound_intents.len() && (o.outbound_intents[k].input_index
        >= o.status_codes.len() || o.status_codes[o.outbound_intents[k].input_index as int] != 0) {
        assert(!batch_effect_index_ok(o.outbound_intents[k].input_index, o.status_codes));
    } else {
        assert(!batch_effect_index_ok(o.event_intents[k].input_index, o.status_codes));
    }
}

/// A batch answer with one status per message whose every outbound and
/// event intent belongs to a message with status 0 is encoded as the frame
/// of the answer, held to the batch's state mode.
pub proof fn lemma_batch_effects_of_succeeded_messages(
    message_count: u32,
    mode: StateOutputMode,
    o: BatchOutputView,
)
    requires
        o.status_codes.len() == message_count,
        forall|k: int|
            0 <= k < o.outbound_intents.len() ==> (#[trigger] o.outbound_intents[k]).input_index
                < o.status_codes.len() && o.status_codes[o.outbound_intents[k].input_index as int]
                == 0,
        forall|k: int|
            0 <= k < o.event_intents.len() ==> (#[trigger] o.event_intents[k]).input_index
                < o.status_codes.len() && o.status_codes[o.event_intents[k].input_index as int]
                == 0,
    ensures
        batch_output_for_spec(message_count, mode, o) == batch_output_spec(o, Some(mode)),
{
}

} // verus!

verus! {

/// In an encoding built from records of `w` bytes each, item `k` is the
/// `w` bytes at `w k`.
proof fn lemma_concat_map_fixed_at<T>(s: Seq<T>, f: spec_fn(T) -> Seq<u8>, w: int, k: int)
    requires
        0 <= w,
        0 <= k < s.len(),
        forall|i: int| 0 <= i < s.len() ==> (#[trigger] f(s[i])).len() == w,
    ensures
        concat_map(s, f).len() == w * s.len(),
        w * k + w <= w * s.len(),
        concat_map(s, f).subrange(w * k, w * k + w) == f(s[k]),
    decreases s.len(),
{
    lemma_concat_map_fixed_len(s, f, w);
    let d = s.drop_last();
    assert forall|i: int| 0 <= i < d.len() implies (#[trigger] f(d[i])).len() == w by {
        assert(d[i] == s[i]);
    }
    lemma_concat_map_fixed_len(d, f, w);
    assert(w * k + w <= w * s.len()) by (nonlinear_arith)
        requires
            0 <= w,
            0 <= k < s.len(),
    ;
    assert(w * (s.len() - 1) + w == w * s.len()) by (nonlinear_arith);
    if k < s.len() - 1 {
        lemma_concat_map_fixed_at(d, f, w, k);
        assert(w * k + w <= w * d.len()) by (nonlinear_arith)
            requires
                0 <= w,
                0 <= k < d.len(),
        ;
        assert(concat_map(s, f).subrange(w * k, w * k + w) =~= concat_map(d, f).subrange(
            w * k,
            w * k + w,
        ));
        assert(d[k] == s[k]);
    } else {
        assert(concat_map(s, f).subrange(w * k, w * k + w) =~= f(s.last()));
    }
}

/// A currency record is the currency id as a little-endian `u32`, then the
/// amount as a little-endian `u128`.
pub proof fn lemma_currency_record_bytes(a: CurrencyAmount)
    ensures
        currency_bytes(a).len() == 20,
        vstd::bytes::spec_u32_from_le_bytes(currency_bytes(a).subrange(0, 4)) == a.currency_id,
        vstd::bytes::spec_u128_from_le_bytes(currency_bytes(a).subrange(4, 20)) == a.amount,
{
    vstd::bytes::lemma_auto_spec_u32_to_from_le_bytes();
    vstd::bytes::lemma_auto_spec_u128_to_from_le_bytes();
    assert(currency_bytes(a).subrange(0, 4) =~= le32(a.currency_id));
    assert(currency_bytes(a).subrange(4, 20) =~= le128(a.amount));
}

/// A patch record is the offset, the old length and the new length as
/// little-endian `u32`s, then the new bytes.
pub proof fn lemma_patch_record(p: StatePatchView)
    requires
        p.new_bytes.len() <= u32::MAX,
    ensures
        patch_bytes(p).len() == 12 + p.new_bytes.len(),
        vstd::bytes::spec_u32_from_le_bytes(patch_bytes(p).subrange(0, 4)) == p.offset,
        vstd::bytes::spec_u32_from_le_bytes(patch_bytes(p).subrange(4, 8)) == p.old_len,
        vstd::bytes::spec_u32_from_le_bytes(patch_bytes(p).subrange(8, 12)) == p.new_bytes.len(),
        patch_bytes(p).subrange(12, patch_bytes(p).len() as int) == p.new_bytes,
{
    vstd::bytes::lemma_auto_spec_u32_to_from_le_bytes();
    let b = patch_bytes(p);
    assert(b.subrange(0, 4) =~= le32(p.offset));
    assert(b.subrange(4, 8) =~= le32(p.old_len));
    assert(b.subrange(8, 12) =~= le32(p.new_bytes.len() as u32));
    assert(b.subrange(12, b.len() as int) =~= p.new_bytes);
}

/// A state update starts with its mode byte and three zero bytes; a full
/// replacement follows with the state's length as a little-endian `u32` and
/// the state, a patch list with the patch count as a little-endian `u16`, a
/// zero `u16`, and the patches.
pub proof fn lemma_state_update_record(u: StateUpdateView)
    requires
        state_update_fits(u),
    ensures
        ({
            let b = state_update_bytes(u);
            &&& b.len() >= 8
            &&& b[0] == (if u is FullReplace {
                0u8
            } else {
                1u8
            })
            &&& b[1] == 0 && b[2] == 0 && b[3] == 0
            &&& (u matches StateUpdateView::FullReplace(s) ==> {
                &&& vstd::bytes::spec_u32_from_le_bytes(b.subrange(4, 8)) == s.len()
                &&& b.subrange(8, b.len() as int) == s
            })
            &&& (u matches StateUpdateView::DataPatchList(ps) ==> {
                &&& vstd::bytes::spec_u16_from_le_bytes(b.subrange(4, 6)) == ps.len()
                &&& vstd::bytes::spec_u16_from_le_bytes(b.subrange(6, 8)) == 0
                &&& b.subrange(8, b.len() as int) == concat_map(ps, patch_encoder())
            })
        }),
{
    vstd::bytes::lemma_auto_spec_u16_to_from_le_bytes();
    vstd::bytes::lemma_auto_spec_u32_to_from_le_bytes();
    let b = state_update_bytes(u);
    match u {
        StateUpdateView::FullReplace(s) => {
            assert(b.subrange(4, 8) =~= le32(s.len() as u32));
            assert(b.subrange(8, b.len() as int) =~= s);
        },
        StateUpdateView::DataPatchList(ps) => {
            assert(b.subrange(4, 6) =~= le16(ps.len() as u16));
            assert(b.subrange(6, 8) =~= le16(0));
            assert(b.subrange(8, b.len() as int) =~= concat_map(ps, patch_encoder()));
        },
    }
}

/// An event record is the input index as a little-endian `u32`, the kind
/// byte, the event class as a little-endian `u64`, the name after its `u16`
/// length, the topics after their `u16` count, and the fields after their
/// `u32` length, which end the record.
pub proof fn lemma_event_record(e: EventIntentView)
    requires
        event_fits(e),
    ensures
        ({
            let b = event_bytes(e);
            let n: int = e.event_name.len() as int;
            let t: int = 17 + n + concat_map(e.topics, topic_encoder()).len();
            &&& b.len() == t + 4 + e.fields_binary.len()
            &&& vstd::bytes::spec_u32_from_le_bytes(b.subrange(0, 4)) == e.input_index
            &&& b[4] == (if e.kind == EventKind::External {
                0u8
            } else {
                1u8
            })
            &&& vstd::bytes::spec_u64_from_le_bytes(b.subrange(5, 13)) == e.event_class
            &&& vstd::bytes::spec_u16_from_le_bytes(b.subrange(13, 15)) == n
            &&& b.subrange(15, 15 + n) == e.event_name
            &&& vstd::bytes::spec_u16_from_le_bytes(b.subrange(15 + n, 17 + n)) == e.topics.len()
            &&& b.subrange(17 + n, t) == concat_map(e.topics, topic_encoder())
            &&& vstd::bytes::spec_u32_from_le_bytes(b.subrange(t, t + 4)) == e.fields_binary.len()
            &&& b.subrange(t + 4, b.len() as int) == e.fields_binary
        }),
{
    vstd::bytes::lemma_auto_spec_u16_to_from_le_bytes();
    vstd::bytes::lemma_auto_spec_u32_to_from_le_bytes();
    vstd::bytes::lemma_auto_spec_u64_to_from_le_bytes();
    let b = event_bytes(e);
    let n: int = e.event_name.len() as int;
    let tp = concat_map(e.topics, topic_encoder());
    let t: int = 17 + n + tp.len();
    let l1 = le32(e.input_index);
    let l2 = le64(e.event_class);
    let l3 = le16(e.event_name.len() as u16);
    let l4 = le16(e.topics.len() as u16);
    let l5 = le32(e.fields_binary.len() as u32);
    assert(b =~= l1 + seq![event_kind_byte(e.kind)] + l2 + l3 + e.event_name + l4 + tp + l5
        + e.fields_binary);
    assert(b.subrange(0, 4) =~= l1);
    assert(b.subrange(5, 13) =~= l2);
    assert(b.subrange(13, 15) =~= l3);
    assert(b.subrange(15, 15 + n) =~= e.event_name);
    assert(b.subrange(15 + n, 17 + n) =~= l4);
    assert(b.subrange(17 + n, t) =~= tp);
    assert(b.subrange(t, t + 4) =~= l5);
    assert(b.subrange(t + 4, b.len() as int) =~= e.fields_binary);
}

} // verus!

verus! {

/// An encoded ACMO frame reads back as the output: the magic, the status
/// code at 4..8, the flag byte at 8 (bit 0: a state update follows, bit 1:
/// a code-upgrade intent ends the frame), the state update, the callback
/// result body after its `u32` length, the outbound list after its `u32`
/// count, the callback intents after their `u32` count as 12-byte records
/// (outbound index, then handler method id), the event list after its `u32`
/// count, and the code-upgrade intent (target code id, then expected hash).
pub proof fn lemma_message_frame(o: MessageOutputView, mode: Option<StateOutputMode>)
    requires
        message_output_spec(o, mode) is Ok,
    ensures
        ({
            let f = message_output_spec(o, mode)->Ok_0;
            let su: int = match o.state_update {
                Some(u) => state_update_bytes(u).len() as int,
                None => 0int,
            };
            let body: int = o.callback_result_body.len() as int;
            let up: int = match o.code_upgrade_intent {
                Some(c) => (c.target_selected_code_id.len() + c.expected_code_hash.len()) as int,
                None => 0int,
            };
            let ev: int = event_list_bytes(o.event_intents).len() as int;
            let n: int = o.callback_intents.len() as int;
            let q: int = f.len() - up - ev - 12 * n - 4;
            &&& f.subrange(0, 4) == seq![0x41u8, 0x43u8, 0x4du8, 0x4fu8]
            &&& vstd::bytes::spec_u32_from_le_bytes(f.subrange(4, 8)) == o.status_code
            &&& (f[8] & 1 != 0) == o.state_update is Some
            &&& (f[8] & 2 != 0) == o.code_upgrade_intent is Some
            &&& f[8] < 4
            &&& (o.state_update matches Some(u) ==> f.subrange(9, 9 + su) == state_update_bytes(
                u,
            ))
            &&& vstd::bytes::spec_u32_from_le_bytes(f.subrange(9 + su, 13 + su)) == body
            &&& f.subrange(13 + su, 13 + su + body) == o.callback_result_body
            &&& vstd::bytes::spec_u32_from_le_bytes(f.subrange(13 + su + body, 17 + su + body))
                == o.outbound_intents.len()
            &&& 17 + su + body <= q
            &&& vstd::bytes::spec_u32_from_le_bytes(f.subrange(q, q + 4)) == n
            &&& (forall|k: int|
                0 <= k < n ==> vstd::bytes::spec_u32_from_le_bytes(
                    f.subrange(q + 4 + 12 * k, q + 8 + 12 * k),
                ) == (#[trigger] o.callback_intents[k]).outbound_index
                    && vstd::bytes::spec_u64_from_le_bytes(
                    f.subrange(q + 8 + 12 * k, q + 16 + 12 * k),
                ) == o.callback_intents[k].handler_method_id)
            &&& vstd::bytes::spec_u32_from_le_bytes(
                f.subrange(f.len() - up - ev, f.len() - up - ev + 4),
            ) == o.event_intents.len()
            &&& (o.code_upgrade_intent matches Some(c) ==> {
                &&& f.subrange(f.len() - up, f.len() - c.expected_code_hash.len())
                    == c.target_selected_code_id
                &&& f.subrange(f.len() - c.expected_code_hash.len(), f.len() as int)
                    == c.expected_code_hash
            })
        }),
{
    assert(message_output_fits(o));
    let f = message_output_bytes(o);
    assert(message_output_spec(o, mode)->Ok_0 == f);
    lemma_message_frame_bytes(o);
}

/// The layout of [`message_output_bytes`], for an output whose lengths fit.
#[verifier::spinoff_prover]
#[verifier::rlimit(50)]
proof fn lemma_message_frame_bytes(o: MessageOutputView)
    requires
        message_output_fits(o),
    ensures
        ({
            let f = message_output_bytes(o);
            let su: int = match o.state_update {
                Some(u) => state_update_bytes(u).len() as int,
                None => 0int,
            };
            let body: int = o.callback_result_body.len() as int;
            let up: int = match o.code_upgrade_intent {
                Some(c) => (c.target_selected_code_id.len() + c.expected_code_hash.len()) as int,
                None => 0int,
            };
            let ev: int = event_list_bytes(o.event_intents).len() as int;
            let n: int = o.callback_intents.len() as int;
            let q: int = f.len() - up - ev - 12 * n - 4;
            &&& f.subrange(0, 4) == seq![0x41u8, 0x43u8, 0x4du8, 0x4fu8]
            &&& vstd::bytes::spec_u32_from_le_bytes(f.subrange(4, 8)) == o.status_code
            &&& (f[8] & 1 != 0) == o.state_update is Some
            &&& (f[8] & 2 != 0) == o.code_upgrade_intent is Some
            &&& f[8] < 4
            &&& (o.state_update matches Some(u) ==> f.subrange(9, 9 + su) == state_update_bytes(
                u,
            ))
            &&& vstd::bytes::spec_u32_from_le_bytes(f.subrange(9 + su, 13 + su)) == body
            &&& f.subrange(13 + su, 13 + su + body) == o.callback_result_body
            &&& vstd::bytes::spec_u32_from_le_bytes(f.subrange(13 + su + body, 17 + su + body))
                == o.outbound_intents.len()
            &&& 17 + su + body <= q
            &&& vstd::bytes::spec_u32_from_le_bytes(f.subrange(q, q + 4)) == n
            &&& (forall|k: int|
                0 <= k < n ==> vstd::bytes::spec_u32_from_le_bytes(
                    f.subrange(q + 4 + 12 * k, q + 8 + 12 * k),
                ) == (#[trigger] o.callback_intents[k]).outbound_index
                    && vstd::bytes::spec_u64_from_le_bytes(
                    f.subrange(q + 8 + 12 * k, q + 16 + 12 * k),
                ) == o.callback_intents[k].handler_method_id)
            &&& vstd::bytes::spec_u32_from_le_bytes(
                f.subrange(f.len() - up - ev, f.len() - up - ev + 4),
            ) == o.event_intents.len()
            &&& (o.code_upgrade_intent matches Some(c) ==> {
                &&& f.subrange(f.len() - up, f.len() - c.expected_code_hash.len())
                    == c.target_selected_code_id
                &&& f.subrange(f.len() - c.expected_code_hash.len(), f.len() as int)
                    == c.expected_code_hash
            })
        }),
{
    vstd::bytes::lemma_auto_spec_u32_to_from_le_bytes();
    vstd::bytes::lemma_auto_spec_u64_to_from_le_bytes();
    let f = message_output_bytes(o);
    let sub = match o.state_update {
        Some(u) => state_update_bytes(u),
        None => Seq::<u8>::empty(),
    };
    let upb = match o.code_upgrade_intent {
        Some(c) => c.target_selected_code_id + c.expected_code_hash,
        None => Seq::<u8>::empty(),
    };
    let ob = outbound_list_bytes(o.outbound_intents);
    let cbs = concat_map(o.callback_intents, callback_encoder());
    let evb = event_list_bytes(o.event_intents);
    let flags = message_output_flags(o);
    let lb = le32(o.callback_result_body.len() as u32);
    let lc = le32(o.callback_intents.len() as u32);
    assert(f =~= acmo_magic() + le32(o.status_code) + seq![flags] + sub + lb
        + o.callback_result_body + ob + lc + cbs + evb + upb);
    let su = sub.len() as int;
    let body = o.callback_result_body.len() as int;
    let n = o.callback_intents.len() as int;
    assert forall|i: int| 0 <= i < n implies (#[trigger] callback_encoder()(
        o.callback_intents[i],
    )).len() == 12 by {
        lemma_callback_record(o.callback_intents[i]);
    }
    lemma_concat_map_fixed_len(o.callback_intents, callback_encoder(), 12);
    let q = f.len() - upb.len() - evb.len() - 12 * n - 4;
    assert(q == 13 + su + body + ob.len());
    assert(f.subrange(0, 4) =~= acmo_magic());
    assert(f.subrange(4, 8) =~= le32(o.status_code));
    assert(f[8] == flags);
    assert((1u8 & 1u8) != 0u8 && (1u8 & 2u8) == 0u8 && (2u8 & 1u8) == 0u8 && (2u8 & 2u8) != 0u8
        && (3u8 & 1u8) != 0u8 && (3u8 & 2u8) != 0u8 && (0u8 & 1u8) == 0u8 && (0u8 & 2u8) == 0u8)
        by (bit_vector);
    assert(f.subrange(9, 9 + su) =~= sub);
    assert(f.subrange(9 + su, 13 + su) =~= lb);
    assert(f.subrange(13 + su, 13 + su + body) =~= o.callback_result_body);
    assert(f.subrange(13 + su + body, 17 + su + body) =~= ob.subrange(0, 4));
    assert(ob.subrange(0, 4) =~= le32(o.outbound_intents.len() as u32));
    assert(f.subrange(q, q + 4) =~= lc);
    assert forall|k: int| 0 <= k < n implies vstd::bytes::spec_u32_from_le_bytes(
        f.subrange(q + 4 + 12 * k, q + 8 + 12 * k),
    ) == (#[trigger] o.callback_intents[k]).outbound_index && vstd::bytes::spec_u64_from_le_bytes(
        f.subrange(q + 8 + 12 * k, q + 16 + 12 * k),
    ) == o.callback_intents[k].handler_method_id by {
        lemma_concat_map_fixed_at(o.callback_intents, callback_encoder(), 12, k);
        lemma_callback_record(o.callback_intents[k]);
        let r = callback_bytes(o.callback_intents[k]);
        assert(cbs.subrange(12 * k, 12 * k + 12) == r);
        assert(f.subrange(q + 4 + 12 * k, q + 8 + 12 * k) =~= r.subrange(0, 4));
        assert(f.subrange(q + 8 + 12 * k, q + 16 + 12 * k) =~= r.subrange(4, 12));
    }
    let e0 = f.len() - upb.len() - evb.len();
    assert(f.subrange(e0, e0 + 4) =~= evb.subrange(0, 4));
    assert(evb.subrange(0, 4) =~= le32(o.event_intents.len() as u32));
    if let Some(c) = o.code_upgrade_intent {
        assert(f.subrange(f.len() - upb.len(), f.len() - c.expected_code_hash.len())
            =~= c.target_selected_code_id);
        assert(f.subrange(f.len() - c.expected_code_hash.len(), f.len() as int)
            =~= c.expected_code_hash);
    }
}

/// An encoded ACBO frame reads back as the output: the magic, the state
/// update (whose first byte is the mode), the status codes after their `u32`
/// count, one little-endian `u32` each in message order, the outbound list
/// after its `u32` count, and the event list after its `u32` count.
pub proof fn lemma_batch_frame(o: BatchOutputView, mode: Option<StateOutputMode>)
    requires
        batch_output_spec(o, mode) is Ok,
    ensures
        ({
            let f = batch_output_spec(o, mode)->Ok_0;
            let su: int = state_update_bytes(o.state_update).len() as int;
            let n: int = o.status_codes.len() as int;
            let ev: int = event_list_bytes(o.event_intents).len() as int;
            &&& f.subrange(0, 4) == seq![0x41u8, 0x43u8, 0x42u8, 0x4fu8]
            &&& f.subrange(4, 4 + su) == state_update_bytes(o.state_update)
            &&& vstd::bytes::spec_u32_from_le_bytes(f.subrange(4 + su, 8 + su)) == n
            &&& (forall|k: int|
                0 <= k < n ==> vstd::bytes::spec_u32_from_le_bytes(
                    #[trigger] f.subrange(8 + su + 4 * k, 12 + su + 4 * k),
                ) == o.status_codes[k])
            &&& vstd::bytes::spec_u32_from_le_bytes(f.subrange(8 + su + 4 * n, 12 + su + 4 * n))
                == o.outbound_intents.len()
            &&& 12 + su + 4 * n <= f.len() - ev
            &&& vstd::bytes::spec_u32_from_le_bytes(f.subrange(f.len() - ev, f.len() - ev + 4))
                == o.event_intents.len()
        }),
{
    vstd::bytes::lemma_auto_spec_u32_to_from_le_bytes();
    let f = batch_output_bytes(o);
    let sub = state_update_bytes(o.state_update);
    let ls = le32(o.status_codes.len() as u32);
    let sts = concat_map(o.status_codes, status_encoder());
    let ob = outbound_list_bytes(o.outbound_intents);
    let evb = event_list_bytes(o.event_intents);
    assert(f =~= acbo_magic() + sub + ls + sts + ob + evb);
    let su = sub.len() as int;
    let n = o.status_codes.len() as int;
    assert forall|i: int| 0 <= i < n implies (#[trigger] status_encoder()(o.status_codes[i])).len()
        == 4 by {
        assert(le32(o.status_codes[i]).len() == 4);
    }
    lemma_concat_map_fixed_len(o.status_codes, status_encoder(), 4);
    assert(f.subrange(0, 4) =~= acbo_magic());
    assert(f.subrange(4, 4 + su) =~= sub);
    assert(f.subrange(4 + su, 8 + su) =~= ls);
    assert forall|k: int| 0 <= k < n implies vstd::bytes::spec_u32_from_le_bytes(
        #[trigger] f.subrange(8 + su + 4 * k, 12 + su + 4 * k),
    ) == o.status_codes[k] by {
        lemma_concat_map_fixed_at(o.status_codes, status_encoder(), 4, k);
        assert(f.subrange(8 + su + 4 * k, 12 + su + 4 * k) =~= sts.subrange(4 * k, 4 * k + 4));
    }
    assert(f.subrange(8 + su + 4 * n, 12 + su + 4 * n) =~= ob.subrange(0, 4));
    assert(ob.subrange(0, 4) =~= le32(o.outbound_intents.len() as u32));
    assert(f.subrange(f.len() - evb.len(), f.len() - evb.len() + 4) =~= evb.subrange(0, 4));
    assert(evb.subrange(0, 4) =~= le32(o.event_intents.len() as u32));
}

} // verus!

verus! {

/// When the rule holds of every item from `i` on, it holds of each of them.
proof fn lemma_first_error_ok<T>(s: Seq<T>, f: spec_fn(T) -> Result<(), EncodeError>, i: int, k: int)
    requires
        first_error_from(s, f, i) is Ok,
        0 <= i <= k < s.len(),
    ensures
        f(s[k]) is Ok,
    decreases k - i,
{
    if i < k {
        lemma_first_error_ok(s, f, i + 1, k);
    }
}

/// Patches that pass the patch rules from `i` on, after a patch ending at
/// `previous_end`, stay inside `u32` and do not overlap, in order.
proof fn lemma_patches_ok(ps: Seq<StatePatchView>, i: int, previous_end: int, a: int, b: int)
    requires
        patches_check(ps, i, previous_end) is Ok,
        0 <= i <= a < ps.len(),
        a <= b < ps.len(),
    ensures
        previous_end <= ps[a].offset,
        ps[a].offset + ps[a].old_len <= u32::MAX,
        a < b ==> ps[a].offset + ps[a].old_len <= ps[b].offset,
    decreases b - i,
{
    if i < a {
        lemma_patches_ok(ps, i + 1, ps[i].offset + ps[i].old_len, a, b);
    } else if a < b {
        lemma_patches_ok(ps, i + 1, ps[i].offset + ps[i].old_len, a + 1, b);
    }
}

/// The patches of an accepted patch list stay inside `u32` and are in
/// increasing, non-overlapping order.
pub open spec fn patches_ordered(ps: Seq<StatePatchView>) -> bool {
    &&& forall|a: int| 0 <= a < ps.len() ==> #[trigger] ps[a].offset + ps[a].old_len <= u32::MAX
    &&& forall|a: int, b: int|
        0 <= a < b < ps.len() ==> #[trigger] ps[a].offset + ps[a].old_len <= #[trigger] ps[b].offset
}

/// An accepted outbound intent goes to an address whose DApp id and account
/// id both have a non-zero byte, and its extra currencies are in strictly
/// increasing id order.
pub open spec fn outbound_accepted(o: OutboundIntentView) -> bool {
    &&& exists|b: int| 0 <= b < o.destination.dapp_id.len() && #[trigger] o.destination.dapp_id[b] != 0
    &&& exists|b: int|
        0 <= b < o.destination.account_id.len() && #[trigger] o.destination.account_id[b] != 0
    &&& forall|j: int, k: int|
        0 <= j < k < o.extra.len() ==> #[trigger] o.extra[j].currency_id
            < #[trigger] o.extra[k].currency_id
}

proof fn lemma_state_update_ok(u: Option<StateUpdateView>)
    requires
        state_update_check(u) is Ok,
    ensures
        u matches Some(StateUpdateView::DataPatchList(ps)) ==> patches_ordered(ps),
{
    if let Some(StateUpdateView::DataPatchList(ps)) = u {
        assert forall|a: int| 0 <= a < ps.len() implies #[trigger] ps[a].offset + ps[a].old_len
            <= u32::MAX by {
            lemma_patches_ok(ps, 0, 0, a, a);
        }
        assert forall|a: int, b: int| 0 <= a < b < ps.len() implies #[trigger] ps[a].offset
            + ps[a].old_len <= #[trigger] ps[b].offset by {
            lemma_patches_ok(ps, 0, 0, a, b);
        }
    }
}

proof fn lemma_outbounds_ok(s: Seq<OutboundIntentView>, k: int)
    requires
        outbounds_check(s) is Ok,
        0 <= k < s.len(),
    ensures
        outbound_accepted(s[k]),
{
    lemma_first_error_ok(s, outbound_rules(), 0, k);
    let o = s[k];
    assert(outbound_check(o) is Ok);
    if forall|b: int| 0 <= b < o.destination.dapp_id.len() ==> o.destination.dapp_id[b] == 0 {
        assert(crate::wire::all_zero(o.destination.dapp_id));
    }
    if forall|b: int| 0 <= b < o.destination.account_id.len() ==> o.destination.account_id[b] == 0 {
        assert(crate::wire::all_zero(o.destination.account_id));
    }
}

/// An output that the ACMO encoder accepts keeps the frame's rules: its
/// status is 0 or at least 1000; a success carries a state update in the
/// required mode; a failure carries no effect at all; patches are ordered;
/// every outbound intent goes to a non-zero address with sorted extra
/// currencies; every effect belongs to input 0; and every callback intent
/// names a distinct outbound intent and a non-zero handler.
pub proof fn lemma_message_output_accepted(o: MessageOutputView, mode: Option<StateOutputMode>)
    requires
        message_output_spec(o, mode) is Ok,
    ensures
        o.status_code == 0 || o.status_code >= 1000,
        o.status_code == 0 ==> o.state_update is Some,
        o.status_code == 0 && mode is Some ==> o.state_update->Some_0.mode() == mode->Some_0,
        o.status_code != 0 ==> o.state_update is None && o.callback_result_body.len() == 0
            && o.outbound_intents.len() == 0 && o.callback_intents.len() == 0
            && o.event_intents.len() == 0 && o.code_upgrade_intent is None,
        o.state_update matches Some(StateUpdateView::DataPatchList(ps)) ==> patches_ordered(ps),
        forall|k: int|
            0 <= k < o.outbound_intents.len() ==> outbound_accepted(#[trigger] o.outbound_intents[k])
                && o.outbound_intents[k].input_index == 0,
        forall|k: int|
            0 <= k < o.event_intents.len() ==> (#[trigger] o.event_intents[k]).input_index == 0,
        forall|k: int|
            0 <= k < o.callback_intents.len() ==> (#[trigger] o.callback_intents[k]).handler_method_id
                != 0 && o.callback_intents[k].outbound_index < o.outbound_intents.len(),
        forall|j: int, k: int|
            0 <= j < k < o.callback_intents.len() ==> (#[trigger] o.callback_intents[j]).outbound_index
                != (#[trigger] o.callback_intents[k]).outbound_index,
{
    lemma_state_update_ok(o.state_update);
    assert forall|k: int| 0 <= k < o.outbound_intents.len() implies outbound_accepted(
        #[trigger] o.outbound_intents[k],
    ) && o.outbound_intents[k].input_index == 0 by {
        lemma_outbounds_ok(o.outbound_intents, k);
    }
}

/// An output that the ACBO encoder accepts keeps the frame's rules: its
/// state update is in the required mode, every status is 0 or at least 1000,
/// patches are ordered, and every outbound intent goes to a non-zero address
/// with sorted extra currencies.
pub proof fn lemma_batch_output_accepted(o: BatchOutputView, mode: Option<StateOutputMode>)
    requires
        batch_output_spec(o, mode) is Ok,
    ensures
        mode matches Some(m) ==> o.state_update.mode() == m,
        forall|k: int|
            0 <= k < o.status_codes.len() ==> #[trigger] o.status_codes[k] == 0 || o.status_codes[k]
                >= 1000,
        o.state_update matches StateUpdateView::DataPatchList(ps) ==> patches_ordered(ps),
        forall|k: int|
            0 <= k < o.outbound_intents.len() ==> outbound_accepted(
                #[trigger] o.outbound_intents[k],
            ),
{
    lemma_state_update_ok(Some(o.state_update));
    assert forall|k: int| 0 <= k < o.status_codes.len() implies #[trigger] o.status_codes[k] == 0
        || o.status_codes[k] >= 1000 by {
        assert(status_code_valid(o.status_codes[k]));
    }
    assert forall|k: int| 0 <= k < o.outbound_intents.len() implies outbound_accepted(
        #[trigger] o.outbound_intents[k],
    ) by {
        lemma_outbounds_ok(o.outbound_intents, k);
    }
}

} // verus!

verus! {

proof fn lemma_fields_check_ok(fs: Seq<EventFieldView>, i: int, k: int)
    requires
        fields_check(fs, i) is Ok,
        0 <= i <= k < fs.len(),
    ensures
        k > 0 ==> bytes_lt(fs[k - 1].name, fs[k].name),
        fs[k].name.len() <= u16::MAX,
        event_value_bytes(fs[k].value).len() <= u16::MAX,
    decreases k - i,
{
    if i < k {
        lemma_fields_check_ok(fs, i + 1, k);
    }
}

/// A field list that the encoder accepts has at most `u16::MAX` fields,
/// names in strictly increasing byte order, and names and values that fit a
/// `u16` length.
pub proof fn lemma_event_fields_accepted(fs: Seq<EventFieldView>)
    requires
        event_fields_spec(fs) is Ok,
    ensures
        fs.len() <= u16::MAX,
        forall|k: int| 0 < k < fs.len() ==> bytes_lt(fs[k - 1].name, #[trigger] fs[k].name),
        forall|k: int|
            0 <= k < fs.len() ==> (#[trigger] fs[k]).name.len() <= u16::MAX && event_value_bytes(
                fs[k].value,
            ).len() <= u16::MAX,
{
    assert forall|k: int| 0 <= k < fs.len() implies (k > 0 ==> bytes_lt(
        fs[k - 1].name,
        #[trigger] fs[k].name,
    )) && fs[k].name.len() <= u16::MAX && event_value_bytes(fs[k].value).len() <= u16::MAX by {
        lemma_fields_check_ok(fs, 0, k);
    }
}

} // verus!

verus! {

/// An answer to a message that the entrypoint accepts fits the message: an
/// init answers a deploy with no callback result, callback intent or code
/// upgrade; a message answer answers no deploy, returns a callback result
/// only when one was requested, carries a code upgrade exactly for the
/// reserved upgrade method (when it succeeds); and the frame is the ACMO
/// encoding held to the input's state mode.
pub proof fn lemma_message_output_for_accepted(
    input: MessageInputView,
    is_init: bool,
    o: MessageOutputView,
)
    requires
        message_output_for_spec(input, is_init, o) is Ok,
    ensures
        is_init ==> input.message.is_deploy() && o.callback_result_body.len() == 0
            && o.callback_intents.len() == 0 && o.code_upgrade_intent is None,
        !is_init ==> !input.message.is_deploy(),
        !is_init && o.callback_result_body.len() != 0 ==> input.message.has_callback_request(),
        !is_init && o.status_code == 0 && input.message.method_id() == 0xc2c6_c51b_c610_249d
            ==> o.code_upgrade_intent is Some,
        !is_init && input.message.method_id() != 0xc2c6_c51b_c610_249d
            ==> o.code_upgrade_intent is None,
        message_output_for_spec(input, is_init, o) == message_output_spec(
            o,
            Some(input.required_state_output_mode),
        ),
{
}

} // verus!

verus! {

/// A topic record is the topic's length as a little-endian `u16`, then the
/// topic.
pub proof fn lemma_topic_record(t: Seq<u8>)
    requires
        t.len() <= u16::MAX,
    ensures
        topic_bytes(t).len() == 2 + t.len(),
        vstd::bytes::spec_u16_from_le_bytes(topic_bytes(t).subrange(0, 2)) == t.len(),
        topic_bytes(t).subrange(2, topic_bytes(t).len() as int) == t,
{
    vstd::bytes::lemma_auto_spec_u16_to_from_le_bytes();
    assert(topic_bytes(t).subrange(0, 2) =~= le16(t.len() as u16));
    assert(topic_bytes(t).subrange(2, topic_bytes(t).len() as int) =~= t);
}

} // verus!
