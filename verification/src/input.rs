//! Decoding of the canonical ACMI and ACBI input frames.
//!
//! Every decoder is specified by a spec function over the raw bytes that gives
//! either the decoded value or the first error met when the frame is read from
//! left to right.
use crate::wire::{
    all_zero, array32_at, bytes_equal, bytes_less, bytes_lt, is_all_zero, le_u128, le_u16, le_u32, le_u64,
    u128_at, u16_at, u32_at, u64_at,
};
use crate::{
    AccountAddress, AddressView, AvmAmount, CurrencyAmount,
    ExecutionContext, ExecutionContextView, SelectedCodeId, StateOutputMode,
};
use vstd::prelude::*;
use vstd::slice::slice_subrange;

verus! {

broadcast use vstd::slice::group_slice_axioms;

/// Length of the fixed header of an internal message.
pub const INTERNAL_HEADER_LEN: usize = 192;

/// Length of the fixed header of an external message.
pub const EXTERNAL_HEADER_LEN: usize = 208;

/// Length of one extra-currency record.
pub const EXTRA_CURRENCY_LEN: usize = 20;

/// Length of one internal-event read record.
pub const INTERNAL_EVENT_READ_LEN: usize = 72;

/// Internal-message flag: the message is a callback.
pub const INTERNAL_FLAG_CALLBACK: u8 = 1;

/// Internal-message flag: the message deploys its destination.
pub const INTERNAL_FLAG_DEPLOY: u8 = 2;

/// Internal-message flag: the sender requests a callback.
pub const INTERNAL_FLAG_CALLBACK_REQUEST: u8 = 4;

/// Internal-message flag: the message declares internal-event reads.
pub const INTERNAL_FLAG_EVENT_READS: u8 = 8;

/// External-message flag: the message is signed.
pub const EXTERNAL_FLAG_SIGNED: u8 = 1;

/// External-message flag: the message deploys its destination.
pub const EXTERNAL_FLAG_DEPLOY: u8 = 2;

/// Why an input frame was refused.
#[derive(Clone, Copy, Debug, Eq, PartialEq, Structural)]
pub enum DecodeError {
    UnexpectedEof,
    IntegerOverflow,
    BadMagic,
    NonZeroReserved,
    UnknownTag,
    InvalidLength,
    InvalidValue,
    Unsorted,
    CallerMismatch,
    DestinationMismatch,
    CallbackForbidden,
    TrailingBytes,
}

// ---------------------------------------------------------------------------
// Reading model
// ---------------------------------------------------------------------------
/// The end position of reading `n` bytes at `pos` from a frame of `len`
/// bytes, or the error that reading reports.
pub open spec fn take_spec(len: int, pos: int, n: int) -> Result<int, DecodeError> {
    if pos + n > usize::MAX {
        Err(DecodeError::IntegerOverflow)
    } else if pos + n > len {
        Err(DecodeError::UnexpectedEof)
    } else {
        Ok(pos + n)
    }
}

/// The bytes `s[pos..pos + 4 + n]` form a length-prefixed field whose
/// payload is returned with the position after it.
pub open spec fn length_prefixed_spec(s: Seq<u8>, pos: int) -> Result<(int, Seq<u8>), DecodeError> {
    match take_spec(s.len() as int, pos, 4) {
        Err(e) => Err(e),
        Ok(p) => {
            let n = le_u32(s, pos) as int;
            match take_spec(s.len() as int, p, n) {
                Err(e) => Err(e),
                Ok(q) => Ok((q, s.subrange(p, q))),
            }
        },
    }
}

/// The address stored at `off` (DApp id, then account id).
pub open spec fn address_at(s: Seq<u8>, off: int) -> AddressView {
    AddressView { dapp_id: s.subrange(off, off + 32), account_id: s.subrange(off + 32, off + 64) }
}

/// An address with an all-zero DApp id or an all-zero account id.
pub open spec fn is_zero_address_spec(a: AddressView) -> bool {
    all_zero(a.dapp_id) || all_zero(a.account_id)
}

// ---------------------------------------------------------------------------
// Extra currencies
// ---------------------------------------------------------------------------
/// The canonical extra-currency list: `count` records of 20 bytes each.
#[derive(Clone, Copy, Debug, Eq, PartialEq)]
pub struct CurrencyAmounts<'a> {
    bytes: &'a [u8],
    count: u16,
}

/// The mathematical value of a [`CurrencyAmounts`].
pub struct CurrencyAmountsView {
    pub bytes: Seq<u8>,
    pub count: u16,
}

impl<'a> View for CurrencyAmounts<'a> {
    type V = CurrencyAmountsView;

    closed spec fn view(&self) -> CurrencyAmountsView {
        CurrencyAmountsView { bytes: self.bytes@, count: self.count }
    }
}

/// The currency id of record `i` of a record list.
pub open spec fn currency_id_at(records: Seq<u8>, i: int) -> u32 {
    le_u32(records, 20 * i)
}

/// Record `i` of a record list.
pub open spec fn currency_at(records: Seq<u8>, i: int) -> CurrencyAmount {
    CurrencyAmount { currency_id: le_u32(records, 20 * i), amount: le_u128(records, 20 * i + 4) }
}

/// The first `count` records have strictly increasing currency ids.
pub open spec fn currency_ids_increasing(records: Seq<u8>, count: int) -> bool {
    forall|i: int, j: int|
        #![trigger currency_id_at(records, i), currency_id_at(records, j)]
        0 <= i < j < count ==> currency_id_at(records, i) < currency_id_at(records, j)
}

/// Reads `count` extra-currency records at `pos`.
pub open spec fn currency_section_spec(s: Seq<u8>, pos: int, count: u16) -> Result<
    (int, CurrencyAmountsView),
    DecodeError,
> {
    match take_spec(s.len() as int, pos, 20 * count) {
        Err(e) => Err(e),
        Ok(end) => {
            let records = s.subrange(pos, end);
            if currency_ids_increasing(records, count as int) {
                Ok((end, CurrencyAmountsView { bytes: records, count }))
            } else {
                Err(DecodeError::Unsorted)
            }
        },
    }
}

impl<'a> CurrencyAmounts<'a> {
    /// The number of records.
    pub fn len(self) -> (r: usize)
        ensures
            r == self@.count,
    {
        self.count as usize
    }

    /// Whether there is no record.
    pub fn is_empty(self) -> (r: bool)
        ensures
            r == (self@.count == 0),
    {
        self.count == 0
    }

    /// The canonical bytes of the records.
    pub fn canonical_bytes(self) -> (r: &'a [u8])
        ensures
            r@ == self@.bytes,
    {
        self.bytes
    }

    /// An iterator over the records, from the first.
    pub fn iter(self) -> (r: CurrencyAmountIter<'a>)
        ensures
            r.remaining() == self@.bytes,
    {
        proof {
            assert(self.bytes@.subrange(0, self.bytes@.len() as int) =~= self.bytes@);
        }
        CurrencyAmountIter { bytes: self.bytes, position: 0 }
    }
}

/// Iterator over the records of a [`CurrencyAmounts`].
#[derive(Clone, Debug)]
pub struct CurrencyAmountIter<'a> {
    bytes: &'a [u8],
    position: usize,
}

impl<'a> CurrencyAmountIter<'a> {
    /// The records not yet returned.
    pub closed spec fn remaining(&self) -> Seq<u8> {
        if self.position <= self.bytes@.len() {
            self.bytes@.subrange(self.position as int, self.bytes@.len() as int)
        } else {
            Seq::empty()
        }
    }

    /// The next record, if a whole one is left.
    pub fn next(&mut self) -> (r: Option<CurrencyAmount>)
        ensures
            old(self).remaining().len() >= 20 ==> r == Some(currency_at(old(self).remaining(), 0))
                && final(self).remaining() == old(self).remaining().subrange(
                20,
                old(self).remaining().len() as int,
            ),
            old(self).remaining().len() < 20 ==> r is None && final(self).remaining() == old(
                self,
            ).remaining(),
    {
        if self.position > self.bytes.len() || self.bytes.len() - self.position < 20 {
            return None;
        }
        let p = self.position;
        let amount = CurrencyAmount { currency_id: u32_at(self.bytes, p), amount: u128_at(self.bytes, p + 4) };
        self.position = p + 20;
        proof {
            let rem = self.bytes@.subrange(p as int, self.bytes@.len() as int);
            assert(rem.subrange(0, 4) =~= self.bytes@.subrange(p as int, p + 4));
            assert(rem.subrange(4, 20) =~= self.bytes@.subrange(p + 4, p + 20));
            assert(self.remaining() =~= rem.subrange(20, rem.len() as int));
        }
        Some(amount)
    }

    /// The number of whole records left, as an exact lower and upper bound.
    pub fn size_hint(&self) -> (r: (usize, Option<usize>))
        ensures
            r.0 == self.remaining().len() / 20,
            r.1 == Some(r.0),
    {
        let remaining = if self.position <= self.bytes.len() {
            (self.bytes.len() - self.position) / 20
        } else {
            0
        };
        (remaining, Some(remaining))
    }
}

// ---------------------------------------------------------------------------
// Internal-event read requests
// ---------------------------------------------------------------------------
/// The canonical list of internal-event read requests of a message: a
/// count, two reserved bytes and `count` records of 72 bytes each.
#[derive(Clone, Copy, Debug, Eq, PartialEq)]
pub struct InternalEventReadRequests<'a> {
    canonical_bytes: &'a [u8],
    count: u16,
}

/// The mathematical value of an [`InternalEventReadRequests`].
pub struct EventReadsView {
    pub canonical_bytes: Seq<u8>,
    pub count: u16,
}

impl<'a> View for InternalEventReadRequests<'a> {
    type V = EventReadsView;

    closed spec fn view(&self) -> EventReadsView {
        EventReadsView { canonical_bytes: self.canonical_bytes@, count: self.count }
    }
}

/// One internal-event read request.
#[derive(Clone, Copy, Debug, Eq, PartialEq)]
pub struct InternalEventReadRequest {
    pub source: AccountAddress,
    pub event_class: u64,
}

/// The mathematical value of an [`InternalEventReadRequest`].
pub struct EventReadView {
    pub source: AddressView,
    pub event_class: u64,
}

impl View for InternalEventReadRequest {
    type V = EventReadView;

    open spec fn view(&self) -> EventReadView {
        EventReadView { source: self.source@, event_class: self.event_class }
    }
}

/// Record `i` of an event-read record list.
pub open spec fn event_read_at(records: Seq<u8>, i: int) -> EventReadView {
    EventReadView { source: address_at(records, 72 * i), event_class: le_u64(records, 72 * i + 64) }
}

/// The order of event-read keys (DApp id, account id, event class).
pub open spec fn event_read_lt(a: EventReadView, b: EventReadView) -> bool {
    bytes_lt(a.source.dapp_id, b.source.dapp_id) || (a.source.dapp_id == b.source.dapp_id && (
    bytes_lt(a.source.account_id, b.source.account_id) || (a.source.account_id
        == b.source.account_id && a.event_class < b.event_class)))
}

/// Each of the first `count` records has a key greater than the one before.
pub open spec fn event_reads_increasing(records: Seq<u8>, count: int) -> bool {
    forall|i: int|
        #![trigger event_read_at(records, i)]
        0 < i < count ==> event_read_lt(event_read_at(records, i - 1), event_read_at(records, i))
}

/// Reads the event-read list at `pos`.
pub open spec fn event_reads_section_spec(s: Seq<u8>, pos: int) -> Result<
    (int, EventReadsView),
    DecodeError,
> {
    match take_spec(s.len() as int, pos, 2) {
        Err(e) => Err(e),
        Ok(p1) => {
            let count = le_u16(s, pos);
            if count == 0 {
                Err(DecodeError::InvalidValue)
            } else {
                match take_spec(s.len() as int, p1, 2) {
                    Err(e) => Err(e),
                    Ok(p2) => if !all_zero(s.subrange(p1, p2)) {
                        Err(DecodeError::NonZeroReserved)
                    } else {
                        match take_spec(s.len() as int, p2, 72 * count) {
                            Err(e) => Err(e),
                            Ok(p3) => if event_reads_increasing(s.subrange(p2, p3), count as int) {
                                Ok((p3, EventReadsView { canonical_bytes: s.subrange(pos, p3), count }))
                            } else {
                                Err(DecodeError::Unsorted)
                            },
                        }
                    },
                }
            }
        },
    }
}

impl<'a> InternalEventReadRequests<'a> {
    /// The number of requests.
    pub fn len(self) -> (r: usize)
        ensures
            r == self@.count,
    {
        self.count as usize
    }

    /// Whether there is no request.
    pub fn is_empty(self) -> (r: bool)
        ensures
            r == (self@.count == 0),
    {
        self.count == 0
    }

    /// The canonical bytes of the list, count and reserved bytes included.
    pub fn canonical_bytes(self) -> (r: &'a [u8])
        ensures
            r@ == self@.canonical_bytes,
    {
        self.canonical_bytes
    }

    /// An iterator over the requests, from the first.
    pub fn iter(self) -> (r: InternalEventReadRequestIter<'a>)
        ensures
            self@.canonical_bytes.len() >= 4 ==> r.remaining() == self@.canonical_bytes.subrange(
                4,
                self@.canonical_bytes.len() as int,
            ),
            self@.canonical_bytes.len() < 4 ==> r.remaining().len() == 0,
    {
        let bytes: &'a [u8] = if self.canonical_bytes.len() >= 4 {
            slice_subrange(self.canonical_bytes, 4, self.canonical_bytes.len())
        } else {
            slice_subrange(self.canonical_bytes, 0, 0)
        };
        let r = InternalEventReadRequestIter { bytes, position: 0 };
        assert(bytes@.subrange(0, bytes@.len() as int) =~= bytes@);
        r
    }
}

/// Iterator over an [`InternalEventReadRequests`].
#[derive(Clone, Debug)]
pub struct InternalEventReadRequestIter<'a> {
    bytes: &'a [u8],
    position: usize,
}

impl<'a> InternalEventReadRequestIter<'a> {
    /// The records not yet returned.
    pub closed spec fn remaining(&self) -> Seq<u8> {
        if self.position <= self.bytes@.len() {
            self.bytes@.subrange(self.position as int, self.bytes@.len() as int)
        } else {
            Seq::empty()
        }
    }

    /// The next request, if a whole record is left.
    pub fn next(&mut self) -> (r: Option<InternalEventReadRequest>)
        ensures
            old(self).remaining().len() >= 72 ==> (r matches Some(q) && q@ == event_read_at(
                old(self).remaining(),
                0,
            ) && final(self).remaining() == old(self).remaining().subrange(
                72,
                old(self).remaining().len() as int,
            )),
            old(self).remaining().len() < 72 ==> r is None && final(self).remaining() == old(
                self,
            ).remaining(),
    {
        if self.position > self.bytes.len() || self.bytes.len() - self.position < 72 {
            return None;
        }
        let p = self.position;
        let request = read_event_request(self.bytes, p);
        self.position = p + 72;
        proof {
            let rem = self.bytes@.subrange(p as int, self.bytes@.len() as int);
            assert(rem.subrange(0, 32) =~= self.bytes@.subrange(p as int, p + 32));
            assert(rem.subrange(32, 64) =~= self.bytes@.subrange(p + 32, p + 64));
            assert(rem.subrange(64, 72) =~= self.bytes@.subrange(p + 64, p + 72));
            assert(self.remaining() =~= rem.subrange(72, rem.len() as int));
        }
        Some(request)
    }

    /// The number of whole requests left, as an exact lower and upper bound.
    pub fn size_hint(&self) -> (r: (usize, Option<usize>))
        ensures
            r.0 == self.remaining().len() / 72,
            r.1 == Some(r.0),
    {
        let remaining = if self.position <= self.bytes.len() {
            (self.bytes.len() - self.position) / 72
        } else {
            0
        };
        (remaining, Some(remaining))
    }
}

/// Reads the event-read record at `off`.
fn read_event_request(bytes: &[u8], off: usize) -> (r: InternalEventReadRequest)
    requires
        off + 72 <= bytes.len(),
    ensures
        r@.source == address_at(bytes@, off as int),
        r.event_class == le_u64(bytes@, off + 64),
{
    InternalEventReadRequest {
        source: AccountAddress {
            dapp_id: array32_at(bytes, off),
            account_id: array32_at(bytes, off + 32),
        },
        event_class: u64_at(bytes, off + 64),
    }
}

// ---------------------------------------------------------------------------
// Reader
// ---------------------------------------------------------------------------
/// A cursor over a frame.
struct Reader<'a> {
    bytes: &'a [u8],
    position: usize,
}

impl<'a> Reader<'a> {
    fn new(bytes: &'a [u8]) -> (r: Self)
        ensures
            r.bytes@ == bytes@,
            r.position == 0,
    {
        Reader { bytes, position: 0 }
    }

    fn with_position(bytes: &'a [u8], position: usize) -> (r: Result<Self, DecodeError>)
        ensures
            position <= bytes@.len() ==> (r matches Ok(rd) && rd.bytes@ == bytes@ && rd.position
                == position),
            position > bytes@.len() ==> r == Err::<Self, DecodeError>(DecodeError::UnexpectedEof),
    {
        if position > bytes.len() {
            return Err(DecodeError::UnexpectedEof);
        }
        Ok(Reader { bytes, position })
    }

    fn take(&mut self, length: usize) -> (r: Result<&'a [u8], DecodeError>)
        requires
            old(self).position <= old(self).bytes@.len(),
        ensures
            final(self).bytes@ == old(self).bytes@,
            final(self).position <= final(self).bytes@.len(),
            match take_spec(old(self).bytes@.len() as int, old(self).position as int, length as int) {
                Ok(end) => final(self).position == end && (r matches Ok(v) && v@ == old(
                    self,
                ).bytes@.subrange(old(self).position as int, end)),
                Err(e) => r == Err::<&'a [u8], DecodeError>(e),
            },
    {
        if self.position > usize::MAX - length {
            return Err(DecodeError::IntegerOverflow);
        }
        let end = self.position + length;
        if end > self.bytes.len() {
            return Err(DecodeError::UnexpectedEof);
        }
        let value = slice_subrange(self.bytes, self.position, end);
        self.position = end;
        Ok(value)
    }

    fn u8(&mut self) -> (r: Result<u8, DecodeError>)
        requires
            old(self).position <= old(self).bytes@.len(),
        ensures
            final(self).bytes@ == old(self).bytes@,
            final(self).position <= final(self).bytes@.len(),
            match take_spec(old(self).bytes@.len() as int, old(self).position as int, 1) {
                Ok(end) => final(self).position == end && r == Ok::<u8, DecodeError>(
                    old(self).bytes@[old(self).position as int],
                ),
                Err(e) => r == Err::<u8, DecodeError>(e),
            },
    {
        let v = self.take(1)?;
        Ok(v[0])
    }

    fn u16(&mut self) -> (r: Result<u16, DecodeError>)
        requires
            old(self).position <= old(self).bytes@.len(),
        ensures
            final(self).bytes@ == old(self).bytes@,
            final(self).position <= final(self).bytes@.len(),
            match take_spec(old(self).bytes@.len() as int, old(self).position as int, 2) {
                Ok(end) => final(self).position == end && r == Ok::<u16, DecodeError>(
                    le_u16(old(self).bytes@, old(self).position as int),
                ),
                Err(e) => r == Err::<u16, DecodeError>(e),
            },
    {
        let p = self.position;
        let v = self.take(2)?;
        assert(v@.subrange(0, 2) =~= self.bytes@.subrange(p as int, p + 2));
        Ok(u16_at(v, 0))
    }

    fn u32(&mut self) -> (r: Result<u32, DecodeError>)
        requires
            old(self).position <= old(self).bytes@.len(),
        ensures
            final(self).bytes@ == old(self).bytes@,
            final(self).position <= final(self).bytes@.len(),
            match take_spec(old(self).bytes@.len() as int, old(self).position as int, 4) {
                Ok(end) => final(self).position == end && r == Ok::<u32, DecodeError>(
                    le_u32(old(self).bytes@, old(self).position as int),
                ),
                Err(e) => r == Err::<u32, DecodeError>(e),
            },
    {
        let p = self.position;
        let v = self.take(4)?;
        assert(v@.subrange(0, 4) =~= self.bytes@.subrange(p as int, p + 4));
        Ok(u32_at(v, 0))
    }

    fn u64(&mut self) -> (r: Result<u64, DecodeError>)
        requires
            old(self).position <= old(self).bytes@.len(),
        ensures
            final(self).bytes@ == old(self).bytes@,
            final(self).position <= final(self).bytes@.len(),
            match take_spec(old(self).bytes@.len() as int, old(self).position as int, 8) {
                Ok(end) => final(self).position == end && r == Ok::<u64, DecodeError>(
                    le_u64(old(self).bytes@, old(self).position as int),
                ),
                Err(e) => r == Err::<u64, DecodeError>(e),
            },
    {
        let p = self.position;
        let v = self.take(8)?;
        assert(v@.subrange(0, 8) =~= self.bytes@.subrange(p as int, p + 8));
        Ok(u64_at(v, 0))
    }

    fn u128(&mut self) -> (r: Result<u128, DecodeError>)
        requires
            old(self).position <= old(self).bytes@.len(),
        ensures
            final(self).bytes@ == old(self).bytes@,
            final(self).position <= final(self).bytes@.len(),
            match take_spec(old(self).bytes@.len() as int, old(self).position as int, 16) {
                Ok(end) => final(self).position == end && r == Ok::<u128, DecodeError>(
                    le_u128(old(self).bytes@, old(self).position as int),
                ),
                Err(e) => r == Err::<u128, DecodeError>(e),
            },
    {
        let p = self.position;
        let v = self.take(16)?;
        assert(v@.subrange(0, 16) =~= self.bytes@.subrange(p as int, p + 16));
        Ok(u128_at(v, 0))
    }

    fn array(&mut self) -> (r: Result<[u8; 32], DecodeError>)
        requires
            old(self).position <= old(self).bytes@.len(),
        ensures
            final(self).bytes@ == old(self).bytes@,
            final(self).position <= final(self).bytes@.len(),
            match take_spec(old(self).bytes@.len() as int, old(self).position as int, 32) {
                Ok(end) => final(self).position == end && (r matches Ok(a) && a@ == old(
                    self,
                ).bytes@.subrange(old(self).position as int, end)),
                Err(e) => r == Err::<[u8; 32], DecodeError>(e),
            },
    {
        let v = self.take(32)?;
        assert(v@.subrange(0, 32) =~= v@);
        Ok(array32_at(v, 0))
    }

    fn length_prefixed_u32(&mut self) -> (r: Result<&'a [u8], DecodeError>)
        requires
            old(self).position <= old(self).bytes@.len(),
        ensures
            final(self).bytes@ == old(self).bytes@,
            final(self).position <= final(self).bytes@.len(),
            match length_prefixed_spec(old(self).bytes@, old(self).position as int) {
                Ok((end, v)) => final(self).position == end && (r matches Ok(w) && w@ == v),
                Err(e) => r == Err::<&'a [u8], DecodeError>(e),
            },
    {
        let length = self.u32()?;
        self.take(length as usize)
    }

    fn finish(&self) -> (r: Result<(), DecodeError>)
        ensures
            self.position == self.bytes@.len() ==> r is Ok,
            self.position != self.bytes@.len() ==> r == Err::<(), DecodeError>(
                DecodeError::TrailingBytes,
            ),
    {
        if self.position == self.bytes.len() {
            Ok(())
        } else {
            Err(DecodeError::TrailingBytes)
        }
    }
}

/// Checks that every byte is zero.
fn require_zero(bytes: &[u8]) -> (r: Result<(), DecodeError>)
    ensures
        all_zero(bytes@) ==> r is Ok,
        !all_zero(bytes@) ==> r == Err::<(), DecodeError>(DecodeError::NonZeroReserved),
{
    if is_all_zero(bytes) {
        Ok(())
    } else {
        Err(DecodeError::NonZeroReserved)
    }
}

/// Whether an address has an all-zero DApp id or an all-zero account id.
fn is_zero_address(address: &AccountAddress) -> (r: bool)
    ensures
        r == is_zero_address_spec(address@),
{
    is_all_zero(&address.dapp_id) || is_all_zero(&address.account_id)
}

/// Whether two addresses are equal.
fn address_eq(a: &AccountAddress, b: &AccountAddress) -> (r: bool)
    ensures
        r == (a@ == b@),
{
    bytes_equal(&a.dapp_id, &b.dapp_id) && bytes_equal(&a.account_id, &b.account_id)
}

/// Whether the currency ids of `count` records increase strictly.
fn currency_ids_in_order(bytes: &[u8], count: u16) -> (r: bool)
    requires
        bytes@.len() == 20 * count,
    ensures
        r == currency_ids_increasing(bytes@, count as int),
{
    let mut i: usize = 1;
    while i < count as usize
        invariant
            bytes@.len() == 20 * count,
            1 <= i <= count || count == 0,
            currency_ids_increasing(bytes@, i as int),
        decreases count - i,
    {
        let previous = u32_at(bytes, (i - 1) * 20);
        let current = u32_at(bytes, i * 20);
        assert(previous == currency_id_at(bytes@, i - 1));
        assert(current == currency_id_at(bytes@, i as int));
        if previous >= current {
            return false;
        }
        assert forall|a: int, b: int|
            0 <= a < b < i + 1 implies #[trigger] currency_id_at(bytes@, a) < #[trigger] currency_id_at(
                bytes@,
                b,
            ) by {
            if b == i && a < i - 1 {
                assert(currency_id_at(bytes@, a) < currency_id_at(bytes@, i - 1));
            }
        }
        i += 1;
    }
    true
}

/// Reads `count` extra-currency records and checks that their ids increase.
fn read_currency_amounts_with_count<'a>(reader: &mut Reader<'a>, count: u16) -> (r: Result<
    CurrencyAmounts<'a>,
    DecodeError,
>)
    requires
        old(reader).position <= old(reader).bytes@.len(),
    ensures
        final(reader).bytes@ == old(reader).bytes@,
        final(reader).position <= final(reader).bytes@.len(),
        match currency_section_spec(old(reader).bytes@, old(reader).position as int, count) {
            Ok((end, v)) => final(reader).position == end && (r matches Ok(a) && a@ == v),
            Err(e) => r == Err::<CurrencyAmounts<'a>, DecodeError>(e),
        },
{
    let length = (count as usize) * EXTRA_CURRENCY_LEN;
    let bytes = reader.take(length)?;
    if !currency_ids_in_order(bytes, count) {
        return Err(DecodeError::Unsorted);
    }
    Ok(CurrencyAmounts { bytes, count })
}

/// Reads the count-prefixed extra-currency list.
fn read_currency_amounts<'a>(reader: &mut Reader<'a>) -> (r: Result<
    CurrencyAmounts<'a>,
    DecodeError,
>)
    requires
        old(reader).position <= old(reader).bytes@.len(),
    ensures
        final(reader).bytes@ == old(reader).bytes@,
        final(reader).position <= final(reader).bytes@.len(),
        match take_spec(old(reader).bytes@.len() as int, old(reader).position as int, 2) {
            Err(e) => r == Err::<CurrencyAmounts<'a>, DecodeError>(e),
            Ok(p) => match currency_section_spec(
                old(reader).bytes@,
                p,
                le_u16(old(reader).bytes@, old(reader).position as int),
            ) {
                Ok((end, v)) => final(reader).position == end && (r matches Ok(a) && a@ == v),
                Err(e) => r == Err::<CurrencyAmounts<'a>, DecodeError>(e),
            },
        },
{
    let count = reader.u16()?;
    read_currency_amounts_with_count(reader, count)
}

} // verus!

verus! {

/// The error or the view of a decoded value.
pub open spec fn view_result<T: View>(r: Result<T, DecodeError>) -> Result<T::V, DecodeError> {
    match r {
        Ok(v) => Ok(v@),
        Err(e) => Err(e),
    }
}

/// Whether the event-read records are in strictly increasing key order.
fn event_reads_in_order(records: &[u8], count: u16) -> (r: bool)
    requires
        records@.len() == 72 * count,
    ensures
        r == event_reads_increasing(records@, count as int),
{
    let mut i: usize = 1;
    while i < count as usize
        invariant
            records@.len() == 72 * count,
            1 <= i <= count || count == 0,
            forall|k: int|
                #![trigger event_read_at(records@, k)]
                0 < k < i ==> event_read_lt(event_read_at(records@, k - 1), event_read_at(records@, k)),
        decreases count - i,
    {
        let previous = read_event_request(records, (i - 1) * 72);
        let current = read_event_request(records, i * 72);
        assert(previous@ == event_read_at(records@, i - 1));
        assert(current@ == event_read_at(records@, i as int));
        let ordered = if bytes_less(&previous.source.dapp_id, &current.source.dapp_id) {
            true
        } else if bytes_equal(&previous.source.dapp_id, &current.source.dapp_id) {
            if bytes_less(&previous.source.account_id, &current.source.account_id) {
                true
            } else if bytes_equal(&previous.source.account_id, &current.source.account_id) {
                previous.event_class < current.event_class
            } else {
                false
            }
        } else {
            false
        };
        if !ordered {
            return false;
        }
        i += 1;
    }
    true
}

/// Reads the event-read list of an internal message.
fn read_event_reads<'a>(reader: &mut Reader<'a>) -> (r: Result<
    InternalEventReadRequests<'a>,
    DecodeError,
>)
    requires
        old(reader).position <= old(reader).bytes@.len(),
    ensures
        final(reader).bytes@ == old(reader).bytes@,
        final(reader).position <= final(reader).bytes@.len(),
        match event_reads_section_spec(old(reader).bytes@, old(reader).position as int) {
            Ok((end, v)) => final(reader).position == end && (r matches Ok(a) && a@ == v),
            Err(e) => r == Err::<InternalEventReadRequests<'a>, DecodeError>(e),
        },
{
    let start = reader.position;
    let count = reader.u16()?;
    if count == 0 {
        return Err(DecodeError::InvalidValue);
    }
    require_zero(reader.take(2)?)?;
    let records_len = (count as usize) * INTERNAL_EVENT_READ_LEN;
    let records = reader.take(records_len)?;
    if !event_reads_in_order(records, count) {
        return Err(DecodeError::Unsorted);
    }
    let canonical_bytes = slice_subrange(reader.bytes, start, reader.position);
    Ok(InternalEventReadRequests { canonical_bytes, count })
}

// ---------------------------------------------------------------------------
// Canonical messages
// ---------------------------------------------------------------------------
/// The header of a callback message.
#[derive(Clone, Copy, Debug, Eq, PartialEq)]
pub struct CallbackHeader {
    pub cause_msg_hash: [u8; 32],
    pub cause_address: AccountAddress,
    pub status_code: u32,
}

/// The mathematical value of a [`CallbackHeader`].
pub struct CallbackHeaderView {
    pub cause_msg_hash: Seq<u8>,
    pub cause_address: AddressView,
    pub status_code: u32,
}

impl View for CallbackHeader {
    type V = CallbackHeaderView;

    open spec fn view(&self) -> CallbackHeaderView {
        CallbackHeaderView {
            cause_msg_hash: self.cause_msg_hash@,
            cause_address: self.cause_address@,
            status_code: self.status_code,
        }
    }
}

/// Reads the callback header at `pos`; its cause must be `destination`.
pub open spec fn callback_section_spec(s: Seq<u8>, pos: int, destination: AddressView) -> Result<
    (int, CallbackHeaderView),
    DecodeError,
> {
    let len = s.len() as int;
    match take_spec(len, pos, 32) {
        Err(e) => Err(e),
        Ok(p1) => match take_spec(len, p1, 32) {
            Err(e) => Err(e),
            Ok(p2) => match take_spec(len, p2, 32) {
                Err(e) => Err(e),
                Ok(p3) => match take_spec(len, p3, 4) {
                    Err(e) => Err(e),
                    Ok(p4) => {
                        let header = CallbackHeaderView {
                            cause_msg_hash: s.subrange(pos, p1),
                            cause_address: AddressView {
                                dapp_id: s.subrange(p1, p2),
                                account_id: s.subrange(p2, p3),
                            },
                            status_code: le_u32(s, p3),
                        };
                        if all_zero(header.cause_msg_hash) || is_zero_address_spec(
                            header.cause_address,
                        ) || header.cause_address != destination {
                            Err(DecodeError::InvalidValue)
                        } else {
                            Ok((p4, header))
                        }
                    },
                },
            },
        },
    }
}

/// Reads the non-zero callback handler method id at `pos`.
pub open spec fn handler_section_spec(s: Seq<u8>, pos: int) -> Result<(int, u64), DecodeError> {
    match take_spec(s.len() as int, pos, 8) {
        Err(e) => Err(e),
        Ok(p) => if le_u64(s, pos) == 0 {
            Err(DecodeError::InvalidValue)
        } else {
            Ok((p, le_u64(s, pos)))
        },
    }
}

/// A decoded internal message borrowing from its canonical bytes.
#[derive(Clone, Copy, Debug, Eq, PartialEq)]
pub struct InternalMessage<'a> {
    pub flags: u8,
    pub method_id: u64,
    pub value_main: AvmAmount,
    pub fuel_fee_shells: AvmAmount,
    pub created_lt: u64,
    pub created_at: u32,
    pub source: AccountAddress,
    pub destination: AccountAddress,
    pub callback: Option<CallbackHeader>,
    pub callback_handler_method_id: Option<u64>,
    pub event_reads: Option<InternalEventReadRequests<'a>>,
    pub extra: CurrencyAmounts<'a>,
    pub body: &'a [u8],
    pub canonical_bytes: &'a [u8],
}

/// The mathematical value of an [`InternalMessage`].
pub struct InternalMessageView {
    pub flags: u8,
    pub method_id: u64,
    pub value_main: u128,
    pub fuel_fee_shells: u128,
    pub created_lt: u64,
    pub created_at: u32,
    pub source: AddressView,
    pub destination: AddressView,
    pub callback: Option<CallbackHeaderView>,
    pub callback_handler_method_id: Option<u64>,
    pub event_reads: Option<EventReadsView>,
    pub extra: CurrencyAmountsView,
    pub body: Seq<u8>,
    pub canonical_bytes: Seq<u8>,
}

impl<'a> View for InternalMessage<'a> {
    type V = InternalMessageView;

    open spec fn view(&self) -> InternalMessageView {
        InternalMessageView {
            flags: self.flags,
            method_id: self.method_id,
            value_main: self.value_main,
            fuel_fee_shells: self.fuel_fee_shells,
            created_lt: self.created_lt,
            created_at: self.created_at,
            source: self.source@,
            destination: self.destination@,
            callback: match self.callback {
                Some(c) => Some(c@),
                None => None,
            },
            callback_handler_method_id: self.callback_handler_method_id,
            event_reads: match self.event_reads {
                Some(e) => Some(e@),
                None => None,
            },
            extra: self.extra@,
            body: self.body@,
            canonical_bytes: self.canonical_bytes@,
        }
    }
}

/// The flag byte of an internal message: only the four known flags, and a
/// callback is neither a deploy nor a callback request.
pub open spec fn internal_flags_valid(flags: u8) -> bool {
    flags & !(INTERNAL_FLAG_CALLBACK | INTERNAL_FLAG_DEPLOY | INTERNAL_FLAG_CALLBACK_REQUEST
        | INTERNAL_FLAG_EVENT_READS) == 0 && !(flags & INTERNAL_FLAG_CALLBACK != 0 && flags & (
    INTERNAL_FLAG_DEPLOY | INTERNAL_FLAG_CALLBACK_REQUEST) != 0)
}

/// The optional sections of an internal message, read from position 192:
/// callback header, callback handler method id, event reads.
pub open spec fn internal_optional_sections_spec(
    s: Seq<u8>,
    flags: u8,
    destination: AddressView,
) -> Result<(int, Option<CallbackHeaderView>, Option<u64>, Option<EventReadsView>), DecodeError> {
    let callback = if flags & INTERNAL_FLAG_CALLBACK != 0 {
        match callback_section_spec(s, 192, destination) {
            Err(e) => Err(e),
            Ok((p, h)) => Ok((p, Some(h))),
        }
    } else {
        Ok((192, None))
    };
    match callback {
        Err(e) => Err(e),
        Ok((p1, callback)) => {
            let handler = if flags & INTERNAL_FLAG_CALLBACK_REQUEST != 0 {
                match handler_section_spec(s, p1) {
                    Err(e) => Err(e),
                    Ok((p, m)) => Ok((p, Some(m))),
                }
            } else {
                Ok((p1, None))
            };
            match handler {
                Err(e) => Err(e),
                Ok((p2, handler)) => {
                    let reads = if flags & INTERNAL_FLAG_EVENT_READS != 0 {
                        match event_reads_section_spec(s, p2) {
                            Err(e) => Err(e),
                            Ok((p, r)) => Ok((p, Some(r))),
                        }
                    } else {
                        Ok((p2, None))
                    };
                    match reads {
                        Err(e) => Err(e),
                        Ok((p3, reads)) => Ok((p3, callback, handler, reads)),
                    }
                },
            }
        },
    }
}

/// A callback that reports success must answer a non-zero method, and a
/// failed callback carries no body.
pub open spec fn callback_rejected(
    callback: Option<CallbackHeaderView>,
    method_id: u64,
    body: Seq<u8>,
) -> bool {
    match callback {
        Some(c) => (method_id == 0 && c.status_code == 0) || (c.status_code != 0 && body.len()
            != 0),
        None => false,
    }
}

/// The decoding of an internal message (tag byte 0).
pub open spec fn internal_message_spec(s: Seq<u8>) -> Result<InternalMessageView, DecodeError> {
    if s.len() < 192 {
        Err(DecodeError::UnexpectedEof)
    } else if !internal_flags_valid(s[1]) {
        Err(DecodeError::InvalidValue)
    } else if !all_zero(s.subrange(60, 64)) {
        Err(DecodeError::NonZeroReserved)
    } else if is_zero_address_spec(address_at(s, 64)) || is_zero_address_spec(address_at(s, 128)) {
        Err(DecodeError::InvalidValue)
    } else {
        match internal_optional_sections_spec(s, s[1], address_at(s, 128)) {
            Err(e) => Err(e),
            Ok((p3, callback, handler, reads)) => match currency_section_spec(s, p3, le_u16(s, 2)) {
                Err(e) => Err(e),
                Ok((p4, extra)) => match take_spec(s.len() as int, p4, le_u32(s, 4) as int) {
                    Err(e) => Err(e),
                    Ok(p5) => if p5 != s.len() {
                        Err(DecodeError::TrailingBytes)
                    } else if callback_rejected(callback, le_u64(s, 8), s.subrange(p4, p5)) {
                        Err(DecodeError::InvalidValue)
                    } else {
                        Ok(
                            InternalMessageView {
                                flags: s[1],
                                method_id: le_u64(s, 8),
                                value_main: le_u128(s, 16),
                                fuel_fee_shells: le_u128(s, 32),
                                created_lt: le_u64(s, 48),
                                created_at: le_u32(s, 56),
                                source: address_at(s, 64),
                                destination: address_at(s, 128),
                                callback,
                                callback_handler_method_id: handler,
                                event_reads: reads,
                                extra,
                                body: s.subrange(p4, p5),
                                canonical_bytes: s,
                            },
                        )
                    },
                },
            },
        }
    }
}

/// Reads the address stored at `off`.
fn address_at_exec(bytes: &[u8], off: usize) -> (r: AccountAddress)
    requires
        off + 64 <= bytes.len(),
    ensures
        r@ == address_at(bytes@, off as int),
{
    AccountAddress { dapp_id: array32_at(bytes, off), account_id: array32_at(bytes, off + 32) }
}

/// Reads a callback header and checks it against the message destination.
fn read_callback_header<'a>(reader: &mut Reader<'a>, destination: &AccountAddress) -> (r: Result<
    CallbackHeader,
    DecodeError,
>)
    requires
        old(reader).position <= old(reader).bytes@.len(),
    ensures
        final(reader).bytes@ == old(reader).bytes@,
        final(reader).position <= final(reader).bytes@.len(),
        match callback_section_spec(old(reader).bytes@, old(reader).position as int, destination@) {
            Ok((end, v)) => final(reader).position == end && (r matches Ok(h) && h@ == v),
            Err(e) => r == Err::<CallbackHeader, DecodeError>(e),
        },
{
    let cause_msg_hash = reader.array()?;
    let dapp_id = reader.array()?;
    let account_id = reader.array()?;
    let cause_address = AccountAddress { dapp_id, account_id };
    let status_code = reader.u32()?;
    if is_all_zero(&cause_msg_hash) || is_zero_address(&cause_address) || !address_eq(
        &cause_address,
        destination,
    ) {
        return Err(DecodeError::InvalidValue);
    }
    Ok(CallbackHeader { cause_msg_hash, cause_address, status_code })
}

/// Decodes an internal message (tag byte 0).
fn decode_internal_message(bytes: &[u8]) -> (r: Result<InternalMessage<'_>, DecodeError>)
    ensures
        view_result(r) == internal_message_spec(bytes@),
{
    if bytes.len() < INTERNAL_HEADER_LEN {
        return Err(DecodeError::UnexpectedEof);
    }
    let flags = bytes[1];
    if flags & !(INTERNAL_FLAG_CALLBACK | INTERNAL_FLAG_DEPLOY | INTERNAL_FLAG_CALLBACK_REQUEST
        | INTERNAL_FLAG_EVENT_READS) != 0 || (flags & INTERNAL_FLAG_CALLBACK != 0 && flags & (
    INTERNAL_FLAG_DEPLOY | INTERNAL_FLAG_CALLBACK_REQUEST) != 0) {
        return Err(DecodeError::InvalidValue);
    }
    require_zero(slice_subrange(bytes, 60, 64))?;
    let extra_count = u16_at(bytes, 2);
    let body_len = u32_at(bytes, 4) as usize;
    let source = address_at_exec(bytes, 64);
    let destination = address_at_exec(bytes, 128);
    if is_zero_address(&source) || is_zero_address(&destination) {
        return Err(DecodeError::InvalidValue);
    }
    let mut reader = Reader::with_position(bytes, INTERNAL_HEADER_LEN)?;
    let callback = if flags & INTERNAL_FLAG_CALLBACK != 0 {
        Some(read_callback_header(&mut reader, &destination)?)
    } else {
        None
    };
    let callback_handler_method_id = if flags & INTERNAL_FLAG_CALLBACK_REQUEST != 0 {
        let method_id = reader.u64()?;
        if method_id == 0 {
            return Err(DecodeError::InvalidValue);
        }
        Some(method_id)
    } else {
        None
    };
    let event_reads = if flags & INTERNAL_FLAG_EVENT_READS != 0 {
        Some(read_event_reads(&mut reader)?)
    } else {
        None
    };
    let extra = read_currency_amounts_with_count(&mut reader, extra_count)?;
    let body = reader.take(body_len)?;
    reader.finish()?;
    let method_id = u64_at(bytes, 8);
    if let Some(callback) = callback {
        if (method_id == 0 && callback.status_code == 0) || (callback.status_code != 0
            && !body.is_empty()) {
            return Err(DecodeError::InvalidValue);
        }
    }
    Ok(
        InternalMessage {
            flags,
            method_id,
            value_main: u128_at(bytes, 16),
            fuel_fee_shells: u128_at(bytes, 32),
            created_lt: u64_at(bytes, 48),
            created_at: u32_at(bytes, 56),
            source,
            destination,
            callback,
            callback_handler_method_id,
            event_reads,
            extra,
            body,
            canonical_bytes: bytes,
        },
    )
}

} // verus!

verus! {

/// A decoded external message borrowing from its canonical bytes.
#[derive(Clone, Copy, Debug, Eq, PartialEq)]
pub struct ExternalMessage<'a> {
    pub flags: u8,
    pub method_id: u64,
    pub value_main: AvmAmount,
    pub fuel_fee_shells: AvmAmount,
    pub nonce: u64,
    pub created_at: u32,
    pub expire_at: u32,
    pub destination: AccountAddress,
    pub pubkey: [u8; 32],
    pub extra: CurrencyAmounts<'a>,
    pub body: &'a [u8],
    pub signature: &'a [u8],
    pub canonical_bytes: &'a [u8],
}

/// The mathematical value of an [`ExternalMessage`].
pub struct ExternalMessageView {
    pub flags: u8,
    pub method_id: u64,
    pub value_main: u128,
    pub fuel_fee_shells: u128,
    pub nonce: u64,
    pub created_at: u32,
    pub expire_at: u32,
    pub destination: AddressView,
    pub pubkey: Seq<u8>,
    pub extra: CurrencyAmountsView,
    pub body: Seq<u8>,
    pub signature: Seq<u8>,
    pub canonical_bytes: Seq<u8>,
}

impl<'a> View for ExternalMessage<'a> {
    type V = ExternalMessageView;

    open spec fn view(&self) -> ExternalMessageView {
        ExternalMessageView {
            flags: self.flags,
            method_id: self.method_id,
            value_main: self.value_main,
            fuel_fee_shells: self.fuel_fee_shells,
            nonce: self.nonce,
            created_at: self.created_at,
            expire_at: self.expire_at,
            destination: self.destination@,
            pubkey: self.pubkey@,
            extra: self.extra@,
            body: self.body@,
            signature: self.signature@,
            canonical_bytes: self.canonical_bytes@,
        }
    }
}

/// The flag byte of an external message: signed, optionally deploy, nothing
/// else.
pub open spec fn external_flags_valid(flags: u8) -> bool {
    flags & !(EXTERNAL_FLAG_SIGNED | EXTERNAL_FLAG_DEPLOY) == 0 && flags & EXTERNAL_FLAG_SIGNED
        != 0
}

/// The decoding of an external message (tag byte 1).
pub open spec fn external_message_spec(s: Seq<u8>) -> Result<ExternalMessageView, DecodeError> {
    if s.len() < 208 {
        Err(DecodeError::UnexpectedEof)
    } else if !external_flags_valid(s[1]) {
        Err(DecodeError::InvalidValue)
    } else if !all_zero(s.subrange(162, 208)) {
        Err(DecodeError::NonZeroReserved)
    } else if le_u16(s, 160) != 64 {
        Err(DecodeError::InvalidLength)
    } else if is_zero_address_spec(address_at(s, 64)) || all_zero(s.subrange(128, 160)) {
        Err(DecodeError::InvalidValue)
    } else {
        match currency_section_spec(s, 208, le_u16(s, 2)) {
            Err(e) => Err(e),
            Ok((p1, extra)) => match take_spec(s.len() as int, p1, le_u32(s, 4) as int) {
                Err(e) => Err(e),
                Ok(p2) => match take_spec(s.len() as int, p2, 64) {
                    Err(e) => Err(e),
                    Ok(p3) => if p3 != s.len() {
                        Err(DecodeError::TrailingBytes)
                    } else {
                        Ok(
                            ExternalMessageView {
                                flags: s[1],
                                method_id: le_u64(s, 8),
                                value_main: le_u128(s, 16),
                                fuel_fee_shells: le_u128(s, 32),
                                nonce: le_u64(s, 48),
                                created_at: le_u32(s, 56),
                                expire_at: le_u32(s, 60),
                                destination: address_at(s, 64),
                                pubkey: s.subrange(128, 160),
                                extra,
                                body: s.subrange(p1, p2),
                                signature: s.subrange(p2, p3),
                                canonical_bytes: s,
                            },
                        )
                    },
                },
            },
        }
    }
}

/// Decodes an external message (tag byte 1).
fn decode_external_message(bytes: &[u8]) -> (r: Result<ExternalMessage<'_>, DecodeError>)
    ensures
        view_result(r) == external_message_spec(bytes@),
{
    if bytes.len() < EXTERNAL_HEADER_LEN {
        return Err(DecodeError::UnexpectedEof);
    }
    let flags = bytes[1];
    if flags & !(EXTERNAL_FLAG_SIGNED | EXTERNAL_FLAG_DEPLOY) != 0 || flags & EXTERNAL_FLAG_SIGNED
        == 0 {
        return Err(DecodeError::InvalidValue);
    }
    require_zero(slice_subrange(bytes, 162, 208))?;
    let signature_len = u16_at(bytes, 160);
    if signature_len != 64 {
        return Err(DecodeError::InvalidLength);
    }
    let extra_count = u16_at(bytes, 2);
    let body_len = u32_at(bytes, 4) as usize;
    let destination = address_at_exec(bytes, 64);
    let pubkey = array32_at(bytes, 128);
    if is_zero_address(&destination) || is_all_zero(&pubkey) {
        return Err(DecodeError::InvalidValue);
    }
    let mut reader = Reader::with_position(bytes, EXTERNAL_HEADER_LEN)?;
    let extra = read_currency_amounts_with_count(&mut reader, extra_count)?;
    let body = reader.take(body_len)?;
    let signature = reader.take(signature_len as usize)?;
    reader.finish()?;
    Ok(
        ExternalMessage {
            flags,
            method_id: u64_at(bytes, 8),
            value_main: u128_at(bytes, 16),
            fuel_fee_shells: u128_at(bytes, 32),
            nonce: u64_at(bytes, 48),
            created_at: u32_at(bytes, 56),
            expire_at: u32_at(bytes, 60),
            destination,
            pubkey,
            extra,
            body,
            signature,
            canonical_bytes: bytes,
        },
    )
}

/// A decoded canonical message of either kind.
#[derive(Clone, Copy, Debug, Eq, PartialEq)]
pub enum CanonicalMessage<'a> {
    Internal(InternalMessage<'a>),
    External(ExternalMessage<'a>),
}

/// The mathematical value of a [`CanonicalMessage`].
pub enum CanonicalMessageView {
    Internal(InternalMessageView),
    External(ExternalMessageView),
}

impl<'a> View for CanonicalMessage<'a> {
    type V = CanonicalMessageView;

    open spec fn view(&self) -> CanonicalMessageView {
        match self {
            CanonicalMessage::Internal(m) => CanonicalMessageView::Internal(m@),
            CanonicalMessage::External(m) => CanonicalMessageView::External(m@),
        }
    }
}

impl CanonicalMessageView {
    pub open spec fn method_id(self) -> u64 {
        match self {
            CanonicalMessageView::Internal(m) => m.method_id,
            CanonicalMessageView::External(m) => m.method_id,
        }
    }

    pub open spec fn body(self) -> Seq<u8> {
        match self {
            CanonicalMessageView::Internal(m) => m.body,
            CanonicalMessageView::External(m) => m.body,
        }
    }

    pub open spec fn destination(self) -> AddressView {
        match self {
            CanonicalMessageView::Internal(m) => m.destination,
            CanonicalMessageView::External(m) => m.destination,
        }
    }

    pub open spec fn value_main(self) -> u128 {
        match self {
            CanonicalMessageView::Internal(m) => m.value_main,
            CanonicalMessageView::External(m) => m.value_main,
        }
    }

    pub open spec fn fuel_fee_shells(self) -> u128 {
        match self {
            CanonicalMessageView::Internal(m) => m.fuel_fee_shells,
            CanonicalMessageView::External(m) => m.fuel_fee_shells,
        }
    }

    pub open spec fn extra(self) -> CurrencyAmountsView {
        match self {
            CanonicalMessageView::Internal(m) => m.extra,
            CanonicalMessageView::External(m) => m.extra,
        }
    }

    pub open spec fn is_deploy(self) -> bool {
        match self {
            CanonicalMessageView::Internal(m) => m.flags & INTERNAL_FLAG_DEPLOY != 0,
            CanonicalMessageView::External(m) => m.flags & EXTERNAL_FLAG_DEPLOY != 0,
        }
    }

    pub open spec fn has_callback_request(self) -> bool {
        match self {
            CanonicalMessageView::Internal(m) => m.flags & INTERNAL_FLAG_CALLBACK_REQUEST != 0,
            CanonicalMessageView::External(m) => false,
        }
    }

    pub open spec fn is_callback(self) -> bool {
        match self {
            CanonicalMessageView::Internal(m) => m.flags & INTERNAL_FLAG_CALLBACK != 0,
            CanonicalMessageView::External(m) => false,
        }
    }

    pub open spec fn canonical_bytes(self) -> Seq<u8> {
        match self {
            CanonicalMessageView::Internal(m) => m.canonical_bytes,
            CanonicalMessageView::External(m) => m.canonical_bytes,
        }
    }
}

/// The decoding of a canonical message: the first byte selects the kind.
pub open spec fn canonical_message_spec(s: Seq<u8>) -> Result<CanonicalMessageView, DecodeError> {
    if s.len() == 0 {
        Err(DecodeError::UnexpectedEof)
    } else if s[0] == 0 {
        match internal_message_spec(s) {
            Ok(m) => Ok(CanonicalMessageView::Internal(m)),
            Err(e) => Err(e),
        }
    } else if s[0] == 1 {
        match external_message_spec(s) {
            Ok(m) => Ok(CanonicalMessageView::External(m)),
            Err(e) => Err(e),
        }
    } else {
        Err(DecodeError::UnknownTag)
    }
}

/// A canonical message is selected by its first byte (0 internal, 1
/// external, any other an unknown tag), and a decoded message keeps exactly
/// the bytes it was decoded from.
pub proof fn lemma_canonical_message(s: Seq<u8>)
    ensures
        s.len() == 0 ==> canonical_message_spec(s) == Err::<CanonicalMessageView, DecodeError>(
            DecodeError::UnexpectedEof,
        ),
        s.len() > 0 && s[0] >= 2 ==> canonical_message_spec(s) == Err::<
            CanonicalMessageView,
            DecodeError,
        >(DecodeError::UnknownTag),
        s.len() > 0 && s[0] == 0 ==> (canonical_message_spec(s) is Ok <==> internal_message_spec(
            s,
        ) is Ok),
        s.len() > 0 && s[0] == 1 ==> (canonical_message_spec(s) is Ok <==> external_message_spec(
            s,
        ) is Ok),
        canonical_message_spec(s) matches Ok(m) ==> m.canonical_bytes() == s && (s[0] == 0
            <==> m is Internal),
{
}

/// Decodes a canonical message of either kind.
fn decode_canonical_message(bytes: &[u8]) -> (r: Result<CanonicalMessage<'_>, DecodeError>)
    ensures
        view_result(r) == canonical_message_spec(bytes@),
{
    if bytes.len() == 0 {
        return Err(DecodeError::UnexpectedEof);
    }
    if bytes[0] == 0 {
        match decode_internal_message(bytes) {
            Ok(m) => Ok(CanonicalMessage::Internal(m)),
            Err(e) => Err(e),
        }
    } else if bytes[0] == 1 {
        match decode_external_message(bytes) {
            Ok(m) => Ok(CanonicalMessage::External(m)),
            Err(e) => Err(e),
        }
    } else {
        Err(DecodeError::UnknownTag)
    }
}

impl<'a> InternalMessage<'a> {
    /// Whether the message is a callback.
    pub fn is_callback(self) -> (r: bool)
        ensures
            r == (self.flags & INTERNAL_FLAG_CALLBACK != 0),
    {
        self.flags & INTERNAL_FLAG_CALLBACK != 0
    }

    /// Whether the message deploys its destination.
    pub fn is_deploy(self) -> (r: bool)
        ensures
            r == (self.flags & INTERNAL_FLAG_DEPLOY != 0),
    {
        self.flags & INTERNAL_FLAG_DEPLOY != 0
    }

    /// Whether the sender requests a callback.
    pub fn has_callback_request(self) -> (r: bool)
        ensures
            r == (self.flags & INTERNAL_FLAG_CALLBACK_REQUEST != 0),
    {
        self.flags & INTERNAL_FLAG_CALLBACK_REQUEST != 0
    }
}

impl<'a> ExternalMessage<'a> {
    /// Whether the message deploys its destination.
    pub fn is_deploy(self) -> (r: bool)
        ensures
            r == (self.flags & EXTERNAL_FLAG_DEPLOY != 0),
    {
        self.flags & EXTERNAL_FLAG_DEPLOY != 0
    }
}

impl<'a> CanonicalMessage<'a> {
    /// The method the message calls.
    pub fn method_id(self) -> (r: u64)
        ensures
            r == self@.method_id(),
    {
        match self {
            CanonicalMessage::Internal(message) => message.method_id,
            CanonicalMessage::External(message) => message.method_id,
        }
    }

    /// The call body.
    pub fn body(self) -> (r: &'a [u8])
        ensures
            r@ == self@.body(),
    {
        match self {
            CanonicalMessage::Internal(message) => message.body,
            CanonicalMessage::External(message) => message.body,
        }
    }

    /// The destination account.
    pub fn destination(self) -> (r: AccountAddress)
        ensures
            r@ == self@.destination(),
    {
        match self {
            CanonicalMessage::Internal(message) => message.destination,
            CanonicalMessage::External(message) => message.destination,
        }
    }

    /// The transferred main value.
    pub fn value_main(self) -> (r: AvmAmount)
        ensures
            r == self@.value_main(),
    {
        match self {
            CanonicalMessage::Internal(message) => message.value_main,
            CanonicalMessage::External(message) => message.value_main,
        }
    }

    /// The compute reserve.
    pub fn fuel_fee_shells(self) -> (r: AvmAmount)
        ensures
            r == self@.fuel_fee_shells(),
    {
        match self {
            CanonicalMessage::Internal(message) => message.fuel_fee_shells,
            CanonicalMessage::External(message) => message.fuel_fee_shells,
        }
    }

    /// The transferred extra currencies.
    pub fn extra(self) -> (r: CurrencyAmounts<'a>)
        ensures
            r@ == self@.extra(),
    {
        match self {
            CanonicalMessage::Internal(message) => message.extra,
            CanonicalMessage::External(message) => message.extra,
        }
    }

    /// Whether the message deploys its destination.
    pub fn is_deploy(self) -> (r: bool)
        ensures
            r == self@.is_deploy(),
    {
        match self {
            CanonicalMessage::Internal(message) => message.is_deploy(),
            CanonicalMessage::External(message) => message.is_deploy(),
        }
    }

    /// Whether the message is internal and requests a callback.
    pub fn has_callback_request(self) -> (r: bool)
        ensures
            r == self@.has_callback_request(),
    {
        match self {
            CanonicalMessage::Internal(message) => message.has_callback_request(),
            CanonicalMessage::External(_) => false,
        }
    }

    /// Whether the message is internal and is a callback.
    pub fn is_callback(self) -> (r: bool)
        ensures
            r == self@.is_callback(),
    {
        match self {
            CanonicalMessage::Internal(message) => message.is_callback(),
            CanonicalMessage::External(_) => false,
        }
    }

    /// The canonical bytes of the whole message.
    pub fn canonical_bytes(self) -> (r: &'a [u8])
        ensures
            r@ == self@.canonical_bytes(),
    {
        match self {
            CanonicalMessage::Internal(message) => message.canonical_bytes,
            CanonicalMessage::External(message) => message.canonical_bytes,
        }
    }
}

} // verus!

verus! {

// ---------------------------------------------------------------------------
// ACMI: the input of one message
// ---------------------------------------------------------------------------
/// Who sent the message being processed.
#[derive(Clone, Copy, Debug, Eq, PartialEq)]
pub enum Caller {
    Internal(AccountAddress),
    External([u8; 32]),
}

/// The mathematical value of a [`Caller`].
pub enum CallerView {
    Internal(AddressView),
    External(Seq<u8>),
}

impl View for Caller {
    type V = CallerView;

    open spec fn view(&self) -> CallerView {
        match self {
            Caller::Internal(a) => CallerView::Internal(a@),
            Caller::External(k) => CallerView::External(k@),
        }
    }
}

/// The decoded input of one message execution.
#[derive(Clone, Copy, Debug, Eq, PartialEq)]
pub struct MessageInput<'a> {
    pub context: ExecutionContext,
    pub caller: Caller,
    pub destination: AccountAddress,
    pub selected_code_id: SelectedCodeId,
    pub required_state_output_mode: StateOutputMode,
    pub balance_main: AvmAmount,
    pub extra: CurrencyAmounts<'a>,
    pub state: &'a [u8],
    pub message: CanonicalMessage<'a>,
    pub internal_event_results: &'a [u8],
}

/// The mathematical value of a [`MessageInput`].
pub struct MessageInputView {
    pub context: ExecutionContextView,
    pub caller: CallerView,
    pub destination: AddressView,
    pub selected_code_id: Seq<u8>,
    pub required_state_output_mode: StateOutputMode,
    pub balance_main: u128,
    pub extra: CurrencyAmountsView,
    pub state: Seq<u8>,
    pub message: CanonicalMessageView,
    pub internal_event_results: Seq<u8>,
}

impl<'a> View for MessageInput<'a> {
    type V = MessageInputView;

    open spec fn view(&self) -> MessageInputView {
        MessageInputView {
            context: self.context@,
            caller: self.caller@,
            destination: self.destination@,
            selected_code_id: self.selected_code_id@,
            required_state_output_mode: self.required_state_output_mode,
            balance_main: self.balance_main,
            extra: self.extra@,
            state: self.state@,
            message: self.message@,
            internal_event_results: self.internal_event_results@,
        }
    }
}

/// The magic of an ACMI frame.
pub open spec fn acmi_magic() -> Seq<u8> {
    seq![0x41u8, 0x43u8, 0x4du8, 0x49u8]
}

/// The magic of an ACBI frame.
pub open spec fn acbi_magic() -> Seq<u8> {
    seq![0x41u8, 0x43u8, 0x42u8, 0x49u8]
}

/// The execution context stored at `off`.
pub open spec fn context_at(s: Seq<u8>, off: int) -> ExecutionContextView {
    ExecutionContextView {
        block_lt: le_u64(s, off),
        block_time: le_u32(s, off + 8),
        block_seq_no: le_u32(s, off + 12),
        block_rand: s.subrange(off + 16, off + 48),
    }
}

/// The state output mode of a mode byte (0 or 1).
pub open spec fn state_output_mode_of(b: u8) -> StateOutputMode {
    if b == 0 {
        StateOutputMode::FullReplace
    } else {
        StateOutputMode::DataPatchList
    }
}

/// Who called, given the caller kind, the source address, the external key
/// stored in the frame and the message itself.
pub open spec fn caller_spec(
    kind: u8,
    source: AddressView,
    pubkey: Seq<u8>,
    message: CanonicalMessageView,
) -> Result<CallerView, DecodeError> {
    if kind == 0 {
        match message {
            CanonicalMessageView::Internal(m) => if all_zero(pubkey) && source == m.source {
                Ok(CallerView::Internal(m.source))
            } else {
                Err(DecodeError::CallerMismatch)
            },
            CanonicalMessageView::External(_) => Err(DecodeError::CallerMismatch),
        }
    } else if kind == 1 {
        match message {
            CanonicalMessageView::External(m) => if all_zero(source.dapp_id) && all_zero(
                source.account_id,
            ) && pubkey == m.pubkey {
                Ok(CallerView::External(pubkey))
            } else {
                Err(DecodeError::CallerMismatch)
            },
            CanonicalMessageView::Internal(_) => Err(DecodeError::CallerMismatch),
        }
    } else {
        Err(DecodeError::UnknownTag)
    }
}

/// The decoding of an ACMI frame.
///
/// Fixed part: magic (0..4), context (4..52), caller kind (52), reserved
/// (53..60), source address (60..124), external key (124..156), destination
/// (156..220), selected code id (220..252), state mode (252), reserved
/// (253..260), main balance (260..276), extra count (276..278); then the
/// extra records, the state, the message and the internal-event results.
pub open spec fn message_input_spec(s: Seq<u8>) -> Result<MessageInputView, DecodeError> {
    if s.len() < 4 {
        Err(DecodeError::UnexpectedEof)
    } else if s.subrange(0, 4) != acmi_magic() {
        Err(DecodeError::BadMagic)
    } else if s.len() < 60 {
        Err(DecodeError::UnexpectedEof)
    } else if !all_zero(s.subrange(53, 60)) {
        Err(DecodeError::NonZeroReserved)
    } else if s.len() < 253 {
        Err(DecodeError::UnexpectedEof)
    } else if s[252] > 1 {
        Err(DecodeError::InvalidValue)
    } else if s.len() < 260 {
        Err(DecodeError::UnexpectedEof)
    } else if !all_zero(s.subrange(253, 260)) {
        Err(DecodeError::NonZeroReserved)
    } else if s.len() < 278 {
        Err(DecodeError::UnexpectedEof)
    } else {
        match currency_section_spec(s, 278, le_u16(s, 276)) {
            Err(e) => Err(e),
            Ok((p1, extra)) => match length_prefixed_spec(s, p1) {
                Err(e) => Err(e),
                Ok((p2, state)) => match length_prefixed_spec(s, p2) {
                    Err(e) => Err(e),
                    Ok((p3, message_bytes)) => match length_prefixed_spec(s, p3) {
                        Err(e) => Err(e),
                        Ok((p4, results)) => if p4 != s.len() {
                            Err(DecodeError::TrailingBytes)
                        } else {
                            match canonical_message_spec(message_bytes) {
                                Err(e) => Err(e),
                                Ok(message) => if message.destination() != address_at(s, 156) {
                                    Err(DecodeError::DestinationMismatch)
                                } else {
                                    match caller_spec(
                                        s[52],
                                        address_at(s, 60),
                                        s.subrange(124, 156),
                                        message,
                                    ) {
                                        Err(e) => Err(e),
                                        Ok(caller) => Ok(
                                            MessageInputView {
                                                context: context_at(s, 4),
                                                caller,
                                                destination: address_at(s, 156),
                                                selected_code_id: s.subrange(220, 252),
                                                required_state_output_mode: state_output_mode_of(
                                                    s[252],
                                                ),
                                                balance_main: le_u128(s, 260),
                                                extra,
                                                state,
                                                message,
                                                internal_event_results: results,
                                            },
                                        ),
                                    }
                                },
                            }
                        },
                    },
                },
            },
        }
    }
}

/// Reads an execution context.
fn read_context(reader: &mut Reader<'_>) -> (r: Result<ExecutionContext, DecodeError>)
    requires
        old(reader).position <= old(reader).bytes@.len(),
    ensures
        final(reader).bytes@ == old(reader).bytes@,
        final(reader).position <= final(reader).bytes@.len(),
        old(reader).position + 48 <= old(reader).bytes@.len() ==> final(reader).position == old(
            reader,
        ).position + 48 && (r matches Ok(c) && c@ == context_at(
            old(reader).bytes@,
            old(reader).position as int,
        )),
        old(reader).position + 48 > old(reader).bytes@.len() && old(reader).position + 48
            <= usize::MAX ==> r == Err::<ExecutionContext, DecodeError>(DecodeError::UnexpectedEof),
{
    proof {
        assert(reader.bytes@.len() == reader.bytes.len());
    }
    let block_lt = reader.u64()?;
    let block_time = reader.u32()?;
    let block_seq_no = reader.u32()?;
    let block_rand = reader.array()?;
    Ok(ExecutionContext { block_lt, block_time, block_seq_no, block_rand })
}

/// The state output mode of a mode byte.
fn read_state_output_mode(value: u8) -> (r: Result<StateOutputMode, DecodeError>)
    ensures
        value <= 1 ==> r == Ok::<StateOutputMode, DecodeError>(state_output_mode_of(value)),
        value > 1 ==> r == Err::<StateOutputMode, DecodeError>(DecodeError::InvalidValue),
{
    if value == 0 {
        Ok(StateOutputMode::FullReplace)
    } else if value == 1 {
        Ok(StateOutputMode::DataPatchList)
    } else {
        Err(DecodeError::InvalidValue)
    }
}

/// Whether four bytes are the given magic.
fn has_magic(bytes: &[u8], m0: u8, m1: u8, m2: u8, m3: u8) -> (r: bool)
    requires
        bytes@.len() == 4,
    ensures
        r == (bytes@ == seq![m0, m1, m2, m3]),
{
    let r = bytes[0] == m0 && bytes[1] == m1 && bytes[2] == m2 && bytes[3] == m3;
    if r {
        assert(bytes@ =~= seq![m0, m1, m2, m3]);
    } else {
        assert(bytes@ != seq![m0, m1, m2, m3]) by {
            if bytes@ == seq![m0, m1, m2, m3] {
                assert(bytes@[0] == m0 && bytes@[1] == m1 && bytes@[2] == m2 && bytes@[3] == m3);
            }
        }
    }
    r
}

/// Decodes the input of one message execution (an ACMI frame).
pub fn decode_message_input(bytes: &[u8]) -> (r: Result<MessageInput<'_>, DecodeError>)
    ensures
        view_result(r) == message_input_spec(bytes@),
{
    let mut reader = Reader::new(bytes);
    let magic = reader.take(4)?;
    if !has_magic(magic, 0x41, 0x43, 0x4d, 0x49) {
        return Err(DecodeError::BadMagic);
    }
    let context = read_context(&mut reader)?;
    let caller_kind = reader.u8()?;
    require_zero(reader.take(7)?)?;
    let src_dapp_id = reader.array()?;
    let src_account_id = reader.array()?;
    let external_pubkey = reader.array()?;
    let dest_dapp_id = reader.array()?;
    let dest_account_id = reader.array()?;
    let destination = AccountAddress { dapp_id: dest_dapp_id, account_id: dest_account_id };
    let selected_code_id = reader.array()?;
    let mode_byte = reader.u8()?;
    let required_state_output_mode = read_state_output_mode(mode_byte)?;
    require_zero(reader.take(7)?)?;
    let balance_main = reader.u128()?;
    let extra = read_currency_amounts(&mut reader)?;
    let state = reader.length_prefixed_u32()?;
    let message_bytes = reader.length_prefixed_u32()?;
    let internal_event_results = reader.length_prefixed_u32()?;
    reader.finish()?;
    proof {
        assert(bytes@.subrange(60, 92) == src_dapp_id@);
    }
    let message = decode_canonical_message(message_bytes)?;
    if !address_eq(&message.destination(), &destination) {
        return Err(DecodeError::DestinationMismatch);
    }
    let source = AccountAddress { dapp_id: src_dapp_id, account_id: src_account_id };
    let caller = if caller_kind == 0 {
        match message {
            CanonicalMessage::Internal(internal) => {
                if is_all_zero(&external_pubkey) && address_eq(&source, &internal.source) {
                    Caller::Internal(internal.source)
                } else {
                    return Err(DecodeError::CallerMismatch);
                }
            },
            CanonicalMessage::External(_) => {
                return Err(DecodeError::CallerMismatch);
            },
        }
    } else if caller_kind == 1 {
        match message {
            CanonicalMessage::External(external) => {
                if is_all_zero(&src_dapp_id) && is_all_zero(&src_account_id) && bytes_equal(
                    &external_pubkey,
                    &external.pubkey,
                ) {
                    Caller::External(external_pubkey)
                } else {
                    return Err(DecodeError::CallerMismatch);
                }
            },
            CanonicalMessage::Internal(_) => {
                return Err(DecodeError::CallerMismatch);
            },
        }
    } else {
        return Err(DecodeError::UnknownTag);
    };
    Ok(
        MessageInput {
            context,
            caller,
            destination,
            selected_code_id,
            required_state_output_mode,
            balance_main,
            extra,
            state,
            message,
            internal_event_results,
        },
    )
}

} // verus!

verus! {

// ---------------------------------------------------------------------------
// ACBI: the input of an account batch
// ---------------------------------------------------------------------------
/// The decoded input of an account-batch execution.
#[derive(Clone, Copy, Debug, Eq, PartialEq)]
pub struct BatchInput<'a> {
    pub context: ExecutionContext,
    pub destination: AccountAddress,
    pub selected_code_id: SelectedCodeId,
    pub required_state_output_mode: StateOutputMode,
    pub balance_main: AvmAmount,
    pub extra: CurrencyAmounts<'a>,
    pub state: &'a [u8],
    offsets: &'a [u8],
    messages: &'a [u8],
    message_count: u32,
    pub internal_event_results: &'a [u8],
}

/// The mathematical value of a [`BatchInput`].
pub struct BatchInputView {
    pub context: ExecutionContextView,
    pub destination: AddressView,
    pub selected_code_id: Seq<u8>,
    pub required_state_output_mode: StateOutputMode,
    pub balance_main: u128,
    pub extra: CurrencyAmountsView,
    pub state: Seq<u8>,
    pub offsets: Seq<u8>,
    pub messages: Seq<u8>,
    pub message_count: u32,
    pub internal_event_results: Seq<u8>,
}

impl<'a> View for BatchInput<'a> {
    type V = BatchInputView;

    closed spec fn view(&self) -> BatchInputView {
        BatchInputView {
            context: self.context@,
            destination: self.destination@,
            selected_code_id: self.selected_code_id@,
            required_state_output_mode: self.required_state_output_mode,
            balance_main: self.balance_main,
            extra: self.extra@,
            state: self.state@,
            offsets: self.offsets@,
            messages: self.messages@,
            message_count: self.message_count,
            internal_event_results: self.internal_event_results@,
        }
    }
}

/// Offset `index` of an offset table, or the error that reading it reports.
pub open spec fn offset_spec(offsets: Seq<u8>, index: int) -> Result<int, DecodeError> {
    if 4 * index > usize::MAX {
        Err(DecodeError::IntegerOverflow)
    } else {
        match take_spec(offsets.len() as int, 4 * index, 4) {
            Err(e) => Err(e),
            Ok(_) => Ok(le_u32(offsets, 4 * index) as int),
        }
    }
}

/// Message `index` of a batch: the bytes between offsets `index` and
/// `index + 1`, decoded.
pub open spec fn batch_message_spec(offsets: Seq<u8>, messages: Seq<u8>, index: int) -> Result<
    CanonicalMessageView,
    DecodeError,
> {
    match offset_spec(offsets, index) {
        Err(e) => Err(e),
        Ok(start) => match offset_spec(offsets, index + 1) {
            Err(e) => Err(e),
            Ok(end) => if start <= end && end <= messages.len() {
                canonical_message_spec(messages.subrange(start, end))
            } else {
                Err(DecodeError::InvalidLength)
            },
        },
    }
}

/// The check of batch messages `index..count`: offsets increase strictly and
/// stay inside the message area, each message decodes, is addressed to
/// `destination`, and neither is nor requests a callback.
pub open spec fn batch_messages_check(
    offsets: Seq<u8>,
    messages: Seq<u8>,
    destination: AddressView,
    count: int,
    index: int,
    previous: int,
) -> Result<(), DecodeError>
    decreases count - index,
{
    if index >= count {
        Ok(())
    } else {
        let end = le_u32(offsets, 4 * (index + 1)) as int;
        if end <= previous || end > messages.len() {
            Err(DecodeError::InvalidLength)
        } else {
            match canonical_message_spec(messages.subrange(previous, end)) {
                Err(e) => Err(e),
                Ok(m) => if m.destination() != destination {
                    Err(DecodeError::DestinationMismatch)
                } else if m.is_callback() || m.has_callback_request() {
                    Err(DecodeError::CallbackForbidden)
                } else {
                    batch_messages_check(offsets, messages, destination, count, index + 1, end)
                },
            }
        }
    }
}

/// The decoding of an ACBI frame.
///
/// Fixed part: magic (0..4), context (4..52), destination (52..116), selected
/// code id (116..148), state mode (148), reserved (149..156), main balance
/// (156..172), extra count (172..174); then the extra records, the state,
/// the message count, the offset table (count + 1 entries, the first 0), the
/// message area and the internal-event results.
pub open spec fn batch_input_spec(s: Seq<u8>) -> Result<BatchInputView, DecodeError> {
    if s.len() < 4 {
        Err(DecodeError::UnexpectedEof)
    } else if s.subrange(0, 4) != acbi_magic() {
        Err(DecodeError::BadMagic)
    } else if s.len() < 149 {
        Err(DecodeError::UnexpectedEof)
    } else if s[148] > 1 {
        Err(DecodeError::InvalidValue)
    } else if s.len() < 156 {
        Err(DecodeError::UnexpectedEof)
    } else if !all_zero(s.subrange(149, 156)) {
        Err(DecodeError::NonZeroReserved)
    } else if s.len() < 174 {
        Err(DecodeError::UnexpectedEof)
    } else {
        match currency_section_spec(s, 174, le_u16(s, 172)) {
            Err(e) => Err(e),
            Ok((p1, extra)) => match length_prefixed_spec(s, p1) {
                Err(e) => Err(e),
                Ok((p2, state)) => match take_spec(s.len() as int, p2, 4) {
                    Err(e) => Err(e),
                    Ok(p3) => {
                        let count = le_u32(s, p2);
                        if count == u32::MAX || 4 * (count + 1) > usize::MAX {
                            Err(DecodeError::IntegerOverflow)
                        } else {
                            match take_spec(s.len() as int, p3, 4 * (count + 1)) {
                                Err(e) => Err(e),
                                Ok(p4) => {
                                    let offsets = s.subrange(p3, p4);
                                    if le_u32(offsets, 0) != 0 {
                                        Err(DecodeError::InvalidLength)
                                    } else {
                                        match take_spec(
                                            s.len() as int,
                                            p4,
                                            le_u32(offsets, 4 * count) as int,
                                        ) {
                                            Err(e) => Err(e),
                                            Ok(p5) => match length_prefixed_spec(s, p5) {
                                                Err(e) => Err(e),
                                                Ok((p6, results)) => if p6 != s.len() {
                                                    Err(DecodeError::TrailingBytes)
                                                } else {
                                                    match batch_messages_check(
                                                        offsets,
                                                        s.subrange(p4, p5),
                                                        address_at(s, 52),
                                                        count as int,
                                                        0,
                                                        0,
                                                    ) {
                                                        Err(e) => Err(e),
                                                        Ok(_) => Ok(
                                                            BatchInputView {
                                                                context: context_at(s, 4),
                                                                destination: address_at(s, 52),
                                                                selected_code_id: s.subrange(
                                                                    116,
                                                                    148,
                                                                ),
                                                                required_state_output_mode:
                                                                    state_output_mode_of(s[148]),
                                                                balance_main: le_u128(s, 156),
                                                                extra,
                                                                state,
                                                                offsets,
                                                                messages: s.subrange(p4, p5),
                                                                message_count: count,
                                                                internal_event_results: results,
                                                            },
                                                        ),
                                                    }
                                                },
                                            },
                                        }
                                    }
                                },
                            }
                        }
                    },
                },
            },
        }
    }
}

/// Reads offset `index` of an offset table.
fn read_offset(bytes: &[u8], index: u32) -> (r: Result<usize, DecodeError>)
    ensures
        match offset_spec(bytes@, index as int) {
            Ok(v) => r == Ok::<usize, DecodeError>(v as usize),
            Err(e) => r == Err::<usize, DecodeError>(e),
        },
{
    if index as usize > usize::MAX / 4 {
        return Err(DecodeError::IntegerOverflow);
    }
    let offset = (index as usize) * 4;
    if offset > usize::MAX - 4 {
        return Err(DecodeError::IntegerOverflow);
    }
    if offset + 4 > bytes.len() {
        return Err(DecodeError::UnexpectedEof);
    }
    Ok(u32_at(bytes, offset) as usize)
}

/// Checks messages `0..count` of a batch (see [`batch_messages_check`]).
fn check_batch_messages(
    offsets: &[u8],
    messages: &[u8],
    destination: &AccountAddress,
    message_count: u32,
) -> (r: Result<(), DecodeError>)
    requires
        message_count < u32::MAX,
        offsets@.len() == 4 * (message_count + 1),
    ensures
        r == batch_messages_check(offsets@, messages@, destination@, message_count as int, 0, 0),
{
    let ghost dest = destination@;
    proof {
        assert(offsets@.len() == offsets.len());
    }
    let mut previous: usize = 0;
    let mut index: u32 = 0;
    while index < message_count
        invariant
            index <= message_count,
            offsets@.len() <= usize::MAX,
            message_count < u32::MAX,
            offsets@.len() == 4 * (message_count + 1),
            previous <= messages@.len(),
            dest == destination@,
            batch_messages_check(offsets@, messages@, dest, message_count as int, 0, 0)
                == batch_messages_check(
                offsets@,
                messages@,
                dest,
                message_count as int,
                index as int,
                previous as int,
            ),
        decreases message_count - index,
    {
        let end = u32_at(offsets, ((index + 1) as usize) * 4) as usize;
        if end <= previous || end > messages.len() {
            return Err(DecodeError::InvalidLength);
        }
        let message = decode_canonical_message(slice_subrange(messages, previous, end))?;
        if !address_eq(&message.destination(), destination) {
            return Err(DecodeError::DestinationMismatch);
        }
        if message.is_callback() || message.has_callback_request() {
            return Err(DecodeError::CallbackForbidden);
        }
        previous = end;
        index += 1;
    }
    Ok(())
}

/// Decodes the input of an account-batch execution (an ACBI frame).
pub fn decode_batch_input(bytes: &[u8]) -> (r: Result<BatchInput<'_>, DecodeError>)
    ensures
        view_result(r) == batch_input_spec(bytes@),
{
    let mut reader = Reader::new(bytes);
    let magic = reader.take(4)?;
    if !has_magic(magic, 0x41, 0x43, 0x42, 0x49) {
        return Err(DecodeError::BadMagic);
    }
    let context = read_context(&mut reader)?;
    let dest_dapp_id = reader.array()?;
    let dest_account_id = reader.array()?;
    let destination = AccountAddress { dapp_id: dest_dapp_id, account_id: dest_account_id };
    let selected_code_id = reader.array()?;
    let mode_byte = reader.u8()?;
    let required_state_output_mode = read_state_output_mode(mode_byte)?;
    require_zero(reader.take(7)?)?;
    let balance_main = reader.u128()?;
    let extra = read_currency_amounts(&mut reader)?;
    let state = reader.length_prefixed_u32()?;
    let message_count = reader.u32()?;
    if message_count == u32::MAX {
        return Err(DecodeError::IntegerOverflow);
    }
    let offset_count = message_count + 1;
    if offset_count as usize > usize::MAX / 4 {
        return Err(DecodeError::IntegerOverflow);
    }
    let offsets_len = (offset_count as usize) * 4;
    let offsets = reader.take(offsets_len)?;
    let first = read_offset(offsets, 0)?;
    if first != 0 {
        return Err(DecodeError::InvalidLength);
    }
    let messages_len = read_offset(offsets, message_count)?;
    let messages = reader.take(messages_len)?;
    let internal_event_results = reader.length_prefixed_u32()?;
    reader.finish()?;
    check_batch_messages(offsets, messages, &destination, message_count)?;
    Ok(
        BatchInput {
            context,
            destination,
            selected_code_id,
            required_state_output_mode,
            balance_main,
            extra,
            state,
            offsets,
            messages,
            message_count,
            internal_event_results,
        },
    )
}

} // verus!

verus! {

impl<'a> BatchInput<'a> {
    /// The number of messages in the batch.
    pub fn message_count(self) -> (r: u32)
        ensures
            r == self@.message_count,
    {
        self.message_count
    }

    /// An iterator over the messages of the batch, from the first.
    pub fn messages(self) -> (r: BatchMessageIter<'a>)
        ensures
            r@ == (BatchMessageIterView {
                offsets: self@.offsets,
                messages: self@.messages,
                index: 0,
                count: self@.message_count,
            }),
    {
        BatchMessageIter {
            offsets: self.offsets,
            messages: self.messages,
            index: 0,
            count: self.message_count,
        }
    }

    /// The block context of the batch.
    pub fn context(&self) -> (r: ExecutionContext)
        ensures
            r@ == self@.context,
    {
        self.context
    }

    /// The account that receives every message of the batch.
    pub fn destination(&self) -> (r: AccountAddress)
        ensures
            r@ == self@.destination,
    {
        self.destination
    }

    /// The code version selected for the account.
    pub fn selected_code_id(&self) -> (r: SelectedCodeId)
        ensures
            r@ == self@.selected_code_id,
    {
        self.selected_code_id
    }

    /// The state output mode the batch requires.
    pub fn required_state_output_mode(&self) -> (r: StateOutputMode)
        ensures
            r == self@.required_state_output_mode,
    {
        self.required_state_output_mode
    }

    /// The account's main balance.
    pub fn balance_main(&self) -> (r: AvmAmount)
        ensures
            r == self@.balance_main,
    {
        self.balance_main
    }

    /// The account's extra-currency balances.
    pub fn extra(&self) -> (r: CurrencyAmounts<'a>)
        ensures
            r@ == self@.extra,
    {
        self.extra
    }

    /// The account's state before the batch.
    pub fn state(&self) -> (r: &'a [u8])
        ensures
            r@ == self@.state,
    {
        self.state
    }

    /// The results of the internal-event reads of the batch.
    pub fn internal_event_results(&self) -> (r: &'a [u8])
        ensures
            r@ == self@.internal_event_results,
    {
        self.internal_event_results
    }
}

/// Iterator over the messages of a [`BatchInput`].
#[derive(Clone, Debug)]
pub struct BatchMessageIter<'a> {
    offsets: &'a [u8],
    messages: &'a [u8],
    index: u32,
    count: u32,
}

/// The mathematical value of a [`BatchMessageIter`].
pub struct BatchMessageIterView {
    pub offsets: Seq<u8>,
    pub messages: Seq<u8>,
    pub index: u32,
    pub count: u32,
}

impl<'a> View for BatchMessageIter<'a> {
    type V = BatchMessageIterView;

    closed spec fn view(&self) -> BatchMessageIterView {
        BatchMessageIterView {
            offsets: self.offsets@,
            messages: self.messages@,
            index: self.index,
            count: self.count,
        }
    }
}

impl<'a> BatchMessageIter<'a> {
    /// The next message of the batch, decoded, while any is left.
    pub fn next(&mut self) -> (r: Option<Result<CanonicalMessage<'a>, DecodeError>>)
        ensures
            final(self)@.offsets == old(self)@.offsets,
            final(self)@.messages == old(self)@.messages,
            final(self)@.count == old(self)@.count,
            old(self)@.index >= old(self)@.count ==> r is None && final(self)@.index == old(
                self,
            )@.index,
            old(self)@.index < old(self)@.count ==> final(self)@.index == old(self)@.index + 1 && (
            r matches Some(m) && view_result(m) == batch_message_spec(
                old(self)@.offsets,
                old(self)@.messages,
                old(self)@.index as int,
            )),
    {
        if self.index >= self.count {
            return None;
        }
        let start = read_offset(self.offsets, self.index);
        let end = read_offset(self.offsets, self.index + 1);
        self.index = self.index + 1;
        Some(
            match (start, end) {
                (Ok(start), Ok(end)) => {
                    if start <= end && end <= self.messages.len() {
                        decode_canonical_message(slice_subrange(self.messages, start, end))
                    } else {
                        Err(DecodeError::InvalidLength)
                    }
                },
                (Err(error), _) => Err(error),
                (_, Err(error)) => Err(error),
            },
        )
    }

    /// The number of messages left, as an exact lower and upper bound.
    pub fn size_hint(&self) -> (r: (usize, Option<usize>))
        ensures
            r.0 == (if self@.index < self@.count { self@.count - self@.index } else { 0 }),
            r.1 == Some(r.0),
    {
        let remaining = if self.index < self.count {
            (self.count - self.index) as usize
        } else {
            0
        };
        (remaining, Some(remaining))
    }
}

/// A batch that passed [`batch_messages_check`] from `index` on holds valid
/// messages at every later position.
proof fn lemma_checked_batch_message(
    offsets: Seq<u8>,
    messages: Seq<u8>,
    destination: AddressView,
    count: int,
    index: int,
    previous: int,
    i: int,
)
    requires
        batch_messages_check(offsets, messages, destination, count, index, previous) is Ok,
        0 <= index <= i < count,
        offsets.len() == 4 * (count + 1),
        4 * (count + 1) <= usize::MAX,
        previous == le_u32(offsets, 4 * index) as int,
    ensures
        batch_message_spec(offsets, messages, i) matches Ok(m) && m.destination() == destination
            && !m.is_callback() && !m.has_callback_request() && m.canonical_bytes()
            == messages.subrange(le_u32(offsets, 4 * i) as int, le_u32(offsets, 4 * (i + 1)) as int),
        le_u32(offsets, 4 * i) < le_u32(offsets, 4 * (i + 1)) <= messages.len(),
    decreases count - index,
{
    let end = le_u32(offsets, 4 * (index + 1)) as int;
    if i > index {
        lemma_checked_batch_message(offsets, messages, destination, count, index + 1, end, i);
    } else {
        lemma_canonical_message(messages.subrange(previous, end));
    }
}

/// Every message of a decoded batch decodes, is addressed to the batch's
/// destination, neither is nor requests a callback, and keeps as its bytes
/// the slice of the message area between its two offsets; the offsets start
/// at 0, increase strictly, and end at the length of the message area.
pub proof fn lemma_decoded_batch_messages(bytes: Seq<u8>, i: int)
    requires
        batch_input_spec(bytes) is Ok,
        0 <= i < batch_input_spec(bytes)->Ok_0.message_count,
    ensures
        ({
            let b = batch_input_spec(bytes)->Ok_0;
            let start = le_u32(b.offsets, 4 * i) as int;
            let end = le_u32(b.offsets, 4 * (i + 1)) as int;
            &&& batch_message_spec(b.offsets, b.messages, i) matches Ok(m) && m.destination()
                == b.destination && !m.is_callback() && !m.has_callback_request()
                && m.canonical_bytes() == b.messages.subrange(start, end)
            &&& le_u32(b.offsets, 0) == 0
            &&& start < end <= b.messages.len()
            &&& le_u32(b.offsets, 4 * b.message_count) == b.messages.len()
        }),
{
    let b = batch_input_spec(bytes)->Ok_0;
    lemma_checked_batch_message(
        b.offsets,
        b.messages,
        b.destination,
        b.message_count as int,
        0,
        0,
        i,
    );
}

} // verus!

verus! {

/// In a decoded message input the message is addressed to the input's
/// destination; an internal caller is the message's source and an external
/// caller is the message's signing key.
pub proof fn lemma_message_input_caller(bytes: Seq<u8>)
    requires
        message_input_spec(bytes) is Ok,
    ensures
        ({
            let i = message_input_spec(bytes)->Ok_0;
            &&& i.message.destination() == i.destination
            &&& match i.caller {
                CallerView::Internal(a) => i.message matches CanonicalMessageView::Internal(m)
                    && m.source == a,
                CallerView::External(k) => i.message matches CanonicalMessageView::External(m)
                    && m.pubkey == k,
            }
        }),
{
}

/// A decoded extra-currency list has one 20-byte record per counted
/// currency, with strictly increasing currency ids.
pub proof fn lemma_currency_section(s: Seq<u8>, pos: int, count: u16)
    requires
        0 <= pos,
        currency_section_spec(s, pos, count) is Ok,
    ensures
        ({
            let (end, v) = currency_section_spec(s, pos, count)->Ok_0;
            &&& v.count == count
            &&& v.bytes.len() == 20 * count
            &&& end == pos + 20 * count
            &&& currency_ids_increasing(v.bytes, count as int)
        }),
{
}

} // verus!

verus! {

/// At every position of an iterator over a decoded batch, the next call
/// returns the message at that position, decoded from its slice of the
/// message area; the iterator starts at position 0 and each call moves it
/// by one, so call `k + 1` returns message `k` and the calls after the last
/// message return `None`.
pub proof fn lemma_batch_message_iter(bytes: Seq<u8>, it: BatchMessageIterView)
    requires
        batch_input_spec(bytes) is Ok,
        it.offsets == batch_input_spec(bytes)->Ok_0.offsets,
        it.messages == batch_input_spec(bytes)->Ok_0.messages,
        it.count == batch_input_spec(bytes)->Ok_0.message_count,
        it.index < it.count,
    ensures
        batch_message_spec(it.offsets, it.messages, it.index as int) matches Ok(m)
            && m.canonical_bytes() == it.messages.subrange(
            le_u32(it.offsets, 4 * it.index) as int,
            le_u32(it.offsets, 4 * (it.index + 1)) as int,
        ) && m.canonical_bytes().len() > 0,
{
    lemma_decoded_batch_messages(bytes, it.index as int);
}

/// Record `k` of an extra-currency list is the first record of what is left
/// after `k` records, and what is left after it is what is left after
/// `k + 1` records: an iterator over the list returns the records in order.
pub proof fn lemma_currency_record(records: Seq<u8>, k: int)
    requires
        0 <= k,
        20 * k + 20 <= records.len(),
    ensures
        currency_at(records.subrange(20 * k, records.len() as int), 0) == currency_at(records, k),
        records.subrange(20 * k, records.len() as int).subrange(
            20,
            records.len() - 20 * k,
        ) == records.subrange(20 * (k + 1), records.len() as int),
{
    let rest = records.subrange(20 * k, records.len() as int);
    assert(rest.subrange(0, 4) =~= records.subrange(20 * k, 20 * k + 4));
    assert(rest.subrange(4, 20) =~= records.subrange(20 * k + 4, 20 * k + 20));
    assert(rest.subrange(20, records.len() - 20 * k) =~= records.subrange(
        20 * (k + 1),
        records.len() as int,
    ));
}

} // verus!

verus! {

/// The total length of the first `k` messages of a batch.
pub open spec fn batch_messages_total(offsets: Seq<u8>, messages: Seq<u8>, k: int) -> int
    decreases k,
{
    if k <= 0 {
        0
    } else {
        batch_messages_total(offsets, messages, k - 1) + match batch_message_spec(
            offsets,
            messages,
            k - 1,
        ) {
            Ok(m) => m.canonical_bytes().len() as int,
            Err(_) => 0,
        }
    }
}

/// The first `k` messages of a decoded batch fill the message area up to
/// offset `k`.
proof fn lemma_batch_messages_total(bytes: Seq<u8>, k: int)
    requires
        batch_input_spec(bytes) is Ok,
        0 <= k <= batch_input_spec(bytes)->Ok_0.message_count,
    ensures
        ({
            let b = batch_input_spec(bytes)->Ok_0;
            batch_messages_total(b.offsets, b.messages, k) == le_u32(b.offsets, 4 * k) as int
        }),
    decreases k,
{
    let b = batch_input_spec(bytes)->Ok_0;
    if k == 0 {
        lemma_decoded_batch_messages_start(bytes);
    } else {
        lemma_batch_messages_total(bytes, k - 1);
        lemma_decoded_batch_messages(bytes, k - 1);
    }
}

/// The offset table of a decoded batch starts at 0 and ends at the length
/// of the message area.
proof fn lemma_decoded_batch_messages_start(bytes: Seq<u8>)
    requires
        batch_input_spec(bytes) is Ok,
    ensures
        le_u32(batch_input_spec(bytes)->Ok_0.offsets, 0) == 0,
        le_u32(
            batch_input_spec(bytes)->Ok_0.offsets,
            4 * batch_input_spec(bytes)->Ok_0.message_count,
        ) == batch_input_spec(bytes)->Ok_0.messages.len(),
{
}

/// A decoded ACBI frame is exactly its fixed part (186 bytes with the three
/// length and count fields), the extra records, the state, the offset table,
/// the messages one after the other, and the internal-event results, which
/// end the frame.
pub proof fn lemma_batch_frame_length(bytes: Seq<u8>)
    requires
        batch_input_spec(bytes) is Ok,
    ensures
        ({
            let b = batch_input_spec(bytes)->Ok_0;
            &&& bytes.len() == 186 + 20 * b.extra.count + b.state.len() + 4 * (b.message_count
                + 1) + batch_messages_total(b.offsets, b.messages, b.message_count as int)
                + b.internal_event_results.len()
            &&& bytes.subrange(
                bytes.len() - b.internal_event_results.len(),
                bytes.len() as int,
            ) == b.internal_event_results
        }),
{
    let b = batch_input_spec(bytes)->Ok_0;
    lemma_batch_messages_total(bytes, b.message_count as int);
    lemma_decoded_batch_messages_start(bytes);
}

} // verus!

verus! {

/// A decoded internal message carries the fields of its fixed header at
/// their wire positions: flags at 1, method id at 8..16, value at 16..32,
/// fuel fee at 32..48, creation lt at 48..56 and time at 56..60, source at
/// 64..128 and destination at 128..192; its body is the last `u32 at 4`
/// bytes of the message, and it keeps the whole message as its bytes.
pub proof fn lemma_internal_message_header(s: Seq<u8>)
    requires
        internal_message_spec(s) is Ok,
    ensures
        ({
            let m = internal_message_spec(s)->Ok_0;
            let body_len = vstd::bytes::spec_u32_from_le_bytes(s.subrange(4, 8)) as int;
            &&& s.len() >= 192
            &&& m.flags == s[1]
            &&& m.method_id == vstd::bytes::spec_u64_from_le_bytes(s.subrange(8, 16))
            &&& m.value_main == vstd::bytes::spec_u128_from_le_bytes(s.subrange(16, 32))
            &&& m.fuel_fee_shells == vstd::bytes::spec_u128_from_le_bytes(s.subrange(32, 48))
            &&& m.created_lt == vstd::bytes::spec_u64_from_le_bytes(s.subrange(48, 56))
            &&& m.created_at == vstd::bytes::spec_u32_from_le_bytes(s.subrange(56, 60))
            &&& m.source.dapp_id == s.subrange(64, 96)
            &&& m.source.account_id == s.subrange(96, 128)
            &&& m.destination.dapp_id == s.subrange(128, 160)
            &&& m.destination.account_id == s.subrange(160, 192)
            &&& body_len <= s.len()
            &&& m.body == s.subrange(s.len() - body_len, s.len() as int)
            &&& m.canonical_bytes == s
        }),
{
}

/// A decoded external message carries the fields of its fixed header at
/// their wire positions: flags at 1, method id at 8..16, value at 16..32,
/// fuel fee at 32..48, nonce at 48..56, creation time at 56..60, expiry at
/// 60..64, destination at 64..128 and public key at 128..160; it ends with
/// its body (`u32 at 4` bytes) followed by its 64-byte signature, and it
/// keeps the whole message as its bytes.
pub proof fn lemma_external_message_header(s: Seq<u8>)
    requires
        external_message_spec(s) is Ok,
    ensures
        ({
            let m = external_message_spec(s)->Ok_0;
            let body_len = vstd::bytes::spec_u32_from_le_bytes(s.subrange(4, 8)) as int;
            &&& s.len() >= 208 + body_len + 64
            &&& m.flags == s[1]
            &&& m.method_id == vstd::bytes::spec_u64_from_le_bytes(s.subrange(8, 16))
            &&& m.value_main == vstd::bytes::spec_u128_from_le_bytes(s.subrange(16, 32))
            &&& m.fuel_fee_shells == vstd::bytes::spec_u128_from_le_bytes(s.subrange(32, 48))
            &&& m.nonce == vstd::bytes::spec_u64_from_le_bytes(s.subrange(48, 56))
            &&& m.created_at == vstd::bytes::spec_u32_from_le_bytes(s.subrange(56, 60))
            &&& m.expire_at == vstd::bytes::spec_u32_from_le_bytes(s.subrange(60, 64))
            &&& m.destination.dapp_id == s.subrange(64, 96)
            &&& m.destination.account_id == s.subrange(96, 128)
            &&& m.pubkey == s.subrange(128, 160)
            &&& m.body == s.subrange(s.len() - 64 - body_len, s.len() - 64)
            &&& m.signature == s.subrange(s.len() - 64, s.len() as int)
            &&& m.canonical_bytes == s
        }),
{
}

} // verus!

verus! {

/// The optional sections of a decoded internal message follow its 192-byte
/// header in a fixed order, each present exactly when its flag is set: the
/// callback header (cause hash, cause address, status; 100 bytes), the
/// callback handler method id (8 bytes), the event-read list (count, two
/// reserved bytes, 72-byte records), then the extra-currency records.
pub proof fn lemma_internal_message_sections(s: Seq<u8>)
    requires
        internal_message_spec(s) is Ok,
    ensures
        ({
            let m = internal_message_spec(s)->Ok_0;
            let c: int = if m.callback is Some {
                100
            } else {
                0
            };
            let d: int = c + if m.callback_handler_method_id is Some {
                8int
            } else {
                0int
            };
            let r: int = d + match m.event_reads {
                Some(reads) => 4 + 72 * reads.count as int,
                None => 0int,
            };
            let extra_count = vstd::bytes::spec_u16_from_le_bytes(s.subrange(2, 4));
            &&& (s[1] & 1 != 0) == m.callback is Some
            &&& (s[1] & 4 != 0) == m.callback_handler_method_id is Some
            &&& (s[1] & 8 != 0) == m.event_reads is Some
            &&& (m.callback matches Some(h) ==> {
                &&& h.cause_msg_hash == s.subrange(192, 224)
                &&& h.cause_address.dapp_id == s.subrange(224, 256)
                &&& h.cause_address.account_id == s.subrange(256, 288)
                &&& h.status_code == vstd::bytes::spec_u32_from_le_bytes(s.subrange(288, 292))
            })
            &&& (m.callback_handler_method_id matches Some(h) ==> h
                == vstd::bytes::spec_u64_from_le_bytes(s.subrange(192 + c, 200 + c)))
            &&& (m.event_reads matches Some(reads) ==> {
                &&& reads.count == vstd::bytes::spec_u16_from_le_bytes(
                    s.subrange(192 + d, 194 + d),
                )
                &&& reads.canonical_bytes == s.subrange(192 + d, 192 + r)
            })
            &&& m.extra.count == extra_count
            &&& m.extra.bytes == s.subrange(192 + r, 192 + r + 20 * extra_count)
        }),
{
}

/// Record `i` of an extra-currency list is the currency id stored
/// little-endian at `20 i` and the amount stored little-endian at
/// `20 i + 4`.
pub proof fn lemma_currency_at(records: Seq<u8>, i: int)
    ensures
        currency_at(records, i).currency_id == vstd::bytes::spec_u32_from_le_bytes(
            records.subrange(20 * i, 20 * i + 4),
        ),
        currency_at(records, i).amount == vstd::bytes::spec_u128_from_le_bytes(
            records.subrange(20 * i + 4, 20 * i + 20),
        ),
{
}

/// Event-read record `i` is the source DApp id at `72 i`, the source
/// account id at `72 i + 32`, and the event class stored little-endian at
/// `72 i + 64`.
pub proof fn lemma_event_read_at(records: Seq<u8>, i: int)
    ensures
        event_read_at(records, i).source.dapp_id == records.subrange(72 * i, 72 * i + 32),
        event_read_at(records, i).source.account_id == records.subrange(72 * i + 32, 72 * i + 64),
        event_read_at(records, i).event_class == vstd::bytes::spec_u64_from_le_bytes(
            records.subrange(72 * i + 64, 72 * i + 72),
        ),
{
}

/// A decoded ACMI frame carries its fixed fields at their wire positions:
/// the block context at 4..52, the caller kind at 52, the destination at
/// 156..220, the selected code id at 220..252, the state mode at 252, the
/// main balance at 260..276 and the extra count at 276..278; the extra
/// records, the state, the message and the internal-event results follow,
/// each of the last three after its `u32` length.
pub proof fn lemma_message_input_header(s: Seq<u8>)
    requires
        message_input_spec(s) is Ok,
    ensures
        ({
            let i = message_input_spec(s)->Ok_0;
            let p1: int = 278 + 20 * i.extra.count;
            let p2: int = p1 + 4 + i.state.len();
            let p3: int = p2 + 4 + i.message.canonical_bytes().len();
            &&& s.subrange(0, 4) == seq![0x41u8, 0x43u8, 0x4du8, 0x49u8]
            &&& i.context.block_lt == vstd::bytes::spec_u64_from_le_bytes(s.subrange(4, 12))
            &&& i.context.block_time == vstd::bytes::spec_u32_from_le_bytes(s.subrange(12, 16))
            &&& i.context.block_seq_no == vstd::bytes::spec_u32_from_le_bytes(s.subrange(16, 20))
            &&& i.context.block_rand == s.subrange(20, 52)
            &&& (s[52] == 0) == i.caller is Internal
            &&& i.destination.dapp_id == s.subrange(156, 188)
            &&& i.destination.account_id == s.subrange(188, 220)
            &&& i.selected_code_id == s.subrange(220, 252)
            &&& (s[252] == 0) == (i.required_state_output_mode == StateOutputMode::FullReplace)
            &&& i.balance_main == vstd::bytes::spec_u128_from_le_bytes(s.subrange(260, 276))
            &&& i.extra.count == vstd::bytes::spec_u16_from_le_bytes(s.subrange(276, 278))
            &&& i.extra.bytes == s.subrange(278, p1)
            &&& i.state.len() == vstd::bytes::spec_u32_from_le_bytes(s.subrange(p1, p1 + 4))
            &&& i.state == s.subrange(p1 + 4, p2)
            &&& i.message.canonical_bytes().len() == vstd::bytes::spec_u32_from_le_bytes(
                s.subrange(p2, p2 + 4),
            )
            &&& i.message.canonical_bytes() == s.subrange(p2 + 4, p3)
            &&& i.internal_event_results.len() == vstd::bytes::spec_u32_from_le_bytes(
                s.subrange(p3, p3 + 4),
            )
            &&& i.internal_event_results == s.subrange(p3 + 4, s.len() as int)
        }),
{
    let i = message_input_spec(s)->Ok_0;
    let (p2, state) = length_prefixed_spec(s, 278 + 20 * i.extra.count)->Ok_0;
    lemma_canonical_message(length_prefixed_spec(s, p2)->Ok_0.1);
}

/// A decoded ACBI frame carries its fixed fields at their wire positions:
/// the block context at 4..52, the destination at 52..116, the selected code
/// id at 116..148, the state mode at 148, the main balance at 156..172 and
/// the extra count at 172..174; the extra records and the state after its
/// `u32` length follow, then the message count.
pub proof fn lemma_batch_input_header(s: Seq<u8>)
    requires
        batch_input_spec(s) is Ok,
    ensures
        ({
            let b = batch_input_spec(s)->Ok_0;
            let p1: int = 174 + 20 * b.extra.count;
            let p2: int = p1 + 4 + b.state.len();
            &&& s.subrange(0, 4) == seq![0x41u8, 0x43u8, 0x42u8, 0x49u8]
            &&& b.context.block_lt == vstd::bytes::spec_u64_from_le_bytes(s.subrange(4, 12))
            &&& b.context.block_time == vstd::bytes::spec_u32_from_le_bytes(s.subrange(12, 16))
            &&& b.context.block_seq_no == vstd::bytes::spec_u32_from_le_bytes(s.subrange(16, 20))
            &&& b.context.block_rand == s.subrange(20, 52)
            &&& b.destination.dapp_id == s.subrange(52, 84)
            &&& b.destination.account_id == s.subrange(84, 116)
            &&& b.selected_code_id == s.subrange(116, 148)
            &&& (s[148] == 0) == (b.required_state_output_mode == StateOutputMode::FullReplace)
            &&& b.balance_main == vstd::bytes::spec_u128_from_le_bytes(s.subrange(156, 172))
            &&& b.extra.count == vstd::bytes::spec_u16_from_le_bytes(s.subrange(172, 174))
            &&& b.extra.bytes == s.subrange(174, p1)
            &&& b.state.len() == vstd::bytes::spec_u32_from_le_bytes(s.subrange(p1, p1 + 4))
            &&& b.state == s.subrange(p1 + 4, p2)
            &&& b.message_count == vstd::bytes::spec_u32_from_le_bytes(s.subrange(p2, p2 + 4))
        }),
{
}

} // verus!

verus! {

/// The records of a decoded event-read list have strictly increasing keys:
/// each is greater than the one before by source DApp id, then source
/// account id, then event class.
proof fn lemma_event_reads_section(s: Seq<u8>, pos: int)
    requires
        0 <= pos,
        event_reads_section_spec(s, pos) is Ok,
    ensures
        ({
            let r = event_reads_section_spec(s, pos)->Ok_0.1;
            let records = r.canonical_bytes.subrange(4, r.canonical_bytes.len() as int);
            &&& r.count > 0
            &&& forall|i: int|
                0 < i < r.count ==> {
                    let a = #[trigger] event_read_at(records, i - 1);
                    let b = event_read_at(records, i);
                    ||| bytes_lt(a.source.dapp_id, b.source.dapp_id)
                    ||| a.source.dapp_id == b.source.dapp_id && bytes_lt(
                        a.source.account_id,
                        b.source.account_id,
                    )
                    ||| a.source == b.source && a.event_class < b.event_class
                }
        }),
{
    let r = event_reads_section_spec(s, pos)->Ok_0.1;
    let p3 = event_reads_section_spec(s, pos)->Ok_0.0;
    let records = r.canonical_bytes.subrange(4, r.canonical_bytes.len() as int);
    assert(records =~= s.subrange(pos + 4, p3));
    assert forall|i: int| 0 < i < r.count implies {
        let a = #[trigger] event_read_at(records, i - 1);
        let b = event_read_at(records, i);
        ||| bytes_lt(a.source.dapp_id, b.source.dapp_id)
        ||| a.source.dapp_id == b.source.dapp_id && bytes_lt(a.source.account_id, b.source.account_id)
        ||| a.source == b.source && a.event_class < b.event_class
    } by {
        assert(event_read_lt(event_read_at(records, i - 1), event_read_at(records, i)));
    }
}

/// A decoded internal message has only the four known flags, never both a
/// callback and a deploy or callback request, zero reserved bytes at 60..64,
/// a source and a destination with a non-zero byte in each id, a callback
/// header whose cause hash has a non-zero byte and whose cause address is
/// the destination, a non-zero handler method id, a non-empty event-read
/// list whose keys increase strictly, and extra currencies whose ids
/// increase strictly.
pub proof fn lemma_internal_message_valid(s: Seq<u8>)
    requires
        internal_message_spec(s) is Ok,
    ensures
        ({
            let m = internal_message_spec(s)->Ok_0;
            &&& s[1] & 0xf0 == 0
            &&& s[1] & 1 != 0 ==> s[1] & 6 == 0
            &&& forall|i: int| 60 <= i < 64 ==> s[i] == 0
            &&& exists|i: int| 64 <= i < 96 && s[i] != 0
            &&& exists|i: int| 96 <= i < 128 && s[i] != 0
            &&& exists|i: int| 128 <= i < 160 && s[i] != 0
            &&& exists|i: int| 160 <= i < 192 && s[i] != 0
            &&& (m.callback matches Some(h) ==> {
                &&& exists|i: int| 0 <= i < h.cause_msg_hash.len() && h.cause_msg_hash[i] != 0
                &&& h.cause_address == m.destination
                &&& (m.method_id == 0 ==> h.status_code != 0)
                &&& (h.status_code != 0 ==> m.body.len() == 0)
            })
            &&& (m.callback_handler_method_id matches Some(x) ==> x != 0)
            &&& (m.event_reads matches Some(r) ==> r.count > 0 && forall|i: int|
                0 < i < r.count ==> {
                    let a = #[trigger] event_read_at(r.canonical_bytes.subrange(4, r.canonical_bytes.len() as int), i - 1);
                    let b = event_read_at(r.canonical_bytes.subrange(4, r.canonical_bytes.len() as int), i);
                    ||| bytes_lt(a.source.dapp_id, b.source.dapp_id)
                    ||| a.source.dapp_id == b.source.dapp_id && bytes_lt(
                        a.source.account_id,
                        b.source.account_id,
                    )
                    ||| a.source == b.source && a.event_class < b.event_class
                })
            &&& forall|i: int, j: int|
                0 <= i < j < m.extra.count ==> #[trigger] vstd::bytes::spec_u32_from_le_bytes(
                    m.extra.bytes.subrange(20 * i, 20 * i + 4),
                ) < #[trigger] vstd::bytes::spec_u32_from_le_bytes(
                    m.extra.bytes.subrange(20 * j, 20 * j + 4),
                )
        }),
{
    let m = internal_message_spec(s)->Ok_0;
    let f = s[1];
    assert(internal_flags_valid(f));
    assert((f & !(1u8 | 2u8 | 4u8 | 8u8) == 0u8 && !(f & 1u8 != 0u8 && f & (2u8 | 4u8) != 0u8))
        ==> f & 0xf0u8 == 0u8 && (f & 1u8 != 0u8 ==> f & 6u8 == 0u8)) by (bit_vector);
    assert(!crate::wire::all_zero(s.subrange(64, 96)));
    assert(!crate::wire::all_zero(s.subrange(96, 128)));
    assert(!crate::wire::all_zero(s.subrange(128, 160)));
    assert(!crate::wire::all_zero(s.subrange(160, 192)));
    assert(exists|i: int| 64 <= i < 96 && s[i] != 0) by {
        let k = choose|k: int| 0 <= k < 32 && s.subrange(64, 96)[k] != 0;
        assert(s[64 + k] != 0);
    }
    assert(exists|i: int| 96 <= i < 128 && s[i] != 0) by {
        let k = choose|k: int| 0 <= k < 32 && s.subrange(96, 128)[k] != 0;
        assert(s[96 + k] != 0);
    }
    assert(exists|i: int| 128 <= i < 160 && s[i] != 0) by {
        let k = choose|k: int| 0 <= k < 32 && s.subrange(128, 160)[k] != 0;
        assert(s[128 + k] != 0);
    }
    assert(exists|i: int| 160 <= i < 192 && s[i] != 0) by {
        let k = choose|k: int| 0 <= k < 32 && s.subrange(160, 192)[k] != 0;
        assert(s[160 + k] != 0);
    }
    assert forall|i: int| 60 <= i < 64 implies s[i] == 0 by {
        assert(s.subrange(60, 64)[i - 60] == s[i]);
    }
    lemma_internal_message_sections(s);
    if m.event_reads is Some {
        let c: int = if m.callback is Some {
            100
        } else {
            0
        };
        let d: int = c + if m.callback_handler_method_id is Some {
            8int
        } else {
            0int
        };
        lemma_event_reads_section(s, 192 + d);
    }
    assert forall|i: int, j: int|
        0 <= i < j < m.extra.count implies #[trigger] vstd::bytes::spec_u32_from_le_bytes(
        m.extra.bytes.subrange(20 * i, 20 * i + 4),
    ) < #[trigger] vstd::bytes::spec_u32_from_le_bytes(
        m.extra.bytes.subrange(20 * j, 20 * j + 4),
    ) by {
        assert(currency_id_at(m.extra.bytes, i) < currency_id_at(m.extra.bytes, j));
    }
}

} // verus!

verus! {

/// A decoded external message is signed, has no flag but signed and deploy,
/// zero reserved bytes at 162..208, a signature length of 64 at 160..162, a
/// destination with a non-zero byte in each id, a public key with a
/// non-zero byte, and extra currencies whose ids increase strictly.
pub proof fn lemma_external_message_valid(s: Seq<u8>)
    requires
        external_message_spec(s) is Ok,
    ensures
        ({
            let m = external_message_spec(s)->Ok_0;
            &&& s[1] & 1 != 0
            &&& s[1] & 0xfc == 0
            &&& forall|i: int| 162 <= i < 208 ==> s[i] == 0
            &&& vstd::bytes::spec_u16_from_le_bytes(s.subrange(160, 162)) == 64
            &&& exists|i: int| 64 <= i < 96 && s[i] != 0
            &&& exists|i: int| 96 <= i < 128 && s[i] != 0
            &&& exists|i: int| 128 <= i < 160 && s[i] != 0
            &&& forall|i: int, j: int|
                0 <= i < j < m.extra.count ==> #[trigger] vstd::bytes::spec_u32_from_le_bytes(
                    m.extra.bytes.subrange(20 * i, 20 * i + 4),
                ) < #[trigger] vstd::bytes::spec_u32_from_le_bytes(
                    m.extra.bytes.subrange(20 * j, 20 * j + 4),
                )
        }),
{
    let m = external_message_spec(s)->Ok_0;
    let f = s[1];
    assert(external_flags_valid(f));
    assert((f & !(1u8 | 2u8) == 0u8 && f & 1u8 != 0u8) ==> f & 1u8 != 0u8 && f & 0xfcu8 == 0u8)
        by (bit_vector);
    assert(exists|i: int| 64 <= i < 96 && s[i] != 0) by {
        let k = choose|k: int| 0 <= k < 32 && s.subrange(64, 96)[k] != 0;
        assert(s[64 + k] != 0);
    }
    assert(exists|i: int| 96 <= i < 128 && s[i] != 0) by {
        let k = choose|k: int| 0 <= k < 32 && s.subrange(96, 128)[k] != 0;
        assert(s[96 + k] != 0);
    }
    assert(exists|i: int| 128 <= i < 160 && s[i] != 0) by {
        let k = choose|k: int| 0 <= k < 32 && s.subrange(128, 160)[k] != 0;
        assert(s[128 + k] != 0);
    }
    assert forall|i: int| 162 <= i < 208 implies s[i] == 0 by {
        assert(s.subrange(162, 208)[i - 162] == s[i]);
    }
    assert forall|i: int, j: int|
        0 <= i < j < m.extra.count implies #[trigger] vstd::bytes::spec_u32_from_le_bytes(
        m.extra.bytes.subrange(20 * i, 20 * i + 4),
    ) < #[trigger] vstd::bytes::spec_u32_from_le_bytes(
        m.extra.bytes.subrange(20 * j, 20 * j + 4),
    ) by {
        assert(currency_id_at(m.extra.bytes, i) < currency_id_at(m.extra.bytes, j));
    }
}

/// A decoded ACMI frame has zero reserved bytes at 53..60 and 253..260, a
/// state mode byte of 0 or 1, and extra currencies whose ids increase
/// strictly; an internal caller has an all-zero public key field at
/// 124..156, and an external caller an all-zero source field at 60..124.
pub proof fn lemma_message_input_valid(s: Seq<u8>)
    requires
        message_input_spec(s) is Ok,
    ensures
        ({
            let i = message_input_spec(s)->Ok_0;
            &&& forall|k: int| 53 <= k < 60 ==> s[k] == 0
            &&& forall|k: int| 253 <= k < 260 ==> s[k] == 0
            &&& s[252] <= 1
            &&& s[52] <= 1
            &&& (s[52] == 0 ==> forall|k: int| 124 <= k < 156 ==> s[k] == 0)
            &&& (s[52] == 1 ==> forall|k: int| 60 <= k < 124 ==> s[k] == 0)
            &&& forall|a: int, b: int|
                0 <= a < b < i.extra.count ==> #[trigger] vstd::bytes::spec_u32_from_le_bytes(
                    i.extra.bytes.subrange(20 * a, 20 * a + 4),
                ) < #[trigger] vstd::bytes::spec_u32_from_le_bytes(
                    i.extra.bytes.subrange(20 * b, 20 * b + 4),
                )
        }),
{
    let i = message_input_spec(s)->Ok_0;
    assert forall|k: int| 53 <= k < 60 implies s[k] == 0 by {
        assert(s.subrange(53, 60)[k - 53] == s[k]);
    }
    assert forall|k: int| 253 <= k < 260 implies s[k] == 0 by {
        assert(s.subrange(253, 260)[k - 253] == s[k]);
    }
    if s[52] == 0 {
        assert forall|k: int| 124 <= k < 156 implies s[k] == 0 by {
            assert(s.subrange(124, 156)[k - 124] == s[k]);
        }
    }
    if s[52] == 1 {
        assert forall|k: int| 60 <= k < 124 implies s[k] == 0 by {
            if k < 92 {
                assert(address_at(s, 60).dapp_id[k - 60] == s[k]);
            } else {
                assert(address_at(s, 60).account_id[k - 92] == s[k]);
            }
        }
    }
    assert forall|a: int, b: int|
        0 <= a < b < i.extra.count implies #[trigger] vstd::bytes::spec_u32_from_le_bytes(
        i.extra.bytes.subrange(20 * a, 20 * a + 4),
    ) < #[trigger] vstd::bytes::spec_u32_from_le_bytes(
        i.extra.bytes.subrange(20 * b, 20 * b + 4),
    ) by {
        assert(currency_id_at(i.extra.bytes, a) < currency_id_at(i.extra.bytes, b));
    }
}

/// A decoded ACBI frame has zero reserved bytes at 149..156, a state mode
/// byte of 0 or 1, and extra currencies whose ids increase strictly.
pub proof fn lemma_batch_input_valid(s: Seq<u8>)
    requires
        batch_input_spec(s) is Ok,
    ensures
        ({
            let b = batch_input_spec(s)->Ok_0;
            &&& forall|k: int| 149 <= k < 156 ==> s[k] == 0
            &&& s[148] <= 1
            &&& forall|x: int, y: int|
                0 <= x < y < b.extra.count ==> #[trigger] vstd::bytes::spec_u32_from_le_bytes(
                    b.extra.bytes.subrange(20 * x, 20 * x + 4),
                ) < #[trigger] vstd::bytes::spec_u32_from_le_bytes(
                    b.extra.bytes.subrange(20 * y, 20 * y + 4),
                )
        }),
{
    let b = batch_input_spec(s)->Ok_0;
    assert forall|k: int| 149 <= k < 156 implies s[k] == 0 by {
        assert(s.subrange(149, 156)[k - 149] == s[k]);
    }
    assert forall|x: int, y: int|
        0 <= x < y < b.extra.count implies #[trigger] vstd::bytes::spec_u32_from_le_bytes(
        b.extra.bytes.subrange(20 * x, 20 * x + 4),
    ) < #[trigger] vstd::bytes::spec_u32_from_le_bytes(
        b.extra.bytes.subrange(20 * y, 20 * y + 4),
    ) by {
        assert(currency_id_at(b.extra.bytes, x) < currency_id_at(b.extra.bytes, y));
    }
}

} // verus!
