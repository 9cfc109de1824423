//! The guest arena that holds the live input and output frames, and the
//! entrypoints that read an input frame from it and write the answer back.
//!
//! The host calls one entrypoint on a fresh instance, then frees the output
//! and then the input, so the arena keeps at most two allocations, stacked
//! from its start and freed last-in first-out. Pointers handed to the host are
//! the arena's base address plus an offset; the base address is supplied by
//! the code that owns the memory.
use crate::input::{
    batch_input_spec, decode_batch_input, decode_message_input, message_input_spec, BatchInput,
    BatchInputView, MessageInput, MessageInputView,
};
use crate::output::{
    batch_output_for_spec, encode_batch_output_for, encode_message_output_for,
    message_output_for_spec, BatchOutput, BatchOutputView, MessageOutput, MessageOutputView,
};
use crate::{BatchContract, Contract};
use vstd::prelude::*;

verus! {

/// The bookkeeping of the live allocations.
#[derive(Clone, Copy)]
struct Allocations {
    next: u32,
    starts: [u32; 2],
    lengths: [u32; 2],
    count: u8,
}

/// The mathematical value of a [`GuestArena`]: the end of the used part,
/// the live allocations as (offset, length) from the oldest, and the bytes.
pub struct GuestArenaView {
    pub next: u32,
    pub live: Seq<(u32, u32)>,
    pub storage: Seq<u8>,
}

/// Bounded guest-owned storage for the live input and output frames.
pub struct GuestArena<const N: usize> {
    storage: Vec<u8>,
    allocations: Allocations,
}

/// The live allocations of a bookkeeping record.
spec fn live_of(a: Allocations) -> Seq<(u32, u32)> {
    Seq::new(a.count as nat, |i: int| (a.starts@[i], a.lengths@[i]))
}

/// The allocations are stacked from offset 0 without gaps, each non-empty,
/// and `next` is the end of the last one.
pub open spec fn stacked(live: Seq<(u32, u32)>, next: u32) -> bool {
    &&& live.len() <= 2
    &&& forall|i: int| 0 <= i < live.len() ==> (#[trigger] live[i]).1 > 0
    &&& live.len() >= 1 ==> live[0].0 == 0
    &&& live.len() == 2 ==> live[1].0 == live[0].0 + live[0].1
    &&& live.len() == 0 ==> next == 0
    &&& live.len() >= 1 ==> next == live.last().0 + live.last().1
}

impl<const N: usize> View for GuestArena<N> {
    type V = GuestArenaView;

    closed spec fn view(&self) -> GuestArenaView {
        GuestArenaView {
            next: self.allocations.next,
            live: live_of(self.allocations),
            storage: self.storage@,
        }
    }
}

/// The offset of `ptr` in an arena of `capacity` bytes based at `base`.
pub open spec fn arena_offset_spec(ptr: u32, base: Option<u32>, capacity: int) -> Option<u32> {
    match base {
        Some(b) => if b <= ptr && ptr - b < capacity {
            Some((ptr - b) as u32)
        } else {
            None
        },
        None => None,
    }
}

/// Allocating `len` bytes: the pointer (0 on refusal) and the new value.
/// A refusal leaves the arena unchanged; it comes for an empty request, a
/// third live allocation, a request past the capacity or past `u32`, an
/// unknown base, or a pointer that would be 0 or past `u32`.
pub open spec fn allocate_spec(a: GuestArenaView, len: u32, base: Option<u32>, capacity: int) -> (
    GuestArenaView,
    u32,
) {
    if len == 0 || a.live.len() >= 2 || a.next + len > u32::MAX || capacity > u32::MAX || a.next
        + len > capacity || base is None || base->Some_0 + a.next > u32::MAX || base->Some_0
        + a.next == 0 {
        (a, 0)
    } else {
        (
            GuestArenaView {
                next: (a.next + len) as u32,
                live: a.live.push((a.next, len)),
                storage: a.storage,
            },
            (base->Some_0 + a.next) as u32,
        )
    }
}

/// Freeing `len` bytes at `ptr`: only the newest allocation can be freed,
/// with its exact pointer and length.
pub open spec fn free_spec(
    a: GuestArenaView,
    ptr: u32,
    len: u32,
    base: Option<u32>,
    capacity: int,
) -> (GuestArenaView, bool) {
    match arena_offset_spec(ptr, base, capacity) {
        None => (a, false),
        Some(start) => if a.live.len() == 0 || a.live.last() != (start, len) || start + len
            > u32::MAX || len == 0 || a.next != start + len {
            (a, false)
        } else {
            (GuestArenaView { next: start, live: a.live.drop_last(), storage: a.storage }, true)
        },
    }
}

/// Reading `len` bytes at `ptr`: only inside the used part of the arena.
pub open spec fn read_spec(a: GuestArenaView, ptr: u32, len: u32, base: Option<u32>, capacity: int) -> Option<
    Seq<u8>,
> {
    match arena_offset_spec(ptr, base, capacity) {
        None => None,
        Some(start) => if start + len <= a.next {
            Some(a.storage.subrange(start as int, start + len))
        } else {
            None
        },
    }
}

/// The handle of an output frame: its pointer in the high half, its length
/// in the low half.
pub open spec fn output_handle(ptr: u32, len: u32) -> u64 {
    (ptr as int * 0x1_0000_0000 + len as int) as u64
}

/// Writing an output frame: it is allocated, copied in, and its handle is
/// returned; 0 when it is too long or cannot be allocated.
pub open spec fn write_output_spec(a: GuestArenaView, bytes: Seq<u8>, base: Option<u32>, capacity: int) -> (
    GuestArenaView,
    u64,
) {
    if bytes.len() > u32::MAX {
        (a, 0)
    } else {
        let (b, ptr) = allocate_spec(a, bytes.len() as u32, base, capacity);
        if ptr == 0 {
            (b, 0)
        } else {
            let start = a.next as int;
            (
                GuestArenaView {
                    next: b.next,
                    live: b.live,
                    storage: b.storage.subrange(0, start) + bytes + b.storage.subrange(
                        start + bytes.len(),
                        b.storage.len() as int,
                    ),
                },
                output_handle(ptr, bytes.len() as u32),
            )
        }
    }
}

impl<const N: usize> GuestArena<N> {
    #[verifier::type_invariant]
    spec fn inv(self) -> bool {
        &&& self.storage@.len() == N
        &&& self.allocations.count <= 2
        &&& stacked(live_of(self.allocations), self.allocations.next)
        &&& self.allocations.next <= N
    }

    /// The arena's value is well formed: its storage has `N` bytes and its
    /// allocations are stacked inside it.
    pub open spec fn well_formed(self) -> bool {
        &&& self@.storage.len() == N
        &&& stacked(self@.live, self@.next)
        &&& self@.next <= N
    }

    /// An empty arena of `N` zero bytes.
    pub fn new() -> (r: Self)
        ensures
            r@.next == 0,
            r@.live.len() == 0,
            r@.storage == Seq::new(N as nat, |i: int| 0u8),
            r.well_formed(),
    {
        let storage = vec![0u8; N];
        let r = GuestArena {
            storage,
            allocations: Allocations { next: 0, starts: [0, 0], lengths: [0, 0], count: 0 },
        };
        assert(r@.storage =~= Seq::new(N as nat, |i: int| 0u8));
        assert(live_of(r.allocations) =~= Seq::empty());
        r
    }

    /// The arena's bytes, whose address the owner uses as the base.
    pub fn storage(&self) -> (r: &[u8])
        ensures
            r@ == self@.storage,
    {
        self.storage.as_slice()
    }

    /// The offset of `ptr` in the arena.
    fn offset(&self, ptr: u32, base: Option<u32>) -> (r: Option<u32>)
        ensures
            r == arena_offset_spec(ptr, base, N as int),
    {
        match base {
            Some(b) => {
                if b <= ptr && ((ptr - b) as usize) < N {
                    Some(ptr - b)
                } else {
                    None
                }
            },
            None => None,
        }
    }

    /// Allocates `len` bytes after the live allocations; returns the pointer,
    /// or 0 when the request is refused.
    pub fn allocate(&mut self, len: u32, base: Option<u32>) -> (r: u32)
        ensures
            (final(self)@, r) == allocate_spec(old(self)@, len, base, N as int),
            old(self).well_formed(),
            final(self).well_formed(),
    {
        proof {
            use_type_invariant(&*self);
        }
        if len == 0 {
            return 0;
        }
        let count = self.allocations.count as usize;
        if count >= 2 {
            return 0;
        }
        let start = self.allocations.next;
        if start > u32::MAX - len {
            return 0;
        }
        let end = start + len;
        if N > u32::MAX as usize {
            return 0;
        }
        let capacity = N as u32;
        if end > capacity {
            return 0;
        }
        let pointer = match base {
            Some(b) => {
                if b > u32::MAX - start {
                    return 0;
                }
                b + start
            },
            None => {
                return 0;
            },
        };
        if pointer == 0 {
            return 0;
        }
        let mut a = self.allocations;
        a.starts[count] = start;
        a.lengths[count] = len;
        a.next = end;
        a.count = (count + 1) as u8;
        proof {
            assert(live_of(a) =~= live_of(self.allocations).push((start, len)));
        }
        self.allocations = a;
        pointer
    }

    /// Frees the newest allocation, given its exact pointer and length;
    /// returns whether it was freed.
    pub fn free(&mut self, ptr: u32, len: u32, base: Option<u32>) -> (r: bool)
        ensures
            (final(self)@, r) == free_spec(old(self)@, ptr, len, base, N as int),
            old(self).well_formed(),
            final(self).well_formed(),
    {
        proof {
            use_type_invariant(&*self);
        }
        let start = match self.offset(ptr, base) {
            Some(start) => start,
            None => {
                return false;
            },
        };
        let count = self.allocations.count as usize;
        if count == 0 {
            return false;
        }
        let slot = count - 1;
        if self.allocations.starts[slot] != start || self.allocations.lengths[slot] != len {
            return false;
        }
        if start > u32::MAX - len {
            return false;
        }
        let end = start + len;
        if len == 0 || self.allocations.next != end {
            return false;
        }
        let mut a = self.allocations;
        a.next = start;
        a.count = slot as u8;
        proof {
            assert(live_of(a) =~= live_of(self.allocations).drop_last());
        }
        self.allocations = a;
        true
    }

    /// A copy of the `len` bytes at `ptr`, when they lie in the used part of
    /// the arena.
    pub fn read(&self, ptr: u32, len: u32, base: Option<u32>) -> (r: Option<Vec<u8>>)
        ensures
            match r {
                Some(v) => read_spec(self@, ptr, len, base, N as int) == Some(v@),
                None => read_spec(self@, ptr, len, base, N as int) is None,
            },
            self.well_formed(),
    {
        proof {
            use_type_invariant(self);
        }
        let start = match self.offset(ptr, base) {
            Some(start) => start as usize,
            None => {
                return None;
            },
        };
        let length = len as usize;
        if start > usize::MAX - length {
            return None;
        }
        let end = start + length;
        if end > self.allocations.next as usize {
            return None;
        }
        let source = vstd::slice::slice_subrange(self.storage.as_slice(), start, end);
        let mut bytes: Vec<u8> = Vec::new();
        crate::wire::append_bytes(&mut bytes, source);
        assert(bytes@ =~= source@);
        Some(bytes)
    }

    /// Allocates room for `bytes`, copies them in, and returns the frame's
    /// handle, or 0 when it cannot.
    pub fn write_output(&mut self, bytes: &[u8], base: Option<u32>) -> (r: u64)
        ensures
            (final(self)@, r) == write_output_spec(old(self)@, bytes@, base, N as int),
            old(self).well_formed(),
            final(self).well_formed(),
    {
        proof {
            use_type_invariant(&*self);
        }
        if bytes.len() > 0xffff_ffff {
            return 0;
        }
        let len = bytes.len() as u32;
        let start = self.allocations.next as usize;
        let ptr = self.allocate(len, base);
        if ptr == 0 {
            return 0;
        }
        proof {
            use_type_invariant(&*self);
        }
        let ghost before = self.storage@;
        let ghost allocs = self.allocations;
        let ghost after_alloc = self@;
        let mut i: usize = 0;
        while i < bytes.len()
            invariant
                i <= bytes@.len(),
                start + bytes@.len() <= N,
                self.storage@.len() == N,
                forall|k: int| 0 <= k < start ==> self.storage@[k] == before[k],
                forall|k: int| start + bytes@.len() <= k < N ==> self.storage@[k] == before[k],
                forall|k: int| 0 <= k < i ==> self.storage@[start + k] == bytes@[k],
                self.allocations == allocs,
                allocs.count <= 2,
                stacked(live_of(allocs), allocs.next),
                allocs.next <= N,
            decreases bytes@.len() - i,
        {
            self.storage[start + i] = bytes[i];
            i += 1;
        }
        proof {
            assert(self.storage@ =~= before.subrange(0, start as int) + bytes@ + before.subrange(
                start + bytes@.len(),
                N as int,
            ));
            assert(after_alloc.storage == before);
            assert(self@.next == after_alloc.next);
            assert(self@.live == after_alloc.live);
        }
        assert((ptr as u64) << 32 | (len as u64) == output_handle(ptr, len)) by (bit_vector);
        ((ptr as u64) << 32) | (len as u64)
    }
}

impl<const N: usize> Default for GuestArena<N> {
    /// An empty arena, as [`GuestArena::new`] makes it.
    fn default() -> (r: Self)
        ensures
            r@.next == 0,
            r@.live.len() == 0,
            r@.storage == Seq::new(N as nat, |i: int| 0u8),
            r.well_formed(),
    {
        Self::new()
    }
}

} // verus!

verus! {

/// What a message entrypoint does, given the contract's answer `o`: it reads
/// the ACMI frame at `input_ptr`, refuses a frame that does not decode or
/// whose deploy flag does not match the entrypoint, encodes the answer, and
/// writes it as the output frame. Every refusal returns 0 and leaves the
/// arena unchanged.
pub open spec fn message_dispatch_spec(
    a: GuestArenaView,
    input_ptr: u32,
    input_len: u32,
    base: Option<u32>,
    capacity: int,
    is_init: bool,
    o: MessageOutputView,
) -> (GuestArenaView, u64) {
    match read_spec(a, input_ptr, input_len, base, capacity) {
        None => (a, 0),
        Some(input) => match message_input_spec(input) {
            Err(_) => (a, 0),
            Ok(i) => if i.message.is_deploy() != is_init {
                (a, 0)
            } else {
                match message_output_for_spec(i, is_init, o) {
                    Err(_) => (a, 0),
                    Ok(frame) => write_output_spec(a, frame, base, capacity),
                }
            },
        },
    }
}

/// What the batch entrypoint does, given the contract's answer `o`: it reads
/// the ACBI frame at `input_ptr`, refuses a frame that does not decode,
/// encodes the answer, and writes it as the output frame. Every refusal
/// returns 0 and leaves the arena unchanged.
pub open spec fn batch_dispatch_spec(
    a: GuestArenaView,
    input_ptr: u32,
    input_len: u32,
    base: Option<u32>,
    capacity: int,
    o: BatchOutputView,
) -> (GuestArenaView, u64) {
    match read_spec(a, input_ptr, input_len, base, capacity) {
        None => (a, 0),
        Some(input) => match batch_input_spec(input) {
            Err(_) => (a, 0),
            Ok(i) => match batch_output_for_spec(
                i.message_count,
                i.required_state_output_mode,
                o,
            ) {
                Err(_) => (a, 0),
                Ok(frame) => write_output_spec(a, frame, base, capacity),
            },
        },
    }
}

/// The decoded input that a message entrypoint hands to the contract: the
/// frame at `input_ptr` decodes and its deploy flag matches the entrypoint.
/// `None` where the entrypoint refuses before calling the contract.
pub open spec fn message_dispatch_input(
    a: GuestArenaView,
    input_ptr: u32,
    input_len: u32,
    base: Option<u32>,
    capacity: int,
    is_init: bool,
) -> Option<MessageInputView> {
    match read_spec(a, input_ptr, input_len, base, capacity) {
        None => None,
        Some(input) => match message_input_spec(input) {
            Err(_) => None,
            Ok(i) => if i.message.is_deploy() != is_init {
                None
            } else {
                Some(i)
            },
        },
    }
}

/// `o` is an answer of the contract's `init` (for an init entrypoint) or
/// `process_message` to `i`.
pub open spec fn message_answer<T: Contract>(i: MessageInput<'_>, is_init: bool, o: MessageOutput) -> bool {
    if is_init {
        call_ensures(T::init, (i,), o)
    } else {
        call_ensures(T::process_message, (i,), o)
    }
}

/// The decoded batch that the batch entrypoint hands to the contract.
/// `None` where the entrypoint refuses before calling the contract.
pub open spec fn batch_dispatch_input(
    a: GuestArenaView,
    input_ptr: u32,
    input_len: u32,
    base: Option<u32>,
    capacity: int,
) -> Option<BatchInputView> {
    match read_spec(a, input_ptr, input_len, base, capacity) {
        None => None,
        Some(input) => match batch_input_spec(input) {
            Err(_) => None,
            Ok(b) => Some(b),
        },
    }
}

/// `o` is an answer of the contract's `process_batch` to `b`.
pub open spec fn batch_answer<T: BatchContract>(b: BatchInput<'_>, o: BatchOutput) -> bool {
    call_ensures(T::process_batch, (b,), o)
}

fn dispatch_message_inner<T: Contract, const N: usize>(
    arena: &mut GuestArena<N>,
    input_ptr: u32,
    input_len: u32,
    base: Option<u32>,
    is_init: bool,
) -> (r: u64)
    ensures
        message_dispatch_input(old(arena)@, input_ptr, input_len, base, N as int, is_init) is None
            ==> r == 0 && final(arena)@ == old(arena)@,
        message_dispatch_input(old(arena)@, input_ptr, input_len, base, N as int, is_init) matches Some(
            iv,
        ) ==> exists|i: MessageInput, o: MessageOutput|
            #[trigger] message_answer::<T>(i, is_init, o) && i@ == iv && (final(arena)@, r)
                == message_dispatch_spec(
                old(arena)@,
                input_ptr,
                input_len,
                base,
                N as int,
                is_init,
                o@,
            ),
        final(arena).well_formed(),
{
    let ghost a = arena@;
    let input_bytes = match arena.read(input_ptr, input_len, base) {
        Some(bytes) => bytes,
        None => {
            return 0;
        },
    };
    let input = match decode_message_input(&input_bytes) {
        Ok(input) => input,
        Err(_) => {
            return 0;
        },
    };
    if input.message.is_deploy() != is_init {
        return 0;
    }
    let output = if is_init {
        T::init(input)
    } else {
        T::process_message(input)
    };
    assert(message_answer::<T>(input, is_init, output));
    let output_bytes = match encode_message_output_for(&input, is_init, &output) {
        Ok(bytes) => bytes,
        Err(_) => {
            assert(message_dispatch_spec(a, input_ptr, input_len, base, N as int, is_init, output@) == (a, 0u64));
            return 0;
        },
    };
    let r = arena.write_output(output_bytes.as_slice(), base);
    assert((arena@, r) == message_dispatch_spec(a, input_ptr, input_len, base, N as int, is_init, output@));
    r
}

/// The `init` entrypoint: answers the deploy message held in the arena at
/// `input_ptr`, and returns the handle of the output frame, or 0.
pub fn dispatch_init<T: Contract, const N: usize>(
    arena: &mut GuestArena<N>,
    input_ptr: u32,
    input_len: u32,
    base: Option<u32>,
) -> (r: u64)
    ensures
        message_dispatch_input(old(arena)@, input_ptr, input_len, base, N as int, true) is None
            ==> r == 0 && final(arena)@ == old(arena)@,
        message_dispatch_input(old(arena)@, input_ptr, input_len, base, N as int, true) matches Some(
            iv,
        ) ==> exists|i: MessageInput, o: MessageOutput|
            #[trigger] message_answer::<T>(i, true, o) && i@ == iv && (final(arena)@, r)
                == message_dispatch_spec(
                old(arena)@,
                input_ptr,
                input_len,
                base,
                N as int,
                true,
                o@,
            ),
        final(arena).well_formed(),
{
    dispatch_message_inner::<T, N>(arena, input_ptr, input_len, base, true)
}

/// The `process_message` entrypoint: answers the message that is not a
/// deploy held in the arena at `input_ptr`, and returns the handle of the
/// output frame, or 0.
pub fn dispatch_message<T: Contract, const N: usize>(
    arena: &mut GuestArena<N>,
    input_ptr: u32,
    input_len: u32,
    base: Option<u32>,
) -> (r: u64)
    ensures
        message_dispatch_input(old(arena)@, input_ptr, input_len, base, N as int, false) is None
            ==> r == 0 && final(arena)@ == old(arena)@,
        message_dispatch_input(old(arena)@, input_ptr, input_len, base, N as int, false) matches Some(
            iv,
        ) ==> exists|i: MessageInput, o: MessageOutput|
            #[trigger] message_answer::<T>(i, false, o) && i@ == iv && (final(arena)@, r)
                == message_dispatch_spec(
                old(arena)@,
                input_ptr,
                input_len,
                base,
                N as int,
                false,
                o@,
            ),
        final(arena).well_formed(),
{
    dispatch_message_inner::<T, N>(arena, input_ptr, input_len, base, false)
}

/// The `process_batch` entrypoint: answers the batch held in the arena at
/// `input_ptr`, and returns the handle of the output frame, or 0.
pub fn dispatch_batch<T: BatchContract, const N: usize>(
    arena: &mut GuestArena<N>,
    input_ptr: u32,
    input_len: u32,
    base: Option<u32>,
) -> (r: u64)
    ensures
        batch_dispatch_input(old(arena)@, input_ptr, input_len, base, N as int) is None ==> r == 0
            && final(arena)@ == old(arena)@,
        batch_dispatch_input(old(arena)@, input_ptr, input_len, base, N as int) matches Some(bv)
            ==> exists|b: BatchInput, o: BatchOutput|
            #[trigger] batch_answer::<T>(b, o) && b@ == bv && (final(arena)@, r)
                == batch_dispatch_spec(old(arena)@, input_ptr, input_len, base, N as int, o@),
        final(arena).well_formed(),
{
    let ghost a = arena@;
    let input_bytes = match arena.read(input_ptr, input_len, base) {
        Some(bytes) => bytes,
        None => {
            return 0;
        },
    };
    let input = match decode_batch_input(&input_bytes) {
        Ok(input) => input,
        Err(_) => {
            return 0;
        },
    };
    let output = T::process_batch(input);
    assert(batch_answer::<T>(input, output));
    let output_bytes = match encode_batch_output_for(&input, &output) {
        Ok(bytes) => bytes,
        Err(_) => {
            assert(batch_dispatch_spec(a, input_ptr, input_len, base, N as int, output@) == (a, 0u64));
            return 0;
        },
    };
    let r = arena.write_output(output_bytes.as_slice(), base);
    assert((arena@, r) == batch_dispatch_spec(a, input_ptr, input_len, base, N as int, output@));
    r
}

} // verus!

verus! {

/// The pointer half of an output handle.
pub open spec fn handle_ptr(h: u64) -> u32 {
    (h / 0x1_0000_0000) as u32
}

/// The length half of an output handle.
pub open spec fn handle_len(h: u64) -> u32 {
    (h % 0x1_0000_0000) as u32
}

proof fn lemma_handle_halves(ptr: u32, len: u32)
    ensures
        handle_ptr(output_handle(ptr, len)) == ptr,
        handle_len(output_handle(ptr, len)) == len,
{
    let x = ptr as int * 0x1_0000_0000 + len as int;
    assert(0 <= x < 0x1_0000_0000_0000_0000) by (nonlinear_arith)
        requires
            x == ptr as int * 0x1_0000_0000 + len as int,
            0 <= ptr < 0x1_0000_0000,
            0 <= len < 0x1_0000_0000,
    ;
    assert(x / 0x1_0000_0000 == ptr as int && x % 0x1_0000_0000 == len as int) by (nonlinear_arith)
        requires
            x == ptr as int * 0x1_0000_0000 + len as int,
            0 <= len < 0x1_0000_0000,
    ;
}

/// Freeing the allocation just made, with the pointer it returned and its
/// length, gives back the arena as it was.
pub proof fn lemma_allocate_then_free(
    a: GuestArenaView,
    len: u32,
    base: Option<u32>,
    capacity: int,
)
    requires
        stacked(a.live, a.next),
        a.next <= capacity,
        allocate_spec(a, len, base, capacity).1 != 0,
    ensures
        ({
            let (b, ptr) = allocate_spec(a, len, base, capacity);
            free_spec(b, ptr, len, base, capacity) == (a, true)
        }),
{
    let (b, ptr) = allocate_spec(a, len, base, capacity);
    assert(b.live.drop_last() =~= a.live);
}

/// An allocation keeps the arena's allocations stacked inside its capacity.
pub proof fn lemma_allocate_stacked(a: GuestArenaView, len: u32, base: Option<u32>, capacity: int)
    requires
        stacked(a.live, a.next),
        a.next <= capacity,
    ensures
        stacked(allocate_spec(a, len, base, capacity).0.live, allocate_spec(a, len, base, capacity).0.next),
        allocate_spec(a, len, base, capacity).0.next <= capacity,
{
}

/// A frame written as output reads back, at the pointer and length of its
/// handle, as the bytes that were written.
pub proof fn lemma_write_then_read(a: GuestArenaView, bytes: Seq<u8>, base: Option<u32>, capacity: int)
    requires
        stacked(a.live, a.next),
        a.next <= capacity,
        a.storage.len() == capacity,
        write_output_spec(a, bytes, base, capacity).1 != 0,
    ensures
        ({
            let (b, h) = write_output_spec(a, bytes, base, capacity);
            &&& handle_len(h) == bytes.len()
            &&& read_spec(b, handle_ptr(h), handle_len(h), base, capacity) == Some(bytes)
        }),
{
    let (b, h) = write_output_spec(a, bytes, base, capacity);
    let (c, ptr) = allocate_spec(a, bytes.len() as u32, base, capacity);
    lemma_handle_halves(ptr, bytes.len() as u32);
    let start = a.next as int;
    assert(b.storage.subrange(start, start + bytes.len()) =~= bytes);
}

} // verus!

verus! {

/// A message entrypoint that returns a handle has decoded a frame whose
/// deploy flag matches it, and leaves at the handle's pointer and length
/// the canonical ACMO encoding of the contract's answer.
pub proof fn lemma_message_dispatch_output(
    a: GuestArenaView,
    input_ptr: u32,
    input_len: u32,
    base: Option<u32>,
    capacity: int,
    is_init: bool,
    o: MessageOutputView,
)
    requires
        stacked(a.live, a.next),
        a.next <= capacity,
        a.storage.len() == capacity,
        message_dispatch_spec(a, input_ptr, input_len, base, capacity, is_init, o).1 != 0,
    ensures
        ({
            let (b, h) = message_dispatch_spec(a, input_ptr, input_len, base, capacity, is_init, o);
            let input = read_spec(a, input_ptr, input_len, base, capacity)->Some_0;
            let i = message_input_spec(input)->Ok_0;
            &&& read_spec(a, input_ptr, input_len, base, capacity) is Some
            &&& message_input_spec(input) is Ok
            &&& i.message.is_deploy() == is_init
            &&& message_output_for_spec(i, is_init, o) is Ok
            &&& read_spec(b, handle_ptr(h), handle_len(h), base, capacity) == Some(
                message_output_for_spec(i, is_init, o)->Ok_0,
            )
        }),
{
    let input = read_spec(a, input_ptr, input_len, base, capacity)->Some_0;
    let i = message_input_spec(input)->Ok_0;
    lemma_write_then_read(a, message_output_for_spec(i, is_init, o)->Ok_0, base, capacity);
}

/// The batch entrypoint that returns a handle has decoded a frame, and
/// leaves at the handle's pointer and length the canonical ACBO encoding of
/// the contract's answer.
pub proof fn lemma_batch_dispatch_output(
    a: GuestArenaView,
    input_ptr: u32,
    input_len: u32,
    base: Option<u32>,
    capacity: int,
    o: BatchOutputView,
)
    requires
        stacked(a.live, a.next),
        a.next <= capacity,
        a.storage.len() == capacity,
        batch_dispatch_spec(a, input_ptr, input_len, base, capacity, o).1 != 0,
    ensures
        ({
            let (b, h) = batch_dispatch_spec(a, input_ptr, input_len, base, capacity, o);
            let input = read_spec(a, input_ptr, input_len, base, capacity)->Some_0;
            let i = batch_input_spec(input)->Ok_0;
            let frame = batch_output_for_spec(i.message_count, i.required_state_output_mode, o);
            &&& read_spec(a, input_ptr, input_len, base, capacity) is Some
            &&& batch_input_spec(input) is Ok
            &&& frame is Ok
            &&& read_spec(b, handle_ptr(h), handle_len(h), base, capacity) == Some(frame->Ok_0)
        }),
{
    let input = read_spec(a, input_ptr, input_len, base, capacity)->Some_0;
    let i = batch_input_spec(input)->Ok_0;
    lemma_write_then_read(
        a,
        batch_output_for_spec(i.message_count, i.required_state_output_mode, o)->Ok_0,
        base,
        capacity,
    );
}

} // verus!
