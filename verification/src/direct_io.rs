//! The pool of fixed read buffers: which are free, which wait for a read, and
//! which hold a block.

use vstd::prelude::*;

verus! {

pub const QUEUE_DEPTH: u32 = 256;
pub const FIXED_MODEL_FILE: u32 = 0;
pub const BUFFER_FREE: u8 = 0;
pub const BUFFER_IN_FLIGHT: u8 = 1;
pub const BUFFER_READY: u8 = 2;

/// Why a read was refused or failed.
#[derive(Clone, Copy, Debug, PartialEq, Eq, Structural)]
pub enum DirectIoError {
    BufferTooSmall { requested: u64, capacity: usize },
    SubmissionQueueFull,
    InvalidBufferCount(usize),
    InvalidBufferIndex(usize),
    NoFreeBuffer,
    ShortExternalRead { requested: u64, actual: usize },
    PackNotRegistered,
    PackNotOpen,
}

/// What a block holds.
#[derive(Clone, Copy, Debug, PartialEq, Eq, Structural)]
pub enum BlockKind {
    Dense,
    Expert,
}

/// A block that is to be read.
#[derive(Clone, Copy, Debug, PartialEq, Eq, Structural)]
pub struct BlockSpan {
    pub kind: BlockKind,
    pub layer_id: u32,
    pub expert_id: u32,
    pub file_offset: u64,
    pub disk_bytes: u64,
    pub payload_bytes: u64,
}

/// A read that was given a buffer.
#[derive(Clone, Copy, Debug, PartialEq, Eq, Structural)]
pub struct ReadTicket {
    pub id: u64,
    pub kind: BlockKind,
    pub layer_id: u32,
    pub expert_id: u32,
    pub fixed_buffer_index: u16,
    pub file_offset: u64,
    pub disk_bytes: u32,
    pub payload_bytes: u32,
}

/// The state of one buffer.
#[derive(Clone, Copy, Debug, PartialEq, Eq, Structural)]
pub struct BufferSlot {
    pub state: u8,
    pub ticket_id: u64,
    pub io_ready: bool,
    pub decode_ready: bool,
}

/// A buffer that nothing uses.
pub open spec fn free_slot() -> BufferSlot {
    BufferSlot { state: BUFFER_FREE, ticket_id: 0, io_ready: false, decode_ready: false }
}

/// The pool of fixed buffers, all of one capacity.
pub struct BufferPool {
    slots: Vec<BufferSlot>,
    capacity: usize,
    cursor: usize,
    in_flight: u64,
    next_ticket: u64,
}

/// What a pool holds.
#[verifier::ext_equal]
pub struct PoolView {
    pub slots: Seq<BufferSlot>,
    pub capacity: usize,
    /// Where the search for a free buffer starts.
    pub cursor: usize,
    /// Reads in the ring.
    pub in_flight: u64,
    /// The next ticket's number.
    pub next_ticket: u64,
}

impl View for BufferPool {
    type V = PoolView;

    closed spec fn view(&self) -> PoolView {
        PoolView {
            slots: self.slots@,
            capacity: self.capacity,
            cursor: self.cursor,
            in_flight: self.in_flight,
            next_ticket: self.next_ticket,
        }
    }
}

/// Number of free buffers among the first `n`.
pub open spec fn free_among(slots: Seq<BufferSlot>, n: int) -> nat
    decreases n,
{
    if n <= 0 {
        0
    } else if slots[n - 1].state == BUFFER_FREE {
        free_among(slots, n - 1) + 1
    } else {
        free_among(slots, n - 1)
    }
}

/// The first free buffer from `start + offset` on, around the end.
pub open spec fn free_from(slots: Seq<BufferSlot>, start: int, offset: int) -> Option<int>
    decreases slots.len() - offset,
{
    let index = (start + offset) % slots.len() as int;
    if offset >= slots.len() {
        None
    } else if slots[index].state == BUFFER_FREE {
        Some(index)
    } else {
        free_from(slots, start, offset + 1)
    }
}

impl PoolView {
    /// The pool has a buffer, and no more than tickets can number.
    pub open spec fn wf(self) -> bool {
        0 < self.slots.len() <= u16::MAX
    }

    /// Number of free buffers.
    pub open spec fn free(self) -> nat {
        free_among(self.slots, self.slots.len() as int)
    }

    /// The pool with another state of one buffer.
    pub open spec fn with_slot(self, index: int, slot: BufferSlot) -> PoolView {
        PoolView { slots: self.slots.update(index, slot), ..self }
    }

    /// The pool with one buffer marked with `state` alone.
    pub open spec fn marked(self, index: int, state: u8) -> PoolView {
        self.with_slot(index, BufferSlot { state, ..self.slots[index] })
    }

    /// The buffer that a search finds.
    pub open spec fn next_free(self) -> Option<int> {
        free_from(self.slots, self.cursor as int % self.slots.len() as int, 0)
    }

    /// The pool once a buffer was searched for: the one that was found waits for
    /// its read, and the next search starts behind it. Where none is free, the
    /// next search starts one further.
    pub open spec fn acquired(self) -> PoolView {
        match self.next_free() {
            Some(index) => PoolView {
                cursor: ((index + 1) % self.slots.len() as int) as usize,
                ..self.marked(index, BUFFER_IN_FLIGHT)
            },
            None => PoolView {
                cursor: if self.cursor == usize::MAX {
                    0
                } else {
                    (self.cursor + 1) as usize
                },
                ..self
            },
        }
    }

    /// The ticket for a block in buffer `index`.
    pub open spec fn ticket(self, span: BlockSpan, index: int) -> ReadTicket {
        ReadTicket {
            id: self.next_ticket,
            kind: span.kind,
            layer_id: span.layer_id,
            expert_id: span.expert_id,
            fixed_buffer_index: index as u16,
            file_offset: span.file_offset,
            disk_bytes: span.disk_bytes as u32,
            payload_bytes: span.payload_bytes as u32,
        }
    }

    /// The pool once buffer `index` has the next ticket.
    pub open spec fn ticketed(self, index: int) -> PoolView {
        PoolView {
            next_ticket: if self.next_ticket == u64::MAX {
                0
            } else {
                (self.next_ticket + 1) as u64
            },
            ..self.with_slot(
                index,
                BufferSlot {
                    state: BUFFER_IN_FLIGHT,
                    ticket_id: self.next_ticket,
                    io_ready: false,
                    decode_ready: false,
                },
            )
        }
    }

    /// Giving buffer `index` to a block: a buffer that is taken already, or one
    /// that is free, has to be large enough. One that is too small is free again.
    pub open spec fn given(self, span: BlockSpan, index: int) -> (
        PoolView,
        Result<ReadTicket, DirectIoError>,
    ) {
        if index >= self.slots.len() {
            (self, Err(DirectIoError::InvalidBufferIndex(index as usize)))
        } else if self.slots[index].state != BUFFER_IN_FLIGHT && self.slots[index].state
            != BUFFER_FREE {
            (self, Err(DirectIoError::NoFreeBuffer))
        } else if span.disk_bytes as usize > self.capacity {
            (
                self.marked(index, BUFFER_FREE),
                Err(
                    DirectIoError::BufferTooSmall {
                        requested: span.disk_bytes,
                        capacity: self.capacity,
                    },
                ),
            )
        } else {
            (self.ticketed(index), Ok(self.ticket(span, index)))
        }
    }

    /// Finding a free buffer for a block and giving it to it.
    pub open spec fn taken(self, span: BlockSpan) -> (PoolView, Result<ReadTicket, DirectIoError>) {
        match self.next_free() {
            None => (self.acquired(), Err(DirectIoError::NoFreeBuffer)),
            Some(index) => self.acquired().given(span, index),
        }
    }

    /// Finding a free buffer for a block that is read through the ring. A block
    /// of another file than the model needs the pack to be there.
    pub open spec fn ring_taken(self, fixed_file: u32, has_pack: bool, span: BlockSpan) -> (
        PoolView,
        Result<ReadTicket, DirectIoError>,
    ) {
        if fixed_file != FIXED_MODEL_FILE && !has_pack && self.next_free() is Some {
            (self.acquired(), Err(DirectIoError::PackNotRegistered))
        } else {
            self.taken(span)
        }
    }

    /// The pool once the ring took a read.
    pub open spec fn ring_queued(self) -> PoolView {
        PoolView {
            in_flight: if self.in_flight == u64::MAX {
                0
            } else {
                (self.in_flight + 1) as u64
            },
            ..self
        }
    }

    /// The pool once a file was read into buffer `index`: with fewer bytes than
    /// the block has, the buffer is free again; otherwise it is ready.
    pub open spec fn loaded(self, index: int, disk_bytes: u64, read: usize) -> (
        PoolView,
        Result<(), DirectIoError>,
    ) {
        if read < disk_bytes as usize {
            (
                self.marked(index, BUFFER_FREE),
                Err(DirectIoError::ShortExternalRead { requested: disk_bytes, actual: read }),
            )
        } else {
            (
                self.with_slot(
                    index,
                    BufferSlot { io_ready: true, state: BUFFER_READY, ..self.slots[index] },
                ),
                Ok(()),
            )
        }
    }

    /// The pool once a read in the ring came back. A read in full makes its
    /// buffer ready, unless the buffer has another ticket by now.
    pub open spec fn completed(self, ticket: ReadTicket, result: i32) -> PoolView {
        let index = ticket.fixed_buffer_index as int;
        let slots = if result == ticket.disk_bytes && self.slots[index].ticket_id == ticket.id {
            self.slots.update(
                index,
                BufferSlot { io_ready: true, state: BUFFER_READY, ..self.slots[index] },
            )
        } else {
            self.slots
        };
        PoolView {
            slots,
            in_flight: if self.in_flight == 0 {
                u64::MAX
            } else {
                (self.in_flight - 1) as u64
            },
            ..self
        }
    }
}

/// Number of buffers beside the read buffers: as many, unless they hold nothing.
pub fn runtime_buffer_count(runtime_buffer_bytes: usize, io_buffer_count: usize) -> (count: usize)
    ensures
        count == if runtime_buffer_bytes == 0 {
            0
        } else {
            io_buffer_count
        },
{
    if runtime_buffer_bytes == 0 {
        0
    } else {
        io_buffer_count
    }
}

/// How many bytes are read of a file into a buffer: a read that goes past the
/// cache is made up to whole pages of 4096 bytes, where the buffer has room for
/// them.
pub fn external_read_len(disk_bytes: usize, capacity: usize, direct: bool) -> (len: usize)
    requires
        disk_bytes + 4095 <= usize::MAX,
    ensures
        ({
            let whole = (disk_bytes + 4095) / 4096 * 4096;
            len == if direct && whole <= capacity {
                whole
            } else {
                disk_bytes as int
            }
        }),
        len >= disk_bytes,
{
    let whole: usize = (disk_bytes + 4095) / 4096 * 4096;
    if direct && whole <= capacity {
        whole
    } else {
        disk_bytes
    }
}

impl BufferPool {
    /// A pool of `count` free buffers.
    pub fn new(count: usize, capacity: usize) -> (result: Result<Self, DirectIoError>)
        ensures
            match result {
                Ok(pool) => 0 < count <= u16::MAX && pool@ == (PoolView {
                    slots: Seq::new(count as nat, |i: int| free_slot()),
                    capacity,
                    cursor: 0,
                    in_flight: 0,
                    next_ticket: 1,
                }) && pool@.wf(),
                Err(error) => !(0 < count <= u16::MAX) && error
                    == DirectIoError::InvalidBufferCount(count),
            },
    {
        if count == 0 || count > u16::MAX as usize {
            return Err(DirectIoError::InvalidBufferCount(count));
        }
        let mut slots: Vec<BufferSlot> = Vec::new();
        let mut i: usize = 0;
        while i < count
            invariant
                i <= count,
                slots@ == Seq::new(i as nat, |i: int| free_slot()),
            decreases count - i,
        {
            slots.push(
                BufferSlot {
                    state: BUFFER_FREE,
                    ticket_id: 0,
                    io_ready: false,
                    decode_ready: false,
                },
            );
            proof {
                assert(slots@ =~= Seq::new((i + 1) as nat, |i: int| free_slot()));
            }
            i += 1;
        }
        Ok(BufferPool { slots, capacity, cursor: 0, in_flight: 0, next_ticket: 1 })
    }

    /// Number of buffers.
    pub fn buffer_count(&self) -> (count: usize)
        ensures
            count == self@.slots.len(),
    {
        self.slots.len()
    }

    /// Bytes of each buffer.
    pub fn capacity(&self) -> (bytes: usize)
        ensures
            bytes == self@.capacity,
    {
        self.capacity
    }

    /// Number of reads in the ring.
    pub fn in_flight(&self) -> (count: u64)
        ensures
            count == self@.in_flight,
    {
        self.in_flight
    }

    /// Number of free buffers.
    pub fn available_buffers(&self) -> (count: usize)
        ensures
            count == self@.free(),
            count <= self@.slots.len(),
    {
        let mut count: usize = 0;
        let mut i: usize = 0;
        while i < self.slots.len()
            invariant
                i <= self@.slots.len(),
                count <= i,
                self@.slots == self.slots@,
                count == free_among(self@.slots, i as int),
            decreases self@.slots.len() - i,
        {
            if self.slots[i].state == BUFFER_FREE {
                count += 1;
            }
            i += 1;
        }
        count
    }

    /// Frees a buffer.
    pub fn release_buffer(&mut self, fixed_buffer_index: u16) -> (result: Result<
        (),
        DirectIoError,
    >)
        ensures
            if fixed_buffer_index < old(self)@.slots.len() {
                result is Ok && final(self)@ == old(self)@.with_slot(
                    fixed_buffer_index as int,
                    free_slot(),
                )
            } else {
                result == Err::<(), DirectIoError>(
                    DirectIoError::InvalidBufferIndex(fixed_buffer_index as usize),
                ) && final(self)@ == old(self)@
            },
    {
        let index: usize = fixed_buffer_index as usize;
        if index >= self.slots.len() {
            return Err(DirectIoError::InvalidBufferIndex(index));
        }
        self.slots.set(
            index,
            BufferSlot { state: BUFFER_FREE, ticket_id: 0, io_ready: false, decode_ready: false },
        );
        Ok(())
    }

    /// Takes a free buffer, if there is one. The search goes around from where
    /// the last one ended.
    pub fn acquire_free_buffer(&mut self) -> (found: Option<usize>)
        requires
            old(self)@.wf(),
        ensures
            match old(self)@.next_free() {
                Some(index) => found == Some(index as usize) && 0 <= index < old(
                    self,
                )@.slots.len(),
                None => found is None,
            },
            final(self)@ == old(self)@.acquired(),
    {
        let len: usize = self.slots.len();
        let ghost before = self@;
        let start: usize = self.cursor % len;
        let mut offset: usize = 0;
        while offset < len
            invariant
                offset <= len,
                0 < len <= u16::MAX,
                len == before.slots.len(),
                self@ == before,
                before == old(self)@,
                self.slots@ == before.slots,
                self.cursor == before.cursor,
                start == before.cursor as int % before.slots.len() as int,
                start < len,
                before.next_free() == free_from(before.slots, start as int, offset as int),
            decreases len - offset,
        {
            let index: usize = (start + offset) % len;
            if self.slots[index].state == BUFFER_FREE {
                let mut slot: BufferSlot = self.slots[index];
                slot.state = BUFFER_IN_FLIGHT;
                self.slots.set(index, slot);
                self.cursor = (index + 1) % len;
                return Some(index);
            }
            offset += 1;
        }
        self.cursor = if self.cursor == usize::MAX {
            0
        } else {
            self.cursor + 1
        };
        None
    }

    /// Gives buffer `fixed_buffer_index` to a block that is read through the
    /// ring. A block of the pack needs the pack to be there. The ticket goes
    /// into the ring with the read.
    pub fn begin_read_on_buffer(
        &mut self,
        fixed_file: u32,
        has_pack: bool,
        span: BlockSpan,
        fixed_buffer_index: u16,
    ) -> (result: Result<ReadTicket, DirectIoError>)
        ensures
            if fixed_file != FIXED_MODEL_FILE && !has_pack {
                result == Err::<ReadTicket, DirectIoError>(DirectIoError::PackNotRegistered)
                    && final(self)@ == old(self)@
            } else {
                (final(self)@, result) == old(self)@.given(span, fixed_buffer_index as int)
            },
    {
        if fixed_file != FIXED_MODEL_FILE && !has_pack {
            return Err(DirectIoError::PackNotRegistered);
        }
        self.give(span, fixed_buffer_index)
    }

    fn give(&mut self, span: BlockSpan, fixed_buffer_index: u16) -> (result: Result<
        ReadTicket,
        DirectIoError,
    >)
        ensures
            (final(self)@, result) == old(self)@.given(span, fixed_buffer_index as int),
    {
        let index: usize = fixed_buffer_index as usize;
        if index >= self.slots.len() {
            return Err(DirectIoError::InvalidBufferIndex(index));
        }
        let state: u8 = self.slots[index].state;
        if state != BUFFER_IN_FLIGHT && state != BUFFER_FREE {
            return Err(DirectIoError::NoFreeBuffer);
        }
        if span.disk_bytes as usize > self.capacity {
            let mut slot: BufferSlot = self.slots[index];
            slot.state = BUFFER_FREE;
            self.slots.set(index, slot);
            return Err(
                DirectIoError::BufferTooSmall {
                    requested: span.disk_bytes,
                    capacity: self.capacity,
                },
            );
        }
        let id: u64 = self.next_ticket;
        self.next_ticket = if id == u64::MAX {
            0
        } else {
            id + 1
        };
        self.slots.set(
            index,
            BufferSlot {
                state: BUFFER_IN_FLIGHT,
                ticket_id: id,
                io_ready: false,
                decode_ready: false,
            },
        );
        Ok(
            ReadTicket {
                id,
                kind: span.kind,
                layer_id: span.layer_id,
                expert_id: span.expert_id,
                fixed_buffer_index,
                file_offset: span.file_offset,
                disk_bytes: span.disk_bytes as u32,
                payload_bytes: span.payload_bytes as u32,
            },
        )
    }

    /// Takes a free buffer for a block that is read through the ring.
    pub fn begin_read(&mut self, fixed_file: u32, has_pack: bool, span: BlockSpan) -> (result: Result<
        ReadTicket,
        DirectIoError,
    >)
        requires
            old(self)@.wf(),
        ensures
            (final(self)@, result) == old(self)@.ring_taken(fixed_file, has_pack, span),
    {
        match self.acquire_free_buffer() {
            Some(index) => self.begin_read_on_buffer(fixed_file, has_pack, span, index as u16),
            None => Err(DirectIoError::NoFreeBuffer),
        }
    }

    /// Takes a free buffer for a block that is read from a file at once.
    pub fn begin_load(&mut self, span: BlockSpan) -> (result: Result<ReadTicket, DirectIoError>)
        requires
            old(self)@.wf(),
        ensures
            (final(self)@, result) == old(self)@.taken(span),
    {
        match self.acquire_free_buffer() {
            Some(index) => self.give(span, index as u16),
            None => Err(DirectIoError::NoFreeBuffer),
        }
    }

    /// The ring took the read.
    pub fn queued(&mut self)
        ensures
            final(self)@ == old(self)@.ring_queued(),
    {
        self.in_flight = if self.in_flight == u64::MAX {
            0
        } else {
            self.in_flight + 1
        };
    }

    /// The ring was full: the buffer is free again.
    pub fn refused(&mut self, fixed_buffer_index: u16) -> (error: DirectIoError)
        requires
            fixed_buffer_index < old(self)@.slots.len(),
        ensures
            error == DirectIoError::SubmissionQueueFull,
            final(self)@ == old(self)@.marked(fixed_buffer_index as int, BUFFER_FREE),
    {
        let index: usize = fixed_buffer_index as usize;
        let mut slot: BufferSlot = self.slots[index];
        slot.state = BUFFER_FREE;
        self.slots.set(index, slot);
        DirectIoError::SubmissionQueueFull
    }

    /// A file was read into a buffer: with fewer bytes than the block has, the
    /// buffer is free again; otherwise it is ready.
    pub fn finish_load(&mut self, fixed_buffer_index: u16, disk_bytes: u64, read: usize) -> (result:
        Result<(), DirectIoError>)
        requires
            fixed_buffer_index < old(self)@.slots.len(),
        ensures
            (final(self)@, result) == old(self)@.loaded(
                fixed_buffer_index as int,
                disk_bytes,
                read,
            ),
    {
        let index: usize = fixed_buffer_index as usize;
        let mut slot: BufferSlot = self.slots[index];
        if read < disk_bytes as usize {
            slot.state = BUFFER_FREE;
            self.slots.set(index, slot);
            return Err(DirectIoError::ShortExternalRead { requested: disk_bytes, actual: read });
        }
        slot.io_ready = true;
        slot.state = BUFFER_READY;
        self.slots.set(index, slot);
        Ok(())
    }

    /// A read came back from the ring with `result`: the bytes that were read,
    /// or an error below zero.
    pub fn complete(&mut self, ticket: ReadTicket, result: i32)
        requires
            ticket.fixed_buffer_index < old(self)@.slots.len(),
        ensures
            final(self)@ == old(self)@.completed(ticket, result),
    {
        let index: usize = ticket.fixed_buffer_index as usize;
        if result >= 0 && result as u32 == ticket.disk_bytes {
            let mut slot: BufferSlot = self.slots[index];
            if slot.ticket_id == ticket.id {
                slot.io_ready = true;
                slot.state = BUFFER_READY;
                self.slots.set(index, slot);
            }
        }
        self.in_flight = if self.in_flight == 0 {
            u64::MAX
        } else {
            self.in_flight - 1
        };
    }
}

/// Taking a buffer keeps the pool well formed, and the ticket names a buffer of
/// the pool.
pub proof fn law_tickets_name_buffers(pool: PoolView, span: BlockSpan)
    requires
        pool.wf(),
    ensures
        pool.acquired().wf(),
        pool.taken(span).0.wf(),
        pool.taken(span).0.slots.len() == pool.slots.len(),
        pool.taken(span).1 matches Ok(ticket) ==> ticket.fixed_buffer_index < pool.slots.len(),
{
    law_search_finds_free(pool);
}

proof fn lemma_free_update(slots: Seq<BufferSlot>, index: int, slot: BufferSlot, n: int)
    requires
        0 <= index < slots.len(),
        0 <= n <= slots.len(),
    ensures
        free_among(slots.update(index, slot), n) == free_among(slots, n) + (if index < n
            && slot.state == BUFFER_FREE {
            1int
        } else {
            0
        }) - (if index < n && slots[index].state == BUFFER_FREE {
            1int
        } else {
            0
        }),
    decreases n,
{
    if n > 0 {
        lemma_free_update(slots, index, slot, n - 1);
    }
}

proof fn lemma_search(slots: Seq<BufferSlot>, start: int, offset: int)
    requires
        slots.len() > 0,
        0 <= start < slots.len(),
        0 <= offset,
    ensures
        free_from(slots, start, offset) matches Some(index) ==> 0 <= index < slots.len()
            && slots[index].state == BUFFER_FREE,
        free_from(slots, start, offset) is None ==> forall|k: int|
            offset <= k < slots.len() ==> slots[#[trigger] around(start, k, slots.len() as int)].state
                != BUFFER_FREE,
    decreases slots.len() - offset,
{
    if offset < slots.len() {
        let index = (start + offset) % slots.len() as int;
        vstd::arithmetic::div_mod::lemma_mod_bound(start + offset, slots.len() as int);
        if slots[index].state != BUFFER_FREE {
            lemma_search(slots, start, offset + 1);
            assert forall|k: int|
                offset <= k < slots.len() && free_from(slots, start, offset) is None implies slots[
            #[trigger] around(start, k, slots.len() as int)].state != BUFFER_FREE by {
                if k > offset {
                    assert(slots[around(start, k, slots.len() as int)].state != BUFFER_FREE);
                }
            }
        }
    }
}

spec fn around(start: int, offset: int, len: int) -> int {
    (start + offset) % len
}

proof fn lemma_no_free(slots: Seq<BufferSlot>, n: int)
    requires
        0 <= n <= slots.len(),
        forall|i: int| 0 <= i < n ==> (#[trigger] slots[i]).state != BUFFER_FREE,
    ensures
        free_among(slots, n) == 0,
    decreases n,
{
    if n > 0 {
        lemma_no_free(slots, n - 1);
    }
}

proof fn lemma_some_free(slots: Seq<BufferSlot>, n: int, index: int)
    requires
        0 <= index < n <= slots.len(),
        slots[index].state == BUFFER_FREE,
    ensures
        free_among(slots, n) > 0,
    decreases n,
{
    if index < n - 1 {
        lemma_some_free(slots, n - 1, index);
    }
}

/// A search finds a buffer exactly where one is free, and what it finds was
/// free.
pub proof fn law_search_finds_free(pool: PoolView)
    requires
        pool.wf(),
    ensures
        pool.next_free() is Some == (pool.free() > 0),
        pool.next_free() matches Some(index) ==> 0 <= index < pool.slots.len()
            && pool.slots[index].state == BUFFER_FREE,
{
    let len = pool.slots.len() as int;
    let start = pool.cursor as int % len;
    vstd::arithmetic::div_mod::lemma_mod_bound(pool.cursor as int, len);
    lemma_search(pool.slots, start, 0);
    match pool.next_free() {
        Some(index) => {
            lemma_some_free(pool.slots, len, index);
        },
        None => {
            assert forall|i: int| 0 <= i < len implies (#[trigger] pool.slots[i]).state
                != BUFFER_FREE by {
                let offset = if i >= start {
                    i - start
                } else {
                    i - start + len
                };
                if i >= start {
                    vstd::arithmetic::div_mod::lemma_small_mod(i as nat, len as nat);
                } else {
                    vstd::arithmetic::div_mod::lemma_mod_add_multiples_vanish(i, len);
                    vstd::arithmetic::div_mod::lemma_small_mod(i as nat, len as nat);
                    assert(start + offset == len + i);
                }
                assert(around(start, offset, len) == i);
                assert(pool.slots[around(start, offset, len)].state != BUFFER_FREE);
            }
            lemma_no_free(pool.slots, len);
        },
    }
}

/// Taking a buffer leaves one free buffer less, changes no other buffer, and
/// the buffer cannot be taken again while it is in use.
pub proof fn law_taken_once(pool: PoolView, index: int)
    requires
        pool.wf(),
        pool.next_free() == Some(index),
    ensures
        pool.acquired().wf(),
        pool.acquired().free() == pool.free() - 1,
        pool.acquired().next_free() != Some(index),
        forall|other: int|
            0 <= other < pool.slots.len() && other != index ==> #[trigger]
            pool.acquired().slots[other] == pool.slots[other],
{
    law_search_finds_free(pool);
    lemma_free_update(
        pool.slots,
        index,
        BufferSlot { state: BUFFER_IN_FLIGHT, ..pool.slots[index] },
        pool.slots.len() as int,
    );
    law_search_finds_free(pool.acquired());
}

/// A buffer in use that gets a ticket stays in use; one that is freed is one
/// free buffer more.
pub proof fn law_marking_in_use(pool: PoolView, index: int)
    requires
        0 <= index < pool.slots.len(),
        pool.slots[index].state != BUFFER_FREE,
    ensures
        pool.ticketed(index).free() == pool.free(),
        pool.marked(index, BUFFER_FREE).free() == pool.free() + 1,
{
    let len = pool.slots.len() as int;
    lemma_free_update(pool.slots, index, pool.ticketed(index).slots[index], len);
    lemma_free_update(
        pool.slots,
        index,
        BufferSlot { state: BUFFER_FREE, ..pool.slots[index] },
        len,
    );
}

/// Releasing a buffer that is in use gives it back: one free buffer more.
pub proof fn law_release_gives_back(pool: PoolView, index: int)
    requires
        pool.wf(),
        0 <= index < pool.slots.len(),
        pool.slots[index].state != BUFFER_FREE,
    ensures
        pool.with_slot(index, free_slot()).free() == pool.free() + 1,
{
    lemma_free_update(pool.slots, index, free_slot(), pool.slots.len() as int);
}

/// A late answer changes no buffer that was given to another read meanwhile.
pub proof fn law_late_answers_change_nothing(pool: PoolView, ticket: ReadTicket, result: i32)
    requires
        ticket.fixed_buffer_index < pool.slots.len(),
        pool.slots[ticket.fixed_buffer_index as int].ticket_id != ticket.id,
    ensures
        pool.completed(ticket, result).slots == pool.slots,
{
}

/// Tickets of two reads in a row have different numbers.
pub proof fn law_tickets_differ(pool: PoolView, first: BlockSpan, second: BlockSpan, a: int, b: int)
    ensures
        pool.ticket(first, a).id != pool.ticketed(a).ticket(second, b).id,
{
}

/// A read that gets a buffer gets one that was free, which from now on waits for
/// this read alone; the ticket names it and repeats what is to be read, and no
/// other buffer changes. It gets none where none is free, or where the buffers
/// are too small; either way as many are free as before.
pub proof fn law_reads_hold_their_buffer(pool: PoolView, span: BlockSpan)
    requires
        pool.wf(),
        span.disk_bytes <= usize::MAX,
    ensures
        ({
            let (after, result) = pool.taken(span);
            match result {
                Ok(ticket) => {
                    let index = ticket.fixed_buffer_index as int;
                    &&& span.disk_bytes <= pool.capacity
                    &&& index < pool.slots.len()
                    &&& pool.slots[index].state == BUFFER_FREE
                    &&& after.slots[index].state == BUFFER_IN_FLIGHT
                    &&& after.slots[index].ticket_id == ticket.id
                    &&& !after.slots[index].io_ready
                    &&& !after.slots[index].decode_ready
                    &&& forall|other: int|
                        0 <= other < pool.slots.len() && other != index
                            ==> #[trigger] after.slots[other] == pool.slots[other]
                    &&& ticket.kind == span.kind
                    &&& ticket.layer_id == span.layer_id
                    &&& ticket.expert_id == span.expert_id
                    &&& ticket.file_offset == span.file_offset
                    &&& span.disk_bytes <= u32::MAX ==> ticket.disk_bytes == span.disk_bytes
                    &&& span.payload_bytes <= u32::MAX ==> ticket.payload_bytes
                        == span.payload_bytes
                },
                Err(error) => {
                    &&& forall|i: int|
                        0 <= i < pool.slots.len() ==> (#[trigger] after.slots[i]).state
                            == pool.slots[i].state
                    &&& if error == DirectIoError::NoFreeBuffer {
                        forall|i: int|
                            0 <= i < pool.slots.len() ==> (#[trigger] pool.slots[i]).state
                                != BUFFER_FREE
                    } else {
                        error == (DirectIoError::BufferTooSmall {
                            requested: span.disk_bytes,
                            capacity: pool.capacity,
                        }) && span.disk_bytes > pool.capacity
                    }
                },
            }
        }),
        pool.taken(span).0.slots.len() == pool.slots.len(),
        pool.taken(span).0.capacity == pool.capacity,
        pool.taken(span).0.in_flight == pool.in_flight,
        pool.taken(span).1 is Ok == (pool.free() > 0 && span.disk_bytes <= pool.capacity),
{
    law_search_finds_free(pool);
    if pool.next_free() is None {
        assert forall|i: int| 0 <= i < pool.slots.len() implies (#[trigger] pool.slots[i]).state
            != BUFFER_FREE by {
            if pool.slots[i].state == BUFFER_FREE {
                lemma_some_free(pool.slots, pool.slots.len() as int, i);
            }
        }
    }
}

/// Buffers are taken in turn: the next one that is taken stands right behind the
/// last one, around the end, if it is free.
pub proof fn law_buffers_take_turns(pool: PoolView, index: int)
    requires
        pool.wf(),
        pool.next_free() == Some(index),
        pool.slots.len() > 1,
    ensures
        ({
            let next = if index + 1 == pool.slots.len() {
                0
            } else {
                index + 1
            };
            pool.slots[next].state == BUFFER_FREE ==> pool.acquired().next_free() == Some(next)
        }),
{
    law_search_finds_free(pool);
    let len = pool.slots.len() as int;
    let next = if index + 1 == len {
        0
    } else {
        index + 1
    };
    assert((index + 1) % len == next) by {
        if index + 1 == len {
            vstd::arithmetic::div_mod::lemma_mod_self_0(len);
        } else {
            vstd::arithmetic::div_mod::lemma_small_mod((index + 1) as nat, len as nat);
        }
    }
    vstd::arithmetic::div_mod::lemma_small_mod(next as nat, len as nat);
    let after = pool.acquired();
    assert(after.cursor == next);
    assert(after.slots[next] == pool.slots[next]);
}

/// The pool counts a read less once it came back. The buffer becomes ready where
/// all its bytes came and it still waits for that read; otherwise nothing
/// changes in it, and nothing ever does in the others.
pub proof fn law_full_reads_make_ready(pool: PoolView, ticket: ReadTicket, result: i32)
    requires
        ticket.fixed_buffer_index < pool.slots.len(),
    ensures
        ({
            let index = ticket.fixed_buffer_index as int;
            let after = pool.completed(ticket, result);
            &&& after.slots.len() == pool.slots.len()
            &&& pool.in_flight > 0 ==> after.in_flight == pool.in_flight - 1
            &&& after.capacity == pool.capacity
            &&& after.next_ticket == pool.next_ticket
            &&& after.cursor == pool.cursor
            &&& after.slots[index].ticket_id == pool.slots[index].ticket_id
            &&& result == ticket.disk_bytes && pool.slots[index].ticket_id == ticket.id
                ==> after.slots[index].state == BUFFER_READY && after.slots[index].io_ready
            &&& result != ticket.disk_bytes || pool.slots[index].ticket_id != ticket.id
                ==> after.slots[index] == pool.slots[index]
            &&& forall|other: int|
                0 <= other < pool.slots.len() && other != index
                    ==> #[trigger] after.slots[other] == pool.slots[other]
        }),
{
}

/// A file read into a buffer makes it ready where no byte is missing, and frees
/// it otherwise, which is an error.
pub proof fn law_short_loads_free_the_buffer(
    pool: PoolView,
    index: int,
    disk_bytes: u64,
    read: usize,
)
    requires
        0 <= index < pool.slots.len(),
        disk_bytes <= usize::MAX,
    ensures
        ({
            let (after, result) = pool.loaded(index, disk_bytes, read);
            &&& result is Ok == (read >= disk_bytes)
            &&& after.slots[index].state == if read >= disk_bytes {
                BUFFER_READY
            } else {
                BUFFER_FREE
            }
            &&& read >= disk_bytes ==> after.slots[index].io_ready
            &&& after.slots[index].ticket_id == pool.slots[index].ticket_id
            &&& forall|other: int|
                0 <= other < pool.slots.len() && other != index
                    ==> #[trigger] after.slots[other] == pool.slots[other]
            &&& after.slots.len() == pool.slots.len()
            &&& after.in_flight == pool.in_flight
        }),
{
}

/// The ring counts the reads it took: one more for each, one less for each that
/// came back.
pub proof fn law_ring_counts_its_reads(pool: PoolView, ticket: ReadTicket, result: i32)
    requires
        ticket.fixed_buffer_index < pool.slots.len(),
    ensures
        pool.ring_queued().slots == pool.slots,
        pool.in_flight < u64::MAX ==> pool.ring_queued().in_flight == pool.in_flight + 1,
        pool.ring_queued().completed(ticket, result).in_flight == pool.in_flight,
{
}

/// What `begin_load` gives a read: a buffer that was free, which waits for this read
/// from now on, with a ticket that repeats what is to be read; no other buffer
/// changes.
pub proof fn law_begin_load(
    pool: &mut BufferPool,
    span: BlockSpan,
    ticket: ReadTicket,
    other: int,
)
    requires
        pool@.wf(),
        span.disk_bytes <= u32::MAX,
        span.payload_bytes <= u32::MAX,
        0 <= other < pool@.slots.len(),
        call_ensures(
            BufferPool::begin_load,
            (pool, span),
            Ok::<ReadTicket, DirectIoError>(ticket),
        ),
    ensures
        ({
            let index = ticket.fixed_buffer_index as int;
            &&& index < old(pool)@.slots.len()
            &&& old(pool)@.slots[index].state == BUFFER_FREE
            &&& final(pool)@.slots[index].state == BUFFER_IN_FLIGHT
            &&& final(pool)@.slots[index].ticket_id == ticket.id
            &&& other != index ==> final(pool)@.slots[other] == old(pool)@.slots[other]
            &&& span.disk_bytes <= old(pool)@.capacity
            &&& ticket.kind == span.kind && ticket.layer_id == span.layer_id && ticket.expert_id
                == span.expert_id && ticket.file_offset == span.file_offset && ticket.disk_bytes
                == span.disk_bytes && ticket.payload_bytes == span.payload_bytes
        }),
{
    law_reads_hold_their_buffer(old(pool)@, span);
}

/// What `begin_read` gives a read through the ring: the same, and for another file
/// than the model only where the pack is there.
pub proof fn law_begin_read(
    pool: &mut BufferPool,
    fixed_file: u32,
    has_pack: bool,
    span: BlockSpan,
    ticket: ReadTicket,
)
    requires
        pool@.wf(),
        span.disk_bytes <= u32::MAX,
        call_ensures(
            BufferPool::begin_read,
            (pool, fixed_file, has_pack, span),
            Ok::<ReadTicket, DirectIoError>(ticket),
        ),
    ensures
        fixed_file == 0 || has_pack,
        ticket.fixed_buffer_index < old(pool)@.slots.len(),
        old(pool)@.slots[ticket.fixed_buffer_index as int].state == BUFFER_FREE,
        final(pool)@.slots[ticket.fixed_buffer_index as int].state == BUFFER_IN_FLIGHT,
        final(pool)@.slots[ticket.fixed_buffer_index as int].ticket_id == ticket.id,
        ticket.file_offset == span.file_offset,
        ticket.disk_bytes == span.disk_bytes,
        ticket.layer_id == span.layer_id,
        ticket.expert_id == span.expert_id,
{
    law_reads_hold_their_buffer(old(pool)@, span);
}

/// What `complete` does: a read in full makes the buffer ready that still waits for
/// it.
pub proof fn law_complete(pool: &mut BufferPool, ticket: ReadTicket, result: i32, other: int)
    requires
        ticket.fixed_buffer_index < pool@.slots.len(),
        0 <= other < pool@.slots.len(),
        call_ensures(BufferPool::complete, (pool, ticket, result), ()),
    ensures
        ({
            let index = ticket.fixed_buffer_index as int;
            let before = old(pool)@.slots[index];
            let after = final(pool)@.slots[index];
            &&& result == ticket.disk_bytes && before.ticket_id == ticket.id ==> after.state
                == BUFFER_READY && after.io_ready
            &&& result != ticket.disk_bytes || before.ticket_id != ticket.id ==> after == before
            &&& other != index ==> final(pool)@.slots[other] == old(pool)@.slots[other]
            &&& old(pool)@.in_flight > 0 ==> final(pool)@.in_flight == old(pool)@.in_flight - 1
        }),
{
    law_full_reads_make_ready(old(pool)@, ticket, result);
}

/// What `release_buffer` does: the buffer is free, and no other changes.
pub proof fn law_release_buffer(pool: &mut BufferPool, index: u16, other: int)
    requires
        0 <= other < pool@.slots.len(),
        call_ensures(BufferPool::release_buffer, (pool, index), Ok::<(), DirectIoError>(())),
    ensures
        index < old(pool)@.slots.len(),
        final(pool)@.slots[index as int].state == BUFFER_FREE,
        other != index ==> final(pool)@.slots[other] == old(pool)@.slots[other],
{
}

/// A new pool has all its buffers free and large enough, and hands out the first.
pub proof fn law_new_pools_are_free(count: usize, capacity: usize, pool: BufferPool, i: int)
    requires
        0 <= i < count,
        call_ensures(BufferPool::new, (count, capacity), Ok::<BufferPool, DirectIoError>(pool)),
    ensures
        pool@.slots.len() == count,
        pool@.slots[i].state == BUFFER_FREE,
        pool@.capacity == capacity,
        pool@.in_flight == 0,
        pool@.next_free() == Some(0int),
{
    vstd::arithmetic::div_mod::lemma_small_mod(0, count as nat);
}

/// What `external_read_len` asks for: at least the block, in whole pages where the
/// read goes past the cache, and never more than a page beyond it or the buffer
/// holds.
pub proof fn law_external_read_len(
    disk_bytes: usize,
    capacity: usize,
    direct: bool,
    len: usize,
)
    requires
        disk_bytes + 4095 <= usize::MAX,
        call_ensures(external_read_len, (disk_bytes, capacity, direct), len),
    ensures
        disk_bytes <= len < disk_bytes + 4096,
        len == disk_bytes || (direct && len % 4096 == 0 && len <= capacity),
        direct && disk_bytes + 4095 <= capacity ==> len % 4096 == 0,
{
}

} // verus!
