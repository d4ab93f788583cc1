//! What the producer keeps account of, as mathematics: the header words and the blocks
//! of the arena, and how each operation changes them.

use crate::allocator;
use crate::allocator::ArenaView;
use crate::transport::desc;
use crate::transport::header::SharedHeader;
use crate::transport::ring;
use vstd::bytes;
use vstd::prelude::*;

verus! {

/// A block of the arena that the producer holds and may fill and publish.
#[derive(Debug, Clone, Copy)]
pub struct AllocLease {
    pub buffer_id: u32,
    pub offset: u64,
    pub len: u32,
}

/// One more, and 0 after the largest.
pub open spec fn wrapped_next(x: u64) -> u64 {
    if x == u64::MAX {
        0
    } else {
        (x + 1) as u64
    }
}

/// How much later `a` is than `b`; 0 when it is not.
pub open spec fn later_by(a: u64, b: u64) -> int {
    if a > b {
        a - b
    } else {
        0
    }
}

/// A consumer owns the region and has shown itself within the timeout.
pub open spec fn online(hdr: SharedHeader, timeout_ns: u64, now: u64) -> bool {
    hdr.consumer_owner_pid != 0 && hdr.consumer_heartbeat_ns != 0 && later_by(
        now,
        hdr.consumer_heartbeat_ns,
    ) <= timeout_ns
}

/// The bytes of the ready entry of a frame.
pub open spec fn frame_bytes(seq: u64, lease: AllocLease, pts_ns: i64) -> Seq<u8> {
    bytes::spec_u64_to_le_bytes(seq) + bytes::spec_u64_to_le_bytes(lease.offset)
        + bytes::spec_u32_to_le_bytes(lease.len) + bytes::spec_u32_to_le_bytes(lease.buffer_id)
        + bytes::spec_u64_to_le_bytes(pts_ns as u64) + bytes::spec_u64_to_le_bytes(pts_ns as u64)
        + bytes::spec_u64_to_le_bytes(0) + bytes::spec_u32_to_le_bytes(0)
        + bytes::spec_u32_to_le_bytes(0) + Seq::new(8, |i: int| 0u8)
}

/// The bytes of the recycle entry of a buffer.
pub open spec fn return_bytes(seq: u64, buffer_id: u32, status: u32, offset: u64, length: u32) -> Seq<
    u8,
> {
    bytes::spec_u64_to_le_bytes(seq) + bytes::spec_u32_to_le_bytes(buffer_id)
        + bytes::spec_u32_to_le_bytes(status) + bytes::spec_u64_to_le_bytes(offset)
        + bytes::spec_u32_to_le_bytes(length) + Seq::new(36, |i: int| 0u8)
}

/// The bytes of the arena with a payload written at `at`.
pub open spec fn with_payload(arena: Seq<u8>, at: int, payload: Seq<u8>) -> Seq<u8> {
    arena.take(at) + payload + arena.skip(at + payload.len())
}

/// The header words and the blocks of the arena.
#[verifier::ext_equal]
pub struct Books {
    pub hdr: SharedHeader,
    pub blocks: ArenaView,
}

/// The blocks after the buffers of the recycle entries from `tail` up to `head` came back.
pub open spec fn drained(
    blocks: ArenaView,
    recycle: Seq<u8>,
    head: u64,
    tail: u64,
    cap: u32,
) -> ArenaView
    decreases head - tail,
{
    if tail >= head {
        blocks
    } else {
        drained(
            allocator::released(
                blocks,
                desc::recycled_id(desc::entry(recycle, ring::slot(tail as int, cap))),
            ),
            recycle,
            head,
            (tail + 1) as u64,
            cap,
        )
    }
}

impl Books {
    /// The bytes in use, as they are shown in the header.
    pub open spec fn used(self) -> u64 {
        allocator::sum_used(self.blocks.used) as u64
    }

    /// The recycle ring can be drained: its bytes are there, and its tail is not ahead
    /// of its head.
    pub open spec fn drainable(self, recycle: Seq<u8>) -> bool {
        ring::is_ring(recycle, self.hdr.rec_capacity) && self.hdr.rec_tail <= self.hdr.rec_head
    }

    /// After every buffer in the recycle ring was taken back.
    pub open spec fn drain(self, recycle: Seq<u8>, now: u64) -> Books {
        let blocks = drained(
            self.blocks,
            recycle,
            self.hdr.rec_head,
            self.hdr.rec_tail,
            self.hdr.rec_capacity,
        );
        Books {
            hdr: SharedHeader {
                rec_tail: self.hdr.rec_head,
                arena_used_bytes: Books { hdr: self.hdr, blocks }.used(),
                producer_heartbeat_ns: now,
                ..self.hdr
            },
            blocks,
        }
    }

    /// After a request for a block, with the block if there was room for it.
    pub open spec fn take(self, size: u32, align: u64) -> (Books, Option<AllocLease>) {
        match allocator::allocated(self.blocks, size, align) {
            Some((blocks, a)) => (
                Books { hdr: self.hdr, blocks },
                Some(AllocLease { buffer_id: a.buffer_id, offset: a.offset, len: a.len }),
            ),
            None => (self.count_failure(), None),
        }
    }

    /// After a request that could not be served was counted.
    pub open spec fn count_failure(self) -> Books {
        Books {
            hdr: SharedHeader {
                alloc_failures: wrapped_next(self.hdr.alloc_failures),
                ..self.hdr
            },
            blocks: self.blocks,
        }
    }

    /// After a block was given back.
    pub open spec fn give_back(self, id: u32) -> Books {
        let blocks = allocator::released(self.blocks, id);
        Books {
            hdr: SharedHeader {
                arena_used_bytes: Books { hdr: self.hdr, blocks }.used(),
                ..self.hdr
            },
            blocks,
        }
    }

    /// The ready ring has room for one more entry.
    pub open spec fn has_room(self) -> bool {
        ring::distance(self.hdr.ready_head, self.hdr.ready_tail) < self.hdr.ready_capacity
    }

    /// After a frame was put into the ready ring.
    pub open spec fn record_frame(self, now: u64) -> Books {
        Books {
            hdr: SharedHeader {
                ready_head: (self.hdr.ready_head + 1) as u64,
                producer_heartbeat_ns: now,
                arena_used_bytes: self.used(),
                arena_high_watermark: if self.used() > self.hdr.arena_high_watermark {
                    self.used()
                } else {
                    self.hdr.arena_high_watermark
                },
                ..self.hdr
            },
            blocks: self.blocks,
        }
    }

    /// The ready ring after a frame was put into it.
    pub open spec fn ready_with(self, ready: Seq<u8>, lease: AllocLease, pts_ns: i64) -> Seq<u8> {
        desc::with_entry(
            ready,
            ring::slot(self.hdr.ready_head as int, self.hdr.ready_capacity),
            frame_bytes((self.hdr.ready_head + 1) as u64, lease, pts_ns),
        )
    }

    /// The entries of the ready ring that wait for the consumer, the oldest first.
    pub open spec fn waiting(self, ready: Seq<u8>) -> Seq<Seq<u8>> {
        ring::queue(ready, self.hdr.ready_head, self.hdr.ready_tail, self.hdr.ready_capacity)
    }

    /// The oldest entry of the ready ring.
    pub open spec fn oldest(self, ready: Seq<u8>) -> Seq<u8> {
        desc::entry(ready, ring::slot(self.hdr.ready_tail as int, self.hdr.ready_capacity))
    }

    /// After the oldest waiting frame was dropped and its buffer taken back.
    pub open spec fn drop_oldest(self, ready: Seq<u8>) -> Books {
        Books {
            hdr: SharedHeader { ready_tail: (self.hdr.ready_tail + 1) as u64, ..self.hdr },
            blocks: allocator::released(
                self.blocks,
                desc::received(self.oldest(ready)).buffer_id,
            ),
        }
    }

    /// After all blocks were forgotten and a new timeline was begun.
    pub open spec fn reset(self) -> Books {
        Books {
            hdr: SharedHeader {
                timeline_gen: wrapped_next(self.hdr.timeline_gen),
                timeline_valid: 0,
                ..self.hdr
            },
            blocks: allocator::fresh(self.blocks.total, self.blocks.next_id),
        }
    }

    /// After room was made for a block: the oldest waiting frames are dropped one by one
    /// until it fits; when none waits and it still does not fit, the arena is reset. The
    /// flag tells whether it was. Every request that finds no room is counted.
    pub open spec fn take_live(self, ready: Seq<u8>, size: u32, align: u64) -> (
        Books,
        bool,
        Option<AllocLease>,
    )
        decreases self.hdr.ready_head - self.hdr.ready_tail,
    {
        match allocator::allocated(self.blocks, size, align) {
            Some(_) => (self.take(size, align).0, false, self.take(size, align).1),
            None => if self.hdr.ready_tail < self.hdr.ready_head {
                self.count_failure().drop_oldest(ready).take_live(ready, size, align)
            } else {
                let fresh = self.count_failure().reset();
                (fresh.take(size, align).0, true, fresh.take(size, align).1)
            },
        }
    }

    /// After the oldest waiting frames were dropped until the ready ring has room.
    pub open spec fn make_room(self, ready: Seq<u8>) -> Books
        decreases self.hdr.ready_head - self.hdr.ready_tail,
    {
        if self.hdr.ready_tail >= self.hdr.ready_head || self.has_room() {
            self
        } else {
            self.drop_oldest(ready).make_room(ready)
        }
    }

    /// After a timeline snapshot was written.
    pub open spec fn emit(self, pts_ns: i64, now: u64) -> Books {
        Books { hdr: emitted(self.hdr, pts_ns, now), blocks: self.blocks }
    }

    /// After a timeline snapshot was written, if one is due.
    pub open spec fn emit_if_due(self, beacon_ns: u64, pts_ns: i64, now: u64) -> Books {
        if beacon_due(self.hdr, beacon_ns, now) {
            self.emit(pts_ns, now)
        } else {
            self
        }
    }
}

/// The header after a timeline snapshot was written.
pub open spec fn emitted(hdr: SharedHeader, pts_ns: i64, now: u64) -> SharedHeader {
    SharedHeader {
        timeline_sink_mono_ns: now,
        timeline_producer_pts_ns: pts_ns,
        timeline_valid: 1,
        timeline_seq: wrapped_next(hdr.timeline_seq),
        ..hdr
    }
}

/// A timeline snapshot is due: there is none, or it is a beacon's period old.
pub open spec fn beacon_due(hdr: SharedHeader, beacon_ns: u64, now: u64) -> bool {
    hdr.timeline_valid == 0 || later_by(now, hdr.timeline_sink_mono_ns) >= beacon_ns
}

/// The entry of a frame, read back, tells of that frame.
pub proof fn law_frame_entry_survives(seq: u64, lease: AllocLease, pts_ns: i64)
    ensures
        frame_bytes(seq, lease, pts_ns).len() == desc::ENTRY_BYTES,
        desc::received(frame_bytes(seq, lease, pts_ns)) == (desc::ReceivedDesc {
            seq,
            buffer_id: lease.buffer_id,
            pts_ns,
            dts_ns: pts_ns,
            duration_ns: 0,
            flags: 0,
            offset: lease.offset,
            len: lease.len,
        }),
{
    bytes::lemma_auto_spec_u64_to_from_le_bytes();
    bytes::lemma_auto_spec_u32_to_from_le_bytes();
    let s = frame_bytes(seq, lease, pts_ns);
    assert(s.subrange(0, 8) =~= bytes::spec_u64_to_le_bytes(seq));
    assert(s.subrange(8, 16) =~= bytes::spec_u64_to_le_bytes(lease.offset));
    assert(s.subrange(16, 20) =~= bytes::spec_u32_to_le_bytes(lease.len));
    assert(s.subrange(20, 24) =~= bytes::spec_u32_to_le_bytes(lease.buffer_id));
    assert(s.subrange(24, 32) =~= bytes::spec_u64_to_le_bytes(pts_ns as u64));
    assert(s.subrange(32, 40) =~= bytes::spec_u64_to_le_bytes(pts_ns as u64));
    assert(s.subrange(40, 48) =~= bytes::spec_u64_to_le_bytes(0));
    assert(s.subrange(48, 52) =~= bytes::spec_u32_to_le_bytes(0));
    assert((pts_ns as u64) as i64 == pts_ns) by (bit_vector);
    assert((0u64) as i64 == 0i64);
}

/// The entry of a returned buffer, read back, names that buffer.
pub proof fn law_return_entry_survives(
    seq: u64,
    buffer_id: u32,
    status: u32,
    offset: u64,
    length: u32,
)
    ensures
        return_bytes(seq, buffer_id, status, offset, length).len() == desc::ENTRY_BYTES,
        desc::recycled_id(return_bytes(seq, buffer_id, status, offset, length)) == buffer_id,
{
    bytes::lemma_auto_spec_u64_to_from_le_bytes();
    bytes::lemma_auto_spec_u32_to_from_le_bytes();
    let s = return_bytes(seq, buffer_id, status, offset, length);
    assert(s.subrange(8, 12) =~= bytes::spec_u32_to_le_bytes(buffer_id));
}

/// Draining keeps the arena's invariant and its size.
pub proof fn law_drain_keeps_arena(
    blocks: ArenaView,
    recycle: Seq<u8>,
    head: u64,
    tail: u64,
    cap: u32,
)
    requires
        blocks.inv(),
    ensures
        drained(blocks, recycle, head, tail, cap).inv(),
        drained(blocks, recycle, head, tail, cap).total == blocks.total,
        drained(blocks, recycle, head, tail, cap).next_id == blocks.next_id,
        blocks.balanced() ==> drained(blocks, recycle, head, tail, cap).balanced(),
    decreases head - tail,
{
    if tail < head {
        let id = desc::recycled_id(desc::entry(recycle, ring::slot(tail as int, cap)));
        allocator::law_release(blocks, id);
        law_drain_keeps_arena(
            allocator::released(blocks, id),
            recycle,
            head,
            (tail + 1) as u64,
            cap,
        );
    }
}

/// Draining takes blocks back and hands none out.
pub proof fn law_drain_adds_nothing(
    blocks: ArenaView,
    recycle: Seq<u8>,
    head: u64,
    tail: u64,
    cap: u32,
    id: u32,
)
    requires
        blocks.inv(),
        !blocks.used.contains_key(id),
    ensures
        !drained(blocks, recycle, head, tail, cap).used.contains_key(id),
    decreases head - tail,
{
    if tail < head {
        let back = desc::recycled_id(desc::entry(recycle, ring::slot(tail as int, cap)));
        allocator::law_release(blocks, back);
        law_drain_adds_nothing(
            allocator::released(blocks, back),
            recycle,
            head,
            (tail + 1) as u64,
            cap,
            id,
        );
    }
}

/// Making room for a block keeps the arena's invariant and its size, drops only waiting
/// frames, and always ends with the block when it is no larger than the arena.
pub proof fn law_live_request_is_served(b: Books, ready: Seq<u8>, size: u32, align: u64)
    requires
        b.blocks.inv(),
        b.hdr.ready_tail <= b.hdr.ready_head,
    ensures
        ({
            let (after, reset, lease) = b.take_live(ready, size, align);
            &&& after.blocks.inv()
            &&& after.blocks.total == b.blocks.total
            &&& b.hdr.ready_tail <= after.hdr.ready_tail <= after.hdr.ready_head
            &&& after.hdr.ready_head == b.hdr.ready_head
            &&& reset ==> after.hdr.ready_tail == after.hdr.ready_head
            &&& after.hdr.timeline_gen == if reset {
                wrapped_next(b.hdr.timeline_gen)
            } else {
                b.hdr.timeline_gen
            }
            &&& size <= b.blocks.total ==> lease is Some
            &&& lease matches Some(l) ==> l.len == size && l.offset + l.len <= b.blocks.total
        }),
    decreases b.hdr.ready_head - b.hdr.ready_tail,
{
    allocator::law_allocation(b.blocks, size, align);
    match allocator::allocated(b.blocks, size, align) {
        Some(_) => {},
        None => {
            if b.hdr.ready_tail < b.hdr.ready_head {
                allocator::law_release(
                    b.blocks,
                    desc::received(b.oldest(ready)).buffer_id,
                );
                law_live_request_is_served(
                    b.count_failure().drop_oldest(ready),
                    ready,
                    size,
                    align,
                );
            } else {
                allocator::law_fresh_is_valid(b.blocks.total, b.blocks.next_id);
                allocator::law_fresh_arena_serves(
                    b.blocks.total,
                    b.blocks.next_id,
                    size,
                    align,
                );
                allocator::law_allocation(b.reset().blocks, size, align);
            }
        },
    }
}

/// Making room for a block counts every request that finds none: one for each frame that is
/// dropped, one for a reset, and one more where even that does not help.
pub proof fn law_failed_requests_are_counted(b: Books, ready: Seq<u8>, size: u32, align: u64)
    requires
        b.blocks.inv(),
        b.hdr.ready_tail <= b.hdr.ready_head,
        b.hdr.alloc_failures + (b.hdr.ready_head - b.hdr.ready_tail) + 2 <= u64::MAX,
    ensures
        ({
            let (after, reset, lease) = b.take_live(ready, size, align);
            after.hdr.alloc_failures == b.hdr.alloc_failures + (after.hdr.ready_tail
                - b.hdr.ready_tail) + if reset {
                1int
            } else {
                0
            } + if lease is None {
                1int
            } else {
                0
            }
        }),
    decreases b.hdr.ready_head - b.hdr.ready_tail,
{
    if allocator::allocated(b.blocks, size, align) is None && b.hdr.ready_tail
        < b.hdr.ready_head {
        allocator::law_release(b.blocks, desc::received(b.oldest(ready)).buffer_id);
        law_failed_requests_are_counted(
            b.count_failure().drop_oldest(ready),
            ready,
            size,
            align,
        );
    }
}

/// Dropping the oldest frames until the ring has room keeps the arena's invariant and
/// ends with room.
pub proof fn law_room_is_made(b: Books, ready: Seq<u8>)
    requires
        b.blocks.inv(),
        b.hdr.ready_tail <= b.hdr.ready_head,
        b.hdr.ready_capacity > 0,
    ensures
        b.make_room(ready).has_room(),
        b.make_room(ready).blocks.inv(),
        b.make_room(ready).blocks.total == b.blocks.total,
        b.make_room(ready).hdr == (SharedHeader {
            ready_tail: b.make_room(ready).hdr.ready_tail,
            ..b.hdr
        }),
        b.hdr.ready_tail <= b.make_room(ready).hdr.ready_tail <= b.hdr.ready_head,
    decreases b.hdr.ready_head - b.hdr.ready_tail,
{
    if b.hdr.ready_tail < b.hdr.ready_head && !b.has_room() {
        allocator::law_release(b.blocks, desc::received(b.oldest(ready)).buffer_id);
        law_room_is_made(b.drop_oldest(ready), ready);
    }
}

} // verus!
