//! The producer's end of a region.

use crate::allocator;
use crate::allocator::{ArenaView, FreeListAllocator};
use crate::platform::ShmError;
use crate::transport::books;
use crate::transport::books::{AllocLease, Books};
use crate::transport::desc;
use crate::transport::desc::{read_ready, read_recycled_id, write_entry, ReadyDesc};
use crate::transport::header;
use crate::transport::header::{init_header, map_layout, SharedHeader, TransportConfig};
use crate::transport::header::{STATE_RUNNING, STATE_STOPPED, STATE_STOPPING};
use crate::transport::ring;
use crate::transport::ring::{ahead, slot_of};
use vstd::prelude::*;

verus! {

/// How long a consumer counts as present after its last heartbeat, in nanoseconds.
pub const CONSUMER_TIMEOUT_NS: u64 = 1_000_000_000;

/// The producer of a region: it owns the arena's blocks and the head of the ready ring.
///
/// Its methods work on a snapshot of the header's words, which they bring up to date,
/// and on the bytes of the rings and of the arena.
#[derive(Debug)]
pub struct Writer {
    region_len: usize,
    allocator: FreeListAllocator,
    allocator_align: u64,
    beacon_ns: u64,
}

/// How far a frame got in one turn.
#[derive(Debug)]
pub enum Publish {
    /// The frame is in the ready ring; its buffer.
    Published(u32),
    /// The ready ring is full; the frame waits in its block.
    RingFull(AllocLease),
}

/// A frame that was published without waiting for anyone.
#[derive(Debug, Clone, Copy)]
pub struct LivePublish {
    pub buffer_id: u32,
    /// How many waiting frames were dropped to make room.
    pub dropped: u64,
    /// Whether the arena was reset to make room.
    pub reset: bool,
}

impl Writer {
    /// The blocks of the arena.
    pub closed spec fn arena(&self) -> ArenaView {
        self.allocator@
    }

    /// The region's length, the alignment of blocks, and the beacon's period.
    pub closed spec fn settings(&self) -> (usize, u64, u64) {
        (self.region_len, self.allocator_align, self.beacon_ns)
    }

    /// The producer's invariant: that of its allocator.
    pub open spec fn wf(&self) -> bool {
        self.arena().inv()
    }

    /// The producer's books together with a header.
    pub open spec fn books(&self, hdr: SharedHeader) -> Books {
        Books { hdr, blocks: self.arena() }
    }

    /// Sets up a region of `region_len` bytes, created by the process `pid` at `now`:
    /// the producer, and the header that it is to write.
    pub fn create(region_len: usize, cfg: &TransportConfig, pid: u32, now: u64) -> (r: Result<
        (Writer, SharedHeader),
        ShmError,
    >)
        ensures
            match r {
                Ok((w, hdr)) => {
                    &&& cfg.ready_capacity > 0 && cfg.recycle_capacity > 0
                    &&& header::layout_fault(
                        region_len,
                        cfg.ready_capacity,
                        cfg.recycle_capacity,
                    ) is None
                    &&& exists|l: header::Layout| #[trigger]
                        l.is_of(region_len, cfg.ready_capacity, cfg.recycle_capacity) && hdr
                            == header::initial_header(*cfg, l, pid, now)
                    &&& w.wf()
                    &&& w.arena() == allocator::fresh(hdr.arena_size, 1)
                    &&& w.settings() == (
                        region_len,
                        cfg.allocator_align,
                        (cfg.timeline_beacon_ms * 1_000_000) as u64,
                    )
                },
                Err(e) => if cfg.ready_capacity == 0 || cfg.recycle_capacity == 0 {
                    e.is_config("ring capacities must be non-zero"@)
                } else {
                    header::layout_fault(region_len, cfg.ready_capacity, cfg.recycle_capacity)
                        matches Some(words) && e.is_config(words)
                },
            },
    {
        match cfg.check() {
            Ok(_) => {},
            Err(e) => {
                return Err(e);
            },
        }
        let layout = match map_layout(region_len, cfg.ready_capacity, cfg.recycle_capacity) {
            Ok(l) => l,
            Err(e) => {
                return Err(e);
            },
        };
        let hdr: SharedHeader = init_header(cfg, &layout, pid, now);
        let allocator = FreeListAllocator::new(layout.arena_size);
        let w = Writer {
            region_len,
            allocator,
            allocator_align: cfg.allocator_align,
            beacon_ns: cfg.timeline_beacon_ms as u64 * 1_000_000,
        };
        Ok((w, hdr))
    }

    /// The length of the region.
    pub fn region_size(&self) -> (r: usize)
        ensures
            r == self.settings().0,
    {
        self.region_len
    }

    /// The size of the arena that the producer hands out.
    pub fn arena_total(&self) -> (r: u64)
        ensures
            r == self.arena().total,
    {
        self.allocator.total()
    }

    /// Marks the producer as running.
    pub fn set_running(&self, hdr: &mut SharedHeader)
        ensures
            *final(hdr) == (SharedHeader { state: STATE_RUNNING, ..*old(hdr) }),
    {
        hdr.state = STATE_RUNNING;
    }

    /// Marks the producer as stopped, by way of stopping.
    pub fn set_stopped(&self, hdr: &mut SharedHeader)
        ensures
            *final(hdr) == (SharedHeader { state: STATE_STOPPED, ..*old(hdr) }),
    {
        hdr.state = STATE_STOPPING;
        hdr.state = STATE_STOPPED;
    }

    /// Whether a consumer owns the region and has shown itself within the timeout.
    pub fn is_consumer_online(&self, hdr: &SharedHeader, timeout_ns: u64, now: u64) -> (r: bool)
        ensures
            r == books::online(*hdr, timeout_ns, now),
    {
        if hdr.consumer_owner_pid == 0 {
            return false;
        }
        if hdr.consumer_heartbeat_ns == 0 {
            return false;
        }
        now.saturating_sub(hdr.consumer_heartbeat_ns) <= timeout_ns
    }

    fn touch_producer_heartbeat(&self, hdr: &mut SharedHeader, now: u64)
        ensures
            *final(hdr) == (SharedHeader { producer_heartbeat_ns: now, ..*old(hdr) }),
    {
        hdr.producer_heartbeat_ns = now;
    }

    /// Shows that the producer is alive.
    pub fn producer_heartbeat_tick(&self, hdr: &mut SharedHeader, now: u64)
        ensures
            *final(hdr) == (SharedHeader { producer_heartbeat_ns: now, ..*old(hdr) }),
    {
        self.touch_producer_heartbeat(hdr, now);
    }

    fn update_usage_metrics(&self, hdr: &mut SharedHeader)
        requires
            self.wf(),
        ensures
            *final(hdr) == (SharedHeader {
                arena_used_bytes: self.books(*old(hdr)).used(),
                arena_high_watermark: if self.books(*old(hdr)).used() > old(
                    hdr,
                ).arena_high_watermark {
                    self.books(*old(hdr)).used()
                } else {
                    old(hdr).arena_high_watermark
                },
                ..*old(hdr)
            }),
    {
        let used: u64 = self.allocator.used_bytes();
        hdr.arena_used_bytes = used;
        if used > hdr.arena_high_watermark {
            hdr.arena_high_watermark = used;
        }
    }

    /// Takes back every buffer that the consumer has put into the recycle ring; entries
    /// that name no block in use are ignored.
    pub fn drain_recycles(&mut self, hdr: &mut SharedHeader, recycle: &[u8], now: u64)
        requires
            old(self).wf(),
            old(self).books(*old(hdr)).drainable(recycle@),
        ensures
            final(self).wf(),
            final(self).settings() == old(self).settings(),
            final(self).arena().total == old(self).arena().total,
            final(self).books(*final(hdr)) == old(self).books(*old(hdr)).drain(recycle@, now),
    {
        let ghost before = self.books(*hdr);
        let cap: u32 = hdr.rec_capacity;
        while hdr.rec_tail != hdr.rec_head
            invariant
                self.wf(),
                self.settings() == old(self).settings(),
                self.arena().total == old(self).arena().total,
                cap == hdr.rec_capacity,
                ring::is_ring(recycle@, cap),
                recycle.len() == cap * desc::ENTRY_BYTES,
                hdr.rec_tail <= hdr.rec_head,
                *hdr == (SharedHeader { rec_tail: hdr.rec_tail, ..before.hdr }),
                books::drained(
                    before.blocks,
                    recycle@,
                    before.hdr.rec_head,
                    before.hdr.rec_tail,
                    cap,
                ) == books::drained(
                    self.arena(),
                    recycle@,
                    hdr.rec_head,
                    hdr.rec_tail,
                    cap,
                ),
            decreases hdr.rec_head - hdr.rec_tail,
        {
            let tail: u64 = hdr.rec_tail;
            proof {
                ring::lemma_slot_in_ring(recycle@, tail as int, cap);
            }
            let idx: usize = slot_of(tail, cap);
            let id: u32 = read_recycled_id(recycle, idx);
            let _ = self.allocator.free_by_id(id);
            hdr.rec_tail = tail + 1;
        }
        hdr.arena_used_bytes = self.allocator.used_bytes();
        self.touch_producer_heartbeat(hdr, now);
        assert(self.books(*hdr) =~= before.drain(recycle@, now));
    }

    /// Takes a block of `size` bytes out of the arena, after taking back what the
    /// consumer has returned.
    pub fn alloc_lease(
        &mut self,
        hdr: &mut SharedHeader,
        recycle: &[u8],
        size: u32,
        align: u64,
        now: u64,
    ) -> (r: Result<AllocLease, ShmError>)
        requires
            old(self).wf(),
            old(self).books(*old(hdr)).drainable(recycle@),
        ensures
            final(self).wf(),
            final(self).settings() == old(self).settings(),
            final(self).arena().total == old(self).arena().total,
            ({
                let (after, lease) = old(self).books(*old(hdr)).drain(recycle@, now).take(
                    size,
                    align,
                );
                &&& final(self).books(*final(hdr)) == after
                &&& match r {
                    Ok(l) => lease == Some(l),
                    Err(e) => lease is None && e is Exhausted,
                }
            }),
    {
        self.drain_recycles(hdr, recycle, now);
        match self.allocator.allocate(size, align) {
            Some(a) => Ok(
                AllocLease { buffer_id: a.buffer_id, offset: a.offset, len: a.len },
            ),
            None => {
                hdr.alloc_failures = hdr.alloc_failures.wrapping_add(1);
                Err(ShmError::Exhausted)
            },
        }
    }

    /// Gives a block back without publishing it; `false` when no such block is in use.
    pub fn free_lease(&mut self, hdr: &mut SharedHeader, buffer_id: u32) -> (r: bool)
        requires
            old(self).wf(),
        ensures
            final(self).wf(),
            final(self).settings() == old(self).settings(),
            final(self).arena().total == old(self).arena().total,
            r == old(self).arena().used.contains_key(buffer_id),
            final(self).books(*final(hdr)) == old(self).books(*old(hdr)).give_back(buffer_id),
    {
        let freed: bool = self.allocator.free_by_id(buffer_id);
        hdr.arena_used_bytes = self.allocator.used_bytes();
        freed
    }

    fn put_frame(
        &self,
        hdr: &mut SharedHeader,
        ready: &mut [u8],
        lease: AllocLease,
        pts_ns: i64,
        now: u64,
    )
        requires
            self.wf(),
            ring::is_ring(old(ready)@, old(hdr).ready_capacity),
            old(hdr).ready_head < u64::MAX,
        ensures
            self.books(*final(hdr)) == self.books(*old(hdr)).record_frame(now),
            final(ready)@ == self.books(*old(hdr)).ready_with(old(ready)@, lease, pts_ns),
            final(ready)@.len() == old(ready)@.len(),
    {
        let head: u64 = hdr.ready_head;
        let idx: usize = slot_of(head, hdr.ready_capacity);
        let frame = ReadyDesc {
            seq: head + 1,
            offset: lease.offset,
            length: lease.len,
            buffer_id: lease.buffer_id,
            pts_ns,
            dts_ns: pts_ns,
            duration_ns: 0,
            flags: 0,
            checksum: 0,
            reserved: [0u8; 8],
        };
        let entry: Vec<u8> = frame.to_bytes();
        proof {
            ring::lemma_slot_in_ring(ready@, head as int, hdr.ready_capacity);
            assert(frame.reserved@ =~= Seq::new(8, |i: int| 0u8));
            assert(0i64 as u64 == 0u64) by (bit_vector);
            assert(entry@ == books::frame_bytes((head + 1) as u64, lease, pts_ns));
            assert(ready.len() == ready@.len());
        }
        write_entry(ready, idx, &entry);
        hdr.ready_head = head + 1;
        self.touch_producer_heartbeat(hdr, now);
        self.update_usage_metrics(hdr);
    }

    /// One turn of putting a block into the ready ring: `true` when it is in, and
    /// `false` when the ring is full and the recycle ring was drained instead.
    pub fn enqueue_lease(
        &mut self,
        hdr: &mut SharedHeader,
        ready: &mut [u8],
        recycle: &[u8],
        lease: AllocLease,
        pts_ns: i64,
        now: u64,
    ) -> (r: bool)
        requires
            old(self).wf(),
            old(self).books(*old(hdr)).drainable(recycle@),
            ring::is_ring(old(ready)@, old(hdr).ready_capacity),
            old(hdr).ready_head < u64::MAX,
        ensures
            final(self).wf(),
            final(self).settings() == old(self).settings(),
            final(self).arena().total == old(self).arena().total,
            final(ready)@.len() == old(ready)@.len(),
            r == old(self).books(*old(hdr)).has_room(),
            r ==> {
                &&& final(self).books(*final(hdr)) == old(self).books(*old(hdr)).record_frame(now)
                &&& final(ready)@ == old(self).books(*old(hdr)).ready_with(
                    old(ready)@,
                    lease,
                    pts_ns,
                )
            },
            !r ==> {
                &&& final(self).books(*final(hdr)) == old(self).books(*old(hdr)).drain(
                    recycle@,
                    now,
                )
                &&& final(ready)@ == old(ready)@
            },
    {
        if ahead(hdr.ready_head, hdr.ready_tail) < hdr.ready_capacity as u64 {
            self.put_frame(hdr, ready, lease, pts_ns, now);
            return true;
        }
        self.drain_recycles(hdr, recycle, now);
        false
    }

    /// Publishes a block to a consumer that is present: `Ok(true)` when it is in the
    /// ready ring, and `Ok(false)` when the ring is full, after which
    /// [`Writer::enqueue_lease`] takes the further turns.
    pub fn publish_lease(
        &mut self,
        hdr: &mut SharedHeader,
        ready: &mut [u8],
        recycle: &[u8],
        lease: AllocLease,
        pts_ns: i64,
        now: u64,
    ) -> (r: Result<bool, ShmError>)
        requires
            old(self).wf(),
            old(self).books(*old(hdr)).drainable(recycle@),
            ring::is_ring(old(ready)@, old(hdr).ready_capacity),
            old(hdr).ready_head < u64::MAX,
        ensures
            final(self).wf(),
            final(self).settings() == old(self).settings(),
            final(self).arena().total == old(self).arena().total,
            final(ready)@.len() == old(ready)@.len(),
            match r {
                Err(e) => {
                    &&& e is NoConsumer
                    &&& !books::online(*old(hdr), CONSUMER_TIMEOUT_NS, now)
                    &&& final(self).books(*final(hdr)) == old(self).books(*old(hdr))
                    &&& final(ready)@ == old(ready)@
                },
                Ok(true) => {
                    &&& books::online(*old(hdr), CONSUMER_TIMEOUT_NS, now)
                    &&& old(self).books(*old(hdr)).has_room()
                    &&& final(self).books(*final(hdr)) == old(self).books(
                        *old(hdr),
                    ).record_frame(now)
                    &&& final(ready)@ == old(self).books(*old(hdr)).ready_with(
                        old(ready)@,
                        lease,
                        pts_ns,
                    )
                },
                Ok(false) => {
                    &&& books::online(*old(hdr), CONSUMER_TIMEOUT_NS, now)
                    &&& !old(self).books(*old(hdr)).has_room()
                    &&& final(self).books(*final(hdr)) == old(self).books(*old(hdr)).drain(
                        recycle@,
                        now,
                    )
                    &&& final(ready)@ == old(ready)@
                },
            },
    {
        if !self.is_consumer_online(hdr, CONSUMER_TIMEOUT_NS, now) {
            return Err(ShmError::NoConsumer);
        }
        Ok(self.enqueue_lease(hdr, ready, recycle, lease, pts_ns, now))
    }

    /// Publishes a copy of the payload to a consumer that is present. A block that could
    /// not be published for want of a consumer is given back.
    pub fn publish(
        &mut self,
        hdr: &mut SharedHeader,
        ready: &mut [u8],
        recycle: &[u8],
        arena: &mut [u8],
        payload: &[u8],
        pts_ns: i64,
        now: u64,
    ) -> (r: Result<Publish, ShmError>)
        requires
            old(self).wf(),
            old(self).books(*old(hdr)).drainable(recycle@),
            ring::is_ring(old(ready)@, old(hdr).ready_capacity),
            old(hdr).ready_head < u64::MAX,
            payload@.len() <= u32::MAX,
            old(arena)@.len() >= old(self).arena().total,
        ensures
            final(self).wf(),
            final(self).settings() == old(self).settings(),
            final(self).arena().total == old(self).arena().total,
            final(ready)@.len() == old(ready)@.len(),
            final(arena)@.len() == old(arena)@.len(),
            ({
                let (after, lease) = old(self).books(*old(hdr)).drain(recycle@, now).take(
                    payload@.len() as u32,
                    old(self).settings().1,
                );
                match lease {
                    None => {
                        &&& r matches Err(e) && e is Exhausted
                        &&& final(self).books(*final(hdr)) == after
                        &&& final(ready)@ == old(ready)@
                        &&& final(arena)@ == old(arena)@
                    },
                    Some(l) => {
                        &&& final(arena)@ == books::with_payload(
                            old(arena)@,
                            l.offset as int,
                            payload@,
                        )
                        &&& if !books::online(*old(hdr), CONSUMER_TIMEOUT_NS, now) {
                            &&& r matches Err(e) && e is NoConsumer
                            &&& final(self).books(*final(hdr)) == after.give_back(l.buffer_id)
                            &&& final(ready)@ == old(ready)@
                        } else if after.has_room() {
                            &&& r matches Ok(Publish::Published(id)) && id == l.buffer_id
                            &&& final(self).books(*final(hdr)) == after.record_frame(now)
                            &&& final(ready)@ == after.ready_with(old(ready)@, l, pts_ns)
                        } else {
                            &&& r matches Ok(Publish::RingFull(held)) && held == l
                            &&& final(self).books(*final(hdr)) == after.drain(recycle@, now)
                            &&& final(ready)@ == old(ready)@
                        }
                    },
                }
            }),
    {
        let ghost drained = self.books(*hdr).drain(recycle@, now);
        proof {
            books::law_drain_keeps_arena(
                self.arena(),
                recycle@,
                hdr.rec_head,
                hdr.rec_tail,
                hdr.rec_capacity,
            );
            allocator::law_allocation(drained.blocks, payload@.len() as u32, self.allocator_align);
        }
        let align: u64 = self.allocator_align;
        let lease = match self.alloc_lease(hdr, recycle, payload.len() as u32, align, now) {
            Ok(l) => l,
            Err(e) => {
                return Err(e);
            },
        };
        write_payload(arena, lease.offset, payload);
        match self.publish_lease(hdr, ready, recycle, lease, pts_ns, now) {
            Ok(true) => Ok(Publish::Published(lease.buffer_id)),
            Ok(false) => Ok(Publish::RingFull(lease)),
            Err(e) => {
                let _ = self.free_lease(hdr, lease.buffer_id);
                Err(e)
            },
        }
    }

    fn drop_oldest_ready(&mut self, hdr: &mut SharedHeader, ready: &[u8])
        requires
            old(self).wf(),
            ring::is_ring(ready@, old(hdr).ready_capacity),
            old(hdr).ready_tail < old(hdr).ready_head,
        ensures
            final(self).wf(),
            final(self).settings() == old(self).settings(),
            final(self).arena().total == old(self).arena().total,
            final(self).books(*final(hdr)) == old(self).books(*old(hdr)).drop_oldest(ready@),
    {
        let tail: u64 = hdr.ready_tail;
        proof {
            ring::lemma_slot_in_ring(ready@, tail as int, hdr.ready_capacity);
            assert(ready.len() == ready@.len());
        }
        let idx: usize = slot_of(tail, hdr.ready_capacity);
        let oldest = read_ready(ready, idx);
        let _ = self.allocator.free_by_id(oldest.buffer_id);
        hdr.ready_tail = tail + 1;
    }

    fn reset_arena(&mut self, hdr: &mut SharedHeader)
        requires
            old(self).wf(),
        ensures
            final(self).wf(),
            final(self).settings() == old(self).settings(),
            final(self).arena().total == old(self).arena().total,
            final(self).books(*final(hdr)) == old(self).books(*old(hdr)).reset(),
    {
        self.allocator.reset();
        hdr.timeline_gen = hdr.timeline_gen.wrapping_add(1);
        hdr.timeline_valid = 0;
    }

    /// Takes a block whatever it costs: drops the oldest waiting frames until it fits,
    /// and resets the arena when none waits and it still does not fit.
    fn alloc_live(&mut self, hdr: &mut SharedHeader, ready: &[u8], size: u32, align: u64) -> (r: (
        bool,
        Option<AllocLease>,
    ))
        requires
            old(self).wf(),
            ring::is_ring(ready@, old(hdr).ready_capacity),
            old(hdr).ready_tail <= old(hdr).ready_head,
        ensures
            final(self).wf(),
            final(self).settings() == old(self).settings(),
            final(self).arena().total == old(self).arena().total,
            (final(self).books(*final(hdr)), r.0, r.1) == old(self).books(*old(hdr)).take_live(
                ready@,
                size,
                align,
            ),
    {
        let ghost want = self.books(*hdr).take_live(ready@, size, align);
        loop
            invariant
                self.wf(),
                self.settings() == old(self).settings(),
                self.arena().total == old(self).arena().total,
                ring::is_ring(ready@, hdr.ready_capacity),
                hdr.ready_tail <= hdr.ready_head,
                want == self.books(*hdr).take_live(ready@, size, align),
                want == old(self).books(*old(hdr)).take_live(ready@, size, align),
            decreases hdr.ready_head - hdr.ready_tail,
        {
            match self.allocator.allocate(size, align) {
                Some(a) => {
                    return (
                        false,
                        Some(
                            AllocLease { buffer_id: a.buffer_id, offset: a.offset, len: a.len },
                        ),
                    );
                },
                None => {
                    hdr.alloc_failures = hdr.alloc_failures.wrapping_add(1);
                    if hdr.ready_tail == hdr.ready_head {
                        self.reset_arena(hdr);
                        return match self.allocator.allocate(size, align) {
                            Some(a) => (
                                true,
                                Some(
                                    AllocLease {
                                        buffer_id: a.buffer_id,
                                        offset: a.offset,
                                        len: a.len,
                                    },
                                ),
                            ),
                            None => {
                                hdr.alloc_failures = hdr.alloc_failures.wrapping_add(1);
                                (true, None)
                            },
                        };
                    }
                    self.drop_oldest_ready(hdr, ready);
                },
            }
        }
    }

    fn make_room(&mut self, hdr: &mut SharedHeader, ready: &[u8])
        requires
            old(self).wf(),
            ring::is_ring(ready@, old(hdr).ready_capacity),
            old(hdr).ready_tail <= old(hdr).ready_head,
        ensures
            final(self).wf(),
            final(self).settings() == old(self).settings(),
            final(self).arena().total == old(self).arena().total,
            final(self).books(*final(hdr)) == old(self).books(*old(hdr)).make_room(ready@),
    {
        let ghost want = self.books(*hdr).make_room(ready@);
        while hdr.ready_head - hdr.ready_tail >= hdr.ready_capacity as u64
            invariant
                self.wf(),
                self.settings() == old(self).settings(),
                self.arena().total == old(self).arena().total,
                ring::is_ring(ready@, hdr.ready_capacity),
                hdr.ready_tail <= hdr.ready_head,
                want == self.books(*hdr).make_room(ready@),
                want == old(self).books(*old(hdr)).make_room(ready@),
            decreases hdr.ready_head - hdr.ready_tail,
        {
            self.drop_oldest_ready(hdr, ready);
        }
    }

    /// Publishes a block at once, whether or not a consumer is present: when the ready
    /// ring is full, its oldest frames are dropped. Returns how many were.
    pub fn enqueue_live(
        &mut self,
        hdr: &mut SharedHeader,
        ready: &mut [u8],
        lease: AllocLease,
        pts_ns: i64,
        now: u64,
    ) -> (r: u64)
        requires
            old(self).wf(),
            ring::is_ring(old(ready)@, old(hdr).ready_capacity),
            old(hdr).ready_tail <= old(hdr).ready_head < u64::MAX,
        ensures
            final(self).wf(),
            final(self).settings() == old(self).settings(),
            final(self).arena().total == old(self).arena().total,
            final(ready)@.len() == old(ready)@.len(),
            ({
                let room = old(self).books(*old(hdr)).make_room(old(ready)@);
                &&& final(self).books(*final(hdr)) == room.record_frame(now).emit_if_due(
                    old(self).settings().2,
                    pts_ns,
                    now,
                )
                &&& final(ready)@ == room.ready_with(old(ready)@, lease, pts_ns)
                &&& r == room.hdr.ready_tail - old(hdr).ready_tail
            }),
    {
        let before: u64 = hdr.ready_tail;
        proof {
            books::law_room_is_made(self.books(*hdr), ready@);
        }
        self.make_room(hdr, ready);
        let dropped: u64 = hdr.ready_tail - before;
        self.put_frame(hdr, ready, lease, pts_ns, now);
        self.emit_if_due(hdr, pts_ns, now);
        dropped
    }

    /// Publishes a copy of the payload at once, whether or not a consumer is present.
    /// When the arena is full, the oldest waiting frames are dropped, and when none
    /// waits the arena is reset. Only a payload larger than the arena is refused.
    pub fn publish_live(
        &mut self,
        hdr: &mut SharedHeader,
        ready: &mut [u8],
        recycle: &[u8],
        arena: &mut [u8],
        payload: &[u8],
        pts_ns: i64,
        now: u64,
    ) -> (r: Result<LivePublish, ShmError>)
        requires
            old(self).wf(),
            old(self).books(*old(hdr)).drainable(recycle@),
            ring::is_ring(old(ready)@, old(hdr).ready_capacity),
            old(hdr).ready_tail <= old(hdr).ready_head < u64::MAX,
            payload@.len() <= u32::MAX,
            old(arena)@.len() >= old(self).arena().total,
        ensures
            final(self).wf(),
            final(self).settings() == old(self).settings(),
            final(self).arena().total == old(self).arena().total,
            final(ready)@.len() == old(ready)@.len(),
            final(arena)@.len() == old(arena)@.len(),
            match r {
                Err(e) => {
                    &&& e is Exhausted
                    &&& payload@.len() > old(self).arena().total
                    &&& final(self).books(*final(hdr)) == old(self).books(*old(hdr)).drain(
                        recycle@,
                        now,
                    ).count_failure()
                    &&& final(ready)@ == old(ready)@
                    &&& final(arena)@ == old(arena)@
                },
                Ok(p) => {
                    let drained = old(self).books(*old(hdr)).drain(recycle@, now);
                    let (taken, reset, lease) = drained.take_live(
                        old(ready)@,
                        payload@.len() as u32,
                        old(self).settings().1,
                    );
                    let room = taken.make_room(old(ready)@);
                    &&& payload@.len() <= old(self).arena().total
                    &&& lease matches Some(l) && {
                        &&& p.buffer_id == l.buffer_id
                        &&& final(arena)@ == books::with_payload(
                            old(arena)@,
                            l.offset as int,
                            payload@,
                        )
                        &&& final(ready)@ == room.ready_with(old(ready)@, l, pts_ns)
                    }
                    &&& p.reset == reset
                    &&& p.dropped == room.hdr.ready_tail - old(hdr).ready_tail
                    &&& final(self).books(*final(hdr)) == room.record_frame(now).emit_if_due(
                        old(self).settings().2,
                        pts_ns,
                        now,
                    )
                },
            },
    {
        if payload.len() as u64 > self.allocator.total() {
            self.drain_recycles(hdr, recycle, now);
            hdr.alloc_failures = hdr.alloc_failures.wrapping_add(1);
            return Err(ShmError::Exhausted);
        }
        let before: u64 = hdr.ready_tail;
        proof {
            books::law_drain_keeps_arena(
                self.arena(),
                recycle@,
                hdr.rec_head,
                hdr.rec_tail,
                hdr.rec_capacity,
            );
            books::law_live_request_is_served(
                self.books(*hdr).drain(recycle@, now),
                ready@,
                payload@.len() as u32,
                self.allocator_align,
            );
            lemma_take_live_keeps_capacity(
                self.books(*hdr).drain(recycle@, now),
                ready@,
                payload@.len() as u32,
                self.allocator_align,
            );
        }
        self.drain_recycles(hdr, recycle, now);
        let align: u64 = self.allocator_align;
        let (reset, taken) = self.alloc_live(hdr, ready, payload.len() as u32, align);
        match taken {
            Some(lease) => {
                write_payload(arena, lease.offset, payload);
                let dropped_before: u64 = hdr.ready_tail - before;
                proof {
                    books::law_room_is_made(self.books(*hdr), ready@);
                }
                let dropped: u64 = self.enqueue_live(hdr, ready, lease, pts_ns, now);
                Ok(
                    LivePublish {
                        buffer_id: lease.buffer_id,
                        dropped: dropped_before + dropped,
                        reset,
                    },
                )
            },
            None => {
                assert(false);
                Err(ShmError::Exhausted)
            },
        }
    }

    /// Writes a timeline snapshot with a frame that was published, if one is due.
    pub fn emit_if_due(&self, hdr: &mut SharedHeader, pts_ns: i64, now: u64)
        ensures
            *final(hdr) == if books::beacon_due(*old(hdr), self.settings().2, now) {
                books::emitted(*old(hdr), pts_ns, now)
            } else {
                *old(hdr)
            },
    {
        if hdr.timeline_valid == 0 || now.saturating_sub(hdr.timeline_sink_mono_ns)
            >= self.beacon_ns {
            self.emit_timeline_snapshot(hdr, pts_ns, now);
        }
    }

    /// Writes a timeline snapshot: the producer's clock and the frame's time stamp that
    /// belong together.
    pub fn emit_timeline_snapshot(&self, hdr: &mut SharedHeader, pts_ns: i64, now: u64)
        ensures
            *final(hdr) == books::emitted(*old(hdr), pts_ns, now),
    {
        hdr.timeline_sink_mono_ns = now;
        hdr.timeline_producer_pts_ns = pts_ns;
        hdr.timeline_valid = 1;
        hdr.timeline_seq = hdr.timeline_seq.wrapping_add(1);
    }
}

/// Making room for a block leaves the ready ring's size alone.
pub proof fn lemma_take_live_keeps_capacity(b: Books, ready: Seq<u8>, size: u32, align: u64)
    ensures
        b.take_live(ready, size, align).0.hdr.ready_capacity == b.hdr.ready_capacity,
    decreases b.hdr.ready_head - b.hdr.ready_tail,
{
    if allocator::allocated(b.blocks, size, align) is None && b.hdr.ready_tail < b.hdr.ready_head {
        lemma_take_live_keeps_capacity(b.count_failure().drop_oldest(ready), ready, size, align);
    }
}

/// Copies the payload into the arena.
fn write_payload(arena: &mut [u8], offset: u64, payload: &[u8])
    requires
        offset + payload@.len() <= old(arena)@.len(),
    ensures
        final(arena)@ == books::with_payload(old(arena)@, offset as int, payload@),
        final(arena)@.len() == old(arena)@.len(),
{
    let ghost before = arena@;
    assert(arena.len() == arena@.len());
    let at: usize = offset as usize;
    let mut i: usize = 0;
    while i < payload.len()
        invariant
            i <= payload.len(),
            at == offset,
            at + payload@.len() <= before.len(),
            arena.len() == before.len(),
            forall|p: int|
                0 <= p < before.len() ==> #[trigger] arena@[p] == if at <= p < at + i {
                    payload@[p - at]
                } else {
                    before[p]
                },
        decreases payload.len() - i,
    {
        arena[at + i] = payload[i];
        i += 1;
    }
    assert(arena@ =~= books::with_payload(before, offset as int, payload@));
}

} // verus!
