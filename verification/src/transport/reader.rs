//! The consumer's end of a region.

use crate::platform::ShmError;
use crate::transport::books;
use crate::transport::clock;
use crate::transport::clock::{poll_yield_sleep, Turn};
use crate::transport::desc;
use crate::transport::desc::{read_ready, write_entry, ReceivedDesc, RecycleDesc};
use crate::transport::header;
use crate::transport::header::{validate_header, SharedHeader};
use crate::transport::ring;
use crate::transport::ring::{ahead, slot_of};
use vstd::prelude::*;

verus! {

/// How long a poll of the consumer sleeps in the long run, in microseconds.
pub const STEADY_SLEEP_US: u64 = 1000;

/// The consumer of a region: it takes frames out of the ready ring and gives their
/// buffers back through the recycle ring.
///
/// Its methods work on a snapshot of the header's words, which they bring up to date,
/// and on the bytes of the rings and of the arena.
#[derive(Debug)]
pub struct Reader {
    region_len: usize,
}

/// A frame with a copy of its payload.
#[derive(Debug)]
pub struct ReceivedBuffer {
    pub seq: u64,
    pub buffer_id: u32,
    pub pts_ns: i64,
    pub dts_ns: i64,
    pub duration_ns: i64,
    pub flags: u32,
    pub payload: Vec<u8>,
    pub offset: u64,
}

/// The producer's clock and a frame's time stamp that belong together.
#[derive(Debug, Clone, Copy)]
pub struct TimelineSnapshot {
    pub generation: u64,
    pub seq: u64,
    pub valid: bool,
    pub sink_mono_ns: u64,
    pub producer_pts_ns: i64,
}

/// Why a payload does not lie within the arena, if it does not.
pub open spec fn payload_fault(arena_size: u64, offset: u64, len: u32) -> Option<Seq<char>> {
    if offset + len > u64::MAX {
        Some("overflow in payload bounds"@)
    } else if offset + len > arena_size {
        Some("payload out of arena bounds"@)
    } else {
        None
    }
}

/// The frame at the tail of the ready ring.
pub open spec fn next_frame(hdr: SharedHeader, ready: Seq<u8>) -> ReceivedDesc {
    desc::received(desc::entry(ready, ring::slot(hdr.ready_tail as int, hdr.ready_capacity)))
}

/// The header after the consumer has shown itself.
pub open spec fn seen(hdr: SharedHeader, now: u64) -> SharedHeader {
    SharedHeader { consumer_heartbeat_ns: now, ..hdr }
}

/// What a look into the ready ring comes to: the header afterwards, and the frame that
/// was taken out, or the words of the fault for which it was left in.
pub open spec fn looked(hdr: SharedHeader, ready: Seq<u8>, now: u64) -> (
    SharedHeader,
    Result<Option<ReceivedDesc>, Seq<char>>,
) {
    if hdr.ready_head == hdr.ready_tail {
        (seen(hdr, now), Ok(None))
    } else {
        let d = next_frame(hdr, ready);
        match payload_fault(hdr.arena_size, d.offset, d.len) {
            Some(words) => (hdr, Err(words)),
            None => (
                seen(SharedHeader { ready_tail: (hdr.ready_tail + 1) as u64, ..hdr }, now),
                Ok(Some(d)),
            ),
        }
    }
}

/// A result is the one that `looked` tells of.
pub open spec fn is_look<T>(r: Result<T, ShmError>, want: Result<T, Seq<char>>) -> bool {
    match r {
        Ok(v) => want == Ok::<T, Seq<char>>(v),
        Err(e) => want matches Err(words) && e.is_protocol(words),
    }
}

/// The recycle ring has room for one more entry.
pub open spec fn can_return(hdr: SharedHeader) -> bool {
    ring::distance(hdr.rec_head, hdr.rec_tail) < hdr.rec_capacity
}

/// The header after a buffer was put into the recycle ring.
pub open spec fn returned_header(hdr: SharedHeader) -> SharedHeader {
    SharedHeader { rec_head: (hdr.rec_head + 1) as u64, ..hdr }
}

/// The recycle ring after a buffer was put into it.
pub open spec fn returned_ring(
    hdr: SharedHeader,
    recycle: Seq<u8>,
    buffer_id: u32,
    offset: u64,
    length: u32,
    status: u32,
) -> Seq<u8> {
    desc::with_entry(
        recycle,
        ring::slot(hdr.rec_head as int, hdr.rec_capacity),
        books::return_bytes((hdr.rec_head + 1) as u64, buffer_id, status, offset, length),
    )
}

/// The header and the recycle ring after the oldest waiting frame was passed over: its
/// buffer is put into the recycle ring if there is room.
pub open spec fn passed_over(hdr: SharedHeader, ready: Seq<u8>, recycle: Seq<u8>) -> (
    SharedHeader,
    Seq<u8>,
) {
    let d = next_frame(hdr, ready);
    let next = SharedHeader { ready_tail: (hdr.ready_tail + 1) as u64, ..hdr };
    if can_return(hdr) {
        (
            returned_header(next),
            returned_ring(hdr, recycle, d.buffer_id, d.offset, d.len, 0),
        )
    } else {
        (next, recycle)
    }
}

/// The header and the recycle ring after frames were passed over until at most two wait.
pub open spec fn caught_up(hdr: SharedHeader, ready: Seq<u8>, recycle: Seq<u8>) -> (
    SharedHeader,
    Seq<u8>,
)
    decreases hdr.ready_head - hdr.ready_tail,
{
    if hdr.ready_head - hdr.ready_tail <= 2 {
        (hdr, recycle)
    } else {
        let (h, r) = passed_over(hdr, ready, recycle);
        caught_up(h, ready, r)
    }
}

/// The header after the process `pid` has taken the region over: nothing waits, and a
/// new timeline begins.
pub open spec fn claimed(hdr: SharedHeader, pid: u32, now: u64) -> SharedHeader {
    SharedHeader {
        consumer_owner_pid: pid,
        ready_tail: hdr.ready_head,
        consumer_heartbeat_ns: now,
        timeline_gen: books::wrapped_next(hdr.timeline_gen),
        timeline_valid: 0,
        ..hdr
    }
}

impl Reader {
    /// The length of the region.
    pub closed spec fn region(&self) -> usize {
        self.region_len
    }

    /// Opens a region of `region_len` bytes by its header.
    pub fn open(hdr: &SharedHeader, region_len: usize) -> (r: Result<Reader, ShmError>)
        ensures
            match r {
                Ok(reader) => header::header_fault(*hdr, region_len as u64) is None
                    && reader.region() == region_len,
                Err(e) => header::header_fault(*hdr, region_len as u64) matches Some(words)
                    && e.is_protocol(words),
            },
    {
        match validate_header(hdr, region_len as u64) {
            Ok(_) => Ok(Reader { region_len }),
            Err(e) => Err(e),
        }
    }

    fn validate_bounds(&self, hdr: &SharedHeader, offset: u64, len: u32) -> (r: Result<
        (),
        ShmError,
    >)
        ensures
            match r {
                Ok(_) => payload_fault(hdr.arena_size, offset, len) is None,
                Err(e) => payload_fault(hdr.arena_size, offset, len) matches Some(words)
                    && e.is_protocol(words),
            },
    {
        match offset.checked_add(len as u64) {
            Some(end) => {
                if end > hdr.arena_size {
                    return Err(ShmError::Protocol("payload out of arena bounds"));
                }
                Ok(())
            },
            None => Err(ShmError::Protocol("overflow in payload bounds")),
        }
    }

    fn touch_consumer_heartbeat(&self, hdr: &mut SharedHeader, now: u64)
        ensures
            *final(hdr) == seen(*old(hdr), now),
    {
        hdr.consumer_heartbeat_ns = now;
    }

    /// Shows that the consumer is alive.
    pub fn consumer_heartbeat_tick(&self, hdr: &mut SharedHeader, now: u64)
        ensures
            *final(hdr) == seen(*old(hdr), now),
    {
        self.touch_consumer_heartbeat(hdr, now);
    }

    /// Takes the oldest waiting frame out of the ready ring, if one waits.
    pub fn try_recv_desc(&mut self, hdr: &mut SharedHeader, ready: &[u8], now: u64) -> (r: Result<
        Option<ReceivedDesc>,
        ShmError,
    >)
        requires
            ring::is_ring(ready@, old(hdr).ready_capacity),
            old(hdr).ready_tail < u64::MAX,
        ensures
            *final(self) == *old(self),
            *final(hdr) == looked(*old(hdr), ready@, now).0,
            is_look(r, looked(*old(hdr), ready@, now).1),
    {
        let tail: u64 = hdr.ready_tail;
        if hdr.ready_head == tail {
            self.touch_consumer_heartbeat(hdr, now);
            return Ok(None);
        }
        proof {
            ring::lemma_slot_in_ring(ready@, tail as int, hdr.ready_capacity);
            assert(ready.len() == ready@.len());
        }
        let idx: usize = slot_of(tail, hdr.ready_capacity);
        let out = read_ready(ready, idx);
        match self.validate_bounds(hdr, out.offset, out.len) {
            Ok(_) => {},
            Err(e) => {
                return Err(e);
            },
        }
        hdr.ready_tail = tail + 1;
        self.touch_consumer_heartbeat(hdr, now);
        Ok(Some(out))
    }

    /// One turn of waiting for a frame.
    pub fn recv_desc_blocking(
        &mut self,
        hdr: &mut SharedHeader,
        ready: &[u8],
        idle_cycles: &mut u32,
        now: u64,
    ) -> (r: Result<Turn<ReceivedDesc>, ShmError>)
        requires
            ring::is_ring(ready@, old(hdr).ready_capacity),
            old(hdr).ready_tail < u64::MAX,
        ensures
            *final(self) == *old(self),
            *final(hdr) == looked(*old(hdr), ready@, now).0,
            match looked(*old(hdr), ready@, now).1 {
                Ok(Some(d)) => r == Ok::<Turn<ReceivedDesc>, ShmError>(Turn::Done(d))
                    && *final(idle_cycles) == *old(idle_cycles),
                Ok(None) => r == Ok::<Turn<ReceivedDesc>, ShmError>(
                    Turn::Sleep(clock::idle_sleep_us(*old(idle_cycles), STEADY_SLEEP_US)),
                ) && *final(idle_cycles) == clock::idle_after(*old(idle_cycles)),
                Err(words) => (r matches Err(e) && e.is_protocol(words)) && *final(idle_cycles)
                    == *old(idle_cycles),
            },
    {
        match self.try_recv_desc(hdr, ready, now) {
            Ok(Some(d)) => Ok(Turn::Done(d)),
            Ok(None) => {
                self.touch_consumer_heartbeat(hdr, now);
                Ok(Turn::Sleep(poll_yield_sleep(idle_cycles, STEADY_SLEEP_US)))
            },
            Err(e) => Err(e),
        }
    }

    /// One turn of waiting for a frame and copying its payload.
    pub fn recv_blocking(
        &mut self,
        hdr: &mut SharedHeader,
        ready: &[u8],
        arena: &[u8],
        idle_cycles: &mut u32,
        now: u64,
    ) -> (r: Result<Turn<ReceivedBuffer>, ShmError>)
        requires
            ring::is_ring(ready@, old(hdr).ready_capacity),
            old(hdr).ready_tail < u64::MAX,
            old(hdr).arena_size <= arena@.len(),
        ensures
            *final(self) == *old(self),
            *final(hdr) == looked(*old(hdr), ready@, now).0,
            match looked(*old(hdr), ready@, now).1 {
                Ok(Some(d)) => {
                    &&& r matches Ok(Turn::Done(b)) && {
                        &&& b.seq == d.seq && b.buffer_id == d.buffer_id && b.pts_ns == d.pts_ns
                        &&& b.dts_ns == d.dts_ns && b.duration_ns == d.duration_ns
                        &&& b.flags == d.flags && b.offset == d.offset
                        &&& b.payload@ == arena@.subrange(d.offset as int, d.offset + d.len)
                    }
                    &&& *final(idle_cycles) == *old(idle_cycles)
                },
                Ok(None) => {
                    &&& r matches Ok(Turn::Sleep(us)) && us == clock::idle_sleep_us(
                        *old(idle_cycles),
                        STEADY_SLEEP_US,
                    )
                    &&& *final(idle_cycles) == clock::idle_after(*old(idle_cycles))
                },
                Err(words) => (r matches Err(e) && e.is_protocol(words)) && *final(idle_cycles)
                    == *old(idle_cycles),
            },
    {
        match self.recv_desc_blocking(hdr, ready, idle_cycles, now) {
            Ok(Turn::Done(d)) => {
                assert(arena.len() == arena@.len());
                let payload: Vec<u8> = vstd::slice::slice_to_vec(
                    vstd::slice::slice_subrange(
                        arena,
                        d.offset as usize,
                        (d.offset + d.len as u64) as usize,
                    ),
                );
                Ok(
                    Turn::Done(
                        ReceivedBuffer {
                            seq: d.seq,
                            buffer_id: d.buffer_id,
                            pts_ns: d.pts_ns,
                            dts_ns: d.dts_ns,
                            duration_ns: d.duration_ns,
                            flags: d.flags,
                            payload,
                            offset: d.offset,
                        },
                    ),
                )
            },
            Ok(Turn::Sleep(us)) => Ok(Turn::Sleep(us)),
            Err(e) => Err(e),
        }
    }

    /// Where in the arena a frame's payload begins.
    pub fn payload_ptr(&self, hdr: &SharedHeader, d: &ReceivedDesc) -> (r: Result<u64, ShmError>)
        ensures
            match r {
                Ok(at) => payload_fault(hdr.arena_size, d.offset, d.len) is None && at == d.offset,
                Err(e) => payload_fault(hdr.arena_size, d.offset, d.len) matches Some(words)
                    && e.is_protocol(words),
            },
    {
        match self.validate_bounds(hdr, d.offset, d.len) {
            Ok(_) => Ok(d.offset),
            Err(e) => Err(e),
        }
    }

    fn put_return(
        &self,
        hdr: &mut SharedHeader,
        recycle: &mut [u8],
        buffer_id: u32,
        offset: u64,
        length: u32,
        status: u32,
    )
        requires
            ring::is_ring(old(recycle)@, old(hdr).rec_capacity),
            old(hdr).rec_head < u64::MAX,
        ensures
            final(recycle)@.len() == old(recycle)@.len(),
            *final(hdr) == returned_header(*old(hdr)),
            final(recycle)@ == returned_ring(
                *old(hdr),
                old(recycle)@,
                buffer_id,
                offset,
                length,
                status,
            ),
    {
        let head: u64 = hdr.rec_head;
        let idx: usize = slot_of(head, hdr.rec_capacity);
        let back = RecycleDesc {
            seq: head + 1,
            buffer_id,
            status,
            offset,
            length,
            reserved: [0u8; 36],
        };
        let entry: Vec<u8> = back.to_bytes();
        proof {
            ring::lemma_slot_in_ring(recycle@, head as int, hdr.rec_capacity);
            assert(back.reserved@ =~= Seq::new(36, |i: int| 0u8));
            assert(recycle.len() == recycle@.len());
        }
        write_entry(recycle, idx, &entry);
        hdr.rec_head = head + 1;
    }

    /// One turn of giving a buffer back to the producer.
    pub fn recycle_desc(
        &mut self,
        hdr: &mut SharedHeader,
        recycle: &mut [u8],
        buffer_id: u32,
        offset: u64,
        length: u32,
        status: u32,
        idle_cycles: &mut u32,
        now: u64,
    ) -> (r: Turn<()>)
        requires
            ring::is_ring(old(recycle)@, old(hdr).rec_capacity),
            old(hdr).rec_head < u64::MAX,
        ensures
            *final(self) == *old(self),
            final(recycle)@.len() == old(recycle)@.len(),
            if can_return(*old(hdr)) {
                &&& r == Turn::Done(())
                &&& *final(hdr) == seen(returned_header(*old(hdr)), now)
                &&& final(recycle)@ == returned_ring(
                    *old(hdr),
                    old(recycle)@,
                    buffer_id,
                    offset,
                    length,
                    status,
                )
                &&& *final(idle_cycles) == *old(idle_cycles)
            } else {
                &&& r == Turn::<()>::Sleep(
                    clock::idle_sleep_us(*old(idle_cycles), STEADY_SLEEP_US),
                )
                &&& *final(hdr) == *old(hdr)
                &&& final(recycle)@ == old(recycle)@
                &&& *final(idle_cycles) == clock::idle_after(*old(idle_cycles))
            },
    {
        if ahead(hdr.rec_head, hdr.rec_tail) < hdr.rec_capacity as u64 {
            self.put_return(hdr, recycle, buffer_id, offset, length, status);
            self.touch_consumer_heartbeat(hdr, now);
            return Turn::Done(());
        }
        Turn::Sleep(poll_yield_sleep(idle_cycles, STEADY_SLEEP_US))
    }

    /// One turn of giving the buffer of a received frame back, with status 0 for success.
    pub fn recycle(
        &mut self,
        hdr: &mut SharedHeader,
        recycle: &mut [u8],
        buf: &ReceivedBuffer,
        idle_cycles: &mut u32,
        now: u64,
    ) -> (r: Turn<()>)
        requires
            ring::is_ring(old(recycle)@, old(hdr).rec_capacity),
            old(hdr).rec_head < u64::MAX,
        ensures
            *final(self) == *old(self),
            final(recycle)@.len() == old(recycle)@.len(),
            if can_return(*old(hdr)) {
                &&& r == Turn::Done(())
                &&& *final(hdr) == seen(returned_header(*old(hdr)), now)
                &&& final(recycle)@ == returned_ring(
                    *old(hdr),
                    old(recycle)@,
                    buf.buffer_id,
                    buf.offset,
                    buf.payload@.len() as u32,
                    0,
                )
                &&& *final(idle_cycles) == *old(idle_cycles)
            } else {
                &&& r == Turn::<()>::Sleep(
                    clock::idle_sleep_us(*old(idle_cycles), STEADY_SLEEP_US),
                )
                &&& *final(hdr) == *old(hdr)
                &&& final(recycle)@ == old(recycle)@
                &&& *final(idle_cycles) == clock::idle_after(*old(idle_cycles))
            },
    {
        self.recycle_desc(
            hdr,
            recycle,
            buf.buffer_id,
            buf.offset,
            buf.payload.len() as u32,
            0,
            idle_cycles,
            now,
        )
    }

    /// Takes the second-newest waiting frame, or the only one: older frames are passed
    /// over, and their buffers given back as far as the recycle ring has room. Tells with
    /// the frame how many were passed over.
    pub fn try_recv_latest_desc(
        &mut self,
        hdr: &mut SharedHeader,
        ready: &[u8],
        recycle: &mut [u8],
        now: u64,
    ) -> (r: Result<Option<(ReceivedDesc, u64)>, ShmError>)
        requires
            ring::is_ring(ready@, old(hdr).ready_capacity),
            ring::is_ring(old(recycle)@, old(hdr).rec_capacity),
            old(hdr).ready_tail <= old(hdr).ready_head < u64::MAX,
            old(hdr).rec_head + (old(hdr).ready_head - old(hdr).ready_tail) < u64::MAX,
        ensures
            *final(self) == *old(self),
            final(recycle)@.len() == old(recycle)@.len(),
            ({
                let (h, rec) = caught_up(*old(hdr), ready@, old(recycle)@);
                &&& final(recycle)@ == rec
                &&& *final(hdr) == looked(h, ready@, now).0
                &&& match looked(h, ready@, now).1 {
                    Ok(Some(d)) => r == Ok::<Option<(ReceivedDesc, u64)>, ShmError>(
                        Some((d, (h.ready_tail - old(hdr).ready_tail) as u64)),
                    ),
                    Ok(None) => r == Ok::<Option<(ReceivedDesc, u64)>, ShmError>(None),
                    Err(words) => r matches Err(e) && e.is_protocol(words),
                }
            }),
    {
        let first: u64 = hdr.ready_tail;
        let ghost want = caught_up(*hdr, ready@, recycle@);
        while hdr.ready_head - hdr.ready_tail > 2
            invariant
                *self == *old(self),
                ring::is_ring(ready@, hdr.ready_capacity),
                ring::is_ring(recycle@, hdr.rec_capacity),
                recycle@.len() == old(recycle)@.len(),
                first <= hdr.ready_tail <= hdr.ready_head < u64::MAX,
                hdr.rec_head + (hdr.ready_head - hdr.ready_tail) < u64::MAX,
                want == caught_up(*hdr, ready@, recycle@),
            decreases hdr.ready_head - hdr.ready_tail,
        {
            let tail: u64 = hdr.ready_tail;
            proof {
                ring::lemma_slot_in_ring(ready@, tail as int, hdr.ready_capacity);
                ring::lemma_slot_in_ring(recycle@, hdr.rec_head as int, hdr.rec_capacity);
                assert(ready.len() == ready@.len());
            }
            let idx: usize = slot_of(tail, hdr.ready_capacity);
            let d = read_ready(ready, idx);
            proof {
                books::law_return_entry_survives(
                    (hdr.rec_head + 1) as u64,
                    d.buffer_id,
                    0,
                    d.offset,
                    d.len,
                );
                desc::law_entries_are_independent(
                    recycle@,
                    ring::slot(hdr.rec_head as int, hdr.rec_capacity),
                    books::return_bytes(
                        (hdr.rec_head + 1) as u64,
                        d.buffer_id,
                        0,
                        d.offset,
                        d.len,
                    ),
                    0,
                );
            }
            if ahead(hdr.rec_head, hdr.rec_tail) < hdr.rec_capacity as u64 {
                self.put_return(hdr, recycle, d.buffer_id, d.offset, d.len, 0);
            }
            hdr.ready_tail = tail + 1;
        }
        let dropped: u64 = hdr.ready_tail - first;
        match self.try_recv_desc(hdr, ready, now) {
            Ok(Some(d)) => Ok(Some((d, dropped))),
            Ok(None) => Ok(None),
            Err(e) => Err(e),
        }
    }

    /// Makes the process `pid` the consumer, whoever was: ownership is noted, not enforced.
    /// Whatever waits is skipped, so that it starts with the next frame.
    pub fn claim_consumer(&mut self, hdr: &mut SharedHeader, pid: u32, now: u64) -> (r: Result<
        (),
        ShmError,
    >)
        ensures
            *final(self) == *old(self),
            r is Ok,
            *final(hdr) == claimed(*old(hdr), pid, now),
    {
        hdr.consumer_owner_pid = pid;
        hdr.ready_tail = hdr.ready_head;
        hdr.timeline_gen = hdr.timeline_gen.wrapping_add(1);
        hdr.timeline_valid = 0;
        self.touch_consumer_heartbeat(hdr, now);
        Ok(())
    }

    /// Gives the region up, if the process `pid` is its consumer.
    pub fn release_consumer(&mut self, hdr: &mut SharedHeader, pid: u32)
        ensures
            *final(self) == *old(self),
            *final(hdr) == if old(hdr).consumer_owner_pid == pid {
                SharedHeader { consumer_owner_pid: 0, ..*old(hdr) }
            } else {
                *old(hdr)
            },
    {
        if hdr.consumer_owner_pid == pid {
            hdr.consumer_owner_pid = 0;
        }
    }

    /// The latest timeline snapshot of the producer.
    pub fn timeline_snapshot(&self, hdr: &SharedHeader) -> (r: TimelineSnapshot)
        ensures
            r == (TimelineSnapshot {
                generation: hdr.timeline_gen,
                seq: hdr.timeline_seq,
                valid: hdr.timeline_valid != 0,
                sink_mono_ns: hdr.timeline_sink_mono_ns,
                producer_pts_ns: hdr.timeline_producer_pts_ns,
            }),
    {
        TimelineSnapshot {
            generation: hdr.timeline_gen,
            seq: hdr.timeline_seq,
            valid: hdr.timeline_valid != 0,
            sink_mono_ns: hdr.timeline_sink_mono_ns,
            producer_pts_ns: hdr.timeline_producer_pts_ns,
        }
    }
}

} // verus!
