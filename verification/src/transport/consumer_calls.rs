//! What each of the consumer's calls comes to, told from what goes in and what comes out.

use crate::platform::ShmError;
use crate::transport::books;
use crate::transport::clock::Turn;
use crate::transport::desc;
use crate::transport::desc::ReceivedDesc;
use crate::transport::header::SharedHeader;
use crate::transport::reader;
use crate::transport::reader::{Reader, ReceivedBuffer, TimelineSnapshot};
use crate::transport::ring;
use vstd::bytes;
use vstd::prelude::*;

verus! {

/// The 64 bytes of a ring in which position `pos` lives.
pub open spec fn cell(ring: Seq<u8>, pos: int, cap: u32) -> Seq<u8> {
    ring.subrange(64 * (pos % (cap as int)), 64 * (pos % (cap as int)) + 64)
}

/// The buffer that an entry of the recycle ring names.
pub open spec fn names(e: Seq<u8>) -> u32 {
    bytes::spec_u32_from_le_bytes(e.subrange(8, 12))
}

/// The bytes are those of a return: its number, buffer, status, place and length.
pub open spec fn tells_return(
    e: Seq<u8>,
    seq: int,
    buffer_id: u32,
    status: u32,
    offset: u64,
    length: u32,
) -> bool {
    &&& bytes::spec_u64_from_le_bytes(e.subrange(0, 8)) == seq
    &&& names(e) == buffer_id
    &&& bytes::spec_u32_from_le_bytes(e.subrange(12, 16)) == status
    &&& bytes::spec_u64_from_le_bytes(e.subrange(16, 24)) == offset
    &&& bytes::spec_u32_from_le_bytes(e.subrange(24, 28)) == length
    &&& forall|k: int| 28 <= k < 64 ==> #[trigger] e[k] == 0
}

proof fn lemma_return_bytes(seq: u64, buffer_id: u32, status: u32, offset: u64, length: u32)
    ensures
        books::return_bytes(seq, buffer_id, status, offset, length).len() == 64,
        tells_return(
            books::return_bytes(seq, buffer_id, status, offset, length),
            seq as int,
            buffer_id,
            status,
            offset,
            length,
        ),
{
    bytes::lemma_auto_spec_u64_to_from_le_bytes();
    bytes::lemma_auto_spec_u32_to_from_le_bytes();
    let e = books::return_bytes(seq, buffer_id, status, offset, length);
    assert(e.subrange(0, 8) =~= bytes::spec_u64_to_le_bytes(seq));
    assert(e.subrange(8, 12) =~= bytes::spec_u32_to_le_bytes(buffer_id));
    assert(e.subrange(12, 16) =~= bytes::spec_u32_to_le_bytes(status));
    assert(e.subrange(16, 24) =~= bytes::spec_u64_to_le_bytes(offset));
    assert(e.subrange(24, 28) =~= bytes::spec_u32_to_le_bytes(length));
}

/// A look into the ready ring takes out the frame in the tail's cell, whoever put it there,
/// and moves the tail on by one. Nothing is taken out of a ring in which head and tail meet,
/// nor a frame that does not lie within the arena; such a frame stays in, and the header as
/// it is. No other word is changed but the consumer's heartbeat.
pub proof fn law_look_takes_the_frame_at_the_tail(
    reader: &mut Reader,
    hdr: &mut SharedHeader,
    ready: &[u8],
    now: u64,
    r: Result<Option<ReceivedDesc>, ShmError>,
)
    requires
        call_ensures(Reader::try_recv_desc, (reader, hdr, ready, now), r),
    ensures
        ({
            let before = *old(hdr);
            let d = desc::received(
                cell(ready@, before.ready_tail as int, before.ready_capacity),
            );
            if before.ready_head == before.ready_tail {
                &&& r matches Ok(None)
                &&& *final(hdr) == (SharedHeader { consumer_heartbeat_ns: now, ..before })
            } else if d.offset + d.len <= before.arena_size {
                &&& r matches Ok(Some(got)) && got == d
                &&& *final(hdr) == (SharedHeader {
                    ready_tail: (before.ready_tail + 1) as u64,
                    consumer_heartbeat_ns: now,
                    ..before
                })
            } else {
                &&& r matches Err(e) && e.is_protocol(
                    if d.offset + d.len > u64::MAX {
                        "overflow in payload bounds"@
                    } else {
                        "payload out of arena bounds"@
                    },
                )
                &&& *final(hdr) == before
            }
        }),
{
}

/// A turn of waiting for a frame looks once: it is over with the frame that a look gives,
/// fails as a look fails, and goes to sleep where a look finds nothing, counting that it did.
pub proof fn law_waiting_is_a_look_and_a_sleep(
    reader: &mut Reader,
    hdr: &mut SharedHeader,
    ready: &[u8],
    now: u64,
    r: Result<Option<ReceivedDesc>, ShmError>,
    again: &mut Reader,
    same: &mut SharedHeader,
    idle: &mut u32,
    s: Result<Turn<ReceivedDesc>, ShmError>,
)
    requires
        *old(hdr) == *old(same),
        call_ensures(Reader::try_recv_desc, (reader, hdr, ready, now), r),
        call_ensures(Reader::recv_desc_blocking, (again, same, ready, idle, now), s),
    ensures
        *final(hdr) == *final(same),
        match r {
            Ok(Some(d)) => (s matches Ok(Turn::Done(got)) && got == d) && *final(idle) == *old(
                idle,
            ),
            Ok(None) => {
                &&& s matches Ok(Turn::Sleep(us)) && us == if *old(idle) < 8 {
                    50u64
                } else if *old(idle) < 32 {
                    200
                } else {
                    1000
                }
                &&& *old(idle) < u32::MAX ==> *final(idle) == *old(idle) + 1
            },
            Err(e) => (s matches Err(f) && e.words() == f.words()) && *final(idle) == *old(idle),
        },
{
}

/// A turn of waiting for a frame with its payload gives what the turn without it gives, and
/// a copy of the bytes that the frame has in the arena.
pub proof fn law_received_payload_is_the_frames(
    reader: &mut Reader,
    hdr: &mut SharedHeader,
    ready: &[u8],
    idle: &mut u32,
    now: u64,
    r: Result<Turn<ReceivedDesc>, ShmError>,
    again: &mut Reader,
    same: &mut SharedHeader,
    arena: &[u8],
    count: &mut u32,
    s: Result<Turn<ReceivedBuffer>, ShmError>,
)
    requires
        *old(hdr) == *old(same) && *old(idle) == *old(count),
        call_ensures(Reader::recv_desc_blocking, (reader, hdr, ready, idle, now), r),
        call_ensures(Reader::recv_blocking, (again, same, ready, arena, count, now), s),
        old(hdr).arena_size <= arena@.len(),
    ensures
        *final(hdr) == *final(same) && *final(idle) == *final(count),
        match r {
            Ok(Turn::Done(d)) => s matches Ok(Turn::Done(b)) && {
                &&& b.seq == d.seq && b.buffer_id == d.buffer_id && b.offset == d.offset
                &&& b.pts_ns == d.pts_ns && b.dts_ns == d.dts_ns
                &&& b.duration_ns == d.duration_ns && b.flags == d.flags
                &&& b.payload@.len() == d.len
                &&& forall|k: int| 0 <= k < d.len ==> #[trigger] b.payload@[k] == arena@[d.offset + k]
            },
            Ok(Turn::Sleep(us)) => s matches Ok(Turn::Sleep(other)) && us == other,
            Err(e) => s matches Err(f) && e.words() == f.words(),
        },
{
}

/// A frame's payload is found at its offset, exactly when the whole of it lies within the
/// arena.
pub proof fn law_payload_begins_at_the_offset(
    reader: &Reader,
    hdr: &SharedHeader,
    d: &ReceivedDesc,
    r: Result<u64, ShmError>,
)
    requires
        call_ensures(Reader::payload_ptr, (reader, hdr, d), r),
    ensures
        r is Ok <==> d.offset + d.len <= hdr.arena_size,
        r matches Ok(at) ==> at == d.offset,
{
}

/// A buffer is given back exactly while the recycle ring holds fewer entries than it has
/// cells: the head's cell then tells of it, every other byte of the ring is as it was, and
/// the head has moved on by one. Into a full ring nothing is put, and nothing is changed.
pub proof fn law_return_fills_the_cell_at_the_head(
    reader: &mut Reader,
    hdr: &mut SharedHeader,
    recycle: &mut [u8],
    buffer_id: u32,
    offset: u64,
    length: u32,
    status: u32,
    idle: &mut u32,
    now: u64,
    r: Turn<()>,
)
    requires
        old(hdr).rec_capacity > 0,
        old(recycle)@.len() == 64 * old(hdr).rec_capacity,
        old(hdr).rec_tail <= old(hdr).rec_head < u64::MAX,
        call_ensures(
            Reader::recycle_desc,
            (reader, hdr, recycle, buffer_id, offset, length, status, idle, now),
            r,
        ),
    ensures
        ({
            let before = *old(hdr);
            let cap = before.rec_capacity;
            let at = 64 * (before.rec_head as int % (cap as int));
            let after = final(recycle)@;
            &&& after.len() == old(recycle)@.len()
            &&& if before.rec_head - before.rec_tail < cap {
                &&& r is Done
                &&& *final(hdr) == (SharedHeader {
                    rec_head: (before.rec_head + 1) as u64,
                    consumer_heartbeat_ns: now,
                    ..before
                })
                &&& tells_return(
                    cell(final(recycle)@, before.rec_head as int, cap),
                    before.rec_head + 1,
                    buffer_id,
                    status,
                    offset,
                    length,
                )
                &&& forall|p: int|
                    0 <= p < after.len() && !(at <= p < at + 64) ==> #[trigger] after[p] == old(
                        recycle,
                    )@[p]
                &&& *final(idle) == *old(idle)
            } else {
                &&& r is Sleep
                &&& *final(hdr) == before
                &&& final(recycle)@ == old(recycle)@
            }
        }),
{
    let before = *old(hdr);
    let cap = before.rec_capacity;
    ring::lemma_slot_in_ring(old(recycle)@, before.rec_head as int, cap);
    let at = ring::slot(before.rec_head as int, cap);
    let seq = (before.rec_head + 1) as u64;
    let e = books::return_bytes(seq, buffer_id, status, offset, length);
    lemma_return_bytes(seq, buffer_id, status, offset, length);
    if before.rec_head - before.rec_tail < cap {
        desc::law_entries_are_independent(old(recycle)@, at, e, at);
        assert(cell(final(recycle)@, before.rec_head as int, cap) == e);
    }
}

/// Giving a received frame back gives back its buffer, with the place and the length that it
/// has and with status 0.
pub proof fn law_frame_is_given_back_whole(
    reader: &mut Reader,
    hdr: &mut SharedHeader,
    recycle: &mut [u8],
    buf: &ReceivedBuffer,
    idle: &mut u32,
    now: u64,
    r: Turn<()>,
    again: &mut Reader,
    same: &mut SharedHeader,
    ring: &mut [u8],
    length: u32,
    count: &mut u32,
    s: Turn<()>,
)
    requires
        *old(hdr) == *old(same) && old(recycle)@ == old(ring)@ && *old(idle) == *old(count),
        buf.payload@.len() == length,
        call_ensures(Reader::recycle, (reader, hdr, recycle, buf, idle, now), r),
        call_ensures(
            Reader::recycle_desc,
            (again, same, ring, buf.buffer_id, buf.offset, length, 0u32, count, now),
            s,
        ),
    ensures
        r == s,
        *final(hdr) == *final(same),
        final(recycle)@ == final(ring)@,
        *final(idle) == *final(count),
{
}

/// A process that takes a region over owns it from then on, has shown itself, finds nothing
/// waiting, and begins a timeline that was not shown before.
pub proof fn law_claim_makes_the_owner(
    reader: &mut Reader,
    hdr: &mut SharedHeader,
    pid: u32,
    now: u64,
    r: Result<(), ShmError>,
)
    requires
        call_ensures(Reader::claim_consumer, (reader, hdr, pid, now), r),
    ensures
        r is Ok,
        final(hdr).consumer_owner_pid == pid,
        final(hdr).consumer_heartbeat_ns == now,
        final(hdr).ready_tail == old(hdr).ready_head,
        final(hdr).timeline_valid == 0,
        final(hdr).timeline_gen != old(hdr).timeline_gen,
        old(hdr).timeline_gen < u64::MAX ==> final(hdr).timeline_gen == old(hdr).timeline_gen + 1,
        *final(hdr) == (SharedHeader {
            consumer_owner_pid: final(hdr).consumer_owner_pid,
            consumer_heartbeat_ns: final(hdr).consumer_heartbeat_ns,
            ready_tail: final(hdr).ready_tail,
            timeline_valid: final(hdr).timeline_valid,
            timeline_gen: final(hdr).timeline_gen,
            ..*old(hdr)
        }),
{
}

/// The owner that gives a region up leaves it without one, and nobody else can: no other
/// word is changed.
pub proof fn law_release_leaves_no_owner(reader: &mut Reader, hdr: &mut SharedHeader, pid: u32)
    requires
        call_ensures(Reader::release_consumer, (reader, hdr, pid), ()),
    ensures
        old(hdr).consumer_owner_pid == pid ==> final(hdr).consumer_owner_pid == 0,
        old(hdr).consumer_owner_pid != pid ==> final(hdr).consumer_owner_pid == old(
            hdr,
        ).consumer_owner_pid,
        *final(hdr) == (SharedHeader {
            consumer_owner_pid: final(hdr).consumer_owner_pid,
            ..*old(hdr)
        }),
{
}

/// What is told of the timeline is what the header shows of it, word by word.
pub proof fn law_snapshot_is_the_shown_timeline(
    reader: &Reader,
    hdr: &SharedHeader,
    r: TimelineSnapshot,
)
    requires
        call_ensures(Reader::timeline_snapshot, (reader, hdr), r),
    ensures
        r.generation == hdr.timeline_gen,
        r.seq == hdr.timeline_seq,
        r.valid <==> hdr.timeline_valid != 0,
        r.sink_mono_ns == hdr.timeline_sink_mono_ns,
        r.producer_pts_ns == hdr.timeline_producer_pts_ns,
{
}

/// A heartbeat is the time at which it was given, and changes nothing else.
pub proof fn law_consumer_heartbeat_is_the_time(reader: &Reader, hdr: &mut SharedHeader, now: u64)
    requires
        call_ensures(Reader::consumer_heartbeat_tick, (reader, hdr, now), ()),
    ensures
        final(hdr).consumer_heartbeat_ns == now,
        *final(hdr) == (SharedHeader {
            consumer_heartbeat_ns: final(hdr).consumer_heartbeat_ns,
            ..*old(hdr)
        }),
{
}

/// A consumer opens exactly those regions whose header is accepted.
pub proof fn law_opening_accepts_the_header(
    hdr: &SharedHeader,
    region_len: usize,
    r: Result<Reader, ShmError>,
    v: Result<(), ShmError>,
)
    requires
        call_ensures(Reader::open, (hdr, region_len), r),
        call_ensures(
            crate::transport::header::validate_header,
            (hdr, region_len as u64),
            v,
        ),
    ensures
        r is Ok <==> v is Ok,
        r matches Err(e) ==> v matches Err(f) && e.words() == f.words(),
{
}

/// How many of `waiting` frames the low-latency policy passes over: all but two.
pub open spec fn passed(waiting: int) -> int {
    if waiting > 2 {
        waiting - 2
    } else {
        0
    }
}

/// How many returns there is room for, of so many.
pub open spec fn room_for(hdr: SharedHeader, wanted: int) -> int {
    let room = hdr.rec_capacity - (hdr.rec_head - hdr.rec_tail);
    if room < 0 {
        0
    } else if room < wanted {
        room
    } else {
        wanted
    }
}

proof fn lemma_put_return(hdr: SharedHeader, recycle: Seq<u8>, d: ReceivedDesc)
    requires
        ring::is_ring(recycle, hdr.rec_capacity),
        hdr.rec_tail <= hdr.rec_head < u64::MAX,
        hdr.rec_head - hdr.rec_tail < hdr.rec_capacity,
    ensures
        ({
            let cap = hdr.rec_capacity;
            let after = reader::returned_ring(hdr, recycle, d.buffer_id, d.offset, d.len, 0);
            &&& ring::is_ring(after, cap)
            &&& tells_return(
                cell(after, hdr.rec_head as int, cap),
                hdr.rec_head + 1,
                d.buffer_id,
                0,
                d.offset,
                d.len,
            )
            &&& forall|p: int|
                hdr.rec_tail <= p < hdr.rec_head ==> #[trigger] cell(after, p, cap) == cell(
                    recycle,
                    p,
                    cap,
                )
        }),
{
    let cap = hdr.rec_capacity;
    let after = reader::returned_ring(hdr, recycle, d.buffer_id, d.offset, d.len, 0);
    let seq = (hdr.rec_head + 1) as u64;
    let e = books::return_bytes(seq, d.buffer_id, 0, d.offset, d.len);
    lemma_return_bytes(seq, d.buffer_id, 0, d.offset, d.len);
    ring::law_put_appends(recycle, hdr.rec_head, hdr.rec_tail, cap, e);
    let q0 = ring::queue(recycle, hdr.rec_head, hdr.rec_tail, cap);
    let q1 = ring::queue(after, (hdr.rec_head + 1) as u64, hdr.rec_tail, cap);
    assert(q1[hdr.rec_head - hdr.rec_tail] == e);
    assert(cell(after, hdr.rec_head as int, cap) == e);
    assert forall|p: int| hdr.rec_tail <= p < hdr.rec_head implies #[trigger] cell(after, p, cap)
        == cell(recycle, p, cap) by {
        assert(q1[p - hdr.rec_tail] == q0[p - hdr.rec_tail]);
    }
}

proof fn lemma_caught_up(hdr: SharedHeader, ready: Seq<u8>, recycle: Seq<u8>)
    requires
        ring::is_ring(ready, hdr.ready_capacity),
        ring::is_ring(recycle, hdr.rec_capacity),
        hdr.ready_tail <= hdr.ready_head < u64::MAX,
        hdr.rec_tail <= hdr.rec_head,
        hdr.rec_head + (hdr.ready_head - hdr.ready_tail) < u64::MAX,
    ensures
        ({
            let (h, after) = reader::caught_up(hdr, ready, recycle);
            let n = passed(hdr.ready_head - hdr.ready_tail);
            let m = room_for(hdr, n);
            &&& h == (SharedHeader {
                ready_tail: (hdr.ready_tail + n) as u64,
                rec_head: (hdr.rec_head + m) as u64,
                ..hdr
            })
            &&& ring::is_ring(after, hdr.rec_capacity)
            &&& forall|p: int|
                hdr.rec_tail <= p < hdr.rec_head ==> #[trigger] cell(after, p, hdr.rec_capacity)
                    == cell(recycle, p, hdr.rec_capacity)
            &&& forall|k: int|
                0 <= k < m ==> ({
                    let d = desc::received(
                        #[trigger] cell(ready, hdr.ready_tail + k, hdr.ready_capacity),
                    );
                    tells_return(
                        cell(after, hdr.rec_head + k, hdr.rec_capacity),
                        hdr.rec_head + k + 1,
                        d.buffer_id,
                        0,
                        d.offset,
                        d.len,
                    )
                })
        }),
    decreases hdr.ready_head - hdr.ready_tail,
{
    if hdr.ready_head - hdr.ready_tail > 2 {
        let cap = hdr.rec_capacity;
        let d = reader::next_frame(hdr, ready);
        let (h, r) = reader::passed_over(hdr, ready, recycle);
        let n = passed(hdr.ready_head - hdr.ready_tail);
        let m = room_for(hdr, n);
        let (last, after) = reader::caught_up(hdr, ready, recycle);
        if hdr.rec_head - hdr.rec_tail < cap {
            lemma_put_return(hdr, recycle, d);
        }
        lemma_caught_up(h, ready, r);
        assert forall|p: int| hdr.rec_tail <= p < hdr.rec_head implies #[trigger] cell(
            after,
            p,
            cap,
        ) == cell(recycle, p, cap) by {
            assert(cell(after, p, cap) == cell(r, p, cap));
        }
        assert forall|k: int| 0 <= k < m implies ({
            let d = desc::received(
                #[trigger] cell(ready, hdr.ready_tail + k, hdr.ready_capacity),
            );
            tells_return(
                cell(after, hdr.rec_head + k, cap),
                hdr.rec_head + k + 1,
                d.buffer_id,
                0,
                d.offset,
                d.len,
            )
        }) by {
            if k == 0 {
                assert(cell(after, hdr.rec_head as int, cap) == cell(r, hdr.rec_head as int, cap));
            } else {
                assert(hdr.ready_tail + k == h.ready_tail + (k - 1));
                assert(cell(ready, h.ready_tail + (k - 1), h.ready_capacity) == cell(
                    ready,
                    hdr.ready_tail + k,
                    hdr.ready_capacity,
                ));
                assert(h.rec_head + (k - 1) == hdr.rec_head + k);
            }
        }
    }
}

/// The low-latency look delivers the second-newest of the waiting frames, or the only one,
/// and tells how many were passed over. It gives back the buffers of the frames that were
/// passed over, the oldest first and as many as the recycle ring has room for: these and no
/// others, so that neither the frame that it delivers nor the newest is among them. Returns
/// that wait for the producer already are left alone.
pub proof fn law_latest_look_returns_what_it_passes_over(
    reader: &mut Reader,
    hdr: &mut SharedHeader,
    ready: &[u8],
    recycle: &mut [u8],
    now: u64,
    r: Result<Option<(ReceivedDesc, u64)>, ShmError>,
)
    requires
        ring::is_ring(ready@, old(hdr).ready_capacity),
        ring::is_ring(old(recycle)@, old(hdr).rec_capacity),
        old(hdr).ready_tail <= old(hdr).ready_head < u64::MAX,
        old(hdr).rec_tail <= old(hdr).rec_head,
        old(hdr).rec_head + (old(hdr).ready_head - old(hdr).ready_tail) < u64::MAX,
        call_ensures(Reader::try_recv_latest_desc, (reader, hdr, ready, recycle, now), r),
    ensures
        ({
            let before = *old(hdr);
            let n = passed(before.ready_head - before.ready_tail);
            let m = room_for(before, n);
            let cap = before.rec_capacity;
            let d = desc::received(
                cell(ready@, before.ready_tail + n, before.ready_capacity),
            );
            &&& final(recycle)@.len() == old(recycle)@.len()
            &&& final(hdr).rec_head == before.rec_head + m
            &&& forall|p: int|
                before.rec_tail <= p < before.rec_head ==> #[trigger] cell(
                    final(recycle)@,
                    p,
                    cap,
                ) == cell(old(recycle)@, p, cap)
            &&& forall|k: int|
                0 <= k < m ==> ({
                    let p = desc::received(
                        #[trigger] cell(ready@, before.ready_tail + k, before.ready_capacity),
                    );
                    tells_return(
                        cell(final(recycle)@, before.rec_head + k, cap),
                        before.rec_head + k + 1,
                        p.buffer_id,
                        0,
                        p.offset,
                        p.len,
                    )
                })
            &&& if before.ready_head == before.ready_tail {
                &&& r matches Ok(None)
                &&& final(hdr).ready_tail == before.ready_tail
            } else if d.offset + d.len <= before.arena_size {
                &&& r matches Ok(Some((got, dropped))) && got == d && dropped == n
                &&& final(hdr).ready_tail == before.ready_tail + n + 1
                &&& final(hdr).consumer_heartbeat_ns == now
            } else {
                &&& r is Err
                &&& final(hdr).ready_tail == before.ready_tail + n
            }
            &&& *final(hdr) == (SharedHeader {
                ready_tail: final(hdr).ready_tail,
                rec_head: final(hdr).rec_head,
                consumer_heartbeat_ns: final(hdr).consumer_heartbeat_ns,
                ..before
            })
        }),
{
    lemma_caught_up(*old(hdr), ready@, old(recycle)@);
}

} // verus!
