//! What each of the producer's calls comes to, told from what goes in and what comes out.

use crate::allocator;
use crate::allocator::ArenaView;
use crate::platform::ShmError;
use crate::transport::books;
use crate::transport::books::{AllocLease, Books};
use crate::transport::consumer_calls;
use crate::transport::desc;
use crate::transport::desc::ReceivedDesc;
use crate::transport::header;
use crate::transport::header::{SharedHeader, TransportConfig};
use crate::transport::reader::Reader;
use crate::transport::ring;
use crate::transport::writer::{LivePublish, Publish, Writer};
use vstd::prelude::*;

verus! {

/// Some return between the two positions names the buffer.
pub open spec fn returned(recycle: Seq<u8>, from: int, to: int, cap: u32, id: u32) -> bool {
    exists|p: int|
        from <= p < to && consumer_calls::names(#[trigger] consumer_calls::cell(recycle, p, cap))
            == id
}

/// Some frame between the two positions lies in the buffer.
pub open spec fn waits(ready: Seq<u8>, from: int, to: int, cap: u32, id: u32) -> bool {
    exists|p: int|
        from <= p < to && desc::received(
            #[trigger] consumer_calls::cell(ready, p, cap),
        ).buffer_id == id
}

/// A consumer counts as present exactly while some process owns the region and has shown
/// itself no longer ago than the timeout.
pub proof fn law_consumer_is_present_while_it_owns_and_beats(
    w: &Writer,
    hdr: &SharedHeader,
    timeout_ns: u64,
    now: u64,
    r: bool,
)
    requires
        call_ensures(Writer::is_consumer_online, (w, hdr, timeout_ns, now), r),
    ensures
        r <==> {
            &&& hdr.consumer_owner_pid != 0
            &&& hdr.consumer_heartbeat_ns != 0
            &&& now <= hdr.consumer_heartbeat_ns + timeout_ns
        },
{
}

/// Once its owner has given a region up, no consumer is present in it, whatever the timeout
/// and the time, until one takes it over.
pub proof fn law_released_region_has_no_consumer(
    reader: &mut Reader,
    hdr: &mut SharedHeader,
    pid: u32,
    w: &Writer,
    timeout_ns: u64,
    now: u64,
    r: bool,
)
    requires
        old(hdr).consumer_owner_pid == pid,
        call_ensures(Reader::release_consumer, (reader, hdr, pid), ()),
        call_ensures(Writer::is_consumer_online, (w, &*final(hdr), timeout_ns, now), r),
    ensures
        !r,
{
}

/// The producer's marks on the header are its state, 1 while it runs and 3 once it has
/// stopped, and its heartbeat; each changes one word.
pub proof fn law_producer_marks_one_word(
    w: &Writer,
    running: &mut SharedHeader,
    stopped: &mut SharedHeader,
    beating: &mut SharedHeader,
    now: u64,
)
    requires
        call_ensures(Writer::set_running, (w, running), ()),
        call_ensures(Writer::set_stopped, (w, stopped), ()),
        call_ensures(Writer::producer_heartbeat_tick, (w, beating, now), ()),
    ensures
        *final(running) == (SharedHeader { state: 1, ..*old(running) }),
        *final(stopped) == (SharedHeader { state: 3, ..*old(stopped) }),
        *final(beating) == (SharedHeader { producer_heartbeat_ns: now, ..*old(beating) }),
{
}

/// A region is set up exactly when both rings have entries and it can be laid out, with the
/// header that belongs to the layout. The arena is then wholly free, as large as the header tells, and the producer keeps the length, the
/// alignment and the beacon's period that it was given.
pub proof fn law_new_producer_has_the_whole_arena(
    region_len: usize,
    cfg: &TransportConfig,
    pid: u32,
    now: u64,
    r: Result<(Writer, SharedHeader), ShmError>,
    l: Result<header::Layout, ShmError>,
    first: SharedHeader,
    size: usize,
    total: u64,
)
    requires
        call_ensures(Writer::create, (region_len, cfg, pid, now), r),
        call_ensures(
            header::map_layout,
            (region_len, cfg.ready_capacity, cfg.recycle_capacity),
            l,
        ),
        l matches Ok(layout) ==> call_ensures(
            header::init_header,
            (cfg, &layout, pid, now),
            first,
        ),
        r matches Ok((w, _)) ==> call_ensures(Writer::region_size, (&w,), size),
        r matches Ok((w, _)) ==> call_ensures(Writer::arena_total, (&w,), total),
    ensures
        r is Ok <==> cfg.ready_capacity > 0 && cfg.recycle_capacity > 0 && l is Ok,
        r matches Ok((w, hdr)) ==> {
            &&& w.wf()
            &&& w.arena().free == seq![(0u64, hdr.arena_size)]
            &&& w.arena().used == Map::<u32, (u64, u64)>::empty()
            &&& size == region_len && total == hdr.arena_size
            &&& w.settings() == (
                region_len,
                cfg.allocator_align,
                (cfg.timeline_beacon_ms * 1_000_000) as u64,
            )
            &&& hdr == first
        },
{
}

proof fn lemma_drained_used(blocks: ArenaView, recycle: Seq<u8>, head: u64, tail: u64, cap: u32)
    ensures
        ({
            let after = books::drained(blocks, recycle, head, tail, cap);
            &&& after.total == blocks.total && after.next_id == blocks.next_id
            &&& forall|id: u32| #[trigger]
                after.used.contains_key(id) <==> blocks.used.contains_key(id) && !returned(
                    recycle,
                    tail as int,
                    head as int,
                    cap,
                    id,
                )
            &&& forall|id: u32| #[trigger]
                after.used.contains_key(id) ==> after.used[id] == blocks.used[id]
        }),
    decreases head - tail,
{
    if tail < head {
        let c = consumer_calls::cell(recycle, tail as int, cap);
        let back = consumer_calls::names(c);
        let next = allocator::released(blocks, back);
        lemma_drained_used(next, recycle, head, (tail + 1) as u64, cap);
        let after = books::drained(blocks, recycle, head, tail, cap);
        assert forall|id: u32| #[trigger]
            after.used.contains_key(id) <==> blocks.used.contains_key(id) && !returned(
                recycle,
                tail as int,
                head as int,
                cap,
                id,
            ) by {
            if id == back {
                assert(returned(recycle, tail as int, head as int, cap, id));
            } else if returned(recycle, tail as int, head as int, cap, id) {
                let p = choose|p: int|
                    tail <= p < head && consumer_calls::names(
                        #[trigger] consumer_calls::cell(recycle, p, cap),
                    ) == id;
                assert(returned(recycle, tail + 1, head as int, cap, id));
            } else if returned(recycle, tail + 1, head as int, cap, id) {
                let p = choose|p: int|
                    tail + 1 <= p < head && consumer_calls::names(
                        #[trigger] consumer_calls::cell(recycle, p, cap),
                    ) == id;
                assert(returned(recycle, tail as int, head as int, cap, id));
            }
        }
    }
}

/// After a drain the blocks in use are those that were, less the ones that a return names;
/// no return is left to take, and the header shows the bytes that are still in use. Returns
/// that name no block in use do nothing.
pub proof fn law_drain_takes_back_what_was_returned(
    w: &mut Writer,
    hdr: &mut SharedHeader,
    recycle: &[u8],
    now: u64,
)
    requires
        call_ensures(Writer::drain_recycles, (w, hdr, recycle, now), ()),
    ensures
        ({
            let before = *old(hdr);
            let was = old(w).arena().used;
            let is = final(w).arena().used;
            &&& forall|id: u32| #[trigger]
                is.contains_key(id) <==> was.contains_key(id) && !returned(
                    recycle@,
                    before.rec_tail as int,
                    before.rec_head as int,
                    before.rec_capacity,
                    id,
                )
            &&& forall|id: u32| #[trigger] is.contains_key(id) ==> is[id] == was[id]
            &&& *final(hdr) == (SharedHeader {
                rec_tail: before.rec_head,
                arena_used_bytes: allocator::sum_used(is) as u64,
                producer_heartbeat_ns: now,
                ..before
            })
        }),
{
    let before = *old(hdr);
    lemma_drained_used(
        old(w).arena(),
        recycle@,
        before.rec_head,
        before.rec_tail,
        before.rec_capacity,
    );
    assert(final(w).books(*final(hdr)).hdr == *final(hdr));
    assert(final(w).books(*final(hdr)).blocks == final(w).arena());
}

/// A request takes back what was returned, then takes a block as long as asked, at a multiple
/// of the alignment, within the arena. No other block is touched. It fails only where no free
/// block has a place for it, and that is counted.
pub proof fn law_request_takes_one_block(
    w: &mut Writer,
    hdr: &mut SharedHeader,
    recycle: &[u8],
    size: u32,
    align: u64,
    now: u64,
    r: Result<AllocLease, ShmError>,
)
    requires
        old(w).wf(),
        call_ensures(Writer::alloc_lease, (w, hdr, recycle, size, align, now), r),
    ensures
        ({
            let before = *old(hdr);
            let was = old(w).arena().used;
            let is = final(w).arena().used;
            let kept = |id: u32|
                was.contains_key(id) && !returned(
                    recycle@,
                    before.rec_tail as int,
                    before.rec_head as int,
                    before.rec_capacity,
                    id,
                );
            &&& final(hdr).rec_tail == before.rec_head
            &&& match r {
                Ok(l) => {
                    &&& l.len == size && l.offset + l.len <= old(w).arena().total
                    &&& align >= 1 ==> l.offset as int % align as int == 0
                    &&& is.contains_key(l.buffer_id)
                    &&& is[l.buffer_id] == (l.offset, l.len as u64)
                    &&& forall|id: u32|
                        id != l.buffer_id ==> (#[trigger] is.contains_key(id) <==> kept(id))
                    &&& forall|id: u32|
                        id != l.buffer_id && #[trigger] is.contains_key(id) ==> is[id] == was[id]
                    &&& final(hdr).alloc_failures == before.alloc_failures
                },
                Err(e) => {
                    &&& e is Exhausted
                    &&& forall|i: int, at: int|
                        0 <= i < final(w).arena().free.len() ==> !#[trigger] allocator::has_place(
                            final(w).arena().free[i],
                            at,
                            size as int,
                            allocator::step_of(align),
                        )
                    &&& forall|id: u32| #[trigger] is.contains_key(id) <==> kept(id)
                    &&& before.alloc_failures < u64::MAX ==> final(hdr).alloc_failures
                        == before.alloc_failures + 1
                },
            }
        }),
{
    let before = *old(hdr);
    let d = old(w).books(before).drain(recycle@, now);
    lemma_drained_used(
        old(w).arena(),
        recycle@,
        before.rec_head,
        before.rec_tail,
        before.rec_capacity,
    );
    books::law_drain_keeps_arena(
        old(w).arena(),
        recycle@,
        before.rec_head,
        before.rec_tail,
        before.rec_capacity,
    );
    allocator::law_allocation(d.blocks, size, align);
    assert(final(w).books(*final(hdr)).hdr == *final(hdr));
    assert(final(w).books(*final(hdr)).blocks == final(w).arena());
    if allocator::allocated(d.blocks, size, align) is Some {
        allocator::law_allocation_is_as_asked(d.blocks, size, align);
    } else {
        lemma_no_place(d.blocks, size, align);
    }
}

proof fn lemma_no_place(v: ArenaView, size: u32, align: u64)
    requires
        v.inv(),
        allocator::allocated(v, size, align) is None,
    ensures
        forall|i: int, at: int|
            0 <= i < v.free.len() ==> !#[trigger] allocator::has_place(
                v.free[i],
                at,
                size as int,
                allocator::step_of(align),
            ),
{
    allocator::law_allocation(v, size, align);
    assert forall|i: int, at: int| 0 <= i < v.free.len() implies !#[trigger] allocator::has_place(
        v.free[i],
        at,
        size as int,
        allocator::step_of(align),
    ) by {
        assert(!allocator::fits(v.free[i], size, align));
        crate::align::law_aligned_is_least_multiple(
            v.free[i].0 as int,
            allocator::step_of(align),
        );
        if allocator::has_place(v.free[i], at, size as int, allocator::step_of(align)) {
            assert(at % allocator::step_of(align) == 0);
        }
    }
}

/// A block that is given back unpublished is no longer in use, alone of all, and the header
/// shows the bytes that still are; what was not in use is not given back.
pub proof fn law_unpublished_block_is_given_back(
    w: &mut Writer,
    hdr: &mut SharedHeader,
    buffer_id: u32,
    r: bool,
)
    requires
        old(w).wf(),
        call_ensures(Writer::free_lease, (w, hdr, buffer_id), r),
    ensures
        r <==> old(w).arena().used.contains_key(buffer_id),
        final(w).arena().used == old(w).arena().used.remove(buffer_id),
        !r ==> final(w).arena() == old(w).arena(),
        *final(hdr) == (SharedHeader {
            arena_used_bytes: allocator::sum_used(final(w).arena().used) as u64,
            ..*old(hdr)
        }),
{
    assert(final(w).books(*final(hdr)).hdr == *final(hdr));
    assert(final(w).books(*final(hdr)).blocks == final(w).arena());
    if !old(w).arena().used.contains_key(buffer_id) {
        assert(old(w).arena().used.remove(buffer_id) =~= old(w).arena().used);
    }
}

/// What the ready ring holds after a frame was put in at the head: the head's cell tells of
/// the frame, with the number behind the one that the head had, and every other byte is as
/// it was.
pub open spec fn holds_frame(
    before: Seq<u8>,
    after: Seq<u8>,
    head: u64,
    cap: u32,
    lease: AllocLease,
    pts_ns: i64,
) -> bool {
    let at = 64 * (head as int % (cap as int));
    let e = consumer_calls::cell(after, head as int, cap);
    &&& after.len() == before.len()
    &&& desc::received(e) == (ReceivedDesc {
        seq: (head + 1) as u64,
        buffer_id: lease.buffer_id,
        pts_ns,
        dts_ns: pts_ns,
        duration_ns: 0,
        flags: 0,
        offset: lease.offset,
        len: lease.len,
    })
    &&& vstd::bytes::spec_u32_from_le_bytes(e.subrange(52, 56)) == 0
    &&& forall|k: int| 56 <= k < 64 ==> #[trigger] e[k] == 0
    &&& forall|p: int|
        0 <= p < after.len() && !(at <= p < at + 64) ==> #[trigger] after[p] == before[p]
}

/// The header after a frame was put in: the head has moved on by one, the producer has shown
/// itself, and the bytes in use and the most that ever were are noted.
pub open spec fn notes_frame(before: SharedHeader, after: SharedHeader, used: int, now: u64) -> bool {
    &&& after.ready_head == before.ready_head + 1
    &&& after.producer_heartbeat_ns == now
    &&& after.arena_used_bytes == used
    &&& after.arena_high_watermark >= before.arena_high_watermark
    &&& after.arena_high_watermark >= used
    &&& after.arena_high_watermark == before.arena_high_watermark || after.arena_high_watermark
        == used
}

proof fn lemma_frame_held(
    b: Books,
    ready: Seq<u8>,
    lease: AllocLease,
    pts_ns: i64,
    now: u64,
)
    requires
        b.blocks.inv(),
        ring::is_ring(ready, b.hdr.ready_capacity),
        b.hdr.ready_head < u64::MAX,
    ensures
        holds_frame(
            ready,
            b.ready_with(ready, lease, pts_ns),
            b.hdr.ready_head,
            b.hdr.ready_capacity,
            lease,
            pts_ns,
        ),
        notes_frame(
            b.hdr,
            b.record_frame(now).hdr,
            allocator::sum_used(b.blocks.used),
            now,
        ),
{
    let head = b.hdr.ready_head;
    let cap = b.hdr.ready_capacity;
    let seq = (head + 1) as u64;
    let e = books::frame_bytes(seq, lease, pts_ns);
    books::law_frame_entry_survives(seq, lease, pts_ns);
    ring::lemma_slot_in_ring(ready, head as int, cap);
    let at = ring::slot(head as int, cap);
    desc::law_entries_are_independent(ready, at, e, at);
    assert(consumer_calls::cell(b.ready_with(ready, lease, pts_ns), head as int, cap) == e);
    vstd::bytes::lemma_auto_spec_u64_to_from_le_bytes();
    vstd::bytes::lemma_auto_spec_u32_to_from_le_bytes();
    assert(e.subrange(52, 56) =~= vstd::bytes::spec_u32_to_le_bytes(0));
    allocator::lemma_used_fits(b.blocks);
}

/// A block is put into the ready ring exactly while it holds fewer frames than it has cells.
/// Into a full ring nothing is put; what was returned is taken back instead.
pub proof fn law_enqueue_fills_the_cell_at_the_head(
    w: &mut Writer,
    hdr: &mut SharedHeader,
    ready: &mut [u8],
    recycle: &[u8],
    lease: AllocLease,
    pts_ns: i64,
    now: u64,
    r: bool,
)
    requires
        old(w).wf(),
        ring::is_ring(old(ready)@, old(hdr).ready_capacity),
        old(hdr).ready_tail <= old(hdr).ready_head < u64::MAX,
        call_ensures(Writer::enqueue_lease, (w, hdr, ready, recycle, lease, pts_ns, now), r),
    ensures
        r <==> old(hdr).ready_head - old(hdr).ready_tail < old(hdr).ready_capacity,
        r ==> {
            &&& holds_frame(
                old(ready)@,
                final(ready)@,
                old(hdr).ready_head,
                old(hdr).ready_capacity,
                lease,
                pts_ns,
            )
            &&& notes_frame(
                *old(hdr),
                *final(hdr),
                allocator::sum_used(old(w).arena().used),
                now,
            )
            &&& final(w).arena() == old(w).arena()
            &&& *final(hdr) == (SharedHeader {
                ready_head: final(hdr).ready_head,
                producer_heartbeat_ns: now,
                arena_used_bytes: final(hdr).arena_used_bytes,
                arena_high_watermark: final(hdr).arena_high_watermark,
                ..*old(hdr)
            })
        },
        !r ==> {
            &&& final(ready)@ == old(ready)@
            &&& final(hdr).ready_head == old(hdr).ready_head
            &&& final(hdr).ready_tail == old(hdr).ready_tail
            &&& final(hdr).rec_tail == old(hdr).rec_head
        },
{
    assert(final(w).books(*final(hdr)).hdr == *final(hdr));
    assert(final(w).books(*final(hdr)).blocks == final(w).arena());
    lemma_frame_held(old(w).books(*old(hdr)), old(ready)@, lease, pts_ns, now);
}

/// A block is published only to a consumer that is present, and then as it is put into the
/// ready ring; without one it is refused, and nothing is changed.
pub proof fn law_block_is_published_to_a_consumer(
    w: &mut Writer,
    hdr: &mut SharedHeader,
    ready: &mut [u8],
    recycle: &[u8],
    lease: AllocLease,
    pts_ns: i64,
    now: u64,
    r: Result<bool, ShmError>,
)
    requires
        old(w).wf(),
        ring::is_ring(old(ready)@, old(hdr).ready_capacity),
        old(hdr).ready_tail <= old(hdr).ready_head < u64::MAX,
        call_ensures(Writer::publish_lease, (w, hdr, ready, recycle, lease, pts_ns, now), r),
    ensures
        ({
            let before = *old(hdr);
            let present = before.consumer_owner_pid != 0 && before.consumer_heartbeat_ns != 0
                && now <= before.consumer_heartbeat_ns + 1_000_000_000;
            match r {
                Err(e) => {
                    &&& e is NoConsumer && !present
                    &&& *final(hdr) == before && final(ready)@ == old(ready)@
                    &&& final(w).arena() == old(w).arena()
                },
                Ok(done) => {
                    &&& present
                    &&& done <==> before.ready_head - before.ready_tail < before.ready_capacity
                    &&& done ==> holds_frame(
                        old(ready)@,
                        final(ready)@,
                        before.ready_head,
                        before.ready_capacity,
                        lease,
                        pts_ns,
                    ) && final(hdr).ready_head == before.ready_head + 1
                    &&& !done ==> final(ready)@ == old(ready)@ && final(hdr).ready_head
                        == before.ready_head
                },
            }
        }),
{
    assert(final(w).books(*final(hdr)).hdr == *final(hdr));
    assert(final(w).books(*final(hdr)).blocks == final(w).arena());
    lemma_frame_held(old(w).books(*old(hdr)), old(ready)@, lease, pts_ns, now);
}

/// The payload lies at `at`, and every other byte of the arena is as it was.
pub open spec fn holds_payload(before: Seq<u8>, after: Seq<u8>, at: int, payload: Seq<u8>) -> bool {
    &&& after.len() == before.len()
    &&& forall|p: int|
        0 <= p < after.len() ==> #[trigger] after[p] == if at <= p < at + payload.len() {
            payload[p - at]
        } else {
            before[p]
        }
}

/// Publishing a payload copies it into a block of its length and tells the consumer of it
/// with its time stamp. Without a consumer nothing is published, and no block is kept; with
/// a full ring the block waits, filled. A payload for which there is no place is refused.
pub proof fn law_published_payload_is_told(
    w: &mut Writer,
    hdr: &mut SharedHeader,
    ready: &mut [u8],
    recycle: &[u8],
    arena: &mut [u8],
    payload: &[u8],
    pts_ns: i64,
    now: u64,
    r: Result<Publish, ShmError>,
)
    requires
        old(w).wf(),
        ring::is_ring(old(ready)@, old(hdr).ready_capacity),
        old(hdr).ready_tail <= old(hdr).ready_head < u64::MAX,
        payload@.len() <= u32::MAX,
        old(arena)@.len() >= old(w).arena().total,
        !old(w).arena().used.contains_key(old(w).arena().next_id),
        call_ensures(
            Writer::publish,
            (w, hdr, ready, recycle, arena, payload, pts_ns, now),
            r,
        ),
    ensures
        ({
            let before = *old(hdr);
            let present = before.consumer_owner_pid != 0 && before.consumer_heartbeat_ns != 0
                && now <= before.consumer_heartbeat_ns + 1_000_000_000;
            let was = old(w).arena().used;
            let is = final(w).arena().used;
            let kept = |id: u32|
                was.contains_key(id) && !returned(
                    recycle@,
                    before.rec_tail as int,
                    before.rec_head as int,
                    before.rec_capacity,
                    id,
                );
            match r {
                Ok(Publish::Published(id)) => {
                    &&& present
                    &&& before.ready_head - before.ready_tail < before.ready_capacity
                    &&& final(hdr).ready_head == before.ready_head + 1
                    &&& is.contains_key(id) && is[id].1 == payload@.len()
                    &&& holds_frame(
                        old(ready)@,
                        final(ready)@,
                        before.ready_head,
                        before.ready_capacity,
                        AllocLease { buffer_id: id, offset: is[id].0, len: payload@.len() as u32 },
                        pts_ns,
                    )
                    &&& holds_payload(old(arena)@, final(arena)@, is[id].0 as int, payload@)
                    &&& forall|k: u32|
                        k != id ==> (#[trigger] is.contains_key(k) <==> kept(k))
                },
                Ok(Publish::RingFull(l)) => {
                    &&& present
                    &&& before.ready_head - before.ready_tail >= before.ready_capacity
                    &&& final(ready)@ == old(ready)@ && final(hdr).ready_head == before.ready_head
                    &&& l.len == payload@.len()
                    &&& holds_payload(old(arena)@, final(arena)@, l.offset as int, payload@)
                },
                Err(e) => {
                    &&& final(ready)@ == old(ready)@ && final(hdr).ready_head == before.ready_head
                    &&& e is NoConsumer || e is Exhausted
                    &&& e is NoConsumer ==> !present && final(hdr).alloc_failures
                        == before.alloc_failures
                    &&& forall|k: u32| #[trigger] is.contains_key(k) <==> kept(k)
                    &&& e is Exhausted ==> forall|i: int, at: int|
                        0 <= i < final(w).arena().free.len() ==> !#[trigger] allocator::has_place(
                            final(w).arena().free[i],
                            at,
                            payload@.len() as int,
                            allocator::step_of(old(w).settings().1),
                        )
                },
            }
        }),
{
    let before = *old(hdr);
    let size = payload@.len() as u32;
    let align = old(w).settings().1;
    let d = old(w).books(before).drain(recycle@, now);
    let (after, lease) = d.take(size, align);
    lemma_drained_used(
        old(w).arena(),
        recycle@,
        before.rec_head,
        before.rec_tail,
        before.rec_capacity,
    );
    books::law_drain_keeps_arena(
        old(w).arena(),
        recycle@,
        before.rec_head,
        before.rec_tail,
        before.rec_capacity,
    );
    allocator::law_allocation(d.blocks, size, align);
    assert(final(w).books(*final(hdr)).hdr == *final(hdr));
    assert(final(w).books(*final(hdr)).blocks == final(w).arena());
    match lease {
        Some(l) => {
            allocator::law_allocation_is_as_asked(d.blocks, size, align);
            allocator::law_release(after.blocks, l.buffer_id);
            lemma_frame_held(after, old(ready)@, l, pts_ns, now);
        },
        None => {
            lemma_no_place(d.blocks, size, align);
        },
    }
}

/// A timeline snapshot shows the producer's clock and the frame's time stamp that belong
/// together, under the next number; it changes nothing else, and begins no new timeline.
pub proof fn law_snapshot_shows_clock_and_stamp(
    w: &Writer,
    hdr: &mut SharedHeader,
    pts_ns: i64,
    now: u64,
)
    requires
        call_ensures(Writer::emit_timeline_snapshot, (w, hdr, pts_ns, now), ()),
    ensures
        final(hdr).timeline_seq != old(hdr).timeline_seq,
        old(hdr).timeline_seq < u64::MAX ==> final(hdr).timeline_seq == old(hdr).timeline_seq + 1,
        *final(hdr) == (SharedHeader {
            timeline_sink_mono_ns: now,
            timeline_producer_pts_ns: pts_ns,
            timeline_valid: 1,
            timeline_seq: final(hdr).timeline_seq,
            ..*old(hdr)
        }),
{
}

/// The timeline shown after a frame: a new snapshot exactly where none was shown or the one
/// that was is a beacon's period old or older.
pub open spec fn shows_timeline(
    before: SharedHeader,
    after: SharedHeader,
    beacon_ns: u64,
    pts_ns: i64,
    now: u64,
) -> bool {
    &&& after.timeline_gen == before.timeline_gen
    &&& if before.timeline_valid == 0 || now >= before.timeline_sink_mono_ns + beacon_ns
        || beacon_ns == 0 {
        &&& after.timeline_valid == 1
        &&& after.timeline_sink_mono_ns == now && after.timeline_producer_pts_ns == pts_ns
        &&& after.timeline_seq != before.timeline_seq
        &&& before.timeline_seq < u64::MAX ==> after.timeline_seq == before.timeline_seq + 1
    } else {
        &&& after.timeline_valid == before.timeline_valid
        &&& after.timeline_sink_mono_ns == before.timeline_sink_mono_ns
        &&& after.timeline_producer_pts_ns == before.timeline_producer_pts_ns
        &&& after.timeline_seq == before.timeline_seq
    }
}

/// The beacon shows the timeline when it is due and leaves it alone when it is not; it
/// touches no other word.
pub proof fn law_beacon_keeps_its_period(w: &Writer, hdr: &mut SharedHeader, pts_ns: i64, now: u64)
    requires
        call_ensures(Writer::emit_if_due, (w, hdr, pts_ns, now), ()),
    ensures
        shows_timeline(*old(hdr), *final(hdr), w.settings().2, pts_ns, now),
        *final(hdr) == (SharedHeader {
            timeline_sink_mono_ns: final(hdr).timeline_sink_mono_ns,
            timeline_producer_pts_ns: final(hdr).timeline_producer_pts_ns,
            timeline_valid: final(hdr).timeline_valid,
            timeline_seq: final(hdr).timeline_seq,
            ..*old(hdr)
        }),
{
}

proof fn lemma_dropped(b: Books, ready: Seq<u8>)
    requires
        b.blocks.inv(),
    ensures
        ({
            let after = b.drop_oldest(ready);
            let id = desc::received(
                consumer_calls::cell(ready, b.hdr.ready_tail as int, b.hdr.ready_capacity),
            ).buffer_id;
            &&& after.blocks.inv()
            &&& after.blocks.used == b.blocks.used.remove(id)
            &&& after.blocks.next_id == b.blocks.next_id && after.blocks.total == b.blocks.total
        }),
{
    let id = desc::received(
        consumer_calls::cell(ready, b.hdr.ready_tail as int, b.hdr.ready_capacity),
    ).buffer_id;
    allocator::law_release(b.blocks, id);
    if !b.blocks.used.contains_key(id) {
        assert(b.blocks.used.remove(id) =~= b.blocks.used);
    }
}

proof fn lemma_waits_step(ready: Seq<u8>, from: int, to: int, cap: u32)
    requires
        from < to,
    ensures
        forall|id: u32| #[trigger]
            waits(ready, from, to, cap, id) <==> waits(ready, from + 1, to, cap, id) || id
                == desc::received(consumer_calls::cell(ready, from, cap)).buffer_id,
{
    assert forall|id: u32| #[trigger]
        waits(ready, from, to, cap, id) <==> waits(ready, from + 1, to, cap, id) || id
            == desc::received(consumer_calls::cell(ready, from, cap)).buffer_id by {
        if waits(ready, from, to, cap, id) {
            let p = choose|p: int|
                from <= p < to && desc::received(
                    #[trigger] consumer_calls::cell(ready, p, cap),
                ).buffer_id == id;
            if p > from {
                assert(waits(ready, from + 1, to, cap, id));
            }
        }
        if waits(ready, from + 1, to, cap, id) {
            let p = choose|p: int|
                from + 1 <= p < to && desc::received(
                    #[trigger] consumer_calls::cell(ready, p, cap),
                ).buffer_id == id;
            assert(waits(ready, from, to, cap, id));
        }
        if id == desc::received(consumer_calls::cell(ready, from, cap)).buffer_id {
            assert(waits(ready, from, to, cap, id));
        }
    }
}

proof fn lemma_waits_apart(ready: Seq<u8>, from: int, mid: int, to: int, cap: u32)
    requires
        from <= mid <= to,
    ensures
        forall|id: u32| #[trigger]
            waits(ready, from, to, cap, id) <==> waits(ready, from, mid, cap, id) || waits(
                ready,
                mid,
                to,
                cap,
                id,
            ),
    decreases mid - from,
{
    if from < mid {
        lemma_waits_step(ready, from, to, cap);
        lemma_waits_step(ready, from, mid, cap);
        lemma_waits_apart(ready, from + 1, mid, to, cap);
        assert forall|id: u32| #[trigger]
            waits(ready, from, to, cap, id) <==> waits(ready, from, mid, cap, id) || waits(
                ready,
                mid,
                to,
                cap,
                id,
            ) by {
            assert(waits(ready, from + 1, to, cap, id) <==> waits(ready, from + 1, mid, cap, id)
                || waits(ready, mid, to, cap, id));
        }
    }
}

proof fn lemma_lease_id(b: Books, ready: Seq<u8>, size: u32, align: u64)
    ensures
        b.take_live(ready, size, align).2 matches Some(l) ==> l.buffer_id == b.blocks.next_id,
    decreases b.hdr.ready_head - b.hdr.ready_tail,
{
    if allocator::allocated(b.blocks, size, align) is None && b.hdr.ready_tail < b.hdr.ready_head {
        lemma_lease_id(b.count_failure().drop_oldest(ready), ready, size, align);
    }
}

/// Room in the ready ring is made by dropping the oldest frames, no more than are in the way
/// of one more: the blocks of the frames that were dropped come back, and no others.
pub proof fn law_room_costs_the_oldest_frames(b: Books, ready: Seq<u8>)
    requires
        b.blocks.inv(),
        b.hdr.ready_tail <= b.hdr.ready_head,
        b.hdr.ready_capacity > 0,
    ensures
        ({
            let after = b.make_room(ready);
            let waiting = b.hdr.ready_head - b.hdr.ready_tail;
            let most = b.hdr.ready_capacity - 1;
            &&& after.hdr.ready_tail - b.hdr.ready_tail == if waiting > most {
                waiting - most
            } else {
                0
            }
            &&& after.hdr == (SharedHeader { ready_tail: after.hdr.ready_tail, ..b.hdr })
            &&& after.blocks.inv() && after.blocks.total == b.blocks.total
            &&& forall|id: u32| #[trigger]
                after.blocks.used.contains_key(id) <==> b.blocks.used.contains_key(id) && !waits(
                    ready,
                    b.hdr.ready_tail as int,
                    after.hdr.ready_tail as int,
                    b.hdr.ready_capacity,
                    id,
                )
            &&& forall|id: u32| #[trigger]
                after.blocks.used.contains_key(id) ==> after.blocks.used[id] == b.blocks.used[id]
        }),
    decreases b.hdr.ready_head - b.hdr.ready_tail,
{
    if b.hdr.ready_tail < b.hdr.ready_head && !b.has_room() {
        let next = b.drop_oldest(ready);
        let after = b.make_room(ready);
        lemma_dropped(b, ready);
        law_room_costs_the_oldest_frames(next, ready);
        lemma_waits_step(
            ready,
            b.hdr.ready_tail as int,
            after.hdr.ready_tail as int,
            b.hdr.ready_capacity,
        );
    }
}

/// A place in the arena is made by dropping the oldest frames one by one, for as long as
/// none of the free blocks has a place and frames wait, and only then by a reset. The blocks
/// of the frames that were dropped come back, and no others; a reset takes all.
pub proof fn law_place_costs_the_oldest_frames(b: Books, ready: Seq<u8>, size: u32, align: u64)
    requires
        b.blocks.inv(),
        b.hdr.ready_tail <= b.hdr.ready_head,
    ensures
        ({
            let (after, reset, lease) = b.take_live(ready, size, align);
            let served = exists|i: int, at: int|
                0 <= i < b.blocks.free.len() && #[trigger] allocator::has_place(
                    b.blocks.free[i],
                    at,
                    size as int,
                    allocator::step_of(align),
                );
            &&& served ==> !reset && after.hdr == b.hdr && lease is Some
            &&& !served && b.hdr.ready_tail < b.hdr.ready_head ==> after.hdr.ready_tail
                > b.hdr.ready_tail
            &&& !served && b.hdr.ready_tail == b.hdr.ready_head ==> reset
            &&& reset ==> after.hdr.ready_tail == b.hdr.ready_head && after.hdr.timeline_valid == 0
            &&& !reset ==> after.hdr.timeline_valid == b.hdr.timeline_valid
            &&& after.hdr == (SharedHeader {
                ready_tail: after.hdr.ready_tail,
                alloc_failures: after.hdr.alloc_failures,
                timeline_gen: after.hdr.timeline_gen,
                timeline_valid: after.hdr.timeline_valid,
                ..b.hdr
            })
            &&& lease matches Some(l) ==> {
                &&& after.blocks.used.contains_key(l.buffer_id)
                &&& after.blocks.used[l.buffer_id] == (l.offset, l.len as u64)
                &&& l.len == size
                &&& reset ==> forall|id: u32| #[trigger]
                    after.blocks.used.contains_key(id) <==> id == l.buffer_id
                &&& !reset ==> forall|id: u32|
                    id != l.buffer_id ==> (#[trigger] after.blocks.used.contains_key(id)
                        <==> b.blocks.used.contains_key(id) && !waits(
                        ready,
                        b.hdr.ready_tail as int,
                        after.hdr.ready_tail as int,
                        b.hdr.ready_capacity,
                        id,
                    ))
            }
        }),
    decreases b.hdr.ready_head - b.hdr.ready_tail,
{
    let (after, reset, lease) = b.take_live(ready, size, align);
    allocator::law_allocation(b.blocks, size, align);
    match allocator::allocated(b.blocks, size, align) {
        Some((v, a)) => {
            let i = allocator::first_fit(b.blocks.free, 0, size, align);
            lemma_place_of_fit(b.blocks, size, align);
        },
        None => {
            lemma_no_place(b.blocks, size, align);
            if b.hdr.ready_tail < b.hdr.ready_head {
                let next = b.count_failure().drop_oldest(ready);
                lemma_dropped(b.count_failure(), ready);
                law_place_costs_the_oldest_frames(next, ready, size, align);
                books::law_live_request_is_served(next, ready, size, align);
                lemma_waits_step(
                    ready,
                    b.hdr.ready_tail as int,
                    after.hdr.ready_tail as int,
                    b.hdr.ready_capacity,
                );
            } else {
                let fresh = b.count_failure().reset();
                allocator::law_fresh_is_valid(b.blocks.total, b.blocks.next_id);
                allocator::law_allocation(fresh.blocks, size, align);
            }
        },
    }
}

proof fn lemma_place_of_fit(v: ArenaView, size: u32, align: u64)
    requires
        v.inv(),
        allocator::allocated(v, size, align) is Some,
    ensures
        exists|i: int, at: int|
            0 <= i < v.free.len() && #[trigger] allocator::has_place(
                v.free[i],
                at,
                size as int,
                allocator::step_of(align),
            ),
{
    allocator::law_allocation_succeeds_iff_room(v, size, align);
    let i = choose|i: int|
        0 <= i < v.free.len() && allocator::fits(#[trigger] v.free[i], size, align);
    crate::align::law_aligned_is_least_multiple(v.free[i].0 as int, allocator::step_of(align));
    assert(allocator::has_place(
        v.free[i],
        allocator::place(v.free[i], align),
        size as int,
        allocator::step_of(align),
    ));
}

/// Publishing a block at once makes room in the ready ring for it, tells how many frames that
/// cost, and shows the timeline when that is due. No consumer is needed.
pub proof fn law_block_is_published_at_once(
    w: &mut Writer,
    hdr: &mut SharedHeader,
    ready: &mut [u8],
    lease: AllocLease,
    pts_ns: i64,
    now: u64,
    r: u64,
)
    requires
        old(w).wf(),
        ring::is_ring(old(ready)@, old(hdr).ready_capacity),
        old(hdr).ready_tail <= old(hdr).ready_head < u64::MAX,
        call_ensures(Writer::enqueue_live, (w, hdr, ready, lease, pts_ns, now), r),
    ensures
        ({
            let before = *old(hdr);
            let waiting = before.ready_head - before.ready_tail;
            let most = before.ready_capacity - 1;
            &&& r == if waiting > most {
                waiting - most
            } else {
                0
            }
            &&& final(hdr).ready_tail == before.ready_tail + r
            &&& holds_frame(
                old(ready)@,
                final(ready)@,
                before.ready_head,
                before.ready_capacity,
                lease,
                pts_ns,
            )
            &&& notes_frame(
                before,
                *final(hdr),
                allocator::sum_used(final(w).arena().used),
                now,
            )
            &&& shows_timeline(before, *final(hdr), old(w).settings().2, pts_ns, now)
            &&& forall|id: u32| #[trigger]
                final(w).arena().used.contains_key(id) <==> old(w).arena().used.contains_key(id)
                    && !waits(
                    old(ready)@,
                    before.ready_tail as int,
                    before.ready_tail + r,
                    before.ready_capacity,
                    id,
                )
        }),
{
    let before = *old(hdr);
    let b = old(w).books(before);
    law_room_costs_the_oldest_frames(b, old(ready)@);
    lemma_frame_held(b.make_room(old(ready)@), old(ready)@, lease, pts_ns, now);
    assert(final(w).books(*final(hdr)).hdr == *final(hdr));
    assert(final(w).books(*final(hdr)).blocks == final(w).arena());
}

/// Publishing a payload at once succeeds exactly when it is no larger than the arena. It is
/// then copied into a block of its length and told with its time stamp; the frames that had
/// to make way are the oldest, and are counted; their blocks, and those that were returned,
/// are no longer in use, and any other is, unless the arena was reset, which begins a new
/// timeline. The timeline is shown when that is due.
pub proof fn law_payload_is_published_at_once(
    w: &mut Writer,
    hdr: &mut SharedHeader,
    ready: &mut [u8],
    recycle: &[u8],
    arena: &mut [u8],
    payload: &[u8],
    pts_ns: i64,
    now: u64,
    r: Result<LivePublish, ShmError>,
)
    requires
        old(w).wf(),
        old(w).books(*old(hdr)).drainable(recycle@),
        ring::is_ring(old(ready)@, old(hdr).ready_capacity),
        old(hdr).ready_tail <= old(hdr).ready_head < u64::MAX,
        payload@.len() <= u32::MAX,
        old(arena)@.len() >= old(w).arena().total,
        !waits(
            old(ready)@,
            old(hdr).ready_tail as int,
            old(hdr).ready_head as int,
            old(hdr).ready_capacity,
            old(w).arena().next_id,
        ),
        call_ensures(
            Writer::publish_live,
            (w, hdr, ready, recycle, arena, payload, pts_ns, now),
            r,
        ),
    ensures
        ({
            let before = *old(hdr);
            let was = old(w).arena().used;
            let is = final(w).arena().used;
            &&& r is Ok <==> payload@.len() <= old(w).arena().total
            &&& r matches Err(e) ==> {
                &&& e is Exhausted
                &&& final(ready)@ == old(ready)@ && final(arena)@ == old(arena)@
                &&& final(hdr).ready_head == before.ready_head
                &&& final(hdr).ready_tail == before.ready_tail
                &&& before.alloc_failures < u64::MAX ==> final(hdr).alloc_failures
                    == before.alloc_failures + 1
            }
            &&& r matches Ok(p) ==> {
                let shown = SharedHeader {
                    timeline_valid: if p.reset {
                        0
                    } else {
                        before.timeline_valid
                    },
                    timeline_gen: final(hdr).timeline_gen,
                    ..before
                };
                &&& final(hdr).ready_head == before.ready_head + 1
                &&& final(hdr).ready_tail == before.ready_tail + p.dropped
                &&& final(hdr).ready_head - final(hdr).ready_tail <= before.ready_capacity
                &&& final(hdr).rec_tail == before.rec_head
                &&& is.contains_key(p.buffer_id) && is[p.buffer_id].1 == payload@.len()
                &&& holds_frame(
                    old(ready)@,
                    final(ready)@,
                    before.ready_head,
                    before.ready_capacity,
                    AllocLease {
                        buffer_id: p.buffer_id,
                        offset: is[p.buffer_id].0,
                        len: payload@.len() as u32,
                    },
                    pts_ns,
                )
                &&& holds_payload(
                    old(arena)@,
                    final(arena)@,
                    is[p.buffer_id].0 as int,
                    payload@,
                )
                &&& p.reset ==> p.dropped == before.ready_head - before.ready_tail
                &&& p.reset ==> final(hdr).timeline_gen != before.timeline_gen
                &&& p.reset && before.timeline_gen < u64::MAX ==> final(hdr).timeline_gen
                    == before.timeline_gen + 1
                &&& !p.reset ==> final(hdr).timeline_gen == before.timeline_gen
                &&& p.reset ==> forall|id: u32| #[trigger]
                    is.contains_key(id) <==> id == p.buffer_id
                &&& !p.reset ==> forall|id: u32|
                    id != p.buffer_id ==> (#[trigger] is.contains_key(id) <==> {
                        &&& was.contains_key(id)
                        &&& !returned(
                            recycle@,
                            before.rec_tail as int,
                            before.rec_head as int,
                            before.rec_capacity,
                            id,
                        )
                        &&& !waits(
                            old(ready)@,
                            before.ready_tail as int,
                            before.ready_tail + p.dropped,
                            before.ready_capacity,
                            id,
                        )
                    })
                &&& shows_timeline(shown, *final(hdr), old(w).settings().2, pts_ns, now)
            }
        }),
{
    let before = *old(hdr);
    let size = payload@.len() as u32;
    let align = old(w).settings().1;
    let d = old(w).books(before).drain(recycle@, now);
    let (taken, reset, lease) = d.take_live(old(ready)@, size, align);
    let room = taken.make_room(old(ready)@);
    books::law_drain_keeps_arena(
        old(w).arena(),
        recycle@,
        before.rec_head,
        before.rec_tail,
        before.rec_capacity,
    );
    law_place_costs_the_oldest_frames(d, old(ready)@, size, align);
    books::law_live_request_is_served(d, old(ready)@, size, align);
    assert(final(w).books(*final(hdr)).hdr == *final(hdr));
    assert(final(w).books(*final(hdr)).blocks == final(w).arena());
    lemma_drained_used(
        old(w).arena(),
        recycle@,
        before.rec_head,
        before.rec_tail,
        before.rec_capacity,
    );
    if payload@.len() <= old(w).arena().total {
        law_room_costs_the_oldest_frames(taken, old(ready)@);
        lemma_frame_held(room, old(ready)@, lease->0, pts_ns, now);
        lemma_waits_apart(
            old(ready)@,
            before.ready_tail as int,
            taken.hdr.ready_tail as int,
            room.hdr.ready_tail as int,
            before.ready_capacity,
        );
        lemma_waits_apart(
            old(ready)@,
            before.ready_tail as int,
            room.hdr.ready_tail as int,
            before.ready_head as int,
            before.ready_capacity,
        );
        lemma_lease_id(d, old(ready)@, size, align);
        assert(room.blocks.used.contains_key((lease->0).buffer_id));
    }
}

/// What the low-latency look gives back is what the producer then takes back: once it has
/// drained the recycle ring, the frames that were passed over have no block any more, while
/// the one that was delivered and the newest hold theirs.
pub proof fn law_latest_look_costs_only_passed_frames(
    reader: &mut Reader,
    hdr: &mut SharedHeader,
    ready: &[u8],
    recycle: &mut [u8],
    now: u64,
    r: Result<Option<(ReceivedDesc, u64)>, ShmError>,
    w: &mut Writer,
    next: &mut SharedHeader,
    given: &[u8],
    later: u64,
)
    requires
        ring::is_ring(ready@, old(hdr).ready_capacity),
        ring::is_ring(old(recycle)@, old(hdr).rec_capacity),
        old(hdr).ready_tail <= old(hdr).ready_head < u64::MAX,
        old(hdr).rec_tail == old(hdr).rec_head,
        old(hdr).rec_head + (old(hdr).ready_head - old(hdr).ready_tail) < u64::MAX,
        old(hdr).ready_head - old(hdr).ready_tail <= old(hdr).rec_capacity,
        crate::transport::laws::frames_held(
            old(w).arena(),
            ring::queue(
                ready@,
                old(hdr).ready_head,
                old(hdr).ready_tail,
                old(hdr).ready_capacity,
            ),
        ),
        call_ensures(Reader::try_recv_latest_desc, (reader, hdr, ready, recycle, now), r),
        *old(next) == *final(hdr) && given@ == final(recycle)@,
        call_ensures(Writer::drain_recycles, (w, next, given, later), ()),
    ensures
        ({
            let before = *old(hdr);
            let n = consumer_calls::passed(before.ready_head - before.ready_tail);
            forall|k: int|
                0 <= k < before.ready_head - before.ready_tail ==> ({
                    let d = desc::received(
                        #[trigger] consumer_calls::cell(
                            ready@,
                            before.ready_tail + k,
                            before.ready_capacity,
                        ),
                    );
                    if k < n {
                        !final(w).arena().used.contains_key(d.buffer_id)
                    } else {
                        &&& final(w).arena().used.contains_key(d.buffer_id)
                        &&& final(w).arena().used[d.buffer_id] == (d.offset, d.len as u64)
                    }
                })
        }),
{
    let before = *old(hdr);
    let cap = before.ready_capacity;
    let n = consumer_calls::passed(before.ready_head - before.ready_tail);
    let q = ring::queue(ready@, before.ready_head, before.ready_tail, cap);
    consumer_calls::law_latest_look_returns_what_it_passes_over(
        reader,
        hdr,
        ready,
        recycle,
        now,
        r,
    );
    law_drain_takes_back_what_was_returned(w, next, given, later);
    let mid = *old(next);
    assert(mid.rec_head == before.rec_head + n);
    assert forall|k: int| 0 <= k < before.ready_head - before.ready_tail implies ({
        let d = desc::received(
            #[trigger] consumer_calls::cell(ready@, before.ready_tail + k, cap),
        );
        if k < n {
            !final(w).arena().used.contains_key(d.buffer_id)
        } else {
            &&& final(w).arena().used.contains_key(d.buffer_id)
            &&& final(w).arena().used[d.buffer_id] == (d.offset, d.len as u64)
        }
    }) by {
        let c = consumer_calls::cell(ready@, before.ready_tail + k, cap);
        let d = desc::received(c);
        assert(q[k] == c);
        if k < n {
            let back = consumer_calls::cell(given@, before.rec_head + k, before.rec_capacity);
            assert(consumer_calls::names(back) == d.buffer_id);
            assert(returned(
                given@,
                mid.rec_tail as int,
                mid.rec_head as int,
                mid.rec_capacity,
                d.buffer_id,
            ));
        } else {
            if returned(
                given@,
                mid.rec_tail as int,
                mid.rec_head as int,
                mid.rec_capacity,
                d.buffer_id,
            ) {
                let p = choose|p: int|
                    mid.rec_tail <= p < mid.rec_head && consumer_calls::names(
                        #[trigger] consumer_calls::cell(given@, p, mid.rec_capacity),
                    ) == d.buffer_id;
                let j = p - before.rec_head;
                assert(p == before.rec_head + j);
                let cj = consumer_calls::cell(ready@, before.ready_tail + j, cap);
                assert(q[j] == cj);
                assert(desc::received(q[j]).buffer_id != desc::received(q[k]).buffer_id);
                assert(false);
            }
        }
    }
}

/// Rings without an entry are refused, and no region is made with them.
pub proof fn law_region_has_both_rings(
    cfg: &TransportConfig,
    r: Result<(), ShmError>,
    region_len: usize,
    pid: u32,
    now: u64,
    w: Result<(Writer, SharedHeader), ShmError>,
)
    requires
        call_ensures(TransportConfig::check, (cfg,), r),
        call_ensures(Writer::create, (region_len, cfg, pid, now), w),
    ensures
        r is Ok <==> cfg.ready_capacity > 0 && cfg.recycle_capacity > 0,
        r matches Err(e) ==> e is InvalidConfig,
        r is Err ==> (w matches Err(e) && e is InvalidConfig),
{
}

} // verus!
