//! What holds of the two ends of a region together.

use crate::allocator;
use crate::allocator::ArenaView;
use crate::transport::books;
use crate::transport::books::{AllocLease, Books};
use crate::transport::desc;
use crate::transport::desc::ReceivedDesc;
use crate::transport::header;
use crate::transport::header::{SharedHeader, STATE_RUNNING, STATE_STOPPED};
use crate::transport::reader;
use crate::transport::ring;
use vstd::prelude::*;

verus! {

/// What the consumer is told of a frame.
pub open spec fn frame_told(seq: u64, lease: AllocLease, pts_ns: i64) -> ReceivedDesc {
    ReceivedDesc {
        seq,
        buffer_id: lease.buffer_id,
        pts_ns,
        dts_ns: pts_ns,
        duration_ns: 0,
        flags: 0,
        offset: lease.offset,
        len: lease.len,
    }
}

/// The bytes of the arena that belong to a frame.
pub open spec fn payload_of(arena: Seq<u8>, d: ReceivedDesc) -> Seq<u8> {
    arena.subrange(d.offset as int, d.offset + d.len)
}

/// Every waiting frame holds a block of its own, with the place and the length that its
/// entry tells.
pub open spec fn frames_held(blocks: ArenaView, waiting: Seq<Seq<u8>>) -> bool {
    &&& forall|i: int|
        0 <= i < waiting.len() ==> {
            let d = desc::received(#[trigger] waiting[i]);
            blocks.used.contains_key(d.buffer_id) && blocks.used[d.buffer_id] == (
                d.offset,
                d.len as u64,
            )
        }
    &&& forall|i: int, j: int|
        0 <= i < j < waiting.len() ==> desc::received(#[trigger] waiting[i]).buffer_id
            != desc::received(#[trigger] waiting[j]).buffer_id
}

/// The block is in use, and no waiting frame lies in it.
pub open spec fn set_apart(blocks: ArenaView, lease: AllocLease, waiting: Seq<Seq<u8>>) -> bool {
    &&& blocks.used.contains_key(lease.buffer_id)
    &&& blocks.used[lease.buffer_id] == (lease.offset, lease.len as u64)
    &&& forall|i: int|
        0 <= i < waiting.len() ==> desc::received(#[trigger] waiting[i]).buffer_id
            != lease.buffer_id
}

/// A frame that was put into the ready ring waits behind the frames that waited before,
/// and none of those is changed.
pub proof fn law_frames_wait_in_order(
    b: Books,
    ready: Seq<u8>,
    lease: AllocLease,
    pts_ns: i64,
    now: u64,
)
    requires
        ring::is_ring(ready, b.hdr.ready_capacity),
        b.hdr.ready_tail <= b.hdr.ready_head < u64::MAX,
        b.has_room(),
    ensures
        b.record_frame(now).waiting(b.ready_with(ready, lease, pts_ns)) == b.waiting(ready).push(
            books::frame_bytes((b.hdr.ready_head + 1) as u64, lease, pts_ns),
        ),
{
    let e = books::frame_bytes((b.hdr.ready_head + 1) as u64, lease, pts_ns);
    books::law_frame_entry_survives((b.hdr.ready_head + 1) as u64, lease, pts_ns);
    ring::law_put_appends(
        ready,
        b.hdr.ready_head,
        b.hdr.ready_tail,
        b.hdr.ready_capacity,
        e,
    );
}

/// A look into the ready ring takes the frame that has waited longest, and leaves the
/// others as they are.
pub proof fn law_oldest_frame_comes_first(hdr: SharedHeader, ready: Seq<u8>, now: u64)
    requires
        ring::is_ring(ready, hdr.ready_capacity),
        hdr.ready_tail < hdr.ready_head,
        reader::looked(hdr, ready, now).1 is Ok,
    ensures
        ({
            let q = ring::queue(ready, hdr.ready_head, hdr.ready_tail, hdr.ready_capacity);
            let (h, r) = reader::looked(hdr, ready, now);
            &&& r == Ok::<Option<ReceivedDesc>, Seq<char>>(Some(desc::received(q[0])))
            &&& ring::queue(ready, h.ready_head, h.ready_tail, h.ready_capacity) == q.drop_first()
        }),
{
    ring::law_take_removes_oldest(ready, hdr.ready_head, hdr.ready_tail, hdr.ready_capacity);
}

/// The header after the consumer has looked into the ready ring `n` times.
pub open spec fn drawn(hdr: SharedHeader, ready: Seq<u8>, now: u64, n: nat) -> SharedHeader
    decreases n,
{
    if n == 0 {
        hdr
    } else {
        drawn(reader::looked(hdr, ready, now).0, ready, now, (n - 1) as nat)
    }
}

/// The frame lies within the arena.
pub open spec fn in_arena(e: Seq<u8>, arena_size: u64) -> bool {
    desc::received(e).offset + desc::received(e).len <= arena_size
}

proof fn lemma_drawn(hdr: SharedHeader, ready: Seq<u8>, now: u64, n: nat)
    requires
        ring::is_ring(ready, hdr.ready_capacity),
        hdr.ready_tail + n <= hdr.ready_head,
        forall|i: int|
            0 <= i < n ==> in_arena(
                #[trigger] ring::queue(
                    ready,
                    hdr.ready_head,
                    hdr.ready_tail,
                    hdr.ready_capacity,
                )[i],
                hdr.arena_size,
            ),
    ensures
        drawn(hdr, ready, now, n) == (SharedHeader {
            ready_tail: (hdr.ready_tail + n) as u64,
            consumer_heartbeat_ns: drawn(hdr, ready, now, n).consumer_heartbeat_ns,
            ..hdr
        }),
    decreases n,
{
    if n > 0 {
        let q = ring::queue(ready, hdr.ready_head, hdr.ready_tail, hdr.ready_capacity);
        let h = reader::looked(hdr, ready, now).0;
        ring::law_take_removes_oldest(
            ready,
            hdr.ready_head,
            hdr.ready_tail,
            hdr.ready_capacity,
        );
        assert(in_arena(q[0], hdr.arena_size));
        assert(h.ready_tail == hdr.ready_tail + 1);
        let rest = ring::queue(ready, h.ready_head, h.ready_tail, h.ready_capacity);
        assert forall|i: int| 0 <= i < n - 1 implies in_arena(#[trigger] rest[i], h.arena_size) by {
            assert(rest[i] == q[i + 1]);
        }
        lemma_drawn(h, ready, now, (n - 1) as nat);
    }
}

/// A frame that is published while others wait comes right after those: once the consumer
/// has taken them, its next look gives the frame, with the same number, buffer, time stamp
/// and payload.
pub proof fn law_frame_is_received_in_turn(
    b: Books,
    ready: Seq<u8>,
    arena: Seq<u8>,
    lease: AllocLease,
    payload: Seq<u8>,
    pts_ns: i64,
    now: u64,
    later: u64,
)
    requires
        ring::is_ring(ready, b.hdr.ready_capacity),
        b.hdr.ready_tail <= b.hdr.ready_head < u64::MAX,
        b.has_room(),
        forall|i: int|
            0 <= i < b.waiting(ready).len() ==> in_arena(
                #[trigger] b.waiting(ready)[i],
                b.hdr.arena_size,
            ),
        payload.len() == lease.len,
        lease.offset + lease.len <= b.hdr.arena_size,
        b.hdr.arena_size <= arena.len(),
    ensures
        ({
            let after = b.ready_with(ready, lease, pts_ns);
            let hdr = drawn(b.record_frame(now).hdr, after, later, b.waiting(ready).len());
            let d = frame_told((b.hdr.ready_head + 1) as u64, lease, pts_ns);
            let (h, r) = reader::looked(hdr, after, later);
            &&& r == Ok::<Option<ReceivedDesc>, Seq<char>>(Some(d))
            &&& h.ready_tail == h.ready_head
            &&& payload_of(books::with_payload(arena, lease.offset as int, payload), d) == payload
        }),
{
    let e = books::frame_bytes((b.hdr.ready_head + 1) as u64, lease, pts_ns);
    let after = b.ready_with(ready, lease, pts_ns);
    let hdr = b.record_frame(now).hdr;
    let n = b.waiting(ready).len();
    law_frames_wait_in_order(b, ready, lease, pts_ns, now);
    books::law_frame_entry_survives((b.hdr.ready_head + 1) as u64, lease, pts_ns);
    ring::law_put_appends(ready, b.hdr.ready_head, b.hdr.ready_tail, b.hdr.ready_capacity, e);
    let q = ring::queue(after, hdr.ready_head, hdr.ready_tail, hdr.ready_capacity);
    assert(q == b.waiting(ready).push(e));
    assert forall|i: int| 0 <= i < n implies in_arena(#[trigger] q[i], hdr.arena_size) by {
        assert(q[i] == b.waiting(ready)[i]);
    }
    lemma_drawn(hdr, after, later, n);
    assert(q[n as int] == e);
    assert(hdr.ready_tail + n == b.hdr.ready_head);
    let d = frame_told((b.hdr.ready_head + 1) as u64, lease, pts_ns);
    assert(payload_of(books::with_payload(arena, lease.offset as int, payload), d) =~= payload);
}

/// The buffers that come back through the recycle ring take no block away from frames
/// whose buffers are not among them.
pub proof fn law_draining_spares_frames(
    blocks: ArenaView,
    recycle: Seq<u8>,
    head: u64,
    tail: u64,
    cap: u32,
    kept: Seq<Seq<u8>>,
)
    requires
        blocks.inv(),
        frames_held(blocks, kept),
        forall|p: int, i: int|
            tail <= p < head && 0 <= i < kept.len() ==> desc::recycled_id(
                #[trigger] desc::entry(recycle, ring::slot(p, cap)),
            ) != desc::received(#[trigger] kept[i]).buffer_id,
    ensures
        frames_held(books::drained(blocks, recycle, head, tail, cap), kept),
    decreases head - tail,
{
    if tail < head {
        let id = desc::recycled_id(desc::entry(recycle, ring::slot(tail as int, cap)));
        let next = allocator::released(blocks, id);
        allocator::law_release(blocks, id);
        assert forall|i: int| 0 <= i < kept.len() implies ({
            let d = desc::received(#[trigger] kept[i]);
            next.used.contains_key(d.buffer_id) && next.used[d.buffer_id] == (
                d.offset,
                d.len as u64,
            )
        }) by {
            assert(desc::recycled_id(desc::entry(recycle, ring::slot(tail as int, cap)))
                != desc::received(kept[i]).buffer_id);
        }
        law_draining_spares_frames(next, recycle, head, (tail + 1) as u64, cap, kept);
    }
}

proof fn lemma_write_spares_block(
    arena: Seq<u8>,
    total: u64,
    at: u64,
    payload: Seq<u8>,
    d: ReceivedDesc,
)
    requires
        total <= arena.len(),
        at + payload.len() <= total,
        d.offset + d.len <= total,
        payload.len() <= u32::MAX,
        allocator::apart((d.offset, d.len as u64), (at, payload.len() as u64)),
    ensures
        payload_of(books::with_payload(arena, at as int, payload), d) == payload_of(arena, d),
{
    assert(payload_of(books::with_payload(arena, at as int, payload), d) =~= payload_of(arena, d));
}

/// A block that was taken for a new frame touches no waiting frame: writing the new
/// payload leaves the payloads of all waiting frames as they were, and with the new frame
/// among them each waiting frame still holds a block of its own.
pub proof fn law_publishing_spares_waiting_frames(
    b: Books,
    waiting: Seq<Seq<u8>>,
    arena: Seq<u8>,
    payload: Seq<u8>,
    align: u64,
    seq: u64,
    pts_ns: i64,
)
    requires
        b.blocks.inv(),
        !b.blocks.used.contains_key(b.blocks.next_id),
        frames_held(b.blocks, waiting),
        payload.len() <= u32::MAX,
        b.blocks.total <= arena.len(),
        b.take(payload.len() as u32, align).1 is Some,
    ensures
        ({
            let (after, lease) = b.take(payload.len() as u32, align);
            let l = lease->0;
            &&& frames_held(after.blocks, waiting.push(books::frame_bytes(seq, l, pts_ns)))
            &&& forall|i: int|
                0 <= i < waiting.len() ==> payload_of(
                    books::with_payload(arena, l.offset as int, payload),
                    desc::received(#[trigger] waiting[i]),
                ) == payload_of(arena, desc::received(waiting[i]))
        }),
{
    let size = payload.len() as u32;
    allocator::law_allocation(b.blocks, size, align);
    let (after, lease) = b.take(size, align);
    let l = lease->0;
    let e = books::frame_bytes(seq, l, pts_ns);
    books::law_frame_entry_survives(seq, l, pts_ns);
    assert forall|i: int| 0 <= i < waiting.len() implies payload_of(
        books::with_payload(arena, l.offset as int, payload),
        desc::received(#[trigger] waiting[i]),
    ) == payload_of(arena, desc::received(waiting[i])) by {
        let d = desc::received(waiting[i]);
        assert(b.blocks.used.contains_key(d.buffer_id));
        lemma_write_spares_block(arena, b.blocks.total, l.offset, payload, d);
    }
    let all = waiting.push(e);
    assert forall|i: int| 0 <= i < all.len() implies ({
        let d = desc::received(#[trigger] all[i]);
        after.blocks.used.contains_key(d.buffer_id) && after.blocks.used[d.buffer_id] == (
            d.offset,
            d.len as u64,
        )
    }) by {
        if i < waiting.len() {
            assert(all[i] == waiting[i]);
        }
    }
    assert forall|i: int, j: int| 0 <= i < j < all.len() implies desc::received(
        #[trigger] all[i],
    ).buffer_id != desc::received(#[trigger] all[j]).buffer_id by {
        assert(all[i] == waiting[i]);
        if j < waiting.len() {
            assert(all[j] == waiting[j]);
        }
    }
}

proof fn lemma_drop_keeps_held(b: Books, ready: Seq<u8>, others: Seq<Seq<u8>>)
    requires
        b.blocks.inv(),
        ring::is_ring(ready, b.hdr.ready_capacity),
        b.hdr.ready_tail < b.hdr.ready_head,
        frames_held(b.blocks, b.waiting(ready) + others),
    ensures
        frames_held(b.drop_oldest(ready).blocks, b.drop_oldest(ready).waiting(ready) + others),
        b.drop_oldest(ready).blocks.inv(),
        b.drop_oldest(ready).waiting(ready) == b.waiting(ready).drop_first(),
{
    let q = b.waiting(ready) + others;
    let id = desc::received(b.oldest(ready)).buffer_id;
    let after = b.drop_oldest(ready);
    ring::law_take_removes_oldest(
        ready,
        b.hdr.ready_head,
        b.hdr.ready_tail,
        b.hdr.ready_capacity,
    );
    allocator::law_release(b.blocks, id);
    let rest = after.waiting(ready) + others;
    assert(rest =~= q.drop_first());
    assert forall|i: int| 0 <= i < rest.len() implies ({
        let d = desc::received(#[trigger] rest[i]);
        after.blocks.used.contains_key(d.buffer_id) && after.blocks.used[d.buffer_id] == (
            d.offset,
            d.len as u64,
        )
    }) by {
        assert(rest[i] == q[i + 1]);
        assert(desc::received(q[0]).buffer_id != desc::received(q[i + 1]).buffer_id);
    }
    assert forall|i: int, j: int| 0 <= i < j < rest.len() implies desc::received(
        #[trigger] rest[i],
    ).buffer_id != desc::received(#[trigger] rest[j]).buffer_id by {
        assert(rest[i] == q[i + 1] && rest[j] == q[j + 1]);
    }
}

/// A part of the frames, in whatever order, holds its blocks as all of them do: the frame at
/// `i` is the one that was at `from(i)`.
proof fn lemma_held_rearranged(
    blocks: ArenaView,
    all: Seq<Seq<u8>>,
    part: Seq<Seq<u8>>,
    from: spec_fn(int) -> int,
)
    requires
        frames_held(blocks, all),
        forall|i: int|
            0 <= i < part.len() ==> 0 <= #[trigger] from(i) < all.len() && part[i] == all[from(i)],
        forall|i: int, j: int| 0 <= i < j < part.len() ==> #[trigger] from(i) != #[trigger] from(j),
    ensures
        frames_held(blocks, part),
{
    assert forall|i: int| 0 <= i < part.len() implies ({
        let d = desc::received(#[trigger] part[i]);
        blocks.used.contains_key(d.buffer_id) && blocks.used[d.buffer_id] == (
            d.offset,
            d.len as u64,
        )
    }) by {
        assert(part[i] == all[from(i)]);
    }
    assert forall|i: int, j: int| 0 <= i < j < part.len() implies desc::received(
        #[trigger] part[i],
    ).buffer_id != desc::received(#[trigger] part[j]).buffer_id by {
        let a = from(i);
        let b = from(j);
        assert(part[i] == all[a] && part[j] == all[b] && a != b);
        if a > b {
            assert(desc::received(all[b]).buffer_id != desc::received(all[a]).buffer_id);
        }
    }
}

/// A frame put behind the waiting ones, before any others, or behind them all: the blocks
/// are held the same.
pub proof fn lemma_held_with_newest(
    blocks: ArenaView,
    waiting: Seq<Seq<u8>>,
    others: Seq<Seq<u8>>,
    e: Seq<u8>,
)
    ensures
        frames_held(blocks, (waiting + others).push(e)) <==> frames_held(
            blocks,
            waiting.push(e) + others,
        ),
        frames_held(blocks, waiting.push(e) + others) ==> frames_held(blocks, waiting.push(e)),
{
    let n = waiting.len() as int;
    let last = (waiting + others).push(e);
    let mid = waiting.push(e) + others;
    if frames_held(blocks, last) {
        let from = |i: int|
            if i < n {
                i
            } else if i == n {
                n + others.len()
            } else {
                i - 1
            };
        lemma_held_rearranged(blocks, last, mid, from);
    }
    if frames_held(blocks, mid) {
        let from = |i: int|
            if i < n {
                i
            } else if i == n + others.len() {
                n
            } else {
                i + 1
            };
        lemma_held_rearranged(blocks, mid, last, from);
        lemma_held_rearranged(blocks, mid, waiting.push(e), |i: int| i);
    }
}

/// A frame that the consumer takes out of the ready ring keeps its block: it is then one of
/// those that others hold.
pub proof fn law_taken_frame_keeps_its_block(
    b: Books,
    ready: Seq<u8>,
    others: Seq<Seq<u8>>,
    now: u64,
)
    requires
        ring::is_ring(ready, b.hdr.ready_capacity),
        b.hdr.ready_tail < b.hdr.ready_head,
        frames_held(b.blocks, b.waiting(ready) + others),
        reader::looked(b.hdr, ready, now).1 matches Ok(Some(_)),
    ensures
        ({
            let after = Books { hdr: reader::looked(b.hdr, ready, now).0, ..b };
            &&& after.waiting(ready) == b.waiting(ready).drop_first()
            &&& frames_held(b.blocks, after.waiting(ready) + others.push(b.oldest(ready)))
        }),
{
    let after = Books { hdr: reader::looked(b.hdr, ready, now).0, ..b };
    ring::law_take_removes_oldest(
        ready,
        b.hdr.ready_head,
        b.hdr.ready_tail,
        b.hdr.ready_capacity,
    );
    let all = b.waiting(ready) + others;
    let part = after.waiting(ready) + others.push(b.oldest(ready));
    let last = part.len() - 1;
    let from = |i: int|
        if i == last {
            0
        } else {
            i + 1
        };
    lemma_held_rearranged(b.blocks, all, part, from);
}

/// Publishing without waiting drops frames or resets the arena only to make room: the
/// frames that still wait afterwards hold their blocks, and the new block touches none
/// of them. Without a reset the same holds of any other blocks, be they of frames that the
/// consumer has taken or lent to upstream.
pub proof fn law_live_publishing_spares_frames(
    b: Books,
    ready: Seq<u8>,
    others: Seq<Seq<u8>>,
    arena: Seq<u8>,
    payload: Seq<u8>,
    align: u64,
    seq: u64,
    pts_ns: i64,
)
    requires
        b.blocks.inv(),
        !b.blocks.used.contains_key(b.blocks.next_id),
        ring::is_ring(ready, b.hdr.ready_capacity),
        b.hdr.ready_tail <= b.hdr.ready_head,
        frames_held(b.blocks, b.waiting(ready) + others),
        payload.len() <= u32::MAX,
        payload.len() <= b.blocks.total <= arena.len(),
    ensures
        ({
            let (after, reset, lease) = b.take_live(ready, payload.len() as u32, align);
            let l = lease->0;
            let q = after.waiting(ready);
            let e = books::frame_bytes(seq, l, pts_ns);
            let written = books::with_payload(arena, l.offset as int, payload);
            &&& lease is Some
            &&& frames_held(after.blocks, q.push(e))
            &&& q == b.waiting(ready).skip(after.hdr.ready_tail - b.hdr.ready_tail)
            &&& forall|i: int|
                0 <= i < q.len() ==> payload_of(written, desc::received(#[trigger] q[i]))
                    == payload_of(arena, desc::received(q[i]))
            &&& !reset ==> frames_held(after.blocks, q.push(e) + others)
            &&& !reset ==> forall|i: int|
                0 <= i < others.len() ==> payload_of(written, desc::received(#[trigger] others[i]))
                    == payload_of(arena, desc::received(others[i]))
        }),
    decreases b.hdr.ready_head - b.hdr.ready_tail,
{
    let size = payload.len() as u32;
    let q = b.waiting(ready);
    books::law_live_request_is_served(b, ready, size, align);
    match allocator::allocated(b.blocks, size, align) {
        Some(_) => {
            let (after, lease) = b.take(size, align);
            let e = books::frame_bytes(seq, lease->0, pts_ns);
            let all = q + others;
            law_publishing_spares_waiting_frames(b, all, arena, payload, align, seq, pts_ns);
            lemma_held_with_newest(after.blocks, q, others, e);
            assert forall|i: int| 0 <= i < q.len() implies payload_of(
                books::with_payload(arena, (lease->0).offset as int, payload),
                desc::received(#[trigger] q[i]),
            ) == payload_of(arena, desc::received(q[i])) by {
                assert(all[i] == q[i]);
            }
            assert forall|i: int| 0 <= i < others.len() implies payload_of(
                books::with_payload(arena, (lease->0).offset as int, payload),
                desc::received(#[trigger] others[i]),
            ) == payload_of(arena, desc::received(others[i])) by {
                assert(all[q.len() + i] == others[i]);
            }
            assert(q.skip(0) =~= q);
        },
        None => {
            if b.hdr.ready_tail < b.hdr.ready_head {
                let next = b.count_failure().drop_oldest(ready);
                lemma_drop_keeps_held(b.count_failure(), ready, others);
                law_live_publishing_spares_frames(
                    next,
                    ready,
                    others,
                    arena,
                    payload,
                    align,
                    seq,
                    pts_ns,
                );
                books::law_live_request_is_served(next, ready, size, align);
                let after = b.take_live(ready, size, align).0;
                let n = after.hdr.ready_tail - next.hdr.ready_tail;
                assert(q.drop_first().skip(n) =~= q.skip(n + 1));
            } else {
                let fresh = b.count_failure().reset();
                allocator::law_fresh_is_valid(b.blocks.total, b.blocks.next_id);
                law_publishing_spares_waiting_frames(
                    fresh,
                    fresh.waiting(ready),
                    arena,
                    payload,
                    align,
                    seq,
                    pts_ns,
                );
                assert(q.skip(0) =~= q);
            }
        },
    }
}

/// Dropping frames to make room in the ready ring drops the oldest, and leaves the frames
/// that still wait, and any others, with their blocks.
pub proof fn law_making_room_spares_frames(b: Books, ready: Seq<u8>, others: Seq<Seq<u8>>)
    requires
        b.blocks.inv(),
        ring::is_ring(ready, b.hdr.ready_capacity),
        b.hdr.ready_tail <= b.hdr.ready_head,
        frames_held(b.blocks, b.waiting(ready) + others),
    ensures
        frames_held(b.make_room(ready).blocks, b.make_room(ready).waiting(ready) + others),
        b.make_room(ready).waiting(ready) == b.waiting(ready).skip(
            b.make_room(ready).hdr.ready_tail - b.hdr.ready_tail,
        ),
    decreases b.hdr.ready_head - b.hdr.ready_tail,
{
    if b.hdr.ready_tail < b.hdr.ready_head && !b.has_room() {
        let next = b.drop_oldest(ready);
        lemma_drop_keeps_held(b, ready, others);
        law_making_room_spares_frames(next, ready, others);
        books::law_room_is_made(next, ready);
        let n = b.make_room(ready).hdr.ready_tail - next.hdr.ready_tail;
        assert(b.waiting(ready).drop_first().skip(n) =~= b.waiting(ready).skip(n + 1));
    } else {
        assert(b.waiting(ready).skip(0) =~= b.waiting(ready));
    }
}

/// A publish that is refused for want of a consumer leaves the same blocks in use and the
/// same bytes free as before the request.
pub proof fn law_refused_publish_keeps_nothing(b: Books, size: u32, align: u64)
    requires
        b.blocks.inv(),
        !b.blocks.used.contains_key(b.blocks.next_id),
        b.take(size, align).1 is Some,
    ensures
        ({
            let (after, lease) = b.take(size, align);
            let refused = after.give_back((lease->0).buffer_id);
            &&& refused.blocks.used == b.blocks.used
            &&& forall|p: int|
                allocator::covers(refused.blocks.free, p) <==> allocator::covers(b.blocks.free, p)
        }),
{
    allocator::law_free_undoes_alloc(b.blocks, size, align);
}

proof fn lemma_drained_push(
    blocks: ArenaView,
    before: Seq<u8>,
    after: Seq<u8>,
    head: u64,
    tail: u64,
    cap: u32,
)
    requires
        tail <= head < u64::MAX,
        cap > 0,
        forall|p: int|
            tail <= p < head ==> #[trigger] desc::entry(after, ring::slot(p, cap)) == desc::entry(
                before,
                ring::slot(p, cap),
            ),
    ensures
        books::drained(blocks, after, (head + 1) as u64, tail, cap) == allocator::released(
            books::drained(blocks, before, head, tail, cap),
            desc::recycled_id(desc::entry(after, ring::slot(head as int, cap))),
        ),
    decreases head - tail,
{
    let id = desc::recycled_id(desc::entry(after, ring::slot(tail as int, cap)));
    if tail == head {
        reveal_with_fuel(books::drained, 2);
    } else {
        assert(desc::entry(after, ring::slot(tail as int, cap)) == desc::entry(
            before,
            ring::slot(tail as int, cap),
        ));
        lemma_drained_push(
            allocator::released(blocks, id),
            before,
            after,
            head,
            (tail + 1) as u64,
            cap,
        );
    }
}

/// A buffer that the consumer gives back is free once the producer has drained the
/// recycle ring: the drain comes to the same as one before the return followed by freeing
/// that buffer.
pub proof fn law_returned_buffer_is_freed(
    blocks: ArenaView,
    hdr: SharedHeader,
    recycle: Seq<u8>,
    buffer_id: u32,
    offset: u64,
    length: u32,
    status: u32,
)
    requires
        ring::is_ring(recycle, hdr.rec_capacity),
        hdr.rec_tail <= hdr.rec_head < u64::MAX,
        reader::can_return(hdr),
    ensures
        ({
            let h = reader::returned_header(hdr);
            let r = reader::returned_ring(hdr, recycle, buffer_id, offset, length, status);
            let after = books::drained(blocks, r, h.rec_head, h.rec_tail, h.rec_capacity);
            &&& after == allocator::released(
                books::drained(blocks, recycle, hdr.rec_head, hdr.rec_tail, hdr.rec_capacity),
                buffer_id,
            )
            &&& !after.used.contains_key(buffer_id)
        }),
{
    let head = hdr.rec_head;
    let tail = hdr.rec_tail;
    let cap = hdr.rec_capacity;
    let e = books::return_bytes((head + 1) as u64, buffer_id, status, offset, length);
    let r = reader::returned_ring(hdr, recycle, buffer_id, offset, length, status);
    books::law_return_entry_survives((head + 1) as u64, buffer_id, status, offset, length);
    ring::law_put_appends(recycle, head, tail, cap, e);
    let q0 = ring::queue(recycle, head, tail, cap);
    let q1 = ring::queue(r, (head + 1) as u64, tail, cap);
    assert forall|p: int| tail <= p < head implies #[trigger] desc::entry(r, ring::slot(p, cap))
        == desc::entry(recycle, ring::slot(p, cap)) by {
        assert(q1[p - tail] == q0.push(e)[p - tail]);
        assert(tail + (p - tail) == p);
    }
    assert(q1[head - tail] == e);
    assert(tail + (head - tail) == head);
    lemma_drained_push(blocks, recycle, r, head, tail, cap);
}

/// A consumer that takes a region over finds nothing waiting.
pub proof fn law_claim_skips_backlog(hdr: SharedHeader, ready: Seq<u8>, pid: u32, now: u64)
    ensures
        ({
            let h = reader::claimed(hdr, pid, now);
            ring::queue(ready, h.ready_head, h.ready_tail, h.ready_capacity).len() == 0
        }),
{
}

/// A consumer that has just taken a region over, with a nonzero process number and clock,
/// counts as present.
pub proof fn law_claimed_consumer_is_online(hdr: SharedHeader, pid: u32, now: u64, timeout_ns: u64)
    requires
        pid != 0,
        now != 0,
    ensures
        books::online(reader::claimed(hdr, pid, now), timeout_ns, now),
{
}

/// The low-latency policy: of three or more waiting frames the second-newest is the next
/// one, and of one or two the oldest.
pub proof fn law_latest_is_second_newest(hdr: SharedHeader, ready: Seq<u8>, recycle: Seq<u8>)
    requires
        ring::is_ring(ready, hdr.ready_capacity),
        hdr.ready_tail < hdr.ready_head,
    ensures
        ({
            let q = ring::queue(ready, hdr.ready_head, hdr.ready_tail, hdr.ready_capacity);
            let h = reader::caught_up(hdr, ready, recycle).0;
            &&& h.ready_head == hdr.ready_head
            &&& reader::next_frame(h, ready) == if q.len() >= 2 {
                desc::received(q[q.len() - 2])
            } else {
                desc::received(q[0])
            }
            &&& h.ready_tail - hdr.ready_tail == if q.len() >= 2 {
                q.len() - 2
            } else {
                0
            }
        }),
    decreases hdr.ready_head - hdr.ready_tail,
{
    let q = ring::queue(ready, hdr.ready_head, hdr.ready_tail, hdr.ready_capacity);
    assert(q[0] == desc::entry(ready, ring::slot(hdr.ready_tail as int, hdr.ready_capacity)));
    if hdr.ready_head - hdr.ready_tail > 2 {
        let (h, r) = reader::passed_over(hdr, ready, recycle);
        ring::law_take_removes_oldest(
            ready,
            hdr.ready_head,
            hdr.ready_tail,
            hdr.ready_capacity,
        );
        law_latest_is_second_newest(h, ready, r);
        let rest = ring::queue(ready, h.ready_head, h.ready_tail, h.ready_capacity);
        assert(rest == q.drop_first());
        assert(rest[rest.len() - 2] == q[q.len() - 2]);
    }
}

/// The words that the consumer alone writes.
pub open spec fn consumer_words(hdr: SharedHeader) -> (u32, u64, u64) {
    (hdr.consumer_owner_pid, hdr.consumer_heartbeat_ns, hdr.rec_head)
}

/// The words that the producer alone writes.
pub open spec fn producer_words(hdr: SharedHeader) -> (u32, u64, u64, u64, u64, u64, u64, u64, u64) {
    (
        hdr.state,
        hdr.producer_heartbeat_ns,
        hdr.ready_head,
        hdr.rec_tail,
        hdr.arena_used_bytes,
        hdr.arena_high_watermark,
        hdr.alloc_failures,
        hdr.timeline_seq,
        hdr.timeline_sink_mono_ns,
    )
}

/// The words that are written when the region is created, and never after.
pub open spec fn fixed_words(hdr: SharedHeader) -> (
    ([u8; 8], u16, u16, u32, u64, u64, u32),
    (u32, u32, u32, u32),
    (u64, u64, u64, u64),
) {
    (
        (
            hdr.magic,
            hdr.version_major,
            hdr.version_minor,
            hdr.header_size,
            hdr.total_size,
            hdr.features,
            hdr.owner_pid,
        ),
        (hdr.ready_capacity, hdr.ready_entry_size, hdr.rec_capacity, hdr.rec_entry_size),
        (hdr.ready_offset, hdr.recycle_offset, hdr.arena_offset, hdr.arena_size),
    )
}

/// The headers that the consumer's operations come to.
pub open spec fn consumer_results(
    hdr: SharedHeader,
    ready: Seq<u8>,
    recycle: Seq<u8>,
    pid: u32,
    now: u64,
) -> Seq<SharedHeader> {
    seq![
        reader::seen(hdr, now),
        reader::looked(hdr, ready, now).0,
        reader::looked(reader::caught_up(hdr, ready, recycle).0, ready, now).0,
        reader::seen(reader::returned_header(hdr), now),
        reader::claimed(hdr, pid, now),
        SharedHeader { consumer_owner_pid: 0, ..hdr },
    ]
}

/// The headers that the producer's operations come to.
pub open spec fn producer_results(
    b: Books,
    ready: Seq<u8>,
    recycle: Seq<u8>,
    size: u32,
    align: u64,
    id: u32,
    beacon_ns: u64,
    pts_ns: i64,
    now: u64,
) -> Seq<SharedHeader> {
    seq![
        b.drain(recycle, now).hdr,
        b.take(size, align).0.hdr,
        b.give_back(id).hdr,
        b.record_frame(now).hdr,
        b.take_live(ready, size, align).0.hdr,
        b.make_room(ready).hdr,
        b.emit_if_due(beacon_ns, pts_ns, now).hdr,
        b.count_failure().hdr,
        b.drop_oldest(ready).hdr,
        b.reset().hdr,
        b.emit(pts_ns, now).hdr,
        SharedHeader { producer_heartbeat_ns: now, ..b.hdr },
        SharedHeader { state: STATE_RUNNING, ..b.hdr },
        SharedHeader { state: STATE_STOPPED, ..b.hdr },
    ]
}

proof fn lemma_catching_up_keeps_words(hdr: SharedHeader, ready: Seq<u8>, recycle: Seq<u8>)
    ensures
        producer_words(reader::caught_up(hdr, ready, recycle).0) == producer_words(hdr),
        fixed_words(reader::caught_up(hdr, ready, recycle).0) == fixed_words(hdr),
    decreases hdr.ready_head - hdr.ready_tail,
{
    if hdr.ready_head - hdr.ready_tail > 2 {
        let (h, r) = reader::passed_over(hdr, ready, recycle);
        lemma_catching_up_keeps_words(h, ready, r);
    }
}

/// Nothing that the consumer does changes a word that belongs to the producer or to the
/// layout.
pub proof fn law_consumer_keeps_to_its_words(
    hdr: SharedHeader,
    ready: Seq<u8>,
    recycle: Seq<u8>,
    pid: u32,
    now: u64,
)
    ensures
        ({
            let results = consumer_results(hdr, ready, recycle, pid, now);
            forall|i: int|
                0 <= i < results.len() ==> producer_words(#[trigger] results[i]) == producer_words(
                    hdr,
                ) && fixed_words(results[i]) == fixed_words(hdr)
        }),
{
    lemma_catching_up_keeps_words(hdr, ready, recycle);
}

proof fn lemma_take_live_keeps_words(b: Books, ready: Seq<u8>, size: u32, align: u64)
    ensures
        consumer_words(b.take_live(ready, size, align).0.hdr) == consumer_words(b.hdr),
        fixed_words(b.take_live(ready, size, align).0.hdr) == fixed_words(b.hdr),
    decreases b.hdr.ready_head - b.hdr.ready_tail,
{
    if allocator::allocated(b.blocks, size, align) is None && b.hdr.ready_tail < b.hdr.ready_head {
        lemma_take_live_keeps_words(b.count_failure().drop_oldest(ready), ready, size, align);
    }
}

proof fn lemma_make_room_keeps_words(b: Books, ready: Seq<u8>)
    ensures
        consumer_words(b.make_room(ready).hdr) == consumer_words(b.hdr),
        fixed_words(b.make_room(ready).hdr) == fixed_words(b.hdr),
    decreases b.hdr.ready_head - b.hdr.ready_tail,
{
    if b.hdr.ready_tail < b.hdr.ready_head && !b.has_room() {
        lemma_make_room_keeps_words(b.drop_oldest(ready), ready);
    }
}

/// Nothing that the producer does changes a word that belongs to the consumer or to the
/// layout.
pub proof fn law_producer_keeps_to_its_words(
    b: Books,
    ready: Seq<u8>,
    recycle: Seq<u8>,
    size: u32,
    align: u64,
    id: u32,
    beacon_ns: u64,
    pts_ns: i64,
    now: u64,
)
    ensures
        ({
            let results = producer_results(
                b,
                ready,
                recycle,
                size,
                align,
                id,
                beacon_ns,
                pts_ns,
                now,
            );
            forall|i: int|
                0 <= i < results.len() ==> consumer_words(#[trigger] results[i]) == consumer_words(
                    b.hdr,
                ) && fixed_words(results[i]) == fixed_words(b.hdr)
        }),
{
    lemma_take_live_keeps_words(b, ready, size, align);
    lemma_make_room_keeps_words(b, ready);
}

/// A frame that is put behind the waiting ones in a block that is set apart holds that block.
pub proof fn law_block_set_apart_takes_frame(
    blocks: ArenaView,
    lease: AllocLease,
    waiting: Seq<Seq<u8>>,
    seq: u64,
    pts_ns: i64,
)
    requires
        frames_held(blocks, waiting),
        set_apart(blocks, lease, waiting),
    ensures
        frames_held(blocks, waiting.push(books::frame_bytes(seq, lease, pts_ns))),
{
    books::law_frame_entry_survives(seq, lease, pts_ns);
    let all = waiting.push(books::frame_bytes(seq, lease, pts_ns));
    assert forall|i: int| 0 <= i < all.len() implies ({
        let d = desc::received(#[trigger] all[i]);
        blocks.used.contains_key(d.buffer_id) && blocks.used[d.buffer_id] == (
            d.offset,
            d.len as u64,
        )
    }) by {
        if i < waiting.len() {
            assert(all[i] == waiting[i]);
        }
    }
    assert forall|i: int, j: int| 0 <= i < j < all.len() implies desc::received(
        #[trigger] all[i],
    ).buffer_id != desc::received(#[trigger] all[j]).buffer_id by {
        assert(all[i] == waiting[i]);
        if j < waiting.len() {
            assert(all[j] == waiting[j]);
        }
    }
}

/// A block that is taken is set apart from the waiting frames, and they keep theirs.
pub proof fn law_taken_block_is_set_apart(
    b: Books,
    waiting: Seq<Seq<u8>>,
    size: u32,
    align: u64,
)
    requires
        b.blocks.inv(),
        !b.blocks.used.contains_key(b.blocks.next_id),
        frames_held(b.blocks, waiting),
        b.take(size, align).1 is Some,
    ensures
        set_apart(b.take(size, align).0.blocks, b.take(size, align).1->0, waiting),
        frames_held(b.take(size, align).0.blocks, waiting),
{
    allocator::law_allocation(b.blocks, size, align);
    let (after, lease) = b.take(size, align);
    assert forall|i: int| 0 <= i < waiting.len() implies ({
        let d = desc::received(#[trigger] waiting[i]);
        &&& d.buffer_id != (lease->0).buffer_id
        &&& after.blocks.used.contains_key(d.buffer_id)
        &&& after.blocks.used[d.buffer_id] == (d.offset, d.len as u64)
    }) by {
        assert(b.blocks.used.contains_key(desc::received(waiting[i]).buffer_id));
    }
}

/// A header that a consumer accepts is accepted still after anything that the consumer
/// does.
pub proof fn law_consumer_keeps_header_acceptable(
    hdr: SharedHeader,
    ready: Seq<u8>,
    recycle: Seq<u8>,
    pid: u32,
    now: u64,
    total_size: u64,
)
    requires
        header::header_fault(hdr, total_size) is None,
    ensures
        ({
            let results = consumer_results(hdr, ready, recycle, pid, now);
            forall|i: int|
                0 <= i < results.len() ==> header::header_fault(
                    #[trigger] results[i],
                    total_size,
                ) is None
        }),
{
    law_consumer_keeps_to_its_words(hdr, ready, recycle, pid, now);
    let results = consumer_results(hdr, ready, recycle, pid, now);
    assert forall|i: int| 0 <= i < results.len() implies header::header_fault(
        #[trigger] results[i],
        total_size,
    ) is None by {
        assert(fixed_words(results[i]) == fixed_words(hdr));
    }
}

/// A header that a consumer accepts is accepted still after anything that the producer
/// does.
pub proof fn law_producer_keeps_header_acceptable(
    b: Books,
    ready: Seq<u8>,
    recycle: Seq<u8>,
    size: u32,
    align: u64,
    id: u32,
    beacon_ns: u64,
    pts_ns: i64,
    now: u64,
    total_size: u64,
)
    requires
        header::header_fault(b.hdr, total_size) is None,
    ensures
        ({
            let results = producer_results(
                b,
                ready,
                recycle,
                size,
                align,
                id,
                beacon_ns,
                pts_ns,
                now,
            );
            forall|i: int|
                0 <= i < results.len() ==> header::header_fault(
                    #[trigger] results[i],
                    total_size,
                ) is None
        }),
{
    law_producer_keeps_to_its_words(
        b,
        ready,
        recycle,
        size,
        align,
        id,
        beacon_ns,
        pts_ns,
        now,
    );
    let results = producer_results(b, ready, recycle, size, align, id, beacon_ns, pts_ns, now);
    assert forall|i: int| 0 <= i < results.len() implies header::header_fault(
        #[trigger] results[i],
        total_size,
    ) is None by {
        assert(fixed_words(results[i]) == fixed_words(b.hdr));
    }
}

/// After a frame was published the timeline is shown, and what it shows is younger than
/// the beacon's period.
pub proof fn law_timeline_is_fresh(b: Books, beacon_ns: u64, pts_ns: i64, now: u64)
    requires
        beacon_ns > 0,
    ensures
        ({
            let h = b.emit_if_due(beacon_ns, pts_ns, now).hdr;
            h.timeline_valid != 0 && books::later_by(now, h.timeline_sink_mono_ns) < beacon_ns
        }),
{
}

/// The first frame after a consumer took a region over begins its timeline: a snapshot of
/// the new generation is written with it.
pub proof fn law_attached_consumer_gets_timeline(
    hdr: SharedHeader,
    blocks: ArenaView,
    pid: u32,
    attached: u64,
    beacon_ns: u64,
    pts_ns: i64,
    now: u64,
)
    ensures
        ({
            let b = Books { hdr: reader::claimed(hdr, pid, attached), blocks };
            let h = b.emit_if_due(beacon_ns, pts_ns, now).hdr;
            &&& h.timeline_valid == 1
            &&& h.timeline_sink_mono_ns == now && h.timeline_producer_pts_ns == pts_ns
            &&& h.timeline_seq == books::wrapped_next(hdr.timeline_seq)
            &&& h.timeline_gen == books::wrapped_next(hdr.timeline_gen)
        }),
{
}

/// The high watermark never falls, and is never below what is in use when a frame has
/// just been published.
pub proof fn law_watermark_never_falls(b: Books, now: u64)
    ensures
        b.record_frame(now).hdr.arena_high_watermark >= b.hdr.arena_high_watermark,
        b.record_frame(now).hdr.arena_high_watermark >= b.record_frame(now).hdr.arena_used_bytes,
{
}

} // verus!
