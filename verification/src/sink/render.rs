//! What the sink does with a frame.

use crate::platform::ShmError;
use crate::sink::lending;
use crate::sink::lending::AllocTracker;
use crate::sink::settings::SinkSettings;
use crate::transport::books;
use crate::transport::books::{AllocLease, Books};
use crate::transport::consumer_calls;
use crate::transport::desc;
use crate::transport::header;
use crate::transport::header::{SharedHeader, TransportConfig};
use crate::transport::laws;
use crate::transport::ring;
use crate::transport::writer;
use crate::transport::writer::{LivePublish, Writer};
use vstd::prelude::*;

verus! {

/// Whether the sink takes frames.
#[derive(Debug)]
pub struct SinkState {
    pub settings: SinkSettings,
    pub started: bool,
    /// Frames are turned away, so that the stream can be flushed.
    pub unlocked: bool,
}

/// What comes of a frame.
#[derive(Debug, Clone, Copy)]
pub enum Rendered {
    /// The frame is published.
    Done,
    /// The sink takes no frames.
    Flushing,
    /// The frame is larger than the arena.
    Failed,
}

/// A sink that has started: the producer, and the blocks that upstream holds.
#[derive(Debug)]
pub struct SinkSession {
    pub writer: Writer,
    pub tracker: AllocTracker,
}

/// All that a frame can change.
#[verifier::ext_equal]
pub struct SinkView {
    pub books: Books,
    pub ready: Seq<u8>,
    pub arena: Seq<u8>,
    pub pending: Map<u64, AllocLease>,
}

/// A frame as it comes from upstream: its bytes, its time stamp, and where in the arena
/// it lies if it came in a lent block.
pub struct FrameView {
    pub payload: Seq<u8>,
    pub pts_ns: i64,
    pub own_block: Option<u64>,
}

/// The time stamp of a frame as it is published; -1 for none.
pub open spec fn frame_pts(pts: Option<u64>) -> i64 {
    match pts {
        Some(v) => v as i64,
        None => (-1) as i64,
    }
}

/// A frame of `len` bytes that came in the lent block at `at`; what its bytes are makes
/// no difference.
pub open spec fn lent_frame(len: nat, pts: Option<u64>, at: u64) -> FrameView {
    FrameView {
        payload: Seq::new(len, |i: int| 0u8),
        pts_ns: frame_pts(pts),
        own_block: Some(at),
    }
}

impl FrameView {
    /// The lent block that the frame fills.
    pub open spec fn lent(self, pending: Map<u64, AllocLease>) -> Option<AllocLease> {
        match self.own_block {
            Some(at) => lending::lent(pending, at, self.payload.len() as int),
            None => None,
        }
    }

    /// The lent blocks without the one that the frame fills.
    pub open spec fn left(self, pending: Map<u64, AllocLease>) -> Map<u64, AllocLease> {
        if self.lent(pending) is Some {
            pending.remove(self.own_block->0)
        } else {
            pending
        }
    }
}

impl SinkView {
    /// After a frame was published at once, with the oldest frames dropped where it needs
    /// their room. Only a frame larger than the arena fails. A reset of the arena takes the
    /// lent blocks with it.
    pub open spec fn live_turn(
        self,
        frame: FrameView,
        align: u64,
        beacon_ns: u64,
        recycle: Seq<u8>,
        now: u64,
    ) -> (SinkView, Rendered) {
        match frame.lent(self.pending) {
            Some(lease) => {
                let room = self.books.make_room(self.ready);
                (
                    SinkView {
                        books: room.record_frame(now).emit_if_due(beacon_ns, frame.pts_ns, now),
                        ready: room.ready_with(self.ready, lease, frame.pts_ns),
                        pending: frame.left(self.pending),
                        ..self
                    },
                    Rendered::Done,
                )
            },
            None => if frame.payload.len() > self.books.blocks.total {
                (
                    SinkView { books: self.books.drain(recycle, now).count_failure(), ..self },
                    Rendered::Failed,
                )
            } else {
                let (taken, reset, lease) = self.books.drain(recycle, now).take_live(
                    self.ready,
                    frame.payload.len() as u32,
                    align,
                );
                let room = taken.make_room(self.ready);
                (
                    SinkView {
                        books: room.record_frame(now).emit_if_due(beacon_ns, frame.pts_ns, now),
                        ready: room.ready_with(self.ready, lease->0, frame.pts_ns),
                        arena: books::with_payload(
                            self.arena,
                            (lease->0).offset as int,
                            frame.payload,
                        ),
                        pending: if reset {
                            Map::empty()
                        } else {
                            self.pending
                        },
                        ..self
                    },
                    Rendered::Done,
                )
            },
        }
    }

    /// After a frame came: a sink that takes frames publishes it at once.
    pub open spec fn turn(
        self,
        state: SinkState,
        frame: FrameView,
        align: u64,
        beacon_ns: u64,
        recycle: Seq<u8>,
        now: u64,
    ) -> (SinkView, Rendered) {
        if state.unlocked || !state.started {
            (self, Rendered::Flushing)
        } else {
            self.live_turn(frame, align, beacon_ns, recycle, now)
        }
    }
}

impl SinkState {
    /// A sink that has not started.
    pub fn new(settings: SinkSettings) -> (r: SinkState)
        ensures
            r == (SinkState { settings, started: false, unlocked: false }),
    {
        SinkState { settings, started: false, unlocked: false }
    }

    /// Notes that the sink has started.
    pub fn start(&mut self)
        ensures
            *final(self) == (SinkState { started: true, unlocked: false, ..*old(self) }),
    {
        self.started = true;
        self.unlocked = false;
    }

    /// Notes that the sink has stopped.
    pub fn stop(&mut self)
        ensures
            *final(self) == (SinkState { started: false, unlocked: false, ..*old(self) }),
    {
        self.started = false;
        self.unlocked = false;
    }

    /// Turns frames away from now on.
    pub fn unlock(&mut self)
        ensures
            *final(self) == (SinkState { unlocked: true, ..*old(self) }),
    {
        self.unlocked = true;
    }

    /// Takes frames again.
    pub fn unlock_stop(&mut self)
        ensures
            *final(self) == (SinkState { unlocked: false, ..*old(self) }),
    {
        self.unlocked = false;
    }
}

/// The time stamp with which a frame is published.
pub fn published_pts(pts: Option<u64>) -> (r: i64)
    ensures
        r == frame_pts(pts),
{
    match pts {
        Some(v) => v as i64,
        None => -1,
    }
}

impl SinkSession {
    /// All that a frame can change.
    pub open spec fn view_with(
        &self,
        hdr: SharedHeader,
        ready: Seq<u8>,
        arena: Seq<u8>,
    ) -> SinkView {
        SinkView { books: self.writer.books(hdr), ready, arena, pending: self.tracker@ }
    }

    /// Sets up a region of `region_len` bytes and starts the producer in it.
    pub fn start(settings: &SinkSettings, region_len: usize, pid: u32, now: u64) -> (r: Result<
        (SinkSession, SharedHeader),
        ShmError,
    >)
        ensures
            match r {
                Ok((s, hdr)) => {
                    &&& header::layout_fault(region_len, 4096, 4096) is None
                    &&& exists|l: header::Layout| #[trigger]
                        l.is_of(region_len, 4096, 4096) && hdr == header::initial_header(
                            settings.asks(),
                            l,
                            pid,
                            now,
                        )
                    &&& s.writer.wf()
                    &&& s.writer.arena() == crate::allocator::fresh(hdr.arena_size, 1)
                    &&& s.writer.settings() == (
                        region_len,
                        64u64,
                        (settings.timeline_beacon_ms * 1_000_000) as u64,
                    )
                    &&& s.tracker@ == Map::<u64, AllocLease>::empty()
                },
                Err(e) => header::layout_fault(region_len, 4096, 4096) matches Some(words)
                    && e.is_config(words),
            },
    {
        let cfg = settings.transport_config();
        match Writer::create(region_len, &cfg, pid, now) {
            Ok((writer, hdr)) => {
                let mut hdr: SharedHeader = hdr;
                writer.set_running(&mut hdr);
                Ok((SinkSession { writer, tracker: AllocTracker::new() }, hdr))
            },
            Err(e) => Err(e),
        }
    }

    fn render_live(
        &mut self,
        hdr: &mut SharedHeader,
        ready: &mut [u8],
        recycle: &[u8],
        arena: &mut [u8],
        payload: &[u8],
        pts_ns: i64,
        own_block: Option<u64>,
        now: u64,
    ) -> (r: Rendered)
        requires
            old(self).writer.wf(),
            old(self).writer.books(*old(hdr)).drainable(recycle@),
            ring::is_ring(old(ready)@, old(hdr).ready_capacity),
            old(hdr).ready_tail <= old(hdr).ready_head < u64::MAX,
            payload@.len() <= u32::MAX,
            old(arena)@.len() >= old(self).writer.arena().total,
            (FrameView { payload: payload@, pts_ns, own_block }).lent(old(self).tracker@) is None,
        ensures
            final(self).writer.wf(),
            final(self).writer.settings() == old(self).writer.settings(),
            final(self).writer.arena().total == old(self).writer.arena().total,
            final(ready)@.len() == old(ready)@.len(),
            final(arena)@.len() == old(arena)@.len(),
            (final(self).view_with(*final(hdr), final(ready)@, final(arena)@), r) == old(
                self,
            ).view_with(*old(hdr), old(ready)@, old(arena)@).live_turn(
                (FrameView { payload: payload@, pts_ns, own_block }),
                old(self).writer.settings().1,
                old(self).writer.settings().2,
                recycle@,
                now,
            ),
    {
        match self.writer.publish_live(hdr, ready, recycle, arena, payload, pts_ns, now) {
            Ok(published) => {
                if published.reset {
                    self.tracker.clear();
                }
                Rendered::Done
            },
            Err(_) => Rendered::Failed,
        }
    }

    /// Publishes a frame of `len` bytes that fills the lent block at `at`. Its bytes stay
    /// where they are.
    pub fn render_lent(
        &mut self,
        state: &SinkState,
        hdr: &mut SharedHeader,
        ready: &mut [u8],
        recycle: &[u8],
        at: u64,
        len: usize,
        pts: Option<u64>,
        now: u64,
    ) -> (r: Rendered)
        requires
            old(self).writer.wf(),
            old(self).writer.books(*old(hdr)).drainable(recycle@),
            ring::is_ring(old(ready)@, old(hdr).ready_capacity),
            old(hdr).ready_tail <= old(hdr).ready_head < u64::MAX,
            lending::lent(old(self).tracker@, at, len as int) is Some,
        ensures
            final(self).writer.wf(),
            final(self).writer.settings() == old(self).writer.settings(),
            final(self).writer.arena().total == old(self).writer.arena().total,
            final(ready)@.len() == old(ready)@.len(),
            forall|arena: Seq<u8>|
                (#[trigger] final(self).view_with(*final(hdr), final(ready)@, arena), r) == old(
                    self,
                ).view_with(*old(hdr), old(ready)@, arena).turn(
                    *state,
                    lent_frame(len as nat, pts, at),
                    old(self).writer.settings().1,
                    old(self).writer.settings().2,
                    recycle@,
                    now,
                ),
            (final(self).view_with(*final(hdr), final(ready)@, Seq::empty()), r) == old(
                self,
            ).view_with(*old(hdr), old(ready)@, Seq::empty()).turn(
                *state,
                lent_frame(len as nat, pts, at),
                old(self).writer.settings().1,
                old(self).writer.settings().2,
                recycle@,
                now,
            ),
    {
        let pts_ns: i64 = published_pts(pts);
        if state.unlocked || !state.started {
            return Rendered::Flushing;
        }
        match self.tracker.mark_published(at, len) {
            Some(lease) => {
                let _ = self.writer.enqueue_live(hdr, ready, lease, pts_ns, now);
                Rendered::Done
            },
            None => {
                assert(false);
                Rendered::Failed
            },
        }
    }

    /// Publishes a frame, unless the sink takes none.
    ///
    /// `own_block` tells where in the arena the frame begins, when it came in a single
    /// block that was lent to upstream.
    pub fn render(
        &mut self,
        state: &SinkState,
        hdr: &mut SharedHeader,
        ready: &mut [u8],
        recycle: &[u8],
        arena: &mut [u8],
        payload: &[u8],
        pts: Option<u64>,
        own_block: Option<u64>,
        now: u64,
    ) -> (r: Rendered)
        requires
            old(self).writer.wf(),
            old(self).writer.books(*old(hdr)).drainable(recycle@),
            ring::is_ring(old(ready)@, old(hdr).ready_capacity),
            old(hdr).ready_tail <= old(hdr).ready_head < u64::MAX,
            payload@.len() <= u32::MAX,
            old(arena)@.len() >= old(self).writer.arena().total,
        ensures
            final(self).writer.wf(),
            final(self).writer.settings() == old(self).writer.settings(),
            final(self).writer.arena().total == old(self).writer.arena().total,
            final(ready)@.len() == old(ready)@.len(),
            final(arena)@.len() == old(arena)@.len(),
            (final(self).view_with(*final(hdr), final(ready)@, final(arena)@), r) == old(
                self,
            ).view_with(*old(hdr), old(ready)@, old(arena)@).turn(
                *state,
                (FrameView { payload: payload@, pts_ns: frame_pts(pts), own_block }),
                old(self).writer.settings().1,
                old(self).writer.settings().2,
                recycle@,
                now,
            ),
    {
        let pts_ns: i64 = published_pts(pts);
        if let Some(at) = own_block {
            let len: usize = payload.len();
            if self.tracker.is_lent(at, len) {
                return self.render_lent(state, hdr, ready, recycle, at, len, pts, now);
            }
        }
        if state.unlocked || !state.started {
            return Rendered::Flushing;
        }
        self.render_live(hdr, ready, recycle, arena, payload, pts_ns, own_block, now)
    }
}

/// The sink never makes upstream wait, whether a consumer is there or not: it turns a frame
/// away exactly when it takes none, it fails exactly on a frame that it would have to copy
/// and that is larger than the arena, and any other frame is published.
pub proof fn law_sink_never_waits(
    v: SinkView,
    state: SinkState,
    frame: FrameView,
    align: u64,
    beacon_ns: u64,
    recycle: Seq<u8>,
    now: u64,
)
    ensures
        ({
            let r = v.turn(state, frame, align, beacon_ns, recycle, now).1;
            let taken = state.started && !state.unlocked;
            let fails = frame.lent(v.pending) is None && frame.payload.len() > v.books.blocks.total;
            &&& r is Flushing <==> !taken
            &&& r is Failed <==> taken && fails
            &&& r is Done <==> taken && !fails
        }),
{
}

/// A frame that is published waits as the newest frame in the ready ring, in its own block
/// or in a copy.
pub proof fn law_live_sink_publishes(
    v: SinkView,
    frame: FrameView,
    align: u64,
    beacon_ns: u64,
    recycle: Seq<u8>,
    now: u64,
)
    requires
        v.books.blocks.inv(),
        ring::is_ring(v.ready, v.books.hdr.ready_capacity),
        v.books.hdr.ready_tail <= v.books.hdr.ready_head < u64::MAX,
        v.live_turn(frame, align, beacon_ns, recycle, now).1 is Done,
    ensures
        ({
            let after = v.live_turn(frame, align, beacon_ns, recycle, now).0;
            let q = after.books.waiting(after.ready);
            &&& after.books.hdr.ready_head == v.books.hdr.ready_head + 1
            &&& q.len() > 0
            &&& exists|lease: AllocLease| #[trigger]
                books::frame_bytes(after.books.hdr.ready_head, lease, frame.pts_ns) == q.last()
                    && (frame.lent(v.pending) is Some ==> frame.lent(v.pending) == Some(lease))
                    && (frame.lent(v.pending) is None && frame.payload.len() <= u32::MAX
                    && v.books.blocks.total <= v.arena.len() ==> after.arena.subrange(
                    lease.offset as int,
                    lease.offset + frame.payload.len(),
                ) == frame.payload)
        }),
{
    let after = v.live_turn(frame, align, beacon_ns, recycle, now).0;
    match frame.lent(v.pending) {
        Some(lease) => {
            let room = v.books.make_room(v.ready);
            books::law_room_is_made(v.books, v.ready);
            laws::law_frames_wait_in_order(room, v.ready, lease, frame.pts_ns, now);
            assert(books::frame_bytes(after.books.hdr.ready_head, lease, frame.pts_ns)
                == after.books.waiting(after.ready).last());
        },
        None => {
            let drained = v.books.drain(recycle, now);
            let size = frame.payload.len() as u32;
            let (taken, reset, l) = drained.take_live(v.ready, size, align);
            let room = taken.make_room(v.ready);
            let lease = l->0;
            books::law_drain_keeps_arena(
                v.books.blocks,
                recycle,
                v.books.hdr.rec_head,
                v.books.hdr.rec_tail,
                v.books.hdr.rec_capacity,
            );
            books::law_live_request_is_served(drained, v.ready, size, align);
            writer::lemma_take_live_keeps_capacity(drained, v.ready, size, align);
            books::law_room_is_made(taken, v.ready);
            laws::law_frames_wait_in_order(room, v.ready, lease, frame.pts_ns, now);
            assert(books::frame_bytes(after.books.hdr.ready_head, lease, frame.pts_ns)
                == after.books.waiting(after.ready).last());
            if frame.payload.len() <= u32::MAX && v.books.blocks.total <= v.arena.len() {
                assert(after.arena.subrange(
                    lease.offset as int,
                    lease.offset + frame.payload.len(),
                ) =~= frame.payload);
            }
        },
    }
}

/// What a published frame leaves of the blocks in use. The frames that wait afterwards are
/// the newest of those that waited, with the new frame behind; each holds a block of its own,
/// and the payloads of the older ones are as they were. While the timeline goes on, the same
/// holds of the blocks that others hold: frames that the consumer has taken, and blocks that
/// are lent to upstream.
pub open spec fn spared(v: SinkView, after: SinkView, others: Seq<Seq<u8>>) -> bool {
    let before = v.books.waiting(v.ready);
    let q = after.books.waiting(after.ready);
    let n = after.books.hdr.ready_tail - v.books.hdr.ready_tail;
    &&& q.drop_last() == before.skip(n)
    &&& laws::frames_held(after.books.blocks, q)
    &&& forall|i: int|
        n <= i < before.len() ==> laws::payload_of(
            after.arena,
            desc::received(#[trigger] before[i]),
        ) == laws::payload_of(v.arena, desc::received(before[i]))
    &&& after.books.hdr.timeline_gen == v.books.hdr.timeline_gen ==> laws::frames_held(
        after.books.blocks,
        q + others,
    )
    &&& after.books.hdr.timeline_gen == v.books.hdr.timeline_gen ==> forall|i: int|
        0 <= i < others.len() ==> laws::payload_of(
            after.arena,
            desc::received(#[trigger] others[i]),
        ) == laws::payload_of(v.arena, desc::received(others[i]))
}

/// What must hold before a frame is published: the waiting frames and those that others hold
/// have blocks of their own, and the producer's books are in order. A lent block that is
/// published is none of theirs; for a copied frame, none of theirs is on its way back.
pub open spec fn at_rest(
    v: SinkView,
    frame: FrameView,
    recycle: Seq<u8>,
    others: Seq<Seq<u8>>,
) -> bool {
    let held = v.books.waiting(v.ready) + others;
    &&& v.books.blocks.inv()
    &&& ring::is_ring(v.ready, v.books.hdr.ready_capacity)
    &&& v.books.hdr.ready_tail <= v.books.hdr.ready_head < u64::MAX
    &&& laws::frames_held(v.books.blocks, held)
    &&& match frame.lent(v.pending) {
        Some(lease) => laws::set_apart(v.books.blocks, lease, held),
        None => {
            &&& !v.books.blocks.used.contains_key(v.books.blocks.next_id)
            &&& frame.payload.len() <= u32::MAX
            &&& frame.payload.len() <= v.books.blocks.total <= v.arena.len()
            &&& forall|p: int, i: int|
                v.books.hdr.rec_tail <= p < v.books.hdr.rec_head && 0 <= i < held.len()
                    ==> desc::recycled_id(
                    #[trigger] desc::entry(recycle, ring::slot(p, v.books.hdr.rec_capacity)),
                ) != desc::received(#[trigger] held[i]).buffer_id
        },
    }
}

/// A frame that is published drops frames from the oldest on and spares the others, whether
/// it is copied or fills a lent block. Nothing that the consumer has taken or that upstream
/// fills is touched, unless the arena is reset and a new timeline begins.
pub proof fn law_sink_spares_frames(
    v: SinkView,
    frame: FrameView,
    others: Seq<Seq<u8>>,
    align: u64,
    beacon_ns: u64,
    recycle: Seq<u8>,
    now: u64,
)
    requires
        at_rest(v, frame, recycle, others),
    ensures
        spared(v, v.live_turn(frame, align, beacon_ns, recycle, now).0, others),
{
    match frame.lent(v.pending) {
        Some(lease) => lemma_lent_frame_spares(v, frame, others, align, beacon_ns, recycle, now),
        None => lemma_copied_frame_spares(v, frame, others, align, beacon_ns, recycle, now),
    }
}

/// The blocks are held after room was made for the newest frame and it was put in.
proof fn lemma_newest_is_held(
    taken: Books,
    ready: Seq<u8>,
    others: Seq<Seq<u8>>,
    lease: AllocLease,
    pts_ns: i64,
    now: u64,
)
    requires
        taken.blocks.inv(),
        ring::is_ring(ready, taken.hdr.ready_capacity),
        taken.hdr.ready_tail <= taken.hdr.ready_head < u64::MAX,
        laws::frames_held(
            taken.blocks,
            taken.waiting(ready).push(
                books::frame_bytes((taken.hdr.ready_head + 1) as u64, lease, pts_ns),
            ) + others,
        ),
    ensures
        ({
            let room = taken.make_room(ready);
            let after = room.record_frame(now);
            let all = after.waiting(room.ready_with(ready, lease, pts_ns));
            &&& all.drop_last() == taken.waiting(ready).skip(
                room.hdr.ready_tail - taken.hdr.ready_tail,
            )
            &&& all.len() > 0
            &&& laws::frames_held(after.blocks, all + others)
        }),
{
    let e = books::frame_bytes((taken.hdr.ready_head + 1) as u64, lease, pts_ns);
    let q = taken.waiting(ready);
    let room = taken.make_room(ready);
    assert(q.push(e) + others =~= q + (seq![e] + others));
    laws::law_making_room_spares_frames(taken, ready, seq![e] + others);
    books::law_room_is_made(taken, ready);
    laws::law_frames_wait_in_order(room, ready, lease, pts_ns, now);
    let all = room.record_frame(now).waiting(room.ready_with(ready, lease, pts_ns));
    assert(all =~= room.waiting(ready).push(e));
    assert(all.drop_last() =~= room.waiting(ready));
    assert(all + others =~= room.waiting(ready) + (seq![e] + others));
}

proof fn lemma_lent_frame_spares(
    v: SinkView,
    frame: FrameView,
    others: Seq<Seq<u8>>,
    align: u64,
    beacon_ns: u64,
    recycle: Seq<u8>,
    now: u64,
)
    requires
        at_rest(v, frame, recycle, others),
        frame.lent(v.pending) is Some,
    ensures
        spared(v, v.live_turn(frame, align, beacon_ns, recycle, now).0, others),
{
    let lease = frame.lent(v.pending)->0;
    let before = v.books.waiting(v.ready);
    let seq = (v.books.hdr.ready_head + 1) as u64;
    let e = books::frame_bytes(seq, lease, frame.pts_ns);
    let held = before + others;
    laws::law_block_set_apart_takes_frame(v.books.blocks, lease, held, seq, frame.pts_ns);
    laws::lemma_held_with_newest(v.books.blocks, before, others, e);
    books::law_room_is_made(v.books, v.ready);
    lemma_newest_is_held(v.books, v.ready, others, lease, frame.pts_ns, now);
    let after = v.live_turn(frame, align, beacon_ns, recycle, now).0;
    let all = after.books.waiting(after.ready);
    assert(all == all.drop_last().push(all.last()));
    laws::lemma_held_with_newest(after.books.blocks, all.drop_last(), others, all.last());
}

proof fn lemma_copied_frame_spares(
    v: SinkView,
    frame: FrameView,
    others: Seq<Seq<u8>>,
    align: u64,
    beacon_ns: u64,
    recycle: Seq<u8>,
    now: u64,
)
    requires
        at_rest(v, frame, recycle, others),
        frame.lent(v.pending) is None,
    ensures
        spared(v, v.live_turn(frame, align, beacon_ns, recycle, now).0, others),
{
    let drained = v.books.drain(recycle, now);
    let size = frame.payload.len() as u32;
    let (taken, reset, l) = drained.take_live(v.ready, size, align);
    let room = taken.make_room(v.ready);
    let lease = l->0;
    let before = v.books.waiting(v.ready);
    let seq = (v.books.hdr.ready_head + 1) as u64;
    let e = books::frame_bytes(seq, lease, frame.pts_ns);
    let hdr = v.books.hdr;
    books::law_drain_keeps_arena(
        v.books.blocks,
        recycle,
        hdr.rec_head,
        hdr.rec_tail,
        hdr.rec_capacity,
    );
    books::law_drain_adds_nothing(
        v.books.blocks,
        recycle,
        hdr.rec_head,
        hdr.rec_tail,
        hdr.rec_capacity,
        v.books.blocks.next_id,
    );
    laws::law_draining_spares_frames(
        v.books.blocks,
        recycle,
        hdr.rec_head,
        hdr.rec_tail,
        hdr.rec_capacity,
        before + others,
    );
    laws::law_live_publishing_spares_frames(
        drained,
        v.ready,
        others,
        v.arena,
        frame.payload,
        align,
        seq,
        frame.pts_ns,
    );
    books::law_live_request_is_served(drained, v.ready, size, align);
    writer::lemma_take_live_keeps_capacity(drained, v.ready, size, align);
    books::law_room_is_made(taken, v.ready);
    let q = taken.waiting(v.ready);
    let kept = if reset {
        Seq::<Seq<u8>>::empty()
    } else {
        others
    };
    if reset {
        assert(q.push(e) + kept =~= q.push(e));
    }
    lemma_newest_is_held(taken, v.ready, kept, lease, frame.pts_ns, now);
    let after = v.live_turn(frame, align, beacon_ns, recycle, now).0;
    let all = after.books.waiting(after.ready);
    assert(all == all.drop_last().push(all.last()));
    laws::lemma_held_with_newest(after.books.blocks, all.drop_last(), kept, all.last());
    let first = taken.hdr.ready_tail - hdr.ready_tail;
    let more = room.hdr.ready_tail - taken.hdr.ready_tail;
    assert(before.skip(first).skip(more) =~= before.skip(first + more));
    assert forall|i: int| first + more <= i < before.len() implies laws::payload_of(
        after.arena,
        desc::received(#[trigger] before[i]),
    ) == laws::payload_of(v.arena, desc::received(before[i])) by {
        assert(q[i - first] == before[i]);
    }
}

/// A frame that fills a lent block is published without a look at its bytes, and none of
/// the arena's bytes is moved.
pub proof fn law_lent_frame_is_not_copied(
    v: SinkView,
    state: SinkState,
    frame: FrameView,
    other: Seq<u8>,
    align: u64,
    beacon_ns: u64,
    recycle: Seq<u8>,
    now: u64,
)
    requires
        frame.lent(v.pending) is Some,
        other.len() == frame.payload.len(),
    ensures
        v.turn(state, frame, align, beacon_ns, recycle, now) == v.turn(
            state,
            (FrameView { payload: other, ..frame }),
            align,
            beacon_ns,
            recycle,
            now,
        ),
        v.turn(state, frame, align, beacon_ns, recycle, now).0.arena == v.arena,
{
}

/// A sink that takes no frames changes nothing.
pub proof fn law_flushing_changes_nothing(
    v: SinkView,
    state: SinkState,
    frame: FrameView,
    align: u64,
    beacon_ns: u64,
    recycle: Seq<u8>,
    now: u64,
)
    requires
        state.unlocked || !state.started,
    ensures
        v.turn(state, frame, align, beacon_ns, recycle, now) == (v, Rendered::Flushing),
{
}

/// A frame's time stamp is published as the number that it is, and a frame without one is
/// published with a negative one, which is none, as is one beyond the signed numbers.
pub proof fn law_time_stamp_is_published_as_it_is(pts: Option<u64>, r: i64)
    requires
        call_ensures(published_pts, (pts,), r),
    ensures
        pts is Some && pts->0 <= i64::MAX ==> r == pts->0,
        pts is Some && pts->0 > i64::MAX ==> r == pts->0 - 0x1_0000_0000_0000_0000,
        pts is None ==> r == -1,
{
    if pts is Some {
        let v = pts->0;
        assert(v > 0x7fff_ffff_ffff_ffff ==> (v as i64) == v - 0x1_0000_0000_0000_0000)
            by (bit_vector);
    }
}

/// What a sink that takes frames does with one that fills no lent block is to publish its
/// bytes at once, with its time stamp; a frame that this refuses fails. A reset takes the
/// lent blocks along, and nothing else does.
pub proof fn law_copied_frame_is_published_at_once(
    s: &mut SinkSession,
    state: &SinkState,
    hdr: &mut SharedHeader,
    ready: &mut [u8],
    recycle: &[u8],
    arena: &mut [u8],
    payload: &[u8],
    pts: Option<u64>,
    own_block: Option<u64>,
    now: u64,
    r: Rendered,
    w: &mut Writer,
    same: &mut SharedHeader,
    ring: &mut [u8],
    bytes: &mut [u8],
    pts_ns: i64,
    q: Result<LivePublish, ShmError>,
)
    requires
        state.started && !state.unlocked,
        own_block matches Some(at) ==> lending::lent(
            old(s).tracker@,
            at,
            payload@.len() as int,
        ) is None,
        payload@.len() <= u32::MAX,
        *old(w) == old(s).writer && *old(same) == *old(hdr),
        old(ring)@ == old(ready)@ && old(bytes)@ == old(arena)@,
        call_ensures(
            SinkSession::render,
            (s, state, hdr, ready, recycle, arena, payload, pts, own_block, now),
            r,
        ),
        call_ensures(published_pts, (pts,), pts_ns),
        call_ensures(
            Writer::publish_live,
            (w, same, ring, recycle, bytes, payload, pts_ns, now),
            q,
        ),
    ensures
        *final(hdr) == *final(same),
        final(ready)@ == final(ring)@,
        final(arena)@ == final(bytes)@,
        final(s).writer.arena() == final(w).arena(),
        match q {
            Ok(p) => r is Done && final(s).tracker@ == if p.reset {
                Map::<u64, AllocLease>::empty()
            } else {
                old(s).tracker@
            },
            Err(_) => r is Failed && final(s).tracker@ == old(s).tracker@,
        },
{
    assert(final(s).view_with(*final(hdr), final(ready)@, final(arena)@).books.hdr == *final(hdr));
    assert(final(w).books(*final(same)).hdr == *final(same));
    assert(final(w).books(*final(same)).blocks == final(w).arena());
    assert(final(s).view_with(*final(hdr), final(ready)@, final(arena)@).books.blocks
        == final(s).writer.arena());
}

/// What a sink that takes frames does with one that fills a lent block is to publish that
/// block at once, with the frame's time stamp and with its bytes where they are; it alone is
/// no longer lent.
pub proof fn law_lent_frame_is_published_at_once(
    s: &mut SinkSession,
    state: &SinkState,
    hdr: &mut SharedHeader,
    ready: &mut [u8],
    recycle: &[u8],
    arena: &mut [u8],
    payload: &[u8],
    pts: Option<u64>,
    at: u64,
    now: u64,
    r: Rendered,
    lease: AllocLease,
    w: &mut Writer,
    same: &mut SharedHeader,
    ring: &mut [u8],
    pts_ns: i64,
    n: u64,
)
    requires
        state.started && !state.unlocked,
        old(s).tracker@.contains_key(at) && old(s).tracker@[at] == lease,
        lease.len == payload@.len(),
        *old(w) == old(s).writer && *old(same) == *old(hdr),
        old(ring)@ == old(ready)@,
        call_ensures(
            SinkSession::render,
            (s, state, hdr, ready, recycle, arena, payload, pts, Some(at), now),
            r,
        ),
        call_ensures(published_pts, (pts,), pts_ns),
        call_ensures(Writer::enqueue_live, (w, same, ring, lease, pts_ns, now), n),
    ensures
        r is Done,
        *final(hdr) == *final(same),
        final(ready)@ == final(ring)@,
        final(arena)@ == old(arena)@,
        final(s).writer.arena() == final(w).arena(),
        final(s).tracker@ == old(s).tracker@.remove(at),
{
    assert(final(s).view_with(*final(hdr), final(ready)@, final(arena)@).books.hdr == *final(hdr));
    assert(final(w).books(*final(same)).hdr == *final(same));
    assert(final(w).books(*final(same)).blocks == final(w).arena());
    assert(final(s).view_with(*final(hdr), final(ready)@, final(arena)@).books.blocks
        == final(s).writer.arena());
    assert(final(s).view_with(*final(hdr), final(ready)@, final(arena)@).arena == final(arena)@);
    assert(final(s).view_with(*final(hdr), final(ready)@, final(arena)@).ready == final(ready)@);
    assert(final(s).view_with(*final(hdr), final(ready)@, final(arena)@).pending
        == final(s).tracker@);
}

/// A sink that was not started or is being flushed turns every frame away, and touches
/// nothing.
pub proof fn law_flushed_frame_touches_nothing(
    s: &mut SinkSession,
    state: &SinkState,
    hdr: &mut SharedHeader,
    ready: &mut [u8],
    recycle: &[u8],
    arena: &mut [u8],
    payload: &[u8],
    pts: Option<u64>,
    own_block: Option<u64>,
    now: u64,
    r: Rendered,
)
    requires
        state.unlocked || !state.started,
        call_ensures(
            SinkSession::render,
            (s, state, hdr, ready, recycle, arena, payload, pts, own_block, now),
            r,
        ),
    ensures
        r is Flushing,
        *final(hdr) == *old(hdr),
        final(ready)@ == old(ready)@,
        final(arena)@ == old(arena)@,
        final(s).writer.arena() == old(s).writer.arena(),
        final(s).tracker@ == old(s).tracker@,
{
    assert(final(s).view_with(*final(hdr), final(ready)@, final(arena)@).books.hdr == *final(hdr));
    assert(final(s).view_with(*final(hdr), final(ready)@, final(arena)@).books.blocks
        == final(s).writer.arena());
    assert(final(s).view_with(*final(hdr), final(ready)@, final(arena)@).arena == final(arena)@);
    assert(final(s).view_with(*final(hdr), final(ready)@, final(arena)@).ready == final(ready)@);
    assert(final(s).view_with(*final(hdr), final(ready)@, final(arena)@).pending
        == final(s).tracker@);
}

/// A frame that is published is told to the consumer with the time stamp that it has.
pub proof fn law_consumer_is_told_the_time_stamp(
    s: &mut SinkSession,
    state: &SinkState,
    hdr: &mut SharedHeader,
    ready: &mut [u8],
    recycle: &[u8],
    arena: &mut [u8],
    payload: &[u8],
    pts: Option<u64>,
    own_block: Option<u64>,
    now: u64,
    r: Rendered,
)
    requires
        old(s).writer.wf(),
        old(s).writer.books(*old(hdr)).drainable(recycle@),
        ring::is_ring(old(ready)@, old(hdr).ready_capacity),
        old(hdr).ready_tail <= old(hdr).ready_head < u64::MAX,
        payload@.len() <= u32::MAX,
        r is Done,
        call_ensures(
            SinkSession::render,
            (s, state, hdr, ready, recycle, arena, payload, pts, own_block, now),
            r,
        ),
    ensures
        ({
            let d = desc::received(
                consumer_calls::cell(
                    final(ready)@,
                    old(hdr).ready_head as int,
                    old(hdr).ready_capacity,
                ),
            );
            &&& final(hdr).ready_head == old(hdr).ready_head + 1
            &&& d.seq == old(hdr).ready_head + 1
            &&& d.len == payload@.len()
            &&& pts matches Some(v) ==> v <= i64::MAX ==> d.pts_ns == v && d.dts_ns == v
            &&& pts is None ==> d.pts_ns == -1
        }),
{
    let v = old(s).view_with(*old(hdr), old(ready)@, old(arena)@);
    let frame = FrameView { payload: payload@, pts_ns: frame_pts(pts), own_block };
    let beacon = old(s).writer.settings().2;
    let align = old(s).writer.settings().1;
    law_live_sink_publishes(v, frame, align, beacon, recycle@, now);
    let after = v.live_turn(frame, align, beacon, recycle@, now).0;
    assert(after == final(s).view_with(*final(hdr), final(ready)@, final(arena)@));
    assert(after.ready == final(ready)@ && after.books.hdr == *final(hdr));
    lemma_newest_is_told(v, frame, align, beacon, recycle@, now);
}

proof fn lemma_newest_is_told(
    v: SinkView,
    frame: FrameView,
    align: u64,
    beacon_ns: u64,
    recycle: Seq<u8>,
    now: u64,
)
    requires
        v.books.blocks.inv(),
        ring::is_ring(v.ready, v.books.hdr.ready_capacity),
        v.books.hdr.ready_tail <= v.books.hdr.ready_head < u64::MAX,
        frame.payload.len() <= u32::MAX,
        v.live_turn(frame, align, beacon_ns, recycle, now).1 is Done,
    ensures
        ({
            let after = v.live_turn(frame, align, beacon_ns, recycle, now).0;
            let d = desc::received(
                consumer_calls::cell(
                    after.ready,
                    v.books.hdr.ready_head as int,
                    v.books.hdr.ready_capacity,
                ),
            );
            &&& d.seq == v.books.hdr.ready_head + 1
            &&& d.len == frame.payload.len()
            &&& d.pts_ns == frame.pts_ns && d.dts_ns == frame.pts_ns
        }),
{
    let head = v.books.hdr.ready_head;
    let cap = v.books.hdr.ready_capacity;
    let seq = (head + 1) as u64;
    ring::lemma_slot_in_ring(v.ready, head as int, cap);
    let at = ring::slot(head as int, cap);
    match frame.lent(v.pending) {
        Some(lease) => {
            let e = books::frame_bytes(seq, lease, frame.pts_ns);
            books::law_room_is_made(v.books, v.ready);
            books::law_frame_entry_survives(seq, lease, frame.pts_ns);
            desc::law_entries_are_independent(v.ready, at, e, at);
        },
        None => {
            let drained = v.books.drain(recycle, now);
            let size = frame.payload.len() as u32;
            let (taken, reset, l) = drained.take_live(v.ready, size, align);
            let e = books::frame_bytes(seq, l->0, frame.pts_ns);
            books::law_drain_keeps_arena(
                v.books.blocks,
                recycle,
                v.books.hdr.rec_head,
                v.books.hdr.rec_tail,
                v.books.hdr.rec_capacity,
            );
            books::law_live_request_is_served(drained, v.ready, size, align);
            writer::lemma_take_live_keeps_capacity(drained, v.ready, size, align);
            books::law_room_is_made(taken, v.ready);
            books::law_frame_entry_survives(seq, l->0, frame.pts_ns);
            desc::law_entries_are_independent(v.ready, at, e, at);
        },
    }
}

/// A sink starts with the producer that its settings ask for, which runs, and with no block
/// lent; it fails where that producer cannot be had.
pub proof fn law_sink_starts_as_set(
    settings: &SinkSettings,
    region_len: usize,
    pid: u32,
    now: u64,
    r: Result<(SinkSession, SharedHeader), ShmError>,
    cfg: TransportConfig,
    w: Result<(Writer, SharedHeader), ShmError>,
)
    requires
        call_ensures(SinkSession::start, (settings, region_len, pid, now), r),
        call_ensures(SinkSettings::transport_config, (settings,), cfg),
        call_ensures(Writer::create, (region_len, &cfg, pid, now), w),
    ensures
        r is Ok <==> w is Ok,
        r matches Ok((s, hdr)) ==> {
            &&& hdr.state == 1
            &&& hdr.total_size == cfg.total_size
            &&& hdr.ready_capacity == cfg.ready_capacity
            &&& hdr.rec_capacity == cfg.recycle_capacity
            &&& hdr.owner_pid == pid && hdr.producer_heartbeat_ns == now
            &&& s.writer.wf()
            &&& s.writer.arena().free == seq![(0u64, hdr.arena_size)]
            &&& s.writer.arena().used == Map::<u32, (u64, u64)>::empty()
            &&& s.writer.settings() == ((w->Ok_0).0).settings()
            &&& s.tracker@ == Map::<u64, AllocLease>::empty()
        },
{
}

/// Starting, stopping and flushing set the two flags that they are for.
pub proof fn law_sink_is_switched_as_told(
    start: &mut SinkState,
    stop: &mut SinkState,
    unlock: &mut SinkState,
    unlock_stop: &mut SinkState,
)
    requires
        call_ensures(SinkState::start, (start,), ()),
        call_ensures(SinkState::stop, (stop,), ()),
        call_ensures(SinkState::unlock, (unlock,), ()),
        call_ensures(SinkState::unlock_stop, (unlock_stop,), ()),
    ensures
        *final(start) == (SinkState { started: true, unlocked: false, ..*old(start) }),
        *final(stop) == (SinkState { started: false, unlocked: false, ..*old(stop) }),
        *final(unlock) == (SinkState { unlocked: true, ..*old(unlock) }),
        *final(unlock_stop) == (SinkState { unlocked: false, ..*old(unlock_stop) }),
{
}

/// A frame that is told only by the lent block that it fills is published at once as well,
/// with its time stamp, and that block alone is no longer lent; a sink that takes no frames
/// turns it away and touches nothing.
pub proof fn law_frame_in_its_block_is_published_at_once(
    s: &mut SinkSession,
    state: &SinkState,
    hdr: &mut SharedHeader,
    ready: &mut [u8],
    recycle: &[u8],
    at: u64,
    len: usize,
    pts: Option<u64>,
    now: u64,
    r: Rendered,
    lease: AllocLease,
    w: &mut Writer,
    same: &mut SharedHeader,
    ring: &mut [u8],
    pts_ns: i64,
    n: u64,
)
    requires
        old(s).tracker@.contains_key(at) && old(s).tracker@[at] == lease,
        lease.len == len,
        *old(w) == old(s).writer && *old(same) == *old(hdr),
        old(ring)@ == old(ready)@,
        call_ensures(
            SinkSession::render_lent,
            (s, state, hdr, ready, recycle, at, len, pts, now),
            r,
        ),
        call_ensures(published_pts, (pts,), pts_ns),
        call_ensures(Writer::enqueue_live, (w, same, ring, lease, pts_ns, now), n),
    ensures
        state.started && !state.unlocked ==> {
            &&& r is Done
            &&& *final(hdr) == *final(same)
            &&& final(ready)@ == final(ring)@
            &&& final(s).writer.arena() == final(w).arena()
            &&& final(s).tracker@ == old(s).tracker@.remove(at)
        },
        state.unlocked || !state.started ==> {
            &&& r is Flushing
            &&& *final(hdr) == *old(hdr)
            &&& final(ready)@ == old(ready)@
            &&& final(s).writer.arena() == old(s).writer.arena()
            &&& final(s).tracker@ == old(s).tracker@
        },
{
    let none = Seq::<u8>::empty();
    let after = final(s).view_with(*final(hdr), final(ready)@, none);
    assert(after.books.hdr == *final(hdr));
    assert(after.books.blocks == final(s).writer.arena());
    assert(after.ready == final(ready)@);
    assert(after.pending == final(s).tracker@);
    assert(final(w).books(*final(same)).hdr == *final(same));
    assert(final(w).books(*final(same)).blocks == final(w).arena());
    assert(lent_frame(len as nat, pts, at).payload.len() == len);
}

/// A new sink keeps its settings and takes no frames until it is started.
pub proof fn law_new_sink_takes_no_frames(settings: SinkSettings, r: SinkState)
    requires
        call_ensures(SinkState::new, (settings,), r),
    ensures
        r.settings == settings && !r.started && !r.unlocked,
{
}

} // verus!
