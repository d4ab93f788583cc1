//! How the source gets a frame.

use crate::allocator::ArenaView;
use crate::platform::ShmError;
use crate::source::settings::SourceSettings;
use crate::source::timeline;
use crate::source::timeline::{frame_duration, Stamp, TimelineState};
use crate::transport::books::Books;
use crate::transport::clock;
use crate::transport::clock::poll_yield_sleep;
use crate::transport::desc::ReceivedDesc;
use crate::transport::header::SharedHeader;
use crate::transport::reader;
use crate::transport::reader::{Reader, TimelineSnapshot, STEADY_SLEEP_US};
use crate::transport::ring;
use vstd::prelude::*;

verus! {

/// A source between its start and its stop, and before and after.
#[derive(Debug)]
pub struct SourceState {
    pub settings: SourceSettings,
    pub started: bool,
    /// No frames are got, so that the stream can be flushed.
    pub unlocked: bool,
    pub timeline: TimelineState,
}

/// A frame that was got.
#[derive(Debug, Clone, Copy)]
pub struct Fetched {
    pub desc: ReceivedDesc,
    /// Where in the arena its payload begins.
    pub at: u64,
    pub snap: TimelineSnapshot,
    /// How many frames were passed over for it.
    pub dropped: u64,
}

/// What comes of one turn.
#[derive(Debug, Clone, Copy)]
pub enum Created {
    Frame(Fetched),
    /// The source gets no frames.
    Flushing,
    Failed,
    /// Sleep for so many microseconds, then take the next turn.
    Sleep(u64),
}

/// The producer's latest timeline snapshot.
pub open spec fn snapshot(hdr: SharedHeader) -> TimelineSnapshot {
    TimelineSnapshot {
        generation: hdr.timeline_gen,
        seq: hdr.timeline_seq,
        valid: hdr.timeline_valid != 0,
        sink_mono_ns: hdr.timeline_sink_mono_ns,
        producer_pts_ns: hdr.timeline_producer_pts_ns,
    }
}

/// The header and the recycle ring before the look that gets a frame: with the low-latency
/// policy, old frames are passed over first.
pub open spec fn approached(latest_only: bool, hdr: SharedHeader, ready: Seq<u8>, recycle: Seq<u8>) -> (
    SharedHeader,
    Seq<u8>,
) {
    if latest_only {
        reader::caught_up(hdr, ready, recycle)
    } else {
        (hdr, recycle)
    }
}

impl SourceState {
    /// A source that has not started.
    pub fn new(settings: SourceSettings) -> (r: SourceState)
        ensures
            r.settings == settings && !r.started && !r.unlocked,
            r.timeline == (TimelineState {
                expected_gen: 0,
                offset_valid: false,
                offset_ns: 0,
                last_snapshot_seq: 0,
                sink_mono_at_snap: 0,
                producer_pts_at_snap: 0,
                need_discont: false,
                last_late_log_ns: 0,
            }),
    {
        SourceState {
            settings,
            started: false,
            unlocked: false,
            timeline: TimelineState::new(),
        }
    }

    /// The state of a source that follows a timeline from its start.
    pub open spec fn with_timeline(self, started: bool, generation: u64) -> SourceState {
        SourceState {
            started,
            unlocked: false,
            timeline: TimelineState {
                expected_gen: generation,
                offset_valid: false,
                offset_ns: 0,
                last_snapshot_seq: 0,
                sink_mono_at_snap: 0,
                producer_pts_at_snap: 0,
                need_discont: true,
                last_late_log_ns: 0,
            },
            ..self
        }
    }

    /// Starts in a region that was opened: makes the process its consumer and begins the
    /// timeline anew, whoever was the consumer before.
    pub fn start(
        &mut self,
        reader: &mut Reader,
        hdr: &mut SharedHeader,
        pid: u32,
        now: u64,
    ) -> (r: Result<(), ShmError>)
        ensures
            *final(reader) == *old(reader),
            r is Ok,
            *final(hdr) == reader::claimed(*old(hdr), pid, now),
            *final(self) == old(self).with_timeline(true, final(hdr).timeline_gen),
    {
        match reader.claim_consumer(hdr, pid, now) {
            Ok(_) => {},
            Err(e) => {
                return Err(e);
            },
        }
        let snap = reader.timeline_snapshot(hdr);
        self.started = true;
        self.unlocked = false;
        self.timeline = TimelineState::restarted(snap.generation);
        Ok(())
    }

    /// Stops: gives the region up and forgets the timeline.
    pub fn stop(&mut self, reader: &mut Reader, hdr: &mut SharedHeader, pid: u32)
        ensures
            *final(reader) == *old(reader),
            *final(hdr) == if old(hdr).consumer_owner_pid == pid {
                SharedHeader { consumer_owner_pid: 0, ..*old(hdr) }
            } else {
                *old(hdr)
            },
            *final(self) == old(self).with_timeline(false, 0),
    {
        reader.release_consumer(hdr, pid);
        self.reset();
    }

    /// Goes back to before the start, where there is no region to give up.
    pub fn reset(&mut self)
        ensures
            *final(self) == old(self).with_timeline(false, 0),
    {
        self.started = false;
        self.unlocked = false;
        self.timeline = TimelineState::restarted(0);
    }

    /// Gets no frames from now on.
    pub fn unlock(&mut self)
        ensures
            *final(self) == (SourceState { unlocked: true, ..*old(self) }),
    {
        self.unlocked = true;
    }

    /// Gets frames again.
    pub fn unlock_stop(&mut self)
        ensures
            *final(self) == (SourceState { unlocked: false, ..*old(self) }),
    {
        self.unlocked = false;
    }

    /// Takes one turn of getting a frame: the oldest that waits or, with the low-latency
    /// policy, the second-newest.
    pub fn create(
        &self,
        reader: &mut Reader,
        hdr: &mut SharedHeader,
        ready: &[u8],
        recycle: &mut [u8],
        idle_cycles: &mut u32,
        now: u64,
    ) -> (r: Created)
        requires
            ring::is_ring(ready@, old(hdr).ready_capacity),
            old(hdr).ready_tail < u64::MAX,
            self.settings.latest_only ==> {
                &&& ring::is_ring(old(recycle)@, old(hdr).rec_capacity)
                &&& old(hdr).ready_tail <= old(hdr).ready_head < u64::MAX
                &&& old(hdr).rec_head + (old(hdr).ready_head - old(hdr).ready_tail) < u64::MAX
            },
        ensures
            *final(reader) == *old(reader),
            final(recycle)@.len() == old(recycle)@.len(),
            if self.unlocked || !self.started {
                &&& r is Flushing
                &&& *final(hdr) == *old(hdr)
                &&& final(recycle)@ == old(recycle)@
                &&& *final(idle_cycles) == *old(idle_cycles)
            } else {
                let (h, rec) = approached(
                    self.settings.latest_only,
                    *old(hdr),
                    ready@,
                    old(recycle)@,
                );
                &&& *final(hdr) == reader::looked(h, ready@, now).0
                &&& final(recycle)@ == rec
                &&& match reader::looked(h, ready@, now).1 {
                    Ok(Some(d)) => {
                        &&& r == Created::Frame(
                            Fetched {
                                desc: d,
                                at: d.offset,
                                snap: snapshot(*old(hdr)),
                                dropped: (h.ready_tail - old(hdr).ready_tail) as u64,
                            },
                        )
                        &&& *final(idle_cycles) == *old(idle_cycles)
                    },
                    Ok(None) => {
                        &&& r == Created::Sleep(
                            clock::idle_sleep_us(*old(idle_cycles), STEADY_SLEEP_US),
                        )
                        &&& *final(idle_cycles) == clock::idle_after(*old(idle_cycles))
                    },
                    Err(_) => {
                        &&& r is Failed
                        &&& *final(idle_cycles) == *old(idle_cycles)
                    },
                }
            },
    {
        if self.unlocked || !self.started {
            return Created::Flushing;
        }
        let got: Result<Option<(ReceivedDesc, u64)>, ShmError> = if self.settings.latest_only {
            reader.try_recv_latest_desc(hdr, ready, recycle, now)
        } else {
            match reader.try_recv_desc(hdr, ready, now) {
                Ok(Some(d)) => Ok(Some((d, 0))),
                Ok(None) => Ok(None),
                Err(e) => Err(e),
            }
        };
        proof {
            if self.settings.latest_only {
                lemma_catching_up_keeps_timeline(*old(hdr), ready@, old(recycle)@);
            }
        }
        match got {
            Ok(Some((d, dropped))) => match reader.payload_ptr(hdr, &d) {
                Ok(at) => Created::Frame(
                    Fetched { desc: d, at, snap: reader.timeline_snapshot(hdr), dropped },
                ),
                Err(_) => Created::Failed,
            },
            Ok(None) => Created::Sleep(poll_yield_sleep(idle_cycles, STEADY_SLEEP_US)),
            Err(_) => Created::Failed,
        }
    }

    /// How the frame goes out: on the producer's clock or, unless that is asked for, with the
    /// producer's own time stamp; and for how long, where the producer tells.
    pub fn stamp(&mut self, frame: &Fetched, now: Option<u64>) -> (r: Stamp)
        ensures
            if old(self).settings.live_only {
                let (ts, stamp) = timeline::stamped(
                    old(self).timeline,
                    frame.desc.pts_ns,
                    frame.desc.duration_ns,
                    frame.snap,
                    now,
                    frame.dropped,
                );
                r == stamp && *final(self) == (SourceState { timeline: ts, ..*old(self) })
            } else {
                &&& *final(self) == *old(self)
                &&& r.pts_ns == if frame.desc.pts_ns >= 0 {
                    Some(frame.desc.pts_ns as u64)
                } else {
                    None
                }
                &&& r.duration_ns == timeline::out_duration(frame.desc.duration_ns)
                &&& !r.discont && r.late is None
            },
    {
        if self.settings.live_only {
            self.timeline.stamp(
                frame.desc.pts_ns,
                frame.desc.duration_ns,
                frame.snap,
                now,
                frame.dropped,
            )
        } else {
            let pts_ns: Option<u64> = if frame.desc.pts_ns >= 0 {
                Some(frame.desc.pts_ns as u64)
            } else {
                None
            };
            let duration_ns: Option<u64> = frame_duration(frame.desc.duration_ns);
            Stamp { pts_ns, duration_ns, discont: false, late: None }
        }
    }
}

proof fn lemma_catching_up_keeps_timeline(hdr: SharedHeader, ready: Seq<u8>, recycle: Seq<u8>)
    ensures
        snapshot(reader::caught_up(hdr, ready, recycle).0) == snapshot(hdr),
    decreases hdr.ready_head - hdr.ready_tail,
{
    if hdr.ready_head - hdr.ready_tail > 2 {
        let (h, r) = reader::passed_over(hdr, ready, recycle);
        lemma_catching_up_keeps_timeline(h, ready, r);
    }
}

/// The first frame after a start goes out marked as not following on any other.
pub proof fn law_first_frame_is_marked(
    s: SourceState,
    generation: u64,
    pts_ns: i64,
    duration_ns: i64,
    snap: TimelineSnapshot,
    now: Option<u64>,
    dropped: u64,
)
    ensures
        timeline::stamped(
            s.with_timeline(true, generation).timeline,
            pts_ns,
            duration_ns,
            snap,
            now,
            dropped,
        ).1.discont,
{
}

/// The first frame that is published after a source attached goes out at the time that the
/// producer's clock showed when it was published, whatever the local clock shows.
pub proof fn law_attached_source_follows_producers_clock(
    s: SourceState,
    hdr: SharedHeader,
    blocks: ArenaView,
    pid: u32,
    attached: u64,
    beacon_ns: u64,
    pts_ns: i64,
    duration_ns: i64,
    published: u64,
    now: Option<u64>,
    dropped: u64,
)
    requires
        pts_ns >= 0,
        published <= i64::MAX,
        hdr.timeline_seq < u64::MAX,
    ensures
        ({
            let claimed = reader::claimed(hdr, pid, attached);
            let after = Books { hdr: claimed, blocks }.record_frame(published).emit_if_due(
                beacon_ns,
                pts_ns,
                published,
            ).hdr;
            timeline::stamped(
                s.with_timeline(true, claimed.timeline_gen).timeline,
                pts_ns,
                duration_ns,
                snapshot(after),
                now,
                dropped,
            ).1.pts_ns == Some(published)
        }),
{
}

/// A source that was not started or is being flushed gets nothing and touches nothing. Else
/// one turn is one low-latency look, or one plain look where that policy is off: what the
/// look gives is got, with where its payload begins, how many frames were passed over and the
/// timeline that the header shows; nothing to be had sleeps, and a fault fails.
pub proof fn law_turn_is_one_look(
    s: &SourceState,
    reader: &mut Reader,
    hdr: &mut SharedHeader,
    ready: &[u8],
    recycle: &mut [u8],
    idle: &mut u32,
    now: u64,
    r: Created,
    again: &mut Reader,
    same: &mut SharedHeader,
    ring: &mut [u8],
    latest: Result<Option<(ReceivedDesc, u64)>, ShmError>,
    other: &mut SharedHeader,
    oldest: Result<Option<ReceivedDesc>, ShmError>,
    shown: TimelineSnapshot,
)
    requires
        *old(same) == *old(hdr) && *old(other) == *old(hdr) && old(ring)@ == old(recycle)@,
        call_ensures(SourceState::create, (s, reader, hdr, ready, recycle, idle, now), r),
        call_ensures(Reader::try_recv_latest_desc, (again, same, ready, ring, now), latest),
        call_ensures(Reader::try_recv_desc, (again, other, ready, now), oldest),
        call_ensures(Reader::timeline_snapshot, (&*old(again), &*old(hdr)), shown),
    ensures
        s.unlocked || !s.started ==> r is Flushing && *final(hdr) == *old(hdr) && final(recycle)@
            == old(recycle)@,
        s.started && !s.unlocked && s.settings.latest_only ==> {
            &&& *final(hdr) == *final(same) && final(recycle)@ == final(ring)@
            &&& match latest {
                Ok(Some((d, n))) => r matches Created::Frame(f) && f.desc == d && f.at == d.offset
                    && f.dropped == n && f.snap == shown,
                Ok(None) => r is Sleep,
                Err(_) => r is Failed,
            }
        },
        s.started && !s.unlocked && !s.settings.latest_only ==> {
            &&& *final(hdr) == *final(other) && final(recycle)@ == old(recycle)@
            &&& match oldest {
                Ok(Some(d)) => r matches Created::Frame(f) && f.desc == d && f.at == d.offset
                    && f.dropped == 0 && f.snap == shown,
                Ok(None) => r is Sleep,
                Err(_) => r is Failed,
            }
        },
        r is Sleep && *old(idle) < u32::MAX ==> *final(idle) == *old(idle) + 1,
        r !is Sleep ==> *final(idle) == *old(idle),
{
}

/// On the producer's clock a frame is stamped as its timeline stamps it, by what the frame
/// brought along; off it, it keeps the producer's own stamp, has no mark, and leaves the
/// timeline alone.
pub proof fn law_frame_is_stamped_as_set(
    s: &mut SourceState,
    frame: &Fetched,
    now: Option<u64>,
    r: Stamp,
    ts: &mut TimelineState,
    live: Stamp,
)
    requires
        *old(ts) == old(s).timeline,
        call_ensures(SourceState::stamp, (s, frame, now), r),
        call_ensures(
            TimelineState::stamp,
            (ts, frame.desc.pts_ns, frame.desc.duration_ns, frame.snap, now, frame.dropped),
            live,
        ),
    ensures
        old(s).settings.live_only ==> r == live && *final(s) == (SourceState {
            timeline: *final(ts),
            ..*old(s)
        }),
        !old(s).settings.live_only ==> {
            &&& *final(s) == *old(s)
            &&& frame.desc.pts_ns >= 0 ==> (r.pts_ns matches Some(t) && t == frame.desc.pts_ns)
            &&& frame.desc.pts_ns < 0 ==> r.pts_ns is None
            &&& r.duration_ns == live.duration_ns
            &&& !r.discont && r.late is None
        },
{
}

/// Starting takes the region over, and follows the timeline that this begins from its start;
/// stopping gives the region up; after either the source forgets what it knew.
pub proof fn law_start_claims_and_stop_releases(
    s: &mut SourceState,
    reader: &mut Reader,
    hdr: &mut SharedHeader,
    pid: u32,
    now: u64,
    r: Result<(), ShmError>,
    again: &mut Reader,
    same: &mut SharedHeader,
    claim: Result<(), ShmError>,
    t: &mut SourceState,
    last: &mut SharedHeader,
    end: &mut SharedHeader,
    begun: TimelineState,
    gone: TimelineState,
)
    requires
        *old(same) == *old(hdr) && *old(end) == *old(last),
        call_ensures(SourceState::start, (s, reader, hdr, pid, now), r),
        call_ensures(Reader::claim_consumer, (again, same, pid, now), claim),
        call_ensures(SourceState::stop, (t, reader, last, pid), ()),
        call_ensures(Reader::release_consumer, (again, end, pid), ()),
        call_ensures(TimelineState::restarted, (final(hdr).timeline_gen,), begun),
        call_ensures(TimelineState::restarted, (0u64,), gone),
    ensures
        r is Ok,
        *final(hdr) == *final(same),
        *final(s) == (SourceState { started: true, unlocked: false, timeline: begun, ..*old(s) }),
        *final(last) == *final(end),
        *final(t) == (SourceState { started: false, unlocked: false, timeline: gone, ..*old(t) }),
{
}

/// Flushing begins and ends as it is told, and changes nothing else.
pub proof fn law_source_is_flushed_as_told(s: &mut SourceState, t: &mut SourceState)
    requires
        call_ensures(SourceState::unlock, (s,), ()),
        call_ensures(SourceState::unlock_stop, (t,), ()),
    ensures
        *final(s) == (SourceState { unlocked: true, ..*old(s) }),
        *final(t) == (SourceState { unlocked: false, ..*old(t) }),
{
}

/// A new source keeps its settings, and neither it nor one that was reset follows a timeline
/// or gets frames; a reset source, besides, begins anew with the next frame.
pub proof fn law_new_and_reset_source_follow_no_timeline(
    settings: SourceSettings,
    r: SourceState,
    s: &mut SourceState,
)
    requires
        call_ensures(SourceState::new, (settings,), r),
        call_ensures(SourceState::reset, (s,), ()),
    ensures
        r.settings == settings && !r.started && !r.unlocked,
        !r.timeline.offset_valid && r.timeline.expected_gen == 0 && r.timeline.last_snapshot_seq
            == 0 && !r.timeline.need_discont,
        final(s).settings == old(s).settings && !final(s).started && !final(s).unlocked,
        !final(s).timeline.offset_valid && final(s).timeline.need_discont,
        final(s).timeline.expected_gen == 0 && final(s).timeline.last_snapshot_seq == 0,
{
}

} // verus!
