//! How the source puts the producer's time stamps onto the producer's clock.

use crate::transport::books;
use crate::transport::reader::TimelineSnapshot;
use vstd::prelude::*;

verus! {

/// By how much the offset moves at most with one snapshot, in nanoseconds.
pub const MAX_SLEW_NS: i64 = 2_000_000;

/// How far the offset may be off without being moved, in nanoseconds.
pub const TINY_ERROR_NS: i64 = 100_000;

/// By how much a frame may be late before that is worth a note, in nanoseconds.
pub const LATE_NS: u64 = 50_000_000;

/// How long it is at least between two such notes, in nanoseconds.
pub const LATE_NOTE_NS: u64 = 1_000_000_000;

/// What the source knows of the producer's timeline.
#[derive(Debug, Clone, Copy)]
pub struct TimelineState {
    pub expected_gen: u64,
    pub offset_valid: bool,
    /// How far the producer's clock is ahead of its time stamps.
    pub offset_ns: i64,
    pub last_snapshot_seq: u64,
    pub sink_mono_at_snap: u64,
    pub producer_pts_at_snap: i64,
    pub need_discont: bool,
    pub last_late_log_ns: u64,
}

/// How a frame goes out.
#[derive(Debug, Clone, Copy)]
pub struct Stamp {
    pub pts_ns: Option<u64>,
    /// How long the frame lasts, if that is known.
    pub duration_ns: Option<u64>,
    /// The frame does not follow on the one before it.
    pub discont: bool,
    /// The frame is late, and that is worth a note.
    pub late: Option<LateNote>,
}

/// A frame that went out late.
#[derive(Debug, Clone, Copy)]
pub struct LateNote {
    pub now_ns: u64,
    pub pts_ns: u64,
    pub lag_ns: u64,
    pub dropped: u64,
}

/// The value, or the bound that it is beyond.
pub open spec fn clamped(v: int, low: int, high: int) -> int {
    if v < low {
        low
    } else if v > high {
        high
    } else {
        v
    }
}

/// The sum, or the largest `u64` where that is less.
pub open spec fn capped_sum(a: u64, b: u64) -> int {
    clamped(a + b, 0, u64::MAX as int)
}

/// The offset that a snapshot asks for: the producer's clock less its time stamp.
pub open spec fn desired_offset(snap: TimelineSnapshot) -> int {
    clamped(snap.sink_mono_ns - snap.producer_pts_ns, i64::MIN as int, i64::MAX as int)
}

/// The snapshot tells something new.
pub open spec fn is_news(ts: TimelineState, snap: TimelineSnapshot) -> bool {
    snap.valid && snap.producer_pts_ns >= 0 && snap.seq != ts.last_snapshot_seq
}

/// By how much the offset moves when it is off by `err`: not at all for a tiny error, and
/// by no more than the largest step.
pub open spec fn slew(err: int) -> int {
    if -TINY_ERROR_NS <= err <= TINY_ERROR_NS {
        0
    } else {
        clamped(err, -MAX_SLEW_NS, MAX_SLEW_NS as int)
    }
}

/// The offset after a snapshot: the first one sets it, and each later one moves it by a
/// small step.
pub open spec fn next_offset(ts: TimelineState, snap: TimelineSnapshot) -> int {
    if ts.offset_valid {
        ts.offset_ns + slew(desired_offset(snap) - ts.offset_ns)
    } else {
        desired_offset(snap)
    }
}

/// The state after a snapshot was taken into account.
pub open spec fn synced(ts: TimelineState, snap: TimelineSnapshot) -> TimelineState {
    if is_news(ts, snap) {
        TimelineState {
            offset_valid: true,
            offset_ns: next_offset(ts, snap) as i64,
            last_snapshot_seq: snap.seq,
            sink_mono_at_snap: snap.sink_mono_ns,
            producer_pts_at_snap: snap.producer_pts_ns,
            ..ts
        }
    } else {
        ts
    }
}

/// The state after the generation of a snapshot was noted: a new one starts over.
pub open spec fn regenerated(ts: TimelineState, generation: u64) -> TimelineState {
    if generation != ts.expected_gen {
        TimelineState {
            expected_gen: generation,
            offset_valid: false,
            last_snapshot_seq: 0,
            need_discont: true,
            ..ts
        }
    } else {
        ts
    }
}

/// The state when a frame is stamped.
pub open spec fn prepared(ts: TimelineState, snap: TimelineSnapshot) -> TimelineState {
    synced(regenerated(ts, snap.generation), snap)
}

/// The time on the producer's clock with which a frame goes out, if it has one.
pub open spec fn out_pts(ts: TimelineState, pts_ns: i64) -> Option<u64> {
    let out = clamped(pts_ns + ts.offset_ns, i64::MIN as int, i64::MAX as int);
    if ts.offset_valid && pts_ns >= 0 && out >= 0 {
        Some(out as u64)
    } else {
        None
    }
}

/// How long a frame lasts: what is told of it, where that is more than nothing.
pub open spec fn out_duration(duration_ns: i64) -> Option<u64> {
    if duration_ns > 0 {
        Some(duration_ns as u64)
    } else {
        None
    }
}

/// The note on a late frame, if one is due.
pub open spec fn late_note(ts: TimelineState, pts: Option<u64>, now: Option<u64>, dropped: u64) -> Option<
    LateNote,
> {
    match (pts, now) {
        (Some(pts), Some(now)) => if now > capped_sum(pts, LATE_NS) && books::later_by(
            now,
            ts.last_late_log_ns,
        ) > LATE_NOTE_NS {
            Some(
                LateNote {
                    now_ns: now,
                    pts_ns: pts,
                    lag_ns: books::later_by(now, pts) as u64,
                    dropped,
                },
            )
        } else {
            None
        },
        _ => None,
    }
}

/// How a frame goes out on the producer's clock, and the state afterwards. The running time
/// `now` only tells whether it is late.
pub open spec fn stamped(
    ts: TimelineState,
    pts_ns: i64,
    duration_ns: i64,
    snap: TimelineSnapshot,
    now: Option<u64>,
    dropped: u64,
) -> (TimelineState, Stamp) {
    let ts = prepared(ts, snap);
    let pts = out_pts(ts, pts_ns);
    let late = late_note(ts, pts, now, dropped);
    (
        TimelineState {
            need_discont: false,
            last_late_log_ns: if late is Some {
                now->0
            } else {
                ts.last_late_log_ns
            },
            ..ts
        },
        Stamp {
            pts_ns: pts,
            duration_ns: out_duration(duration_ns),
            discont: ts.need_discont || dropped > 0,
            late,
        },
    )
}

/// The running time, from a clock and the time at which it was at zero.
pub fn current_running_time_ns(clock: Option<u64>, base: Option<u64>) -> (r: Option<u64>)
    ensures
        match (clock, base) {
            (Some(now), Some(base)) => r == Some(books::later_by(now, base) as u64),
            _ => r is None,
        },
{
    match (clock, base) {
        (Some(now), Some(base)) => Some(now.saturating_sub(base)),
        _ => None,
    }
}

/// Takes a snapshot of the producer's timeline into account. What the local clock shows
/// plays no part.
pub fn update_clock_sync(ts: &mut TimelineState, snap: TimelineSnapshot)
    ensures
        *final(ts) == synced(*old(ts), snap),
{
    if !snap.valid || snap.producer_pts_ns < 0 {
        return;
    }
    if snap.seq == ts.last_snapshot_seq {
        return;
    }
    let apart: i128 = snap.sink_mono_ns as i128 - snap.producer_pts_ns as i128;
    let desired: i64 = if apart < i64::MIN as i128 {
        i64::MIN
    } else if apart > i64::MAX as i128 {
        i64::MAX
    } else {
        apart as i64
    };
    if !ts.offset_valid {
        ts.offset_ns = desired;
        ts.offset_valid = true;
    } else {
        let err: i128 = desired as i128 - ts.offset_ns as i128;
        let step: i128 = if -(TINY_ERROR_NS as i128) <= err && err <= TINY_ERROR_NS as i128 {
            0
        } else if err < -(MAX_SLEW_NS as i128) {
            -(MAX_SLEW_NS as i128)
        } else if err > MAX_SLEW_NS as i128 {
            MAX_SLEW_NS as i128
        } else {
            err
        };
        ts.offset_ns = (ts.offset_ns as i128 + step) as i64;
    }
    ts.last_snapshot_seq = snap.seq;
    ts.sink_mono_at_snap = snap.sink_mono_ns;
    ts.producer_pts_at_snap = snap.producer_pts_ns;
}

/// How long a frame lasts, if that is known.
pub fn frame_duration(duration_ns: i64) -> (r: Option<u64>)
    ensures
        r == out_duration(duration_ns),
{
    if duration_ns > 0 {
        Some(duration_ns as u64)
    } else {
        None
    }
}

fn saturating_sum(a: i64, b: i64) -> (r: i64)
    ensures
        r == clamped(a + b, i64::MIN as int, i64::MAX as int),
{
    let sum: i128 = a as i128 + b as i128;
    if sum < i64::MIN as i128 {
        i64::MIN
    } else if sum > i64::MAX as i128 {
        i64::MAX
    } else {
        sum as i64
    }
}

impl Default for TimelineState {
    fn default() -> (r: Self)
        ensures
            r == (TimelineState {
                expected_gen: 0,
                offset_valid: false,
                offset_ns: 0,
                last_snapshot_seq: 0,
                sink_mono_at_snap: 0,
                producer_pts_at_snap: 0,
                need_discont: false,
                last_late_log_ns: 0,
            }),
    {
        TimelineState::new()
    }
}

impl TimelineState {
    /// The state before the first attach.
    pub fn new() -> (r: TimelineState)
        ensures
            r == (TimelineState {
                expected_gen: 0,
                offset_valid: false,
                offset_ns: 0,
                last_snapshot_seq: 0,
                sink_mono_at_snap: 0,
                producer_pts_at_snap: 0,
                need_discont: false,
                last_late_log_ns: 0,
            }),
    {
        TimelineState {
            expected_gen: 0,
            offset_valid: false,
            offset_ns: 0,
            last_snapshot_seq: 0,
            sink_mono_at_snap: 0,
            producer_pts_at_snap: 0,
            need_discont: false,
            last_late_log_ns: 0,
        }
    }

    /// The state after an attach to, or a detach from, a timeline of that generation.
    pub fn restarted(generation: u64) -> (r: TimelineState)
        ensures
            r == (TimelineState {
                expected_gen: generation,
                offset_valid: false,
                offset_ns: 0,
                last_snapshot_seq: 0,
                sink_mono_at_snap: 0,
                producer_pts_at_snap: 0,
                need_discont: true,
                last_late_log_ns: 0,
            }),
    {
        let mut ts = TimelineState::new();
        ts.expected_gen = generation;
        ts.need_discont = true;
        ts
    }

    fn prepare(&mut self, snap: TimelineSnapshot)
        ensures
            *final(self) == prepared(*old(self), snap),
    {
        if snap.generation != self.expected_gen {
            self.expected_gen = snap.generation;
            self.offset_valid = false;
            self.last_snapshot_seq = 0;
            self.need_discont = true;
        }
        update_clock_sync(self, snap);
    }

    /// Puts a frame onto the producer's clock. `now` is the running time, by which it may be
    /// late, and `dropped` tells how many frames before it were dropped.
    pub fn stamp(
        &mut self,
        pts_ns: i64,
        duration_ns: i64,
        snap: TimelineSnapshot,
        now: Option<u64>,
        dropped: u64,
    ) -> (r: Stamp)
        ensures
            (*final(self), r) == stamped(*old(self), pts_ns, duration_ns, snap, now, dropped),
    {
        self.prepare(snap);
        let mut out: Option<u64> = None;
        if self.offset_valid && pts_ns >= 0 {
            let at: i64 = saturating_sum(pts_ns, self.offset_ns);
            if at >= 0 {
                out = Some(at as u64);
            }
        }
        let discont: bool = self.need_discont || dropped > 0;
        self.need_discont = false;
        let mut late: Option<LateNote> = None;
        if let (Some(pts), Some(now)) = (out, now) {
            if now > pts.saturating_add(LATE_NS) && now.saturating_sub(self.last_late_log_ns)
                > LATE_NOTE_NS {
                late =
                Some(
                    LateNote {
                        now_ns: now,
                        pts_ns: pts,
                        lag_ns: now.saturating_sub(pts),
                        dropped,
                    },
                );
                self.last_late_log_ns = now;
            }
        }
        Stamp { pts_ns: out, duration_ns: frame_duration(duration_ns), discont, late }
    }
}

/// The first snapshot of a timeline sets the offset as it is.
pub proof fn law_first_snapshot_sets_offset(ts: TimelineState, snap: TimelineSnapshot)
    requires
        !ts.offset_valid,
        is_news(ts, snap),
    ensures
        synced(ts, snap).offset_valid,
        synced(ts, snap).offset_ns == desired_offset(snap),
{
}

/// A snapshot that was seen, that is not valid or that has no time stamp changes nothing.
pub proof fn law_old_snapshot_is_ignored(ts: TimelineState, snap: TimelineSnapshot)
    ensures
        !is_news(ts, snap) ==> synced(ts, snap) == ts,
        synced(synced(ts, snap), snap) == synced(ts, snap),
{
}

/// Once it is set, the offset never jumps: a snapshot moves it towards what it asks for,
/// by no more than the largest step, and never past it. Where it asks for more than one
/// step, the distance shrinks by one step. A tiny error moves nothing.
pub proof fn law_offset_is_slewed(ts: TimelineState, snap: TimelineSnapshot)
    requires
        ts.offset_valid,
        is_news(ts, snap),
    ensures
        ({
            let before = ts.offset_ns as int;
            let after = synced(ts, snap).offset_ns as int;
            let want = desired_offset(snap);
            &&& -MAX_SLEW_NS <= after - before <= MAX_SLEW_NS
            &&& before <= want ==> before <= after <= want
            &&& before >= want ==> before >= after >= want
            &&& want - before > MAX_SLEW_NS ==> want - after == want - before - MAX_SLEW_NS
            &&& before - want > MAX_SLEW_NS ==> after - want == before - want - MAX_SLEW_NS
            &&& -TINY_ERROR_NS <= want - before <= TINY_ERROR_NS ==> after == before
            &&& TINY_ERROR_NS < want - before <= MAX_SLEW_NS ==> after == want
            &&& TINY_ERROR_NS < before - want <= MAX_SLEW_NS ==> after == want
        }),
{
}

/// What the local clock shows changes neither the time nor the length of a frame, nor the
/// offset.
pub proof fn law_local_time_plays_no_part(
    ts: TimelineState,
    pts_ns: i64,
    duration_ns: i64,
    snap: TimelineSnapshot,
    now: Option<u64>,
    other: Option<u64>,
    dropped: u64,
)
    ensures
        ({
            let (a, s) = stamped(ts, pts_ns, duration_ns, snap, now, dropped);
            let (b, t) = stamped(ts, pts_ns, duration_ns, snap, other, dropped);
            &&& s.pts_ns == t.pts_ns && s.duration_ns == t.duration_ns && s.discont == t.discont
            &&& b == (TimelineState { last_late_log_ns: b.last_late_log_ns, ..a })
        }),
{
}

/// A new generation makes the source forget its offset and mark the next frame as not
/// following on the one before.
pub proof fn law_new_generation_restarts(
    ts: TimelineState,
    pts_ns: i64,
    duration_ns: i64,
    snap: TimelineSnapshot,
    now: Option<u64>,
    dropped: u64,
)
    requires
        snap.generation != ts.expected_gen,
    ensures
        ({
            let (after, stamp) = stamped(ts, pts_ns, duration_ns, snap, now, dropped);
            &&& stamp.discont
            &&& after.expected_gen == snap.generation
            &&& !snap.valid ==> !after.offset_valid && stamp.pts_ns is None
            &&& snap.valid && snap.producer_pts_ns >= 0 && snap.seq != 0 ==> {
                &&& after.offset_valid
                &&& after.offset_ns == desired_offset(snap)
            }
        }),
{
}

/// The frame that the first snapshot tells of goes out at the time that the producer's clock
/// showed with it.
pub proof fn law_first_frame_goes_out_at_sink_time(
    ts: TimelineState,
    duration_ns: i64,
    snap: TimelineSnapshot,
    now: Option<u64>,
    dropped: u64,
)
    requires
        !regenerated(ts, snap.generation).offset_valid,
        is_news(regenerated(ts, snap.generation), snap),
        snap.sink_mono_ns <= i64::MAX,
    ensures
        stamped(ts, snap.producer_pts_ns, duration_ns, snap, now, dropped).1.pts_ns == Some(
            snap.sink_mono_ns,
        ),
{
}

/// Two frames that are stamped under the same state go out as far apart as their time
/// stamps are, where both have a time below the largest.
pub proof fn law_spacing_is_kept(ts: TimelineState, first: i64, second: i64)
    requires
        out_pts(ts, first) matches Some(p) && p < i64::MAX,
        out_pts(ts, second) matches Some(p) && p < i64::MAX,
    ensures
        out_pts(ts, second)->0 - out_pts(ts, first)->0 == second - first,
{
}

/// A frame is marked as not following on the one before exactly after an attach, a new
/// generation or a drop; the mark is given once.
pub proof fn law_discont_is_told_once(
    ts: TimelineState,
    pts_ns: i64,
    duration_ns: i64,
    snap: TimelineSnapshot,
    now: Option<u64>,
    dropped: u64,
)
    ensures
        ({
            let (after, stamp) = stamped(ts, pts_ns, duration_ns, snap, now, dropped);
            &&& stamp.discont <==> ts.need_discont || snap.generation != ts.expected_gen || dropped
                > 0
            &&& !after.need_discont
        }),
{
}

/// Every frame with a time stamp goes out, once the offset is known, at its stamp plus the
/// offset, be it older or newer than the frame of the snapshot; a sum below 0 is no time,
/// and one beyond the largest is the largest. Without an offset or a stamp there is no time.
pub proof fn law_frame_goes_out_at_stamp_plus_offset(
    ts: &mut TimelineState,
    pts_ns: i64,
    duration_ns: i64,
    snap: TimelineSnapshot,
    now: Option<u64>,
    dropped: u64,
    r: Stamp,
)
    requires
        call_ensures(TimelineState::stamp, (ts, pts_ns, duration_ns, snap, now, dropped), r),
    ensures
        ({
            let sum = pts_ns + final(ts).offset_ns;
            &&& final(ts).offset_valid && pts_ns >= 0 && 0 <= sum <= i64::MAX ==> (r.pts_ns
                matches Some(t) && t == sum)
            &&& final(ts).offset_valid && pts_ns >= 0 && sum > i64::MAX ==> (r.pts_ns matches Some(
                t,
            ) && t == i64::MAX)
            &&& !final(ts).offset_valid || pts_ns < 0 || sum < 0 ==> r.pts_ns is None
            &&& duration_ns > 0 ==> (r.duration_ns matches Some(d) && d == duration_ns)
            &&& duration_ns <= 0 ==> r.duration_ns is None
        }),
{
}

/// The offset that stamping a frame leaves behind: a new generation or an unknown offset
/// takes the one that a snapshot with news shows, the clock less the stamp; a known one
/// moves towards it by at most 2 ms, not past it, and not at all where it is off by 100
/// microseconds or less. Without news it stays, and a new generation without news has none.
pub proof fn law_stamping_follows_the_snapshots(
    ts: &mut TimelineState,
    pts_ns: i64,
    duration_ns: i64,
    snap: TimelineSnapshot,
    now: Option<u64>,
    dropped: u64,
    r: Stamp,
)
    requires
        call_ensures(TimelineState::stamp, (ts, pts_ns, duration_ns, snap, now, dropped), r),
        i64::MIN <= snap.sink_mono_ns - snap.producer_pts_ns <= i64::MAX,
    ensures
        ({
            let same = snap.generation == old(ts).expected_gen;
            let seen = if same {
                old(ts).last_snapshot_seq
            } else {
                0
            };
            let news = snap.valid && snap.producer_pts_ns >= 0 && snap.seq != seen;
            let known = same && old(ts).offset_valid;
            let want = snap.sink_mono_ns - snap.producer_pts_ns;
            let err = want - old(ts).offset_ns;
            &&& final(ts).expected_gen == snap.generation
            &&& final(ts).offset_valid <==> known || news
            &&& news && !known ==> final(ts).offset_ns == want
            &&& news && known && err > 2_000_000 ==> final(ts).offset_ns == old(ts).offset_ns
                + 2_000_000
            &&& news && known && err < -2_000_000 ==> final(ts).offset_ns == old(ts).offset_ns
                - 2_000_000
            &&& news && known && (100_000 < err <= 2_000_000 || -2_000_000 <= err < -100_000)
                ==> final(ts).offset_ns == want
            &&& news && known && -100_000 <= err <= 100_000 ==> final(ts).offset_ns == old(
                ts,
            ).offset_ns
            &&& !news ==> final(ts).offset_ns == old(ts).offset_ns
            &&& final(ts).last_snapshot_seq == if news {
                snap.seq
            } else {
                seen
            }
        }),
{
}

/// A frame is marked as not following on the one before exactly after an attach, a new
/// generation or a drop, and the mark is given once. It is noted as late exactly when it has
/// a time, the running time is known and more than 50 ms beyond it, and the last such note is
/// more than a second ago; the note tells by how much.
pub proof fn law_marks_and_notes_of_a_frame(
    ts: &mut TimelineState,
    pts_ns: i64,
    duration_ns: i64,
    snap: TimelineSnapshot,
    now: Option<u64>,
    dropped: u64,
    r: Stamp,
)
    requires
        call_ensures(TimelineState::stamp, (ts, pts_ns, duration_ns, snap, now, dropped), r),
    ensures
        r.discont <==> old(ts).need_discont || snap.generation != old(ts).expected_gen || dropped
            > 0,
        !final(ts).need_discont,
        ({
            let late = match (r.pts_ns, now) {
                (Some(p), Some(t)) => t > p + 50_000_000 && t > old(ts).last_late_log_ns
                    + 1_000_000_000,
                _ => false,
            };
            &&& r.late is Some <==> late
            &&& r.late matches Some(n) ==> {
                &&& n.now_ns == now->0 && n.pts_ns == r.pts_ns->0
                &&& n.lag_ns == now->0 - r.pts_ns->0 && n.dropped == dropped
            }
            &&& final(ts).last_late_log_ns == if late {
                now->0
            } else {
                old(ts).last_late_log_ns
            }
        }),
{
}

/// Taking a snapshot into account keeps it: its number, its clock and its stamp. It sets the
/// offset that the clock less the stamp makes, or moves towards it; a snapshot without news
/// changes nothing, and none touches the generation, the mark or the notes.
pub proof fn law_snapshot_moves_the_offset(ts: &mut TimelineState, snap: TimelineSnapshot)
    requires
        call_ensures(update_clock_sync, (ts, snap), ()),
        i64::MIN <= snap.sink_mono_ns - snap.producer_pts_ns <= i64::MAX,
    ensures
        ({
            let news = snap.valid && snap.producer_pts_ns >= 0 && snap.seq != old(
                ts,
            ).last_snapshot_seq;
            let want = snap.sink_mono_ns - snap.producer_pts_ns;
            let moved = final(ts).offset_ns - old(ts).offset_ns;
            let err = want - old(ts).offset_ns;
            &&& !news ==> *final(ts) == *old(ts)
            &&& news ==> {
                &&& final(ts).offset_valid
                &&& final(ts).last_snapshot_seq == snap.seq
                &&& final(ts).sink_mono_at_snap == snap.sink_mono_ns
                &&& final(ts).producer_pts_at_snap == snap.producer_pts_ns
                &&& !old(ts).offset_valid ==> final(ts).offset_ns == want
                &&& old(ts).offset_valid ==> {
                    &&& -2_000_000 <= moved <= 2_000_000
                    &&& -100_000 <= err <= 100_000 ==> moved == 0
                    &&& 100_000 < err <= 2_000_000 || -2_000_000 <= err < -100_000 ==> moved == err
                    &&& err > 2_000_000 ==> moved == 2_000_000
                    &&& err < -2_000_000 ==> moved == -2_000_000
                }
            }
            &&& final(ts).expected_gen == old(ts).expected_gen
            &&& final(ts).need_discont == old(ts).need_discont
            &&& final(ts).last_late_log_ns == old(ts).last_late_log_ns
        }),
{
}

/// The running time is how far the clock is beyond the time at which it was at zero, not less
/// than nothing, and unknown where either is.
pub proof fn law_running_time_counts_from_the_base(
    clock: Option<u64>,
    base: Option<u64>,
    r: Option<u64>,
)
    requires
        call_ensures(current_running_time_ns, (clock, base), r),
    ensures
        r is Some <==> clock is Some && base is Some,
        r is Some && clock->0 >= base->0 ==> base->0 + r->0 == clock->0,
        r is Some && clock->0 < base->0 ==> r->0 == 0,
{
}

/// After an attach nothing is known of the timeline but its generation, and the first frame
/// is to be marked.
pub proof fn law_attach_forgets_the_timeline(generation: u64, r: TimelineState)
    requires
        call_ensures(TimelineState::restarted, (generation,), r),
    ensures
        r.expected_gen == generation,
        !r.offset_valid,
        r.last_snapshot_seq == 0,
        r.need_discont,
        r.last_late_log_ns == 0,
{
}

/// A frame lasts as long as it was told to, where that is more than nothing, and else for a
/// time that is not known.
pub proof fn law_frame_lasts_as_told(duration_ns: i64, r: Option<u64>)
    requires
        call_ensures(frame_duration, (duration_ns,), r),
    ensures
        duration_ns > 0 ==> r is Some && r->0 == duration_ns,
        duration_ns <= 0 ==> r is None,
{
}

/// A state that is new is the default, knows no offset and has nothing noted.
pub proof fn law_new_state_knows_nothing(r: TimelineState, d: TimelineState)
    requires
        call_ensures(TimelineState::new, (), r),
        call_ensures(TimelineState::default, (), d),
    ensures
        r == d,
        !r.offset_valid && !r.need_discont,
        r.expected_gen == 0 && r.last_snapshot_seq == 0 && r.last_late_log_ns == 0,
{
}

} // verus!
