use gstshm2::element::{PropertyKind, PropertyValue};
use gstshm2::source::create::{Created, SourceState};
use gstshm2::source::settings::{properties, SourceProperty, SourceSettings};
use gstshm2::source::timeline::{current_running_time_ns, frame_duration, update_clock_sync};
use gstshm2::source::timeline::{TimelineState, TINY_ERROR_NS};
use gstshm2::transport::writer::Publish;
use gstshm2::transport::{Reader, SharedHeader, TimelineSnapshot, TransportConfig, Writer};

const SECOND: u64 = 1_000_000_000;
const MS: i64 = 1_000_000;
const PATH: &str = "/dev/shm/gst-shm2-default";

struct Ends {
    writer: Writer,
    reader: Reader,
    hdr: SharedHeader,
    ready: Vec<u8>,
    recycle: Vec<u8>,
    arena: Vec<u8>,
}

fn ends() -> Ends {
    let cfg = TransportConfig {
        total_size: 16384,
        ready_capacity: 8,
        recycle_capacity: 8,
        ..TransportConfig::default()
    };
    let (writer, hdr) = Writer::create(16384, &cfg, 7, SECOND).unwrap();
    let reader = Reader::open(&hdr, 16384).unwrap();
    let arena = vec![0; hdr.arena_size as usize];
    Ends { writer, reader, hdr, ready: vec![0; 8 * 64], recycle: vec![0; 8 * 64], arena }
}

impl Ends {
    fn publish(&mut self, payload: &[u8], pts: i64) {
        let p = self.writer.publish(
            &mut self.hdr,
            &mut self.ready,
            &self.recycle,
            &mut self.arena,
            payload,
            pts,
            SECOND,
        );
        assert!(matches!(p, Ok(Publish::Published(_))));
    }

    fn create(&mut self, s: &SourceState, idle: &mut u32) -> Created {
        s.create(&mut self.reader, &mut self.hdr, &self.ready, &mut self.recycle, idle, SECOND)
    }
}

fn snap(seq: u64, sink_mono_ns: u64, producer_pts_ns: i64) -> TimelineSnapshot {
    TimelineSnapshot { generation: 1, seq, valid: true, sink_mono_ns, producer_pts_ns }
}

fn started() -> TimelineState {
    TimelineState::restarted(1)
}

#[test]
fn the_first_snapshot_sets_the_offset() {
    let mut ts = TimelineState::default();
    let first = TimelineSnapshot { generation: 0, ..snap(1, 1000, 400) };
    update_clock_sync(&mut ts, first);
    assert!(ts.offset_valid);
    assert_eq!((ts.offset_ns, ts.last_snapshot_seq), (600, 1));
    assert_eq!((ts.sink_mono_at_snap, ts.producer_pts_at_snap), (1000, 400));
    let mut behind = started();
    update_clock_sync(&mut behind, snap(1, 5, 700));
    assert_eq!(behind.offset_ns, -695);
    let mut far = started();
    update_clock_sync(&mut far, snap(1, u64::MAX, 0));
    assert_eq!(far.offset_ns, i64::MAX);
    let mut far = started();
    update_clock_sync(&mut far, snap(1, 0, i64::MAX));
    assert_eq!(far.offset_ns, -i64::MAX);
}

#[test]
fn snapshots_without_news_are_ignored() {
    let mut ts = started();
    update_clock_sync(&mut ts, TimelineSnapshot { valid: false, ..snap(1, 7, 5) });
    assert!(!ts.offset_valid);
    update_clock_sync(&mut ts, snap(1, 7, -1));
    assert!(!ts.offset_valid);
    update_clock_sync(&mut ts, snap(0, 7, 5));
    assert!(!ts.offset_valid);
    update_clock_sync(&mut ts, snap(3, 1005, 5));
    update_clock_sync(&mut ts, snap(3, 999_999_999, 5));
    assert_eq!(ts.offset_ns, 1000);
}

#[test]
fn the_offset_is_slewed() {
    let mut ts = started();
    update_clock_sync(&mut ts, snap(1, 0, 0));
    for (seq, want) in [(2, 2 * MS), (3, 4 * MS), (4, 5 * MS), (5, 5 * MS)] {
        update_clock_sync(&mut ts, snap(seq, 5 * MS as u64, 0));
        assert_eq!(ts.offset_ns, want);
    }
    update_clock_sync(&mut ts, snap(6, 0, 10 * MS));
    assert_eq!(ts.offset_ns, 3 * MS);
}

#[test]
fn tiny_errors_leave_the_offset_alone() {
    let mut ts = started();
    update_clock_sync(&mut ts, snap(1, 5 * MS as u64, 0));
    for (seq, clock) in [(2, 5 * MS + TINY_ERROR_NS), (3, 5 * MS - TINY_ERROR_NS)] {
        update_clock_sync(&mut ts, snap(seq, clock as u64, 0));
        assert_eq!((ts.offset_ns, ts.last_snapshot_seq), (5 * MS, seq));
    }
    update_clock_sync(&mut ts, snap(4, (5 * MS + TINY_ERROR_NS + 1) as u64, 0));
    assert_eq!(ts.offset_ns, 5 * MS + TINY_ERROR_NS + 1);
}

#[test]
fn the_frame_of_the_first_snapshot_goes_out_at_the_producers_time() {
    let mut ts = started();
    let s = ts.stamp(5000, 0, snap(1, 77_777, 5000), Some(12), 0);
    assert_eq!((s.pts_ns, s.discont), (Some(77_777), true));
    assert!(s.late.is_none());
    // The next frame keeps its distance.
    let s = ts.stamp(5000 + 33, 0, snap(1, 77_777, 5000), Some(45), 0);
    assert_eq!((s.pts_ns, s.discont), (Some(77_810), false));
    let s = ts.stamp(5066, 0, snap(1, 77_777, 5000), Some(78), 2);
    assert_eq!((s.pts_ns, s.discont), (Some(77_843), true));
}

#[test]
fn the_local_time_moves_no_frame() {
    for now in [None, Some(0), Some(77), Some(u64::MAX)] {
        let mut ts = started();
        assert_eq!(ts.stamp(5010, 0, snap(1, 900, 5000), now, 0).pts_ns, Some(910));
        assert_eq!(ts.offset_ns, -4100);
    }
}

#[test]
fn frames_without_a_time_go_out_without_one() {
    let mut ts = started();
    let none = TimelineSnapshot { valid: false, ..snap(1, 0, 0) };
    let s = ts.stamp(5, 0, none, Some(1), 0);
    assert_eq!((s.pts_ns, s.discont), (None, true));
    assert_eq!(ts.stamp(-1, 0, snap(1, 1, 0), Some(1), 0).pts_ns, None);
    assert_eq!(ts.stamp(5, 0, snap(2, 1, 0), None, 0).pts_ns, Some(6));
    // Before the producer's clock began.
    let mut early = started();
    assert_eq!(early.stamp(0, 0, snap(1, 50, 100), Some(20), 0).pts_ns, None);
    // Beyond the largest time.
    let mut last = started();
    assert_eq!(last.stamp(i64::MAX, 0, snap(1, 1, 0), None, 0).pts_ns, Some(i64::MAX as u64));
}

#[test]
fn a_new_generation_starts_over() {
    let mut ts = started();
    ts.stamp(0, 0, snap(1, 1000, 0), Some(1000), 0);
    let next = TimelineSnapshot { generation: 2, ..snap(1, 900 * MS as u64, 0) };
    let s = ts.stamp(0, 0, next, Some(1000), 0);
    assert_eq!((s.pts_ns, s.discont), (Some(900 * MS as u64), true));
    assert_eq!((ts.expected_gen, ts.need_discont), (2, false));
    let broken = TimelineSnapshot { generation: 3, valid: false, ..snap(1, 0, 0) };
    assert_eq!(ts.stamp(0, 0, broken, Some(1), 0).pts_ns, None);
}

#[test]
fn late_frames_are_noted_now_and_then() {
    let mut ts = started();
    let s = snap(1, 0, 0);
    ts.stamp(0, 0, s, Some(0), 0);
    let late = 2 * SECOND;
    let note = ts.stamp(0, 0, s, Some(late), 3).late.unwrap();
    assert_eq!((note.now_ns, note.pts_ns, note.lag_ns, note.dropped), (late, 0, late, 3));
    assert!(ts.stamp(0, 0, s, Some(late + SECOND), 0).late.is_none());
    assert!(ts.stamp(0, 0, s, Some(late + SECOND + 1), 0).late.is_some());
    // 50 ms are no delay worth a note.
    let on_time = 10 * SECOND as i64;
    assert!(ts.stamp(on_time, 0, s, Some(on_time as u64 + 50_000_000), 0).late.is_none());
    assert!(ts.stamp(on_time, 0, s, Some(on_time as u64 + 50_000_001), 0).late.is_some());
}

#[test]
fn the_running_time_counts_from_the_base() {
    assert_eq!(current_running_time_ns(Some(9), Some(4)), Some(5));
    assert_eq!(current_running_time_ns(Some(4), Some(9)), Some(0));
    assert_eq!(current_running_time_ns(None, Some(9)), None);
    assert_eq!(current_running_time_ns(Some(9), None), None);
}

#[test]
fn a_source_starts_and_stops() {
    let mut e = ends();
    let mut s = SourceState::new(SourceSettings::new(PATH));
    let mut idle = 0;
    assert!(matches!(e.create(&s, &mut idle), Created::Flushing));
    s.start(&mut e.reader, &mut e.hdr, 42, SECOND).unwrap();
    assert_eq!((e.hdr.consumer_owner_pid, s.timeline.expected_gen), (42, 1));
    assert!(s.timeline.need_discont);
    s.unlock();
    assert!(matches!(e.create(&s, &mut idle), Created::Flushing));
    s.unlock_stop();
    assert!(matches!(e.create(&s, &mut idle), Created::Sleep(50)));
    s.stop(&mut e.reader, &mut e.hdr, 42);
    assert_eq!((e.hdr.consumer_owner_pid, s.timeline.expected_gen), (0, 0));
    assert!(matches!(e.create(&s, &mut idle), Created::Flushing));
}

#[test]
fn a_second_source_takes_over() {
    let mut e = ends();
    let mut first = SourceState::new(SourceSettings::new(PATH));
    first.start(&mut e.reader, &mut e.hdr, 42, SECOND).unwrap();
    e.publish(&[1], 0);
    let mut second = SourceState::new(SourceSettings::new(PATH));
    second.start(&mut e.reader, &mut e.hdr, 43, 2 * SECOND).unwrap();
    assert!(second.started && second.timeline.need_discont);
    assert_eq!((e.hdr.consumer_owner_pid, second.timeline.expected_gen), (43, 2));
    assert_eq!((e.hdr.consumer_heartbeat_ns, e.hdr.ready_tail), (2 * SECOND, 1));
    // The first one has nothing left to give up.
    first.stop(&mut e.reader, &mut e.hdr, 42);
    assert_eq!(e.hdr.consumer_owner_pid, 43);
}

#[test]
fn a_source_gets_the_latest_or_the_oldest() {
    for (latest_only, seq, dropped) in [(true, 4, 3), (false, 1, 0)] {
        let mut e = ends();
        let mut settings = SourceSettings::new(PATH);
        settings.latest_only = latest_only;
        let mut s = SourceState::new(settings);
        s.start(&mut e.reader, &mut e.hdr, 42, SECOND).unwrap();
        for i in 0..5u8 {
            e.publish(&[i], i as i64);
        }
        let mut idle = 0;
        let Created::Frame(f) = e.create(&s, &mut idle) else {
            panic!("five frames wait");
        };
        assert_eq!((f.desc.seq, f.dropped), (seq, dropped));
        assert_eq!(e.arena[f.at as usize] as u64, seq - 1);
        assert_eq!(f.snap.generation, 1);
        assert_eq!(e.hdr.rec_head, dropped);
    }
}

#[test]
fn a_frame_outside_the_arena_fails() {
    let mut e = ends();
    let mut s = SourceState::new(SourceSettings::new(PATH));
    s.start(&mut e.reader, &mut e.hdr, 42, SECOND).unwrap();
    e.publish(&[1], 0);
    e.hdr.arena_size = 0;
    let mut idle = 3;
    assert!(matches!(e.create(&s, &mut idle), Created::Failed));
    assert_eq!(idle, 3);
}

#[test]
fn frames_are_stamped_as_the_settings_say() {
    let mut e = ends();
    let mut s = SourceState::new(SourceSettings::new(PATH));
    s.start(&mut e.reader, &mut e.hdr, 42, SECOND).unwrap();
    e.writer.emit_timeline_snapshot(&mut e.hdr, 40, SECOND);
    e.publish(&[1], 40);
    let mut idle = 0;
    let Created::Frame(f) = e.create(&s, &mut idle) else {
        panic!("a frame waits");
    };
    s.settings.live_only = false;
    let own = s.stamp(&f, Some(9000));
    assert_eq!((own.pts_ns, own.discont), (Some(40), false));
    assert!(s.timeline.need_discont);
    s.settings.live_only = true;
    let live = s.stamp(&f, Some(9000));
    assert_eq!((live.pts_ns, live.discont), (Some(SECOND), true));
    assert!(!s.timeline.need_discont);
}

#[test]
fn frames_last_as_long_as_the_producer_tells() {
    assert_eq!(frame_duration(0), None);
    assert_eq!(frame_duration(-5), None);
    assert_eq!(frame_duration(33), Some(33));
    let mut ts = started();
    assert_eq!(ts.stamp(0, 33, snap(1, 1, 0), Some(0), 0).duration_ns, Some(33));
    assert_eq!(ts.stamp(0, 0, snap(1, 1, 0), Some(0), 0).duration_ns, None);
    let mut e = ends();
    let mut s = SourceState::new(SourceSettings::new(PATH));
    s.start(&mut e.reader, &mut e.hdr, 42, SECOND).unwrap();
    e.publish(&[1], 40);
    let mut idle = 0;
    let Created::Frame(mut f) = e.create(&s, &mut idle) else {
        panic!("a frame waits");
    };
    assert_eq!(s.stamp(&f, None).duration_ns, None);
    f.desc.duration_ns = 20 * MS;
    for live_only in [true, false] {
        s.settings.live_only = live_only;
        assert_eq!(s.stamp(&f, None).duration_ns, Some(20 * MS as u64));
    }
}

#[test]
fn an_attached_source_follows_the_producers_clock() {
    let mut e = ends();
    let mut s = SourceState::new(SourceSettings::new(PATH));
    s.start(&mut e.reader, &mut e.hdr, 42, SECOND).unwrap();
    let published = 3 * SECOND + 17;
    let p = e.writer.publish_live(
        &mut e.hdr,
        &mut e.ready,
        &e.recycle,
        &mut e.arena,
        &[1],
        40,
        published,
    );
    assert!(p.is_ok());
    let mut idle = 0;
    let Created::Frame(f) = e.create(&s, &mut idle) else {
        panic!("a frame waits");
    };
    let stamp = s.stamp(&f, Some(9000));
    assert_eq!((stamp.pts_ns, stamp.discont), (Some(published), true));
}

#[test]
fn source_properties_start_with_their_defaults() {
    let s = SourceSettings::new(PATH);
    for p in properties() {
        let spec = p.describe();
        assert_eq!(SourceProperty::named(spec.name), Some(p));
        match (s.property(p), spec.kind) {
            (PropertyValue::Text(Some(v)), PropertyKind::Path) => assert_eq!(v, PATH),
            (PropertyValue::Flag(v), PropertyKind::Flag(d)) => assert_eq!(v, d),
            other => panic!("{other:?}"),
        }
    }
    assert_eq!(SourceProperty::named(""), None);
    assert!(!s.is_live && s.live_only && s.latest_only);
    assert_eq!(SourceProperty::LatestOnly.describe().nick, "Latest only");
}

#[test]
fn source_properties_are_told_as_they_were_set() {
    let mut s = SourceSettings::new(PATH);
    s.set_property(SourceProperty::IsLive, PropertyValue::Flag(true), PATH);
    s.set_property(SourceProperty::LiveOnly, PropertyValue::Flag(false), PATH);
    s.set_property(SourceProperty::LatestOnly, PropertyValue::Flag(false), PATH);
    s.set_property(SourceProperty::LatestOnly, PropertyValue::Number(1), PATH);
    assert!(matches!(s.property(SourceProperty::IsLive), PropertyValue::Flag(true)));
    assert!(matches!(s.property(SourceProperty::LiveOnly), PropertyValue::Flag(false)));
    assert!(matches!(s.property(SourceProperty::LatestOnly), PropertyValue::Flag(false)));
    s.set_property(SourceProperty::ShmPath, PropertyValue::Text(Some("/y".to_string())), PATH);
    assert_eq!(s.shm_path, "/y");
    s.set_property(SourceProperty::ShmPath, PropertyValue::Text(None), PATH);
    assert_eq!(s.shm_path, PATH);
}
