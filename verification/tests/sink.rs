use gstshm2::element::{create_failure_message, invalid_path_message, open_failure_message};
use gstshm2::element::{PropertyKind, PropertyValue};
use gstshm2::platform::ShmError;
use gstshm2::sink::render::{published_pts, Rendered, SinkSession, SinkState};
use gstshm2::sink::settings::{properties, SinkProperty, SinkSettings};
use gstshm2::transport::header::validate_header;
use gstshm2::transport::{Reader, SharedHeader};

const SECOND: u64 = 1_000_000_000;
const REGION: usize = 1 << 20;
const PATH: &str = "/dev/shm/gst-shm2-default";

struct Sink {
    state: SinkState,
    session: SinkSession,
    hdr: SharedHeader,
    ready: Vec<u8>,
    recycle: Vec<u8>,
    arena: Vec<u8>,
}

fn sink() -> Sink {
    let settings = SinkSettings::new(PATH);
    let (session, hdr) = SinkSession::start(&settings, REGION, 7, SECOND).unwrap();
    let mut state = SinkState::new(settings);
    state.start();
    let arena = vec![0; hdr.arena_size as usize];
    Sink {
        state,
        session,
        hdr,
        ready: vec![0; 4096 * 64],
        recycle: vec![0; 4096 * 64],
        arena,
    }
}

impl Sink {
    fn render(&mut self, payload: &[u8], own_block: Option<u64>, now: u64) -> Rendered {
        self.session.render(
            &self.state,
            &mut self.hdr,
            &mut self.ready,
            &self.recycle,
            &mut self.arena,
            payload,
            Some(500),
            own_block,
            now,
        )
    }

    fn attach(&mut self) -> Reader {
        let mut reader = Reader::open(&self.hdr, self.hdr.total_size as usize).unwrap();
        reader.claim_consumer(&mut self.hdr, 42, SECOND).unwrap();
        reader
    }

    fn lend(&mut self, size: usize) -> u64 {
        let lease = self.session.tracker.alloc_lease_for_upstream(
            &mut self.session.writer,
            &mut self.hdr,
            &self.recycle,
            size,
            64,
            SECOND,
        );
        lease.unwrap().offset
    }
}

#[test]
fn a_live_sink_publishes_to_nobody() {
    let mut s = sink();
    for i in 0..5000u64 {
        assert!(matches!(s.render(&[i as u8; 300], None, SECOND), Rendered::Done));
        assert_eq!(s.hdr.ready_head, i + 1);
        assert!(s.hdr.ready_head - s.hdr.ready_tail <= 4096);
    }
    assert!(s.hdr.ready_tail > 0);
    assert_eq!((s.hdr.timeline_valid, s.hdr.timeline_producer_pts_ns), (1, 500));
}

#[test]
fn a_frame_larger_than_the_arena_fails() {
    let mut s = sink();
    let big = vec![0; s.arena.len() + 1];
    assert!(matches!(s.render(&big, None, SECOND), Rendered::Failed));
    assert_eq!((s.hdr.alloc_failures, s.hdr.ready_head), (1, 0));
    let fits = vec![1; s.arena.len()];
    assert!(matches!(s.render(&fits, None, SECOND), Rendered::Done));
}

#[test]
fn a_sink_that_takes_no_frames_turns_them_away() {
    let mut s = sink();
    s.state.unlock();
    assert!(matches!(s.render(&[1], None, SECOND), Rendered::Flushing));
    s.state.unlock_stop();
    assert!(matches!(s.render(&[1], None, SECOND), Rendered::Done));
    s.state.stop();
    assert!(matches!(s.render(&[1], None, SECOND), Rendered::Flushing));
    assert_eq!(s.hdr.ready_head, 1);
}

#[test]
fn a_sink_waits_for_no_consumer() {
    let mut s = sink();
    assert!(matches!(s.render(&[7], None, SECOND), Rendered::Done));
    assert_eq!(s.hdr.ready_head, 1);
    let mut reader = s.attach();
    assert!(matches!(s.render(&[9, 8], None, SECOND), Rendered::Done));
    let d = reader.try_recv_desc(&mut s.hdr, &s.ready, SECOND).unwrap().unwrap();
    assert_eq!((d.seq, d.pts_ns, d.len), (2, 500, 2));
    // The consumer's heart stopped long ago.
    assert!(matches!(s.render(&[1], None, 60 * SECOND), Rendered::Done));
    assert_eq!(s.hdr.ready_head, 3);
}

#[test]
fn a_full_arena_makes_room_for_the_newest() {
    let mut s = sink();
    let mut reader = s.attach();
    let fits = vec![1; s.arena.len()];
    assert!(matches!(s.render(&fits, None, SECOND), Rendered::Done));
    assert!(matches!(s.render(&[2], None, SECOND), Rendered::Done));
    let d = reader.try_recv_desc(&mut s.hdr, &s.ready, SECOND).unwrap().unwrap();
    assert_eq!((d.seq, d.len, s.arena[d.offset as usize]), (2, 1, 2));
    assert_eq!(s.hdr.arena_used_bytes, 1);
}

#[test]
fn a_lent_block_is_published_where_it_is() {
    let mut s = sink();
    let mut reader = s.attach();
    let at = s.lend(100);
    assert!(matches!(s.render(&[0; 100], Some(at), SECOND), Rendered::Done));
    let d = reader.try_recv_desc(&mut s.hdr, &s.ready, SECOND).unwrap().unwrap();
    assert_eq!((d.offset, d.len), (at, 100));
    assert_eq!(s.hdr.arena_used_bytes, 100);
    // It is no longer lent: to let go of it frees nothing.
    let sess = &mut s.session;
    sess.tracker.release_unpublished(&mut sess.writer, &mut s.hdr, at);
    assert_eq!(s.hdr.arena_used_bytes, 100);
}

#[test]
fn a_lent_block_spares_the_frames_that_wait() {
    let mut s = sink();
    let mut reader = s.attach();
    let at = s.lend(50);
    for i in 0..4096u64 {
        assert!(matches!(s.render(&[i as u8; 3], None, SECOND), Rendered::Done));
    }
    // The ring is full: the oldest frame is dropped, and no other.
    assert!(matches!(s.render(&[0; 50], Some(at), SECOND), Rendered::Done));
    assert_eq!((s.hdr.ready_head, s.hdr.ready_tail), (4097, 1));
    for i in 1..4096u64 {
        let d = reader.try_recv_desc(&mut s.hdr, &s.ready, SECOND).unwrap().unwrap();
        let from = d.offset as usize;
        assert_eq!(d.seq, i + 1);
        assert_eq!(&s.arena[from..from + 3], &[i as u8; 3][..]);
    }
    let d = reader.try_recv_desc(&mut s.hdr, &s.ready, SECOND).unwrap().unwrap();
    assert_eq!((d.offset, d.len), (at, 50));
}

#[test]
fn published_frames_spare_lent_blocks() {
    let mut s = sink();
    let at = s.lend(64) as usize;
    for byte in &mut s.arena[at..at + 64] {
        *byte = 9;
    }
    let third = vec![1; s.arena.len() / 3];
    for _ in 0..10 {
        assert!(matches!(s.render(&third, None, SECOND), Rendered::Done));
    }
    assert_eq!(s.hdr.timeline_gen, 0);
    assert_eq!(&s.arena[at..at + 64], &[9; 64][..]);
    assert!(s.session.tracker.is_lent(at as u64, 64));
}

#[test]
fn the_header_stays_acceptable() {
    let mut s = sink();
    let total = s.hdr.total_size;
    let mut reader = s.attach();
    let at = s.lend(10);
    let whole = vec![3; s.arena.len()];
    for (payload, own) in [(&[1; 10][..], Some(at)), (&[2; 5][..], None), (&whole[..], None)] {
        assert!(matches!(s.render(payload, own, SECOND), Rendered::Done));
        assert!(validate_header(&s.hdr, total).is_ok());
    }
    reader.try_recv_desc(&mut s.hdr, &s.ready, SECOND).unwrap().unwrap();
    reader.release_consumer(&mut s.hdr, 42);
    s.session.writer.set_stopped(&mut s.hdr);
    assert!(validate_header(&s.hdr, total).is_ok());
    assert!(Reader::open(&s.hdr, total as usize).is_ok());
}

#[test]
fn a_lent_block_needs_no_bytes() {
    let mut s = sink();
    let at = s.lend(100);
    assert!(s.session.tracker.is_lent(at, 100));
    assert!(!s.session.tracker.is_lent(at, 99));
    assert!(!s.session.tracker.is_lent(at + 1, 100));
    let r = s.session.render_lent(
        &s.state,
        &mut s.hdr,
        &mut s.ready,
        &s.recycle,
        at,
        100,
        None,
        SECOND,
    );
    assert!(matches!(r, Rendered::Done));
    assert!(!s.session.tracker.is_lent(at, 100));
    assert_eq!(s.hdr.ready_head, 1);
}

#[test]
fn a_lent_block_that_is_cut_is_copied() {
    let mut s = sink();
    let mut reader = s.attach();
    let at = s.lend(100);
    assert!(matches!(s.render(&[3; 99], Some(at), SECOND), Rendered::Done));
    let d = reader.try_recv_desc(&mut s.hdr, &s.ready, SECOND).unwrap().unwrap();
    assert_ne!(d.offset, at);
    assert_eq!(&s.arena[d.offset as usize..d.offset as usize + 99], &[3; 99][..]);
    let sess = &mut s.session;
    sess.tracker.release_unpublished(&mut sess.writer, &mut s.hdr, at);
    assert_eq!(s.hdr.arena_used_bytes, 99);
}

#[test]
fn lending_fails_when_the_arena_is_full() {
    let mut s = sink();
    let all = s.arena.len();
    s.lend(all);
    let refused = s.session.tracker.alloc_lease_for_upstream(
        &mut s.session.writer,
        &mut s.hdr,
        &s.recycle,
        1,
        64,
        SECOND,
    );
    assert_eq!(refused.unwrap_err(), "shm allocation failed");
}

#[test]
fn a_reset_takes_lent_blocks_along() {
    let mut s = sink();
    let all = s.arena.len();
    let at = s.lend(all);
    assert!(matches!(s.render(&[1; 10], None, SECOND), Rendered::Done));
    assert_eq!(s.hdr.timeline_gen, 1);
    assert!(s.session.tracker.mark_published(at, all).is_none());
    let sess = &mut s.session;
    sess.tracker.release_unpublished(&mut sess.writer, &mut s.hdr, at);
    assert_eq!(s.hdr.arena_used_bytes, 10);
}

#[test]
fn time_stamps_are_published_as_they_are() {
    assert_eq!(published_pts(None), -1);
    assert_eq!(published_pts(Some(0)), 0);
    assert_eq!(published_pts(Some(12)), 12);
    assert_eq!(published_pts(Some(u64::MAX)), -1);
}

#[test]
fn a_region_without_room_for_an_arena_is_refused() {
    let settings = SinkSettings::new(PATH);
    let err = SinkSession::start(&settings, 4096, 1, 1).unwrap_err();
    assert_eq!(err.message(), "invalid config: insufficient total size for arena");
}

#[test]
fn sink_properties_start_with_their_defaults() {
    let s = SinkSettings::new(PATH);
    for p in properties() {
        let spec = p.describe();
        assert_eq!(SinkProperty::named(spec.name), Some(p));
        match (s.property(p), spec.kind) {
            (PropertyValue::Text(Some(v)), PropertyKind::Path) => assert_eq!(v, PATH),
            (PropertyValue::Long(v), PropertyKind::Long(d)) => assert_eq!(v, d),
            (PropertyValue::Number(v), PropertyKind::Number { default, minimum, maximum }) => {
                assert_eq!(v, default);
                assert!(minimum <= v && v <= maximum);
            }
            other => panic!("{other:?}"),
        }
    }
    assert_eq!(SinkProperty::named("shm_path"), None);
    assert_eq!(SinkProperty::named("wait-for-connection"), None);
    let names: Vec<&str> = properties().iter().map(|p| p.describe().name).collect();
    assert_eq!(
        names,
        vec!["shm-path", "shm-size", "perms", "timeline-beacon-ms"]
    );
    let beacon = SinkProperty::TimelineBeaconMs.describe();
    assert_eq!(beacon.nick, "Timeline beacon");
    assert_eq!(beacon.blurb, "Timeline synchronization beacon period in milliseconds");
    assert_eq!((s.shm_size, s.perms), (67108864, 0o660));
}

#[test]
fn sink_properties_are_told_as_they_were_set() {
    let mut s = SinkSettings::new(PATH);
    s.set_property(SinkProperty::ShmPath, PropertyValue::Text(Some("/x".to_string())), PATH);
    assert_eq!(s.shm_path, "/x");
    s.set_property(SinkProperty::ShmPath, PropertyValue::Flag(true), PATH);
    assert_eq!(s.shm_path, "/x");
    s.set_property(SinkProperty::ShmPath, PropertyValue::Text(None), PATH);
    assert_eq!(s.shm_path, PATH);
    s.set_property(SinkProperty::ShmSize, PropertyValue::Long(12), PATH);
    s.set_property(SinkProperty::Perms, PropertyValue::Number(0o600), PATH);
    s.set_property(SinkProperty::TimelineBeaconMs, PropertyValue::Number(0), PATH);
    assert!(matches!(s.property(SinkProperty::ShmSize), PropertyValue::Long(12)));
    assert!(matches!(s.property(SinkProperty::Perms), PropertyValue::Number(0o600)));
    assert!(matches!(s.property(SinkProperty::TimelineBeaconMs), PropertyValue::Number(1)));
    s.set_property(SinkProperty::ShmSize, PropertyValue::Number(3), PATH);
    let cfg = s.transport_config();
    assert_eq!((cfg.total_size, cfg.perms, cfg.timeline_beacon_ms), (12, 0o600, 1));
    assert_eq!((cfg.ready_capacity, cfg.recycle_capacity, cfg.allocator_align), (4096, 4096, 64));
}

#[test]
fn failed_starts_are_told_in_words() {
    let e = ShmError::Protocol("magic mismatch");
    assert_eq!(
        invalid_path_message("a", &e),
        "Invalid shm-path 'a': protocol error: magic mismatch"
    );
    assert_eq!(
        create_failure_message("a", "b", &e),
        "Failed to create shm writer at a (resolved 'b'): protocol error: magic mismatch"
    );
    assert_eq!(
        open_failure_message("a", "b", &e),
        "Failed to open shm reader at a (resolved 'b'): protocol error: magic mismatch"
    );
}
