use gstshm2::platform::ShmError;
use gstshm2::transport::clock::{checksum32, now_nanos, poll_yield_sleep, Turn};
use gstshm2::transport::desc::{read_ready, read_recycled_id, write_entry};
use gstshm2::transport::header::{map_layout, validate_header, STATE_RUNNING, STATE_STOPPED};
use gstshm2::transport::writer::Publish;
use gstshm2::transport::{Reader, ReadyDesc, RecycleDesc, SharedHeader, TransportConfig, Writer};
use std::mem::size_of;

struct Region {
    hdr: SharedHeader,
    ready: Vec<u8>,
    recycle: Vec<u8>,
    arena: Vec<u8>,
}

const SECOND: u64 = 1_000_000_000;

fn config() -> TransportConfig {
    TransportConfig {
        total_size: 16384,
        ready_capacity: 4,
        recycle_capacity: 4,
        ..TransportConfig::default()
    }
}

fn region() -> (Writer, Region) {
    let (writer, hdr) = Writer::create(16384, &config(), 7, SECOND).unwrap();
    let arena = vec![0; hdr.arena_size as usize];
    (writer, Region { hdr, ready: vec![0; 4 * 64], recycle: vec![0; 4 * 64], arena })
}

fn attached() -> (Writer, Reader, Region) {
    let (writer, mut r) = region();
    let mut reader = Reader::open(&r.hdr, 16384).unwrap();
    reader.claim_consumer(&mut r.hdr, 42, SECOND).unwrap();
    (writer, reader, r)
}

impl Region {
    fn publish(&mut self, w: &mut Writer, payload: &[u8], pts: i64) -> Result<Publish, ShmError> {
        w.publish(
            &mut self.hdr,
            &mut self.ready,
            &self.recycle,
            &mut self.arena,
            payload,
            pts,
            SECOND,
        )
    }

    fn publish_live(&mut self, w: &mut Writer, payload: &[u8], pts: i64) -> (u32, u64, bool) {
        let p = w
            .publish_live(
                &mut self.hdr,
                &mut self.ready,
                &self.recycle,
                &mut self.arena,
                payload,
                pts,
                SECOND,
            )
            .unwrap();
        (p.buffer_id, p.dropped, p.reset)
    }
}

#[test]
fn descriptor_sizes_are_cacheline_aligned() {
    assert_eq!(size_of::<ReadyDesc>(), 64);
    assert_eq!(size_of::<RecycleDesc>(), 64);
}

#[test]
fn entries_survive_in_their_slots() {
    let d = ReadyDesc {
        seq: 9,
        offset: 0x1_0000_0001,
        length: 77,
        buffer_id: 5,
        pts_ns: -1,
        dts_ns: i64::MIN,
        duration_ns: 33,
        flags: 3,
        checksum: 8,
        reserved: [1; 8],
    };
    let back = RecycleDesc { seq: 2, buffer_id: 0xdead_beef, ..RecycleDesc::default() };
    let mut ring = vec![0u8; 3 * 64];
    write_entry(&mut ring, 1, &d.to_bytes());
    write_entry(&mut ring, 2, &back.to_bytes());
    let r = read_ready(&ring, 1);
    assert_eq!((r.seq, r.offset, r.len, r.buffer_id), (9, 0x1_0000_0001, 77, 5));
    assert_eq!((r.pts_ns, r.dts_ns, r.duration_ns, r.flags), (-1, i64::MIN, 33, 3));
    assert_eq!(read_recycled_id(&ring, 2), 0xdead_beef);
    assert_eq!(&ring[..64], &[0u8; 64][..]);
    assert_eq!(&ring[64..72], &[9, 0, 0, 0, 0, 0, 0, 0]);
    assert_eq!(&ring[72..80], &[1, 0, 0, 0, 1, 0, 0, 0]);
    assert_eq!(RecycleDesc::default().to_bytes(), vec![0; 64]);
}

#[test]
fn the_layout_has_its_parts_in_order() {
    let l = map_layout(16384, 4, 4).unwrap();
    assert_eq!((l.ready_offset, l.recycle_offset), (4096, 4352));
    assert_eq!((l.arena_offset, l.arena_size), (8192, 8192));
    let full = map_layout(64 << 20, 4096, 4096).unwrap();
    assert_eq!((full.ready_offset, full.recycle_offset), (4096, 4096 + 262144));
    assert_eq!(full.arena_offset, 4096 + 2 * 262144);
    assert_eq!(
        map_layout(8192, 4, 4).unwrap_err().message(),
        "invalid config: insufficient total size for arena"
    );
}

#[test]
fn rings_need_room() {
    for (ready_capacity, recycle_capacity) in [(0, 4), (4, 0)] {
        let cfg = TransportConfig { ready_capacity, recycle_capacity, ..config() };
        let err = Writer::create(16384, &cfg, 7, 1).unwrap_err();
        assert_eq!(err.message(), "invalid config: ring capacities must be non-zero");
    }
}

#[test]
fn a_new_header_is_filled_in_and_accepted() {
    let (writer, r) = region();
    assert_eq!(writer.region_size(), 16384);
    assert_eq!(&r.hdr.magic, b"GSTSHM2\0");
    assert_eq!((r.hdr.version_major, r.hdr.version_minor), (1, 0));
    assert_eq!((r.hdr.header_size, r.hdr.total_size), (4096, 16384));
    assert_eq!((r.hdr.owner_pid, r.hdr.consumer_owner_pid), (7, 0));
    assert_eq!((r.hdr.epoch, r.hdr.producer_heartbeat_ns), (1, SECOND));
    assert_eq!((r.hdr.ready_capacity, r.hdr.ready_entry_size), (4, 64));
    assert_eq!((r.hdr.rec_capacity, r.hdr.rec_entry_size), (4, 64));
    assert_eq!((r.hdr.wait_for_connection, r.hdr.drop_when_no_consumer), (1, 0));
    assert_eq!(r.hdr.state, STATE_RUNNING);
    assert!(Reader::open(&r.hdr, 16384).is_ok());
    assert!(r.hdr.is_mapped(16384));
    assert!(!r.hdr.is_mapped(16383));
}

#[test]
fn a_foreign_header_is_refused() {
    let (_, r) = region();
    let cases = [
        (SharedHeader { magic: *b"GSTSHM1\0", ..r.hdr }, "magic mismatch"),
        (SharedHeader { version_major: 2, ..r.hdr }, "major version mismatch"),
        (SharedHeader { total_size: 16383, ..r.hdr }, "mapped size mismatch"),
        (SharedHeader { ready_entry_size: 65, ..r.hdr }, "ready entry size mismatch"),
        (SharedHeader { rec_entry_size: 63, ..r.hdr }, "recycle entry size mismatch"),
    ];
    for (hdr, reason) in cases {
        let want = format!("protocol error: {reason}");
        assert_eq!(validate_header(&hdr, 16384).unwrap_err().message(), want);
        assert_eq!(Reader::open(&hdr, 16384).unwrap_err().message(), want);
    }
    let minor = SharedHeader { version_minor: 9, ..r.hdr };
    assert!(Reader::open(&minor, 16384).is_ok());
}

#[test]
fn a_frame_arrives_as_it_was_published() {
    let (mut w, mut reader, mut r) = attached();
    assert!(matches!(r.publish(&mut w, b"hello", 123), Ok(Publish::Published(1))));
    assert_eq!(r.hdr.arena_used_bytes, 5);
    let mut idle = 0;
    let got = reader.recv_blocking(&mut r.hdr, &r.ready, &r.arena, &mut idle, SECOND);
    let Ok(Turn::Done(buf)) = got else {
        panic!("{got:?}");
    };
    assert_eq!(buf.payload, b"hello");
    assert_eq!((buf.seq, buf.buffer_id), (1, 1));
    assert_eq!((buf.pts_ns, buf.dts_ns, buf.duration_ns, buf.flags), (123, 123, 0, 0));
    let t = reader.recycle(&mut r.hdr, &mut r.recycle, &buf, &mut idle, SECOND);
    assert!(matches!(t, Turn::Done(())));
    w.drain_recycles(&mut r.hdr, &r.recycle, SECOND + 1);
    assert_eq!((r.hdr.arena_used_bytes, r.hdr.arena_high_watermark), (0, 5));
    assert_eq!(r.hdr.producer_heartbeat_ns, SECOND + 1);
    assert_eq!((r.hdr.rec_head, r.hdr.rec_tail), (1, 1));
}

#[test]
fn frames_arrive_in_order_around_the_ring() {
    let (mut w, mut reader, mut r) = attached();
    let mut sent = 0u8;
    let mut taken = 0u8;
    for round in 1..=9u8 {
        let burst = 1 + round % 3;
        for _ in 0..burst {
            assert!(matches!(r.publish(&mut w, &[sent], sent as i64), Ok(Publish::Published(_))));
            sent += 1;
        }
        for _ in 0..burst {
            let d = reader.try_recv_desc(&mut r.hdr, &r.ready, SECOND).unwrap().unwrap();
            assert_eq!(d.seq, taken as u64 + 1);
            let at = reader.payload_ptr(&r.hdr, &d).unwrap() as usize;
            assert_eq!(&r.arena[at..at + 1], &[taken]);
            taken += 1;
            let mut idle = 0;
            let t = reader.recycle_desc(
                &mut r.hdr,
                &mut r.recycle,
                d.buffer_id,
                d.offset,
                d.len,
                0,
                &mut idle,
                SECOND,
            );
            assert!(matches!(t, Turn::Done(())));
        }
    }
    assert!(reader.try_recv_desc(&mut r.hdr, &r.ready, SECOND).unwrap().is_none());
}

#[test]
fn waiting_frames_are_left_alone() {
    let (mut w, mut reader, mut r) = attached();
    for i in 0..4u8 {
        r.publish(&mut w, &[i; 100], 0).unwrap();
    }
    for i in 0..4u8 {
        let d = reader.try_recv_desc(&mut r.hdr, &r.ready, SECOND).unwrap().unwrap();
        let at = d.offset as usize;
        assert_eq!(&r.arena[at..at + 100], &[i; 100][..]);
        assert_eq!(at % 64, 0);
    }
}

#[test]
fn nobody_to_publish_to_costs_nothing() {
    let (mut w, mut r) = region();
    assert!(matches!(r.publish(&mut w, b"x", 0), Err(ShmError::NoConsumer)));
    assert_eq!((r.hdr.arena_used_bytes, r.hdr.ready_head), (0, 0));
    let lease = w.alloc_lease(&mut r.hdr, &r.recycle, 8192, 64, SECOND).unwrap();
    assert_eq!((lease.offset, lease.len), (0, 8192));
    let refused = w.publish_lease(&mut r.hdr, &mut r.ready, &r.recycle, lease, 0, SECOND);
    assert!(matches!(refused, Err(ShmError::NoConsumer)));
    assert!(w.free_lease(&mut r.hdr, lease.buffer_id));
    assert!(!w.free_lease(&mut r.hdr, lease.buffer_id));
}

#[test]
fn a_full_arena_is_told() {
    let (mut w, _, mut r) = attached();
    assert!(matches!(r.publish(&mut w, &[1; 8193], 0), Err(ShmError::Exhausted)));
    assert_eq!(r.hdr.alloc_failures, 1);
    r.publish(&mut w, &[1; 8192], 0).unwrap();
    assert!(matches!(r.publish(&mut w, &[1], 0), Err(ShmError::Exhausted)));
    assert_eq!(r.hdr.alloc_failures, 2);
}

#[test]
fn a_full_ring_keeps_the_block() {
    let (mut w, mut reader, mut r) = attached();
    for i in 0..4u8 {
        r.publish(&mut w, &[i], 0).unwrap();
    }
    let Ok(Publish::RingFull(lease)) = r.publish(&mut w, &[9], 55) else {
        panic!("the ring holds four");
    };
    assert!(!w.enqueue_lease(&mut r.hdr, &mut r.ready, &r.recycle, lease, 55, SECOND));
    reader.try_recv_desc(&mut r.hdr, &r.ready, SECOND).unwrap().unwrap();
    assert!(w.enqueue_lease(&mut r.hdr, &mut r.ready, &r.recycle, lease, 55, SECOND));
    let mut last = None;
    while let Some(d) = reader.try_recv_desc(&mut r.hdr, &r.ready, SECOND).unwrap() {
        last = Some(d);
    }
    let last = last.unwrap();
    assert_eq!((last.seq, last.pts_ns, last.buffer_id), (5, 55, lease.buffer_id));
}

#[test]
fn returned_buffers_that_are_unknown_or_doubled_are_ignored() {
    let (mut w, mut reader, mut r) = attached();
    r.publish(&mut w, &[1; 10], 0).unwrap();
    for id in [1, 1, 99] {
        let mut idle = 0;
        reader.recycle_desc(&mut r.hdr, &mut r.recycle, id, 0, 10, 0, &mut idle, SECOND);
    }
    w.drain_recycles(&mut r.hdr, &r.recycle, SECOND);
    assert_eq!((r.hdr.arena_used_bytes, r.hdr.rec_tail), (0, 3));
    assert!(w.alloc_lease(&mut r.hdr, &r.recycle, 8192, 1, SECOND).is_ok());
}

#[test]
fn a_full_recycle_ring_makes_the_consumer_wait() {
    let (_, mut reader, mut r) = attached();
    let mut idle = 0;
    for id in 1..=4 {
        let t = reader.recycle_desc(&mut r.hdr, &mut r.recycle, id, 0, 1, 0, &mut idle, SECOND);
        assert!(matches!(t, Turn::Done(())));
    }
    let t = reader.recycle_desc(&mut r.hdr, &mut r.recycle, 5, 0, 1, 0, &mut idle, SECOND);
    assert!(matches!(t, Turn::Sleep(50)));
    assert_eq!((idle, r.hdr.rec_head), (1, 4));
}

#[test]
fn payloads_outside_the_arena_are_refused() {
    let (mut w, mut reader, mut r) = attached();
    r.publish(&mut w, &[1], 0).unwrap();
    r.hdr.arena_size = 0;
    let err = reader.try_recv_desc(&mut r.hdr, &r.ready, SECOND).unwrap_err();
    assert_eq!(err.message(), "protocol error: payload out of arena bounds");
    assert_eq!(r.hdr.ready_tail, 0);
    r.ready[8..16].copy_from_slice(&u64::MAX.to_le_bytes());
    let err = reader.try_recv_desc(&mut r.hdr, &r.ready, SECOND).unwrap_err();
    assert_eq!(err.message(), "protocol error: overflow in payload bounds");
}

#[test]
fn a_second_consumer_takes_over() {
    let (mut w, mut reader, mut r) = attached();
    let before = r.hdr.timeline_gen;
    r.publish(&mut w, &[1], 0).unwrap();
    let mut other = Reader::open(&r.hdr, 16384).unwrap();
    other.claim_consumer(&mut r.hdr, 43, 2 * SECOND).unwrap();
    assert_eq!((r.hdr.consumer_owner_pid, r.hdr.consumer_heartbeat_ns), (43, 2 * SECOND));
    assert_eq!((r.hdr.ready_tail, r.hdr.timeline_gen), (1, before + 1));
    // The first one gives up nothing, for it owns nothing.
    reader.release_consumer(&mut r.hdr, 42);
    assert_eq!(r.hdr.consumer_owner_pid, 43);
    other.release_consumer(&mut r.hdr, 43);
    assert_eq!(r.hdr.consumer_owner_pid, 0);
}

#[test]
fn attaching_skips_what_waits() {
    let (mut w, mut reader, mut r) = attached();
    let before = r.hdr.timeline_gen;
    r.publish(&mut w, &[1], 0).unwrap();
    r.publish(&mut w, &[2], 0).unwrap();
    reader.claim_consumer(&mut r.hdr, 42, SECOND).unwrap();
    assert!(reader.try_recv_desc(&mut r.hdr, &r.ready, SECOND).unwrap().is_none());
    assert_eq!((r.hdr.timeline_gen, r.hdr.timeline_valid), (before + 1, 0));
}

#[test]
fn a_consumer_is_present_while_its_heart_beats() {
    let (w, r) = region();
    assert!(!w.is_consumer_online(&r.hdr, SECOND, SECOND));
    let (w, reader, mut r) = attached();
    assert!(w.is_consumer_online(&r.hdr, SECOND, 2 * SECOND));
    assert!(!w.is_consumer_online(&r.hdr, SECOND, 2 * SECOND + 1));
    reader.consumer_heartbeat_tick(&mut r.hdr, 5 * SECOND);
    assert!(w.is_consumer_online(&r.hdr, 0, 5 * SECOND));
    assert!(w.is_consumer_online(&r.hdr, 0, SECOND));
    reader.consumer_heartbeat_tick(&mut r.hdr, 0);
    assert!(!w.is_consumer_online(&r.hdr, SECOND, 0));
}

#[test]
fn the_producer_shows_its_state() {
    let (w, mut r) = region();
    w.set_stopped(&mut r.hdr);
    assert_eq!(r.hdr.state, STATE_STOPPED);
    w.set_running(&mut r.hdr);
    assert_eq!(r.hdr.state, STATE_RUNNING);
    w.producer_heartbeat_tick(&mut r.hdr, 77);
    assert_eq!(r.hdr.producer_heartbeat_ns, 77);
}

#[test]
fn the_second_newest_frame_is_the_latest() {
    for waiting in 1..=4u64 {
        let (mut w, mut reader, mut r) = attached();
        for i in 0..waiting {
            r.publish(&mut w, &[i as u8], 0).unwrap();
        }
        let got = reader.try_recv_latest_desc(&mut r.hdr, &r.ready, &mut r.recycle, SECOND);
        let (d, dropped) = got.unwrap().unwrap();
        let want = if waiting < 2 { 1 } else { waiting - 1 };
        assert_eq!((d.seq, dropped), (want, want - 1));
        assert_eq!(r.hdr.rec_head, want - 1);
        w.drain_recycles(&mut r.hdr, &r.recycle, SECOND);
        assert_eq!(r.hdr.arena_used_bytes, waiting - (want - 1));
    }
    let (_, mut reader, mut r) = attached();
    let got = reader.try_recv_latest_desc(&mut r.hdr, &r.ready, &mut r.recycle, SECOND);
    assert!(got.unwrap().is_none());
}

#[test]
fn live_publishing_drops_the_oldest() {
    let (mut w, mut r) = region();
    for i in 0..4u8 {
        assert_eq!(r.publish_live(&mut w, &[i], 0), (i as u32 + 1, 0, false));
    }
    assert_eq!(r.publish_live(&mut w, &[4], 0), (5, 1, false));
    assert_eq!((r.hdr.ready_tail, r.hdr.ready_head), (1, 5));
    assert_eq!(r.hdr.arena_used_bytes, 4);
    // A frame as large as the arena drives out all others.
    assert_eq!(r.publish_live(&mut w, &[5; 8192], 0), (6, 4, false));
    assert_eq!((r.hdr.ready_tail, r.hdr.ready_head), (5, 6));
    assert_eq!(r.arena, vec![5; 8192]);
    // Four requests found no room; the ring that was full before asked for none.
    assert_eq!(r.hdr.alloc_failures, 4);
}

#[test]
fn live_publishing_resets_an_arena_that_is_held() {
    let (mut w, mut reader, mut r) = attached();
    r.publish_live(&mut w, &[1; 8000], 0);
    reader.try_recv_desc(&mut r.hdr, &r.ready, SECOND).unwrap().unwrap();
    let before = r.hdr.timeline_gen;
    assert_eq!(r.publish_live(&mut w, &[2; 8000], 0), (2, 0, true));
    assert_eq!((r.hdr.timeline_gen, r.hdr.alloc_failures), (before + 1, 1));
    // The buffer that the consumer held is no longer known.
    let mut idle = 0;
    reader.recycle_desc(&mut r.hdr, &mut r.recycle, 1, 0, 8000, 0, &mut idle, SECOND);
    w.drain_recycles(&mut r.hdr, &r.recycle, SECOND);
    assert_eq!(r.hdr.arena_used_bytes, 8000);
    let refused = w.publish_live(
        &mut r.hdr,
        &mut r.ready,
        &r.recycle,
        &mut r.arena,
        &[3; 8193],
        0,
        SECOND,
    );
    assert!(matches!(refused, Err(ShmError::Exhausted)));
    assert_eq!(r.hdr.alloc_failures, 2);
}

#[test]
fn a_payload_that_cannot_fit_still_takes_buffers_back() {
    let (mut w, mut reader, mut r) = attached();
    r.publish_live(&mut w, &[1; 100], 0);
    let d = reader.try_recv_desc(&mut r.hdr, &r.ready, SECOND).unwrap().unwrap();
    let mut idle = 0;
    reader.recycle_desc(
        &mut r.hdr,
        &mut r.recycle,
        d.buffer_id,
        d.offset,
        d.len,
        0,
        &mut idle,
        SECOND,
    );
    let refused = w.publish_live(
        &mut r.hdr,
        &mut r.ready,
        &r.recycle,
        &mut r.arena,
        &[3; 8193],
        0,
        5 * SECOND,
    );
    assert!(matches!(refused, Err(ShmError::Exhausted)));
    assert_eq!((r.hdr.alloc_failures, r.hdr.arena_used_bytes, r.hdr.rec_tail), (1, 0, 1));
    assert_eq!(r.hdr.producer_heartbeat_ns, 5 * SECOND);
}

#[test]
fn the_timeline_is_shown_when_it_is_due() {
    let (mut w, reader, mut r) = attached();
    assert!(!reader.timeline_snapshot(&r.hdr).valid);
    r.publish_live(&mut w, &[1], 1000);
    let s = reader.timeline_snapshot(&r.hdr);
    assert_eq!((s.generation, s.seq, s.valid), (1, 1, true));
    assert_eq!((s.sink_mono_ns, s.producer_pts_ns), (SECOND, 1000));
    // Nothing new within the beacon's period of 250 ms.
    r.publish_live(&mut w, &[1], 2000);
    assert_eq!(reader.timeline_snapshot(&r.hdr).seq, 1);
    let lease = w.alloc_lease(&mut r.hdr, &r.recycle, 1, 1, SECOND).unwrap();
    let later = SECOND + 250_000_000;
    assert_eq!(w.enqueue_live(&mut r.hdr, &mut r.ready, lease, 3000, later), 0);
    let s = reader.timeline_snapshot(&r.hdr);
    assert_eq!((s.seq, s.sink_mono_ns, s.producer_pts_ns), (2, later, 3000));
}

#[test]
fn waits_grow() {
    let mut idle = 0;
    let sleeps: Vec<u64> = (0..130).map(|_| poll_yield_sleep(&mut idle, 5000)).collect();
    assert_eq!((sleeps[0], sleeps[7], sleeps[8], sleeps[31]), (50, 50, 200, 200));
    assert_eq!((sleeps[32], sleeps[127], sleeps[128]), (1000, 1000, 5000));
    assert!(sleeps.windows(2).all(|w| w[0] <= w[1]));
    let mut last = u32::MAX;
    assert_eq!(poll_yield_sleep(&mut last, 9), 9);
    assert_eq!(last, u32::MAX);
}

#[test]
fn an_empty_ring_makes_the_consumer_wait() {
    let (_, mut reader, mut r) = attached();
    let mut idle = 8;
    let t = reader.recv_desc_blocking(&mut r.hdr, &r.ready, &mut idle, 3 * SECOND).unwrap();
    assert!(matches!(t, Turn::Sleep(200)));
    assert_eq!((idle, r.hdr.consumer_heartbeat_ns), (9, 3 * SECOND));
    let t = reader.recv_blocking(&mut r.hdr, &r.ready, &r.arena, &mut idle, SECOND).unwrap();
    assert!(matches!(t, Turn::Sleep(200)));
}

#[test]
fn clocks_count_nanoseconds() {
    assert_eq!(now_nanos(None), 0);
    assert_eq!(now_nanos(Some((1, 5))), 1_000_000_005);
    assert_eq!(now_nanos(Some((18_446_744_073, 709_551_616))), 0);
}

#[test]
fn checksums_are_rolling_sums() {
    assert_eq!(checksum32(&[]), 0);
    assert_eq!(checksum32(&[5]), 5);
    assert_eq!(checksum32(&[1, 2]), 16_777_621);
    let want = b"hello".iter().fold(0u32, |acc, b| {
        acc.wrapping_mul(16_777_619).wrapping_add(*b as u32)
    });
    assert_eq!(checksum32(b"hello"), want);
}

#[test]
fn live_publishing_spares_the_newest() {
    let (mut w, mut reader, mut r) = attached();
    for i in 0..20u8 {
        r.publish_live(&mut w, &[i; 2500], 0);
    }
    // Three frames of 2500 bytes fit into the arena.
    for i in 17..20u8 {
        let d = reader.try_recv_desc(&mut r.hdr, &r.ready, SECOND).unwrap().unwrap();
        let at = d.offset as usize;
        assert_eq!((d.seq, d.len), (i as u64 + 1, 2500));
        assert_eq!(&r.arena[at..at + 2500], &[i; 2500][..]);
    }
    assert!(reader.try_recv_desc(&mut r.hdr, &r.ready, SECOND).unwrap().is_none());
}

#[test]
fn live_publishing_spares_what_the_consumer_holds() {
    let (mut w, mut reader, mut r) = attached();
    r.publish_live(&mut w, &[77; 2500], 0);
    let held = reader.try_recv_desc(&mut r.hdr, &r.ready, SECOND).unwrap().unwrap();
    let before = r.hdr.timeline_gen;
    for i in 0..20u8 {
        let (_, _, reset) = r.publish_live(&mut w, &[i; 2500], 0);
        assert!(!reset);
    }
    let at = held.offset as usize;
    assert_eq!(&r.arena[at..at + 2500], &[77; 2500][..]);
    assert_eq!(r.hdr.timeline_gen, before);
}

#[test]
fn each_end_keeps_to_its_words() {
    let (mut w, mut reader, mut r) = attached();
    let before = r.hdr;
    for i in 0..9u8 {
        r.publish_live(&mut w, &[i; 1000], 0);
    }
    assert_eq!(r.hdr.consumer_owner_pid, before.consumer_owner_pid);
    assert_eq!(r.hdr.consumer_heartbeat_ns, before.consumer_heartbeat_ns);
    assert_eq!((r.hdr.rec_head, r.hdr.arena_size), (before.rec_head, before.arena_size));
    let before = r.hdr;
    reader.try_recv_latest_desc(&mut r.hdr, &r.ready, &mut r.recycle, 9 * SECOND).unwrap();
    reader.claim_consumer(&mut r.hdr, 42, 9 * SECOND).unwrap();
    assert_eq!(r.hdr.producer_heartbeat_ns, before.producer_heartbeat_ns);
    assert_eq!((r.hdr.ready_head, r.hdr.rec_tail), (before.ready_head, before.rec_tail));
    assert_eq!(r.hdr.arena_used_bytes, before.arena_used_bytes);
    assert_eq!((r.hdr.timeline_seq, r.hdr.state), (before.timeline_seq, before.state));
}
