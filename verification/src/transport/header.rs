//! The region's header and the layout behind it.

use crate::align;
use crate::align::align_up;
use crate::platform::ShmError;
use crate::transport::desc;
use vstd::prelude::*;

verus! {

/// The bytes `GSTSHM2` and a zero, with which every region begins.
pub const MAGIC: [u8; 8] = [0x47, 0x53, 0x54, 0x53, 0x48, 0x4d, 0x32, 0];

pub const VERSION_MAJOR: u16 = 1;

pub const VERSION_MINOR: u16 = 0;

pub const STATE_INIT: u32 = 0;

pub const STATE_RUNNING: u32 = 1;

pub const STATE_STOPPING: u32 = 2;

pub const STATE_STOPPED: u32 = 3;

/// The bytes that are set aside for the header.
pub const HEADER_PAD: usize = 4096;

/// The bytes that the header's words take up.
pub const HEADER_BYTES: usize = 232;

pub const DESC_ALIGN: usize = 64;

/// The words of the header at one moment.
#[derive(Debug, Clone, Copy)]
pub struct SharedHeader {
    pub magic: [u8; 8],
    pub version_major: u16,
    pub version_minor: u16,
    pub header_size: u32,
    pub total_size: u64,
    pub features: u64,
    pub state: u32,
    pub owner_pid: u32,
    pub consumer_owner_pid: u32,
    pub epoch: u64,
    pub producer_heartbeat_ns: u64,
    pub consumer_heartbeat_ns: u64,
    pub ready_capacity: u32,
    pub ready_entry_size: u32,
    pub ready_head: u64,
    pub ready_tail: u64,
    pub rec_capacity: u32,
    pub rec_entry_size: u32,
    pub rec_head: u64,
    pub rec_tail: u64,
    pub ready_offset: u64,
    pub recycle_offset: u64,
    pub arena_offset: u64,
    pub arena_size: u64,
    pub arena_used_bytes: u64,
    pub arena_high_watermark: u64,
    pub alloc_failures: u64,
    pub wait_for_connection: u32,
    pub drop_when_no_consumer: u32,
    pub notify_mode: u32,
    pub timeline_sink_mono_ns: u64,
    pub timeline_producer_pts_ns: i64,
    pub timeline_gen: u64,
    pub timeline_seq: u64,
    pub timeline_valid: u32,
}

/// What a producer asks of its region.
#[derive(Debug, Clone, Copy)]
pub struct TransportConfig {
    pub total_size: usize,
    pub ready_capacity: u32,
    pub recycle_capacity: u32,
    pub perms: u32,
    pub wait_for_connection: bool,
    pub drop_when_no_consumer: bool,
    pub allocator_align: u64,
    pub timeline_beacon_ms: u32,
}

impl Default for TransportConfig {
    fn default() -> (r: Self)
        ensures
            r == (TransportConfig {
                total_size: 0x400_0000,
                ready_capacity: 4096,
                recycle_capacity: 4096,
                perms: 0o660,
                wait_for_connection: true,
                drop_when_no_consumer: false,
                allocator_align: 64,
                timeline_beacon_ms: 250,
            }),
    {
        TransportConfig {
            total_size: 64 * 1024 * 1024,
            ready_capacity: 4096,
            recycle_capacity: 4096,
            perms: 0o660,
            wait_for_connection: true,
            drop_when_no_consumer: false,
            allocator_align: 64,
            timeline_beacon_ms: 250,
        }
    }
}

impl TransportConfig {
    /// Refuses rings without an entry.
    pub fn check(&self) -> (r: Result<(), ShmError>)
        ensures
            r is Ok <==> self.ready_capacity > 0 && self.recycle_capacity > 0,
            r matches Err(e) ==> e.is_config("ring capacities must be non-zero"@),
    {
        if self.ready_capacity == 0 || self.recycle_capacity == 0 {
            return Err(ShmError::InvalidConfig("ring capacities must be non-zero"));
        }
        Ok(())
    }
}

/// Where the parts of a region begin, and how large the arena is.
#[derive(Debug, Clone, Copy)]
pub struct Layout {
    pub ready_offset: usize,
    pub recycle_offset: usize,
    pub arena_offset: usize,
    pub arena_size: u64,
}

/// Where the ready ring begins: behind the bytes set aside for the header.
pub open spec fn ready_start() -> int {
    HEADER_PAD as int
}

/// The position behind the ready ring.
pub open spec fn ready_end(ready_capacity: u32) -> int {
    ready_start() + ready_capacity * desc::ENTRY_BYTES
}

/// Where the recycle ring begins.
pub open spec fn recycle_start(ready_capacity: u32) -> int {
    align::aligned(ready_end(ready_capacity), DESC_ALIGN as int)
}

/// The position behind the recycle ring.
pub open spec fn recycle_end(ready_capacity: u32, rec_capacity: u32) -> int {
    recycle_start(ready_capacity) + rec_capacity * desc::ENTRY_BYTES
}

/// Where the arena begins: on a page of its own.
pub open spec fn arena_start(ready_capacity: u32, rec_capacity: u32) -> int {
    align::aligned(recycle_end(ready_capacity, rec_capacity), 4096)
}

/// Why a region of this size cannot hold rings of these capacities, if it cannot.
pub open spec fn layout_fault(total_size: usize, ready_capacity: u32, rec_capacity: u32) -> Option<
    Seq<char>,
> {
    if ready_end(ready_capacity) > usize::MAX {
        Some("ready ring overflow"@)
    } else if recycle_end(ready_capacity, rec_capacity) > usize::MAX {
        Some("recycle ring overflow"@)
    } else if arena_start(ready_capacity, rec_capacity) >= total_size {
        Some("insufficient total size for arena"@)
    } else {
        None
    }
}

impl Layout {
    /// The layout of a region with rings of these capacities.
    pub open spec fn is_of(self, total_size: usize, ready_capacity: u32, rec_capacity: u32) -> bool {
        &&& self.ready_offset == ready_start()
        &&& self.recycle_offset == recycle_start(ready_capacity)
        &&& self.arena_offset == arena_start(ready_capacity, rec_capacity)
        &&& self.arena_size == total_size - arena_start(ready_capacity, rec_capacity)
    }
}

proof fn lemma_ring_ends_aligned(ready_capacity: u32)
    ensures
        recycle_start(ready_capacity) == ready_end(ready_capacity),
{
    assert((4096 + ready_capacity * 64) % 64 == 0) by (nonlinear_arith);
}

/// Lays out a region: the header, the ready ring, the recycle ring, and the arena in
/// all that is left.
pub fn map_layout(total_size: usize, ready_capacity: u32, rec_capacity: u32) -> (r: Result<
    Layout,
    ShmError,
>)
    ensures
        match r {
            Ok(l) => layout_fault(total_size, ready_capacity, rec_capacity) is None && l.is_of(
                total_size,
                ready_capacity,
                rec_capacity,
            ),
            Err(e) => layout_fault(total_size, ready_capacity, rec_capacity) matches Some(words)
                && e.is_config(words),
        },
{
    proof {
        lemma_ring_ends_aligned(ready_capacity);
        align::law_aligned_is_least_multiple(recycle_end(ready_capacity, rec_capacity), 4096);
    }
    let entry: u64 = desc::ENTRY_BYTES as u64;
    let limit: u64 = usize::MAX as u64;
    let ready_offset: u64 = HEADER_PAD as u64;
    let after_ready: u64 = ready_offset + ready_capacity as u64 * entry;
    if after_ready > limit {
        return Err(ShmError::InvalidConfig("ready ring overflow"));
    }
    let recycle_offset: u64 = match align_up(after_ready, DESC_ALIGN as u64) {
        Some(v) => v,
        None => {
            return Err(ShmError::InvalidConfig("recycle ring overflow"));
        },
    };
    let after_recycle: u64 = recycle_offset + rec_capacity as u64 * entry;
    if after_recycle > limit {
        return Err(ShmError::InvalidConfig("recycle ring overflow"));
    }
    match align_up(after_recycle, 4096) {
        Some(arena_offset) => {
            if arena_offset >= total_size as u64 {
                return Err(ShmError::InvalidConfig("insufficient total size for arena"));
            }
            Ok(
                Layout {
                    ready_offset: ready_offset as usize,
                    recycle_offset: recycle_offset as usize,
                    arena_offset: arena_offset as usize,
                    arena_size: total_size as u64 - arena_offset,
                },
            )
        },
        None => Err(ShmError::InvalidConfig("insufficient total size for arena")),
    }
}

/// The parts of a region follow one another without overlap, the rings on a multiple of
/// 64 and the arena on a multiple of 4096, and the arena ends where the region ends.
pub proof fn law_layout_parts_are_disjoint(
    l: Layout,
    total_size: usize,
    ready_capacity: u32,
    rec_capacity: u32,
)
    requires
        layout_fault(total_size, ready_capacity, rec_capacity) is None,
        l.is_of(total_size, ready_capacity, rec_capacity),
    ensures
        HEADER_BYTES <= l.ready_offset,
        l.ready_offset + ready_capacity * desc::ENTRY_BYTES <= l.recycle_offset,
        l.recycle_offset + rec_capacity * desc::ENTRY_BYTES <= l.arena_offset,
        l.arena_offset + l.arena_size == total_size,
        l.arena_size > 0,
        l.ready_offset as int % 64 == 0,
        l.recycle_offset as int % 64 == 0,
        l.arena_offset as int % 4096 == 0,
{
    align::law_aligned_is_least_multiple(ready_end(ready_capacity), 64);
    align::law_aligned_is_least_multiple(recycle_end(ready_capacity, rec_capacity), 4096);
}

/// The header that a producer begins with.
pub open spec fn initial_header(cfg: TransportConfig, l: Layout, pid: u32, now: u64) -> SharedHeader {
    SharedHeader {
        magic: MAGIC,
        version_major: VERSION_MAJOR,
        version_minor: VERSION_MINOR,
        header_size: HEADER_PAD as u32,
        total_size: cfg.total_size as u64,
        features: 0,
        state: STATE_RUNNING,
        owner_pid: pid,
        consumer_owner_pid: 0,
        epoch: 1,
        producer_heartbeat_ns: now,
        consumer_heartbeat_ns: 0,
        ready_capacity: cfg.ready_capacity,
        ready_entry_size: desc::ENTRY_BYTES as u32,
        ready_head: 0,
        ready_tail: 0,
        rec_capacity: cfg.recycle_capacity,
        rec_entry_size: desc::ENTRY_BYTES as u32,
        rec_head: 0,
        rec_tail: 0,
        ready_offset: l.ready_offset as u64,
        recycle_offset: l.recycle_offset as u64,
        arena_offset: l.arena_offset as u64,
        arena_size: l.arena_size,
        arena_used_bytes: 0,
        arena_high_watermark: 0,
        alloc_failures: 0,
        wait_for_connection: if cfg.wait_for_connection {
            1
        } else {
            0
        },
        drop_when_no_consumer: if cfg.drop_when_no_consumer {
            1
        } else {
            0
        },
        notify_mode: 0,
        timeline_sink_mono_ns: 0,
        timeline_producer_pts_ns: 0,
        timeline_gen: 0,
        timeline_seq: 0,
        timeline_valid: 0,
    }
}

/// The header of a region that the process `pid` creates at `now`.
pub fn init_header(cfg: &TransportConfig, l: &Layout, pid: u32, now: u64) -> (r: SharedHeader)
    ensures
        r == initial_header(*cfg, *l, pid, now),
{
    SharedHeader {
        magic: MAGIC,
        version_major: VERSION_MAJOR,
        version_minor: VERSION_MINOR,
        header_size: HEADER_PAD as u32,
        total_size: cfg.total_size as u64,
        features: 0,
        state: STATE_RUNNING,
        owner_pid: pid,
        consumer_owner_pid: 0,
        epoch: 1,
        producer_heartbeat_ns: now,
        consumer_heartbeat_ns: 0,
        ready_capacity: cfg.ready_capacity,
        ready_entry_size: desc::ENTRY_BYTES as u32,
        ready_head: 0,
        ready_tail: 0,
        rec_capacity: cfg.recycle_capacity,
        rec_entry_size: desc::ENTRY_BYTES as u32,
        rec_head: 0,
        rec_tail: 0,
        ready_offset: l.ready_offset as u64,
        recycle_offset: l.recycle_offset as u64,
        arena_offset: l.arena_offset as u64,
        arena_size: l.arena_size,
        arena_used_bytes: 0,
        arena_high_watermark: 0,
        alloc_failures: 0,
        wait_for_connection: if cfg.wait_for_connection {
            1
        } else {
            0
        },
        drop_when_no_consumer: if cfg.drop_when_no_consumer {
            1
        } else {
            0
        },
        notify_mode: 0,
        timeline_sink_mono_ns: 0,
        timeline_producer_pts_ns: 0,
        timeline_gen: 0,
        timeline_seq: 0,
        timeline_valid: 0,
    }
}

/// Why a header is not that of a region of `total_size` bytes, if it is not.
pub open spec fn header_fault(hdr: SharedHeader, total_size: u64) -> Option<Seq<char>> {
    if hdr.magic@ != MAGIC@ {
        Some("magic mismatch"@)
    } else if hdr.version_major != VERSION_MAJOR {
        Some("major version mismatch"@)
    } else if hdr.total_size != total_size {
        Some("mapped size mismatch"@)
    } else if hdr.ready_entry_size != desc::ENTRY_BYTES {
        Some("ready entry size mismatch"@)
    } else if hdr.rec_entry_size != desc::ENTRY_BYTES {
        Some("recycle entry size mismatch"@)
    } else {
        None
    }
}

fn has_magic(hdr: &SharedHeader) -> (r: bool)
    ensures
        r == (hdr.magic@ == MAGIC@),
{
    let mut i: usize = 0;
    while i < 8
        invariant
            i <= 8,
            forall|k: int| 0 <= k < i ==> hdr.magic[k] == MAGIC[k],
        decreases 8 - i,
    {
        if hdr.magic[i] != MAGIC[i] {
            return false;
        }
        i += 1;
    }
    assert(hdr.magic@ =~= MAGIC@);
    true
}

/// Accepts the header of a region of `total_size` bytes, of this major version.
pub fn validate_header(hdr: &SharedHeader, total_size: u64) -> (r: Result<(), ShmError>)
    ensures
        match r {
            Ok(_) => header_fault(*hdr, total_size) is None,
            Err(e) => header_fault(*hdr, total_size) matches Some(words) && e.is_protocol(words),
        },
{
    if !has_magic(hdr) {
        return Err(ShmError::Protocol("magic mismatch"));
    }
    if hdr.version_major != VERSION_MAJOR {
        return Err(ShmError::Protocol("major version mismatch"));
    }
    if hdr.total_size != total_size {
        return Err(ShmError::Protocol("mapped size mismatch"));
    }
    if hdr.ready_entry_size as usize != desc::ENTRY_BYTES {
        return Err(ShmError::Protocol("ready entry size mismatch"));
    }
    if hdr.rec_entry_size as usize != desc::ENTRY_BYTES {
        return Err(ShmError::Protocol("recycle entry size mismatch"));
    }
    Ok(())
}

impl SharedHeader {
    /// Both rings have entries, and the rings and the arena lie within the region.
    pub open spec fn fits_region(self, region_len: usize) -> bool {
        &&& self.ready_capacity > 0
        &&& self.rec_capacity > 0
        &&& self.ready_offset + self.ready_capacity * desc::ENTRY_BYTES <= region_len
        &&& self.recycle_offset + self.rec_capacity * desc::ENTRY_BYTES <= region_len
        &&& self.arena_offset + self.arena_size <= region_len
    }

    /// Tells whether the rings and the arena lie within a region of this length.
    pub fn is_mapped(&self, region_len: usize) -> (r: bool)
        ensures
            r == self.fits_region(region_len),
    {
        let len: u128 = region_len as u128;
        let entry: u128 = desc::ENTRY_BYTES as u128;
        self.ready_capacity > 0 && self.rec_capacity > 0 && self.ready_offset as u128
            + self.ready_capacity as u128 * entry <= len && self.recycle_offset as u128
            + self.rec_capacity as u128 * entry <= len && self.arena_offset as u128
            + self.arena_size as u128 <= len
    }
}

/// The header that a producer writes is one that a consumer accepts, and its rings and
/// its arena lie within the region.
pub proof fn law_created_header_is_accepted(cfg: TransportConfig, l: Layout, pid: u32, now: u64)
    requires
        cfg.ready_capacity > 0,
        cfg.recycle_capacity > 0,
        layout_fault(cfg.total_size, cfg.ready_capacity, cfg.recycle_capacity) is None,
        l.is_of(cfg.total_size, cfg.ready_capacity, cfg.recycle_capacity),
    ensures
        header_fault(initial_header(cfg, l, pid, now), cfg.total_size as u64) is None,
        initial_header(cfg, l, pid, now).fits_region(cfg.total_size),
{
    law_layout_parts_are_disjoint(l, cfg.total_size, cfg.ready_capacity, cfg.recycle_capacity);
}

/// A region is laid out exactly when its size leaves a byte for the arena behind both rings,
/// at the first whole page, and the positions can be counted.
pub proof fn law_layout_needs_room_for_the_arena(
    total_size: usize,
    ready_capacity: u32,
    rec_capacity: u32,
    r: Result<Layout, ShmError>,
)
    requires
        call_ensures(map_layout, (total_size, ready_capacity, rec_capacity), r),
        4096 + 64 * ready_capacity + 64 * rec_capacity <= usize::MAX,
    ensures
        ({
            let rings = 4096 + 64 * ready_capacity + 64 * rec_capacity;
            match r {
                Ok(l) => {
                    &&& l.ready_offset == 4096
                    &&& l.recycle_offset == 4096 + 64 * ready_capacity
                    &&& rings <= l.arena_offset < rings + 4096
                    &&& l.arena_offset as int % 4096 == 0
                    &&& l.arena_offset < total_size
                    &&& l.arena_size == total_size - l.arena_offset
                },
                Err(e) => {
                    &&& e.is_config("insufficient total size for arena"@)
                    &&& forall|p: int|
                        rings <= p < total_size ==> #[trigger] (p % 4096) != 0
                },
            }
        }),
{
    lemma_ring_ends_aligned(ready_capacity);
    let end = recycle_end(ready_capacity, rec_capacity);
    assert(end == 4096 + 64 * ready_capacity + 64 * rec_capacity);
    align::law_aligned_is_least_multiple(end, 4096);
}

/// Rings whose entries cannot be counted are refused, the ready ring first.
pub proof fn law_rings_beyond_the_address_space_are_refused(
    total_size: usize,
    ready_capacity: u32,
    rec_capacity: u32,
    r: Result<Layout, ShmError>,
)
    requires
        call_ensures(map_layout, (total_size, ready_capacity, rec_capacity), r),
        4096 + 64 * ready_capacity + 64 * rec_capacity > usize::MAX,
    ensures
        r matches Err(e) && if 4096 + 64 * ready_capacity > usize::MAX {
            e.is_config("ready ring overflow"@)
        } else {
            e.is_config("recycle ring overflow"@)
        },
{
    lemma_ring_ends_aligned(ready_capacity);
}

/// A new header shows an empty region that runs: its layout and the producer are noted,
/// nothing waits in either ring, nobody has attached, nothing was counted, and there is no
/// timeline yet.
pub proof fn law_new_header_shows_an_empty_region(
    cfg: &TransportConfig,
    l: &Layout,
    pid: u32,
    now: u64,
    r: SharedHeader,
)
    requires
        call_ensures(init_header, (cfg, l, pid, now), r),
    ensures
        r.magic@ == seq![0x47u8, 0x53, 0x54, 0x53, 0x48, 0x4d, 0x32, 0],
        r.version_major == 1 && r.version_minor == 0,
        r.header_size == 4096 && r.features == 0 && r.epoch == 1,
        r.total_size == cfg.total_size,
        r.state == 1,
        r.owner_pid == pid && r.producer_heartbeat_ns == now,
        r.consumer_owner_pid == 0 && r.consumer_heartbeat_ns == 0,
        r.ready_capacity == cfg.ready_capacity && r.rec_capacity == cfg.recycle_capacity,
        r.ready_entry_size == 64 && r.rec_entry_size == 64,
        r.ready_head == 0 && r.ready_tail == 0 && r.rec_head == 0 && r.rec_tail == 0,
        r.ready_offset == l.ready_offset && r.recycle_offset == l.recycle_offset,
        r.arena_offset == l.arena_offset && r.arena_size == l.arena_size,
        r.arena_used_bytes == 0 && r.arena_high_watermark == 0 && r.alloc_failures == 0,
        r.wait_for_connection != 0 <==> cfg.wait_for_connection,
        r.drop_when_no_consumer != 0 <==> cfg.drop_when_no_consumer,
        r.wait_for_connection <= 1 && r.drop_when_no_consumer <= 1 && r.notify_mode == 0,
        r.timeline_valid == 0 && r.timeline_gen == 0 && r.timeline_seq == 0,
        r.timeline_sink_mono_ns == 0 && r.timeline_producer_pts_ns == 0,
{
    assert(r.magic@ =~= seq![0x47u8, 0x53, 0x54, 0x53, 0x48, 0x4d, 0x32, 0]);
}

/// A header is accepted exactly when it begins with the magic bytes, is of major version 1,
/// tells the size that was mapped, and has entries of 64 bytes in both rings; the first of
/// these that fails is the one that is told.
pub proof fn law_header_is_accepted_by_five_words(
    hdr: &SharedHeader,
    total_size: u64,
    r: Result<(), ShmError>,
)
    requires
        call_ensures(validate_header, (hdr, total_size), r),
    ensures
        ({
            let magic = hdr.magic@ == seq![0x47u8, 0x53, 0x54, 0x53, 0x48, 0x4d, 0x32, 0];
            let version = hdr.version_major == 1;
            let size = hdr.total_size == total_size;
            let ready = hdr.ready_entry_size == 64;
            let recycle = hdr.rec_entry_size == 64;
            match r {
                Ok(_) => magic && version && size && ready && recycle,
                Err(e) => {
                    ||| !magic && e.is_protocol("magic mismatch"@)
                    ||| magic && !version && e.is_protocol("major version mismatch"@)
                    ||| magic && version && !size && e.is_protocol("mapped size mismatch"@)
                    ||| magic && version && size && !ready && e.is_protocol(
                        "ready entry size mismatch"@,
                    )
                    ||| magic && version && size && ready && !recycle && e.is_protocol(
                        "recycle entry size mismatch"@,
                    )
                },
            }
        }),
{
    assert(MAGIC@ =~= seq![0x47u8, 0x53, 0x54, 0x53, 0x48, 0x4d, 0x32, 0]);
}

/// A header's parts lie within a region exactly when both rings have entries and every byte
/// of the rings and of the arena does.
pub proof fn law_mapped_parts_lie_within_the_region(hdr: &SharedHeader, region_len: usize, r: bool)
    requires
        call_ensures(SharedHeader::is_mapped, (hdr, region_len), r),
    ensures
        r <==> {
            &&& hdr.ready_capacity >= 1 && hdr.rec_capacity >= 1
            &&& hdr.ready_offset + 64 * hdr.ready_capacity <= region_len
            &&& hdr.recycle_offset + 64 * hdr.rec_capacity <= region_len
            &&& hdr.arena_offset + hdr.arena_size <= region_len
        },
{
}

/// The words of the format: the mark spells the format's name and ends with a zero, the four
/// states of a producer are told apart, and the header fits into the bytes set aside for it.
pub proof fn law_words_of_the_format()
    ensures
        MAGIC@ == seq!['G' as u8, 'S' as u8, 'T' as u8, 'S' as u8, 'H' as u8, 'M' as u8, '2' as u8, 0],
        STATE_INIT == 0 && STATE_RUNNING == 1 && STATE_STOPPING == 2 && STATE_STOPPED == 3,
        HEADER_BYTES == 232 && HEADER_BYTES <= HEADER_PAD,
{
    assert(MAGIC@ =~= seq!['G' as u8, 'S' as u8, 'T' as u8, 'S' as u8, 'H' as u8, 'M' as u8, '2' as u8, 0]);
}

} // verus!
