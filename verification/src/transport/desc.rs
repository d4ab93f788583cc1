//! Ring entries and their 64 bytes in the shared region.

use vstd::bytes;
use vstd::prelude::*;

verus! {

/// The bytes of one entry of either ring.
pub const ENTRY_BYTES: usize = 64;

/// An entry of the ready ring: a frame that waits for the consumer.
#[derive(Clone, Copy, Debug)]
pub struct ReadyDesc {
    pub seq: u64,
    pub offset: u64,
    pub length: u32,
    pub buffer_id: u32,
    pub pts_ns: i64,
    pub dts_ns: i64,
    pub duration_ns: i64,
    pub flags: u32,
    pub checksum: u32,
    pub reserved: [u8; 8],
}

/// An entry of the recycle ring: a buffer that the consumer is done with.
#[derive(Clone, Copy, Debug)]
pub struct RecycleDesc {
    pub seq: u64,
    pub buffer_id: u32,
    pub status: u32,
    pub offset: u64,
    pub length: u32,
    pub reserved: [u8; 36],
}

/// What the consumer gets to know of a frame.
#[derive(Debug, Clone, Copy)]
pub struct ReceivedDesc {
    pub seq: u64,
    pub buffer_id: u32,
    pub pts_ns: i64,
    pub dts_ns: i64,
    pub duration_ns: i64,
    pub flags: u32,
    pub offset: u64,
    pub len: u32,
}

impl Default for ReadyDesc {
    fn default() -> (r: Self)
        ensures
            r.seq == 0 && r.offset == 0 && r.length == 0 && r.buffer_id == 0,
            r.pts_ns == 0 && r.dts_ns == 0 && r.duration_ns == 0,
            r.flags == 0 && r.checksum == 0,
            r.reserved@ == Seq::new(8, |i: int| 0u8),
    {
        let r = ReadyDesc {
            seq: 0,
            offset: 0,
            length: 0,
            buffer_id: 0,
            pts_ns: 0,
            dts_ns: 0,
            duration_ns: 0,
            flags: 0,
            checksum: 0,
            reserved: [0u8; 8],
        };
        assert(r.reserved@ =~= Seq::new(8, |i: int| 0u8));
        r
    }
}

impl Default for RecycleDesc {
    fn default() -> (r: Self)
        ensures
            r.seq == 0 && r.buffer_id == 0 && r.status == 0 && r.offset == 0 && r.length == 0,
            r.reserved@ == Seq::new(36, |i: int| 0u8),
    {
        let r = RecycleDesc {
            seq: 0,
            buffer_id: 0,
            status: 0,
            offset: 0,
            length: 0,
            reserved: [0u8; 36],
        };
        assert(r.reserved@ =~= Seq::new(36, |i: int| 0u8));
        r
    }
}

/// The `u64` that the bytes from `at` on hold.
pub open spec fn u64_at(s: Seq<u8>, at: int) -> u64 {
    bytes::spec_u64_from_le_bytes(s.subrange(at, at + 8))
}

/// The `u32` that the bytes from `at` on hold.
pub open spec fn u32_at(s: Seq<u8>, at: int) -> u32 {
    bytes::spec_u32_from_le_bytes(s.subrange(at, at + 4))
}

/// The bytes of an entry of the ready ring.
pub open spec fn ready_bytes(d: ReadyDesc) -> Seq<u8> {
    bytes::spec_u64_to_le_bytes(d.seq) + bytes::spec_u64_to_le_bytes(d.offset)
        + bytes::spec_u32_to_le_bytes(d.length) + bytes::spec_u32_to_le_bytes(d.buffer_id)
        + bytes::spec_u64_to_le_bytes(d.pts_ns as u64) + bytes::spec_u64_to_le_bytes(
        d.dts_ns as u64,
    ) + bytes::spec_u64_to_le_bytes(d.duration_ns as u64) + bytes::spec_u32_to_le_bytes(d.flags)
        + bytes::spec_u32_to_le_bytes(d.checksum) + d.reserved@
}

/// The bytes of an entry of the recycle ring.
pub open spec fn recycle_bytes(d: RecycleDesc) -> Seq<u8> {
    bytes::spec_u64_to_le_bytes(d.seq) + bytes::spec_u32_to_le_bytes(d.buffer_id)
        + bytes::spec_u32_to_le_bytes(d.status) + bytes::spec_u64_to_le_bytes(d.offset)
        + bytes::spec_u32_to_le_bytes(d.length) + d.reserved@
}

/// The frame that the bytes of a ready entry tell of.
pub open spec fn received(s: Seq<u8>) -> ReceivedDesc {
    ReceivedDesc {
        seq: u64_at(s, 0),
        buffer_id: u32_at(s, 20),
        pts_ns: u64_at(s, 24) as i64,
        dts_ns: u64_at(s, 32) as i64,
        duration_ns: u64_at(s, 40) as i64,
        flags: u32_at(s, 48),
        offset: u64_at(s, 8),
        len: u32_at(s, 16),
    }
}

/// The buffer that the bytes of a recycle entry give back.
pub open spec fn recycled_id(s: Seq<u8>) -> u32 {
    u32_at(s, 8)
}

/// The bytes of entry `i` of a ring.
pub open spec fn entry(ring: Seq<u8>, i: int) -> Seq<u8> {
    ring.subrange(ENTRY_BYTES * i, ENTRY_BYTES * i + ENTRY_BYTES)
}

/// The ring with entry `i` overwritten.
pub open spec fn with_entry(ring: Seq<u8>, i: int, e: Seq<u8>) -> Seq<u8> {
    ring.subrange(0, ENTRY_BYTES * i) + e + ring.subrange(
        ENTRY_BYTES * i + ENTRY_BYTES,
        ring.len() as int,
    )
}

proof fn lemma_i64_survives_u64(x: i64)
    ensures
        (x as u64) as i64 == x,
{
    assert((x as u64) as i64 == x) by (bit_vector);
}

/// A ready entry read back from its bytes is the one that was written.
pub proof fn law_ready_entry_survives(d: ReadyDesc)
    ensures
        ready_bytes(d).len() == ENTRY_BYTES,
        received(ready_bytes(d)) == (ReceivedDesc {
            seq: d.seq,
            buffer_id: d.buffer_id,
            pts_ns: d.pts_ns,
            dts_ns: d.dts_ns,
            duration_ns: d.duration_ns,
            flags: d.flags,
            offset: d.offset,
            len: d.length,
        }),
{
    bytes::lemma_auto_spec_u64_to_from_le_bytes();
    bytes::lemma_auto_spec_u32_to_from_le_bytes();
    let s = ready_bytes(d);
    assert(s.subrange(0, 8) =~= bytes::spec_u64_to_le_bytes(d.seq));
    assert(s.subrange(8, 16) =~= bytes::spec_u64_to_le_bytes(d.offset));
    assert(s.subrange(16, 20) =~= bytes::spec_u32_to_le_bytes(d.length));
    assert(s.subrange(20, 24) =~= bytes::spec_u32_to_le_bytes(d.buffer_id));
    assert(s.subrange(24, 32) =~= bytes::spec_u64_to_le_bytes(d.pts_ns as u64));
    assert(s.subrange(32, 40) =~= bytes::spec_u64_to_le_bytes(d.dts_ns as u64));
    assert(s.subrange(40, 48) =~= bytes::spec_u64_to_le_bytes(d.duration_ns as u64));
    assert(s.subrange(48, 52) =~= bytes::spec_u32_to_le_bytes(d.flags));
    lemma_i64_survives_u64(d.pts_ns);
    lemma_i64_survives_u64(d.dts_ns);
    lemma_i64_survives_u64(d.duration_ns);
}

/// A recycle entry read back from its bytes names the buffer that was written.
pub proof fn law_recycle_entry_survives(d: RecycleDesc)
    ensures
        recycle_bytes(d).len() == ENTRY_BYTES,
        recycled_id(recycle_bytes(d)) == d.buffer_id,
{
    bytes::lemma_auto_spec_u64_to_from_le_bytes();
    bytes::lemma_auto_spec_u32_to_from_le_bytes();
    let s = recycle_bytes(d);
    assert(s.subrange(8, 12) =~= bytes::spec_u32_to_le_bytes(d.buffer_id));
}

/// Writing an entry changes that entry and no other.
pub proof fn law_entries_are_independent(ring: Seq<u8>, i: int, e: Seq<u8>, j: int)
    requires
        0 <= i,
        0 <= j,
        ENTRY_BYTES * i + ENTRY_BYTES <= ring.len(),
        ENTRY_BYTES * j + ENTRY_BYTES <= ring.len(),
        e.len() == ENTRY_BYTES,
    ensures
        with_entry(ring, i, e).len() == ring.len(),
        entry(with_entry(ring, i, e), j) == if i == j {
            e
        } else {
            entry(ring, j)
        },
{
    if i == j {
        assert(entry(with_entry(ring, i, e), j) =~= e);
    } else {
        assert(entry(with_entry(ring, i, e), j) =~= entry(ring, j));
    }
}

fn extend(out: &mut Vec<u8>, more: Vec<u8>)
    ensures
        final(out)@ == old(out)@ + more@,
{
    let mut more = more;
    out.append(&mut more);
}

fn extend_copied(out: &mut Vec<u8>, more: &[u8])
    ensures
        final(out)@ == old(out)@ + more@,
{
    let ghost before = out@;
    let mut i: usize = 0;
    while i < more.len()
        invariant
            i <= more.len(),
            out@ == before + more@.take(i as int),
        decreases more.len() - i,
    {
        assert(before + more@.take(i + 1) =~= (before + more@.take(i as int)).push(
            more@[i as int],
        ));
        out.push(more[i]);
        i += 1;
    }
    assert(more@.take(more@.len() as int) =~= more@);
}

impl ReadyDesc {
    /// The entry's bytes in the ring.
    pub fn to_bytes(&self) -> (r: Vec<u8>)
        ensures
            r@ == ready_bytes(*self),
            r@.len() == ENTRY_BYTES,
    {
        let mut out: Vec<u8> = bytes::u64_to_le_bytes(self.seq);
        extend(&mut out, bytes::u64_to_le_bytes(self.offset));
        extend(&mut out, bytes::u32_to_le_bytes(self.length));
        extend(&mut out, bytes::u32_to_le_bytes(self.buffer_id));
        extend(&mut out, bytes::u64_to_le_bytes(self.pts_ns as u64));
        extend(&mut out, bytes::u64_to_le_bytes(self.dts_ns as u64));
        extend(&mut out, bytes::u64_to_le_bytes(self.duration_ns as u64));
        extend(&mut out, bytes::u32_to_le_bytes(self.flags));
        extend(&mut out, bytes::u32_to_le_bytes(self.checksum));
        extend_copied(&mut out, self.reserved.as_slice());
        proof {
            law_ready_entry_survives(*self);
        }
        out
    }
}

impl RecycleDesc {
    /// The entry's bytes in the ring.
    pub fn to_bytes(&self) -> (r: Vec<u8>)
        ensures
            r@ == recycle_bytes(*self),
            r@.len() == ENTRY_BYTES,
    {
        let mut out: Vec<u8> = bytes::u64_to_le_bytes(self.seq);
        extend(&mut out, bytes::u32_to_le_bytes(self.buffer_id));
        extend(&mut out, bytes::u32_to_le_bytes(self.status));
        extend(&mut out, bytes::u64_to_le_bytes(self.offset));
        extend(&mut out, bytes::u32_to_le_bytes(self.length));
        extend_copied(&mut out, self.reserved.as_slice());
        proof {
            law_recycle_entry_survives(*self);
        }
        out
    }
}

fn read_u64(s: &[u8], at: usize) -> (r: u64)
    requires
        at + 8 <= s.len(),
    ensures
        r == u64_at(s@, at as int),
{
    bytes::u64_from_le_bytes(vstd::slice::slice_subrange(s, at, at + 8))
}

fn read_u32(s: &[u8], at: usize) -> (r: u32)
    requires
        at + 4 <= s.len(),
    ensures
        r == u32_at(s@, at as int),
{
    bytes::u32_from_le_bytes(vstd::slice::slice_subrange(s, at, at + 4))
}

/// Reads the frame of entry `i` of the ready ring.
pub fn read_ready(ring: &[u8], i: usize) -> (r: ReceivedDesc)
    requires
        ENTRY_BYTES * i + ENTRY_BYTES <= ring.len(),
    ensures
        r == received(entry(ring@, i as int)),
{
    let from: usize = ENTRY_BYTES * i;
    let e: &[u8] = vstd::slice::slice_subrange(ring, from, from + ENTRY_BYTES);
    ReceivedDesc {
        seq: read_u64(e, 0),
        buffer_id: read_u32(e, 20),
        pts_ns: read_u64(e, 24) as i64,
        dts_ns: read_u64(e, 32) as i64,
        duration_ns: read_u64(e, 40) as i64,
        flags: read_u32(e, 48),
        offset: read_u64(e, 8),
        len: read_u32(e, 16),
    }
}

/// Reads the buffer that entry `i` of the recycle ring gives back.
pub fn read_recycled_id(ring: &[u8], i: usize) -> (r: u32)
    requires
        ENTRY_BYTES * i + ENTRY_BYTES <= ring.len(),
    ensures
        r == recycled_id(entry(ring@, i as int)),
{
    let from: usize = ENTRY_BYTES * i;
    let e: &[u8] = vstd::slice::slice_subrange(ring, from, from + ENTRY_BYTES);
    read_u32(e, 8)
}

/// Overwrites entry `i` of a ring.
pub fn write_entry(ring: &mut [u8], i: usize, e: &Vec<u8>)
    requires
        ENTRY_BYTES * i + ENTRY_BYTES <= old(ring).len(),
        e@.len() == ENTRY_BYTES,
    ensures
        final(ring)@ == with_entry(old(ring)@, i as int, e@),
{
    let ghost before = ring@;
    let from: usize = ENTRY_BYTES * i;
    let mut k: usize = 0;
    while k < ENTRY_BYTES
        invariant
            k <= ENTRY_BYTES,
            from == ENTRY_BYTES * i,
            from + ENTRY_BYTES <= before.len(),
            e@.len() == ENTRY_BYTES,
            ring@.len() == before.len(),
            ring.len() == before.len(),
            forall|p: int|
                0 <= p < before.len() ==> #[trigger] ring@[p] == if from <= p < from + k {
                    e@[p - from]
                } else {
                    before[p]
                },
        decreases ENTRY_BYTES - k,
    {
        ring[from + k] = e[k];
        k += 1;
    }
    assert(ring@ =~= with_entry(before, i as int, e@));
}

/// Reading an entry of the ready ring takes each of its words from its own place among the
/// entry's 64 bytes, the lowest byte of a word first.
pub proof fn law_ready_entry_is_read_from_its_bytes(ring: &[u8], i: usize, r: ReceivedDesc)
    requires
        64 * i + 64 <= ring@.len(),
        call_ensures(read_ready, (ring, i), r),
    ensures
        r.seq == bytes::spec_u64_from_le_bytes(ring@.subrange(64 * i, 64 * i + 8)),
        r.offset == bytes::spec_u64_from_le_bytes(ring@.subrange(64 * i + 8, 64 * i + 16)),
        r.len == bytes::spec_u32_from_le_bytes(ring@.subrange(64 * i + 16, 64 * i + 20)),
        r.buffer_id == bytes::spec_u32_from_le_bytes(ring@.subrange(64 * i + 20, 64 * i + 24)),
        r.pts_ns == bytes::spec_u64_from_le_bytes(
            ring@.subrange(64 * i + 24, 64 * i + 32),
        ) as i64,
        r.dts_ns == bytes::spec_u64_from_le_bytes(
            ring@.subrange(64 * i + 32, 64 * i + 40),
        ) as i64,
        r.duration_ns == bytes::spec_u64_from_le_bytes(
            ring@.subrange(64 * i + 40, 64 * i + 48),
        ) as i64,
        r.flags == bytes::spec_u32_from_le_bytes(ring@.subrange(64 * i + 48, 64 * i + 52)),
{
    let e = ring@.subrange(64 * i, 64 * i + 64);
    let at = 64 * i;
    assert(entry(ring@, i as int) =~= e);
    assert(e.subrange(0, 8) =~= ring@.subrange(at, at + 8));
    assert(e.subrange(8, 16) =~= ring@.subrange(at + 8, at + 16));
    assert(e.subrange(16, 20) =~= ring@.subrange(at + 16, at + 20));
    assert(e.subrange(20, 24) =~= ring@.subrange(at + 20, at + 24));
    assert(e.subrange(24, 32) =~= ring@.subrange(at + 24, at + 32));
    assert(e.subrange(32, 40) =~= ring@.subrange(at + 32, at + 40));
    assert(e.subrange(40, 48) =~= ring@.subrange(at + 40, at + 48));
    assert(e.subrange(48, 52) =~= ring@.subrange(at + 48, at + 52));
}

/// Reading the buffer that an entry of the recycle ring gives back takes it from the third
/// word of four bytes.
pub proof fn law_recycled_id_is_read_from_its_bytes(ring: &[u8], i: usize, r: u32)
    requires
        64 * i + 64 <= ring@.len(),
        call_ensures(read_recycled_id, (ring, i), r),
    ensures
        r == bytes::spec_u32_from_le_bytes(ring@.subrange(64 * i + 8, 64 * i + 12)),
{
    let e = ring@.subrange(64 * i, 64 * i + 64);
    assert(entry(ring@, i as int) =~= e);
    assert(e.subrange(8, 12) =~= ring@.subrange(64 * i + 8, 64 * i + 12));
}

/// The 64 bytes of a ready entry hold each word at its own place, the lowest byte first.
pub proof fn law_ready_words_have_their_places(d: &ReadyDesc, r: Vec<u8>)
    requires
        call_ensures(ReadyDesc::to_bytes, (d,), r),
    ensures
        r@.len() == 64,
        r@.subrange(0, 8) == bytes::spec_u64_to_le_bytes(d.seq),
        r@.subrange(8, 16) == bytes::spec_u64_to_le_bytes(d.offset),
        r@.subrange(16, 20) == bytes::spec_u32_to_le_bytes(d.length),
        r@.subrange(20, 24) == bytes::spec_u32_to_le_bytes(d.buffer_id),
        r@.subrange(24, 32) == bytes::spec_u64_to_le_bytes(d.pts_ns as u64),
        r@.subrange(32, 40) == bytes::spec_u64_to_le_bytes(d.dts_ns as u64),
        r@.subrange(40, 48) == bytes::spec_u64_to_le_bytes(d.duration_ns as u64),
        r@.subrange(48, 52) == bytes::spec_u32_to_le_bytes(d.flags),
        r@.subrange(52, 56) == bytes::spec_u32_to_le_bytes(d.checksum),
        r@.subrange(56, 64) == d.reserved@,
{
    bytes::lemma_auto_spec_u64_to_from_le_bytes();
    bytes::lemma_auto_spec_u32_to_from_le_bytes();
    assert(d.reserved@.len() == 8);
    assert(r@.subrange(0, 8) =~= bytes::spec_u64_to_le_bytes(d.seq));
    assert(r@.subrange(8, 16) =~= bytes::spec_u64_to_le_bytes(d.offset));
    assert(r@.subrange(16, 20) =~= bytes::spec_u32_to_le_bytes(d.length));
    assert(r@.subrange(20, 24) =~= bytes::spec_u32_to_le_bytes(d.buffer_id));
    assert(r@.subrange(24, 32) =~= bytes::spec_u64_to_le_bytes(d.pts_ns as u64));
    assert(r@.subrange(32, 40) =~= bytes::spec_u64_to_le_bytes(d.dts_ns as u64));
    assert(r@.subrange(40, 48) =~= bytes::spec_u64_to_le_bytes(d.duration_ns as u64));
    assert(r@.subrange(48, 52) =~= bytes::spec_u32_to_le_bytes(d.flags));
    assert(r@.subrange(52, 56) =~= bytes::spec_u32_to_le_bytes(d.checksum));
    assert(r@.subrange(56, 64) =~= d.reserved@);
}

/// The 64 bytes of a recycle entry hold each word at its own place, the lowest byte first.
pub proof fn law_recycle_words_have_their_places(d: &RecycleDesc, r: Vec<u8>)
    requires
        call_ensures(RecycleDesc::to_bytes, (d,), r),
    ensures
        r@.len() == 64,
        r@.subrange(0, 8) == bytes::spec_u64_to_le_bytes(d.seq),
        r@.subrange(8, 12) == bytes::spec_u32_to_le_bytes(d.buffer_id),
        r@.subrange(12, 16) == bytes::spec_u32_to_le_bytes(d.status),
        r@.subrange(16, 24) == bytes::spec_u64_to_le_bytes(d.offset),
        r@.subrange(24, 28) == bytes::spec_u32_to_le_bytes(d.length),
        r@.subrange(28, 64) == d.reserved@,
{
    bytes::lemma_auto_spec_u64_to_from_le_bytes();
    bytes::lemma_auto_spec_u32_to_from_le_bytes();
    assert(d.reserved@.len() == 36);
    assert(r@.subrange(0, 8) =~= bytes::spec_u64_to_le_bytes(d.seq));
    assert(r@.subrange(8, 12) =~= bytes::spec_u32_to_le_bytes(d.buffer_id));
    assert(r@.subrange(12, 16) =~= bytes::spec_u32_to_le_bytes(d.status));
    assert(r@.subrange(16, 24) =~= bytes::spec_u64_to_le_bytes(d.offset));
    assert(r@.subrange(24, 28) =~= bytes::spec_u32_to_le_bytes(d.length));
    assert(r@.subrange(28, 64) =~= d.reserved@);
}

/// An entry that is written is found in the 64 bytes of its slot, and every other byte of
/// the ring is as it was.
pub proof fn law_written_entry_fills_its_slot(ring: &mut [u8], i: usize, e: &Vec<u8>)
    requires
        64 * i + 64 <= old(ring)@.len(),
        e@.len() == 64,
        call_ensures(write_entry, (ring, i, e), ()),
    ensures
        final(ring)@.len() == old(ring)@.len(),
        forall|p: int|
            0 <= p < old(ring)@.len() ==> #[trigger] final(ring)@[p] == if 64 * i <= p < 64 * i
                + 64 {
                e@[p - 64 * i]
            } else {
                old(ring)@[p]
            },
{
}

} // verus!
