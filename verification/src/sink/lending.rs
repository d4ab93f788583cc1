//! The blocks of the arena that upstream fills before they are published.

use crate::platform::ShmError;
use crate::transport::books::AllocLease;
use crate::transport::header::SharedHeader;
use crate::transport::writer::Writer;
use std::collections::BTreeMap;
use vstd::prelude::*;

verus! {

/// The blocks that were lent to upstream and have not been published, by where in the
/// arena they begin.
#[derive(Debug)]
pub struct AllocTracker {
    pending: BTreeMap<u64, AllocLease>,
}

/// The lent block that begins at `at` and is `len` bytes long.
pub open spec fn lent(pending: Map<u64, AllocLease>, at: u64, len: int) -> Option<AllocLease> {
    if pending.contains_key(at) && pending[at].len == len {
        Some(pending[at])
    } else {
        None
    }
}

impl AllocTracker {
    /// The blocks that are lent.
    pub closed spec fn view(&self) -> Map<u64, AllocLease> {
        self.pending@
    }

    /// No block is lent.
    pub fn new() -> (r: AllocTracker)
        ensures
            r@ == Map::<u64, AllocLease>::empty(),
    {
        AllocTracker { pending: BTreeMap::new() }
    }

    /// Forgets all blocks.
    pub fn clear(&mut self)
        ensures
            final(self)@ == Map::<u64, AllocLease>::empty(),
    {
        self.pending = BTreeMap::new();
    }

    /// Lends a block of `size` bytes; only the lowest 32 bits of the size count.
    pub fn alloc_lease_for_upstream(
        &mut self,
        writer: &mut Writer,
        hdr: &mut SharedHeader,
        recycle: &[u8],
        size: usize,
        align: u64,
        now: u64,
    ) -> (r: Result<AllocLease, &'static str>)
        requires
            old(writer).wf(),
            old(writer).books(*old(hdr)).drainable(recycle@),
        ensures
            final(writer).wf(),
            final(writer).settings() == old(writer).settings(),
            final(writer).arena().total == old(writer).arena().total,
            ({
                let (after, lease) = old(writer).books(*old(hdr)).drain(recycle@, now).take(
                    size as u32,
                    align,
                );
                &&& final(writer).books(*final(hdr)) == after
                &&& match r {
                    Ok(l) => lease == Some(l) && final(self)@ == old(self)@.insert(l.offset, l),
                    Err(words) => {
                        &&& lease is None
                        &&& words@ == "shm allocation failed"@
                        &&& final(self)@ == old(self)@
                    },
                }
            }),
    {
        match writer.alloc_lease(hdr, recycle, size as u32, align, now) {
            Ok(lease) => {
                self.pending.insert(lease.offset, lease);
                Ok(lease)
            },
            Err(_) => Err("shm allocation failed"),
        }
    }

    /// Takes back the block that begins at `at`, if it is lent still.
    pub fn release_unpublished(&mut self, writer: &mut Writer, hdr: &mut SharedHeader, at: u64)
        requires
            old(writer).wf(),
        ensures
            final(writer).wf(),
            final(writer).settings() == old(writer).settings(),
            final(writer).arena().total == old(writer).arena().total,
            final(self)@ == old(self)@.remove(at),
            final(writer).books(*final(hdr)) == if old(self)@.contains_key(at) {
                old(writer).books(*old(hdr)).give_back(old(self)@[at].buffer_id)
            } else {
                old(writer).books(*old(hdr))
            },
    {
        if let Some(lease) = self.pending.remove(&at) {
            let _ = writer.free_lease(hdr, lease.buffer_id);
        } else {
            assert(old(self)@.remove(at) =~= old(self)@);
        }
    }

    /// Whether a frame of `len` bytes at `at` fills a lent block as a whole.
    pub fn is_lent(&self, at: u64, len: usize) -> (r: bool)
        ensures
            r == lent(self@, at, len as int) is Some,
    {
        match self.pending.get(&at) {
            Some(lease) => lease.len as usize == len,
            None => false,
        }
    }

    /// The lent block that a frame of `len` bytes at `at` fills as a whole. It is no longer
    /// lent then. A frame that is shorter or longer is none, and leaves the block lent.
    pub fn mark_published(&mut self, at: u64, len: usize) -> (r: Option<AllocLease>)
        ensures
            r == lent(old(self)@, at, len as int),
            final(self)@ == if r is Some {
                old(self)@.remove(at)
            } else {
                old(self)@
            },
    {
        match self.pending.remove(&at) {
            Some(lease) => {
                if lease.len as usize != len {
                    self.pending.insert(at, lease);
                    assert(self@ =~= old(self)@);
                    return None;
                }
                Some(lease)
            },
            None => {
                assert(old(self)@.remove(at) =~= old(self)@);
                None
            },
        }
    }
}

/// Lending a block is taking one of that size, of which the lowest 32 bits count, and keeping
/// account of it by where it begins;
/// it fails where taking fails, and is then kept account of as before.
pub proof fn law_lent_block_is_taken_and_noted(
    t: &mut AllocTracker,
    writer: &mut Writer,
    hdr: &mut SharedHeader,
    recycle: &[u8],
    size: usize,
    low: u32,
    align: u64,
    now: u64,
    r: Result<AllocLease, &'static str>,
    w: &mut Writer,
    same: &mut SharedHeader,
    q: Result<AllocLease, ShmError>,
)
    requires
        low == size as int % 0x1_0000_0000,
        *old(w) == *old(writer) && *old(same) == *old(hdr),
        call_ensures(
            AllocTracker::alloc_lease_for_upstream,
            (t, writer, hdr, recycle, size, align, now),
            r,
        ),
        call_ensures(Writer::alloc_lease, (w, same, recycle, low, align, now), q),
    ensures
        *final(hdr) == *final(same),
        final(writer).arena() == final(w).arena(),
        match q {
            Ok(l) => (r matches Ok(got) && got == l) && final(t)@ == old(t)@.insert(l.offset, l),
            Err(_) => r is Err && final(t)@ == old(t)@,
        },
{
    let wide = size as u64;
    assert(wide as u32 == wide % 0x1_0000_0000) by (bit_vector);
    assert(size as u32 == wide as u32);
    assert(final(writer).books(*final(hdr)).hdr == *final(hdr));
    assert(final(writer).books(*final(hdr)).blocks == final(writer).arena());
    assert(final(w).books(*final(same)).hdr == *final(same));
    assert(final(w).books(*final(same)).blocks == final(w).arena());
}

/// Letting go of a lent block is giving that block back, and it is lent no more; where none
/// is lent, nothing is given back.
pub proof fn law_block_let_go_is_given_back(
    t: &mut AllocTracker,
    writer: &mut Writer,
    hdr: &mut SharedHeader,
    at: u64,
    w: &mut Writer,
    same: &mut SharedHeader,
    id: u32,
    freed: bool,
)
    requires
        call_ensures(AllocTracker::release_unpublished, (t, writer, hdr, at), ()),
        *old(w) == *old(writer) && *old(same) == *old(hdr),
        call_ensures(Writer::free_lease, (w, same, id), freed),
    ensures
        final(t)@ == old(t)@.remove(at),
        old(t)@.contains_key(at) && old(t)@[at].buffer_id == id ==> *final(hdr) == *final(same)
            && final(writer).arena() == final(w).arena(),
        !old(t)@.contains_key(at) ==> *final(hdr) == *old(hdr) && final(writer).arena() == old(
            writer,
        ).arena(),
{
    assert(final(writer).books(*final(hdr)).hdr == *final(hdr));
    assert(final(writer).books(*final(hdr)).blocks == final(writer).arena());
    assert(final(w).books(*final(same)).hdr == *final(same));
    assert(final(w).books(*final(same)).blocks == final(w).arena());
}

/// A frame fills a lent block exactly when it begins where the block does and is as long.
/// Publishing such a frame ends the loan of that block alone; any other frame ends none.
pub proof fn law_frame_that_fills_a_block_takes_it(
    t: &mut AllocTracker,
    at: u64,
    len: usize,
    r: Option<AllocLease>,
    fills: bool,
)
    requires
        call_ensures(AllocTracker::is_lent, (&*old(t), at, len), fills),
        call_ensures(AllocTracker::mark_published, (t, at, len), r),
    ensures
        fills <==> old(t)@.contains_key(at) && old(t)@[at].len == len,
        fills ==> r == Some(old(t)@[at]) && final(t)@ == old(t)@.remove(at),
        !fills ==> r is None && final(t)@ == old(t)@,
{
}

/// Neither a new account nor one that was cleared has any block that is lent, so that no
/// frame fills one.
pub proof fn law_cleared_account_is_empty(
    t: AllocTracker,
    c: &mut AllocTracker,
    at: u64,
    len: usize,
    new_fills: bool,
    cleared_fills: bool,
)
    requires
        call_ensures(AllocTracker::new, (), t),
        call_ensures(AllocTracker::clear, (c,), ()),
        call_ensures(AllocTracker::is_lent, (&t, at, len), new_fills),
        call_ensures(AllocTracker::is_lent, (&*final(c), at, len), cleared_fills),
    ensures
        !new_fills && !cleared_fills,
{
}

} // verus!
