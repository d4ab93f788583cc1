//! First-fit allocator over the payload arena.
//!
//! Blocks are pairs of a start and a length. The free list is kept in order of
//! address; blocks in use are found by the identifier that was handed out with
//! them.

use crate::align;
use crate::align::align_up;
use std::collections::BTreeMap;
use vstd::prelude::*;

verus! {

/// A block that was handed out.
#[derive(Debug, Clone, Copy)]
pub struct Allocation {
    pub buffer_id: u32,
    pub offset: u64,
    pub len: u32,
}

/// Hands out blocks of the arena and takes them back.
#[derive(Debug)]
pub struct FreeListAllocator {
    free: Vec<(u64, u64)>,
    used: BTreeMap<u32, (u64, u64)>,
    next_id: u32,
    total_size: u64,
}

/// The allocator's state as mathematics: the free list, the blocks in use by
/// identifier, the identifier that comes next, and the size of the arena.
#[verifier::ext_equal]
pub struct ArenaView {
    pub free: Seq<(u64, u64)>,
    pub used: Map<u32, (u64, u64)>,
    pub next_id: u32,
    pub total: u64,
}

/// The position just behind a block.
pub open spec fn block_end(b: (u64, u64)) -> int {
    b.0 + b.1
}

/// Whether the block holds the byte at `p`.
pub open spec fn in_block(b: (u64, u64), p: int) -> bool {
    b.0 <= p < block_end(b)
}

/// Whether some block of the list holds the byte at `p`.
pub open spec fn covers(blocks: Seq<(u64, u64)>, p: int) -> bool {
    exists|i: int| 0 <= i < blocks.len() && #[trigger] in_block(blocks[i], p)
}

/// The two blocks have no byte in common.
pub open spec fn apart(a: (u64, u64), b: (u64, u64)) -> bool {
    a.1 == 0 || b.1 == 0 || block_end(a) <= b.0 || block_end(b) <= a.0
}

/// The bytes of all the blocks of a list together.
pub open spec fn sum_lens(blocks: Seq<(u64, u64)>) -> int
    decreases blocks.len(),
{
    if blocks.len() == 0 {
        0
    } else {
        sum_lens(blocks.drop_last()) + blocks.last().1
    }
}

/// The bytes of all the blocks of a table together.
pub open spec fn sum_used(used: Map<u32, (u64, u64)>) -> int
    decreases used.dom().len(),
{
    if used.dom().finite() && used.dom().len() > 0 {
        let id = used.dom().choose();
        used[id].1 + sum_used(used.remove(id))
    } else {
        0
    }
}

/// The list is in order of address and its blocks do not overlap.
pub open spec fn ordered(blocks: Seq<(u64, u64)>) -> bool {
    forall|i: int, j: int|
        0 <= i < j < blocks.len() ==> block_end(#[trigger] blocks[i]) <= (#[trigger] blocks[j]).0
            && blocks[i].0 < blocks[j].0
}

/// No block of the list starts below the one before it.
pub open spec fn ascending(blocks: Seq<(u64, u64)>) -> bool {
    forall|i: int, j: int|
        0 <= i < j < blocks.len() ==> (#[trigger] blocks[i]).0 <= (#[trigger] blocks[j]).0
}

/// The list is in order and between any two neighbours there is a byte that is not free.
pub open spec fn separated(blocks: Seq<(u64, u64)>) -> bool {
    forall|i: int, j: int|
        0 <= i < j < blocks.len() ==> block_end(#[trigger] blocks[i]) < (#[trigger] blocks[j]).0
}

/// Where a request for `size` bytes lands in the block.
pub open spec fn place(b: (u64, u64), align: u64) -> int {
    align::aligned(b.0 as int, align as int)
}

/// Whether the block has room for `size` bytes at the alignment.
pub open spec fn fits(b: (u64, u64), size: u32, align: u64) -> bool {
    place(b, align) + size <= block_end(b)
}

/// The index of the first block from `i` on that has room, or the list's length.
pub open spec fn first_fit(free: Seq<(u64, u64)>, i: int, size: u32, align: u64) -> int
    decreases free.len() - i,
{
    if i >= free.len() {
        free.len() as int
    } else if fits(free[i], size, align) {
        i
    } else {
        first_fit(free, i + 1, size, align)
    }
}

/// What is left of a block, below and above the bytes that were taken out of it.
pub open spec fn remnants(b: (u64, u64), size: u32, align: u64) -> Seq<(u64, u64)> {
    let at = place(b, align);
    let left = if at > b.0 {
        seq![(b.0, (at - b.0) as u64)]
    } else {
        seq![]
    };
    let right = if at + size < block_end(b) {
        seq![((at + size) as u64, (block_end(b) - (at + size)) as u64)]
    } else {
        seq![]
    };
    left + right
}

/// The free list after `size` bytes were taken out of its block `i`.
pub open spec fn carve(free: Seq<(u64, u64)>, i: int, size: u32, align: u64) -> Seq<(u64, u64)> {
    free.take(i) + remnants(free[i], size, align) + free.skip(i + 1)
}

/// The identifier after `id`: one more, and 1 after the last one.
pub open spec fn id_after(id: u32) -> u32 {
    if id == u32::MAX {
        1
    } else {
        (id + 1) as u32
    }
}

/// The state and the block after a request, or `None` when no block has room.
pub open spec fn allocated(v: ArenaView, size: u32, align: u64) -> Option<
    (ArenaView, Allocation),
> {
    let i = first_fit(v.free, 0, size, align);
    if i < v.free.len() {
        let at = place(v.free[i], align) as u64;
        Some(
            (
                ArenaView {
                    free: carve(v.free, i, size, align),
                    used: v.used.insert(v.next_id, (at, size as u64)),
                    next_id: id_after(v.next_id),
                    total: v.total,
                },
                Allocation { buffer_id: v.next_id, offset: at, len: size },
            ),
        )
    } else {
        None
    }
}

/// How many blocks from `i` on, one after the other, start at or below `start`, plus `i`.
pub open spec fn insert_pos(free: Seq<(u64, u64)>, i: int, start: u64) -> int
    decreases free.len() - i,
{
    if i >= free.len() {
        free.len() as int
    } else if free[i].0 > start {
        i
    } else {
        insert_pos(free, i + 1, start)
    }
}

/// The list with the block put behind all the blocks that start at or below it.
pub open spec fn with_block(free: Seq<(u64, u64)>, b: (u64, u64)) -> Seq<(u64, u64)> {
    free.insert(insert_pos(free, 0, b.0), b)
}

/// The list in order of address; blocks that start together stay in the order they had.
pub open spec fn by_start(blocks: Seq<(u64, u64)>) -> Seq<(u64, u64)>
    decreases blocks.len(),
{
    if blocks.len() == 0 {
        seq![]
    } else {
        with_block(by_start(blocks.drop_last()), blocks.last())
    }
}

/// The list with every block that touches the one before it merged into that one.
pub open spec fn coalesced(blocks: Seq<(u64, u64)>) -> Seq<(u64, u64)>
    decreases blocks.len(),
{
    if blocks.len() == 0 {
        seq![]
    } else {
        let done = coalesced(blocks.drop_last());
        let b = blocks.last();
        if done.len() > 0 && b.0 <= block_end(done.last()) {
            let end = if block_end(b) > block_end(done.last()) {
                block_end(b)
            } else {
                block_end(done.last())
            };
            done.drop_last().push((done.last().0, (end - done.last().0) as u64))
        } else {
            done.push(b)
        }
    }
}

/// The state after the block of `id` was given back; unchanged when there is none.
pub open spec fn released(v: ArenaView, id: u32) -> ArenaView {
    if v.used.contains_key(id) {
        ArenaView {
            free: coalesced(with_block(v.free, v.used[id])),
            used: v.used.remove(id),
            ..v
        }
    } else {
        v
    }
}

/// The state of an arena of which nothing is in use.
pub open spec fn fresh(total: u64, next_id: u32) -> ArenaView {
    ArenaView { free: seq![(0, total)], used: Map::empty(), next_id, total }
}

impl ArenaView {
    /// What holds of the allocator at all times: the free list is in order, all
    /// blocks lie within the arena, no byte belongs to two blocks, and the blocks
    /// together are no larger than the arena.
    pub open spec fn inv(self) -> bool {
        &&& ordered(self.free)
        &&& forall|i: int|
            0 <= i < self.free.len() ==> block_end(#[trigger] self.free[i]) <= self.total
        &&& self.used.dom().finite()
        &&& forall|id: u32| #[trigger]
            self.used.contains_key(id) ==> block_end(self.used[id]) <= self.total
        &&& forall|a: u32, b: u32|
            a != b && #[trigger] self.used.contains_key(a) && #[trigger] self.used.contains_key(b)
                ==> apart(self.used[a], self.used[b])
        &&& forall|id: u32, i: int|
            #[trigger] self.used.contains_key(id) && 0 <= i < self.free.len() ==> apart(
                self.used[id],
                #[trigger] self.free[i],
            )
        &&& sum_lens(self.free) + sum_used(self.used) <= self.total
        &&& self.next_id >= 1
    }

    /// Every byte of the arena is either free or in a block that can be given back.
    pub open spec fn balanced(self) -> bool {
        sum_lens(self.free) + sum_used(self.used) == self.total
    }
}

proof fn lemma_apart_shares_no_byte(a: (u64, u64), b: (u64, u64))
    ensures
        apart(a, b) <==> (forall|p: int| !(#[trigger] in_block(a, p) && in_block(b, p))),
{
    if !apart(a, b) {
        let p = if a.0 > b.0 {
            a.0 as int
        } else {
            b.0 as int
        };
        assert(in_block(a, p) && in_block(b, p));
    }
}

proof fn lemma_sum_lens_concat(a: Seq<(u64, u64)>, b: Seq<(u64, u64)>)
    ensures
        sum_lens(a + b) == sum_lens(a) + sum_lens(b),
    decreases b.len(),
{
    if b.len() == 0 {
        assert(a + b =~= a);
    } else {
        assert((a + b).drop_last() =~= a + b.drop_last());
        lemma_sum_lens_concat(a, b.drop_last());
    }
}

proof fn lemma_sum_lens_one(b: (u64, u64))
    ensures
        sum_lens(seq![b]) == b.1,
{
    reveal_with_fuel(sum_lens, 2);
}

proof fn lemma_sum_lens_insert(s: Seq<(u64, u64)>, p: int, b: (u64, u64))
    requires
        0 <= p <= s.len(),
    ensures
        sum_lens(s.insert(p, b)) == sum_lens(s) + b.1,
{
    assert(s.insert(p, b) =~= s.take(p) + seq![b] + s.skip(p));
    assert(s =~= s.take(p) + s.skip(p));
    lemma_sum_lens_concat(s.take(p) + seq![b], s.skip(p));
    lemma_sum_lens_concat(s.take(p), seq![b]);
    lemma_sum_lens_concat(s.take(p), s.skip(p));
    lemma_sum_lens_one(b);
}

proof fn lemma_sum_lens_nonneg(s: Seq<(u64, u64)>)
    ensures
        sum_lens(s) >= 0,
    decreases s.len(),
{
    if s.len() > 0 {
        lemma_sum_lens_nonneg(s.drop_last());
    }
}

/// Any block of a table can be counted first.
proof fn lemma_sum_used_remove(used: Map<u32, (u64, u64)>, id: u32)
    requires
        used.dom().finite(),
        used.contains_key(id),
    ensures
        sum_used(used) == used[id].1 + sum_used(used.remove(id)),
    decreases used.dom().len(),
{
    let first = used.dom().choose();
    assert(used.dom().contains(id));
    assert(used.dom().len() > 0);
    assert(used.dom().contains(first));
    if first != id {
        lemma_sum_used_remove(used.remove(first), id);
        lemma_sum_used_remove(used.remove(id), first);
        assert(used.remove(first).remove(id) =~= used.remove(id).remove(first));
    }
}

proof fn lemma_sum_used_nonneg(used: Map<u32, (u64, u64)>)
    ensures
        sum_used(used) >= 0,
    decreases used.dom().len(),
{
    if used.dom().finite() && used.dom().len() > 0 {
        let id = used.dom().choose();
        assert(used.dom().contains(id));
        lemma_sum_used_nonneg(used.remove(id));
    }
}

proof fn lemma_sum_used_insert(used: Map<u32, (u64, u64)>, id: u32, b: (u64, u64))
    requires
        used.dom().finite(),
    ensures
        sum_used(used.insert(id, b)) <= sum_used(used) + b.1,
        !used.contains_key(id) ==> sum_used(used.insert(id, b)) == sum_used(used) + b.1,
{
    lemma_sum_used_remove(used.insert(id, b), id);
    assert(used.insert(id, b).remove(id) =~= used.remove(id));
    if used.contains_key(id) {
        lemma_sum_used_remove(used, id);
    } else {
        assert(used.remove(id) =~= used);
    }
}

/// The bytes in use are no more than the arena has.
pub proof fn lemma_used_fits(v: ArenaView)
    requires
        v.inv(),
    ensures
        0 <= sum_used(v.used) <= v.total,
{
    lemma_sum_lens_nonneg(v.free);
    lemma_sum_used_nonneg(v.used);
}

/// Merging keeps the bytes, and leaves a gap between neighbours.
proof fn lemma_merged(blocks: Seq<(u64, u64)>, total: u64)
    requires
        ascending(blocks),
        forall|i: int| 0 <= i < blocks.len() ==> block_end(#[trigger] blocks[i]) <= total,
    ensures
        separated(coalesced(blocks)),
        forall|p: int| covers(coalesced(blocks), p) <==> covers(blocks, p),
        forall|i: int|
            0 <= i < coalesced(blocks).len() ==> block_end(#[trigger] coalesced(blocks)[i])
                <= total,
        blocks.len() > 0 ==> {
            let last = coalesced(blocks).last();
            &&& coalesced(blocks).len() > 0
            &&& last.0 <= blocks.last().0
            &&& forall|i: int|
                0 <= i < blocks.len() ==> block_end(#[trigger] blocks[i]) <= block_end(last)
            &&& exists|i: int|
                0 <= i < blocks.len() && block_end(#[trigger] blocks[i]) == block_end(last)
        },
    decreases blocks.len(),
{
    if blocks.len() > 0 {
        let rest = blocks.drop_last();
        let done = coalesced(rest);
        let b = blocks.last();
        let all = coalesced(blocks);
        lemma_merged(rest, total);
        assert(forall|i: int| 0 <= i < rest.len() ==> rest[i] == blocks[i]);
        assert(b == blocks[blocks.len() - 1]);
        if done.len() > 0 && b.0 <= block_end(done.last()) {
            let last = done.last();
            let top = choose|i: int|
                0 <= i < rest.len() && block_end(#[trigger] rest[i]) == block_end(last);
            let merged = all.last();
            assert(last.0 <= b.0);
            assert(block_end(merged) == if block_end(b) > block_end(last) {
                block_end(b)
            } else {
                block_end(last)
            });
            assert(all =~= done.drop_last().push(merged));
            assert(merged.0 == last.0);
            assert forall|i: int, j: int| 0 <= i < j < all.len() implies block_end(
                #[trigger] all[i],
            ) < (#[trigger] all[j]).0 by {
                assert(all[i] == done[i]);
                assert(all[j].0 == done[j].0);
            }
            assert forall|p: int| covers(all, p) <==> covers(blocks, p) by {
                assert(covers(done, p) <==> covers(rest, p));
                if covers(all, p) {
                    let i = choose|i: int| 0 <= i < all.len() && #[trigger] in_block(all[i], p);
                    if i == all.len() - 1 {
                        if in_block(last, p) {
                            assert(in_block(done[done.len() - 1], p));
                            assert(covers(rest, p));
                            let k = choose|k: int|
                                0 <= k < rest.len() && #[trigger] in_block(rest[k], p);
                            assert(in_block(blocks[k], p));
                        } else {
                            assert(in_block(b, p));
                            assert(in_block(blocks[blocks.len() - 1], p));
                        }
                    } else {
                        assert(in_block(done[i], p));
                        let k = choose|k: int|
                            0 <= k < rest.len() && #[trigger] in_block(rest[k], p);
                        assert(in_block(blocks[k], p));
                    }
                }
                if covers(blocks, p) {
                    let k = choose|k: int|
                        0 <= k < blocks.len() && #[trigger] in_block(blocks[k], p);
                    if k == blocks.len() - 1 {
                        assert(in_block(all[all.len() - 1], p));
                    } else {
                        assert(in_block(rest[k], p));
                        let i = choose|i: int|
                            0 <= i < done.len() && #[trigger] in_block(done[i], p);
                        if i == done.len() - 1 {
                            assert(in_block(all[all.len() - 1], p));
                        } else {
                            assert(in_block(all[i], p));
                        }
                    }
                }
            }
            if block_end(b) > block_end(last) {
                assert(block_end(blocks[blocks.len() - 1]) == block_end(merged));
            } else {
                assert(block_end(blocks[top]) == block_end(merged));
            }
        } else {
            assert(all == done.push(b));
            if done.len() > 0 {
                assert forall|i: int| 0 <= i < done.len() implies block_end(
                    #[trigger] done[i],
                ) < b.0 by {
                    assert(done.last() == done[done.len() - 1]);
                    assert(i == done.len() - 1 || block_end(done[i]) < done[done.len() - 1].0);
                }
            }
            assert forall|p: int| covers(all, p) <==> covers(blocks, p) by {
                assert(covers(done, p) <==> covers(rest, p));
                if covers(all, p) {
                    let i = choose|i: int| 0 <= i < all.len() && #[trigger] in_block(all[i], p);
                    if i == all.len() - 1 {
                        assert(in_block(blocks[blocks.len() - 1], p));
                    } else {
                        assert(in_block(done[i], p));
                        let k = choose|k: int|
                            0 <= k < rest.len() && #[trigger] in_block(rest[k], p);
                        assert(in_block(blocks[k], p));
                    }
                }
                if covers(blocks, p) {
                    let k = choose|k: int|
                        0 <= k < blocks.len() && #[trigger] in_block(blocks[k], p);
                    if k == blocks.len() - 1 {
                        assert(in_block(all[all.len() - 1], p));
                    } else {
                        assert(in_block(rest[k], p));
                        let i = choose|i: int|
                            0 <= i < done.len() && #[trigger] in_block(done[i], p);
                        assert(in_block(all[i], p));
                    }
                }
            }
            assert(block_end(blocks[blocks.len() - 1]) == block_end(all.last()));
            assert(rest.len() > 0 ==> done.len() > 0);
        }
    }
}

/// Merging blocks that share no byte keeps their sum, too.
proof fn lemma_coalesced(blocks: Seq<(u64, u64)>, total: u64)
    requires
        ascending(blocks),
        forall|i: int, j: int|
            0 <= i < j < blocks.len() ==> apart(#[trigger] blocks[i], #[trigger] blocks[j]),
        forall|i: int| 0 <= i < blocks.len() ==> block_end(#[trigger] blocks[i]) <= total,
    ensures
        sum_lens(coalesced(blocks)) == sum_lens(blocks),
    decreases blocks.len(),
{
    if blocks.len() > 0 {
        let rest = blocks.drop_last();
        let done = coalesced(rest);
        let b = blocks.last();
        let all = coalesced(blocks);
        lemma_coalesced(rest, total);
        lemma_merged(rest, total);
        if done.len() > 0 && b.0 <= block_end(done.last()) {
            let last = done.last();
            let top = choose|i: int|
                0 <= i < rest.len() && block_end(#[trigger] rest[i]) == block_end(last);
            assert(apart(blocks[top], blocks[blocks.len() - 1]));
            assert(blocks[top] == rest[top]);
            assert(rest.last() == blocks[blocks.len() - 2]);
            assert(last.0 <= b.0);
            assert(all.last().1 == last.1 + b.1);
            assert(all.drop_last() =~= done.drop_last());
        } else {
            assert(all.drop_last() =~= done);
        }
    }
}

proof fn lemma_insert_pos(free: Seq<(u64, u64)>, i: int, start: u64)
    requires
        0 <= i <= free.len(),
        forall|k: int| 0 <= k < i ==> (#[trigger] free[k]).0 <= start,
    ensures
        i <= insert_pos(free, i, start) <= free.len(),
        forall|k: int|
            0 <= k < insert_pos(free, i, start) ==> (#[trigger] free[k]).0 <= start,
        insert_pos(free, i, start) < free.len() ==> free[insert_pos(free, i, start)].0 > start,
    decreases free.len() - i,
{
    if i < free.len() && free[i].0 <= start {
        lemma_insert_pos(free, i + 1, start);
    }
}

/// Putting a block at its place keeps the order, and adds that block alone.
proof fn lemma_with_block(free: Seq<(u64, u64)>, b: (u64, u64), total: u64)
    requires
        ascending(free),
        forall|i: int| 0 <= i < free.len() ==> block_end(#[trigger] free[i]) <= total,
        block_end(b) <= total,
    ensures
        ascending(with_block(free, b)),
        with_block(free, b).len() == free.len() + 1,
        forall|i: int|
            0 <= i < with_block(free, b).len() ==> block_end(#[trigger] with_block(free, b)[i])
                <= total,
        sum_lens(with_block(free, b)) == sum_lens(free) + b.1,
        forall|p: int| covers(with_block(free, b), p) <==> covers(free, p) || in_block(b, p),
{
    let at = insert_pos(free, 0, b.0);
    let blocks = with_block(free, b);
    lemma_insert_pos(free, 0, b.0);
    lemma_sum_lens_insert(free, at, b);
    assert forall|i: int, j: int| 0 <= i < j < blocks.len() implies (#[trigger] blocks[i]).0 <= (
    #[trigger] blocks[j]).0 by {
        let fi = if i < at {
            i
        } else {
            i - 1
        };
        let fj = if j < at {
            j
        } else {
            j - 1
        };
        if i != at {
            assert(blocks[i] == free[fi]);
        }
        if j != at {
            assert(blocks[j] == free[fj]);
        }
        if i == at && j > at + 1 {
            assert(free[at].0 <= free[fj].0);
        }
    }
    assert forall|i: int| 0 <= i < blocks.len() implies block_end(#[trigger] blocks[i])
        <= total by {
        if i < at {
            assert(blocks[i] == free[i]);
        } else if i > at {
            assert(blocks[i] == free[i - 1]);
        }
    }
    assert forall|p: int| covers(blocks, p) <==> covers(free, p) || in_block(b, p) by {
        if covers(blocks, p) {
            let k = choose|k: int| 0 <= k < blocks.len() && #[trigger] in_block(blocks[k], p);
            if k < at {
                assert(in_block(free[k], p));
            } else if k > at {
                assert(in_block(free[k - 1], p));
            }
        }
        if in_block(b, p) {
            assert(in_block(blocks[at], p));
        }
        if covers(free, p) {
            let k = choose|k: int| 0 <= k < free.len() && #[trigger] in_block(free[k], p);
            if k < at {
                assert(in_block(blocks[k], p));
            } else {
                assert(in_block(blocks[k + 1], p));
            }
        }
    }
}

/// Putting a list in order keeps its bytes.
proof fn lemma_by_start(blocks: Seq<(u64, u64)>, total: u64)
    requires
        forall|i: int| 0 <= i < blocks.len() ==> block_end(#[trigger] blocks[i]) <= total,
    ensures
        ascending(by_start(blocks)),
        by_start(blocks).len() == blocks.len(),
        forall|i: int|
            0 <= i < blocks.len() ==> block_end(#[trigger] by_start(blocks)[i]) <= total,
        forall|p: int| covers(by_start(blocks), p) <==> covers(blocks, p),
    decreases blocks.len(),
{
    if blocks.len() > 0 {
        let rest = blocks.drop_last();
        let b = blocks.last();
        assert forall|i: int| 0 <= i < rest.len() implies block_end(#[trigger] rest[i])
            <= total by {
            assert(rest[i] == blocks[i]);
        }
        lemma_by_start(rest, total);
        assert(b == blocks[blocks.len() - 1]);
        lemma_with_block(by_start(rest), b, total);
        assert forall|p: int| covers(by_start(blocks), p) <==> covers(blocks, p) by {
            lemma_covers_push(rest, b, p);
            assert(rest.push(b) =~= blocks);
            assert(covers(by_start(rest), p) <==> covers(rest, p));
        }
    }
}

proof fn lemma_covers_push(blocks: Seq<(u64, u64)>, b: (u64, u64), p: int)
    ensures
        covers(blocks.push(b), p) <==> covers(blocks, p) || in_block(b, p),
{
    let all = blocks.push(b);
    if covers(all, p) {
        let k = choose|k: int| 0 <= k < all.len() && #[trigger] in_block(all[k], p);
        if k < blocks.len() {
            assert(in_block(blocks[k], p));
        }
    }
    if covers(blocks, p) {
        let k = choose|k: int| 0 <= k < blocks.len() && #[trigger] in_block(blocks[k], p);
        assert(in_block(all[k], p));
    }
    if in_block(b, p) {
        assert(in_block(all[blocks.len() as int], p));
    }
}

/// A list that is in order stays as it is.
proof fn lemma_by_start_of_ascending(blocks: Seq<(u64, u64)>)
    requires
        ascending(blocks),
    ensures
        by_start(blocks) == blocks,
    decreases blocks.len(),
{
    if blocks.len() > 0 {
        let rest = blocks.drop_last();
        let b = blocks.last();
        lemma_by_start_of_ascending(rest);
        lemma_insert_pos(rest, 0, b.0);
        let at = insert_pos(rest, 0, b.0);
        if at < rest.len() {
            assert(blocks[at].0 <= blocks[blocks.len() - 1].0);
        }
        assert(rest.insert(at, b) =~= blocks);
    }
}

/// What holds of a list in order to which a block that is apart from it was given back.
proof fn lemma_give_back(free: Seq<(u64, u64)>, b: (u64, u64), total: u64)
    requires
        ordered(free),
        forall|i: int| 0 <= i < free.len() ==> block_end(#[trigger] free[i]) <= total,
        forall|i: int| 0 <= i < free.len() ==> apart(b, #[trigger] free[i]),
        block_end(b) <= total,
    ensures
        separated(coalesced(with_block(free, b))),
        sum_lens(coalesced(with_block(free, b))) == sum_lens(free) + b.1,
        forall|p: int|
            covers(coalesced(with_block(free, b)), p) <==> covers(free, p) || in_block(b, p),
        forall|i: int|
            0 <= i < coalesced(with_block(free, b)).len() ==> block_end(
                #[trigger] coalesced(with_block(free, b))[i],
            ) <= total,
{
    let at = insert_pos(free, 0, b.0);
    let blocks = with_block(free, b);
    lemma_insert_pos(free, 0, b.0);
    lemma_with_block(free, b, total);
    assert forall|i: int, j: int| 0 <= i < j < blocks.len() implies apart(
        #[trigger] blocks[i],
        #[trigger] blocks[j],
    ) by {
        let fi = if i < at {
            i
        } else {
            i - 1
        };
        let fj = if j < at {
            j
        } else {
            j - 1
        };
        if i != at {
            assert(blocks[i] == free[fi]);
        }
        if j != at {
            assert(blocks[j] == free[fj]);
        }
    }
    lemma_merged(blocks, total);
    lemma_coalesced(blocks, total);
}

/// Giving a block back keeps the invariant, frees exactly that block's bytes, and
/// leaves the free list merged.
pub proof fn law_release(v: ArenaView, id: u32)
    requires
        v.inv(),
    ensures
        released(v, id).inv(),
        v.balanced() ==> released(v, id).balanced(),
        v.used.contains_key(id) ==> {
            &&& separated(released(v, id).free)
            &&& forall|p: int|
                covers(released(v, id).free, p) <==> covers(v.free, p) || in_block(v.used[id], p)
        },
{
    if v.used.contains_key(id) {
        let b = v.used[id];
        let w = released(v, id);
        lemma_give_back(v.free, b, v.total);
        lemma_sum_used_remove(v.used, id);
        assert forall|i: int, j: int| 0 <= i < j < w.free.len() implies block_end(
            #[trigger] w.free[i],
        ) <= (#[trigger] w.free[j]).0 && w.free[i].0 < w.free[j].0 by {
            assert(block_end(w.free[i]) < w.free[j].0);
        }
        assert forall|k: u32, i: int|
            #[trigger] w.used.contains_key(k) && 0 <= i < w.free.len() implies apart(
            w.used[k],
            #[trigger] w.free[i],
        ) by {
            assert(v.used.contains_key(k) && k != id);
            lemma_apart_shares_no_byte(w.used[k], w.free[i]);
            lemma_apart_shares_no_byte(v.used[k], b);
            assert forall|p: int| !(#[trigger] in_block(w.used[k], p) && in_block(w.free[i], p)) by {
                if in_block(w.used[k], p) && in_block(w.free[i], p) {
                    assert(covers(w.free, p));
                    if covers(v.free, p) {
                        let f = choose|f: int|
                            0 <= f < v.free.len() && #[trigger] in_block(v.free[f], p);
                        lemma_apart_shares_no_byte(v.used[k], v.free[f]);
                        assert(apart(v.used[k], v.free[f]));
                    } else {
                        assert(apart(v.used[k], v.used[id]));
                    }
                }
            }
        }
    }
}

proof fn lemma_first_fit(free: Seq<(u64, u64)>, i: int, size: u32, align: u64)
    requires
        0 <= i <= free.len(),
    ensures
        i <= first_fit(free, i, size, align) <= free.len(),
        first_fit(free, i, size, align) < free.len() ==> fits(
            free[first_fit(free, i, size, align)],
            size,
            align,
        ),
        forall|k: int|
            i <= k < first_fit(free, i, size, align) ==> !fits(#[trigger] free[k], size, align),
    decreases free.len() - i,
{
    if i < free.len() && !fits(free[i], size, align) {
        lemma_first_fit(free, i + 1, size, align);
    }
}

proof fn lemma_place(b: (u64, u64), align: u64)
    ensures
        b.0 <= place(b, align),
{
    if align >= 1 {
        align::law_aligned_is_least_multiple(b.0 as int, align as int);
    }
}

/// The remnants of a block lie in it, in order, and are what is left without the placed bytes.
proof fn lemma_remnants(b: (u64, u64), size: u32, align: u64)
    requires
        fits(b, size, align),
        block_end(b) <= u64::MAX,
    ensures
        ordered(remnants(b, size, align)),
        sum_lens(remnants(b, size, align)) == b.1 - size,
        forall|k: int|
            0 <= k < remnants(b, size, align).len() ==> {
                let part = #[trigger] remnants(b, size, align)[k];
                b.0 <= part.0 && part.1 > 0 && block_end(part) <= block_end(b)
            },
        forall|p: int|
            covers(remnants(b, size, align), p) <==> in_block(b, p) && !in_block(
                (place(b, align) as u64, size as u64),
                p,
            ),
{
    let at = place(b, align);
    let parts = remnants(b, size, align);
    lemma_place(b, align);
    let left = (b.0, (at - b.0) as u64);
    let right = ((at + size) as u64, (block_end(b) - (at + size)) as u64);
    let has_left = at > b.0;
    let has_right = at + size < block_end(b);
    assert(parts =~= if has_left && has_right {
        seq![left, right]
    } else if has_left {
        seq![left]
    } else if has_right {
        seq![right]
    } else {
        seq![]
    });
    reveal_with_fuel(sum_lens, 3);
    if has_left && has_right {
        assert(parts.drop_last() =~= seq![left]);
    }
    assert forall|p: int|
        covers(parts, p) <==> in_block(b, p) && !in_block((at as u64, size as u64), p) by {
        if in_block(b, p) && !in_block((at as u64, size as u64), p) {
            if p < at {
                assert(in_block(parts[0], p));
            } else {
                assert(in_block(parts[parts.len() - 1], p));
            }
        }
    }
}

/// Replacing a block by ordered parts of it keeps the list in order.
proof fn lemma_replace(free: Seq<(u64, u64)>, i: int, parts: Seq<(u64, u64)>)
    requires
        ordered(free),
        0 <= i < free.len(),
        ordered(parts),
        forall|k: int|
            0 <= k < parts.len() ==> {
                let part = #[trigger] parts[k];
                free[i].0 <= part.0 && part.1 > 0 && block_end(part) <= block_end(free[i])
            },
    ensures
        ordered(free.take(i) + parts + free.skip(i + 1)),
        sum_lens(free.take(i) + parts + free.skip(i + 1)) == sum_lens(free) - free[i].1 + sum_lens(
            parts,
        ),
        forall|p: int|
            covers(free.take(i) + parts + free.skip(i + 1), p) <==> covers(parts, p) || (covers(
                free,
                p,
            ) && !in_block(free[i], p)),
        forall|k: int|
            0 <= k < (free.take(i) + parts + free.skip(i + 1)).len() ==> exists|j: int|
                0 <= j < free.len() && (#[trigger] free[j]).0 <= (#[trigger] (free.take(i) + parts
                    + free.skip(i + 1))[k]).0 && block_end(
                    (free.take(i) + parts + free.skip(i + 1))[k],
                ) <= block_end(free[j]),
{
    let b = free[i];
    let pre = free.take(i);
    let post = free.skip(i + 1);
    let out = pre + parts + post;
    let n = parts.len() as int;
    assert(free =~= pre + seq![b] + post);
    lemma_sum_lens_concat(pre + seq![b], post);
    lemma_sum_lens_concat(pre, seq![b]);
    lemma_sum_lens_one(b);
    lemma_sum_lens_concat(pre + parts, post);
    lemma_sum_lens_concat(pre, parts);
    assert forall|k: int| 0 <= k < i implies #[trigger] out[k] == free[k] by {}
    assert forall|k: int| i <= k < i + n implies #[trigger] out[k] == parts[k - i] by {}
    assert forall|k: int| i + n <= k < out.len() implies #[trigger] out[k] == free[k - n + 1] by {}
    assert forall|k: int| 0 <= k < out.len() implies exists|j: int|
        0 <= j < free.len() && (#[trigger] free[j]).0 <= (#[trigger] out[k]).0 && block_end(out[k])
            <= block_end(free[j]) by {
        if k < i {
            assert(free[k].0 <= out[k].0);
        } else if k < i + n {
            assert(free[i].0 <= out[k].0);
        } else {
            assert(free[k - n + 1].0 <= out[k].0);
        }
    }
    assert forall|x: int, y: int| 0 <= x < y < out.len() implies block_end(#[trigger] out[x]) <= (
    #[trigger] out[y]).0 && out[x].0 < out[y].0 by {
        if x < i {
            if y >= i + n {
                assert(block_end(free[x]) <= free[y - n + 1].0);
            } else {
                assert(block_end(free[x]) <= free[i].0 && free[x].0 < free[i].0);
            }
        } else if x < i + n {
            if y < i + n {
                assert(block_end(parts[x - i]) <= parts[y - i].0);
            } else {
                assert(block_end(free[i]) <= free[y - n + 1].0);
            }
        } else {
            assert(block_end(free[x - n + 1]) <= free[y - n + 1].0);
        }
    }
    assert forall|p: int|
        covers(out, p) <==> covers(parts, p) || (covers(free, p) && !in_block(b, p)) by {
        if covers(out, p) {
            let k = choose|k: int| 0 <= k < out.len() && #[trigger] in_block(out[k], p);
            if k < i {
                assert(in_block(free[k], p));
                assert(block_end(free[k]) <= free[i].0);
            } else if k < i + n {
                assert(in_block(parts[k - i], p));
            } else {
                assert(in_block(free[k - n + 1], p));
                assert(block_end(free[i]) <= free[k - n + 1].0);
            }
        }
        if covers(parts, p) {
            let k = choose|k: int| 0 <= k < parts.len() && #[trigger] in_block(parts[k], p);
            assert(in_block(out[i + k], p));
        }
        if covers(free, p) && !in_block(b, p) {
            let j = choose|j: int| 0 <= j < free.len() && #[trigger] in_block(free[j], p);
            if j < i {
                assert(in_block(out[j], p));
            } else {
                assert(in_block(out[j + n - 1], p));
            }
        }
    }
}

/// Carving takes exactly the placed bytes out of the free list.
proof fn lemma_carve(free: Seq<(u64, u64)>, i: int, size: u32, align: u64)
    requires
        ordered(free),
        0 <= i < free.len(),
        fits(free[i], size, align),
        block_end(free[i]) <= u64::MAX,
    ensures
        ordered(carve(free, i, size, align)),
        sum_lens(carve(free, i, size, align)) == sum_lens(free) - size,
        forall|p: int|
            covers(carve(free, i, size, align), p) <==> covers(free, p) && !in_block(
                (place(free[i], align) as u64, size as u64),
                p,
            ),
        forall|k: int|
            0 <= k < carve(free, i, size, align).len() ==> exists|j: int|
                0 <= j < free.len() && (#[trigger] free[j]).0 <= (#[trigger] carve(
                    free,
                    i,
                    size,
                    align,
                )[k]).0 && block_end(carve(free, i, size, align)[k]) <= block_end(free[j]),
{
    let b = free[i];
    let taken = (place(b, align) as u64, size as u64);
    lemma_place(b, align);
    lemma_remnants(b, size, align);
    lemma_replace(free, i, remnants(b, size, align));
    assert forall|p: int|
        covers(carve(free, i, size, align), p) <==> covers(free, p) && !in_block(taken, p) by {
        if in_block(b, p) {
            assert(in_block(free[i], p));
            assert(covers(free, p));
        }
    }
}

/// Handing out a block keeps the invariant; the block was free, so it shares no
/// byte with any block in use.
pub proof fn law_allocation(v: ArenaView, size: u32, align: u64)
    requires
        v.inv(),
    ensures
        match allocated(v, size, align) {
            Some((w, a)) => {
                &&& w.inv()
                &&& v.balanced() && !v.used.contains_key(v.next_id) ==> w.balanced()
                &&& a.offset + a.len <= v.total
                &&& a.offset == place(v.free[first_fit(v.free, 0, size, align)], align)
                &&& forall|id: u32| #[trigger]
                    v.used.contains_key(id) ==> apart(v.used[id], (a.offset, a.len as u64))
                &&& forall|p: int|
                    covers(w.free, p) <==> covers(v.free, p) && !in_block(
                        (a.offset, a.len as u64),
                        p,
                    )
                &&& forall|p: int| in_block((a.offset, a.len as u64), p) ==> covers(v.free, p)
            },
            None => forall|i: int|
                0 <= i < v.free.len() ==> !fits(#[trigger] v.free[i], size, align),
        },
{
    let i = first_fit(v.free, 0, size, align);
    lemma_first_fit(v.free, 0, size, align);
    if i < v.free.len() {
        let (w, a) = allocated(v, size, align)->0;
        let b = (a.offset, a.len as u64);
        lemma_place(v.free[i], align);
        lemma_carve(v.free, i, size, align);
        lemma_sum_used_insert(v.used, v.next_id, b);
        assert forall|p: int| in_block(b, p) implies covers(v.free, p) by {
            assert(in_block(v.free[i], p));
        }
        assert forall|id: u32| #[trigger] v.used.contains_key(id) implies apart(v.used[id], b) by {
            assert(apart(v.used[id], v.free[i]));
        }
        assert forall|id: u32, k: int|
            #[trigger] w.used.contains_key(id) && 0 <= k < w.free.len() implies apart(
            w.used[id],
            #[trigger] w.free[k],
        ) by {
            if id == v.next_id {
                lemma_apart_shares_no_byte(b, w.free[k]);
                assert forall|p: int| !(#[trigger] in_block(b, p) && in_block(w.free[k], p)) by {
                    if in_block(b, p) && in_block(w.free[k], p) {
                        assert(covers(w.free, p));
                    }
                }
            } else {
                assert(v.used.contains_key(id));
                let j = choose|j: int|
                    0 <= j < v.free.len() && (#[trigger] v.free[j]).0 <= w.free[k].0 && block_end(
                        w.free[k],
                    ) <= block_end(v.free[j]);
                assert(apart(v.used[id], v.free[j]));
            }
        }
    }
}

impl FreeListAllocator {
    /// The state that the contracts speak of.
    pub closed spec fn view(&self) -> ArenaView {
        ArenaView {
            free: self.free@,
            used: self.used@,
            next_id: self.next_id,
            total: self.total_size,
        }
    }

    /// The allocator's invariant.
    pub open spec fn wf(&self) -> bool {
        self.view().inv()
    }

    /// An allocator over `total_size` bytes, all of them free in one block.
    pub fn new(total_size: u64) -> (r: Self)
        ensures
            r@ == fresh(total_size, 1),
            r.wf(),
            r@.balanced(),
    {
        let mut free: Vec<(u64, u64)> = Vec::new();
        free.push((0, total_size));
        let r = FreeListAllocator { free, used: BTreeMap::new(), next_id: 1, total_size };
        proof {
            law_fresh_is_valid(total_size, 1);
            assert(r@ =~= fresh(total_size, 1));
        }
        r
    }

    /// Takes `size` bytes, at a multiple of `align`, out of the first block of the
    /// free list that has room for them.
    pub fn allocate(&mut self, size: u32, align: u64) -> (r: Option<Allocation>)
        requires
            old(self).wf(),
        ensures
            final(self).wf(),
            match allocated(old(self)@, size, align) {
                Some((after, a)) => r == Some(a) && final(self)@ == after,
                None => r is None && final(self)@ == old(self)@,
            },
    {
        proof {
            law_allocation(self@, size, align);
        }
        let mut idx: usize = 0;
        while idx < self.free.len()
            invariant
                self@ == old(self)@,
                self.wf(),
                idx <= self.free.len(),
                first_fit(self@.free, 0, size, align) == first_fit(
                    self@.free,
                    idx as int,
                    size,
                    align,
                ),
                allocated(self@, size, align) matches Some((after, _)) ==> after.inv(),
            decreases self.free.len() - idx,
        {
            let (start, len) = self.free[idx];
            proof {
                assert(block_end(self@.free[idx as int]) <= self@.total);
                lemma_place((start, len), align);
            }
            let end: u64 = start + len;
            if let Some(aligned_start) = align_up(start, align) {
                if let Some(right_start) = aligned_start.checked_add(size as u64) {
                    if right_start <= end {
                        let left_len: u64 = aligned_start - start;
                        let right_len: u64 = end - right_start;
                        self.free.remove(idx);
                        if right_len > 0 {
                            self.free.insert(idx, (right_start, right_len));
                        }
                        if left_len > 0 {
                            self.free.insert(idx, (start, left_len));
                        }
                        let buffer_id: u32 = self.next_id;
                        self.next_id = if buffer_id == u32::MAX {
                            1
                        } else {
                            buffer_id + 1
                        };
                        self.used.insert(buffer_id, (aligned_start, size as u64));
                        proof {
                            assert(self@.free =~= carve(old(self)@.free, idx as int, size, align));
                            assert(self@ =~= (allocated(old(self)@, size, align)->0).0);
                        }
                        return Some(Allocation { buffer_id, offset: aligned_start, len: size });
                    }
                }
            }
            idx += 1;
        }
        None
    }

    /// Gives the block of `buffer_id` back; `false` when no such block is in use.
    pub fn free_by_id(&mut self, buffer_id: u32) -> (r: bool)
        requires
            old(self).wf(),
        ensures
            final(self).wf(),
            r == old(self)@.used.contains_key(buffer_id),
            final(self)@ == released(old(self)@, buffer_id),
    {
        proof {
            law_release(self@, buffer_id);
        }
        if let Some((start, len)) = self.used.remove(&buffer_id) {
            proof {
                let b = (start, len);
                lemma_by_start_of_ascending(old(self)@.free);
                assert(old(self)@.free.push(b).drop_last() =~= old(self)@.free);
                assert(old(self)@.used.contains_key(buffer_id));
            }
            self.insert_and_coalesce(start, len);
            assert(self@ =~= released(old(self)@, buffer_id));
            true
        } else {
            assert(old(self)@.used.remove(buffer_id) =~= old(self)@.used);
            assert(self@ =~= old(self)@);
            false
        }
    }

    /// The blocks in order of address.
    fn in_order(blocks: &Vec<(u64, u64)>) -> (r: Vec<(u64, u64)>)
        requires
            forall|i: int| 0 <= i < blocks@.len() ==> block_end(#[trigger] blocks@[i]) <= u64::MAX,
        ensures
            r@ == by_start(blocks@),
    {
        let mut sorted: Vec<(u64, u64)> = Vec::new();
        let mut i: usize = 0;
        while i < blocks.len()
            invariant
                i <= blocks@.len(),
                sorted@ == by_start(blocks@.take(i as int)),
                forall|k: int|
                    0 <= k < blocks@.len() ==> block_end(#[trigger] blocks@[k]) <= u64::MAX,
            decreases blocks.len() - i,
        {
            let b: (u64, u64) = blocks[i];
            proof {
                assert forall|k: int| 0 <= k < i implies block_end(
                    #[trigger] blocks@.take(i as int)[k],
                ) <= u64::MAX by {
                    assert(blocks@.take(i as int)[k] == blocks@[k]);
                }
                lemma_by_start(blocks@.take(i as int), u64::MAX);
                lemma_insert_pos(sorted@, 0, b.0);
                assert(blocks@.take(i + 1).drop_last() =~= blocks@.take(i as int));
                assert(blocks@.take(i + 1).last() == b);
            }
            let mut at: usize = sorted.len();
            while at > 0 && sorted[at - 1].0 > b.0
                invariant
                    at <= sorted@.len(),
                    forall|k: int| at <= k < sorted@.len() ==> (#[trigger] sorted@[k]).0 > b.0,
                decreases at,
            {
                at -= 1;
            }
            proof {
                let pos = insert_pos(sorted@, 0, b.0);
                if pos < at {
                    assert(sorted@[pos].0 <= sorted@[at - 1].0);
                }
                if pos > at {
                    assert(sorted@[at as int].0 > b.0);
                }
            }
            sorted.insert(at, b);
            i += 1;
        }
        assert(blocks@.take(blocks@.len() as int) =~= blocks@);
        sorted
    }

    /// Puts the block into the free list, puts that in order and merges what touches or
    /// overlaps: what is free afterwards is what was free before, and the block.
    fn insert_and_coalesce(&mut self, start: u64, len: u64)
        requires
            forall|i: int|
                0 <= i < old(self)@.free.len() ==> block_end(#[trigger] old(self)@.free[i])
                    <= u64::MAX,
            start + len <= u64::MAX,
        ensures
            final(self)@ == (ArenaView {
                free: coalesced(by_start(old(self)@.free.push((start, len)))),
                ..old(self)@
            }),
            separated(final(self)@.free),
            forall|p: int|
                covers(final(self)@.free, p) <==> covers(old(self)@.free, p) || in_block(
                    (start, len),
                    p,
                ),
    {
        let ghost given = old(self)@.free.push((start, len));
        self.free.push((start, len));
        assert(self.free@ =~= given);
        let sorted: Vec<(u64, u64)> = Self::in_order(&self.free);
        let ghost blocks = by_start(given);
        proof {
            lemma_by_start(given, u64::MAX);
        }
        let mut merged: Vec<(u64, u64)> = Vec::new();
        let mut i: usize = 0;
        while i < sorted.len()
            invariant
                sorted@ == blocks,
                i <= sorted@.len(),
                merged@ == coalesced(blocks.take(i as int)),
                ascending(blocks),
                forall|k: int|
                    0 <= k < blocks.len() ==> block_end(#[trigger] blocks[k]) <= u64::MAX,
            decreases sorted.len() - i,
        {
            let (s, l) = sorted[i];
            proof {
                assert(blocks.take(i + 1).drop_last() =~= blocks.take(i as int));
                assert(blocks.take(i + 1).last() == blocks[i as int]);
                lemma_merged(blocks.take(i as int), u64::MAX);
                assert(block_end(blocks[i as int]) <= u64::MAX);
            }
            let n: usize = merged.len();
            if n > 0 {
                let (last_s, last_l) = merged[n - 1];
                assert(merged@.last() == merged@[n - 1]);
                let last_end: u64 = last_s + last_l;
                if s <= last_end {
                    let end: u64 = if s + l > last_end {
                        s + l
                    } else {
                        last_end
                    };
                    merged.pop();
                    merged.push((last_s, end - last_s));
                    i += 1;
                    continue;
                }
            }
            merged.push((s, l));
            i += 1;
        }
        proof {
            assert(blocks.take(blocks.len() as int) =~= blocks);
            lemma_merged(blocks, u64::MAX);
            assert forall|p: int| covers(merged@, p) <==> covers(old(self)@.free, p) || in_block(
                (start, len),
                p,
            ) by {
                lemma_covers_push(old(self)@.free, (start, len), p);
                assert(covers(blocks, p) <==> covers(given, p));
            }
        }
        self.free = merged;
    }

    /// The bytes of all blocks in use together.
    pub fn used_bytes(&self) -> (r: u64)
        requires
            self.wf(),
        ensures
            r == sum_used(self@.used),
    {
        let mut total: u64 = 0;
        let values = self.used.values();
        let ghost keys = choose|keys: Seq<u32>|
            {
                &&& keys.to_set() == self@.used.dom()
                &&& keys.no_duplicates()
                &&& vstd::std_specs::iter::IteratorSpec::remaining(&values) == keys.map(
                    |i: int, k: u32| &self@.used[k],
                )
            };
        for v in it: values
            invariant
                total == sum_keys(self@.used, keys.take(it.index())),
                it.seq() == keys.map(|i: int, k: u32| &self@.used[k]),
                self.wf(),
                keys.to_set() == self@.used.dom(),
                keys.no_duplicates(),
        {
            proof {
                let i = it.index();
                assert(keys.take(i + 1).drop_last() =~= keys.take(i));
                lemma_sum_keys_mono(self@.used, keys, i + 1);
                lemma_sum_keys(self@.used, keys);
                lemma_sum_lens_nonneg(self@.free);
            }
            total = total + v.1;
        }
        proof {
            assert(keys.take(keys.len() as int) =~= keys);
            lemma_sum_keys(self@.used, keys);
        }
        total
    }

    /// The size of the arena.
    pub fn total(&self) -> (r: u64)
        ensures
            r == self@.total,
    {
        self.total_size
    }

    /// Forgets every block in use: the whole arena is free again. Identifiers go on
    /// from where they were, so that one handed out before names no new block.
    pub fn reset(&mut self)
        requires
            old(self).wf(),
        ensures
            final(self).wf(),
            final(self)@ == fresh(old(self)@.total, old(self)@.next_id),
    {
        let mut free: Vec<(u64, u64)> = Vec::new();
        free.push((0, self.total_size));
        self.free = free;
        self.used = BTreeMap::new();
        proof {
            law_fresh_is_valid(self.total_size, self.next_id);
            assert(self@ =~= fresh(self.total_size, self.next_id));
        }
    }
}

/// The bytes of the blocks of the given identifiers together.
spec fn sum_keys(used: Map<u32, (u64, u64)>, keys: Seq<u32>) -> int
    decreases keys.len(),
{
    if keys.len() == 0 {
        0
    } else {
        sum_keys(used, keys.drop_last()) + used[keys.last()].1
    }
}

proof fn lemma_sum_keys_mono(used: Map<u32, (u64, u64)>, keys: Seq<u32>, i: int)
    requires
        0 <= i <= keys.len(),
    ensures
        0 <= sum_keys(used, keys.take(i)) <= sum_keys(used, keys),
    decreases keys.len(),
{
    if i == keys.len() {
        assert(keys.take(i) =~= keys);
        if i > 0 {
            lemma_sum_keys_mono(used, keys.drop_last(), i - 1);
        }
    } else {
        assert(keys.take(i) =~= keys.drop_last().take(i));
        lemma_sum_keys_mono(used, keys.drop_last(), i);
    }
}

proof fn lemma_sum_keys(used: Map<u32, (u64, u64)>, keys: Seq<u32>)
    requires
        used.dom().finite(),
        keys.no_duplicates(),
        keys.to_set() == used.dom(),
    ensures
        sum_keys(used, keys) == sum_used(used),
    decreases keys.len(),
{
    if keys.len() == 0 {
        assert(used.dom() =~= Set::empty()) by {
            assert forall|k: u32| !used.dom().contains(k) by {
                assert(keys.to_set().contains(k) ==> keys.contains(k));
            }
        }
    } else {
        let k = keys.last();
        let rest = keys.drop_last();
        assert(keys.contains(k)) by {
            assert(keys[keys.len() - 1] == k);
        }
        assert(keys.to_set().contains(k));
        assert(rest.to_set() =~= used.remove(k).dom()) by {
            assert forall|x: u32| rest.to_set().contains(x) <==> used.remove(k).dom().contains(x) by {
                if rest.contains(x) {
                    let i = choose|i: int| 0 <= i < rest.len() && rest[i] == x;
                    assert(keys[i] == x);
                    assert(keys.contains(x));
                    assert(keys.to_set().contains(x));
                    assert(keys[keys.len() - 1] == k);
                }
                if used.remove(k).dom().contains(x) {
                    assert(keys.to_set().contains(x));
                    let i = choose|i: int| 0 <= i < keys.len() && keys[i] == x;
                    assert(rest[i] == x);
                }
            }
        }
        lemma_sum_keys(used.remove(k), rest);
        lemma_sum_used_remove(used, k);
        lemma_sum_keys_frame(used, used.remove(k), rest);
    }
}

proof fn lemma_sum_keys_frame(a: Map<u32, (u64, u64)>, b: Map<u32, (u64, u64)>, keys: Seq<u32>)
    requires
        forall|i: int| 0 <= i < keys.len() ==> a[#[trigger] keys[i]] == b[keys[i]],
    ensures
        sum_keys(a, keys) == sum_keys(b, keys),
    decreases keys.len(),
{
    if keys.len() > 0 {
        assert forall|i: int| 0 <= i < keys.drop_last().len() implies a[#[trigger] keys.drop_last()[i]]
            == b[keys.drop_last()[i]] by {
            assert(keys[i] == keys.drop_last()[i]);
        }
        assert(keys[keys.len() - 1] == keys.last());
        lemma_sum_keys_frame(a, b, keys.drop_last());
    }
}

/// An arena of which nothing is in use meets the invariant, and every byte of it is free.
pub proof fn law_fresh_is_valid(total: u64, next_id: u32)
    requires
        next_id >= 1,
    ensures
        fresh(total, next_id).inv(),
        fresh(total, next_id).balanced(),
{
    lemma_sum_lens_one((0u64, total));
    assert(fresh(total, next_id).used.dom() =~= Set::empty());
}

/// A block that was handed out is aligned as asked, as long as asked, and carries an
/// identifier that is never 0.
pub proof fn law_allocation_is_as_asked(v: ArenaView, size: u32, align: u64)
    requires
        v.inv(),
        allocated(v, size, align) is Some,
    ensures
        ({
            let (w, a) = allocated(v, size, align)->0;
            &&& a.len == size
            &&& align >= 1 ==> a.offset as int % align as int == 0
            &&& a.buffer_id >= 1
            &&& w.used[a.buffer_id] == (a.offset, size as u64)
        }),
{
    law_allocation(v, size, align);
    let b = v.free[first_fit(v.free, 0, size, align)];
    if align >= 1 {
        align::law_aligned_is_least_multiple(b.0 as int, align as int);
    }
}

/// A request is served exactly when some block of the free list has room for it.
pub proof fn law_allocation_succeeds_iff_room(v: ArenaView, size: u32, align: u64)
    requires
        v.inv(),
    ensures
        allocated(v, size, align) is Some <==> exists|i: int|
            0 <= i < v.free.len() && fits(#[trigger] v.free[i], size, align),
{
    lemma_first_fit(v.free, 0, size, align);
}

/// Of an arena of which nothing is in use, every request is served that is no larger
/// than the arena, and it is served from the start.
pub proof fn law_fresh_arena_serves(total: u64, next_id: u32, size: u32, align: u64)
    ensures
        allocated(fresh(total, next_id), size, align) is Some <==> size <= total,
        size <= total ==> (allocated(fresh(total, next_id), size, align)->0).1.offset == 0,
{
    reveal_with_fuel(first_fit, 2);
    let b = fresh(total, next_id).free[0];
    assert(b.0 == 0);
    assert(place(b, align) == 0) by {
        if align > 1 {
            assert(0int % align as int == 0) by (nonlinear_arith)
                requires
                    align > 1,
            ;
        }
    }
}

/// Freeing a block right after it was handed out leaves the same blocks in use and the
/// same bytes free as before.
pub proof fn law_free_undoes_alloc(v: ArenaView, size: u32, align: u64)
    requires
        v.inv(),
        !v.used.contains_key(v.next_id),
        allocated(v, size, align) is Some,
    ensures
        ({
            let (w, a) = allocated(v, size, align)->0;
            let x = released(w, a.buffer_id);
            &&& x.used == v.used
            &&& forall|p: int| covers(x.free, p) <==> covers(v.free, p)
        }),
{
    law_allocation(v, size, align);
    let (w, a) = allocated(v, size, align)->0;
    law_release(w, a.buffer_id);
    assert(released(w, a.buffer_id).used =~= v.used);
}

/// Giving the same block back twice does no more than giving it back once.
pub proof fn law_second_free_is_ignored(v: ArenaView, id: u32)
    ensures
        released(released(v, id), id) == released(v, id),
{
}

proof fn lemma_separated_sum(s: Seq<(u64, u64)>)
    requires
        separated(s),
        s.len() > 0,
    ensures
        sum_lens(s) <= block_end(s.last()) - s[0].0 - (s.len() - 1),
    decreases s.len(),
{
    reveal_with_fuel(sum_lens, 2);
    if s.len() > 1 {
        let rest = s.drop_last();
        assert(separated(rest)) by {
            assert forall|i: int, j: int| 0 <= i < j < rest.len() implies block_end(
                #[trigger] rest[i],
            ) < (#[trigger] rest[j]).0 by {
                assert(s[i] == rest[i] && s[j] == rest[j]);
            }
        }
        lemma_separated_sum(rest);
        assert(block_end(s[s.len() - 2]) < s[s.len() - 1].0);
        assert(rest.last() == s[s.len() - 2]);
    }
}

/// When every block has come back, the arena is one free block again.
pub proof fn law_drained_arena_is_whole(v: ArenaView)
    requires
        v.inv(),
        v.balanced(),
        v.total > 0,
        separated(v.free),
        v.used == Map::<u32, (u64, u64)>::empty(),
    ensures
        v.free == seq![(0u64, v.total)],
{
    assert(v.used.dom() =~= Set::empty());
    assert(sum_lens(v.free) == v.total);
    assert(v.free.len() > 0);
    lemma_separated_sum(v.free);
    assert(v.free.last() == v.free[v.free.len() - 1]);
    assert(v.free =~= seq![(0u64, v.total)]);
}

/// Giving back the last block that is in use makes the arena one free block again.
pub proof fn law_last_free_restores_the_arena(v: ArenaView, id: u32)
    requires
        v.inv(),
        v.balanced(),
        v.total > 0,
        v.used.contains_key(id),
        forall|other: u32| #[trigger] v.used.contains_key(other) ==> other == id,
    ensures
        released(v, id) == fresh(v.total, v.next_id),
{
    law_release(v, id);
    assert(released(v, id).used =~= Map::<u32, (u64, u64)>::empty());
    law_drained_arena_is_whole(released(v, id));
}

/// `size` bytes from `at` on lie within the block, at a multiple of `step`.
pub open spec fn has_place(b: (u64, u64), at: int, size: int, step: int) -> bool {
    b.0 <= at && at % step == 0 && at + size <= b.0 + b.1
}

/// What the place of a request is a multiple of: any number will do where 0 is asked for.
pub open spec fn step_of(align: u64) -> int {
    if align == 0 {
        1
    } else {
        align as int
    }
}

/// A request takes the lowest suitable place of the first block of the free list that has
/// one, under the identifier that was next. Exactly the bytes that were asked for are no
/// longer free, exactly one block more is in use, and identifiers go on by one, with 1 after
/// the last. A request for which no block has a place is refused, and changes nothing.
pub proof fn law_first_place_is_taken(
    a: &mut FreeListAllocator,
    size: u32,
    align: u64,
    r: Option<Allocation>,
)
    requires
        old(a).wf(),
        call_ensures(FreeListAllocator::allocate, (a, size, align), r),
    ensures
        ({
            let v = old(a)@;
            let w = final(a)@;
            let step = step_of(align);
            match r {
                Some(x) => {
                    &&& exists|i: int|
                        0 <= i < v.free.len() && #[trigger] has_place(
                            v.free[i],
                            x.offset as int,
                            size as int,
                            step,
                        ) && (forall|at: int|
                            at < x.offset ==> !#[trigger] has_place(
                                v.free[i],
                                at,
                                size as int,
                                step,
                            )) && (forall|j: int, at: int|
                            0 <= j < i ==> !#[trigger] has_place(
                                v.free[j],
                                at,
                                size as int,
                                step,
                            ))
                    &&& x.len == size
                    &&& x.buffer_id == v.next_id
                    &&& w.used == v.used.insert(x.buffer_id, (x.offset, size as u64))
                    &&& forall|p: int| #[trigger]
                        covers(w.free, p) <==> covers(v.free, p) && !(x.offset <= p < x.offset
                            + size)
                    &&& w.next_id == if v.next_id == u32::MAX {
                        1
                    } else {
                        v.next_id + 1
                    }
                    &&& w.total == v.total
                },
                None => {
                    &&& forall|i: int, at: int|
                        0 <= i < v.free.len() ==> !#[trigger] has_place(
                            v.free[i],
                            at,
                            size as int,
                            step,
                        )
                    &&& w == v
                },
            }
        }),
{
    let v = old(a)@;
    let step = step_of(align);
    law_allocation(v, size, align);
    lemma_first_fit(v.free, 0, size, align);
    assert forall|i: int, at: int|
        0 <= i < v.free.len() && #[trigger] has_place(v.free[i], at, size as int, step) implies fits(
        v.free[i],
        size,
        align,
    ) && place(v.free[i], align) <= at by {
        align::law_aligned_is_least_multiple(v.free[i].0 as int, step);
        assert(at % step == 0);
    }
    if let Some((w, x)) = allocated(v, size, align) {
        let i = first_fit(v.free, 0, size, align);
        align::law_aligned_is_least_multiple(v.free[i].0 as int, step);
        assert(has_place(v.free[i], x.offset as int, size as int, step));
        assert forall|p: int| #[trigger] covers(w.free, p) <==> covers(v.free, p) && !(x.offset <= p
            < x.offset + size) by {
            assert(covers(w.free, p) <==> covers(v.free, p) && !in_block(
                (x.offset, x.len as u64),
                p,
            ));
        }
    }
}

/// Giving a block back tells whether it was in use. Exactly its bytes are free again, it
/// alone is no longer in use, and no two neighbours of the free list touch. What is not in
/// use cannot be given back.
pub proof fn law_free_gives_back_the_block(a: &mut FreeListAllocator, buffer_id: u32, r: bool)
    requires
        old(a).wf(),
        call_ensures(FreeListAllocator::free_by_id, (a, buffer_id), r),
    ensures
        ({
            let v = old(a)@;
            let w = final(a)@;
            &&& r <==> v.used.contains_key(buffer_id)
            &&& w.used == v.used.remove(buffer_id)
            &&& w.next_id == v.next_id && w.total == v.total
            &&& !r ==> w == v
            &&& r ==> ({
                let (start, len) = v.used[buffer_id];
                &&& forall|p: int| #[trigger]
                    covers(w.free, p) <==> covers(v.free, p) || start <= p < start + len
                &&& forall|i: int, j: int|
                    0 <= i < j < w.free.len() ==> (#[trigger] w.free[i]).0 + w.free[i].1 < (
                    #[trigger] w.free[j]).0
            })
        }),
{
    let v = old(a)@;
    law_release(v, buffer_id);
    if v.used.contains_key(buffer_id) {
        let (start, len) = v.used[buffer_id];
        let w = released(v, buffer_id);
        assert forall|p: int| #[trigger] covers(w.free, p) <==> covers(v.free, p) || start <= p
            < start + len by {
            assert(covers(w.free, p) <==> covers(v.free, p) || in_block(v.used[buffer_id], p));
        }
        assert forall|i: int, j: int| 0 <= i < j < w.free.len() implies (#[trigger] w.free[i]).0
            + w.free[i].1 < (#[trigger] w.free[j]).0 by {
            assert(block_end(w.free[i]) < w.free[j].0);
        }
    } else {
        assert(v.used.remove(buffer_id) =~= v.used);
    }
}

/// The bytes in use are none where no block is, and one block more adds its length.
pub proof fn law_used_bytes_add_up(
    a: &FreeListAllocator,
    b: &FreeListAllocator,
    id: u32,
    block: (u64, u64),
    r: u64,
    s: u64,
)
    requires
        a.wf() && b.wf(),
        !a@.used.contains_key(id),
        b@.used == a@.used.insert(id, block),
        call_ensures(FreeListAllocator::used_bytes, (a,), r),
        call_ensures(FreeListAllocator::used_bytes, (b,), s),
    ensures
        a@.used == Map::<u32, (u64, u64)>::empty() ==> r == 0,
        s == r + block.1,
{
    if a@.used == Map::<u32, (u64, u64)>::empty() {
        assert(a@.used.dom() =~= Set::empty());
    }
    lemma_sum_used_insert(a@.used, id, block);
    assert(a@.used.remove(id) =~= a@.used);
}

/// A new arena is one free block from its first byte to its last, and the first identifier
/// is 1. So is one that was reset, but for the identifiers, which go on.
pub proof fn law_empty_arena_is_one_block(
    total_size: u64,
    a: FreeListAllocator,
    b: &mut FreeListAllocator,
)
    requires
        call_ensures(FreeListAllocator::new, (total_size,), a),
        call_ensures(FreeListAllocator::reset, (b,), ()),
    ensures
        a@.free == seq![(0u64, total_size)],
        a@.used == Map::<u32, (u64, u64)>::empty(),
        a@.next_id == 1 && a@.total == total_size,
        final(b)@.free == seq![(0u64, old(b)@.total)],
        final(b)@.used == Map::<u32, (u64, u64)>::empty(),
        final(b)@.next_id == old(b)@.next_id && final(b)@.total == old(b)@.total,
{
}

/// An arena tells the size that it was made with, whatever was taken or given back since.
pub proof fn law_arena_tells_its_size(
    total_size: u64,
    a: FreeListAllocator,
    told: u64,
    b: &mut FreeListAllocator,
    after: u64,
)
    requires
        call_ensures(FreeListAllocator::new, (total_size,), a),
        call_ensures(FreeListAllocator::total, (&a,), told),
        call_ensures(FreeListAllocator::reset, (b,), ()),
        call_ensures(FreeListAllocator::total, (&*final(b),), after),
    ensures
        told == total_size,
        after == old(b)@.total,
{
}

} // verus!
