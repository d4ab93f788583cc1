//! A ring of entries between two positions that only grow: entries are put in at the
//! head and taken out at the tail, and position `p` lives in slot `p % capacity`.

use crate::transport::desc;
use vstd::prelude::*;

verus! {

/// The bytes are those of a ring of `cap` entries.
pub open spec fn is_ring(ring: Seq<u8>, cap: u32) -> bool {
    cap > 0 && ring.len() == cap * desc::ENTRY_BYTES
}

/// How far the head is ahead of the tail, counted around the end of `u64`.
pub open spec fn distance(head: u64, tail: u64) -> int {
    if head >= tail {
        head - tail
    } else {
        head - tail + 0x1_0000_0000_0000_0000
    }
}

/// The slot of a position.
pub open spec fn slot(pos: int, cap: u32) -> int {
    pos % (cap as int)
}

/// The entries between the tail and the head, the oldest first.
pub open spec fn queue(ring: Seq<u8>, head: u64, tail: u64, cap: u32) -> Seq<Seq<u8>> {
    Seq::new((head - tail) as nat, |k: int| desc::entry(ring, slot(tail + k, cap)))
}

/// The slot of a position.
pub fn slot_of(pos: u64, cap: u32) -> (r: usize)
    requires
        cap > 0,
    ensures
        r == slot(pos as int, cap),
        r < cap,
{
    (pos % cap as u64) as usize
}

/// How far the head is ahead of the tail.
pub fn ahead(head: u64, tail: u64) -> (r: u64)
    ensures
        r == distance(head, tail),
{
    head.wrapping_sub(tail)
}

/// The slot's bytes lie within the ring.
pub proof fn lemma_slot_in_ring(ring: Seq<u8>, pos: int, cap: u32)
    requires
        is_ring(ring, cap),
        0 <= pos,
    ensures
        0 <= slot(pos, cap) < cap,
        desc::ENTRY_BYTES * slot(pos, cap) + desc::ENTRY_BYTES <= ring.len(),
{
    assert(0 <= pos % (cap as int) < cap) by (nonlinear_arith)
        requires
            cap > 0,
    ;
    assert(64 * slot(pos, cap) + 64 <= 64 * cap);
}

proof fn lemma_slots_differ(a: int, b: int, cap: u32)
    requires
        0 <= a < b,
        b - a < cap,
    ensures
        slot(a, cap) != slot(b, cap),
{
    let n = cap as int;
    vstd::arithmetic::div_mod::lemma_fundamental_div_mod(a, n);
    vstd::arithmetic::div_mod::lemma_fundamental_div_mod(b, n);
    if a % n == b % n {
        let p = a / n;
        let q = b / n;
        assert(b - a == n * (q - p)) by (nonlinear_arith)
            requires
                a == n * p + a % n,
                b == n * q + b % n,
                a % n == b % n,
        ;
        assert(false) by (nonlinear_arith)
            requires
                b - a == n * (q - p),
                0 < b - a < n,
        ;
    }
}

/// Putting an entry in at the head, while the ring is not full, puts it behind the
/// entries that wait, and changes none of them.
pub proof fn law_put_appends(ring: Seq<u8>, head: u64, tail: u64, cap: u32, e: Seq<u8>)
    requires
        is_ring(ring, cap),
        tail <= head < u64::MAX,
        head - tail < cap,
        e.len() == desc::ENTRY_BYTES,
    ensures
        is_ring(desc::with_entry(ring, slot(head as int, cap), e), cap),
        queue(
            desc::with_entry(ring, slot(head as int, cap), e),
            (head + 1) as u64,
            tail,
            cap,
        ) == queue(ring, head, tail, cap).push(e),
{
    let at = slot(head as int, cap);
    let after = desc::with_entry(ring, at, e);
    lemma_slot_in_ring(ring, head as int, cap);
    desc::law_entries_are_independent(ring, at, e, at);
    assert forall|k: int| 0 <= k <= head - tail implies #[trigger] desc::entry(
        after,
        slot(tail + k, cap),
    ) == queue(ring, head, tail, cap).push(e)[k] by {
        lemma_slot_in_ring(ring, tail + k, cap);
        desc::law_entries_are_independent(ring, at, e, slot(tail + k, cap));
        if k < head - tail {
            lemma_slots_differ(tail + k, head as int, cap);
        }
    }
    assert(queue(after, (head + 1) as u64, tail, cap) =~= queue(ring, head, tail, cap).push(e));
}

/// Taking an entry out at the tail takes the oldest one and leaves the others.
pub proof fn law_take_removes_oldest(ring: Seq<u8>, head: u64, tail: u64, cap: u32)
    requires
        is_ring(ring, cap),
        tail < head,
    ensures
        queue(ring, head, tail, cap)[0] == desc::entry(ring, slot(tail as int, cap)),
        queue(ring, head, (tail + 1) as u64, cap) == queue(ring, head, tail, cap).drop_first(),
{
    let before = queue(ring, head, tail, cap);
    let after = queue(ring, head, (tail + 1) as u64, cap);
    assert forall|k: int| 0 <= k < after.len() implies #[trigger] after[k] == before.drop_first()[k] by {
        assert(tail + 1 + k == tail + (k + 1));
    }
    assert(after =~= before.drop_first());
}

/// Positions that follow one another have slots that follow one another, and the first slot
/// comes again after the last.
pub proof fn law_slots_go_round(pos: u64, cap: u32, at: usize, next: usize)
    requires
        cap > 0,
        pos < u64::MAX,
        call_ensures(slot_of, (pos, cap), at),
        call_ensures(slot_of, ((pos + 1) as u64, cap), next),
    ensures
        pos < cap ==> at == pos,
        at < cap,
        next == if at + 1 == cap {
            0
        } else {
            at + 1
        },
{
    let n = cap as int;
    let p = pos as int;
    vstd::arithmetic::div_mod::lemma_fundamental_div_mod(p, n);
    let q = p / n;
    let m = p % n;
    if m + 1 < n {
        assert(p + 1 == q * n + (m + 1)) by (nonlinear_arith)
            requires
                p == n * q + m,
        ;
        vstd::arithmetic::div_mod::lemma_fundamental_div_mod_converse(p + 1, n, q, m + 1);
    } else {
        assert(p + 1 == (q + 1) * n + 0) by (nonlinear_arith)
            requires
                p == n * q + m,
                m + 1 == n,
        ;
        vstd::arithmetic::div_mod::lemma_fundamental_div_mod_converse(p + 1, n, q + 1, 0);
    }
    if p < n {
        vstd::arithmetic::div_mod::lemma_small_mod(p as nat, n as nat);
    }
}

/// The distance from the tail leads back to the head, around the end of `u64` where need be.
pub proof fn law_distance_leads_to_the_head(head: u64, tail: u64, r: u64)
    requires
        call_ensures(ahead, (head, tail), r),
    ensures
        tail + r == head || tail + r == head + 0x1_0000_0000_0000_0000,
        tail <= head ==> r == head - tail,
{
}

} // verus!
