//! Time and waiting.

use vstd::prelude::*;

verus! {

/// Nanoseconds since the epoch, as they are kept in the header: a clock before the
/// epoch counts as 0, and a count beyond `u64` wraps around.
pub open spec fn clock_nanos(since_epoch: Option<(u64, u32)>) -> u64 {
    match since_epoch {
        Some((secs, nanos)) => ((secs * 1_000_000_000 + nanos) % 0x1_0000_0000_0000_0000) as u64,
        None => 0,
    }
}

/// Turns the seconds and nanoseconds that a clock shows since the epoch, or `None`
/// when it shows a time before that, into the header's nanoseconds.
pub fn now_nanos(since_epoch: Option<(u64, u32)>) -> (r: u64)
    ensures
        r == clock_nanos(since_epoch),
{
    match since_epoch {
        Some((secs, nanos)) => {
            let all: u128 = secs as u128 * 1_000_000_000 + nanos as u128;
            (all % 0x1_0000_0000_0000_0000) as u64
        },
        None => 0,
    }
}

/// How long a poll that found nothing sleeps, in microseconds, after `idle` such polls.
pub open spec fn idle_sleep_us(idle: u32, steady_us: u64) -> u64 {
    if idle <= 7 {
        50
    } else if idle <= 31 {
        200
    } else if idle <= 127 {
        1000
    } else {
        steady_us
    }
}

/// The count of polls in vain after one more.
pub open spec fn idle_after(idle: u32) -> u32 {
    if idle == u32::MAX {
        idle
    } else {
        (idle + 1) as u32
    }
}

/// Counts a poll that found nothing and says how many microseconds to sleep.
pub fn poll_yield_sleep(idle_cycles: &mut u32, steady_us: u64) -> (r: u64)
    ensures
        r == idle_sleep_us(*old(idle_cycles), steady_us),
        *final(idle_cycles) == idle_after(*old(idle_cycles)),
{
    let idle: u32 = *idle_cycles;
    *idle_cycles = idle.saturating_add(1);
    if idle <= 7 {
        50
    } else if idle <= 31 {
        200
    } else if idle <= 127 {
        1000
    } else {
        steady_us
    }
}

/// One turn of a wait: it is over, or it goes on after a sleep.
#[derive(Debug)]
pub enum Turn<T> {
    Done(T),
    /// Sleep for so many microseconds, then take the next turn.
    Sleep(u64),
}

/// A poll that goes on in vain never sleeps less than it did before, as long as the
/// steady sleep is no shorter than the last step up to it.
pub proof fn law_waits_grow(idle: u32, steady_us: u64)
    requires
        steady_us >= 1000,
    ensures
        idle_sleep_us(idle, steady_us) <= idle_sleep_us(idle_after(idle), steady_us) <= steady_us,
{
}

/// The rolling sum over the data: each byte is added to the sum so far times a prime.
pub open spec fn checksum(data: Seq<u8>) -> u32
    decreases data.len(),
{
    if data.len() == 0 {
        0
    } else {
        ((checksum(data.drop_last()) * 16777619 + data.last()) % 0x1_0000_0000) as u32
    }
}

/// The checksum of a payload.
pub fn checksum32(data: &[u8]) -> (r: u32)
    ensures
        r == checksum(data@),
{
    let mut acc: u32 = 0;
    let mut i: usize = 0;
    while i < data.len()
        invariant
            i <= data.len(),
            acc == checksum(data@.take(i as int)),
        decreases data.len() - i,
    {
        proof {
            assert(data@.take(i + 1).drop_last() =~= data@.take(i as int));
            assert(data@.take(i + 1).last() == data@[i as int]);
        }
        acc = ((acc as u64 * 16777619 + data[i] as u64) % 0x1_0000_0000) as u32;
        i += 1;
    }
    assert(data@.take(data@.len() as int) =~= data@);
    acc
}

/// The clock is told in whole nanoseconds: a time in seconds and nanoseconds since the epoch
/// as far as `u64` reaches, and 0 for a time before it.
pub proof fn law_clock_counts_nanoseconds(secs: u64, nanos: u32, r: u64, before: u64)
    requires
        secs * 1_000_000_000 + nanos <= u64::MAX,
        call_ensures(now_nanos, (Some((secs, nanos)),), r),
        call_ensures(now_nanos, (None::<(u64, u32)>,), before),
    ensures
        r == secs * 1_000_000_000 + nanos,
        before == 0,
{
    assert((secs * 1_000_000_000 + nanos) % 0x1_0000_0000_0000_0000 == secs * 1_000_000_000
        + nanos);
}

/// A poll that found nothing sleeps 50 microseconds the first 8 times, 200 up to the 32nd,
/// 1000 up to the 128th and the steady time from then on; each such poll is counted, as far
/// as the count reaches.
pub proof fn law_poll_backs_off(idle_cycles: &mut u32, steady_us: u64, r: u64)
    requires
        call_ensures(poll_yield_sleep, (idle_cycles, steady_us), r),
    ensures
        *old(idle_cycles) < 8 ==> r == 50,
        8 <= *old(idle_cycles) < 32 ==> r == 200,
        32 <= *old(idle_cycles) < 128 ==> r == 1000,
        128 <= *old(idle_cycles) ==> r == steady_us,
        *old(idle_cycles) < u32::MAX ==> *final(idle_cycles) == *old(idle_cycles) + 1,
        *old(idle_cycles) == u32::MAX ==> *final(idle_cycles) == u32::MAX,
{
}

/// The checksum of no bytes is 0, and one byte more multiplies it by 16777619 and adds the
/// byte, in 32 bits.
pub proof fn law_checksum_rolls(data: &[u8], more: &[u8], b: u8, r: u32, s: u32)
    requires
        more@ == data@.push(b),
        call_ensures(checksum32, (data,), r),
        call_ensures(checksum32, (more,), s),
    ensures
        data@.len() == 0 ==> r == 0,
        s == (r * 16777619 + b) % 0x1_0000_0000,
{
    assert(more@.drop_last() =~= data@);
}

} // verus!
