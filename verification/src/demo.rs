//! The two programs that try the transport out: a producer of numbered frames and a
//! consumer that takes as many.

use crate::text;
use crate::text::{chars_of, parse_decimal, push_decimal, push_str, string_of};
use vstd::prelude::*;

verus! {

/// Where the region is, and how many frames to send or take.
#[derive(Debug)]
pub struct DemoArgs {
    pub path: String,
    pub count: u64,
}

/// The number of frames that an argument asks for; 5000 where it is missing or no number.
pub open spec fn frames_asked(args: Seq<String>) -> int {
    if args.len() < 2 {
        5000
    } else {
        match text::decimal(args[1]@, usize::MAX as int) {
            Some(n) => n,
            None => 5000,
        }
    }
}

/// Reads the arguments behind the program's name: a path and a number of frames, both of
/// which can be left out.
pub fn demo_args(args: &Vec<String>) -> (r: DemoArgs)
    ensures
        r.path@ == if args@.len() == 0 {
            "/dev/shm/gst-shm2-demo"@
        } else {
            args@[0]@
        },
        r.count == frames_asked(args@),
{
    let path: String = if args.len() == 0 {
        "/dev/shm/gst-shm2-demo".to_owned()
    } else {
        args[0].clone()
    };
    let mut count: u64 = 5000;
    if args.len() >= 2 {
        let chars: Vec<char> = chars_of(args[1].as_str());
        if let Some(n) = parse_decimal(chars.as_slice(), usize::MAX as u64) {
            count = n;
        }
    }
    DemoArgs { path, count }
}

/// The text that the producer sends as its `i`-th frame.
pub fn frame_text(i: u64) -> (r: String)
    ensures
        r@ == "frame="@ + text::decimal_text(i as nat) + ";hello=shm-only;transport=gst-shm2"@,
{
    let mut out: Vec<char> = chars_of("frame=");
    push_decimal(&mut out, i);
    push_str(&mut out, ";hello=shm-only;transport=gst-shm2");
    string_of(out.as_slice())
}

/// The time stamp of the producer's `i`-th frame: one millisecond apart.
pub fn frame_pts_ns(i: u64) -> (r: i64)
    requires
        i * 1_000_000 <= i64::MAX,
    ensures
        r == i * 1_000_000,
{
    i as i64 * 1_000_000
}

/// The first argument is the path, and the second the number of frames where it is a number;
/// what is missing or is none is as if left out.
pub proof fn law_arguments_are_path_and_count(
    args: &Vec<String>,
    count: &[char],
    n: Option<u64>,
    r: DemoArgs,
)
    requires
        args@.len() >= 2 ==> count@ == args@[1]@,
        call_ensures(parse_decimal, (count, usize::MAX as u64), n),
        call_ensures(demo_args, (args,), r),
    ensures
        args@.len() >= 1 ==> r.path@ == args@[0]@,
        args@.len() == 0 ==> r.path@ == "/dev/shm/gst-shm2-demo"@,
        args@.len() < 2 || n is None ==> r.count == 5000,
        args@.len() >= 2 && n is Some ==> r.count == n->0,
{
}

/// Frames are numbered in their texts: between what begins and what ends the text stands the
/// frame's number, and no two frames have the same text.
pub proof fn law_frame_is_numbered(i: u64, j: u64, r: String, q: String)
    requires
        call_ensures(frame_text, (i,), r),
        call_ensures(frame_text, (j,), q),
    ensures
        ({
            let number = r@.subrange(6, r@.len() - 34);
            &&& r@ == "frame="@ + number + ";hello=shm-only;transport=gst-shm2"@
            &&& text::decimal(number, u64::MAX as int) == Some(i as int)
        }),
        i != j ==> r@ != q@,
{
    reveal_strlit("frame=");
    reveal_strlit(";hello=shm-only;transport=gst-shm2");
    assert("frame="@.len() == 6 && ";hello=shm-only;transport=gst-shm2"@.len() == 34);
    assert(r@.subrange(6, r@.len() - 34) =~= text::decimal_text(i as nat));
    assert(q@.subrange(6, q@.len() - 34) =~= text::decimal_text(j as nat));
    text::law_decimal_survives(i as nat, u64::MAX as int);
    text::law_decimal_survives(j as nat, u64::MAX as int);
}

/// The first frame's time stamp is zero, and each is a millisecond behind the one before.
pub proof fn law_frames_are_a_millisecond_apart(i: u64, j: u64, r: i64, q: i64)
    requires
        j == i + 1,
        call_ensures(frame_pts_ns, (i,), r),
        call_ensures(frame_pts_ns, (j,), q),
    ensures
        i == 0 ==> r == 0,
        q == r + 1_000_000,
{
}

} // verus!
