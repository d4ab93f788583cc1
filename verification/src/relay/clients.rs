//! What the relay does as clients come and go.

use vstd::prelude::*;

verus! {

/// How many clients are connected.
#[derive(Debug)]
pub struct ClientCount {
    count: usize,
}

impl ClientCount {
    /// The number of clients.
    pub closed spec fn view(&self) -> usize {
        self.count
    }

    /// No client is connected.
    pub fn new() -> (r: ClientCount)
        ensures
            r@ == 0,
    {
        ClientCount { count: 0 }
    }

    /// How many clients there are.
    pub fn count(&self) -> (r: usize)
        ensures
            r == self@,
    {
        self.count
    }

    /// Counts a client that came, and tells how many there are.
    pub fn connected(&mut self) -> (r: usize)
        requires
            old(self)@ < usize::MAX,
        ensures
            final(self)@ == old(self)@ + 1,
            r == final(self)@,
    {
        self.count = self.count + 1;
        self.count
    }

    /// Counts a client that went, and tells how many there are.
    pub fn disconnected(&mut self) -> (r: usize)
        requires
            old(self)@ > 0,
        ensures
            final(self)@ == old(self)@ - 1,
            r == final(self)@,
    {
        self.count = self.count - 1;
        self.count
    }
}

/// A step of the relay.
#[derive(Debug, Clone, Copy, PartialEq, Eq, Structural)]
pub enum RelayAction {
    PlayInput,
    StopInput,
    PlaySplash,
    StopSplash,
    /// Let the input's next frame set the media type anew.
    ForgetInputCaps,
    /// Let the splash's next frame set the media type anew.
    ForgetSplashCaps,
    /// Take the media type off the relay's own source.
    ClearCaps,
    /// Throw away what the relay's own source has queued.
    Flush,
}

/// The steps for so many clients, with or without a splash pipeline.
pub open spec fn steps(count: usize, has_splash: bool) -> Seq<RelayAction> {
    if count > 0 && has_splash {
        seq![
            RelayAction::StopSplash,
            RelayAction::ForgetSplashCaps,
            RelayAction::ClearCaps,
            RelayAction::Flush,
            RelayAction::PlayInput,
            RelayAction::StopSplash,
        ]
    } else if count > 0 {
        seq![RelayAction::ClearCaps, RelayAction::Flush, RelayAction::PlayInput]
    } else if has_splash {
        seq![
            RelayAction::StopInput,
            RelayAction::ForgetInputCaps,
            RelayAction::ClearCaps,
            RelayAction::Flush,
            RelayAction::PlaySplash,
        ]
    } else {
        seq![
            RelayAction::StopInput,
            RelayAction::ForgetInputCaps,
            RelayAction::ClearCaps,
            RelayAction::Flush,
        ]
    }
}

/// The steps to take when the number of clients has changed.
pub fn notify_client_count(count: usize, has_splash: bool) -> (r: Vec<RelayAction>)
    ensures
        r@ == steps(count, has_splash),
{
    let mut todo: Vec<RelayAction> = Vec::new();
    if count > 0 {
        if has_splash {
            todo.push(RelayAction::StopSplash);
            todo.push(RelayAction::ForgetSplashCaps);
        }
        todo.push(RelayAction::ClearCaps);
        todo.push(RelayAction::Flush);
        todo.push(RelayAction::PlayInput);
        if has_splash {
            todo.push(RelayAction::StopSplash);
        }
    } else {
        todo.push(RelayAction::StopInput);
        todo.push(RelayAction::ForgetInputCaps);
        todo.push(RelayAction::ClearCaps);
        todo.push(RelayAction::Flush);
        if has_splash {
            todo.push(RelayAction::PlaySplash);
        }
    }
    assert(todo@ =~= steps(count, has_splash));
    todo
}

/// Which pipelines play.
pub struct Playing {
    pub input: bool,
    pub splash: bool,
}

/// Which pipelines play after one step.
pub open spec fn after_step(p: Playing, action: RelayAction) -> Playing {
    match action {
        RelayAction::PlayInput => Playing { input: true, ..p },
        RelayAction::StopInput => Playing { input: false, ..p },
        RelayAction::PlaySplash => Playing { splash: true, ..p },
        RelayAction::StopSplash => Playing { splash: false, ..p },
        _ => p,
    }
}

/// Which pipelines play after some steps.
pub open spec fn after_steps(before: Playing, todo: Seq<RelayAction>) -> Playing
    decreases todo.len(),
{
    if todo.len() == 0 {
        before
    } else {
        after_step(after_steps(before, todo.drop_last()), todo.last())
    }
}

/// Whatever played before, the input plays exactly while clients are connected, and the
/// splash, if there is one, exactly while none is.
pub proof fn law_input_plays_for_clients(before: Playing, count: usize, has_splash: bool)
    requires
        !has_splash ==> !before.splash,
    ensures
        after_steps(before, steps(count, has_splash)) == (Playing {
            input: count > 0,
            splash: has_splash && count == 0,
        }),
{
    let s = steps(count, has_splash);
    lemma_one_step(before, s, 0);
    lemma_one_step(before, s, 1);
    lemma_one_step(before, s, 2);
    if s.len() > 3 {
        lemma_one_step(before, s, 3);
    }
    if s.len() > 4 {
        lemma_one_step(before, s, 4);
    }
    if s.len() > 5 {
        lemma_one_step(before, s, 5);
    }
    assert(s.take(s.len() as int) =~= s);
}

proof fn lemma_one_step(before: Playing, todo: Seq<RelayAction>, i: int)
    requires
        0 <= i < todo.len(),
    ensures
        after_steps(before, todo.take(0)) == before,
        after_steps(before, todo.take(i + 1)) == after_step(
            after_steps(before, todo.take(i)),
            todo[i],
        ),
{
    assert(todo.take(i + 1).drop_last() =~= todo.take(i));
}

/// Whether a pipeline has given the relay's own source its media type.
#[derive(Debug)]
pub struct CapsLatch {
    set: bool,
}

impl CapsLatch {
    /// The media type was given.
    pub closed spec fn view(&self) -> bool {
        self.set
    }

    /// The media type has yet to be given.
    pub fn new() -> (r: CapsLatch)
        ensures
            !r@,
    {
        CapsLatch { set: false }
    }

    /// Whether the media type of a frame is to be given: the first that there is.
    pub fn take_caps(&mut self, has_caps: bool) -> (r: bool)
        ensures
            r == (!old(self)@ && has_caps),
            final(self)@ == (old(self)@ || has_caps),
    {
        if !self.set && has_caps {
            self.set = true;
            return true;
        }
        false
    }

    /// Lets the next frame give its media type again.
    pub fn forget(&mut self)
        ensures
            !final(self)@,
    {
        self.set = false;
    }
}

/// A client that came and went again leaves as many as there were, and each change is told
/// with the number that it leads to.
pub proof fn law_clients_are_counted(c: &mut ClientCount, came: usize, d: &mut ClientCount, left: usize)
    requires
        call_ensures(ClientCount::connected, (c,), came),
        *old(d) == *final(c),
        call_ensures(ClientCount::disconnected, (d,), left),
    ensures
        came == old(c)@ + 1,
        final(c)@ == came,
        left == old(c)@,
        final(d)@ == left,
{
}

/// What is not to play is stopped, and its media type forgotten, before the media type is
/// taken off the relay's source and what that has queued is thrown away, and only behind that
/// something plays: the input while there are clients, else the splash where there is one.
pub proof fn law_source_is_cleared_between(count: usize, has_splash: bool, r: Vec<RelayAction>, k: int)
    requires
        call_ensures(notify_client_count, (count, has_splash), r),
    ensures
        ({
            let i = if count > 0 && !has_splash {
                0int
            } else {
                2
            };
            let stop = if count > 0 {
                RelayAction::StopSplash
            } else {
                RelayAction::StopInput
            };
            let forget = if count > 0 {
                RelayAction::ForgetSplashCaps
            } else {
                RelayAction::ForgetInputCaps
            };
            let play = if count > 0 {
                RelayAction::PlayInput
            } else {
                RelayAction::PlaySplash
            };
            &&& i == 2 ==> r@[0] == stop && r@[1] == forget
            &&& r@[i] == RelayAction::ClearCaps
            &&& r@[i + 1] == RelayAction::Flush
            &&& count > 0 || has_splash ==> r@[i + 2] == play
            &&& r@.len() == i + 2 + if count > 0 && has_splash {
                2int
            } else if count > 0 || has_splash {
                1
            } else {
                0
            }
            &&& 0 <= k < r@.len() && r@[k] == play ==> k == i + 2
            &&& i + 2 < k < r@.len() ==> r@[k] == stop
        }),
{
}

/// The steps lead, from whatever played before, to the input alone while there are clients,
/// and else to the splash alone, where there is one.
pub proof fn law_steps_lead_to_what_is_to_play(
    before: Playing,
    count: usize,
    has_splash: bool,
    r: Vec<RelayAction>,
)
    requires
        !has_splash ==> !before.splash,
        call_ensures(notify_client_count, (count, has_splash), r),
    ensures
        after_steps(before, r@).input == (count > 0),
        after_steps(before, r@).splash == (has_splash && count == 0),
{
    law_input_plays_for_clients(before, count, has_splash);
}

/// Of the frames that follow one another, only the first that has a media type gives it; once
/// that is forgotten, the next does again.
pub proof fn law_first_media_type_is_given(
    l: &mut CapsLatch,
    has_caps: bool,
    given: bool,
    m: &mut CapsLatch,
    more: bool,
    again: bool,
    f: &mut CapsLatch,
    n: &mut CapsLatch,
    anew: bool,
)
    requires
        call_ensures(CapsLatch::take_caps, (l, has_caps), given),
        *old(m) == *final(l),
        call_ensures(CapsLatch::take_caps, (m, more), again),
        call_ensures(CapsLatch::forget, (f,), ()),
        *old(n) == *final(f),
        call_ensures(CapsLatch::take_caps, (n, has_caps), anew),
    ensures
        given <==> has_caps && !old(l)@,
        !has_caps ==> final(l)@ == old(l)@,
        has_caps ==> !again,
        !has_caps ==> (again <==> more && !old(l)@),
        anew <==> has_caps,
{
}

/// At first there is no client, and no media type was given.
pub proof fn law_relay_begins_without_clients(c: ClientCount, n: usize, l: CapsLatch)
    requires
        call_ensures(ClientCount::new, (), c),
        call_ensures(ClientCount::count, (&c,), n),
        call_ensures(CapsLatch::new, (), l),
    ensures
        n == 0,
        !l@,
{
}

} // verus!
