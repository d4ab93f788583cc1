//! Where the relay listens for clients.

use crate::text;
use crate::text::{chars_of, parse_decimal, push_decimal, push_str, rsplit_once, split_once};
use crate::text::{string_of, strip_prefix};
use vstd::prelude::*;

verus! {

/// A place to listen at.
#[derive(Debug)]
#[allow(inconsistent_fields)]
pub enum ListenSpec {
    Tcp { host: String, port: u16 },
    Vsock { cid: u32, port: u32 },
}

/// A place to listen at, as mathematics.
pub enum ListenView {
    Tcp { host: Seq<char>, port: int },
    Vsock { cid: int, port: int },
}

impl ListenSpec {
    /// The place as mathematics.
    pub open spec fn view(&self) -> ListenView {
        match self {
            ListenSpec::Tcp { host, port } => ListenView::Tcp { host: host@, port: *port as int },
            ListenSpec::Vsock { cid, port } => ListenView::Vsock {
                cid: *cid as int,
                port: *port as int,
            },
        }
    }
}

/// A TCP place: a host, which may be left out, and behind the last colon a port.
pub open spec fn tcp_place(rest: Seq<char>) -> Result<ListenView, Seq<char>> {
    let at = text::last_index(rest, ':');
    if at < 0 {
        Err("tcp listen must be tcp://host:port"@)
    } else {
        match text::decimal(rest.skip(at + 1), u16::MAX as int) {
            Some(port) => Ok(
                ListenView::Tcp {
                    host: if at == 0 {
                        "0.0.0.0"@
                    } else {
                        rest.take(at)
                    },
                    port,
                },
            ),
            None => Err("invalid tcp port"@),
        }
    }
}

/// A vsock place: a context and, behind the first colon, a port.
pub open spec fn vsock_place(rest: Seq<char>) -> Result<ListenView, Seq<char>> {
    let at = text::first_index(rest, ':');
    if at == rest.len() {
        Err("vsock listen must be vsock://cid:port"@)
    } else {
        match text::decimal(rest.take(at), u32::MAX as int) {
            Some(cid) => match text::decimal(rest.skip(at + 1), u32::MAX as int) {
                Some(port) => Ok(ListenView::Vsock { cid, port }),
                None => Err("invalid vsock port"@),
            },
            None => Err("invalid vsock cid"@),
        }
    }
}

/// The place that a text names, or what is wrong with it. Not every platform has vsock.
pub open spec fn place(s: Seq<char>, has_vsock: bool) -> Result<ListenView, Seq<char>> {
    if text::starts_with(s, "tcp://"@) {
        tcp_place(s.skip("tcp://"@.len() as int))
    } else if has_vsock && text::starts_with(s, "vsock://"@) {
        vsock_place(s.skip("vsock://"@.len() as int))
    } else {
        Err("listen must be tcp://host:port or vsock://cid:port"@)
    }
}

/// A result says the same as a description.
pub open spec fn is_place(
    r: Result<ListenSpec, &'static str>,
    want: Result<ListenView, Seq<char>>,
) -> bool {
    match r {
        Ok(l) => want == Ok::<ListenView, Seq<char>>(l@),
        Err(words) => want == Err::<ListenView, Seq<char>>(words@),
    }
}

fn parse_tcp(rest: &[char]) -> (r: Result<ListenSpec, &'static str>)
    ensures
        is_place(r, tcp_place(rest@)),
{
    match rsplit_once(rest, ':') {
        Some((host, port)) => match parse_decimal(port.as_slice(), u16::MAX as u64) {
            Some(port) => {
                let host: String = if host.len() == 0 {
                    "0.0.0.0".to_owned()
                } else {
                    string_of(host.as_slice())
                };
                Ok(ListenSpec::Tcp { host, port: port as u16 })
            },
            None => Err("invalid tcp port"),
        },
        None => Err("tcp listen must be tcp://host:port"),
    }
}

fn parse_vsock(rest: &[char]) -> (r: Result<ListenSpec, &'static str>)
    ensures
        is_place(r, vsock_place(rest@)),
{
    match split_once(rest, ':') {
        Some((cid, port)) => match parse_decimal(cid.as_slice(), u32::MAX as u64) {
            Some(cid) => match parse_decimal(port.as_slice(), u32::MAX as u64) {
                Some(port) => Ok(ListenSpec::Vsock { cid: cid as u32, port: port as u32 }),
                None => Err("invalid vsock port"),
            },
            None => Err("invalid vsock cid"),
        },
        None => Err("vsock listen must be vsock://cid:port"),
    }
}

/// Reads the place to listen at. Not every platform has vsock.
pub fn parse_listen(spec: &str, has_vsock: bool) -> (r: Result<ListenSpec, &'static str>)
    ensures
        is_place(r, place(spec@, has_vsock)),
{
    let chars: Vec<char> = chars_of(spec);
    if let Some(rest) = strip_prefix(chars.as_slice(), "tcp://") {
        return parse_tcp(rest.as_slice());
    }
    if has_vsock {
        if let Some(rest) = strip_prefix(chars.as_slice(), "vsock://") {
            return parse_vsock(rest.as_slice());
        }
    }
    Err("listen must be tcp://host:port or vsock://cid:port")
}

/// The address to bind for a TCP place.
pub fn tcp_address(host: &str, port: u16) -> (r: String)
    ensures
        r@ == host@ + ":"@ + text::decimal_text(port as nat),
{
    let mut out: Vec<char> = chars_of(host);
    push_str(&mut out, ":");
    push_decimal(&mut out, port as u64);
    string_of(out.as_slice())
}

/// A vsock client as it is named in the log.
pub fn vsock_peer(cid: u32, port: u32) -> (r: String)
    ensures
        r@ == "vsock:"@ + text::decimal_text(cid as nat) + ":"@ + text::decimal_text(port as nat),
{
    let mut out: Vec<char> = chars_of("vsock:");
    push_decimal(&mut out, cid as u64);
    push_str(&mut out, ":");
    push_decimal(&mut out, port as u64);
    string_of(out.as_slice())
}

/// How many clients may wait to be accepted.
pub const BACKLOG: i32 = 64;

/// What came of a call on the way to a vsock client; failures bring the words of the
/// operating system.
#[derive(Debug)]
pub enum SocketEvent {
    NoSocket(String),
    Made,
    BindFailed(String),
    Bound,
    ListenFailed(String),
    Listening,
    AcceptFailed(String),
    Accepted,
    /// The client was handed on.
    Served,
}

/// The next call on the way to a vsock client.
#[derive(Debug)]
pub enum SocketAction {
    Bind,
    /// Listen with so many clients waiting.
    Listen(i32),
    Accept,
    /// Write the words to the log, then accept again.
    Report(String),
    Serve,
    /// Give up; close the socket first, if so told.
    Fail { close: bool, words: String },
}

impl SocketAction {
    /// Giving up with these words.
    pub open spec fn is_fail(self, closing: bool, reason: Seq<char>) -> bool {
        self matches SocketAction::Fail { close, words } && close == closing && words@ == reason
    }
}

/// What comes after a call: the socket is bound and listened at, and clients are accepted
/// one after the other without end. A client that could not be accepted is only reported;
/// any failure before that closes the socket.
pub fn run_vsock_listener(event: SocketEvent) -> (r: SocketAction)
    ensures
        match event {
            SocketEvent::NoSocket(words) => r.is_fail(false, words@),
            SocketEvent::Made => r is Bind,
            SocketEvent::BindFailed(words) => r.is_fail(true, words@),
            SocketEvent::Bound => r == SocketAction::Listen(BACKLOG),
            SocketEvent::ListenFailed(words) => r.is_fail(true, words@),
            SocketEvent::Listening => r is Accept,
            SocketEvent::AcceptFailed(words) => r matches SocketAction::Report(s) && s@
                == "vsock accept error: "@ + words@,
            SocketEvent::Accepted => r is Serve,
            SocketEvent::Served => r is Accept,
        },
{
    match event {
        SocketEvent::NoSocket(words) => SocketAction::Fail { close: false, words },
        SocketEvent::Made => SocketAction::Bind,
        SocketEvent::BindFailed(words) => SocketAction::Fail { close: true, words },
        SocketEvent::Bound => SocketAction::Listen(BACKLOG),
        SocketEvent::ListenFailed(words) => SocketAction::Fail { close: true, words },
        SocketEvent::Listening => SocketAction::Accept,
        SocketEvent::AcceptFailed(words) => {
            let mut out: Vec<char> = chars_of("vsock accept error: ");
            push_str(&mut out, words.as_str());
            SocketAction::Report(string_of(out.as_slice()))
        },
        SocketEvent::Accepted => SocketAction::Serve,
        SocketEvent::Served => SocketAction::Accept,
    }
}

/// What stands between `tcp://` and the last colon is the host, all addresses where it is
/// empty, and what stands behind that colon must be a port. Without a colon there is none.
pub proof fn law_tcp_place_is_host_and_port(
    spec: &str,
    host: Seq<char>,
    port: &[char],
    has_vsock: bool,
    n: Option<u64>,
    r: Result<ListenSpec, &'static str>,
)
    requires
        !port@.contains(':'),
        call_ensures(parse_decimal, (port, 65535), n),
        call_ensures(parse_listen, (spec, has_vsock), r),
    ensures
        spec@ == "tcp://"@ + host + seq![':'] + port@ ==> match n {
            Some(n) => r matches Ok(ListenSpec::Tcp { host: h, port: p }) && p == n && h@
                == if host.len() == 0 {
                "0.0.0.0"@
            } else {
                host
            },
            None => r matches Err(words) && words@ == "invalid tcp port"@,
        },
        spec@ == "tcp://"@ + port@ ==> (r matches Err(words) && words@
            == "tcp listen must be tcp://host:port"@),
{
    let rest = host + seq![':'] + port@;
    if spec@ == "tcp://"@ + host + seq![':'] + port@ {
        assert(spec@ =~= "tcp://"@ + rest);
        assert(spec@.subrange(0, "tcp://"@.len() as int) =~= "tcp://"@);
        assert(spec@.skip("tcp://"@.len() as int) =~= rest);
        assert forall|k: int| host.len() < k < rest.len() implies rest[k] != ':' by {
            assert(port@.contains(port@[k - host.len() - 1]));
        }
        text::lemma_last_index(rest, ':', host.len() as int);
        assert(rest.skip(host.len() as int + 1) =~= port@);
        assert(rest.take(host.len() as int) =~= host);
    }
    if spec@ == "tcp://"@ + port@ {
        assert(spec@.subrange(0, "tcp://"@.len() as int) =~= "tcp://"@);
        assert(spec@.skip("tcp://"@.len() as int) =~= port@);
        assert forall|k: int| -1 < k < port@.len() implies port@[k] != ':' by {
            assert(port@.contains(port@[k]));
        }
        text::lemma_last_index(port@, ':', -1);
    }
}

/// What stands between `vsock://` and the first colon must be a context, and what stands
/// behind that colon a port, where there is vsock. Without a colon there is no place.
pub proof fn law_vsock_place_is_context_and_port(
    spec: &str,
    cid: &[char],
    port: &[char],
    has_vsock: bool,
    c: Option<u64>,
    n: Option<u64>,
    r: Result<ListenSpec, &'static str>,
)
    requires
        !cid@.contains(':'),
        call_ensures(parse_decimal, (cid, 0xffff_ffff), c),
        call_ensures(parse_decimal, (port, 0xffff_ffff), n),
        call_ensures(parse_listen, (spec, has_vsock), r),
    ensures
        has_vsock && spec@ == "vsock://"@ + cid@ + seq![':'] + port@ ==> match (c, n) {
            (Some(c), Some(n)) => r matches Ok(ListenSpec::Vsock { cid: got, port: p }) && got == c
                && p == n,
            (None, _) => r matches Err(words) && words@ == "invalid vsock cid"@,
            (Some(_), None) => r matches Err(words) && words@ == "invalid vsock port"@,
        },
        has_vsock && spec@ == "vsock://"@ + cid@ ==> (r matches Err(words) && words@
            == "vsock listen must be vsock://cid:port"@),
{
    let rest = cid@ + seq![':'] + port@;
    reveal_strlit("tcp://");
    reveal_strlit("vsock://");
    assert("tcp://"@[0] == 't' && "vsock://"@[0] == 'v');
    if spec@ == "vsock://"@ + cid@ + seq![':'] + port@ {
        assert(spec@ =~= "vsock://"@ + rest);
        assert(spec@.subrange(0, 8) =~= "vsock://"@);
        assert(spec@.subrange(0, 6)[0] == 'v');
        assert(spec@.skip(8) =~= rest);
        assert forall|k: int| 0 <= k < cid@.len() implies rest[k] != ':' by {
            assert(cid@.contains(cid@[k]));
        }
        text::lemma_first_index(rest, ':', cid@.len() as int);
        assert(rest.take(cid@.len() as int) =~= cid@);
        assert(rest.skip(cid@.len() as int + 1) =~= port@);
    }
    if spec@ == "vsock://"@ + cid@ {
        assert(spec@.subrange(0, 8) =~= "vsock://"@);
        assert(spec@.subrange(0, 6)[0] == 'v');
        assert(spec@.skip(8) =~= cid@);
        assert forall|k: int| 0 <= k < cid@.len() implies cid@[k] != ':' by {
            assert(cid@.contains(cid@[k]));
        }
        text::lemma_first_index(cid@, ':', cid@.len() as int);
    }
}

/// Nothing else is a place: it must begin with `tcp://`, or with `vsock://` where there is
/// vsock.
pub proof fn law_other_schemes_are_no_place(
    spec: &str,
    has_vsock: bool,
    r: Result<ListenSpec, &'static str>,
)
    requires
        call_ensures(parse_listen, (spec, has_vsock), r),
        !("tcp://"@.is_prefix_of(spec@)),
        has_vsock ==> !("vsock://"@.is_prefix_of(spec@)),
    ensures
        r matches Err(words) && words@ == "listen must be tcp://host:port or vsock://cid:port"@,
{
}

/// An address to bind, behind `tcp://`, is read back as the host and the port that it was
/// made from.
pub proof fn law_tcp_address_is_read_back(
    host: &str,
    port: u16,
    address: String,
    spec: &str,
    has_vsock: bool,
    r: Result<ListenSpec, &'static str>,
)
    requires
        host@.len() > 0,
        call_ensures(tcp_address, (host, port), address),
        spec@ == "tcp://"@ + address@,
        call_ensures(parse_listen, (spec, has_vsock), r),
    ensures
        r matches Ok(ListenSpec::Tcp { host: h, port: p }) && h@ == host@ && p == port,
{
    reveal_strlit(":");
    let digits = text::decimal_text(port as nat);
    let rest = host@ + ":"@ + digits;
    assert(spec@.subrange(0, "tcp://"@.len() as int) =~= "tcp://"@);
    assert(spec@.skip("tcp://"@.len() as int) =~= rest);
    lemma_no_colon(port as nat);
    assert forall|k: int| host@.len() < k < rest.len() implies rest[k] != ':' by {
        assert(digits[k - host@.len() - 1] != ':');
    }
    text::lemma_last_index(rest, ':', host@.len() as int);
    assert(rest.skip(host@.len() as int + 1) =~= digits);
    assert(rest.take(host@.len() as int) =~= host@);
    text::law_decimal_survives(port as nat, u16::MAX as int);
}

proof fn lemma_no_colon(n: nat)
    ensures
        forall|k: int|
            0 <= k < text::decimal_text(n).len() ==> #[trigger] text::decimal_text(n)[k] != ':',
    decreases n,
{
    let t = text::decimal_text(n);
    if n >= 10 {
        lemma_no_colon(n / 10);
    }
    assert forall|k: int| 0 <= k < t.len() implies #[trigger] t[k] != ':' by {
        if k < t.len() - 1 {
            assert(t[k] == text::decimal_text(n / 10)[k]);
        } else {
            assert(t[k] == text::digit_char((n % 10) as int));
        }
    }
}

/// A client is named `vsock:` and then by its context and port, which, behind `vsock://`, are
/// read back as they are.
pub proof fn law_vsock_peer_is_read_back(
    cid: u32,
    port: u32,
    peer: String,
    spec: &str,
    r: Result<ListenSpec, &'static str>,
)
    requires
        call_ensures(vsock_peer, (cid, port), peer),
        spec@ == "vsock://"@ + peer@.skip(6),
        call_ensures(parse_listen, (spec, true), r),
    ensures
        "vsock:"@.is_prefix_of(peer@),
        r matches Ok(ListenSpec::Vsock { cid: c, port: p }) && c == cid && p == port,
{
    reveal_strlit("vsock:");
    reveal_strlit("vsock://");
    reveal_strlit("tcp://");
    reveal_strlit(":");
    assert("tcp://"@[0] == 't' && "vsock://"@[0] == 'v');
    let a = text::decimal_text(cid as nat);
    let b = text::decimal_text(port as nat);
    let rest = a + ":"@ + b;
    assert(peer@.skip(6) =~= rest);
    assert(peer@.subrange(0, 6) =~= "vsock:"@);
    assert(spec@.subrange(0, 8) =~= "vsock://"@);
    assert(spec@.subrange(0, 6)[0] == 'v');
    assert(spec@.skip(8) =~= rest);
    lemma_no_colon(cid as nat);
    assert forall|k: int| 0 <= k < a.len() implies rest[k] != ':' by {
        assert(a[k] != ':');
    }
    text::lemma_first_index(rest, ':', a.len() as int);
    assert(rest.take(a.len() as int) =~= a);
    assert(rest.skip(a.len() as int + 1) =~= b);
    text::law_decimal_survives(cid as nat, u32::MAX as int);
    text::law_decimal_survives(port as nat, u32::MAX as int);
}

/// The way to a vsock client goes on from each call that succeeded to the next, and never
/// ends once the socket is listened at: a client is accepted and served, one that could not
/// be is reported, and another is accepted. Only a failure before that ends it, with the words
/// of the operating system, and closes the socket where there is one.
pub proof fn law_listening_goes_on(event: SocketEvent, r: SocketAction)
    requires
        call_ensures(run_vsock_listener, (event,), r),
    ensures
        r is Fail <==> event is NoSocket || event is BindFailed || event is ListenFailed,
        r matches SocketAction::Fail { close, words } ==> close == !(event is NoSocket) && (event
            matches SocketEvent::NoSocket(w) ==> words@ == w@) && (event
            matches SocketEvent::BindFailed(w) ==> words@ == w@) && (event
            matches SocketEvent::ListenFailed(w) ==> words@ == w@),
        event is Made ==> r is Bind,
        event is Bound ==> r == SocketAction::Listen(64),
        event is Listening || event is Served ==> r is Accept,
        event is Accepted ==> r is Serve,
        event matches SocketEvent::AcceptFailed(w) ==> (r matches SocketAction::Report(words)
            && words@ == "vsock accept error: "@ + w@),
{
}

} // verus!
