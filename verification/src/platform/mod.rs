//! The shared memory of the operating system, as far as it is decided here: errors,
//! the choice of a backend by name, and what each backend checks.

pub mod posix_file;
pub mod windows_ivshmem;
pub mod windows_named;

use crate::text;
use crate::text::{chars_of, find_char, find_text, push_str, string_of, strip_prefix};
use vstd::prelude::*;

verus! {

/// What can go wrong with a shared region.
#[derive(Debug)]
pub enum ShmError {
    /// The operating system refused; its words.
    Io(String),
    InvalidConfig(&'static str),
    Protocol(&'static str),
    InvalidBackendSpec(String),
    UnsupportedBackend(&'static str),
    Exhausted,
    RingFull,
    RingEmpty,
    NoConsumer,
}

impl ShmError {
    /// The error's words.
    pub open spec fn words(self) -> Seq<char> {
        match self {
            ShmError::Io(e) => "io error: "@ + e@,
            ShmError::InvalidConfig(s) => "invalid config: "@ + s@,
            ShmError::Protocol(s) => "protocol error: "@ + s@,
            ShmError::InvalidBackendSpec(s) => "invalid backend spec: "@ + s@,
            ShmError::UnsupportedBackend(s) => "unsupported backend: "@ + s@,
            ShmError::Exhausted => "allocator exhausted"@,
            ShmError::RingFull => "ring full"@,
            ShmError::RingEmpty => "ring empty"@,
            ShmError::NoConsumer => "no consumer connected"@,
        }
    }

    /// The error in words, for a log or a user.
    pub fn message(&self) -> (r: String)
        ensures
            r@ == self.words(),
    {
        match self {
            ShmError::Io(e) => labelled("io error: ", e.as_str()),
            ShmError::InvalidConfig(s) => labelled("invalid config: ", s),
            ShmError::Protocol(s) => labelled("protocol error: ", s),
            ShmError::InvalidBackendSpec(s) => labelled("invalid backend spec: ", s.as_str()),
            ShmError::UnsupportedBackend(s) => labelled("unsupported backend: ", s),
            ShmError::Exhausted => "allocator exhausted".to_owned(),
            ShmError::RingFull => "ring full".to_owned(),
            ShmError::RingEmpty => "ring empty".to_owned(),
            ShmError::NoConsumer => "no consumer connected".to_owned(),
        }
    }

    /// The error is an `InvalidConfig` with these words.
    pub open spec fn is_config(self, words: Seq<char>) -> bool {
        self matches ShmError::InvalidConfig(s) && s@ == words
    }

    /// The error is a `Protocol` with these words.
    pub open spec fn is_protocol(self, words: Seq<char>) -> bool {
        self matches ShmError::Protocol(s) && s@ == words
    }
}

fn labelled(label: &str, rest: &str) -> (r: String)
    ensures
        r@ == label@ + rest@,
{
    let mut out: Vec<char> = chars_of(label);
    push_str(&mut out, rest);
    string_of(out.as_slice())
}

/// The kinds of shared memory that a name can ask for.
#[derive(Debug, Clone, Copy, PartialEq, Eq, Structural)]
pub enum BackendKind {
    /// A file that is mapped, such as one under `/dev/shm`.
    PosixFile,
    /// A named mapping object of Windows.
    WindowsNamed,
    /// The memory of an ivshmem device, seen from a Windows guest.
    WindowsIvshmem,
}

/// The backend that a name asks for, and the name that it is to be given.
#[derive(Debug)]
pub struct SelectedBackend {
    pub kind: BackendKind,
    pub name: String,
}

/// The name begins with a scheme: some text without a slash, then `://`.
pub open spec fn has_scheme(s: Seq<char>) -> bool {
    exists|i: int| #[trigger]
        text::occurs_at(s, "://"@, i) && forall|k: int| 0 <= k < i ==> s[k] != '/'
}

/// The name of a Windows object: the namespace is set off by a backslash.
pub open spec fn object_name(s: Seq<char>) -> Seq<char> {
    if text::starts_with(s, "Local/"@) {
        "Local\\"@ + s.skip(6)
    } else if text::starts_with(s, "Global/"@) {
        "Global\\"@ + s.skip(7)
    } else {
        s
    }
}

/// Which backend the path selects, with which name; `None` for an unknown scheme.
pub open spec fn selected(path: Seq<char>) -> Option<(BackendKind, Seq<char>)> {
    if text::starts_with(path, "shm://"@) {
        Some((BackendKind::PosixFile, path.skip(6)))
    } else if text::starts_with(path, "winshm://"@) {
        Some((BackendKind::WindowsNamed, object_name(path.skip(9))))
    } else if text::starts_with(path, "ivshmem://"@) {
        Some((BackendKind::WindowsIvshmem, path.skip(10)))
    } else if has_scheme(path) {
        None
    } else {
        Some((BackendKind::PosixFile, path))
    }
}

fn windows_object_name(s: &[char]) -> (r: String)
    ensures
        r@ == object_name(s@),
{
    proof {
        reveal_strlit("Local/");
        reveal_strlit("Global/");
    }
    if let Some(rest) = strip_prefix(s, "Local/") {
        let mut out: Vec<char> = chars_of("Local\\");
        text::push_all(&mut out, rest.as_slice());
        string_of(out.as_slice())
    } else if let Some(rest) = strip_prefix(s, "Global/") {
        let mut out: Vec<char> = chars_of("Global\\");
        text::push_all(&mut out, rest.as_slice());
        string_of(out.as_slice())
    } else {
        string_of(s)
    }
}

/// Chooses the backend for a path such as `shm:///dev/shm/x`, `winshm://Local/x`,
/// `ivshmem://PCI\...` or a plain file path.
pub fn resolve_backend(path: &str) -> (r: Result<SelectedBackend, ShmError>)
    ensures
        match r {
            Ok(b) => selected(path@) == Some((b.kind, b.name@)),
            Err(e) => selected(path@) is None && (e matches ShmError::InvalidBackendSpec(s) && s@
                == path@),
        },
{
    proof {
        reveal_strlit("shm://");
        reveal_strlit("winshm://");
        reveal_strlit("ivshmem://");
        reveal_strlit("://");
    }
    let chars: Vec<char> = chars_of(path);
    let s: &[char] = chars.as_slice();
    if let Some(rest) = strip_prefix(s, "shm://") {
        return Ok(
            SelectedBackend { kind: BackendKind::PosixFile, name: string_of(rest.as_slice()) },
        );
    }
    if let Some(rest) = strip_prefix(s, "winshm://") {
        return Ok(
            SelectedBackend {
                kind: BackendKind::WindowsNamed,
                name: windows_object_name(rest.as_slice()),
            },
        );
    }
    if let Some(rest) = strip_prefix(s, "ivshmem://") {
        return Ok(
            SelectedBackend { kind: BackendKind::WindowsIvshmem, name: string_of(rest.as_slice()) },
        );
    }
    let mut scheme: bool = false;
    if let Some(i) = find_text(s, "://") {
        assert(s@.subrange(i as int, i + 3)[1] == s@[i + 1]);
        match find_char(s, '/') {
            Some(k) => {
                scheme = k > i;
                proof {
                    if k > i {
                        assert(has_scheme(path@)) by {
                            assert(text::occurs_at(s@, "://"@, i as int));
                        }
                    } else if has_scheme(path@) {
                        let j = choose|j: int| #[trigger]
                            text::occurs_at(s@, "://"@, j) && forall|k: int|
                                0 <= k < j ==> s@[k] != '/';
                        assert(s@.subrange(j, j + 3)[0] == s@[j]);
                        assert(j >= i);
                        assert(k <= i);
                        assert(s@.subrange(i as int, i + 3)[0] == s@[i as int]);
                        assert(false);
                    }
                }
            },
            None => {
                assert(false);
            },
        }
    }
    if scheme {
        return Err(ShmError::InvalidBackendSpec(string_of(s)));
    }
    Ok(SelectedBackend { kind: BackendKind::PosixFile, name: string_of(s) })
}

/// Every error is told with words of its own kind, and with all that it brings along.
pub proof fn law_error_is_told_with_its_kind(e: &ShmError, r: String)
    requires
        call_ensures(ShmError::message, (e,), r),
    ensures
        e matches ShmError::Io(s) ==> r@ == "io error: "@ + s@,
        e matches ShmError::InvalidConfig(s) ==> r@ == "invalid config: "@ + s@,
        e matches ShmError::Protocol(s) ==> r@ == "protocol error: "@ + s@,
        e matches ShmError::InvalidBackendSpec(s) ==> r@ == "invalid backend spec: "@ + s@,
        e matches ShmError::UnsupportedBackend(s) ==> r@ == "unsupported backend: "@ + s@,
        e is Exhausted ==> r@ == "allocator exhausted"@,
        e is RingFull ==> r@ == "ring full"@,
        e is RingEmpty ==> r@ == "ring empty"@,
        e is NoConsumer ==> r@ == "no consumer connected"@,
{
}

/// A scheme selects its backend, which is given what stands behind the scheme; the namespace
/// of a Windows object is set off from it by a backslash in place of the slash.
pub proof fn law_scheme_selects_its_backend(
    path: &str,
    rest: Seq<char>,
    r: Result<SelectedBackend, ShmError>,
)
    requires
        call_ensures(resolve_backend, (path,), r),
    ensures
        path@ == "shm://"@ + rest ==> (r matches Ok(b) && b.kind == BackendKind::PosixFile && b.name@
            == rest),
        path@ == "ivshmem://"@ + rest ==> (r matches Ok(b) && b.kind == BackendKind::WindowsIvshmem
            && b.name@ == rest),
        path@ == "winshm://Local/"@ + rest ==> (r matches Ok(b) && b.kind
            == BackendKind::WindowsNamed && b.name@ == "Local\\"@ + rest),
        path@ == "winshm://Global/"@ + rest ==> (r matches Ok(b) && b.kind
            == BackendKind::WindowsNamed && b.name@ == "Global\\"@ + rest),
        path@ == "winshm://"@ + rest && !("Local/"@.is_prefix_of(rest)) && !("Global/"@.is_prefix_of(
            rest,
        )) ==> (r matches Ok(b) && b.kind == BackendKind::WindowsNamed && b.name@ == rest),
{
    reveal_strlit("shm://");
    reveal_strlit("winshm://");
    reveal_strlit("ivshmem://");
    reveal_strlit("winshm://Local/");
    reveal_strlit("winshm://Global/");
    reveal_strlit("Local/");
    reveal_strlit("Global/");
    assert("shm://"@[0] == 's' && "winshm://"@[0] == 'w' && "ivshmem://"@[0] == 'i');
    assert("Local/"@[0] == 'L' && "Global/"@[0] == 'G');
    assert("winshm://Local/"@ =~= "winshm://"@ + "Local/"@);
    assert("winshm://Global/"@ =~= "winshm://"@ + "Global/"@);
    if path@ == "shm://"@ + rest {
        assert(path@.subrange(0, 6) =~= "shm://"@);
        assert(path@.skip(6) =~= rest);
    }
    if path@ == "ivshmem://"@ + rest {
        lemma_begins_with(path@, "ivshmem://"@, rest);
    }
    if path@ == "winshm://"@ + rest {
        lemma_begins_with(path@, "winshm://"@, rest);
    }
    if path@ == "winshm://Local/"@ + rest {
        assert(path@ =~= "winshm://"@ + ("Local/"@ + rest));
        lemma_begins_with(path@, "winshm://"@, "Local/"@ + rest);
        lemma_begins_with("Local/"@ + rest, "Local/"@, rest);
    }
    if path@ == "winshm://Global/"@ + rest {
        assert(path@ =~= "winshm://"@ + ("Global/"@ + rest));
        lemma_begins_with(path@, "winshm://"@, "Global/"@ + rest);
        lemma_begins_with("Global/"@ + rest, "Global/"@, rest);
    }
}

proof fn lemma_begins_with(s: Seq<char>, head: Seq<char>, rest: Seq<char>)
    requires
        s == head + rest,
        head.len() > 0,
    ensures
        text::starts_with(s, head),
        s.skip(head.len() as int) == rest,
        forall|other: Seq<char>| #[trigger]
            text::starts_with(s, other) && other.len() > 0 ==> other[0] == head[0],
{
    assert(s.subrange(0, head.len() as int) =~= head);
    assert(s.skip(head.len() as int) =~= rest);
    assert forall|other: Seq<char>| #[trigger]
        text::starts_with(s, other) && other.len() > 0 implies other[0] == head[0] by {
        assert(s.subrange(0, other.len() as int)[0] == s[0]);
    }
}

/// A path is that of a file as it stands, unless it has a scheme: a `:` right before its first
/// slash and another slash right behind that. A scheme other than the three that are known is
/// refused, with the path that holds it.
pub proof fn law_plain_path_is_a_file(
    path: &str,
    head: Seq<char>,
    rest: Seq<char>,
    r: Result<SelectedBackend, ShmError>,
)
    requires
        call_ensures(resolve_backend, (path,), r),
        !head.contains('/'),
    ensures
        path@ == head ==> (r matches Ok(b) && b.kind == BackendKind::PosixFile && b.name@ == path@),
        path@ == head + seq!['/'] + rest && !(head.len() > 0 && head.last() == ':' && rest.len() > 0
            && rest[0] == '/') ==> (r matches Ok(b) && b.kind == BackendKind::PosixFile && b.name@
            == path@),
        path@ == head + seq![':', '/', '/'] + rest && head != "shm"@ && head != "winshm"@ && head
            != "ivshmem"@ ==> (r matches Err(ShmError::InvalidBackendSpec(s)) && s@ == path@),
{
    let s = path@;
    let h = head.len() as int;
    reveal_strlit("://");
    lemma_scheme_and_slash(s, "shm"@, "shm://"@);
    lemma_scheme_and_slash(s, "winshm"@, "winshm://"@);
    lemma_scheme_and_slash(s, "ivshmem"@, "ivshmem://"@);
    assert forall|k: int| 0 <= k < h implies #[trigger] head[k] != '/' by {
        assert(head.contains(head[k]));
    }
    if s == head + seq!['/'] + rest {
        assert(s[h] == '/');
        assert forall|k: int| 0 <= k < h implies #[trigger] s[k] != '/' by {
            assert(s[k] == head[k]);
        }
        if text::starts_with(s, "shm://"@) || text::starts_with(s, "winshm://"@)
            || text::starts_with(s, "ivshmem://"@) {
            let n = if text::starts_with(s, "shm://"@) {
                "shm"@.len() as int
            } else if text::starts_with(s, "winshm://"@) {
                "winshm"@.len() as int
            } else {
                "ivshmem"@.len() as int
            };
            assert(s[n + 1] == '/' && s[n] == ':' && s[n + 2] == '/');
            assert(n + 1 >= h);
            assert(h > n);
            assert(s[n] == head[n] && s[n + 2] == rest[0]);
        }
    }
    if s == head || s == head + seq!['/'] + rest {
        if has_scheme(s) {
            let i = choose|i: int| #[trigger]
                text::occurs_at(s, "://"@, i) && forall|k: int| 0 <= k < i ==> s[k] != '/';
            let sub = s.subrange(i, i + 3);
            assert(sub[0] == s[i] && sub[1] == s[i + 1] && sub[2] == s[i + 2]);
            if s != head {
                assert(s[h] == '/');
                assert(i + 1 == h);
                assert(s[h + 1] == rest[0]);
            }
        }
    }
    if s == head + seq![':', '/', '/'] + rest {
        assert(s[h] == ':' && s[h + 1] == '/' && s[h + 2] == '/');
        assert(s.subrange(h, h + 3) =~= "://"@);
        assert(text::occurs_at(s, "://"@, h));
        assert(s.take(h) =~= head);
        assert forall|k: int| 0 <= k < h implies s[k] != '/' by {
            assert(s[k] == head[k]);
        }
        assert(has_scheme(s));
    }
}

proof fn lemma_scheme_and_slash(s: Seq<char>, name: Seq<char>, scheme: Seq<char>)
    requires
        name == "shm"@ && scheme == "shm://"@ || name == "winshm"@ && scheme == "winshm://"@ || name
            == "ivshmem"@ && scheme == "ivshmem://"@,
    ensures
        text::starts_with(s, scheme) ==> {
            let n = name.len() as int;
            &&& n + 2 < s.len()
            &&& s.take(n) == name
            &&& s[n] == ':' && s[n + 1] == '/' && s[n + 2] == '/'
            &&& forall|k: int| 0 <= k <= n ==> #[trigger] s[k] != '/'
        },
{
    reveal_strlit("shm");
    reveal_strlit("winshm");
    reveal_strlit("ivshmem");
    reveal_strlit("shm://");
    reveal_strlit("winshm://");
    reveal_strlit("ivshmem://");
    let n = name.len() as int;
    assert(scheme =~= name.push(':').push('/').push('/'));
    if text::starts_with(s, scheme) {
        let sub = s.subrange(0, scheme.len() as int);
        assert(sub == scheme);
        assert(sub[n] == s[n] && sub[n + 1] == s[n + 1] && sub[n + 2] == s[n + 2]);
        assert forall|k: int| 0 <= k <= n implies #[trigger] s[k] != '/' by {
            assert(sub[k] == s[k]);
        }
        assert(s.take(n) =~= name) by {
            assert forall|k: int| 0 <= k < n implies s.take(n)[k] == name[k] by {
                assert(sub[k] == s[k]);
            }
        }
    }
}

} // verus!
