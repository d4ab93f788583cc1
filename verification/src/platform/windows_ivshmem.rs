//! Regions in the memory of an ivshmem device, seen from a Windows guest.
//!
//! The calls to the operating system are made elsewhere; here is decided what they are
//! given, and what each outcome means.

use crate::platform::ShmError;
use crate::text;
use crate::text::{chars_of, find_text, has_prefix, push_all, push_str, replace_char, string_of};
use crate::text::to_wide;
use vstd::prelude::*;

verus! {

/// Maps the memory of ivshmem devices as regions.
#[derive(Debug, Default, Clone, Copy)]
pub struct WindowsIvshmemBackend;

/// How the device's memory is cached: as ordinary memory is.
pub const IVSHMEM_CACHE_CACHED: u8 = 1;

/// Asks a device for the size of its memory.
pub const IOCTL_IVSHMEM_REQUEST_SIZE: u32 = 0x0022_2004;

/// Asks a device to map its memory.
pub const IOCTL_IVSHMEM_REQUEST_MMAP: u32 = 0x0022_2008;

/// Asks a device to undo the mapping.
pub const IOCTL_IVSHMEM_RELEASE_MMAP: u32 = 0x0022_200c;

/// The control code of a device function.
pub fn ctl_code(device_type: u32, function: u32, method: u32, access: u32) -> (r: u32)
    ensures
        r == (device_type << 16) | (access << 14) | (function << 2) | method,
{
    (device_type << 16) | (access << 14) | (function << 2) | method
}

/// The device's control codes are those of its functions 0x801, 0x802 and 0x803, of a
/// device of unknown type, buffered, for any access. Its memory is asked for cached.
pub proof fn law_control_codes()
    ensures
        IVSHMEM_CACHE_CACHED == 1,
        IOCTL_IVSHMEM_REQUEST_SIZE == (0x22u32 << 16) | (0u32 << 14) | (0x801u32 << 2) | 0u32,
        IOCTL_IVSHMEM_REQUEST_MMAP == (0x22u32 << 16) | (0u32 << 14) | (0x802u32 << 2) | 0u32,
        IOCTL_IVSHMEM_RELEASE_MMAP == (0x22u32 << 16) | (0u32 << 14) | (0x803u32 << 2) | 0u32,
{
    assert(0x0022_2004u32 == (0x22u32 << 16) | (0u32 << 14) | (0x801u32 << 2) | 0u32)
        by (bit_vector);
    assert(0x0022_2008u32 == (0x22u32 << 16) | (0u32 << 14) | (0x802u32 << 2) | 0u32)
        by (bit_vector);
    assert(0x0022_200cu32 == (0x22u32 << 16) | (0u32 << 14) | (0x803u32 << 2) | 0u32)
        by (bit_vector);
}

/// The text with its letters of ASCII in upper case.
pub open spec fn upper(s: Seq<char>) -> Seq<char> {
    s.map_values(|c: char| text::ascii_upper(c))
}

/// The interface path of a device target, if it has one: a full path is taken as it is,
/// and the instance id of a PCI device is turned into one.
pub open spec fn interface_path(name: Seq<char>) -> Option<Seq<char>> {
    let norm = text::with_char_replaced(name, '/', '\\');
    if text::starts_with(name, "\\\\?\\"@) {
        Some(name)
    } else if text::starts_with(norm, "\\\\.\\"@) {
        Some(norm)
    } else if exists|i: int| text::occurs_at(norm, "#{"@, i) {
        Some("\\\\?\\"@ + norm)
    } else if text::starts_with(upper(norm), "PCI\\"@) {
        Some(
            "\\\\?\\"@ + text::with_char_replaced(norm, '\\', '#') + "#"@
                + "{df576976-569d-4672-95a0-f57e4ea0b210}"@,
        )
    } else {
        None
    }
}

fn is_pci_instance(s: &[char]) -> (r: bool)
    ensures
        r == text::starts_with(upper(s@), "PCI\\"@),
{
    proof {
        reveal_strlit("PCI\\");
        let u = upper(s@);
        if s@.len() >= 4 {
            assert(u.subrange(0, 4) =~= seq![u[0], u[1], u[2], u[3]]);
            assert("PCI\\"@ =~= seq!['P', 'C', 'I', '\\']);
            if text::starts_with(u, "PCI\\"@) {
                assert(u.subrange(0, 4)[0] == 'P');
                assert(u.subrange(0, 4)[1] == 'C');
                assert(u.subrange(0, 4)[2] == 'I');
                assert(u.subrange(0, 4)[3] == '\\');
            }
        }
    }
    s.len() >= 4 && (s[0] == 'P' || s[0] == 'p') && (s[1] == 'C' || s[1] == 'c') && (s[2] == 'I'
        || s[2] == 'i') && s[3] == '\\'
}

/// A mapping that a device has made.
#[derive(Debug, Clone, Copy)]
pub struct IvshmemMapping {
    pub size: u64,
    pub null: bool,
}

/// What came of a call on a device.
#[derive(Debug)]
pub enum DeviceEvent {
    /// The device could not be opened; the words of the operating system.
    NoDevice(String),
    Opened,
    /// The request failed; the words of the operating system.
    SizeFailed(String),
    /// The size that the device told, and how many bytes the answer had.
    SizeTold { bytes_ret: u32, size: u64 },
    /// The request failed; the words of the operating system.
    MapFailed(String),
    /// The mapping that the device told, how many bytes the answer had, and how many it
    /// should have.
    MapTold { bytes_ret: u32, expected: u32, mapping: IvshmemMapping },
}

/// The next call on a device.
#[derive(Debug)]
pub enum DeviceAction {
    RequestSize,
    /// Ask for the mapping; it is to have so many bytes.
    RequestMap(u64),
    /// The region has so many bytes.
    Finish(u64),
    /// Give up, after releasing the mapping and closing the device, if so told.
    Fail { release: bool, close: bool, error: ShmError },
}

impl DeviceAction {
    /// Giving up with the words of the operating system.
    pub open spec fn is_io(self, closing: bool, words: Seq<char>) -> bool {
        self matches DeviceAction::Fail { release, close, error } && !release && close == closing
            && (error matches ShmError::Io(s) && s@ == words)
    }

    /// Giving up for a breach of the protocol; the device is closed.
    pub open spec fn is_breach(self, releasing: bool, words: Seq<char>) -> bool {
        self matches DeviceAction::Fail { release, close, error } && release == releasing && close
            && error.is_protocol(words)
    }
}

impl WindowsIvshmemBackend {
    /// The name as UTF-16 with a zero behind it.
    pub fn to_utf16(s: &str) -> (r: Vec<u16>)
        ensures
            r@ == text::utf16(s@).push(0),
    {
        to_wide(s)
    }

    /// Turns a device target into the path of the device's interface.
    pub fn normalize_target(name: &str) -> (r: Result<String, ShmError>)
        ensures
            match r {
                Ok(path) => name@.len() > 0 && interface_path(name@) == Some(path@),
                Err(e) => if name@.len() == 0 {
                    e.is_config("ivshmem device target cannot be empty"@)
                } else {
                    interface_path(name@) is None && (e matches ShmError::InvalidBackendSpec(s)
                        && s@
                        == "ivshmem target must be PCI instance id or full interface path"@)
                },
            },
    {
        if name.is_empty() {
            return Err(ShmError::InvalidConfig("ivshmem device target cannot be empty"));
        }
        let chars: Vec<char> = chars_of(name);
        if has_prefix(chars.as_slice(), "\\\\?\\") {
            return Ok(string_of(chars.as_slice()));
        }
        let norm: Vec<char> = replace_char(chars.as_slice(), '/', '\\');
        if has_prefix(norm.as_slice(), "\\\\.\\") {
            return Ok(string_of(norm.as_slice()));
        }
        if find_text(norm.as_slice(), "#{").is_some() {
            let mut path: Vec<char> = chars_of("\\\\?\\");
            push_all(&mut path, norm.as_slice());
            return Ok(string_of(path.as_slice()));
        }
        if is_pci_instance(norm.as_slice()) {
            let mut path: Vec<char> = chars_of("\\\\?\\");
            let iface: Vec<char> = replace_char(norm.as_slice(), '\\', '#');
            push_all(&mut path, iface.as_slice());
            push_str(&mut path, "#");
            push_str(&mut path, "{df576976-569d-4672-95a0-f57e4ea0b210}");
            return Ok(string_of(path.as_slice()));
        }
        Err(
            ShmError::InvalidBackendSpec(
                "ivshmem target must be PCI instance id or full interface path".to_owned(),
            ),
        )
    }

    /// A region cannot be created here: the device's memory is there already.
    pub fn create(&self) -> (r: ShmError)
        ensures
            r matches ShmError::UnsupportedBackend(s) && s@
                == "ivshmem backend is attach-only; use open() from reader side"@,
    {
        ShmError::UnsupportedBackend(
            "ivshmem backend is attach-only; use open() from reader side",
        )
    }

    /// What comes after a call: the device tells its size, maps its memory, and must tell
    /// the same size again. `requested` is the size that it told first.
    pub fn open(&self, requested: u64, event: DeviceEvent) -> (r: DeviceAction)
        ensures
            match event {
                DeviceEvent::NoDevice(words) => r.is_io(false, words@),
                DeviceEvent::Opened => r is RequestSize,
                DeviceEvent::SizeFailed(words) => r.is_io(true, words@),
                DeviceEvent::SizeTold { bytes_ret, size } => if bytes_ret != 8 || size == 0 {
                    r.is_breach(false, "invalid ivshmem size response"@)
                } else {
                    r == DeviceAction::RequestMap(size)
                },
                DeviceEvent::MapFailed(words) => r.is_io(true, words@),
                DeviceEvent::MapTold { bytes_ret, expected, mapping } => if bytes_ret != expected {
                    r.is_breach(false, "invalid ivshmem mmap response size"@)
                } else if mapping.null || mapping.size == 0 {
                    r.is_breach(false, "ivshmem driver returned null/zero mapping"@)
                } else if mapping.size != requested {
                    r.is_breach(true, "ivshmem size mismatch between size/mmap ioctls"@)
                } else {
                    r == DeviceAction::Finish(mapping.size)
                },
            },
    {
        match event {
            DeviceEvent::NoDevice(words) => DeviceAction::Fail {
                release: false,
                close: false,
                error: ShmError::Io(words),
            },
            DeviceEvent::Opened => DeviceAction::RequestSize,
            DeviceEvent::SizeFailed(words) => DeviceAction::Fail {
                release: false,
                close: true,
                error: ShmError::Io(words),
            },
            DeviceEvent::SizeTold { bytes_ret, size } => if bytes_ret != 8 || size == 0 {
                breach(false, "invalid ivshmem size response")
            } else {
                DeviceAction::RequestMap(size)
            },
            DeviceEvent::MapFailed(words) => DeviceAction::Fail {
                release: false,
                close: true,
                error: ShmError::Io(words),
            },
            DeviceEvent::MapTold { bytes_ret, expected, mapping } => if bytes_ret != expected {
                breach(false, "invalid ivshmem mmap response size")
            } else if mapping.null || mapping.size == 0 {
                breach(false, "ivshmem driver returned null/zero mapping")
            } else if mapping.size != requested {
                breach(true, "ivshmem size mismatch between size/mmap ioctls")
            } else {
                DeviceAction::Finish(mapping.size)
            },
        }
    }
}

fn breach(release: bool, words: &'static str) -> (r: DeviceAction)
    ensures
        r.is_breach(release, words@),
{
    DeviceAction::Fail { release, close: true, error: ShmError::Protocol(words) }
}

/// No interface is named in the text: a `#` never stands right before a brace.
pub open spec fn holds_no_interface(s: Seq<char>) -> bool {
    forall|i: int| 0 <= i < s.len() - 1 && #[trigger] s[i] == '#' ==> s[i + 1] != '{'
}

/// The text begins with the name of the PCI bus, in letters of any case, and a backslash.
pub open spec fn begins_as_pci(s: Seq<char>) -> bool {
    &&& s.len() >= 4
    &&& s[0] == 'P' || s[0] == 'p'
    &&& s[1] == 'C' || s[1] == 'c'
    &&& s[2] == 'I' || s[2] == 'i'
    &&& s[3] == '\\'
}

/// A path that begins as Windows paths without parsing do is the device's as it stands. Any
/// other has its slashes turned first: a device path is then taken as it is, one that holds
/// an interface is put behind that beginning, and an instance id of the PCI bus is put
/// there with its parts set off as in a path and with the device's interface behind it.
/// Anything else is refused.
pub proof fn law_target_becomes_an_interface_path(
    name: &str,
    chars: &[char],
    norm: Vec<char>,
    hashed: Vec<char>,
    turned: &[char],
    at: int,
    r: Result<String, ShmError>,
)
    requires
        chars@ == name@,
        call_ensures(replace_char, (chars, '/', '\\'), norm),
        turned@ == norm@,
        call_ensures(replace_char, (turned, '\\', '#'), hashed),
        call_ensures(WindowsIvshmemBackend::normalize_target, (name,), r),
    ensures
        name@.len() == 0 ==> (r matches Err(e) && e is InvalidConfig),
        "\\\\?\\"@.is_prefix_of(name@) ==> (r matches Ok(path) && path@ == name@),
        !("\\\\?\\"@.is_prefix_of(name@)) && "\\\\.\\"@.is_prefix_of(norm@) ==> (r matches Ok(path)
            && path@ == norm@),
        !("\\\\?\\"@.is_prefix_of(name@)) && !("\\\\.\\"@.is_prefix_of(norm@)) && 0 <= at < norm@.len()
            - 1 && norm@[at] == '#' && norm@[at + 1] == '{' ==> (r matches Ok(path) && path@
            == "\\\\?\\"@ + norm@),
        holds_no_interface(norm@) && begins_as_pci(norm@) ==> (r matches Ok(path) && path@
            == "\\\\?\\"@ + hashed@ + "#{df576976-569d-4672-95a0-f57e4ea0b210}"@),
        name@.len() > 0 && !("\\\\?\\"@.is_prefix_of(name@)) && !("\\\\.\\"@.is_prefix_of(norm@))
            && holds_no_interface(norm@) && !begins_as_pci(norm@) ==> (r matches Err(e) && e
            is InvalidBackendSpec),
{
    let n = norm@;
    reveal_strlit("\\\\?\\");
    reveal_strlit("\\\\.\\");
    reveal_strlit("#{");
    reveal_strlit("#");
    reveal_strlit("PCI\\");
    reveal_strlit("{df576976-569d-4672-95a0-f57e4ea0b210}");
    reveal_strlit("#{df576976-569d-4672-95a0-f57e4ea0b210}");
    assert("\\\\?\\"@.len() == 4 && "\\\\.\\"@.len() == 4 && "#{"@.len() == 2);
    assert("\\\\?\\"@[0] == '\\' && "\\\\.\\"@[0] == '\\');
    assert("#{df576976-569d-4672-95a0-f57e4ea0b210}"@ =~= "#"@
        + "{df576976-569d-4672-95a0-f57e4ea0b210}"@);
    if 0 <= at < n.len() - 1 && n[at] == '#' && n[at + 1] == '{' {
        assert(n.subrange(at, at + 2) =~= "#{"@);
        assert(text::occurs_at(n, "#{"@, at));
    }
    if holds_no_interface(n) {
        assert forall|i: int| !text::occurs_at(n, "#{"@, i) by {
            if text::occurs_at(n, "#{"@, i) {
                assert(n.subrange(i, i + 2)[0] == n[i]);
                assert(n.subrange(i, i + 2)[1] == n[i + 1]);
            }
        }
    }
    if !begins_as_pci(n) && text::starts_with(upper(n), "PCI\\"@) {
        let u = upper(n).subrange(0, 4);
        assert(u[0] == 'P' && u[1] == 'C' && u[2] == 'I' && u[3] == '\\');
        assert(u[0] == text::ascii_upper(n[0]) && u[1] == text::ascii_upper(n[1]));
        assert(u[2] == text::ascii_upper(n[2]) && u[3] == text::ascii_upper(n[3]));
    }
    if n.len() >= 4 && (n[0] == 'P' || n[0] == 'p') {
        assert(n.subrange(0, 4)[0] == n[0]);
        assert(name@[0] == n[0]);
        assert(name@.subrange(0, 4)[0] == name@[0]);
    }
    if begins_as_pci(n) && holds_no_interface(n) {
        assert(upper(n).subrange(0, 4) =~= "PCI\\"@);
        assert(r matches Ok(path) && path@ =~= "\\\\?\\"@ + hashed@
            + "#{df576976-569d-4672-95a0-f57e4ea0b210}"@);
    }
}

/// The device's memory is had only when both answers are whole and tell the same size, which
/// is then the region's. The device is closed after any failure but that to open it, and the
/// mapping is released exactly when it was made and is of another size.
pub proof fn law_device_tells_its_size_twice(
    b: &WindowsIvshmemBackend,
    requested: u64,
    event: DeviceEvent,
    r: DeviceAction,
)
    requires
        call_ensures(WindowsIvshmemBackend::open, (b, requested, event), r),
    ensures
        event is Opened ==> r is RequestSize,
        event matches DeviceEvent::SizeTold { bytes_ret, size } ==> if bytes_ret == 8 && size > 0 {
            r == DeviceAction::RequestMap(size)
        } else {
            r is Fail
        },
        event matches DeviceEvent::MapTold { bytes_ret, expected, mapping } ==> if bytes_ret
            == expected && !mapping.null && mapping.size == requested && requested > 0 {
            r == DeviceAction::Finish(requested)
        } else {
            r is Fail
        },
        r matches DeviceAction::Fail { release, close, error } ==> {
            &&& close <==> !(event is NoDevice)
            &&& release <==> (event matches DeviceEvent::MapTold { bytes_ret, expected, mapping }
                && bytes_ret == expected && !mapping.null && mapping.size > 0)
            &&& event matches DeviceEvent::NoDevice(w) ==> (error matches ShmError::Io(s) && s@ == w@)
            &&& event matches DeviceEvent::SizeFailed(w) ==> (error matches ShmError::Io(s) && s@
                == w@)
            &&& event matches DeviceEvent::MapFailed(w) ==> (error matches ShmError::Io(s) && s@
                == w@)
            &&& event is SizeTold || event is MapTold ==> error is Protocol
        },
        event is NoDevice || event is SizeFailed || event is MapFailed ==> r is Fail,
{
}

/// A name is widened as any text is, and a region is never created here.
pub proof fn law_device_is_only_opened(
    b: &WindowsIvshmemBackend,
    name: &str,
    wide: Vec<u16>,
    r: Vec<u16>,
    e: ShmError,
)
    requires
        call_ensures(to_wide, (name,), wide),
        call_ensures(WindowsIvshmemBackend::to_utf16, (name,), r),
        call_ensures(WindowsIvshmemBackend::create, (b,), e),
    ensures
        r@ == wide@,
        e is UnsupportedBackend,
{
}

/// The parts of a control code stand side by side: the method in the lowest two bits, the
/// function in the twelve above, then two for the access and sixteen for the type of device.
pub proof fn law_control_code_holds_its_parts(
    device_type: u32,
    function: u32,
    method: u32,
    access: u32,
    r: u32,
)
    requires
        device_type < 0x1_0000 && access < 4 && function < 0x1000 && method < 4,
        call_ensures(ctl_code, (device_type, function, method, access), r),
    ensures
        r == device_type * 0x1_0000 + access * 0x4000 + function * 4 + method,
{
    assert((device_type << 16) | (access << 14) | (function << 2) | method == device_type
        * 0x1_0000 + access * 0x4000 + function * 4 + method) by (bit_vector)
        requires
            device_type < 0x1_0000 && access < 4 && function < 0x1000 && method < 4,
    ;
}

} // verus!
