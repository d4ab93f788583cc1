//! Regions in named mapping objects of Windows.
//!
//! The calls to the operating system are made elsewhere; here is decided what they are
//! given, and what each outcome means.

use crate::platform::ShmError;
use crate::text;
use crate::text::to_wide;
use vstd::prelude::*;

verus! {

/// Maps named mapping objects as regions.
#[derive(Debug, Default, Clone, Copy)]
pub struct WindowsNamedBackend;

/// What a mapping object is created with: its size in two halves, and its name.
#[derive(Debug)]
pub struct NamedRequest {
    pub size_hi: u32,
    pub size_lo: u32,
    pub name: Vec<u16>,
}

/// What came of a call on a mapping object.
#[derive(Debug)]
pub enum ViewEvent {
    /// The object was not to be had; the words of the operating system.
    NoObject(String),
    /// Its view is null; the words of the operating system.
    NoView(String),
    /// The view's extent was asked for: whether that was answered, and with what size.
    Queried { answered: bool, region_size: usize },
}

/// How it goes on with a mapping object.
#[derive(Debug)]
pub enum ViewAction {
    /// The region has so many bytes.
    Finish(usize),
    /// Give up, after undoing the view and closing the object, if so told.
    Fail { unmap: bool, close: bool, error: ShmError },
}

impl WindowsNamedBackend {
    /// The name as UTF-16 with a zero behind it.
    pub fn to_utf16(name: &str) -> (r: Vec<u16>)
        ensures
            r@ == text::utf16(name@).push(0),
    {
        to_wide(name)
    }

    /// What to create an object with.
    pub fn create_request(&self, name: &str, size: usize) -> (r: Result<NamedRequest, ShmError>)
        ensures
            match r {
                Ok(q) => {
                    &&& size > 0 && name@.len() > 0
                    &&& q.size_hi == size as int / 0x1_0000_0000
                    &&& q.size_lo == size as int % 0x1_0000_0000
                    &&& q.name@ == text::utf16(name@).push(0)
                },
                Err(e) => if size == 0 {
                    e.is_config("size must be non-zero"@)
                } else {
                    name@.len() == 0 && e.is_config("named mapping object cannot be empty"@)
                },
            },
    {
        if size == 0 {
            return Err(ShmError::InvalidConfig("size must be non-zero"));
        }
        let name: Vec<u16> = match self.open_request(name) {
            Ok(w) => w,
            Err(e) => {
                return Err(e);
            },
        };
        let size: u64 = size as u64;
        Ok(
            NamedRequest {
                size_hi: (size / 0x1_0000_0000) as u32,
                size_lo: (size % 0x1_0000_0000) as u32,
                name,
            },
        )
    }

    /// The name to open an object by.
    pub fn open_request(&self, name: &str) -> (r: Result<Vec<u16>, ShmError>)
        ensures
            match r {
                Ok(w) => name@.len() > 0 && w@ == text::utf16(name@).push(0),
                Err(e) => name@.len() == 0 && e.is_config("named mapping object cannot be empty"@),
            },
    {
        if name.is_empty() {
            return Err(ShmError::InvalidConfig("named mapping object cannot be empty"));
        }
        Ok(Self::to_utf16(name))
    }

    /// What the outcome of a call means.
    pub fn map_and_wrap(&self, event: ViewEvent) -> (r: ViewAction)
        ensures
            match event {
                ViewEvent::NoObject(words) => r matches ViewAction::Fail { unmap, close, error }
                    && !unmap && !close && (error matches ShmError::Io(s) && s@ == words@),
                ViewEvent::NoView(words) => r matches ViewAction::Fail { unmap, close, error }
                    && !unmap && close && (error matches ShmError::Io(s) && s@ == words@),
                ViewEvent::Queried { answered, region_size } => if !answered || region_size == 0 {
                    r matches ViewAction::Fail { unmap, close, error } && unmap && close
                        && error.is_protocol("VirtualQuery failed for named shared memory view"@)
                } else {
                    r == ViewAction::Finish(region_size)
                },
            },
    {
        match event {
            ViewEvent::NoObject(words) => ViewAction::Fail {
                unmap: false,
                close: false,
                error: ShmError::Io(words),
            },
            ViewEvent::NoView(words) => ViewAction::Fail {
                unmap: false,
                close: true,
                error: ShmError::Io(words),
            },
            ViewEvent::Queried { answered, region_size } => if !answered || region_size == 0 {
                ViewAction::Fail {
                    unmap: true,
                    close: true,
                    error: ShmError::Protocol("VirtualQuery failed for named shared memory view"),
                }
            } else {
                ViewAction::Finish(region_size)
            },
        }
    }
}

/// The two halves of a size, put together again, are the size.
pub proof fn law_size_halves_make_the_size(size: u64)
    ensures
        (size as int / 0x1_0000_0000) * 0x1_0000_0000 + size as int % 0x1_0000_0000 == size,
{
}

/// An object is opened by its name, widened as any text is, and created with that name and
/// with two halves that make up its size; neither goes without a name, nor the second without
/// a byte.
pub proof fn law_object_is_asked_for_as_named(
    b: &WindowsNamedBackend,
    name: &str,
    size: usize,
    wide: Vec<u16>,
    o: Result<Vec<u16>, ShmError>,
    c: Result<NamedRequest, ShmError>,
)
    requires
        call_ensures(to_wide, (name,), wide),
        call_ensures(WindowsNamedBackend::open_request, (b, name), o),
        call_ensures(WindowsNamedBackend::create_request, (b, name, size), c),
    ensures
        o is Ok <==> name@.len() > 0,
        o matches Ok(w) ==> w@ == wide@,
        c is Ok <==> name@.len() > 0 && size > 0,
        c matches Ok(q) ==> q.name@ == wide@ && q.size_hi * 0x1_0000_0000 + q.size_lo == size,
        o matches Err(e) ==> e is InvalidConfig,
        c matches Err(e) ==> e is InvalidConfig,
{
}

/// The region has the bytes that its view has; what was had before a failure is given back,
/// the view first had and then the object.
pub proof fn law_view_is_kept_or_undone(
    b: &WindowsNamedBackend,
    event: ViewEvent,
    r: ViewAction,
)
    requires
        call_ensures(WindowsNamedBackend::map_and_wrap, (b, event), r),
    ensures
        r matches ViewAction::Finish(n) ==> event == (ViewEvent::Queried {
            answered: true,
            region_size: n,
        }) && n > 0,
        event matches ViewEvent::Queried { answered, region_size } ==> (r is Finish <==> answered
            && region_size > 0),
        r matches ViewAction::Fail { unmap, close, error } ==> {
            &&& unmap <==> event is Queried
            &&& close <==> !(event is NoObject)
            &&& event matches ViewEvent::NoObject(w) ==> (error matches ShmError::Io(s) && s@ == w@)
            &&& event matches ViewEvent::NoView(w) ==> (error matches ShmError::Io(s) && s@ == w@)
            &&& event is Queried ==> error is Protocol
        },
{
}

/// A name is widened as any text is.
pub proof fn law_name_is_widened(name: &str, wide: Vec<u16>, r: Vec<u16>)
    requires
        call_ensures(to_wide, (name,), wide),
        call_ensures(WindowsNamedBackend::to_utf16, (name,), r),
    ensures
        r@ == wide@,
{
}

} // verus!
