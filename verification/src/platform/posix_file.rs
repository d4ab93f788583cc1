//! Regions in files that are mapped.
//!
//! The calls to the operating system are made elsewhere; here is decided which call
//! comes next, and what each outcome means.

use crate::platform::ShmError;
use crate::text::{chars_of, find_char};
use vstd::prelude::*;

verus! {

/// Maps files as regions.
#[derive(Debug, Default, Clone, Copy)]
pub struct PosixFileBackend;

/// The next call on the way to a mapped file.
#[derive(Debug)]
pub enum FileAction {
    Open,
    Truncate(usize),
    Stat,
    /// Map so many bytes.
    MapWhole(usize),
    /// The file is mapped.
    Finish,
    /// Give up; close the file first, if so told.
    Fail { close: bool, error: ShmError },
}

/// What came of a call.
#[derive(Debug)]
pub enum FileEvent {
    OpenFailed(String),
    Opened,
    TruncateFailed(String),
    Truncated,
    StatFailed(String),
    /// The size that the file has.
    Sized(i64),
    MapFailed(String),
    Mapped { null: bool },
}

impl FileAction {
    /// Giving up with the words of the operating system.
    pub open spec fn is_io(self, closing: bool, words: Seq<char>) -> bool {
        self matches FileAction::Fail { close, error } && close == closing && (error matches
            ShmError::Io(s) && s@ == words)
    }
}

impl PosixFileBackend {
    fn check_path(name: &str) -> (r: Result<(), ShmError>)
        ensures
            r is Ok <==> !name@.contains('\0'),
            r matches Err(e) ==> e.is_config("path contains embedded NUL byte"@),
    {
        let chars: Vec<char> = chars_of(name);
        match find_char(chars.as_slice(), '\0') {
            Some(i) => {
                assert(name@[i as int] == '\0');
                Err(ShmError::InvalidConfig("path contains embedded NUL byte"))
            },
            None => Ok(()),
        }
    }

    /// Begins to create a file of `size` bytes.
    pub fn begin_create(&self, name: &str, size: usize) -> (r: FileAction)
        ensures
            if size == 0 {
                r matches FileAction::Fail { close, error } && !close && error.is_config(
                    "size must be non-zero"@,
                )
            } else if name@.contains('\0') {
                r matches FileAction::Fail { close, error } && !close && error.is_config(
                    "path contains embedded NUL byte"@,
                )
            } else {
                r is Open
            },
    {
        if size == 0 {
            return FileAction::Fail {
                close: false,
                error: ShmError::InvalidConfig("size must be non-zero"),
            };
        }
        self.begin_open(name)
    }

    /// Begins to open a file that exists.
    pub fn begin_open(&self, name: &str) -> (r: FileAction)
        ensures
            if name@.contains('\0') {
                r matches FileAction::Fail { close, error } && !close && error.is_config(
                    "path contains embedded NUL byte"@,
                )
            } else {
                r is Open
            },
    {
        match Self::check_path(name) {
            Ok(_) => FileAction::Open,
            Err(error) => FileAction::Fail { close: false, error },
        }
    }

    /// What comes after a call: a file that is created is given its size, every file is
    /// asked for its size and mapped whole, and one without a byte is refused. Once the
    /// file is open, a failure closes it, except for a mapping at no address.
    pub fn open_internal(&self, truncate_to: Option<usize>, event: FileEvent) -> (r: FileAction)
        ensures
            match event {
                FileEvent::OpenFailed(words) => r.is_io(false, words@),
                FileEvent::Opened => match truncate_to {
                    Some(size) => r == FileAction::Truncate(size),
                    None => r is Stat,
                },
                FileEvent::TruncateFailed(words) => r.is_io(true, words@),
                FileEvent::Truncated => r is Stat,
                FileEvent::StatFailed(words) => r.is_io(true, words@),
                FileEvent::Sized(size) => if size <= 0 {
                    r matches FileAction::Fail { close, error } && close && error.is_config(
                        "shared file is empty; expected initialized region"@,
                    )
                } else {
                    r == FileAction::MapWhole(size as usize)
                },
                FileEvent::MapFailed(words) => r.is_io(true, words@),
                FileEvent::Mapped { null } => if null {
                    r matches FileAction::Fail { close, error } && !close && error.is_protocol(
                        "mmap returned null pointer"@,
                    )
                } else {
                    r is Finish
                },
            },
    {
        match event {
            FileEvent::OpenFailed(words) => FileAction::Fail {
                close: false,
                error: ShmError::Io(words),
            },
            FileEvent::Opened => match truncate_to {
                Some(size) => FileAction::Truncate(size),
                None => FileAction::Stat,
            },
            FileEvent::TruncateFailed(words) => FileAction::Fail {
                close: true,
                error: ShmError::Io(words),
            },
            FileEvent::Truncated => FileAction::Stat,
            FileEvent::StatFailed(words) => FileAction::Fail {
                close: true,
                error: ShmError::Io(words),
            },
            FileEvent::Sized(size) => if size <= 0 {
                FileAction::Fail {
                    close: true,
                    error: ShmError::InvalidConfig(
                        "shared file is empty; expected initialized region",
                    ),
                }
            } else {
                FileAction::MapWhole(size as usize)
            },
            FileEvent::MapFailed(words) => FileAction::Fail {
                close: true,
                error: ShmError::Io(words),
            },
            FileEvent::Mapped { null } => if null {
                FileAction::Fail {
                    close: false,
                    error: ShmError::Protocol("mmap returned null pointer"),
                }
            } else {
                FileAction::Finish
            },
        }
    }
}

/// A file is opened exactly when its name can be given to the operating system, and created
/// exactly when, besides, it is to have a byte; nothing is there to be closed before.
pub proof fn law_file_is_opened_by_a_name_without_nul(
    b: &PosixFileBackend,
    name: &str,
    size: usize,
    c: FileAction,
    o: FileAction,
)
    requires
        call_ensures(PosixFileBackend::begin_create, (b, name, size), c),
        call_ensures(PosixFileBackend::begin_open, (b, name), o),
    ensures
        o is Open <==> !name@.contains('\0'),
        c is Open <==> !name@.contains('\0') && size > 0,
        o is Open || (o matches FileAction::Fail { close, error } && !close && error
            is InvalidConfig),
        c is Open || (c matches FileAction::Fail { close, error } && !close && error
            is InvalidConfig),
{
}

/// A file that was opened is given the size that it is created with, and then, as one that
/// is only opened, asked for its size; exactly as many bytes as it has are mapped.
pub proof fn law_file_is_mapped_whole(
    b: &PosixFileBackend,
    truncate_to: Option<usize>,
    opened: FileAction,
    truncated: FileAction,
    size: i64,
    sized: FileAction,
    mapped: FileAction,
)
    requires
        call_ensures(PosixFileBackend::open_internal, (b, truncate_to, FileEvent::Opened), opened),
        call_ensures(
            PosixFileBackend::open_internal,
            (b, truncate_to, FileEvent::Truncated),
            truncated,
        ),
        call_ensures(
            PosixFileBackend::open_internal,
            (b, truncate_to, FileEvent::Sized(size)),
            sized,
        ),
        call_ensures(
            PosixFileBackend::open_internal,
            (b, truncate_to, FileEvent::Mapped { null: false }),
            mapped,
        ),
    ensures
        truncate_to matches Some(n) ==> opened == FileAction::Truncate(n),
        truncate_to is None ==> opened is Stat,
        truncated is Stat,
        0 < size <= usize::MAX ==> sized == FileAction::MapWhole(size as usize),
        size <= 0 ==> (sized matches FileAction::Fail { close, error } && close && error
            is InvalidConfig),
        mapped is Finish,
{
}

/// A call that failed ends the way with the words of the operating system; the file is closed
/// where it was opened.
pub proof fn law_failed_call_closes_the_file(
    b: &PosixFileBackend,
    truncate_to: Option<usize>,
    event: FileEvent,
    words: String,
    r: FileAction,
)
    requires
        event == FileEvent::OpenFailed(words) || event == FileEvent::TruncateFailed(words) || event
            == FileEvent::StatFailed(words) || event == FileEvent::MapFailed(words),
        call_ensures(PosixFileBackend::open_internal, (b, truncate_to, event), r),
    ensures
        r matches FileAction::Fail { close, error } && close == !(event is OpenFailed) && (error
            matches ShmError::Io(s) && s@ == words@),
{
}

} // verus!
