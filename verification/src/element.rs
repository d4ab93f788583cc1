//! What the two elements have in common: their properties, and the words with which a
//! start that failed is reported.

use crate::platform::ShmError;
use crate::text::{chars_of, push_str, string_of};
use vstd::prelude::*;

verus! {

/// The value of a property.
#[derive(Debug)]
pub enum PropertyValue {
    Text(Option<String>),
    Long(u64),
    Number(u32),
    Flag(bool),
}

/// What values a property takes, and which it starts with.
#[derive(Debug, Clone, Copy, PartialEq, Eq, Structural)]
pub enum PropertyKind {
    /// A path, which starts with the platform's own.
    Path,
    Long(u64),
    Number { default: u32, minimum: u32, maximum: u32 },
    Flag(bool),
}

/// A property as it is shown to users.
#[derive(Debug, Clone, Copy)]
pub struct PropertySpec {
    pub name: &'static str,
    pub nick: &'static str,
    pub blurb: &'static str,
    pub kind: PropertyKind,
}

impl PropertyValue {
    /// The value is the one that a property of this kind starts with.
    pub open spec fn is_default(self, kind: PropertyKind, default_path: Seq<char>) -> bool {
        match kind {
            PropertyKind::Path => self matches PropertyValue::Text(Some(s)) && s@ == default_path,
            PropertyKind::Long(default) => self == PropertyValue::Long(default),
            PropertyKind::Number { default, .. } => self == PropertyValue::Number(default),
            PropertyKind::Flag(default) => self == PropertyValue::Flag(default),
        }
    }

    /// The value reads as a path, where one was set, else as the platform's own.
    pub open spec fn path(self, default_path: Seq<char>) -> Option<Seq<char>> {
        match self {
            PropertyValue::Text(Some(s)) => Some(s@),
            PropertyValue::Text(None) => Some(default_path),
            _ => None,
        }
    }

    /// The path that the value sets, if it is a text.
    pub fn into_path(self, default_path: &str) -> (r: Option<String>)
        ensures
            match r {
                Some(s) => self.path(default_path@) == Some(s@),
                None => self.path(default_path@) is None,
            },
    {
        match self {
            PropertyValue::Text(Some(s)) => Some(s),
            PropertyValue::Text(None) => Some(default_path.to_owned()),
            _ => None,
        }
    }
}

/// The words for a path that selects no backend.
pub fn invalid_path_message(path: &str, error: &ShmError) -> (r: String)
    ensures
        r@ == "Invalid shm-path '"@ + path@ + "': "@ + error.words(),
{
    let mut out: Vec<char> = chars_of("Invalid shm-path '");
    push_str(&mut out, path);
    push_str(&mut out, "': ");
    push_str(&mut out, error.message().as_str());
    string_of(out.as_slice())
}

fn failure_message(what: &str, path: &str, resolved: &str, error: &ShmError) -> (r: String)
    ensures
        r@ == what@ + path@ + " (resolved '"@ + resolved@ + "'): "@ + error.words(),
{
    let mut out: Vec<char> = chars_of(what);
    push_str(&mut out, path);
    push_str(&mut out, " (resolved '");
    push_str(&mut out, resolved);
    push_str(&mut out, "'): ");
    push_str(&mut out, error.message().as_str());
    string_of(out.as_slice())
}

/// The words for a region that could not be created.
pub fn create_failure_message(path: &str, resolved: &str, error: &ShmError) -> (r: String)
    ensures
        r@ == "Failed to create shm writer at "@ + path@ + " (resolved '"@ + resolved@ + "'): "@
            + error.words(),
{
    failure_message("Failed to create shm writer at ", path, resolved, error)
}

/// The words for a region that could not be opened.
pub fn open_failure_message(path: &str, resolved: &str, error: &ShmError) -> (r: String)
    ensures
        r@ == "Failed to open shm reader at "@ + path@ + " (resolved '"@ + resolved@ + "'): "@
            + error.words(),
{
    failure_message("Failed to open shm reader at ", path, resolved, error)
}

/// A path that is set is the one that is used; one that is unset is the platform's own; a
/// value that is no text is no path.
pub proof fn law_unset_path_is_the_default(v: PropertyValue, default_path: &str, r: Option<String>)
    requires
        call_ensures(PropertyValue::into_path, (v, default_path), r),
    ensures
        r is Some <==> v is Text,
        v matches PropertyValue::Text(Some(s)) ==> (r matches Some(p) && p@ == s@),
        v matches PropertyValue::Text(None) ==> (r matches Some(p) && p@ == default_path@),
{
}

/// A start that failed is reported with the path as it was set, with the name that it stands
/// for where there is one, and with the words of the error at the end.
pub proof fn law_failed_start_is_reported(
    path: &str,
    resolved: &str,
    error: &ShmError,
    words: String,
    invalid: String,
    create: String,
    open: String,
)
    requires
        call_ensures(ShmError::message, (error,), words),
        call_ensures(invalid_path_message, (path, error), invalid),
        call_ensures(create_failure_message, (path, resolved, error), create),
        call_ensures(open_failure_message, (path, resolved, error), open),
    ensures
        invalid@ == "Invalid shm-path '"@ + path@ + "': "@ + words@,
        create@ == "Failed to create shm writer at "@ + path@ + " (resolved '"@ + resolved@
            + "'): "@ + words@,
        open@ == "Failed to open shm reader at "@ + path@ + " (resolved '"@ + resolved@ + "'): "@
            + words@,
{
}

} // verus!
