//! The source's properties and settings.

use crate::element::{PropertyKind, PropertySpec, PropertyValue};
use crate::text::{chars_of, is_text};
use vstd::prelude::*;

verus! {

/// What a user can set on the source.
#[derive(Debug)]
pub struct SourceSettings {
    pub shm_path: String,
    pub is_live: bool,
    /// Restart the output timeline on every attach.
    pub live_only: bool,
    /// Drop queued frames in favour of new ones.
    pub latest_only: bool,
}

/// The properties of the source.
#[derive(Debug, Clone, Copy, PartialEq, Eq, Structural)]
pub enum SourceProperty {
    ShmPath,
    IsLive,
    LiveOnly,
    LatestOnly,
}

impl SourceProperty {
    /// The property's name.
    pub open spec fn key(self) -> Seq<char> {
        match self {
            SourceProperty::ShmPath => "shm-path"@,
            SourceProperty::IsLive => "is-live"@,
            SourceProperty::LiveOnly => "live-only"@,
            SourceProperty::LatestOnly => "latest-only"@,
        }
    }

    /// The values that the property takes.
    pub open spec fn kind(self) -> PropertyKind {
        match self {
            SourceProperty::ShmPath => PropertyKind::Path,
            SourceProperty::IsLive => PropertyKind::Flag(false),
            SourceProperty::LiveOnly => PropertyKind::Flag(true),
            SourceProperty::LatestOnly => PropertyKind::Flag(true),
        }
    }

    /// The property of that name.
    pub fn named(name: &str) -> (r: Option<SourceProperty>)
        ensures
            match r {
                Some(p) => p.key() == name@,
                None => forall|p: SourceProperty| #![trigger p.key()] p.key() != name@,
            },
            name@ == "shm-path"@ ==> r == Some(SourceProperty::ShmPath),
            name@ == "is-live"@ ==> r == Some(SourceProperty::IsLive),
            name@ == "live-only"@ ==> r == Some(SourceProperty::LiveOnly),
            name@ == "latest-only"@ ==> r == Some(SourceProperty::LatestOnly),
    {
        proof {
            reveal_strlit("shm-path");
            reveal_strlit("is-live");
            reveal_strlit("live-only");
            reveal_strlit("latest-only");
            assert("shm-path"@.len() == 8);
            assert("is-live"@.len() == 7);
            assert("live-only"@.len() == 9);
            assert("latest-only"@.len() == 11);
        }
        let name: Vec<char> = chars_of(name);
        if is_text(name.as_slice(), "shm-path") {
            Some(SourceProperty::ShmPath)
        } else if is_text(name.as_slice(), "is-live") {
            Some(SourceProperty::IsLive)
        } else if is_text(name.as_slice(), "live-only") {
            Some(SourceProperty::LiveOnly)
        } else if is_text(name.as_slice(), "latest-only") {
            Some(SourceProperty::LatestOnly)
        } else {
            None
        }
    }

    /// The property as it is shown to users.
    pub fn describe(self) -> (r: PropertySpec)
        ensures
            r.name@ == self.key(),
            r.kind == self.kind(),
            match self {
                SourceProperty::ShmPath => r.nick@ == "SHM path"@ && r.blurb@
                    == "Path of shared memory file"@,
                SourceProperty::IsLive => r.nick@ == "Live"@ && r.blurb@
                    == "Act like a live source"@,
                SourceProperty::LiveOnly => r.nick@ == "Live only"@ && r.blurb@
                    == "On attach/re-attach, restart output timeline from current running time"@,
                SourceProperty::LatestOnly => r.nick@ == "Latest only"@ && r.blurb@
                    == "Always take newest available frame and drop older queued frames"@,
            },
    {
        match self {
            SourceProperty::ShmPath => PropertySpec {
                name: "shm-path",
                nick: "SHM path",
                blurb: "Path of shared memory file",
                kind: PropertyKind::Path,
            },
            SourceProperty::IsLive => PropertySpec {
                name: "is-live",
                nick: "Live",
                blurb: "Act like a live source",
                kind: PropertyKind::Flag(false),
            },
            SourceProperty::LiveOnly => PropertySpec {
                name: "live-only",
                nick: "Live only",
                blurb: "On attach/re-attach, restart output timeline from current running time",
                kind: PropertyKind::Flag(true),
            },
            SourceProperty::LatestOnly => PropertySpec {
                name: "latest-only",
                nick: "Latest only",
                blurb: "Always take newest available frame and drop older queued frames",
                kind: PropertyKind::Flag(true),
            },
        }
    }
}

/// All properties, in the order in which they are shown.
pub fn properties() -> (r: Vec<SourceProperty>)
    ensures
        r@ == seq![
            SourceProperty::ShmPath,
            SourceProperty::IsLive,
            SourceProperty::LiveOnly,
            SourceProperty::LatestOnly,
        ],
{
    let mut all: Vec<SourceProperty> = Vec::new();
    all.push(SourceProperty::ShmPath);
    all.push(SourceProperty::IsLive);
    all.push(SourceProperty::LiveOnly);
    all.push(SourceProperty::LatestOnly);
    all
}

impl SourceSettings {
    /// The settings that a source starts with, on a platform with this path.
    pub fn new(default_path: &str) -> (r: SourceSettings)
        ensures
            forall|p: SourceProperty| #[trigger]
                r.value(p).is_default(p.kind(), default_path@),
            r.shm_path@ == default_path@,
            !r.is_live && r.live_only && r.latest_only,
    {
        SourceSettings {
            shm_path: default_path.to_owned(),
            is_live: false,
            live_only: true,
            latest_only: true,
        }
    }

    /// The value of a property.
    pub open spec fn value(self, p: SourceProperty) -> PropertyValue {
        match p {
            SourceProperty::ShmPath => PropertyValue::Text(Some(self.shm_path)),
            SourceProperty::IsLive => PropertyValue::Flag(self.is_live),
            SourceProperty::LiveOnly => PropertyValue::Flag(self.live_only),
            SourceProperty::LatestOnly => PropertyValue::Flag(self.latest_only),
        }
    }

    /// The settings after a property was set; a value of the wrong type changes nothing.
    pub open spec fn with(self, p: SourceProperty, value: PropertyValue) -> SourceSettings {
        match (p, value) {
            (SourceProperty::IsLive, PropertyValue::Flag(v)) => SourceSettings {
                is_live: v,
                ..self
            },
            (SourceProperty::LiveOnly, PropertyValue::Flag(v)) => SourceSettings {
                live_only: v,
                ..self
            },
            (SourceProperty::LatestOnly, PropertyValue::Flag(v)) => SourceSettings {
                latest_only: v,
                ..self
            },
            _ => self,
        }
    }

    /// Sets a property. A path that is unset becomes the platform's own.
    pub fn set_property(&mut self, p: SourceProperty, value: PropertyValue, default_path: &str)
        ensures
            if p is ShmPath && value is Text {
                &&& value.path(default_path@) == Some(final(self).shm_path@)
                &&& *final(self) == (SourceSettings {
                    shm_path: final(self).shm_path,
                    ..*old(self)
                })
            } else {
                *final(self) == old(self).with(p, value)
            },
    {
        match p {
            SourceProperty::ShmPath => {
                if let Some(path) = value.into_path(default_path) {
                    self.shm_path = path;
                }
            },
            SourceProperty::IsLive => {
                if let PropertyValue::Flag(v) = value {
                    self.is_live = v;
                }
            },
            SourceProperty::LiveOnly => {
                if let PropertyValue::Flag(v) = value {
                    self.live_only = v;
                }
            },
            SourceProperty::LatestOnly => {
                if let PropertyValue::Flag(v) = value {
                    self.latest_only = v;
                }
            },
        }
    }

    /// Tells a property.
    pub fn property(&self, p: SourceProperty) -> (r: PropertyValue)
        ensures
            if p is ShmPath {
                r matches PropertyValue::Text(Some(s)) && s@ == self.shm_path@
            } else {
                r == self.value(p)
            },
    {
        match p {
            SourceProperty::ShmPath => PropertyValue::Text(Some(self.shm_path.clone())),
            SourceProperty::IsLive => PropertyValue::Flag(self.is_live),
            SourceProperty::LiveOnly => PropertyValue::Flag(self.live_only),
            SourceProperty::LatestOnly => PropertyValue::Flag(self.latest_only),
        }
    }
}

/// A flag that was set is told as it was set, and setting it changes no other property.
pub proof fn law_set_property_is_told(
    s: SourceSettings,
    p: SourceProperty,
    q: SourceProperty,
    v: PropertyValue,
)
    requires
        p !is ShmPath,
        v is Flag,
    ensures
        s.with(p, v).value(p) == v,
        q != p ==> s.with(p, v).value(q) == s.value(q),
{
}

/// A property that is told after it was set is the value that was set, where that is of the
/// property's own type; a path that is unset is the platform's own. A value of another type
/// changes nothing, and no value changes another property.
pub proof fn law_property_reads_back(
    s: &mut SourceSettings,
    p: SourceProperty,
    value: PropertyValue,
    default_path: &str,
    r: PropertyValue,
    q: SourceProperty,
    before: PropertyValue,
    after: PropertyValue,
)
    requires
        q != p,
        call_ensures(SourceSettings::set_property, (s, p, value, default_path), ()),
        call_ensures(SourceSettings::property, (&*final(s), p), r),
        call_ensures(SourceSettings::property, (&*old(s), q), before),
        call_ensures(SourceSettings::property, (&*final(s), q), after),
    ensures
        match (p, value) {
            (SourceProperty::ShmPath, PropertyValue::Text(Some(t))) => r matches
                PropertyValue::Text(Some(u)) && u@ == t@,
            (SourceProperty::ShmPath, PropertyValue::Text(None)) => r matches PropertyValue::Text(
                Some(u),
            ) && u@ == default_path@,
            (SourceProperty::ShmPath, _) => *final(s) == *old(s),
            (_, PropertyValue::Flag(b)) => r == PropertyValue::Flag(b),
            _ => *final(s) == *old(s),
        },
        q is ShmPath ==> (before matches PropertyValue::Text(Some(a)) && after matches
            PropertyValue::Text(Some(b)) && a@ == b@),
        q !is ShmPath ==> before == after,
{
}

/// A new source uses the platform's path, is not live, and has both policies on.
pub proof fn law_new_source_has_its_defaults(default_path: &str, s: SourceSettings)
    requires
        call_ensures(SourceSettings::new, (default_path,), s),
    ensures
        s.shm_path@ == default_path@,
        !s.is_live,
        s.live_only && s.latest_only,
{
}

/// Each flag of the settings is told under its own property.
pub proof fn law_flags_are_told_under_their_names(
    s: &SourceSettings,
    live: PropertyValue,
    live_only: PropertyValue,
    latest_only: PropertyValue,
)
    requires
        call_ensures(SourceSettings::property, (s, SourceProperty::IsLive), live),
        call_ensures(SourceSettings::property, (s, SourceProperty::LiveOnly), live_only),
        call_ensures(SourceSettings::property, (s, SourceProperty::LatestOnly), latest_only),
    ensures
        live == PropertyValue::Flag(s.is_live),
        live_only == PropertyValue::Flag(s.live_only),
        latest_only == PropertyValue::Flag(s.latest_only),
{
}

/// A property is found by the name under which it is shown, and no name finds two.
pub proof fn law_shown_property_is_found(
    p: SourceProperty,
    shown: PropertySpec,
    r: Option<SourceProperty>,
)
    requires
        call_ensures(SourceProperty::describe, (p,), shown),
        call_ensures(SourceProperty::named, (shown.name,), r),
    ensures
        r == Some(p),
        match p {
            SourceProperty::ShmPath => shown.name@ == "shm-path"@ && shown.kind is Path,
            SourceProperty::IsLive => shown.name@ == "is-live"@ && shown.kind
                == PropertyKind::Flag(false),
            SourceProperty::LiveOnly => shown.name@ == "live-only"@ && shown.kind
                == PropertyKind::Flag(true),
            SourceProperty::LatestOnly => shown.name@ == "latest-only"@ && shown.kind
                == PropertyKind::Flag(true),
        },
{
    reveal_strlit("shm-path");
    reveal_strlit("is-live");
    reveal_strlit("live-only");
    reveal_strlit("latest-only");
}

/// Every property is shown, and none is shown twice.
pub proof fn law_every_property_is_shown_once(r: Vec<SourceProperty>, p: SourceProperty)
    requires
        call_ensures(properties, (), r),
    ensures
        r@.contains(p),
        r@.no_duplicates(),
{
    assert(r@[0] == SourceProperty::ShmPath && r@[1] == SourceProperty::IsLive);
    assert(r@[2] == SourceProperty::LiveOnly && r@[3] == SourceProperty::LatestOnly);
}

} // verus!
