//! The sink's properties and settings.

use crate::element::{PropertyKind, PropertySpec, PropertyValue};
use crate::text::{chars_of, is_text};
use crate::transport::header::TransportConfig;
use vstd::prelude::*;

verus! {

/// What a user can set on the sink.
#[derive(Debug)]
pub struct SinkSettings {
    pub shm_path: String,
    pub shm_size: u64,
    pub perms: u32,
    pub timeline_beacon_ms: u32,
}

/// The properties of the sink.
#[derive(Debug, Clone, Copy, PartialEq, Eq, Structural)]
pub enum SinkProperty {
    ShmPath,
    ShmSize,
    Perms,
    TimelineBeaconMs,
}

impl SinkProperty {
    /// The property's name.
    pub open spec fn key(self) -> Seq<char> {
        match self {
            SinkProperty::ShmPath => "shm-path"@,
            SinkProperty::ShmSize => "shm-size"@,
            SinkProperty::Perms => "perms"@,
            SinkProperty::TimelineBeaconMs => "timeline-beacon-ms"@,
        }
    }

    /// The values that the property takes.
    pub open spec fn kind(self) -> PropertyKind {
        match self {
            SinkProperty::ShmPath => PropertyKind::Path,
            SinkProperty::ShmSize => PropertyKind::Long(0x400_0000),
            SinkProperty::Perms => PropertyKind::Number {
                default: 0o660,
                minimum: 0,
                maximum: 0o7777,
            },
            SinkProperty::TimelineBeaconMs => PropertyKind::Number {
                default: 250,
                minimum: 1,
                maximum: 60_000,
            },
        }
    }

    /// The property of that name.
    pub fn named(name: &str) -> (r: Option<SinkProperty>)
        ensures
            match r {
                Some(p) => p.key() == name@,
                None => forall|p: SinkProperty| #![trigger p.key()] p.key() != name@,
            },
            name@ == "shm-path"@ ==> r == Some(SinkProperty::ShmPath),
            name@ == "shm-size"@ ==> r == Some(SinkProperty::ShmSize),
            name@ == "perms"@ ==> r == Some(SinkProperty::Perms),
            name@ == "timeline-beacon-ms"@ ==> r == Some(SinkProperty::TimelineBeaconMs),
    {
        proof {
            reveal_strlit("shm-path");
            reveal_strlit("shm-size");
            reveal_strlit("perms");
            reveal_strlit("timeline-beacon-ms");
            assert("shm-path"@.len() == 8);
            assert("shm-size"@.len() == 8);
            assert("perms"@.len() == 5);
            assert("timeline-beacon-ms"@.len() == 18);
            assert("shm-path"@[4] != "shm-size"@[4]);
        }
        let name: Vec<char> = chars_of(name);
        if is_text(name.as_slice(), "shm-path") {
            Some(SinkProperty::ShmPath)
        } else if is_text(name.as_slice(), "shm-size") {
            Some(SinkProperty::ShmSize)
        } else if is_text(name.as_slice(), "perms") {
            Some(SinkProperty::Perms)
        } else if is_text(name.as_slice(), "timeline-beacon-ms") {
            Some(SinkProperty::TimelineBeaconMs)
        } else {
            None
        }
    }

    /// The property as it is shown to users.
    pub fn describe(self) -> (r: PropertySpec)
        ensures
            r.name@ == self.key(),
            r.kind == self.kind(),
            match self {
                SinkProperty::ShmPath => r.nick@ == "SHM path"@ && r.blurb@
                    == "Path of shared memory file"@,
                SinkProperty::ShmSize => r.nick@ == "SHM size"@ && r.blurb@
                    == "Size of shared memory region"@,
                SinkProperty::Perms => r.nick@ == "Permissions"@ && r.blurb@
                    == "Permissions of shared memory file"@,
                SinkProperty::TimelineBeaconMs => r.nick@ == "Timeline beacon"@ && r.blurb@
                    == "Timeline synchronization beacon period in milliseconds"@,
            },
    {
        match self {
            SinkProperty::ShmPath => PropertySpec {
                name: "shm-path",
                nick: "SHM path",
                blurb: "Path of shared memory file",
                kind: PropertyKind::Path,
            },
            SinkProperty::ShmSize => PropertySpec {
                name: "shm-size",
                nick: "SHM size",
                blurb: "Size of shared memory region",
                kind: PropertyKind::Long(64 * 1024 * 1024),
            },
            SinkProperty::Perms => PropertySpec {
                name: "perms",
                nick: "Permissions",
                blurb: "Permissions of shared memory file",
                kind: PropertyKind::Number { default: 0o660, minimum: 0, maximum: 0o7777 },
            },
            SinkProperty::TimelineBeaconMs => PropertySpec {
                name: "timeline-beacon-ms",
                nick: "Timeline beacon",
                blurb: "Timeline synchronization beacon period in milliseconds",
                kind: PropertyKind::Number { default: 250, minimum: 1, maximum: 60_000 },
            },
        }
    }
}

/// All properties, in the order in which they are shown.
pub fn properties() -> (r: Vec<SinkProperty>)
    ensures
        r@ == seq![
            SinkProperty::ShmPath,
            SinkProperty::ShmSize,
            SinkProperty::Perms,
            SinkProperty::TimelineBeaconMs,
        ],
{
    let mut all: Vec<SinkProperty> = Vec::new();
    all.push(SinkProperty::ShmPath);
    all.push(SinkProperty::ShmSize);
    all.push(SinkProperty::Perms);
    all.push(SinkProperty::TimelineBeaconMs);
    all
}

impl SinkSettings {
    /// The settings that a sink starts with, on a platform with this path.
    pub fn new(default_path: &str) -> (r: SinkSettings)
        ensures
            forall|p: SinkProperty| #[trigger]
                r.value(p).is_default(p.kind(), default_path@),
            r.shm_path@ == default_path@,
            r.shm_size == 0x400_0000 && r.perms == 0o660 && r.timeline_beacon_ms == 250,
    {
        SinkSettings {
            shm_path: default_path.to_owned(),
            shm_size: 64 * 1024 * 1024,
            perms: 0o660,
            timeline_beacon_ms: 250,
        }
    }

    /// The value of a property.
    pub open spec fn value(self, p: SinkProperty) -> PropertyValue {
        match p {
            SinkProperty::ShmPath => PropertyValue::Text(Some(self.shm_path)),
            SinkProperty::ShmSize => PropertyValue::Long(self.shm_size),
            SinkProperty::Perms => PropertyValue::Number(self.perms),
            SinkProperty::TimelineBeaconMs => PropertyValue::Number(self.timeline_beacon_ms),
        }
    }

    /// The settings after a property was set; a value of the wrong type changes nothing,
    /// and the beacon's period is at least 1.
    pub open spec fn with(self, p: SinkProperty, value: PropertyValue) -> SinkSettings {
        match (p, value) {
            (SinkProperty::ShmSize, PropertyValue::Long(v)) => SinkSettings { shm_size: v, ..self },
            (SinkProperty::Perms, PropertyValue::Number(v)) => SinkSettings { perms: v, ..self },
            (SinkProperty::TimelineBeaconMs, PropertyValue::Number(v)) => SinkSettings {
                timeline_beacon_ms: if v == 0 {
                    1
                } else {
                    v
                },
                ..self
            },
            _ => self,
        }
    }

    /// Sets a property. A path that is unset becomes the platform's own.
    pub fn set_property(&mut self, p: SinkProperty, value: PropertyValue, default_path: &str)
        ensures
            if p is ShmPath && value is Text {
                &&& value.path(default_path@) == Some(final(self).shm_path@)
                &&& *final(self) == (SinkSettings { shm_path: final(self).shm_path, ..*old(self) })
            } else {
                *final(self) == old(self).with(p, value)
            },
    {
        match p {
            SinkProperty::ShmPath => {
                if let Some(path) = value.into_path(default_path) {
                    self.shm_path = path;
                }
            },
            SinkProperty::ShmSize => {
                if let PropertyValue::Long(v) = value {
                    self.shm_size = v;
                }
            },
            SinkProperty::Perms => {
                if let PropertyValue::Number(v) = value {
                    self.perms = v;
                }
            },
            SinkProperty::TimelineBeaconMs => {
                if let PropertyValue::Number(v) = value {
                    self.timeline_beacon_ms = if v == 0 {
                        1
                    } else {
                        v
                    };
                }
            },
        }
    }

    /// Tells a property.
    pub fn property(&self, p: SinkProperty) -> (r: PropertyValue)
        ensures
            if p is ShmPath {
                r matches PropertyValue::Text(Some(s)) && s@ == self.shm_path@
            } else {
                r == self.value(p)
            },
    {
        match p {
            SinkProperty::ShmPath => PropertyValue::Text(Some(self.shm_path.clone())),
            SinkProperty::ShmSize => PropertyValue::Long(self.shm_size),
            SinkProperty::Perms => PropertyValue::Number(self.perms),
            SinkProperty::TimelineBeaconMs => PropertyValue::Number(self.timeline_beacon_ms),
        }
    }

    /// What the sink asks of its region.
    pub open spec fn asks(self) -> TransportConfig {
        TransportConfig {
            total_size: self.shm_size as usize,
            ready_capacity: 4096,
            recycle_capacity: 4096,
            perms: self.perms,
            wait_for_connection: true,
            drop_when_no_consumer: false,
            allocator_align: 64,
            timeline_beacon_ms: self.timeline_beacon_ms,
        }
    }

    /// What to ask of the region.
    pub fn transport_config(&self) -> (r: TransportConfig)
        ensures
            r == self.asks(),
    {
        let mut cfg: TransportConfig = TransportConfig::default();
        cfg.total_size = self.shm_size as usize;
        cfg.perms = self.perms;
        cfg.timeline_beacon_ms = self.timeline_beacon_ms;
        cfg
    }
}

/// A property that was set to a value of its own type, and within its bounds, is told as
/// it was set, and setting it changes no other.
pub proof fn law_set_property_is_told(
    s: SinkSettings,
    p: SinkProperty,
    q: SinkProperty,
    v: PropertyValue,
)
    requires
        match p.kind() {
            PropertyKind::Path => false,
            PropertyKind::Long(_) => v is Long,
            PropertyKind::Number { minimum, maximum, .. } => v matches PropertyValue::Number(n)
                && minimum <= n <= maximum,
            PropertyKind::Flag(_) => v is Flag,
        },
    ensures
        s.with(p, v).value(p) == v,
        q != p ==> s.with(p, v).value(q) == s.value(q),
{
}

/// A property that is told after it was set is the value that was set, where that is of the
/// property's own type: a path that is unset is the platform's own, and a beacon's period of
/// 0 is 1. A value of another type changes nothing, and no value changes another property.
pub proof fn law_property_reads_back(
    s: &mut SinkSettings,
    p: SinkProperty,
    value: PropertyValue,
    default_path: &str,
    r: PropertyValue,
    q: SinkProperty,
    before: PropertyValue,
    after: PropertyValue,
)
    requires
        q != p,
        call_ensures(SinkSettings::set_property, (s, p, value, default_path), ()),
        call_ensures(SinkSettings::property, (&*final(s), p), r),
        call_ensures(SinkSettings::property, (&*old(s), q), before),
        call_ensures(SinkSettings::property, (&*final(s), q), after),
    ensures
        match (p, value) {
            (SinkProperty::ShmPath, PropertyValue::Text(Some(t))) => r matches PropertyValue::Text(
                Some(u),
            ) && u@ == t@,
            (SinkProperty::ShmPath, PropertyValue::Text(None)) => r matches PropertyValue::Text(
                Some(u),
            ) && u@ == default_path@,
            (SinkProperty::ShmSize, PropertyValue::Long(n)) => r == PropertyValue::Long(n),
            (SinkProperty::Perms, PropertyValue::Number(n)) => r == PropertyValue::Number(n),
            (SinkProperty::TimelineBeaconMs, PropertyValue::Number(n)) => r matches
                PropertyValue::Number(m) && m == if n == 0 {
                1
            } else {
                n
            },
            _ => *final(s) == *old(s),
        },
        q is ShmPath ==> (before matches PropertyValue::Text(Some(a)) && after matches
            PropertyValue::Text(Some(b)) && a@ == b@),
        q !is ShmPath ==> before == after,
{
}

/// A new sink uses the platform's path, 64 MiB, the permissions 0660 and a beacon every
/// 250 ms.
pub proof fn law_new_sink_has_its_defaults(default_path: &str, s: SinkSettings)
    requires
        call_ensures(SinkSettings::new, (default_path,), s),
    ensures
        s.shm_path@ == default_path@,
        s.shm_size == 67_108_864,
        s.perms == 0o660,
        s.timeline_beacon_ms == 250,
{
}

/// A property is found by the name under which it is shown, and no name finds two.
pub proof fn law_shown_property_is_found(
    p: SinkProperty,
    shown: PropertySpec,
    r: Option<SinkProperty>,
)
    requires
        call_ensures(SinkProperty::describe, (p,), shown),
        call_ensures(SinkProperty::named, (shown.name,), r),
    ensures
        r == Some(p),
        match p {
            SinkProperty::ShmPath => shown.name@ == "shm-path"@ && shown.kind is Path,
            SinkProperty::ShmSize => shown.name@ == "shm-size"@ && shown.kind
                == PropertyKind::Long(67_108_864),
            SinkProperty::Perms => shown.name@ == "perms"@ && shown.kind == (
            PropertyKind::Number { default: 0o660, minimum: 0, maximum: 0o7777 }),
            SinkProperty::TimelineBeaconMs => shown.name@ == "timeline-beacon-ms"@ && shown.kind
                == (PropertyKind::Number { default: 250, minimum: 1, maximum: 60_000 }),
        },
{
    reveal_strlit("shm-path");
    reveal_strlit("shm-size");
    reveal_strlit("perms");
    reveal_strlit("timeline-beacon-ms");
    assert("shm-path"@[4] != "shm-size"@[4]);
}

/// The region is asked for with the size, the permissions and the beacon's period that were
/// set, and with rings of 4096 entries and blocks at multiples of 64.
pub proof fn law_region_is_asked_for_as_set(s: &SinkSettings, r: TransportConfig)
    requires
        call_ensures(SinkSettings::transport_config, (s,), r),
        s.shm_size <= usize::MAX,
    ensures
        r.total_size == s.shm_size,
        r.perms == s.perms,
        r.timeline_beacon_ms == s.timeline_beacon_ms,
        r.ready_capacity == 4096 && r.recycle_capacity == 4096,
        r.allocator_align == 64,
{
}

/// Every property is shown, and none is shown twice.
pub proof fn law_every_property_is_shown_once(r: Vec<SinkProperty>, p: SinkProperty)
    requires
        call_ensures(properties, (), r),
    ensures
        r@.contains(p),
        r@.no_duplicates(),
{
    assert(r@[0] == SinkProperty::ShmPath && r@[1] == SinkProperty::ShmSize);
    assert(r@[2] == SinkProperty::Perms && r@[3] == SinkProperty::TimelineBeaconMs);
}

/// A sink whose settings were not touched asks for the region that is the default.
pub proof fn law_untouched_sink_asks_for_the_default(
    default_path: &str,
    s: SinkSettings,
    r: TransportConfig,
    d: TransportConfig,
)
    requires
        call_ensures(SinkSettings::new, (default_path,), s),
        call_ensures(SinkSettings::transport_config, (&s,), r),
        call_ensures(TransportConfig::default, (), d),
    ensures
        r == d,
        d.total_size == 64 * 1024 * 1024 && d.perms == 0o660 && d.timeline_beacon_ms == 250,
        d.ready_capacity == 4096 && d.recycle_capacity == 4096 && d.allocator_align == 64,
        d.wait_for_connection && !d.drop_when_no_consumer,
{
}

/// A property that is set is what the region is asked for with: the size, the permissions and
/// the beacon's period each by the property of that name.
pub proof fn law_set_property_reaches_the_region(
    s: &mut SinkSettings,
    p: SinkProperty,
    value: PropertyValue,
    default_path: &str,
    r: TransportConfig,
    before: TransportConfig,
)
    requires
        call_ensures(SinkSettings::set_property, (s, p, value, default_path), ()),
        call_ensures(SinkSettings::transport_config, (&*old(s),), before),
        call_ensures(SinkSettings::transport_config, (&*final(s),), r),
    ensures
        match (p, value) {
            (SinkProperty::ShmSize, PropertyValue::Long(n)) => (n <= usize::MAX ==> r.total_size
                == n) && r == (TransportConfig { total_size: r.total_size, ..before }),
            (SinkProperty::Perms, PropertyValue::Number(n)) => r == (TransportConfig {
                perms: n,
                ..before
            }),
            (SinkProperty::TimelineBeaconMs, PropertyValue::Number(n)) => n > 0 ==> r == (
            TransportConfig { timeline_beacon_ms: n, ..before }),
            _ => r == before,
        },
{
}

} // verus!
