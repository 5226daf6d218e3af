//! The device link: the values that cross the serial line and the rules that
//! apply to them.

use crate::text::chars_of;
use vstd::prelude::*;
use vstd::string::*;

pub mod protocol;
pub mod thread;
pub mod upload;

verus! {

/// The largest raw reading of a sensor plus one: readings are ten bits wide.
pub const RANGE_LIMIT: u16 = 1024;

/// Whether the name `a` comes strictly before the name `b`: names are
/// compared character by character, and a name comes before each of its
/// extensions.
pub open spec fn name_precedes(a: Seq<char>, b: Seq<char>) -> bool
    decreases a.len(),
{
    if b.len() == 0 {
        false
    } else if a.len() == 0 {
        true
    } else if a[0] != b[0] {
        (a[0] as u32) < (b[0] as u32)
    } else {
        name_precedes(a.drop_first(), b.drop_first())
    }
}

/// No name comes before itself.
pub proof fn lemma_name_precedes_irreflexive(a: Seq<char>)
    ensures
        !name_precedes(a, a),
    decreases a.len(),
{
    if a.len() > 0 {
        lemma_name_precedes_irreflexive(a.drop_first());
    }
}

/// Of two different names one comes before the other.
pub proof fn lemma_name_precedes_total(a: Seq<char>, b: Seq<char>)
    ensures
        name_precedes(a, b) || name_precedes(b, a) || a == b,
    decreases a.len(),
{
    if a.len() == 0 || b.len() == 0 {
        if a.len() == 0 && b.len() == 0 {
            assert(a =~= b);
        }
    } else if a[0] == b[0] {
        lemma_name_precedes_total(a.drop_first(), b.drop_first());
        if a.drop_first() == b.drop_first() {
            assert(a =~= seq![a[0]] + a.drop_first());
            assert(b =~= seq![b[0]] + b.drop_first());
        }
    } else {
        vstd::utf8::char_u32_cast(a[0], a[0] as u32);
        vstd::utf8::char_u32_cast(b[0], b[0] as u32);
    }
}

/// The order of names is transitive.
pub proof fn lemma_name_precedes_transitive(a: Seq<char>, b: Seq<char>, c: Seq<char>)
    requires
        name_precedes(a, b),
        name_precedes(b, c),
    ensures
        name_precedes(a, c),
    decreases a.len(),
{
    if a.len() > 0 && a[0] == b[0] && b[0] == c[0] {
        lemma_name_precedes_transitive(a.drop_first(), b.drop_first(), c.drop_first());
    }
}

/// A serial port, known by its name.
#[derive(Debug, Eq, PartialOrd, Ord, Hash)]
pub struct Port {
    name: String,
}

impl View for Port {
    type V = Seq<char>;

    closed spec fn view(&self) -> Seq<char> {
        self.name@
    }
}

impl PartialEq for Port {
    fn eq(&self, other: &Port) -> (same: bool) {
        self.name == other.name
    }
}

impl vstd::std_specs::cmp::PartialEqSpecImpl for Port {
    open spec fn obeys_eq_spec() -> bool {
        true
    }

    open spec fn eq_spec(&self, other: &Port) -> bool {
        self@ == other@
    }
}

impl Clone for Port {
    fn clone(&self) -> (copy: Port)
        ensures
            copy@ == self@,
    {
        Port { name: self.name.clone() }
    }
}

impl Port {
    pub fn new(name: &str) -> (port: Port)
        ensures
            port@ == name@,
    {
        Port { name: name.to_owned() }
    }

    pub fn name(&self) -> (name: &str)
        ensures
            name@ == self@,
    {
        self.name.as_str()
    }

    /// Whether this port comes strictly before the other in the order of
    /// their names.
    pub fn precedes(&self, other: &Port) -> (result: bool)
        ensures
            result == name_precedes(self@, other@),
    {
        let a = chars_of(self.name.as_str());
        let b = chars_of(other.name.as_str());
        let mut i: usize = 0;
        assert(a@.skip(0) =~= a@ && b@.skip(0) =~= b@);
        loop
            invariant
                i <= a.len(),
                i <= b.len(),
                a@ == self@,
                b@ == other@,
                name_precedes(a@, b@) == name_precedes(a@.skip(i as int), b@.skip(i as int)),
            decreases a.len() - i,
        {
            if i == b.len() {
                return false;
            }
            if i == a.len() {
                return true;
            }
            if a[i] != b[i] {
                return (a[i] as u32) < (b[i] as u32);
            }
            proof {
                assert(a@.skip(i as int).drop_first() =~= a@.skip(i + 1));
                assert(b@.skip(i as int).drop_first() =~= b@.skip(i + 1));
            }
            i += 1;
        }
    }
}

/// The names of a list of ports.
pub open spec fn port_names(ports: Seq<Port>) -> Seq<Seq<char>> {
    Seq::new(ports.len(), |i: int| ports[i]@)
}

/// A transition that a sensor reports, without a timestamp.
#[derive(Clone, Copy, Debug, PartialEq, Eq, Structural)]
pub enum Event {
    SensorFlexed(u8),
    SensorExtended(u8),
}

/// The error kinds that the device reports, in the order of their ordinals.
#[derive(Clone, Copy, Debug, PartialEq, Eq, Structural)]
pub enum ResponseCode {
    JsonParse,
    JsonAlloc,
    RequestTooLong,
    UnknownCommand,
    BufferTooSmall,
    InvalidParam,
}

impl ResponseCode {
    /// The ordinal under which the device reports this code.
    pub open spec fn ordinal(self) -> int {
        match self {
            ResponseCode::JsonParse => 0,
            ResponseCode::JsonAlloc => 1,
            ResponseCode::RequestTooLong => 2,
            ResponseCode::UnknownCommand => 3,
            ResponseCode::BufferTooSmall => 4,
            ResponseCode::InvalidParam => 5,
        }
    }

    /// The code with the given ordinal, if there is one.
    pub open spec fn with_ordinal(ordinal: int) -> Option<ResponseCode> {
        if ordinal == 0 {
            Some(ResponseCode::JsonParse)
        } else if ordinal == 1 {
            Some(ResponseCode::JsonAlloc)
        } else if ordinal == 2 {
            Some(ResponseCode::RequestTooLong)
        } else if ordinal == 3 {
            Some(ResponseCode::UnknownCommand)
        } else if ordinal == 4 {
            Some(ResponseCode::BufferTooSmall)
        } else if ordinal == 5 {
            Some(ResponseCode::InvalidParam)
        } else {
            None
        }
    }

    /// What the code means, in words.
    pub open spec fn message_text(self) -> Seq<char> {
        match self {
            ResponseCode::JsonParse => "Could not parse the request"@,
            ResponseCode::JsonAlloc => "JSON buffer is full"@,
            ResponseCode::RequestTooLong => "Request too long"@,
            ResponseCode::UnknownCommand => "Unknown command"@,
            ResponseCode::BufferTooSmall => "Response buffer too small"@,
            ResponseCode::InvalidParam => "Illegal parameter"@,
        }
    }

    /// What the code means, in words.
    pub fn message(&self) -> (text: &'static str)
        ensures
            text@ == self.message_text(),
    {
        match self {
            ResponseCode::JsonParse => "Could not parse the request",
            ResponseCode::JsonAlloc => "JSON buffer is full",
            ResponseCode::RequestTooLong => "Request too long",
            ResponseCode::UnknownCommand => "Unknown command",
            ResponseCode::BufferTooSmall => "Response buffer too small",
            ResponseCode::InvalidParam => "Illegal parameter",
        }
    }

    /// The code with the given ordinal; an ordinal that no code has is refused.
    pub fn from_code(code: u64) -> (result: Option<ResponseCode>)
        ensures
            result == Self::with_ordinal(code as int),
            result is Some <==> code < 6,
            result matches Some(found) ==> found.ordinal() == code,
    {
        if code == 0 {
            Some(ResponseCode::JsonParse)
        } else if code == 1 {
            Some(ResponseCode::JsonAlloc)
        } else if code == 2 {
            Some(ResponseCode::RequestTooLong)
        } else if code == 3 {
            Some(ResponseCode::UnknownCommand)
        } else if code == 4 {
            Some(ResponseCode::BufferTooSmall)
        } else if code == 5 {
            Some(ResponseCode::InvalidParam)
        } else {
            None
        }
    }
}

/// What a device says of itself: its name, the version of its firmware and
/// the time at which the firmware was built, in seconds since 1970. A device
/// runs the firmware that the host expects where all three agree.
#[derive(Debug, PartialEq, Eq)]
pub struct DeviceInfo {
    name: String,
    version: String,
    timestamp: i64,
}

/// A [`DeviceInfo`] as plain values.
pub struct DeviceInfoModel {
    pub name: Seq<char>,
    pub version: Seq<char>,
    pub timestamp: i64,
}

impl View for DeviceInfo {
    type V = DeviceInfoModel;

    closed spec fn view(&self) -> DeviceInfoModel {
        DeviceInfoModel { name: self.name@, version: self.version@, timestamp: self.timestamp }
    }
}

impl DeviceInfo {
    pub fn new(name: &str, version: &str, timestamp: i64) -> (info: DeviceInfo)
        ensures
            info@ == (DeviceInfoModel { name: name@, version: version@, timestamp }),
    {
        DeviceInfo { name: name.to_owned(), version: version.to_owned(), timestamp }
    }

    pub fn name(&self) -> (name: &str)
        ensures
            name@ == self@.name,
    {
        self.name.as_str()
    }

    pub fn version(&self) -> (version: &str)
        ensures
            version@ == self@.version,
    {
        self.version.as_str()
    }

    pub fn timestamp(&self) -> (timestamp: i64)
        ensures
            timestamp == self@.timestamp,
    {
        self.timestamp
    }

    /// Whether two devices say the same of themselves.
    pub fn matches(&self, other: &DeviceInfo) -> (same: bool)
        ensures
            same == (self@ == other@),
    {
        self.name == other.name && self.version == other.version && self.timestamp
            == other.timestamp
    }
}

/// The calibration of one sensor: the raw range that it is read in and the
/// two thresholds between which it changes state.
#[derive(Clone, Copy, Debug, PartialEq, Eq, Structural)]
pub struct SensorConfig {
    min: u16,
    max: u16,
    low: u8,
    high: u8,
}

impl SensorConfig {
    /// The range as `(min, max)`.
    pub closed spec fn spec_range(&self) -> (u16, u16) {
        (self.min, self.max)
    }

    /// The thresholds as `(low, high)`.
    pub closed spec fn spec_thresholds(&self) -> (u8, u8) {
        (self.low, self.high)
    }

    #[verifier::type_invariant]
    spec fn sound(self) -> bool {
        self.wf()
    }

    /// What holds of every configuration: the range is not empty and lies
    /// below the limit, and the thresholds are apart.
    pub open spec fn wf(self) -> bool {
        &&& self.spec_range().0 < self.spec_range().1
        &&& self.spec_range().1 < RANGE_LIMIT
        &&& self.spec_thresholds().0 < self.spec_thresholds().1
    }

    /// The configuration with the given range and the widest thresholds.
    pub closed spec fn made(min: u16, max: u16) -> SensorConfig {
        SensorConfig { min, max, low: u8::MIN, high: u8::MAX }
    }

    /// This configuration with other thresholds.
    pub closed spec fn reset(self, low: u8, high: u8) -> SensorConfig {
        SensorConfig { min: self.min, max: self.max, low, high }
    }

    /// Whether a range and a pair of thresholds make a configuration.
    pub open spec fn admits(min: u16, max: u16, low: u8, high: u8) -> bool {
        min < max && max < RANGE_LIMIT && low < high
    }

    /// A configuration with the given range and the widest thresholds.
    pub fn new(min: u16, max: u16) -> (config: SensorConfig)
        requires
            min < max,
            max < RANGE_LIMIT,
        ensures
            config == Self::made(min, max),
            config.wf(),
            config.spec_range() == (min, max),
            config.spec_thresholds() == (u8::MIN, u8::MAX),
    {
        SensorConfig { min, max, low: u8::MIN, high: u8::MAX }
    }

    /// The configuration with the given range and thresholds, if they make one.
    pub fn checked(min: u16, max: u16, low: u8, high: u8) -> (result: Option<SensorConfig>)
        ensures
            result is Some <==> Self::admits(min, max, low, high),
            result matches Some(config) ==> {
                &&& config == Self::made(min, max).reset(low, high)
                &&& config.wf()
                &&& config.spec_range() == (min, max)
                &&& config.spec_thresholds() == (low, high)
            },
    {
        if min < max && max < RANGE_LIMIT && low < high {
            Some(SensorConfig { min, max, low, high })
        } else {
            None
        }
    }

    #[verifier::when_used_as_spec(spec_range)]
    pub fn range(&self) -> (range: (u16, u16))
        ensures
            range == self.spec_range(),
            self.wf(),
    {
        proof {
            use_type_invariant(self);
        }
        (self.min, self.max)
    }

    #[verifier::when_used_as_spec(spec_thresholds)]
    pub fn thresholds(&self) -> (thresholds: (u8, u8))
        ensures
            thresholds == self.spec_thresholds(),
            self.wf(),
    {
        proof {
            use_type_invariant(self);
        }
        (self.low, self.high)
    }

    /// The configuration with other thresholds and the same range, if the
    /// thresholds are apart.
    pub fn with_thresholds(&self, low: u8, high: u8) -> (result: Option<SensorConfig>)
        ensures
            result is Some <==> low < high,
            result matches Some(config) ==> {
                &&& config == self.reset(low, high)
                &&& config.wf()
                &&& config.spec_range() == self.spec_range()
                &&& config.spec_thresholds() == (low, high)
            },
    {
        proof {
            use_type_invariant(self);
        }
        if low < high {
            Some(SensorConfig { min: self.min, max: self.max, low, high })
        } else {
            None
        }
    }

    /// Replaces the thresholds and leaves the range as it is.
    pub fn set_thresholds(&mut self, low: u8, high: u8)
        requires
            low < high,
        ensures
            *final(self) == old(self).reset(low, high),
            final(self).wf(),
            final(self).spec_range() == old(self).spec_range(),
            final(self).spec_thresholds() == (low, high),
    {
        proof {
            use_type_invariant(&*self);
        }
        *self = SensorConfig { min: self.min, max: self.max, low, high };
    }
}

/// A configuration is valid when it is made, for every range that is not
/// empty and lies below the limit; and a valid configuration stays valid,
/// with its range as it was, whenever it gets thresholds that are apart. No
/// other configuration is handed out or comes of a change of thresholds.
pub proof fn lemma_sensor_config_valid(
    config: SensorConfig,
    min: u16,
    max: u16,
    low: u8,
    high: u8,
)
    ensures
        min < max && max < RANGE_LIMIT ==> {
            &&& SensorConfig::made(min, max).wf()
            &&& SensorConfig::made(min, max).spec_range() == (min, max)
            &&& SensorConfig::made(min, max).spec_thresholds() == (u8::MIN, u8::MAX)
        },
        config.wf() && low < high ==> {
            &&& config.reset(low, high).wf()
            &&& config.reset(low, high).spec_range() == config.spec_range()
            &&& config.reset(low, high).spec_thresholds() == (low, high)
        },
        SensorConfig::made(min, max).reset(low, high).wf() <==> SensorConfig::admits(
            min,
            max,
            low,
            high,
        ),
{
}

} // verus!
