//! Points in time as whole seconds and nanoseconds since the Unix epoch, within
//! the range that chrono's `DateTime<Utc>` can represent.

use vstd::prelude::*;

verus! {

/// Earliest second that chrono represents (the first of January of year -262143).
pub const MIN_SECS: i64 = -8334601315200;

/// Last second that chrono represents (the thirty-first of December of year 262142).
pub const MAX_SECS: i64 = 8210266876799;

pub const NANOS_PER_SEC: u32 = 1_000_000_000;

/// The RFC 3339 text that chrono gives for the instant `secs` seconds and
/// `nanos` nanoseconds after the Unix epoch, in UTC.
pub uninterp spec fn rfc3339_text(secs: int, nanos: int) -> Seq<char>;

/// True when a (seconds, nanoseconds) pair is an instant that chrono represents,
/// leap seconds left aside.
pub open spec fn in_range(t: (int, int)) -> bool {
    MIN_SECS <= t.0 <= MAX_SECS && 0 <= t.1 < NANOS_PER_SEC
}

/// Strict order of instants: earlier seconds first, then earlier nanoseconds.
pub open spec fn earlier(a: (int, int), b: (int, int)) -> bool {
    a.0 < b.0 || (a.0 == b.0 && a.1 < b.1)
}

/// Milliseconds since the epoch, rounded down.
pub open spec fn millis_of(t: (int, int)) -> int {
    t.0 * 1000 + t.1 / 1_000_000
}

#[verifier::external_type_specification]
#[verifier::external_body]
pub struct ExSystemTime(std::time::SystemTime);

/// Relies on std's `SystemTime::now`: the system clock's current reading.
#[verifier::external_body]
fn system_now() -> (r: std::time::SystemTime) {
    std::time::SystemTime::now()
}

/// Relies on std's `SystemTime::duration_since` from `UNIX_EPOCH`, which returns
/// the distance after the epoch (`Ok`) or, through `SystemTimeError::duration`,
/// the distance before it (`Err`, reported as `true`); `Duration::subsec_nanos`
/// is below one billion.
#[verifier::external_body]
fn since_epoch(t: &std::time::SystemTime) -> (r: (bool, u64, u32))
    ensures
        r.2 < NANOS_PER_SEC,
{
    match t.duration_since(std::time::UNIX_EPOCH) {
        Ok(d) => (false, d.as_secs(), d.subsec_nanos()),
        Err(e) => (true, e.duration().as_secs(), e.duration().subsec_nanos()),
    }
}

/// Relies on chrono's `DateTime::from_timestamp` (which accepts every instant in
/// range) and `DateTime::to_rfc3339`: the text depends on the instant alone.
#[verifier::external_body]
fn rfc3339(secs: i64, nanos: u32) -> (r: String)
    requires
        in_range((secs as int, nanos as int)),
    ensures
        r@ == rfc3339_text(secs as int, nanos as int),
{
    chrono::DateTime::from_timestamp(secs, nanos).map(|t| t.to_rfc3339()).unwrap_or_default()
}

/// An instant in UTC, as seconds and nanoseconds since the Unix epoch.
#[derive(Clone, Copy, PartialEq, Eq, Structural, Debug)]
pub struct Timestamp {
    secs: i64,
    nanos: u32,
}

impl View for Timestamp {
    type V = (int, int);

    closed spec fn view(&self) -> (int, int) {
        (self.secs as int, self.nanos as int)
    }
}

impl Timestamp {
    #[verifier::type_invariant]
    spec fn inv(self) -> bool {
        in_range(self@)
    }

    /// The instant `secs` seconds and `nanos` nanoseconds after the epoch, or
    /// `None` when chrono cannot represent it.
    pub fn from_parts(secs: i64, nanos: u32) -> (r: Option<Timestamp>)
        ensures
            r is Some <==> in_range((secs as int, nanos as int)),
            r matches Some(t) ==> t@ == (secs as int, nanos as int),
    {
        if MIN_SECS <= secs && secs <= MAX_SECS && nanos < NANOS_PER_SEC {
            Some(Timestamp { secs, nanos })
        } else {
            None
        }
    }

    /// The current time of the system clock. A reading outside chrono's range
    /// is clamped to the nearest end of it, as `from_epoch_distance` states.
    pub fn now() -> (r: Timestamp) {
        let reading = system_now();
        let (before, secs, nanos) = since_epoch(&reading);
        Timestamp::from_epoch_distance(before, secs, nanos)
    }

    /// The instant `secs` seconds and `nanos` nanoseconds after the epoch, or
    /// before it when `before` holds. An instant earlier than chrono's range
    /// gives its first instant; one later gives its last.
    pub fn from_epoch_distance(before: bool, secs: u64, nanos: u32) -> (r: Timestamp)
        requires
            nanos < NANOS_PER_SEC,
        ensures
            !before && secs <= MAX_SECS ==> r@ == (secs as int, nanos as int),
            !before && secs > MAX_SECS ==> r@ == (MAX_SECS as int, NANOS_PER_SEC - 1),
            before && nanos == 0 && secs <= -MIN_SECS ==> r@ == (-secs, 0int),
            before && nanos > 0 && secs + 1 <= -MIN_SECS ==> r@ == (-secs - 1, NANOS_PER_SEC
                - nanos),
            before && (nanos == 0 && secs > -MIN_SECS || nanos > 0 && secs + 1 > -MIN_SECS)
                ==> r@ == (MIN_SECS as int, 0int),
    {
        if !before {
            if secs <= MAX_SECS as u64 {
                Timestamp { secs: secs as i64, nanos }
            } else {
                Timestamp { secs: MAX_SECS, nanos: NANOS_PER_SEC - 1 }
            }
        } else if nanos == 0 {
            if secs <= (0 - MIN_SECS) as u64 {
                Timestamp { secs: 0 - secs as i64, nanos: 0 }
            } else {
                Timestamp { secs: MIN_SECS, nanos: 0 }
            }
        } else if secs < (0 - MIN_SECS) as u64 {
            Timestamp { secs: 0 - secs as i64 - 1, nanos: NANOS_PER_SEC - nanos }
        } else {
            Timestamp { secs: MIN_SECS, nanos: 0 }
        }
    }

    pub fn secs(&self) -> (r: i64)
        ensures
            r == self@.0,
    {
        self.secs
    }

    pub fn subsec_nanos(&self) -> (r: u32)
        ensures
            r == self@.1,
    {
        self.nanos
    }

    /// Milliseconds since the epoch, rounded down.
    pub fn timestamp_millis(&self) -> (r: i64)
        ensures
            r == millis_of(self@),
            r > i64::MIN,
    {
        proof {
            use_type_invariant(self);
        }
        self.secs * 1000 + (self.nanos / 1_000_000) as i64
    }

    /// The RFC 3339 form of this instant.
    pub fn to_rfc3339(&self) -> (r: String)
        ensures
            r@ == rfc3339_text(self@.0, self@.1),
    {
        proof {
            use_type_invariant(self);
        }
        rfc3339(self.secs, self.nanos)
    }

    /// True when this instant comes strictly before `other`.
    pub fn is_before(&self, other: &Timestamp) -> (r: bool)
        ensures
            r == earlier(self@, other@),
    {
        self.secs < other.secs || (self.secs == other.secs && self.nanos < other.nanos)
    }
}

} // verus!
