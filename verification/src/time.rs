//! Instants on the UTC time line, held as plain integers.

use vstd::prelude::*;

verus! {

/// An instant in UTC: whole seconds since the Unix epoch and the nanoseconds
/// within that second.
#[derive(Clone, Copy, Debug, PartialEq, Eq, Structural)]
pub struct Timestamp {
    pub secs: i64,
    pub nanos: u32,
}

impl Timestamp {
    /// `self` is strictly earlier than `other`.
    pub open spec fn is_before(self, other: Timestamp) -> bool {
        self.secs < other.secs || (self.secs == other.secs && self.nanos < other.nanos)
    }

    /// The later of two instants.
    pub open spec fn later_of(self, other: Timestamp) -> Timestamp {
        if self.is_before(other) {
            other
        } else {
            self
        }
    }

    /// Decides whether `self` is strictly earlier than `other`.
    pub fn before(&self, other: &Timestamp) -> (r: bool)
        ensures
            r == self.is_before(*other),
    {
        self.secs < other.secs || (self.secs == other.secs && self.nanos < other.nanos)
    }

    /// Returns the later of two instants; `self` where they are equal.
    pub fn later(self, other: Timestamp) -> (r: Timestamp)
        ensures
            r == self.later_of(other),
    {
        if self.before(&other) {
            other
        } else {
            self
        }
    }

    /// Writes the instant as RFC 3339 text; `None` where the calendar in use
    /// has no date for it.
    pub fn to_rfc3339(&self) -> (r: Option<String>)
        ensures
            r is Some == rfc3339_text(self.secs as int, self.nanos as int) is Some,
            r matches Some(s) ==> Some(s@) == rfc3339_text(self.secs as int, self.nanos as int),
    {
        format_rfc3339(self.secs, self.nanos)
    }
}

/// The RFC 3339 text that chrono writes for the instant `secs` seconds and
/// `nanos` nanoseconds after the Unix epoch, or `None` where chrono has no
/// date for that instant.
pub uninterp spec fn rfc3339_text(secs: int, nanos: int) -> Option<Seq<char>>;

/// Calls `chrono::Utc::now` and takes the instant apart with
/// `DateTime::timestamp` and `DateTime::timestamp_subsec_nanos`. Nothing is
/// claimed of the instant that comes back. chrono stops the program if the
/// machine's clock stands before the Unix epoch.
#[verifier::external_body]
pub(crate) fn now() -> (r: Timestamp) {
    let t = chrono::Utc::now();
    Timestamp { secs: t.timestamp(), nanos: t.timestamp_subsec_nanos() }
}

/// Builds the instant with `chrono::DateTime::from_timestamp` and writes it
/// with `DateTime::to_rfc3339`. The contract only names what comes back: the
/// text depends on the two integers alone, and is absent exactly where
/// `from_timestamp` has no date for them.
#[verifier::external_body]
fn format_rfc3339(secs: i64, nanos: u32) -> (r: Option<String>)
    ensures
        r is Some == rfc3339_text(secs as int, nanos as int) is Some,
        r matches Some(s) ==> Some(s@) == rfc3339_text(secs as int, nanos as int),
{
    match chrono::DateTime::from_timestamp(secs, nanos) {
        Some(t) => Some(t.to_rfc3339()),
        None => None,
    }
}

} // verus!
