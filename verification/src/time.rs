//! Points in time, in UTC.
use vstd::prelude::*;

verus! {

/// The first second that a timestamp can stand for.
pub const MIN_SECONDS: i64 = -8_334_601_228_800;

/// The last second that a timestamp can stand for.
pub const MAX_SECONDS: i64 = 8_210_266_876_799;

/// A point in time: whole seconds since the Unix epoch, and the nanoseconds
/// since that second.
#[derive(Clone, Copy, Debug, PartialEq, Eq, Structural)]
pub struct Timestamp {
    pub seconds: i64,
    pub nanos: u32,
}

impl DeepView for Timestamp {
    type V = Timestamp;

    open spec fn deep_view(&self) -> Timestamp {
        *self
    }
}

impl Timestamp {
    /// The timestamp lies in the calendar's range and its nanoseconds make less
    /// than a second.
    pub open spec fn valid(self) -> bool {
        &&& MIN_SECONDS <= self.seconds <= MAX_SECONDS
        &&& self.nanos < 1_000_000_000
    }

    /// Nanoseconds since the Unix epoch.
    pub open spec fn instant(self) -> int {
        self.seconds * 1_000_000_000 + self.nanos
    }

    /// Whether `self` lies before `other`.
    pub fn before(self, other: Timestamp) -> (r: bool)
        ensures
            r == (self.instant() < other.instant()),
    {
        self.as_nanos() < other.as_nanos()
    }

    /// Nanoseconds since the Unix epoch.
    pub fn as_nanos(self) -> (r: i128)
        ensures
            r == self.instant(),
            -10_000_000_000_000_000_000_000_000_000 < r < 10_000_000_000_000_000_000_000_000_000,
    {
        self.seconds as i128 * 1_000_000_000 + self.nanos as i128
    }

    /// Whole minutes from `earlier` to `self`, cut off toward zero.
    pub fn minutes_since(self, earlier: Timestamp) -> (r: i128)
        ensures
            r == minutes_between(earlier, self),
    {
        let elapsed: i128 = self.as_nanos() - earlier.as_nanos();
        if elapsed >= 0 {
            elapsed / 60_000_000_000
        } else {
            -((-elapsed) / 60_000_000_000)
        }
    }
}

/// Whole minutes from `earlier` to `later`, cut off toward zero; negative where
/// `later` in fact comes first.
pub open spec fn minutes_between(earlier: Timestamp, later: Timestamp) -> int {
    let elapsed = later.instant() - earlier.instant();
    if elapsed >= 0 {
        elapsed / 60_000_000_000
    } else {
        -((-elapsed) / 60_000_000_000)
    }
}

/// The text of `chrono::DateTime<Utc>`'s `Display` for a second and its
/// nanoseconds.
pub uninterp spec fn display_text(seconds: i64, nanos: u32) -> Seq<char>;

/// The text of `chrono::DateTime<Utc>::to_rfc3339` for a second and its
/// nanoseconds.
pub uninterp spec fn rfc3339_text(seconds: i64, nanos: u32) -> Seq<char>;

/// `chrono::DateTime::<Utc>::from_timestamp` and `Display`: the calendar text of
/// a timestamp, named and not spelled out here. Inside the calendar's range, and
/// with less than a second of nanoseconds, `from_timestamp` returns a date.
#[verifier::external_body]
pub(crate) fn timestamp_display(t: Timestamp) -> (r: String)
    requires
        t.valid(),
    ensures
        r@ == display_text(t.seconds, t.nanos),
{
    chrono::DateTime::<chrono::Utc>::from_timestamp(t.seconds, t.nanos).unwrap().to_string()
}

/// `chrono::DateTime::<Utc>::from_timestamp` and `to_rfc3339`: the RFC 3339 text
/// of a timestamp, named and not spelled out here. Inside the calendar's range,
/// and with less than a second of nanoseconds, `from_timestamp` returns a date.
#[verifier::external_body]
pub(crate) fn timestamp_rfc3339(t: Timestamp) -> (r: String)
    requires
        t.valid(),
    ensures
        r@ == rfc3339_text(t.seconds, t.nanos),
{
    chrono::DateTime::<chrono::Utc>::from_timestamp(t.seconds, t.nanos).unwrap().to_rfc3339()
}

/// Time never runs backwards: the later of two instants is not fewer minutes
/// away from a given start.
pub proof fn minutes_grow_with_time(start: Timestamp, a: Timestamp, b: Timestamp)
    requires
        a.instant() <= b.instant(),
    ensures
        minutes_between(start, a) <= minutes_between(start, b),
{
    let x = a.instant() - start.instant();
    let y = b.instant() - start.instant();
    if x >= 0 {
        assert(x / 60_000_000_000 <= y / 60_000_000_000) by (nonlinear_arith)
            requires
                0 <= x <= y,
        ;
    } else if y < 0 {
        assert((-y) / 60_000_000_000 <= (-x) / 60_000_000_000) by (nonlinear_arith)
            requires
                0 <= -y <= -x,
        ;
    }
}

/// Minutes are whole ones: as many as lie between two instants, in either
/// direction, and less than one more.
pub proof fn minutes_are_whole(earlier: Timestamp, later: Timestamp)
    ensures
        ({
            let elapsed = later.instant() - earlier.instant();
            let minutes = minutes_between(earlier, later);
            &&& elapsed >= 0 ==> minutes * 60_000_000_000 <= elapsed < (minutes + 1)
                * 60_000_000_000
            &&& elapsed <= 0 ==> (minutes - 1) * 60_000_000_000 < elapsed <= minutes
                * 60_000_000_000
        }),
        later.instant() == later.seconds * 1_000_000_000 + later.nanos,
{
}

} // verus!
