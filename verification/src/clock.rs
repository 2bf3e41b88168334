//! Points in time and their written form.
//!
//! The time of the last synchronization is kept as text in the form of
//! RFC 3339, in UTC. The clock itself is read by the caller, who hands the
//! reading over as seconds and nanoseconds since the Unix epoch.

use vstd::prelude::*;

verus! {

/// Seconds from the Unix epoch to 0000-01-01T00:00:00Z.
pub const EARLIEST_SECOND: i64 = -62_167_219_200;

/// Seconds from the Unix epoch to 9999-12-31T23:59:59Z.
pub const LATEST_SECOND: i64 = 253_402_300_799;

/// Nanoseconds in one second.
pub const NANOSECONDS_PER_SECOND: u32 = 1_000_000_000;

/// Whether a reading of the clock falls in a year that RFC 3339 can write,
/// that is a year of four digits, and is no leap second.
pub open spec fn representable(seconds: int, nanoseconds: int) -> bool {
    &&& EARLIEST_SECOND <= seconds <= LATEST_SECOND
    &&& 0 <= nanoseconds < NANOSECONDS_PER_SECOND
}

/// The RFC 3339 text, in UTC, of the instant that lies the given seconds and
/// nanoseconds after the Unix epoch.
pub uninterp spec fn rfc3339_text(seconds: int, nanoseconds: int) -> Seq<char>;

/// Mathematical model of an [`Instant`].
pub struct InstantView {
    pub seconds: int,
    pub nanoseconds: int,
}

/// A reading of the clock that has a written form.
#[derive(Clone, Copy, Debug, PartialEq, Eq)]
pub struct Instant {
    seconds: i64,
    nanoseconds: u32,
}

impl View for Instant {
    type V = InstantView;

    closed spec fn view(&self) -> InstantView {
        InstantView { seconds: self.seconds as int, nanoseconds: self.nanoseconds as int }
    }
}

/// Writes an instant with `chrono`: `DateTime::<Utc>::from_timestamp` makes
/// the instant and `DateTime::to_rfc3339` formats it.
///
/// Two things are taken on trust. `from_timestamp` accepts every
/// representable reading: it refuses only days outside chrono's range of
/// years, which is far wider than four digits, and nanoseconds of a billion
/// or more. The text depends on the reading alone, so it gets a name.
#[verifier::external_body]
fn format_utc(seconds: i64, nanoseconds: u32) -> (text: Option<String>)
    ensures
        representable(seconds as int, nanoseconds as int) ==> text is Some,
        text matches Some(t) ==> t@ == rfc3339_text(seconds as int, nanoseconds as int),
{
    match chrono::DateTime::<chrono::Utc>::from_timestamp(seconds, nanoseconds) {
        Some(instant) => Some(instant.to_rfc3339()),
        None => None,
    }
}

impl Instant {
    #[verifier::type_invariant]
    spec fn in_range(self) -> bool {
        representable(self.seconds as int, self.nanoseconds as int)
    }

    /// The instant `seconds` and `nanoseconds` after the Unix epoch, if it
    /// has a written form.
    pub fn new(seconds: i64, nanoseconds: u32) -> (instant: Option<Instant>)
        ensures
            instant is Some <==> representable(seconds as int, nanoseconds as int),
            instant matches Some(i) ==> i@ == (InstantView {
                seconds: seconds as int,
                nanoseconds: nanoseconds as int,
            }),
    {
        if EARLIEST_SECOND <= seconds && seconds <= LATEST_SECOND && nanoseconds
            < NANOSECONDS_PER_SECOND {
            Some(Instant { seconds, nanoseconds })
        } else {
            None
        }
    }

    /// Whole seconds since the Unix epoch.
    pub fn seconds(&self) -> (seconds: i64)
        ensures
            seconds == self@.seconds,
    {
        self.seconds
    }

    /// Nanoseconds past the whole second.
    pub fn nanoseconds(&self) -> (nanoseconds: u32)
        ensures
            nanoseconds == self@.nanoseconds,
    {
        self.nanoseconds
    }

    /// The written form of the instant.
    pub fn to_rfc3339(&self) -> (text: String)
        ensures
            text@ == rfc3339_text(self@.seconds, self@.nanoseconds),
    {
        proof {
            use_type_invariant(self);
        }
        // An instant is representable, so chrono has a text for it.
        format_utc(self.seconds, self.nanoseconds).unwrap()
    }
}

} // verus!
