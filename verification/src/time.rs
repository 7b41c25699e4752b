//! Instants in Coordinated Universal Time, kept and formatted by the `chrono`
//! crate.

use crate::cbor::{text, ToCbor, Token};
use vstd::prelude::*;

verus! {

/// The first second that `chrono` can represent, counted from 1970.
pub const MIN_SECONDS: i64 = -8_334_601_228_800;

/// The last second that `chrono` can represent, counted from 1970.
pub const MAX_SECONDS: i64 = 8_210_266_876_799;

/// Whether a count of seconds since 1970 and of nanoseconds within the second
/// is an instant. More than a second's worth of nanoseconds stands for a leap
/// second, which only the last second of a minute can have.
pub open spec fn is_instant(seconds: int, nanos: int) -> bool {
    &&& MIN_SECONDS <= seconds <= MAX_SECONDS
    &&& 0 <= nanos < 2_000_000_000
    &&& nanos >= 1_000_000_000 ==> seconds % 60 == 59
}

/// The RFC 3339 text of an instant, as `chrono` serializes it.
pub uninterp spec fn rfc3339(seconds: int, nanos: int) -> Seq<char>;

/// The leap second to be counted between two instants: one that was under way
/// at the instant with the smaller second of the day.
pub open spec fn leap_adjustment(seconds: int, nanos: int, from_seconds: int, from_nanos: int) -> int {
    if seconds % 86_400 > from_seconds % 86_400 && from_nanos >= 1_000_000_000 {
        1
    } else if seconds % 86_400 < from_seconds % 86_400 && nanos >= 1_000_000_000 {
        -1
    } else {
        0
    }
}

/// The whole seconds from one instant to another, rounded toward zero.
pub open spec fn elapsed_seconds(
    seconds: int,
    nanos: int,
    from_seconds: int,
    from_nanos: int,
) -> int {
    let adjustment = leap_adjustment(seconds, nanos, from_seconds, from_nanos);
    let elapsed = (seconds - from_seconds + adjustment) * 1_000_000_000 + (nanos - from_nanos);
    if elapsed >= 0 {
        elapsed / 1_000_000_000
    } else {
        -((-elapsed) / 1_000_000_000)
    }
}

/// `chrono::Utc::now`: the seconds and nanoseconds of the current time, which
/// is not before 1970 and not a leap second.
#[verifier::external_body]
fn utc_now() -> (r: (i64, u32))
    ensures
        0 <= r.0 <= MAX_SECONDS,
        r.1 < 1_000_000_000,
{
    let now = chrono::Utc::now();
    (now.timestamp(), now.timestamp_subsec_nanos())
}

/// `chrono::DateTime::to_rfc3339_opts` with as many fractional digits as the
/// instant needs and `Z` for the offset: the text that `chrono` serializes an
/// instant as.
#[verifier::external_body]
fn format_rfc3339(seconds: i64, nanos: u32) -> (r: String)
    requires
        is_instant(seconds as int, nanos as int),
    ensures
        r@ == rfc3339(seconds as int, nanos as int),
{
    chrono::DateTime::from_timestamp(seconds, nanos).expect("an instant in range").to_rfc3339_opts(
        chrono::SecondsFormat::AutoSi,
        true,
    )
}

/// The difference of two `chrono::DateTime`s, in whole seconds
/// (`TimeDelta::num_seconds`).
#[verifier::external_body]
fn difference_in_seconds(seconds: i64, nanos: u32, from_seconds: i64, from_nanos: u32) -> (r: i64)
    requires
        is_instant(seconds as int, nanos as int),
        is_instant(from_seconds as int, from_nanos as int),
    ensures
        r == elapsed_seconds(
            seconds as int,
            nanos as int,
            from_seconds as int,
            from_nanos as int,
        ),
{
    let to = chrono::DateTime::from_timestamp(seconds, nanos).expect("an instant in range");
    let from = chrono::DateTime::from_timestamp(from_seconds, from_nanos).expect("an instant in range");
    (to - from).num_seconds()
}

/// An instant in Coordinated Universal Time.
#[derive(Clone, Copy, Debug, PartialEq, Eq, Hash, Structural)]
pub struct Timestamp {
    seconds: i64,
    nanos: u32,
}

impl Timestamp {
    #[verifier::type_invariant]
    spec fn inv(self) -> bool {
        is_instant(self.seconds as int, self.nanos as int)
    }

    /// The whole seconds since 1970.
    pub closed spec fn secs(self) -> int {
        self.seconds as int
    }

    /// The nanoseconds within the second.
    pub closed spec fn subsec(self) -> int {
        self.nanos as int
    }

    /// Whether this instant comes after `other`.
    pub open spec fn is_after(self, other: Timestamp) -> bool {
        self.secs() > other.secs() || (self.secs() == other.secs() && self.subsec()
            > other.subsec())
    }

    /// Whether the clock can show this instant: it is not before 1970 and not a
    /// leap second.
    pub open spec fn is_clock_time(self) -> bool {
        0 <= self.secs() && self.subsec() < 1_000_000_000
    }

    /// The whole seconds that have passed since `from`, negative if it comes
    /// later.
    pub open spec fn elapsed_since(self, from: Timestamp) -> int {
        elapsed_seconds(self.secs(), self.subsec(), from.secs(), from.subsec())
    }

    /// The instant with the given seconds since 1970 and nanoseconds, if there
    /// is one.
    pub fn new(seconds: i64, nanos: u32) -> (r: Option<Timestamp>)
        ensures
            match r {
                Some(t) => t.secs() == seconds && t.subsec() == nanos && is_instant(
                    seconds as int,
                    nanos as int,
                ),
                None => !is_instant(seconds as int, nanos as int),
            },
    {
        if seconds < MIN_SECONDS || seconds > MAX_SECONDS || nanos >= 2_000_000_000 {
            None
        } else if nanos >= 1_000_000_000 {
            // A multiple of 60 that makes the seconds positive.
            let shifted: u64 = (seconds + 8_334_601_228_800) as u64;
            if shifted % 60 != 59 {
                None
            } else {
                Some(Timestamp { seconds, nanos })
            }
        } else {
            Some(Timestamp { seconds, nanos })
        }
    }

    /// The current time.
    pub fn now() -> (r: Timestamp)
        ensures
            r.is_clock_time(),
    {
        let (seconds, nanos) = utc_now();
        Timestamp { seconds, nanos }
    }

    /// The whole seconds since 1970.
    pub fn seconds(&self) -> (r: i64)
        ensures
            r == self.secs(),
    {
        self.seconds
    }

    /// The nanoseconds within the second.
    pub fn nanos(&self) -> (r: u32)
        ensures
            r == self.subsec(),
    {
        self.nanos
    }

    /// Whether this instant comes after `other`.
    pub fn after(&self, other: &Timestamp) -> (r: bool)
        ensures
            r == self.is_after(*other),
    {
        self.seconds > other.seconds || (self.seconds == other.seconds && self.nanos > other.nanos)
    }

    /// The whole seconds that have passed since `from`, negative if it comes
    /// later.
    pub fn seconds_since(&self, from: &Timestamp) -> (r: i64)
        ensures
            r == self.elapsed_since(*from),
    {
        proof {
            use_type_invariant(self);
            use_type_invariant(from);
        }
        difference_in_seconds(self.seconds, self.nanos, from.seconds, from.nanos)
    }
}

impl ToCbor for Timestamp {
    open spec fn tokens(&self) -> Seq<Token> {
        seq![Token::Text(rfc3339(self.secs(), self.subsec()))]
    }

    fn to_cbor(&self) -> (value: ciborium::Value) {
        proof {
            use_type_invariant(self);
        }
        let formatted = format_rfc3339(self.seconds, self.nanos);
        text(formatted.as_str())
    }
}

/// There is an instant that the clock can show.
pub proof fn lemma_clock_time_exists()
    ensures
        exists|t: Timestamp| t.is_clock_time(),
{
    let start = Timestamp { seconds: 0, nanos: 0 };
    assert(start.is_clock_time());
}

/// Of two instants that differ one is after the other, and what is after an instant
/// is after all that the instant is after.
pub proof fn law_instants_are_ordered(a: Timestamp, b: Timestamp, c: Timestamp)
    ensures
        a.secs() > b.secs() ==> a.is_after(b),
        a.secs() == b.secs() ==> (a.is_after(b) <==> a.subsec() > b.subsec()),
        !(a.is_after(b) && b.is_after(a)),
        a != b ==> a.is_after(b) || b.is_after(a),
        a.is_after(b) && b.is_after(c) ==> a.is_after(c),
{
    if a.secs() == b.secs() && a.subsec() == b.subsec() {
        law_instant_is_its_parts(a, b);
    }
}

/// The seconds from an instant to one that is not before it are the whole seconds
/// that fit in between, where neither is a leap second. Counted the other way round
/// they are negative.
pub proof fn law_elapsed_seconds(from: Timestamp, to: Timestamp)
    requires
        0 <= from.subsec() < 1_000_000_000,
        0 <= to.subsec() < 1_000_000_000,
        !from.is_after(to),
    ensures
        ({
            let span = (to.secs() - from.secs()) * 1_000_000_000 + to.subsec() - from.subsec();
            let n = to.elapsed_since(from);
            n * 1_000_000_000 <= span < (n + 1) * 1_000_000_000
        }),
        from.elapsed_since(to) == -to.elapsed_since(from),
        to.subsec() == from.subsec() ==> to.elapsed_since(from) == to.secs() - from.secs(),
{
}

/// An instant is given by its seconds and nanoseconds: two with the same ones are
/// the same.
pub proof fn law_instant_is_its_parts(a: Timestamp, b: Timestamp)
    requires
        a.secs() == b.secs(),
        a.subsec() == b.subsec(),
    ensures
        a == b,
{
}

} // verus!
