//! Moments in time and their text form.

use vstd::prelude::*;
use crate::text;

verus! {

/// The first second that a date can name.
pub const FIRST_SECOND: i64 = -8_334_601_228_800;

/// The last second that a date can name.
pub const LAST_SECOND: i64 = 8_210_266_876_799;

/// The first second of the years that are written with four digits.
pub const FIRST_DATED: i64 = -62_167_219_200;

/// The last second of the years that are written with four digits.
pub const LAST_DATED: i64 = 253_402_300_799;

/// How long a driver holds an execution before the hold must be renewed.
pub const LEASE_SECS: i64 = 300;

/// A moment: seconds since the Unix epoch, and nanoseconds after that second.
#[derive(Debug, Clone, Copy, PartialEq, Eq)]
pub struct Instant {
    pub secs: i64,
    pub nanos: u32,
}

/// The text that `to_rfc3339` of chrono writes for a moment.
pub uninterp spec fn rfc3339(secs: i64, nanos: u32) -> Seq<char>;

/// The moment that `parse_from_rfc3339` of chrono reads in a text, if any.
pub uninterp spec fn rfc3339_parse(s: Seq<char>) -> Option<(i64, u32)>;

impl Instant {
    /// Whether a date can name the moment. Nanoseconds past a full second stand
    /// for a leap second, which comes only at the end of a minute.
    pub open spec fn valid(self) -> bool {
        &&& FIRST_SECOND <= self.secs <= LAST_SECOND
        &&& self.nanos < 1_000_000_000 || (self.nanos < 2_000_000_000 && self.secs as int % 60 == 59)
    }

    /// Whether the moment, and the end of a lease that begins at it, have a text.
    pub open spec fn usable(self) -> bool {
        FIRST_SECOND <= self.secs <= LAST_SECOND - LEASE_SECS && self.nanos < 1_000_000_000
    }

    /// Whether the moment lies in a year of four digits.
    pub open spec fn dated(self) -> bool {
        FIRST_DATED <= self.secs <= LAST_DATED && self.nanos < 1_000_000_000
    }

    /// Whether the moment comes before another.
    pub open spec fn earlier(self, t: Instant) -> bool {
        self.secs < t.secs || (self.secs == t.secs && self.nanos < t.nanos)
    }

    /// Whether a text of the moment stands before the texts of exactly the moments
    /// that come after it, in years of four digits.
    pub open spec fn sorts_as(self, s: Seq<char>) -> bool {
        forall|t: Instant|
            self.dated() && t.dated() ==> (text::lex_lt(s, #[trigger] rfc3339(t.secs, t.nanos))
                <==> self.earlier(t))
    }

    /// The text of the moment.
    pub open spec fn words(self) -> Seq<char> {
        rfc3339(self.secs, self.nanos)
    }

    /// The moment a lease ends that begins at this one.
    pub open spec fn lease_end(self) -> Instant {
        Instant { secs: (self.secs + LEASE_SECS) as i64, nanos: self.nanos }
    }

    /// `secs` as a signed number of 64 bits.
    pub open spec fn signed(secs: u64) -> int {
        if secs <= i64::MAX {
            secs as int
        } else {
            secs - 0x1_0000_0000_0000_0000
        }
    }

    /// Whether the moment `secs` after this one has a text.
    pub open spec fn reaches(self, secs: u64) -> bool {
        FIRST_SECOND <= self.secs + Instant::signed(secs) <= LAST_SECOND
    }

    /// The moment `secs` after this one.
    pub open spec fn after(self, secs: u64) -> Instant {
        Instant { secs: (self.secs + Instant::signed(secs)) as i64, nanos: self.nanos }
    }

    /// See `signed`.
    fn as_signed(secs: u64) -> (r: i64)
        ensures
            r == Instant::signed(secs),
    {
        if secs <= i64::MAX as u64 {
            secs as i64
        } else {
            let back: i64 = (u64::MAX - secs) as i64;
            -1 - back
        }
    }

    /// Whether the moment `secs` after this one has a text.
    pub fn can_reach(&self, secs: u64) -> (r: bool)
        requires
            self.usable(),
        ensures
            r == self.reaches(secs),
    {
        let delta: i64 = Instant::as_signed(secs);
        FIRST_SECOND - self.secs <= delta && delta <= LAST_SECOND - self.secs
    }

    /// The text of the moment `secs` after this one.
    pub(crate) fn text_after(&self, secs: u64) -> (r: String)
        requires
            self.usable(),
            self.reaches(secs),
        ensures
            r@ == self.after(secs).words(),
            self.after(secs).sorts_as(r@),
    {
        let delta: i64 = Instant::as_signed(secs);
        instant_text(self.secs + delta, self.nanos)
    }

    /// The text of the moment.
    pub fn to_text(&self) -> (r: String)
        requires
            self.valid(),
        ensures
            r@ == self.words(),
            self.sorts_as(r@),
    {
        instant_text(self.secs, self.nanos)
    }
}

/// `chrono::DateTime::from_timestamp` and `to_rfc3339`: the text of a moment that
/// a date can name. What the text is, is named. In years of four digits its fields
/// have fixed widths, the largest first, and a fraction is left out or ends in the
/// last group of three digits that is not nought; so texts stand in the order of the
/// moments.
#[verifier::external_body]
fn instant_text(secs: i64, nanos: u32) -> (r: String)
    requires
        (Instant { secs, nanos }).valid(),
    ensures
        r@ == rfc3339(secs, nanos),
        (Instant { secs, nanos }).sorts_as(r@),
{
    chrono::DateTime::from_timestamp(secs, nanos).expect("a moment in range").to_rfc3339()
}

/// `chrono::DateTime::parse_from_rfc3339`: the moment, with its offset taken
/// away, where the text is accepted. What is read is named, and a date can name
/// it.
#[verifier::external_body]
fn parse_instant(s: &str) -> (r: Option<(i64, u32)>)
    ensures
        r == rfc3339_parse(s@),
        r matches Some(p) ==> (Instant { secs: p.0, nanos: p.1 }).valid(),
{
    chrono::DateTime::parse_from_rfc3339(s).ok().map(|t| (t.timestamp(), t.timestamp_subsec_nanos()))
}

/// The text of a moment, brought to UTC; a text that is no moment as it is.
pub open spec fn in_utc(s: Seq<char>) -> Seq<char> {
    match rfc3339_parse(s) {
        Some((secs, nanos)) => rfc3339(secs, nanos),
        None => s,
    }
}

/// See `in_utc`.
pub fn to_utc(s: &str) -> (r: String)
    ensures
        r@ == in_utc(s@),
        rfc3339_parse(s@) matches Some(p) ==> (Instant { secs: p.0, nanos: p.1 }).sorts_as(r@),
{
    match parse_instant(s) {
        Some((secs, nanos)) => instant_text(secs, nanos),
        None => s.to_string(),
    }
}

} // verus!
