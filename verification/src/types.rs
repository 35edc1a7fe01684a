//! The record that a fetched page is reduced to.

use crate::named::Named;
use vstd::prelude::*;

verus! {

/// The text that an instant is written as: date, time of day with its
/// fraction, and `UTC`.
pub uninterp spec fn instant_text(nanos: int) -> Seq<char>;

/// `chrono::Utc::now` reads the system clock, and
/// `DateTime::timestamp_nanos_opt` gives the instant as nanoseconds
/// since the Unix epoch, or `None` where that does not fit. `Utc::now`
/// panics where the system clock stands before the Unix epoch, so the
/// one claim made of the outcome is that a count is not negative.
#[verifier::external_body]
fn clock_nanos() -> (reading: Option<i64>)
    ensures
        reading matches Some(nanos) ==> nanos >= 0,
{
    chrono::Utc::now().timestamp_nanos_opt()
}

/// `chrono::DateTime::from_timestamp_nanos` never fails, and the
/// `Display` of a `DateTime<Utc>` depends on the instant alone.
#[verifier::external_body]
fn render_nanos(nanos: i64) -> (text: String)
    ensures
        text@ == instant_text(nanos as int),
{
    chrono::DateTime::from_timestamp_nanos(nanos).to_string()
}

/// An instant, in nanoseconds since the Unix epoch.
#[derive(Clone, Copy, Debug, PartialEq, Eq)]
pub struct Timestamp {
    pub nanos: i64,
}

impl Timestamp {
    /// The instant that a reading of the clock stands for: the count of
    /// nanoseconds where there is one, and the last instant that can be
    /// counted where the clock is past it.
    pub fn from_reading(reading: Option<i64>) -> (instant: Timestamp)
        ensures
            instant.nanos == match reading {
                Some(nanos) => nanos,
                None => i64::MAX,
            },
    {
        match reading {
            Some(nanos) => Timestamp { nanos },
            None => Timestamp { nanos: i64::MAX },
        }
    }

    /// The present instant by the system clock, which is never before
    /// the Unix epoch. An instant too late to be counted in nanoseconds
    /// is given as the last one that can.
    pub fn now() -> (instant: Timestamp)
        ensures
            instant.nanos >= 0,
    {
        Timestamp::from_reading(clock_nanos())
    }

    /// The instant as text.
    pub fn render(&self) -> (text: String)
        ensures
            text@ == instant_text(self.nanos as int),
    {
        render_nanos(self.nanos)
    }
}

/// Named values read off a page.
#[derive(Clone, Debug)]
pub struct Metadata {
    values: Named<String>,
}

impl View for Metadata {
    type V = Map<Seq<char>, Seq<char>>;

    closed spec fn view(&self) -> Map<Seq<char>, Seq<char>> {
        self.values@.map_values(|value: String| value@)
    }
}

impl Metadata {
    /// No values at all.
    pub fn new() -> (metadata: Metadata)
        ensures
            metadata@ == Map::<Seq<char>, Seq<char>>::empty(),
    {
        let metadata = Metadata { values: Named::new() };
        proof {
            assert(metadata@ =~= Map::<Seq<char>, Seq<char>>::empty());
        }
        metadata
    }

    /// The value named `name`, if there is one.
    pub fn get(&self, name: &str) -> (value: Option<&String>)
        ensures
            match value {
                Some(v) => self@.contains_key(name@) && self@[name@] == v@,
                None => !self@.contains_key(name@),
            },
    {
        self.values.get(name)
    }

    /// Gives `name` the value `value`, in place of the value it had, if
    /// any.
    pub fn insert(&mut self, name: String, value: String)
        ensures
            final(self)@ == old(self)@.insert(name@, value@),
    {
        let ghost before = self.values@;
        self.values.insert(name, value);
        proof {
            assert(before.insert(name@, value).map_values(|v: String| v@) =~= before.map_values(
                |v: String| v@,
            ).insert(name@, value@));
        }
    }

    /// How many names have a value.
    pub fn len(&self) -> (n: usize)
        ensures
            n == self@.len(),
            self@.dom().finite(),
    {
        let n = self.values.len();
        proof {
            assert(self@.dom() =~= self.values@.dom());
        }
        n
    }

    /// Whether no name has a value.
    pub fn is_empty(&self) -> (b: bool)
        ensures
            b == (self@ == Map::<Seq<char>, Seq<char>>::empty()),
    {
        let n = self.values.len();
        proof {
            assert(self@.dom() =~= self.values@.dom());
            if n == 0 {
                assert(self@.dom() =~= Set::<Seq<char>>::empty());
                assert(self@ =~= Map::<Seq<char>, Seq<char>>::empty());
            } else {
                assert(self@.dom().len() > 0);
            }
        }
        n == 0
    }
}

/// A fetched page, reduced to text.
#[derive(Clone, Debug)]
pub struct ScrapedContent {
    /// Where the page was fetched from.
    pub url: String,
    /// The cleaned text of the page.
    pub content: String,
    /// The named values read off the page.
    pub metadata: Metadata,
    /// When the page was read.
    pub timestamp: Timestamp,
}

} // verus!
