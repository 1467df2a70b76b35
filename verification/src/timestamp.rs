//! Points in time as the cache writes them: a count of nanoseconds that is
//! rendered and read back through the `time` crate.

use vstd::prelude::*;

verus! {

/// The pattern that a point in time is rendered with.
pub const TIMESTAMP_FORMAT: &'static str = "%FT%T.%N";

/// The pattern that a rendered point in time, followed by `UTC_SUFFIX`, is
/// read back with.
pub const TIMESTAMP_PARSE_FORMAT: &'static str = "%FT%T.%N%z";

/// The offset that is appended to a rendered point in time before it is read
/// back.
pub const UTC_SUFFIX: &'static str = "+0000";

/// The first representable instant: the start of the year 0000, in
/// nanoseconds since the Unix epoch.
pub const MIN_NANOS: i128 = -62_167_219_200_000_000_000;

/// The last representable instant: the end of the year 9999, in nanoseconds
/// since the Unix epoch.
pub const MAX_NANOS: i128 = 253_402_300_799_999_999_999;

/// Nanoseconds in a millisecond.
pub const NANOS_PER_MILLI: i128 = 1_000_000;

/// What `time::OffsetDateTime::format` returns for the instant `nanos`
/// nanoseconds after the Unix epoch, in UTC, and the pattern `format`.
pub uninterp spec fn formatted(nanos: int, format: Seq<char>) -> Seq<char>;

/// What `time::OffsetDateTime::parse` returns for `text` and the pattern
/// `format`: the instant it reads, in nanoseconds since the Unix epoch, or
/// nothing where it reports an error.
pub uninterp spec fn parsed(text: Seq<char>, format: Seq<char>) -> Option<int>;

/// Calls `time::OffsetDateTime::now_utc` and hands back the instant as
/// nanoseconds since the Unix epoch. Nothing is claimed of the clock.
#[verifier::external_body]
fn clock_nanos() -> i128 {
    time::OffsetDateTime::now_utc().unix_timestamp_nanos()
}

/// Calls `time::OffsetDateTime::format` on the instant `nanos` nanoseconds
/// after the Unix epoch. The contract names the result; the instant is kept
/// to the years 0000 to 9999, which the crate can hold, and the pattern to
/// the one that the cache uses, which the crate accepts.
#[verifier::external_body]
fn format_nanos(nanos: i128, format: &str) -> (text: String)
    requires
        MIN_NANOS <= nanos <= MAX_NANOS,
        format@ == TIMESTAMP_FORMAT@,
    ensures
        text@ == formatted(nanos as int, format@),
{
    time::OffsetDateTime::from_unix_timestamp_nanos(nanos).format(format)
}

/// Whether `text` holds no sign behind a `T`: read as date, `T` and time of
/// day, it names no offset of its own.
pub open spec fn plain_time(text: Seq<char>) -> bool {
    forall|i: int, j: int|
        0 <= i < j < text.len() && text[i] == 'T' ==> text[j] != '+' && text[j] != '-'
}

/// Whether `text` is a text without offset of its own, followed by the zero
/// offset.
pub open spec fn in_utc(text: Seq<char>) -> bool {
    exists|inner: Seq<char>| plain_time(inner) && text == inner + UTC_SUFFIX@
}

/// Calls `time::OffsetDateTime::parse` and hands back the instant as
/// nanoseconds since the Unix epoch, or nothing where the crate reports an
/// error. The contract names the result. The pattern is kept to the one that
/// the cache uses, which the crate accepts. The text is kept to one whose
/// only offset is the zero offset at its end: the crate shifts the date it
/// has read by the offset, and panics where that leaves the dates it can
/// hold; by the zero offset it shifts nothing.
#[verifier::external_body]
fn parse_nanos(text: &str, format: &str) -> (nanos: Option<i128>)
    requires
        format@ == TIMESTAMP_PARSE_FORMAT@,
        in_utc(text@),
    ensures
        match nanos {
            Some(n) => parsed(text@, format@) == Some(n as int),
            None => parsed(text@, format@) is None,
        },
{
    match time::OffsetDateTime::parse(text, format) {
        Ok(instant) => Some(instant.unix_timestamp_nanos()),
        Err(_) => None,
    }
}

/// Whether `nanos` lies in the years 0000 to 9999.
pub open spec fn representable(nanos: int) -> bool {
    MIN_NANOS <= nanos <= MAX_NANOS
}

/// The instant that `text` renders, if it names no offset of its own and
/// renders an instant that is representable.
pub open spec fn read_back(text: Seq<char>) -> Option<int> {
    if plain_time(text) {
        match parsed(text + UTC_SUFFIX@, TIMESTAMP_PARSE_FORMAT@) {
            Some(nanos) => if representable(nanos) {
                Some(nanos)
            } else {
                None
            },
            None => None,
        }
    } else {
        None
    }
}

/// Checks that `text` holds no sign behind a `T`.
pub fn has_plain_time(text: &str) -> (plain: bool)
    ensures
        plain == plain_time(text@),
{
    let n = text.unicode_len();
    let mut seen: bool = false;
    let ghost mut first: int = 0;
    let mut k: usize = 0;
    while k < n
        invariant
            k <= n,
            n == text@.len(),
            seen ==> 0 <= first < k && text@[first] == 'T',
            !seen ==> forall|i: int| 0 <= i < k ==> text@[i] != 'T',
            forall|i: int, j: int|
                0 <= i < j < k && text@[i] == 'T' ==> text@[j] != '+' && text@[j] != '-',
        decreases n - k,
    {
        let c = text.get_char(k);
        if seen && (c == '+' || c == '-') {
            return false;
        }
        if c == 'T' && !seen {
            seen = true;
            proof {
                first = k as int;
            }
        }
        k = k + 1;
    }
    true
}

/// `text` between double quotes.
pub open spec fn quoted(text: Seq<char>) -> Seq<char> {
    seq!['"'] + text + seq!['"']
}

/// What stands between the double quotes of `text`, where it starts and ends
/// with one.
pub open spec fn unquoted(text: Seq<char>) -> Option<Seq<char>> {
    if text.len() >= 2 && text[0] == '"' && text.last() == '"' {
        Some(text.subrange(1, text.len() - 1))
    } else {
        None
    }
}

/// Taking the quotes off a quoted text gives the text back.
pub proof fn lemma_unquote_quoted(text: Seq<char>)
    ensures
        unquoted(quoted(text)) == Some(text),
{
    assert(quoted(text).subrange(1, quoted(text).len() - 1) =~= text);
}

/// The instant that the quoted text `text` holds: `text` is a double quote,
/// a rendered instant and a double quote.
pub open spec fn decoded(text: Seq<char>) -> Option<int> {
    match unquoted(text) {
        Some(inner) => read_back(inner),
        None => None,
    }
}

/// The quoted text of the instant `nanos`.
pub open spec fn encoded(nanos: int) -> Seq<char> {
    quoted(formatted(nanos, TIMESTAMP_FORMAT@))
}

/// Puts `text` between double quotes.
pub fn quote(text: &str) -> (out: String)
    ensures
        out@ == quoted(text@),
{
    proof {
        reveal_strlit("\"");
    }
    let out = String::from_str("\"").concat(text).concat("\"");
    proof {
        assert(out@ =~= quoted(text@));
    }
    out
}

/// Takes the double quotes off `text`, where it starts and ends with one.
pub fn unquote(text: &str) -> (inner: Option<&str>)
    ensures
        match inner {
            Some(t) => unquoted(text@) == Some(t@),
            None => unquoted(text@) is None,
        },
{
    let n = text.unicode_len();
    if n < 2 {
        return None;
    }
    if text.get_char(0) != '"' || text.get_char(n - 1) != '"' {
        return None;
    }
    Some(text.substring_char(1, n - 1))
}

/// The instant `millis` milliseconds after `nanos`, or the last representable
/// instant where that lies beyond it.
pub open spec fn later(nanos: int, millis: int) -> int {
    if nanos + millis * NANOS_PER_MILLI > MAX_NANOS {
        MAX_NANOS as int
    } else {
        nanos + millis * NANOS_PER_MILLI
    }
}

/// The instant `millis` milliseconds before `nanos`, or the first
/// representable instant where that lies before it.
pub open spec fn earlier(nanos: int, millis: int) -> int {
    if nanos - millis * NANOS_PER_MILLI < MIN_NANOS {
        MIN_NANOS as int
    } else {
        nanos - millis * NANOS_PER_MILLI
    }
}

/// A point in time between the years 0000 and 9999, with nanosecond
/// precision.
#[derive(Clone, Copy, Debug, PartialEq, Eq)]
pub struct FormattedDateTime {
    nanos: i128,
}

impl View for FormattedDateTime {
    type V = int;

    /// Nanoseconds since the Unix epoch.
    closed spec fn view(&self) -> int {
        self.nanos as int
    }
}

impl FormattedDateTime {
    #[verifier::type_invariant]
    spec fn in_range(&self) -> bool {
        representable(self.nanos as int)
    }

    /// The instant `nanos` nanoseconds after the Unix epoch, if it is
    /// representable.
    pub fn from_unix_nanos(nanos: i128) -> (instant: Option<Self>)
        ensures
            match instant {
                Some(t) => representable(nanos as int) && t@ == nanos,
                None => !representable(nanos as int),
            },
    {
        if MIN_NANOS <= nanos && nanos <= MAX_NANOS {
            Some(FormattedDateTime { nanos })
        } else {
            None
        }
    }

    /// The instant `nanos` nanoseconds after the Unix epoch, or the nearest
    /// representable one.
    pub fn clamped(nanos: i128) -> (instant: Self)
        ensures
            representable(instant@),
            representable(nanos as int) ==> instant@ == nanos,
            nanos < MIN_NANOS ==> instant@ == MIN_NANOS,
            nanos > MAX_NANOS ==> instant@ == MAX_NANOS,
    {
        if nanos < MIN_NANOS {
            FormattedDateTime { nanos: MIN_NANOS }
        } else if nanos > MAX_NANOS {
            FormattedDateTime { nanos: MAX_NANOS }
        } else {
            FormattedDateTime { nanos }
        }
    }

    /// The current time in UTC. Whatever the clock says, the result is
    /// representable.
    pub fn now() -> (instant: Self)
        ensures
            representable(instant@),
    {
        Self::clamped(clock_nanos())
    }

    /// Nanoseconds since the Unix epoch.
    pub fn unix_nanos(&self) -> (nanos: i128)
        ensures
            nanos == self@,
            representable(self@),
    {
        proof {
            use_type_invariant(self);
        }
        self.nanos
    }

    /// The instant `millis` milliseconds later, at most the last
    /// representable one.
    pub fn add_millis(&self, millis: u64) -> (instant: Self)
        ensures
            instant@ == later(self@, millis as int),
    {
        proof {
            use_type_invariant(self);
        }
        let delta: i128 = (millis as i128) * NANOS_PER_MILLI;
        Self::clamped(self.nanos + delta)
    }

    /// The instant `millis` milliseconds earlier, at least the first
    /// representable one.
    pub fn sub_millis(&self, millis: u64) -> (instant: Self)
        ensures
            instant@ == earlier(self@, millis as int),
    {
        proof {
            use_type_invariant(self);
        }
        let delta: i128 = (millis as i128) * NANOS_PER_MILLI;
        Self::clamped(self.nanos - delta)
    }

    /// Whether this instant lies before `other`.
    pub fn is_before(&self, other: &FormattedDateTime) -> (before: bool)
        ensures
            before == (self@ < other@),
    {
        self.nanos < other.nanos
    }

    /// The instant as text: date, `T`, time of day and nine digits of
    /// nanoseconds.
    pub fn format(&self) -> (text: String)
        ensures
            text@ == formatted(self@, TIMESTAMP_FORMAT@),
    {
        proof {
            use_type_invariant(self);
        }
        format_nanos(self.nanos, TIMESTAMP_FORMAT)
    }

    /// Reads an instant from its text.
    pub fn parse(text: &str) -> (instant: Option<Self>)
        ensures
            match instant {
                Some(t) => read_back(text@) == Some(t@),
                None => read_back(text@) is None,
            },
    {
        if !has_plain_time(text) {
            return None;
        }
        let with_offset = String::from_str(text).concat(UTC_SUFFIX);
        match parse_nanos(with_offset.as_str(), TIMESTAMP_PARSE_FORMAT) {
            Some(nanos) => Self::from_unix_nanos(nanos),
            None => None,
        }
    }

    /// The instant as the cache stores it: its text between double quotes.
    pub fn encode(&self) -> (text: String)
        ensures
            text@ == encoded(self@),
    {
        quote(self.format().as_str())
    }

    /// Reads an instant as the cache stores it.
    pub fn decode(text: &str) -> (instant: Option<Self>)
        ensures
            match instant {
                Some(t) => decoded(text@) == Some(t@),
                None => decoded(text@) is None,
            },
    {
        match unquote(text) {
            Some(inner) => Self::parse(inner),
            None => None,
        }
    }
}

} // verus!
