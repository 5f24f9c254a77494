//! Instants on the UTC time line and the proleptic Gregorian calendar.

use vstd::prelude::*;

use crate::digits;
use crate::text::{chars_of, text_between};

verus! {

/// The first second of the supported calendar, `-262143-01-01T00:00:00Z`.
pub const FIRST_SECOND: i64 = -8334601228800;

/// The last second of the supported calendar, `+262142-12-31T23:59:59Z`.
pub const LAST_SECOND: i64 = 8210266876799;

/// The first year of the supported calendar.
pub const FIRST_YEAR: i32 = -262143;

/// The last year of the supported calendar.
pub const LAST_YEAR: i32 = 262142;

/// Nanoseconds in one second.
pub const NANOS_PER_SECOND: u32 = 1_000_000_000;

/// An instant in UTC with nanosecond precision.
///
/// Leap seconds are not represented: an instant always lies inside an ordinary
/// second. The range is that of the supported calendar.
#[derive(Clone, Copy, Debug, PartialEq, Eq, PartialOrd, Ord, Hash)]
pub struct Timestamp {
    seconds: i64,
    nanos: u32,
}

impl View for Timestamp {
    type V = int;

    /// Nanoseconds since 1970-01-01T00:00:00Z.
    closed spec fn view(&self) -> int {
        self.seconds * 1_000_000_000 + self.nanos
    }
}

/// The instants that the supported calendar can express, in nanoseconds.
pub open spec fn on_time_line(nanos: int) -> bool {
    FIRST_SECOND * 1_000_000_000 <= nanos < (LAST_SECOND + 1) * 1_000_000_000
}

impl Timestamp {
    #[verifier::type_invariant]
    closed spec fn well_formed(self) -> bool {
        &&& FIRST_SECOND <= self.seconds <= LAST_SECOND
        &&& self.nanos < NANOS_PER_SECOND
    }

    /// The instant `nanos` nanoseconds into the given second, when both are in range.
    pub fn new(seconds: i64, nanos: u32) -> (result: Option<Timestamp>)
        ensures
            match result {
                Some(at) => {
                    &&& FIRST_SECOND <= seconds <= LAST_SECOND
                    &&& nanos < NANOS_PER_SECOND
                    &&& at@ == seconds * 1_000_000_000 + nanos
                },
                None => !(FIRST_SECOND <= seconds <= LAST_SECOND && nanos < NANOS_PER_SECOND),
            },
    {
        if FIRST_SECOND <= seconds && seconds <= LAST_SECOND && nanos < NANOS_PER_SECOND {
            Some(Timestamp { seconds, nanos })
        } else {
            None
        }
    }

    /// Whole seconds since 1970-01-01T00:00:00Z, rounded down.
    pub fn seconds(&self) -> (seconds: i64)
        ensures
            seconds == self@ / 1_000_000_000,
            FIRST_SECOND <= seconds <= LAST_SECOND,
    {
        proof {
            use_type_invariant(self);
        }
        self.seconds
    }

    /// The nanoseconds past the whole second.
    pub fn subsecond_nanos(&self) -> (nanos: u32)
        ensures
            nanos == self@ % 1_000_000_000,
            nanos < NANOS_PER_SECOND,
    {
        proof {
            use_type_invariant(self);
        }
        self.nanos
    }

    /// Whether this instant comes before the other.
    pub fn is_before(&self, other: &Timestamp) -> (result: bool)
        ensures
            result == (self@ < other@),
    {
        proof {
            use_type_invariant(self);
            use_type_invariant(other);
        }
        self.seconds < other.seconds || (self.seconds == other.seconds && self.nanos < other.nanos)
    }

    /// Whether both are the same instant.
    pub fn is_same(&self, other: &Timestamp) -> (result: bool)
        ensures
            result == (self@ == other@),
    {
        proof {
            use_type_invariant(self);
            use_type_invariant(other);
        }
        self.seconds == other.seconds && self.nanos == other.nanos
    }

    /// The instant `millis` milliseconds later, while the calendar reaches that far.
    pub fn plus_millis(&self, millis: u64) -> (result: Option<Timestamp>)
        ensures
            match result {
                Some(at) => at@ == self@ + millis * 1_000_000,
                None => !on_time_line(self@ + millis * 1_000_000),
            },
    {
        proof {
            use_type_invariant(self);
        }
        let whole: u64 = millis / 1000;
        let rest: u32 = (millis % 1000) as u32;
        let mut nanos: u32 = self.nanos + rest * 1_000_000;
        let mut carry: i64 = 0;
        if nanos >= NANOS_PER_SECOND {
            nanos = nanos - NANOS_PER_SECOND;
            carry = 1;
        }
        let room: i64 = LAST_SECOND - self.seconds - carry;
        if room < 0 || whole > room as u64 {
            None
        } else {
            Some(Timestamp { seconds: self.seconds + carry + (whole as i64), nanos })
        }
    }

    /// The instant a number of seconds earlier.
    pub fn minus_seconds(&self, seconds: u64) -> (result: Timestamp)
        requires
            self@ / 1_000_000_000 - seconds >= FIRST_SECOND,
        ensures
            result@ == self@ - seconds * 1_000_000_000,
    {
        proof {
            use_type_invariant(self);
        }
        Timestamp { seconds: self.seconds - (seconds as i64), nanos: self.nanos }
    }

    /// The instant a number of seconds away, in either direction.
    pub fn shifted(&self, seconds: i32) -> (result: Timestamp)
        requires
            FIRST_SECOND <= self@ / 1_000_000_000 + seconds <= LAST_SECOND,
        ensures
            result@ == self@ + seconds * 1_000_000_000,
    {
        proof {
            use_type_invariant(self);
        }
        Timestamp { seconds: self.seconds + (seconds as i64), nanos: self.nanos }
    }
}

/// Whole milliseconds from one instant to a later one; zero if it is not later.
pub open spec fn elapsed_millis(earlier: int, later: int) -> nat {
    if later > earlier {
        ((later - earlier) / 1_000_000) as nat
    } else {
        0
    }
}

/// The most whole milliseconds that the time line can hold.
pub const MAX_MILLIS: u64 = 16_544_868_105_600_000;

/// Whole milliseconds between two instants, zero if `later` is not later.
pub fn millis_between(earlier: &Timestamp, later: &Timestamp) -> (millis: u64)
    ensures
        millis == elapsed_millis(earlier@, later@),
        millis <= MAX_MILLIS,
        on_time_line(earlier@),
        on_time_line(later@),
{
    proof {
        use_type_invariant(earlier);
        use_type_invariant(later);
    }
    if !earlier.is_before(later) {
        return 0;
    }
    let seconds: i128 = (later.seconds - earlier.seconds) as i128;
    let nanos: i128 = seconds * 1_000_000_000 + later.nanos as i128 - earlier.nanos as i128;
    let millis: u128 = (nanos as u128) / 1_000_000;
    millis as u64
}

/// The leap years of the Gregorian calendar.
pub open spec fn leap_year(year: int) -> bool {
    (year % 4 == 0 && year % 100 != 0) || year % 400 == 0
}

/// The number of days in a month; 31 for a number that names no month.
pub open spec fn month_length(year: int, month: int) -> int {
    if month == 4 || month == 6 || month == 9 || month == 11 {
        30
    } else if month == 2 {
        if leap_year(year) {
            29
        } else {
            28
        }
    } else {
        31
    }
}

/// The number of days in a month; 31 for a number that names no month.
pub fn days_in_month(year: i32, month: u32) -> (days: u32)
    ensures
        days == month_length(year as int, month as int),
{
    match month {
        4 | 6 | 9 | 11 => 30,
        2 => {
            if (year % 4 == 0 && year % 100 != 0) || year % 400 == 0 {
                29
            } else {
                28
            }
        },
        _ => 31,
    }
}

/// Days from 0001-01-01 to the first of January of a year.
pub open spec fn days_before_year(year: int) -> int {
    365 * (year - 1) + (year - 1) / 4 - (year - 1) / 100 + (year - 1) / 400
}

/// Days from the first of January to the first of a month.
pub open spec fn days_before_month(year: int, month: int) -> int
    decreases month,
{
    if month <= 1 {
        0
    } else {
        days_before_month(year, month - 1) + month_length(year, month - 1)
    }
}

/// Days from 1970-01-01 to a date.
pub open spec fn day_number(year: int, month: int, day: int) -> int {
    days_before_year(year) + days_before_month(year, month) + (day - 1) - 719162
}

/// A date and a time of day as a calendar shows them.
#[derive(Clone, Copy, Debug, PartialEq, Eq)]
pub struct Civil {
    pub year: i32,
    pub month: u32,
    pub day: u32,
    pub hour: u32,
    pub minute: u32,
    pub second: u32,
}

impl Civil {
    /// Whether the fields name a second of the supported calendar.
    pub open spec fn valid(self) -> bool {
        &&& FIRST_YEAR <= self.year <= LAST_YEAR
        &&& 1 <= self.month <= 12
        &&& 1 <= self.day <= month_length(self.year as int, self.month as int)
        &&& self.hour < 24
        &&& self.minute < 60
        &&& self.second < 60
    }

    /// The second that the fields name, counted from 1970-01-01T00:00:00Z.
    pub open spec fn second_number(self) -> int {
        day_number(self.year as int, self.month as int, self.day as int) * 86400 + self.hour * 3600
            + self.minute * 60 + self.second
    }
}

/// The calendar reading of a second.
pub open spec fn civil_of(seconds: int) -> Civil {
    choose|civil: Civil| civil.valid() && civil.second_number() == seconds
}

proof fn months_add_up(year: int, month: int)
    requires
        1 <= month <= 12,
    ensures
        days_before_month(year, month) >= 28 * (month - 1),
        days_before_month(year, month) + month_length(year, month) <= if leap_year(year) {
            366int
        } else {
            365int
        },
{
    reveal_with_fuel(days_before_month, 13);
}

proof fn months_are_ordered(year: int, month: int, later: int)
    requires
        1 <= month < later <= 12,
    ensures
        days_before_month(year, month) + month_length(year, month) <= days_before_month(
            year,
            later,
        ),
    decreases later - month,
{
    if month + 1 < later {
        months_are_ordered(year, month, later - 1);
    }
}

proof fn one_year(year: int)
    ensures
        days_before_year(year + 1) == days_before_year(year) + if leap_year(year) {
            366int
        } else {
            365int
        },
{
    one_more(year, 4);
    one_more(year, 100);
    one_more(year, 400);
    if year % 400 == 0 {
        vstd::arithmetic::div_mod::lemma_fundamental_div_mod(year, 400);
        vstd::arithmetic::div_mod::lemma_fundamental_div_mod_converse(year, 100, 4 * (year / 400), 0);
    }
    if year % 100 == 0 {
        vstd::arithmetic::div_mod::lemma_fundamental_div_mod(year, 100);
        vstd::arithmetic::div_mod::lemma_fundamental_div_mod_converse(year, 4, 25 * (year / 100), 0);
    }
}

proof fn one_more(value: int, divisor: int)
    requires
        divisor > 1,
    ensures
        value / divisor - (value - 1) / divisor == if value % divisor == 0 {
            1int
        } else {
            0int
        },
{
    let q = value / divisor;
    let r = value % divisor;
    vstd::arithmetic::div_mod::lemma_fundamental_div_mod(value, divisor);
    if r == 0 {
        assert(divisor * q - 1 == (q - 1) * divisor + (divisor - 1)) by (nonlinear_arith);
        vstd::arithmetic::div_mod::lemma_fundamental_div_mod_converse(
            value - 1,
            divisor,
            q - 1,
            divisor - 1,
        );
    } else {
        assert(divisor * q == q * divisor) by (nonlinear_arith);
        vstd::arithmetic::div_mod::lemma_fundamental_div_mod_converse(value - 1, divisor, q, r - 1);
    }
}

proof fn years_are_ordered(year: int, later: int)
    requires
        year < later,
    ensures
        days_before_year(year) + (if leap_year(year) {
            366int
        } else {
            365int
        }) <= days_before_year(later),
    decreases later - year,
{
    if year + 1 < later {
        years_are_ordered(year, later - 1);
        one_year(later - 1);
    } else {
        one_year(year);
    }
}

proof fn earlier_dates_have_smaller_numbers(a: Civil, b: Civil)
    requires
        a.valid(),
        b.valid(),
        a.year < b.year || (a.year == b.year && (a.month < b.month || (a.month == b.month && a.day
            < b.day))),
    ensures
        day_number(a.year as int, a.month as int, a.day as int) < day_number(
            b.year as int,
            b.month as int,
            b.day as int,
        ),
{
    months_add_up(a.year as int, a.month as int);
    months_add_up(b.year as int, b.month as int);
    if a.year < b.year {
        years_are_ordered(a.year as int, b.year as int);
    } else if a.month < b.month {
        months_are_ordered(a.year as int, a.month as int, b.month as int);
    }
}

/// A second has one calendar reading only.
pub proof fn calendar_reading_is_unique(a: Civil, b: Civil)
    requires
        a.valid(),
        b.valid(),
        a.second_number() == b.second_number(),
    ensures
        a == b,
{
    let first = day_number(a.year as int, a.month as int, a.day as int);
    let second = day_number(b.year as int, b.month as int, b.day as int);
    assert(first == second);
    if a.year < b.year || (a.year == b.year && (a.month < b.month || (a.month == b.month && a.day
        < b.day))) {
        earlier_dates_have_smaller_numbers(a, b);
    } else if b.year < a.year || (b.year == a.year && (b.month < a.month || (b.month == a.month
        && b.day < a.day))) {
        earlier_dates_have_smaller_numbers(b, a);
    }
}

/// The second that valid calendar fields name is on the time line.
pub proof fn valid_fields_are_on_the_time_line(civil: Civil)
    requires
        civil.valid(),
    ensures
        FIRST_SECOND <= civil.second_number() <= LAST_SECOND,
{
    let year = civil.year as int;
    months_add_up(year, civil.month as int);
    if FIRST_YEAR < year {
        years_are_ordered(FIRST_YEAR as int, year);
    }
    if year < LAST_YEAR + 1 {
        years_are_ordered(year, LAST_YEAR + 1);
    }
}

/// Reads a second on the calendar through chrono: `DateTime::from_timestamp`,
/// then the `Datelike` and `Timelike` fields of the value. Trusted: within the
/// supported range the fields name exactly that second in the proleptic
/// Gregorian calendar.
#[verifier::external_body]
fn calendar_fields(seconds: i64) -> (civil: Civil)
    requires
        FIRST_SECOND <= seconds <= LAST_SECOND,
    ensures
        civil.valid(),
        civil.second_number() == seconds,
{
    let at = chrono::DateTime::from_timestamp(seconds, 0).unwrap();
    Civil {
        year: chrono::Datelike::year(&at),
        month: chrono::Datelike::month(&at),
        day: chrono::Datelike::day(&at),
        hour: chrono::Timelike::hour(&at),
        minute: chrono::Timelike::minute(&at),
        second: chrono::Timelike::second(&at),
    }
}

/// Finds the second that calendar fields name through chrono's
/// `TimeZone::with_ymd_and_hms` on `Utc`. Trusted: there is one exactly when the
/// fields are valid, and it is the one they name.
#[verifier::external_body]
fn second_of_fields(civil: Civil) -> (seconds: Option<i64>)
    ensures
        seconds is Some <==> civil.valid(),
        seconds matches Some(value) ==> value == civil.second_number(),
{
    chrono::TimeZone::with_ymd_and_hms(
        &chrono::Utc,
        civil.year,
        civil.month,
        civil.day,
        civil.hour,
        civil.minute,
        civil.second,
    ).single().map(|at| at.timestamp())
}

impl Timestamp {
    /// The date and time of day in UTC.
    pub fn civil(&self) -> (civil: Civil)
        ensures
            civil.valid(),
            civil == civil_of(self@ / 1_000_000_000),
            civil.second_number() == self@ / 1_000_000_000,
    {
        let civil = calendar_fields(self.seconds());
        proof {
            calendar_reading_is_unique(civil, civil_of(self@ / 1_000_000_000));
        }
        civil
    }

    /// The instant at the start of the second that the fields name in UTC.
    pub fn from_civil(civil: Civil) -> (result: Option<Timestamp>)
        ensures
            result is Some <==> civil.valid(),
            result matches Some(at) ==> at@ == civil.second_number() * 1_000_000_000,
    {
        match second_of_fields(civil) {
            Some(seconds) => {
                proof {
                    valid_fields_are_on_the_time_line(civil);
                }
                Some(Timestamp { seconds, nanos: 0 })
            },
            None => None,
        }
    }
}

/// The fields of a year as `%Y` writes them: four digits at least, with a sign
/// outside the years 0 to 9999.
pub open spec fn year_text(year: int) -> Seq<char> {
    if 0 <= year <= 9999 {
        digits::zero_padded(year, 4)
    } else if year > 0 {
        seq!['+'] + digits::zero_padded(year, 4)
    } else {
        seq!['-'] + digits::zero_padded(-year, 4)
    }
}

/// A time of day as `%H:%M:%S` writes it.
pub open spec fn clock_text(civil: Civil) -> Seq<char> {
    digits::zero_padded(civil.hour as int, 2) + seq![':'] + digits::zero_padded(civil.minute as int, 2) + seq![':']
        + digits::zero_padded(civil.second as int, 2)
}

/// A date and time of day as `%Y-%m-%d %H:%M:%S` writes it.
pub open spec fn civil_text(civil: Civil) -> Seq<char> {
    year_text(civil.year as int) + seq!['-'] + digits::zero_padded(civil.month as int, 2) + seq!['-']
        + digits::zero_padded(civil.day as int, 2) + seq![' '] + clock_text(civil)
}

/// The fraction of a second as RFC 3339 texts show it: in milliseconds,
/// microseconds or nanoseconds, as coarse as it takes, and not at all if there
/// is none.
pub open spec fn fraction_text(nanos: int) -> Seq<char> {
    if nanos == 0 {
        Seq::empty()
    } else if nanos % 1_000_000 == 0 {
        seq!['.'] + digits::zero_padded(nanos / 1_000_000, 3)
    } else if nanos % 1_000 == 0 {
        seq!['.'] + digits::zero_padded(nanos / 1_000, 6)
    } else {
        seq!['.'] + digits::zero_padded(nanos, 9)
    }
}

/// An instant in UTC in RFC 3339 form, without its offset.
pub open spec fn rfc3339_text(nanos: int) -> Seq<char> {
    let civil = civil_of(nanos / 1_000_000_000);
    year_text(civil.year as int) + seq!['-'] + digits::zero_padded(civil.month as int, 2) + seq!['-']
        + digits::zero_padded(civil.day as int, 2) + seq!['T'] + clock_text(civil)
        + fraction_text(nanos % 1_000_000_000)
}

/// Writes an instant through chrono's `DateTime::to_rfc3339`. Trusted: the text
/// is the calendar reading in RFC 3339 form with the offset `+00:00`.
#[verifier::external_body]
fn write_rfc3339(seconds: i64, nanos: u32) -> (text: String)
    requires
        FIRST_SECOND <= seconds <= LAST_SECOND,
        nanos < NANOS_PER_SECOND,
    ensures
        text@ == rfc3339_text(seconds * 1_000_000_000 + nanos) + "+00:00"@,
{
    chrono::DateTime::from_timestamp(seconds, nanos).unwrap().to_rfc3339()
}

/// Writes an instant through chrono's `DateTime::to_rfc3339_opts` with automatic
/// subsecond digits and `Z` for UTC, which is also how chrono serializes it.
/// Trusted: the text is the calendar reading in RFC 3339 form with a `Z`.
#[verifier::external_body]
fn write_rfc3339_zulu(seconds: i64, nanos: u32) -> (text: String)
    requires
        FIRST_SECOND <= seconds <= LAST_SECOND,
        nanos < NANOS_PER_SECOND,
    ensures
        text@ == rfc3339_text(seconds * 1_000_000_000 + nanos) + "Z"@,
{
    let at = chrono::DateTime::from_timestamp(seconds, nanos).unwrap();
    at.to_rfc3339_opts(chrono::SecondsFormat::AutoSi, true)
}

/// Writes a second through chrono's `DateTime::format` with the pattern
/// `%Y-%m-%d %H:%M:%S`. Trusted: the text is that of the calendar reading.
#[verifier::external_body]
fn format_second(seconds: i64) -> (text: String)
    requires
        FIRST_SECOND <= seconds <= LAST_SECOND,
    ensures
        text@ == civil_text(civil_of(seconds as int)),
{
    chrono::DateTime::from_timestamp(seconds, 0).unwrap().format("%Y-%m-%d %H:%M:%S").to_string()
}

/// Reads the system clock through chrono's `Utc::now`. Trusted: the reading is
/// on the time line; which one it is depends on the machine.
#[verifier::external_body]
fn clock_reading() -> (reading: (i64, u32))
    ensures
        0 <= reading.0 <= LAST_SECOND,
        reading.1 < NANOS_PER_SECOND,
{
    let now = chrono::Utc::now();
    (now.timestamp(), now.timestamp_subsec_nanos())
}

impl Timestamp {
    /// The current instant.
    pub fn now() -> (at: Timestamp)
        ensures
            at@ >= 0,
    {
        let reading = clock_reading();
        Timestamp { seconds: reading.0, nanos: reading.1 }
    }

    /// The instant in RFC 3339 form, as `2026-08-12T09:30:00+00:00`.
    pub fn to_rfc3339(&self) -> (text: String)
        ensures
            text@ == rfc3339_text(self@) + "+00:00"@,
    {
        write_rfc3339(self.seconds(), self.subsecond_nanos())
    }

    /// The instant in RFC 3339 form, as `2026-08-12T09:30:00Z`.
    pub fn to_rfc3339_zulu(&self) -> (text: String)
        ensures
            text@ == rfc3339_text(self@) + "Z"@,
    {
        write_rfc3339_zulu(self.seconds(), self.subsecond_nanos())
    }

    /// The date and time of day, as `2026-08-12 09:30:00`.
    pub fn date_time_text(&self) -> (text: String)
        ensures
            text@ == civil_text(civil_of(self@ / 1_000_000_000)),
    {
        format_second(self.seconds())
    }

    /// The time of day, as `09:30:00`.
    pub fn clock_text(&self) -> (text: String)
        ensures
            text@ == clock_text(civil_of(self@ / 1_000_000_000)),
    {
        let civil = self.civil();
        let characters = chars_of(self.date_time_text().as_str());
        proof {
            two_digits(civil.hour as int);
            two_digits(civil.minute as int);
            two_digits(civil.second as int);
            assert(characters@.skip(characters@.len() - 8) =~= clock_text(civil));
        }
        text_between(&characters, characters.len() - 8, characters.len())
    }
}

proof fn two_digits(value: int)
    requires
        0 <= value < 100,
    ensures
        digits::zero_padded(value, 2).len() == 2,
{
    reveal_with_fuel(digits::in_base, 3);
}

/// Whether the IANA database knows a time zone of that name, as compiled into
/// chrono-tz.
pub uninterp spec fn zone_listed(name: Seq<char>) -> bool;

/// Looks a name up through the `FromStr` of `chrono_tz::Tz`. Trusted: whether it
/// succeeds depends on the name alone, and is named `zone_listed`; `UTC` is listed.
#[verifier::external_body]
fn zone_exists(name: &str) -> (listed: bool)
    ensures
        listed == zone_listed(name@),
        name@ == "UTC"@ ==> listed,
{
    name.parse::<chrono_tz::Tz>().is_ok()
}

/// The seconds by which a zone's wall clock is ahead of UTC at a second, as
/// compiled into chrono-tz.
pub uninterp spec fn zone_offset(name: Seq<char>, seconds: int) -> int;

/// Reads a zone's offset through `TimeZone::offset_from_utc_datetime` of
/// `chrono_tz::Tz`. Trusted: it depends on the zone and the second alone, is
/// named `zone_offset`, is less than a day either way, and is nothing for `UTC`.
#[verifier::external_body]
fn read_zone_offset(name: &str, seconds: i64) -> (offset: i32)
    requires
        zone_listed(name@),
        FIRST_SECOND <= seconds <= LAST_SECOND,
    ensures
        offset == zone_offset(name@, seconds as int),
        -86400 < offset < 86400,
        name@ == "UTC"@ ==> offset == 0,
{
    let zone: chrono_tz::Tz = name.parse().unwrap();
    let at = chrono::DateTime::from_timestamp(seconds, 0).unwrap().naive_utc();
    chrono::Offset::fix(&chrono::TimeZone::offset_from_utc_datetime(&zone, &at)).local_minus_utc()
}

/// A time zone of the IANA database.
#[derive(Debug, PartialEq, Eq)]
pub struct Zone {
    name: String,
}

impl View for Zone {
    type V = Seq<char>;

    /// The zone's name.
    closed spec fn view(&self) -> Seq<char> {
        self.name@
    }
}

impl Clone for Zone {
    fn clone(&self) -> (copy: Self)
        ensures
            copy@ == self@,
    {
        proof {
            use_type_invariant(self);
        }
        Zone { name: self.name.clone() }
    }
}

impl Zone {
    #[verifier::type_invariant]
    closed spec fn well_formed(self) -> bool {
        zone_listed(self.name@)
    }

    /// The zone of that name, if there is one.
    pub fn named(name: &str) -> (result: Option<Zone>)
        ensures
            result is Some <==> zone_listed(name@),
            result matches Some(zone) ==> zone@ == name@,
            name@ == "UTC"@ ==> result is Some,
    {
        if zone_exists(name) {
            Some(Zone { name: name.to_owned() })
        } else {
            None
        }
    }

    /// What the zone's wall clock shows at an instant, read as if it were UTC.
    pub fn wall_clock(&self, at: &Timestamp) -> (local: Timestamp)
        requires
            FIRST_SECOND + 86400 <= at@ / 1_000_000_000 <= LAST_SECOND - 86400,
        ensures
            local@ == at@ + zone_offset(self@, at@ / 1_000_000_000) * 1_000_000_000,
            at@ - 86400 * 1_000_000_000 < local@ < at@ + 86400 * 1_000_000_000,
            self@ == "UTC"@ ==> local@ == at@,
    {
        proof {
            use_type_invariant(self);
        }
        let offset: i32 = read_zone_offset(self.name.as_str(), at.seconds());
        at.shifted(offset)
    }
}

} // verus!
