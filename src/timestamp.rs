use chrono::{Datelike, Timelike};
use crate::text::{
    dec_text, digit_run, digit_value, lemma_dec_text, lemma_dec_text_len,
    lemma_digits_value_bound, lemma_number_of_dec_text, number, power, push_char, push_dec,
    take_number,
};
use vstd::prelude::*;

verus! {

/// An instant in UTC, held as its calendar fields.
#[derive(Clone, Copy, Debug, PartialEq, Eq, Structural)]
pub struct Timestamp {
    pub year: u32,
    pub month: u32,
    pub day: u32,
    pub hour: u32,
    pub minute: u32,
    pub second: u32,
    pub nanosecond: u32,
}

/// Largest year a timestamp may hold: nine decimal digits.
pub const MAX_YEAR: u32 = 999_999_999;

/// One second in nanoseconds.
pub const NANOS_PER_SECOND: u32 = 1_000_000_000;

/// A leap year of the Gregorian calendar.
pub open spec fn is_leap_year(y: nat) -> bool {
    y % 4 == 0 && (y % 100 != 0 || y % 400 == 0)
}

/// The number of days of a month (1 to 12) in a year.
pub open spec fn days_in_month(y: nat, m: nat) -> nat {
    if m == 2 {
        if is_leap_year(y) { 29 } else { 28 }
    } else if m == 4 || m == 6 || m == 9 || m == 11 {
        30
    } else {
        31
    }
}

/// The number of days of a month (1 to 12) in a year, as `days_in_month` gives it.
fn days_in_month_of(y: u64, m: u64) -> (r: u64)
    ensures
        r == days_in_month(y as nat, m as nat),
{
    if m == 2 {
        if y % 4 == 0 && (y % 100 != 0 || y % 400 == 0) { 29 } else { 28 }
    } else if m == 4 || m == 6 || m == 9 || m == 11 {
        30
    } else {
        31
    }
}

impl Timestamp {
    /// Each field lies in its calendar range (the day within its month's length); a
    /// second of 60 stands for a leap second.
    pub open spec fn wf(&self) -> bool {
        &&& self.year <= MAX_YEAR
        &&& 1 <= self.month <= 12
        &&& 1 <= self.day <= days_in_month(self.year as nat, self.month as nat)
        &&& self.hour < 24
        &&& self.minute < 60
        &&& self.second <= 60
        &&& self.nanosecond < NANOS_PER_SECOND
    }

    /// `self` is strictly earlier than `other`: the fields compared from the year down.
    pub open spec fn spec_precedes(&self, other: Timestamp) -> bool {
        if self.year != other.year {
            self.year < other.year
        } else if self.month != other.month {
            self.month < other.month
        } else if self.day != other.day {
            self.day < other.day
        } else if self.hour != other.hour {
            self.hour < other.hour
        } else if self.minute != other.minute {
            self.minute < other.minute
        } else if self.second != other.second {
            self.second < other.second
        } else {
            self.nanosecond < other.nanosecond
        }
    }

    /// Whether `self` is strictly earlier than `other`.
    pub fn precedes(&self, other: &Timestamp) -> (r: bool)
        ensures
            r == self.spec_precedes(*other),
    {
        if self.year != other.year {
            self.year < other.year
        } else if self.month != other.month {
            self.month < other.month
        } else if self.day != other.day {
            self.day < other.day
        } else if self.hour != other.hour {
            self.hour < other.hour
        } else if self.minute != other.minute {
            self.minute < other.minute
        } else if self.second != other.second {
            self.second < other.second
        } else {
            self.nanosecond < other.nanosecond
        }
    }

    /// The timestamp of calendar fields as a clock reports them, as `spec_from_fields`
    /// says: a nanosecond count of one billion or more marks a leap second, held as the
    /// next second (60).
    pub fn from_fields(
        year: i32,
        month: u32,
        day: u32,
        hour: u32,
        minute: u32,
        second: u32,
        nanosecond: u32,
    ) -> (r: Option<Timestamp>)
        ensures
            r == spec_from_fields(year as int, month, day, hour, minute, second, nanosecond),
            r is Some ==> r.unwrap().wf(),
    {
        if year < 0 || year as u32 > MAX_YEAR || second >= 60 || nanosecond >= 2 * NANOS_PER_SECOND {
            return None;
        }
        let (sec, nano) = if nanosecond >= NANOS_PER_SECOND {
            (second + 1, nanosecond - NANOS_PER_SECOND)
        } else {
            (second, nanosecond)
        };
        if 1 <= month && month <= 12 && 1 <= day && day as u64 <= days_in_month_of(
            year as u64,
            month as u64,
        ) && hour < 24 && minute < 60 {
            Some(Timestamp { year: year as u32, month, day, hour, minute, second: sec, nanosecond: nano })
        } else {
            None
        }
    }

    /// The current instant in UTC; `None` if the system clock reads before 1970 or past
    /// the last year the calendar conversion knows.
    pub fn now() -> (r: Option<Timestamp>)
        ensures
            r is Some ==> r.unwrap().wf() && r.unwrap().year >= 1970,
    {
        let clock = system_now();
        let (secs, nanos) = match since_unix_epoch(&clock) {
            Some(x) => x,
            None => return None,
        };
        if secs > 0x7fff_ffff_ffff_ffff {
            return None;
        }
        match utc_fields(secs, nanos) {
            Some((y, mo, d, h, mi, sec, ns)) => Timestamp::from_fields(y, mo, d, h, mi, sec, ns),
            None => None,
        }
    }
}

/// The timestamp of calendar fields as a clock reports them: `None` unless the year is
/// 0 to `MAX_YEAR`, the month 1 to 12, the day within the month, the hour below 24, the
/// minute and second below 60 and the nanosecond count below two billion; a count of one
/// billion or more marks a leap second and is held as second + 1.
pub open spec fn spec_from_fields(
    year: int,
    month: u32,
    day: u32,
    hour: u32,
    minute: u32,
    second: u32,
    nanosecond: u32,
) -> Option<Timestamp> {
    if 0 <= year <= MAX_YEAR && 1 <= month <= 12 && 1 <= day <= days_in_month(year as nat, month as nat)
        && hour < 24 && minute < 60 && second < 60 && nanosecond < 2 * NANOS_PER_SECOND {
        Some(
            Timestamp {
                year: year as u32,
                month,
                day,
                hour,
                minute,
                second: if nanosecond >= NANOS_PER_SECOND { (second + 1) as u32 } else { second },
                nanosecond: if nanosecond >= NANOS_PER_SECOND {
                    (nanosecond - NANOS_PER_SECOND) as u32
                } else {
                    nanosecond
                },
            },
        )
    } else {
        None
    }
}

/// The text of a timestamp: `YYYY-MM-DDTHH:MM:SS.nnnnnnnnnZ`, each field zero-padded
/// to its width (the year to at least four digits).
pub open spec fn timestamp_text(t: Timestamp) -> Seq<char> {
    dec_then(t.year as nat, 4, '-', dec_then(t.month as nat, 2, '-', dec_then(t.day as nat, 2, 'T',
    dec_then(t.hour as nat, 2, ':', dec_then(t.minute as nat, 2, ':', dec_then(t.second as nat, 2,
    '.', dec_text(t.nanosecond as nat, 9) + seq!['Z']))))))
}

/// The decimal text of `v` padded to `w` digits, then `sep`, then `rest`.
pub open spec fn dec_then(v: nat, w: nat, sep: char, rest: Seq<char>) -> Seq<char> {
    dec_text(v, w) + (seq![sep] + rest)
}

/// A number followed by the separator `sep`, and what follows the separator.
pub open spec fn field(s: Seq<char>, sep: char) -> Option<(nat, Seq<char>)> {
    match number(s) {
        Some((v, r)) => if r.len() > 0 && r[0] == sep {
            Some((v, r.drop_first()))
        } else {
            None
        },
        None => None,
    }
}

/// The nanoseconds that end a timestamp text: `Z` alone for none, or `.`, one to nine
/// digits of a fraction of a second, and `Z`.
pub open spec fn fraction(r: Seq<char>) -> Option<nat> {
    if r == seq!['Z'] {
        Some(0)
    } else if r.len() > 0 && r[0] == '.' {
        match number(r.drop_first()) {
            Some((f, rest)) => if rest == seq!['Z'] {
                Some(f * power(10, (9 - digit_run(r.drop_first())) as nat))
            } else {
                None
            },
            None => None,
        }
    } else {
        None
    }
}

/// The fields are in their calendar ranges.
pub open spec fn fields_in_range(y: nat, mo: nat, d: nat, h: nat, mi: nat, sec: nat) -> bool {
    1 <= mo <= 12 && 1 <= d <= days_in_month(y, mo) && h < 24 && mi < 60 && sec <= 60
}

/// The timestamp a text spells, in the form of `timestamp_text`; the fields may have
/// fewer or more digits (one to nine) and the fraction may be shorter or absent.
pub open spec fn parse_timestamp(s: Seq<char>) -> Option<Timestamp> {
    let year = field(s, '-');
    let month = field(year.unwrap().1, '-');
    let day = field(month.unwrap().1, 'T');
    let hour = field(day.unwrap().1, ':');
    let minute = field(hour.unwrap().1, ':');
    let second = number(minute.unwrap().1);
    let nanos = fraction(second.unwrap().1);
    if year is Some && month is Some && day is Some && hour is Some && minute is Some
        && second is Some && nanos is Some && fields_in_range(
        year.unwrap().0,
        month.unwrap().0,
        day.unwrap().0,
        hour.unwrap().0,
        minute.unwrap().0,
        second.unwrap().0,
    ) {
        Some(
            Timestamp {
                year: year.unwrap().0 as u32,
                month: month.unwrap().0 as u32,
                day: day.unwrap().0 as u32,
                hour: hour.unwrap().0 as u32,
                minute: minute.unwrap().0 as u32,
                second: second.unwrap().0 as u32,
                nanosecond: nanos.unwrap() as u32,
            },
        )
    } else {
        None
    }
}

/// `b^(m + n) == b^m * b^n`.
proof fn lemma_power_add(b: nat, m: nat, n: nat)
    ensures
        power(b, m + n) == power(b, m) * power(b, n),
    decreases m,
{
    if m > 0 {
        let m1 = (m - 1) as nat;
        lemma_power_add(b, m1, n);
        assert(power(b, m) == b * power(b, m1));
        assert(power(b, m + n) == b * power(b, m1 + n));
        let x = power(b, m1);
        let y = power(b, n);
        assert(b * (x * y) == (b * x) * y) by (nonlinear_arith);
    } else {
        assert(power(b, 0) == 1);
        assert(1 * power(b, n) == power(b, n));
    }
}

/// `10^9`, one second in nanoseconds.
proof fn lemma_power_10_9()
    ensures
        power(10, 9) == 1_000_000_000,
{
    reveal_with_fuel(power, 10);
}

/// Decimal text of a field below `10^9` followed by its separator reads back as the field.
proof fn lemma_field_of_dec_text(v: nat, w: nat, sep: char, rest: Seq<char>)
    requires
        v < 1_000_000_000,
        w <= 9,
        digit_value(sep) >= 10,
    ensures
        field(dec_then(v, w, sep, rest), sep) == Some((v, rest)),
{
    lemma_power_10_9();
    lemma_dec_text_len(v, w, 9);
    lemma_number_of_dec_text(v, w, seq![sep] + rest);
    assert((seq![sep] + rest).drop_first() == rest);
}

/// Reading a valid timestamp's text gives the timestamp back.
#[verifier::rlimit(80)]
pub proof fn law_timestamp_text_roundtrip(t: Timestamp)
    requires
        t.wf(),
    ensures
        parse_timestamp(timestamp_text(t)) == Some(t),
{
    lemma_power_10_9();
    let z = seq!['Z'];
    let nd = dec_text(t.nanosecond as nat, 9);
    let r6 = seq!['.'] + (nd + z);
    let r5 = dec_then(t.second as nat, 2, '.', nd + z);
    let r4 = dec_then(t.minute as nat, 2, ':', r5);
    let r3 = dec_then(t.hour as nat, 2, ':', r4);
    let r2 = dec_then(t.day as nat, 2, 'T', r3);
    let r1 = dec_then(t.month as nat, 2, '-', r2);
    lemma_field_of_dec_text(t.year as nat, 4, '-', r1);
    lemma_field_of_dec_text(t.month as nat, 2, '-', r2);
    lemma_field_of_dec_text(t.day as nat, 2, 'T', r3);
    lemma_field_of_dec_text(t.hour as nat, 2, ':', r4);
    lemma_field_of_dec_text(t.minute as nat, 2, ':', r5);
    lemma_dec_text_len(t.second as nat, 2, 9);
    lemma_number_of_dec_text(t.second as nat, 2, r6);
    lemma_fraction_of_nanos(t.nanosecond as nat);
    let text = timestamp_text(t);
    assert(field(text, '-') == Some((t.year as nat, r1)));
    assert(field(r1, '-') == Some((t.month as nat, r2)));
    assert(field(r2, 'T') == Some((t.day as nat, r3)));
    assert(field(r3, ':') == Some((t.hour as nat, r4)));
    assert(field(r4, ':') == Some((t.minute as nat, r5)));
    assert(number(r5) == Some((t.second as nat, r6)));
    assert(fraction(r6) == Some(t.nanosecond as nat));
}

/// The nanosecond text that ends a timestamp text reads back.
proof fn lemma_fraction_of_nanos(ns: nat)
    requires
        ns < 1_000_000_000,
    ensures
        fraction(seq!['.'] + (dec_text(ns, 9) + seq!['Z'])) == Some(ns),
{
    lemma_power_10_9();
    let z = seq!['Z'];
    let nd = dec_text(ns, 9);
    let r6 = seq!['.'] + (nd + z);
    lemma_dec_text_len(ns, 9, 9);
    lemma_dec_text(ns, 9);
    lemma_number_of_dec_text(ns, 9, z);
    assert(r6.drop_first() == nd + z);
    assert(r6[0] == '.');
    assert(r6 != z);
    crate::text::lemma_digit_run_prefix(nd, z);
    assert(digit_run(r6.drop_first()) == 9);
    assert(power(10, 0) == 1);
    assert(ns * power(10, 0) == ns);
}

/// `10^e` for `e <= 9`.
fn power_of_ten(e: usize) -> (r: u64)
    requires
        e <= 9,
    ensures
        r == power(10, e as nat),
        r <= 1_000_000_000,
    decreases e,
{
    if e == 0 {
        1
    } else {
        proof {
            lemma_power_add(10, (e - 1) as nat, 1);
            lemma_power_add(10, (e - 1) as nat, (10 - e) as nat);
            lemma_power_10_9();
            assert(power(10, 1) == 10) by {
                reveal_with_fuel(power, 2);
            }
            assert(power(10, (10 - e) as nat) >= 10) by {
                lemma_power_add(10, 1, (9 - e) as nat);
                lemma_power_positive(10, (9 - e) as nat);
            }
        }
        let p = power_of_ten(e - 1);
        proof {
            assert(p * 10 <= 1_000_000_000) by (nonlinear_arith)
                requires
                    p * power(10, (10 - e) as nat) == 1_000_000_000,
                    power(10, (10 - e) as nat) >= 10,
            ;
        }
        p * 10
    }
}

/// Powers of a positive base are positive.
proof fn lemma_power_positive(b: nat, n: nat)
    requires
        b > 0,
    ensures
        power(b, n) > 0,
    decreases n,
{
    if n > 0 {
        lemma_power_positive(b, (n - 1) as nat);
        assert(b * power(b, (n - 1) as nat) > 0) by (nonlinear_arith)
            requires
                b > 0,
                power(b, (n - 1) as nat) > 0,
        ;
    }
}

/// Reads a number and the separator `sep` after it, starting at `pos`.
fn take_field(s: &str, pos: usize, sep: char) -> (r: Option<(u64, usize)>)
    requires
        pos <= s@.len(),
    ensures
        match field(s@.skip(pos as int), sep) {
            Some((v, rest)) => r is Some && r.unwrap().0 as nat == v && r.unwrap().1 <= s@.len()
                && s@.skip(r.unwrap().1 as int) == rest,
            None => r is None,
        },
{
    match take_number(s, pos) {
        Some((v, p)) => {
            if p < s.unicode_len() && s.get_char(p) == sep {
                proof {
                    assert(s@.skip(p as int)[0] == s@[p as int]);
                    assert(s@.skip(p as int).drop_first() == s@.skip(p + 1));
                }
                Some((v, p + 1))
            } else {
                None
            }
        },
        None => None,
    }
}

/// Reads the end of a timestamp text at `pos`, as `fraction` gives it.
fn take_fraction(s: &str, pos: usize) -> (r: Option<u64>)
    requires
        pos <= s@.len(),
    ensures
        match fraction(s@.skip(pos as int)) {
            Some(ns) => r == Some(ns as u64) && ns < 1_000_000_000,
            None => r is None,
        },
{
    let n = s.unicode_len();
    let ghost t = s@.skip(pos as int);
    if pos < n && pos + 1 == n && s.get_char(pos) == 'Z' {
        proof {
            assert(t == seq!['Z']);
        }
        return Some(0);
    }
    proof {
        if t == seq!['Z'] {
            assert(t[0] == s@[pos as int]);
        }
    }
    if !(pos < n && s.get_char(pos) == '.') {
        proof {
            if t.len() > 0 {
                assert(t[0] == s@[pos as int]);
            }
        }
        return None;
    }
    proof {
        assert(t[0] == '.');
        assert(t.drop_first() == s@.skip(pos + 1));
    }
    let (f, p) = match take_number(s, pos + 1) {
        Some(x) => x,
        None => return None,
    };
    if !(p < n && p + 1 == n && s.get_char(p) == 'Z') {
        proof {
            if s@.skip(p as int) == seq!['Z'] {
                assert(s@.skip(p as int)[0] == s@[p as int]);
            }
        }
        return None;
    }
    proof {
        lemma_digit_run_all_digits(s@.skip(pos + 1));
        lemma_power_10_9();
        assert(s@.skip(p as int) == seq!['Z']);
        let u = s@.skip(pos + 1);
        let k = digit_run(u);
        assert(u.skip(k as int).len() == s@.skip(p as int).len());
        assert(p - (pos + 1) == k);
        
        lemma_digits_value_bound(u.take(k as int), 10);
        lemma_power_add(10, k, (9 - k) as nat);
        assert(f * power(10, (9 - k) as nat) < 1_000_000_000) by (nonlinear_arith)
            requires
                f < power(10, k),
                power(10, k) * power(10, (9 - k) as nat) == 1_000_000_000,
        ;
    }
    let scale = power_of_ten(9 - (p - (pos + 1)));
    Some(f * scale)
}

/// A timestamp read from text is valid.
pub proof fn lemma_parse_timestamp_wf(s: Seq<char>)
    ensures
        parse_timestamp(s) is Some ==> parse_timestamp(s).unwrap().wf(),
{
    let year = field(s, '-');
    let nanos = fraction(number(field(field(field(field(year.unwrap().1, '-').unwrap().1, 'T').unwrap().1, ':').unwrap().1, ':').unwrap().1).unwrap().1);
    if parse_timestamp(s) is Some {
        lemma_number_bound(s);
        lemma_fraction_bound(number(field(field(field(field(year.unwrap().1, '-').unwrap().1, 'T').unwrap().1, ':').unwrap().1, ':').unwrap().1).unwrap().1);
    }
}

/// The nanoseconds that end a timestamp text are below one second.
proof fn lemma_fraction_bound(r: Seq<char>)
    ensures
        fraction(r) is Some ==> fraction(r).unwrap() < 1_000_000_000,
{
    if fraction(r) is Some && r != seq!['Z'] {
        let u = r.drop_first();
        let k = digit_run(u);
        let f = number(u).unwrap().0;
        lemma_power_10_9();
        lemma_digit_run_all_digits(u);
        lemma_digits_value_bound(u.take(k as int), 10);
        lemma_power_add(10, k, (9 - k) as nat);
        assert(f * power(10, (9 - k) as nat) < 1_000_000_000) by (nonlinear_arith)
            requires
                f < power(10, k),
                power(10, k) * power(10, (9 - k) as nat) == 1_000_000_000,
        ;
    }
}

impl Timestamp {
    /// The text of this timestamp, as `timestamp_text` gives it.
    pub fn to_text(&self) -> (r: String)
        ensures
            r@ == timestamp_text(*self),
    {
        let mut r = String::new();
        push_dec(&mut r, self.year as u64, 4);
        push_char(&mut r, '-');
        push_dec(&mut r, self.month as u64, 2);
        push_char(&mut r, '-');
        push_dec(&mut r, self.day as u64, 2);
        push_char(&mut r, 'T');
        push_dec(&mut r, self.hour as u64, 2);
        push_char(&mut r, ':');
        push_dec(&mut r, self.minute as u64, 2);
        push_char(&mut r, ':');
        push_dec(&mut r, self.second as u64, 2);
        push_char(&mut r, '.');
        push_dec(&mut r, self.nanosecond as u64, 9);
        push_char(&mut r, 'Z');
        proof {
            assert(r@ == timestamp_text(*self));
        }
        r
    }

    /// Reads a timestamp from its text; `None` if the text is not one.
    pub fn parse(s: &str) -> (r: Option<Timestamp>)
        ensures
            r == parse_timestamp(s@),
            r is Some ==> r.unwrap().wf(),
    {
        proof {
            assert(s@.skip(0) == s@);
            lemma_parse_timestamp_wf(s@);
        }
        let n = s.unicode_len();
        let (y, year_end) = match take_field(s, 0, '-') {
            Some(x) => x,
            None => return None,
        };
        let (mo, month_end) = match take_field(s, year_end, '-') {
            Some(x) => x,
            None => return None,
        };
        let (d, day_end) = match take_field(s, month_end, 'T') {
            Some(x) => x,
            None => return None,
        };
        let (h, hour_end) = match take_field(s, day_end, ':') {
            Some(x) => x,
            None => return None,
        };
        let (mi, minute_end) = match take_field(s, hour_end, ':') {
            Some(x) => x,
            None => return None,
        };
        let (sec, second_end) = match take_number(s, minute_end) {
            Some(x) => x,
            None => return None,
        };
        let ns = match take_fraction(s, second_end) {
            Some(x) => x,
            None => return None,
        };
        if 1 <= mo && mo <= 12 && 1 <= d && d <= days_in_month_of(y, mo) && h < 24 && mi < 60
            && sec <= 60 {
            Some(
                Timestamp {
                    year: y as u32,
                    month: mo as u32,
                    day: d as u32,
                    hour: h as u32,
                    minute: mi as u32,
                    second: sec as u32,
                    nanosecond: ns as u32,
                },
            )
        } else {
            None
        }
    }
}

/// A number of at most nine digits is below `10^9`.
proof fn lemma_number_bound(s: Seq<char>)
    ensures
        number(s) is Some ==> number(s).unwrap().0 < 1_000_000_000,
{
    if number(s) is Some {
        let k = digit_run(s);
        lemma_digit_run_all_digits(s);
        lemma_digits_value_bound(s.take(k as int), 10);
        lemma_power_add(10, k, (9 - k) as nat);
        lemma_power_10_9();
        lemma_power_positive(10, (9 - k) as nat);
        assert(power(10, k) <= 1_000_000_000) by (nonlinear_arith)
            requires
                power(10, k) * power(10, (9 - k) as nat) == 1_000_000_000,
                power(10, (9 - k) as nat) > 0,
        ;
    }
}

/// The digit run of `s` is made of decimal digits.
proof fn lemma_digit_run_all_digits(s: Seq<char>)
    ensures
        digit_run(s) <= s.len(),
        crate::text::all_digits(s.take(digit_run(s) as int), 10),
    decreases s.len(),
{
    if s.len() > 0 && digit_value(s[0]) < 10 {
        lemma_digit_run_all_digits(s.drop_first());
        let k = digit_run(s);
        let t = s.take(k as int);
        assert forall|i: int| 0 <= i < t.len() implies #[trigger] digit_value(t[i]) < 10 by {
            if i > 0 {
                assert(t[i] == s.drop_first().take(k - 1)[i - 1]);
            }
        }
    }
}

/// std's `SystemTime`, carried from the clock read to its conversion.
#[verifier::external_type_specification]
#[verifier::external_body]
pub struct ExSystemTime(std::time::SystemTime);

/// Relies on std's `SystemTime::now`: reads the system clock. Nothing is promised of
/// the reading.
#[verifier::external_body]
fn system_now() -> (r: std::time::SystemTime) {
    std::time::SystemTime::now()
}

/// Relies on std's `SystemTime::duration_since`, measured from `UNIX_EPOCH`: the whole
/// seconds and the nanoseconds of the time since 1970 (`Duration::subsec_nanos` is below
/// one billion); `None` when the reading lies before 1970.
#[verifier::external_body]
fn since_unix_epoch(t: &std::time::SystemTime) -> (r: Option<(u64, u32)>)
    ensures
        r is Some ==> r.unwrap().1 < 1_000_000_000,
{
    t.duration_since(std::time::UNIX_EPOCH).ok().map(|d| (d.as_secs(), d.subsec_nanos()))
}

/// Relies on chrono's `DateTime::from_timestamp` (which returns `None` instead of
/// panicking when the seconds lie outside its calendar) and the `Datelike` /
/// `Timelike` accessors of its result: a month of 1 to 12, a day within the month
/// (chrono's dates are valid Gregorian dates), an hour of 0 to 23, a minute and a
/// second of 0 to 59, and a nanosecond count below 2,000,000,000 (from one billion on it
/// marks a leap second). The seconds count from 1970, so the year is at least 1970;
/// chrono's dates end with the year 262142.
#[verifier::external_body]
fn utc_fields(secs: u64, nanos: u32) -> (r: Option<(i32, u32, u32, u32, u32, u32, u32)>)
    requires
        secs <= 0x7fff_ffff_ffff_ffff,
    ensures
        r is Some ==> {
            let f = r.unwrap();
            &&& 1970 <= f.0 <= 262142
            &&& 1 <= f.1 <= 12
            &&& 1 <= f.2 <= days_in_month(f.0 as nat, f.1 as nat)
            &&& f.3 < 24
            &&& f.4 < 60
            &&& f.5 < 60
            &&& f.6 < 2_000_000_000
        },
{
    chrono::DateTime::from_timestamp(secs as i64, nanos).map(|t| {
        (t.year(), t.month(), t.day(), t.hour(), t.minute(), t.second(), t.nanosecond())
    })
}

} // verus!
