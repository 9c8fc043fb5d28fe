use vstd::arithmetic::div_mod::{lemma_div_denominator, lemma_fundamental_div_mod};
use vstd::prelude::*;

use crate::error::Error;

verus! {

pub const MILLISECONDS_PER_SECOND: u64 = 1000;

pub const MILLISECONDS_PER_MINUTE: u64 = 60_000;

pub const MILLISECONDS_PER_HOUR: u64 = 3_600_000;

pub const SECONDS_PER_MINUTE: u64 = 60;

pub const MINUTES_PER_HOUR: u64 = 60;

/// An ASCII decimal digit.
pub open spec fn is_digit(c: char) -> bool {
    '0' <= c && c <= '9'
}

/// The value of an ASCII decimal digit.
pub open spec fn digit_value(c: char) -> nat {
    ((c as u32) - ('0' as u32)) as nat
}

/// The character that writes a single decimal digit.
pub open spec fn digit_char(d: nat) -> char {
    if d == 0 {
        '0'
    } else if d == 1 {
        '1'
    } else if d == 2 {
        '2'
    } else if d == 3 {
        '3'
    } else if d == 4 {
        '4'
    } else if d == 5 {
        '5'
    } else if d == 6 {
        '6'
    } else if d == 7 {
        '7'
    } else if d == 8 {
        '8'
    } else {
        '9'
    }
}

/// The shortest decimal writing of `n`.
pub open spec fn decimal(n: nat) -> Seq<char>
    decreases n,
{
    if n < 10 {
        seq![digit_char(n)]
    } else {
        decimal(n / 10).push(digit_char(n % 10))
    }
}

/// Hours, written in decimal with at least two digits.
pub open spec fn hours_text(h: nat) -> Seq<char> {
    if h < 10 {
        seq!['0', digit_char(h)]
    } else {
        decimal(h)
    }
}

/// The last two decimal digits of `n`.
pub open spec fn pad2(n: nat) -> Seq<char> {
    seq![digit_char((n / 10) % 10), digit_char(n % 10)]
}

/// The last three decimal digits of `n`.
pub open spec fn pad3(n: nat) -> Seq<char> {
    seq![digit_char((n / 100) % 10), digit_char((n / 10) % 10), digit_char(n % 10)]
}

/// The normalized `HH:MM:SS,mmm` writing of a duration of `ms` milliseconds.
pub open spec fn timestamp_text(ms: nat) -> Seq<char> {
    hours_text(ms / 3_600_000) + seq![':'] + pad2((ms / 60_000) % 60) + seq![':'] + pad2(
        (ms / 1000) % 60,
    ) + seq![','] + pad3(ms % 1000)
}

/// Text of exactly the form `DD:DD:DD,DDD`, each `D` an ASCII digit.
pub open spec fn is_timestamp_text(s: Seq<char>) -> bool {
    &&& s.len() == 12
    &&& is_digit(s[0]) && is_digit(s[1]) && s[2] == ':'
    &&& is_digit(s[3]) && is_digit(s[4]) && s[5] == ':'
    &&& is_digit(s[6]) && is_digit(s[7]) && s[8] == ','
    &&& is_digit(s[9]) && is_digit(s[10]) && is_digit(s[11])
}

/// The number written by the two digits at `i` and `i + 1`.
pub open spec fn two_digits(s: Seq<char>, i: int) -> nat {
    10 * digit_value(s[i]) + digit_value(s[i + 1])
}

/// The duration in milliseconds that a timestamp text stands for; its fields are
/// not range-checked, so `00:75:00,000` is seventy-five minutes.
pub open spec fn timestamp_text_value(s: Seq<char>) -> nat {
    two_digits(s, 0) * 3_600_000 + two_digits(s, 3) * 60_000 + two_digits(s, 6) * 1000 + 100
        * digit_value(s[9]) + 10 * digit_value(s[10]) + digit_value(s[11])
}

/// A duration of `v` milliseconds shifted by `d`.
pub open spec fn delayed_value(v: nat, d: int) -> nat {
    (v + d) as nat
}

/// Whether shifting `v` by `d` stays within what a timestamp holds.
pub open spec fn delay_in_range(v: nat, d: int) -> bool {
    0 <= v + d <= u64::MAX
}

fn digit_char_of(d: u64) -> (c: char)
    requires
        d < 10,
    ensures
        c == digit_char(d as nat),
{
    match d {
        0 => '0',
        1 => '1',
        2 => '2',
        3 => '3',
        4 => '4',
        5 => '5',
        6 => '6',
        7 => '7',
        8 => '8',
        _ => '9',
    }
}

fn digit_value_of(c: char) -> (r: Option<u64>)
    ensures
        r == (if is_digit(c) {
            Some(digit_value(c) as u64)
        } else {
            None
        }),
        r is Some ==> r->0 < 10,
{
    if '0' <= c && c <= '9' {
        Some(((c as u32) - ('0' as u32)) as u64)
    } else {
        None
    }
}

/// Relies on String::push: appends one character at the end.
#[verifier::external_body]
pub(crate) fn push_char(s: &mut String, c: char)
    ensures
        final(s)@ == old(s)@.push(c),
{
    s.push(c);
}

fn push_decimal(out: &mut String, n: u64)
    ensures
        final(out)@ == old(out)@ + decimal(n as nat),
    decreases n,
{
    if n >= 10 {
        push_decimal(out, n / 10);
    }
    push_char(out, digit_char_of(n % 10));
    proof {
        assert(old(out)@ + decimal(n as nat) =~= final(out)@) by {
            if n >= 10 {
                assert(decimal(n as nat) == decimal((n / 10) as nat).push(digit_char((n % 10) as nat)));
            }
        }
    }
}

/// A duration split into the fields that its text shows.
struct Components {
    hours: u64,
    minutes: u64,
    seconds: u64,
    milliseconds: u64,
}

impl Components {
    spec fn text(&self) -> Seq<char> {
        hours_text(self.hours as nat) + seq![':'] + pad2(self.minutes as nat) + seq![':'] + pad2(
            self.seconds as nat,
        ) + seq![','] + pad3(self.milliseconds as nat)
    }

    fn from_millis(ms: u64) -> (r: Components)
        ensures
            r.hours == ms / MILLISECONDS_PER_HOUR,
            r.minutes == (ms / MILLISECONDS_PER_MINUTE) % MINUTES_PER_HOUR,
            r.seconds == (ms / MILLISECONDS_PER_SECOND) % SECONDS_PER_MINUTE,
            r.milliseconds == ms % MILLISECONDS_PER_SECOND,
    {
        Components {
            hours: ms / MILLISECONDS_PER_HOUR,
            minutes: (ms / MILLISECONDS_PER_MINUTE) % MINUTES_PER_HOUR,
            seconds: (ms / MILLISECONDS_PER_SECOND) % SECONDS_PER_MINUTE,
            milliseconds: ms % MILLISECONDS_PER_SECOND,
        }
    }

    fn write_to(&self, out: &mut String)
        requires
            self.minutes < 60,
            self.seconds < 60,
            self.milliseconds < 1000,
        ensures
            final(out)@ == old(out)@ + self.text(),
    {
        let ghost start = out@;
        if self.hours < 10 {
            push_char(out, '0');
            push_char(out, digit_char_of(self.hours));
            assert(out@ =~= start + hours_text(self.hours as nat));
        } else {
            push_decimal(out, self.hours);
        }
        let ghost after_hours = out@;
        push_char(out, ':');
        push_pad2(out, self.minutes);
        push_char(out, ':');
        push_pad2(out, self.seconds);
        push_char(out, ',');
        push_pad3(out, self.milliseconds);
        assert(out@ =~= after_hours + (seq![':'] + pad2(self.minutes as nat) + seq![':'] + pad2(
            self.seconds as nat,
        ) + seq![','] + pad3(self.milliseconds as nat)));
        assert(out@ =~= start + self.text());
    }
}

fn push_pad2(out: &mut String, n: u64)
    requires
        n < 100,
    ensures
        final(out)@ == old(out)@ + pad2(n as nat),
{
    let ghost start = out@;
    push_char(out, digit_char_of(n / 10));
    push_char(out, digit_char_of(n % 10));
    assert(out@ =~= start + pad2(n as nat));
}

fn push_pad3(out: &mut String, n: u64)
    requires
        n < 1000,
    ensures
        final(out)@ == old(out)@ + pad3(n as nat),
{
    let ghost start = out@;
    push_char(out, digit_char_of(n / 100));
    push_char(out, digit_char_of((n / 10) % 10));
    push_char(out, digit_char_of(n % 10));
    assert(out@ =~= start + pad3(n as nat));
}

/// A point in time at millisecond resolution, counted from the start of a file.
#[derive(Debug, Clone, Copy, PartialEq, Eq)]
pub struct Timestamp {
    millis: u64,
}

impl View for Timestamp {
    type V = nat;

    closed spec fn view(&self) -> nat {
        self.millis as nat
    }
}

impl Timestamp {
    /// The timestamp `milliseconds` after zero.
    pub fn new(milliseconds: u64) -> (r: Timestamp)
        ensures
            r@ == milliseconds,
    {
        Timestamp { millis: milliseconds }
    }

    /// The number of milliseconds since zero.
    pub fn milliseconds(&self) -> (r: u64)
        ensures
            r == self@,
    {
        self.millis
    }

    fn components(&self) -> (r: Components)
        ensures
            r.text() == timestamp_text(self@),
            r.minutes < 60,
            r.seconds < 60,
            r.milliseconds < 1000,
    {
        Components::from_millis(self.millis)
    }

    /// The normalized `HH:MM:SS,mmm` text of this timestamp.
    pub fn as_string(&self) -> (r: String)
        ensures
            r@ == timestamp_text(self@),
    {
        let mut out = String::new();
        self.components().write_to(&mut out);
        out
    }

    /// This timestamp moved later by `delay_ms` milliseconds, or earlier when it
    /// is negative; the result must not fall before zero.
    pub fn delay(&self, delay_ms: i64) -> (r: Timestamp)
        requires
            delay_in_range(self@, delay_ms as int),
        ensures
            r@ == delayed_value(self@, delay_ms as int),
    {
        if delay_ms > 0 {
            Timestamp { millis: self.millis + delay_ms as u64 }
        } else {
            let magnitude: u64 = (0i128 - delay_ms as i128) as u64;
            Timestamp { millis: self.millis - magnitude }
        }
    }

    /// This timestamp moved by `delay_ms`, or `None` where that leaves the range
    /// of a timestamp.
    pub fn checked_delay(&self, delay_ms: i64) -> (r: Option<Timestamp>)
        ensures
            r is Some <==> delay_in_range(self@, delay_ms as int),
            r is Some ==> r->0@ == delayed_value(self@, delay_ms as int),
    {
        let shifted: i128 = self.millis as i128 + delay_ms as i128;
        if 0 <= shifted && shifted <= u64::MAX as i128 {
            Some(self.delay(delay_ms))
        } else {
            None
        }
    }

    /// Reads a timestamp written exactly as `DD:DD:DD,DDD`.
    pub fn from_str(s: &str) -> (r: Result<Timestamp, Error>)
        ensures
            r is Ok <==> is_timestamp_text(s@),
            r is Ok ==> r->Ok_0@ == timestamp_text_value(s@),
            r is Err ==> r->Err_0 is InvalidTimestamp && r->Err_0->InvalidTimestamp_0@ == s@,
    {
        if s.unicode_len() != 12 {
            return Err(Error::InvalidTimestamp(s.to_owned()));
        }
        let h1 = digit_value_of(s.get_char(0));
        let h2 = digit_value_of(s.get_char(1));
        let m1 = digit_value_of(s.get_char(3));
        let m2 = digit_value_of(s.get_char(4));
        let s1 = digit_value_of(s.get_char(6));
        let s2 = digit_value_of(s.get_char(7));
        let f1 = digit_value_of(s.get_char(9));
        let f2 = digit_value_of(s.get_char(10));
        let f3 = digit_value_of(s.get_char(11));
        let separators = s.get_char(2) == ':' && s.get_char(5) == ':' && s.get_char(8) == ',';
        match (h1, h2, m1, m2, s1, s2, f1, f2, f3) {
            (
                Some(h1),
                Some(h2),
                Some(m1),
                Some(m2),
                Some(s1),
                Some(s2),
                Some(f1),
                Some(f2),
                Some(f3),
            ) if separators => {
                let hours = 10 * h1 + h2;
                let minutes = 10 * m1 + m2;
                let seconds = 10 * s1 + s2;
                let milliseconds = 100 * f1 + 10 * f2 + f3;
                Ok(
                    Timestamp {
                        millis: milliseconds + seconds * MILLISECONDS_PER_SECOND + minutes
                            * MILLISECONDS_PER_MINUTE + hours * MILLISECONDS_PER_HOUR,
                    },
                )
            },
            _ => Err(Error::InvalidTimestamp(s.to_owned())),
        }
    }
}

/// The separator between the two ends of a range.
pub open spec fn arrow() -> Seq<char> {
    seq![' ', '-', '-', '>', ' ']
}

/// Text of exactly the form `<timestamp> --> <timestamp>`.
pub open spec fn is_range_text(s: Seq<char>) -> bool {
    &&& s.len() == 29
    &&& is_timestamp_text(s.subrange(0, 12))
    &&& s.subrange(12, 17) == arrow()
    &&& is_timestamp_text(s.subrange(17, 29))
}

/// The start and end, in milliseconds, that a range text stands for.
pub open spec fn range_text_value(s: Seq<char>) -> (nat, nat) {
    (timestamp_text_value(s.subrange(0, 12)), timestamp_text_value(s.subrange(17, 29)))
}

/// The normalized text of the range from `start` to `end` milliseconds.
pub open spec fn range_text(start: nat, end: nat) -> Seq<char> {
    timestamp_text(start) + arrow() + timestamp_text(end)
}

/// A start and an end timestamp, as found together on one line; the start need
/// not come before the end.
#[derive(Debug, Clone, Copy, PartialEq, Eq)]
pub struct TimestampRange {
    start: Timestamp,
    end: Timestamp,
}

impl View for TimestampRange {
    type V = (nat, nat);

    closed spec fn view(&self) -> (nat, nat) {
        (self.start@, self.end@)
    }
}

impl TimestampRange {
    /// The range from `start` to `end`.
    pub fn new(start: Timestamp, end: Timestamp) -> (r: TimestampRange)
        ensures
            r@ == (start@, end@),
    {
        TimestampRange { start, end }
    }

    /// The start of the range.
    pub fn start(&self) -> (r: Timestamp)
        ensures
            r@ == self@.0,
    {
        self.start
    }

    /// The end of the range.
    pub fn end(&self) -> (r: Timestamp)
        ensures
            r@ == self@.1,
    {
        self.end
    }

    /// The text `<start> --> <end>`, each end normalized.
    pub fn as_string(&self) -> (r: String)
        ensures
            r@ == range_text(self@.0, self@.1),
    {
        let mut out = self.start.as_string();
        out.append(" --> ");
        let end = self.end.as_string();
        out.append(end.as_str());
        proof {
            reveal_strlit(" --> ");
            assert(out@ =~= range_text(self@.0, self@.1));
        }
        out
    }

    /// Both ends moved by the same `delay_ms`; neither may fall before zero.
    pub fn delay(&self, delay_ms: i64) -> (r: TimestampRange)
        requires
            delay_in_range(self@.0, delay_ms as int),
            delay_in_range(self@.1, delay_ms as int),
        ensures
            r@ == (delayed_value(self@.0, delay_ms as int), delayed_value(self@.1, delay_ms as int)),
    {
        TimestampRange::new(self.start.delay(delay_ms), self.end.delay(delay_ms))
    }

    /// Both ends moved by `delay_ms`, or `None` where either leaves the range of a
    /// timestamp.
    pub fn checked_delay(&self, delay_ms: i64) -> (r: Option<TimestampRange>)
        ensures
            r is Some <==> delay_in_range(self@.0, delay_ms as int) && delay_in_range(
                self@.1,
                delay_ms as int,
            ),
            r is Some ==> r->0@ == (
                delayed_value(self@.0, delay_ms as int),
                delayed_value(self@.1, delay_ms as int),
            ),
    {
        match (self.start.checked_delay(delay_ms), self.end.checked_delay(delay_ms)) {
            (Some(start), Some(end)) => Some(TimestampRange::new(start, end)),
            _ => None,
        }
    }

    /// Reads a range written exactly as `<timestamp> --> <timestamp>`; a failure
    /// carries the whole text.
    pub fn from_str(s: &str) -> (r: Result<TimestampRange, Error>)
        ensures
            r is Ok <==> is_range_text(s@),
            r is Ok ==> r->Ok_0@ == range_text_value(s@),
            r is Err ==> r->Err_0 is InvalidTimestamp && r->Err_0->InvalidTimestamp_0@ == s@,
    {
        proof {
            reveal_strlit(" --> ");
        }
        if s.unicode_len() != 29 {
            return Err(Error::InvalidTimestamp(s.to_owned()));
        }
        let separator_ok = s.get_char(12) == ' ' && s.get_char(13) == '-' && s.get_char(14) == '-'
            && s.get_char(15) == '>' && s.get_char(16) == ' ';
        if !separator_ok {
            assert(s@.subrange(12, 17)[0] == s@[12]);
            assert(s@.subrange(12, 17)[1] == s@[13]);
            assert(s@.subrange(12, 17)[2] == s@[14]);
            assert(s@.subrange(12, 17)[3] == s@[15]);
            assert(s@.subrange(12, 17)[4] == s@[16]);
            return Err(Error::InvalidTimestamp(s.to_owned()));
        }
        assert(s@.subrange(12, 17) =~= arrow());
        match (Timestamp::from_str(s.substring_char(0, 12)), Timestamp::from_str(s.substring_char(17, 29))) {
            (Ok(start), Ok(end)) => Ok(TimestampRange::new(start, end)),
            _ => Err(Error::InvalidTimestamp(s.to_owned())),
        }
    }
}

proof fn lemma_digit_char(n: nat)
    requires
        n < 10,
    ensures
        is_digit(digit_char(n)),
        digit_value(digit_char(n)) == n,
{
}

proof fn lemma_decompose(v: nat)
    ensures
        v == (v / 3_600_000) * 3_600_000 + ((v / 60_000) % 60) * 60_000 + ((v / 1000) % 60) * 1000
            + v % 1000,
{
    let a = v / 1000;
    let b = a / 60;
    lemma_fundamental_div_mod(v as int, 1000);
    lemma_fundamental_div_mod(a as int, 60);
    lemma_fundamental_div_mod(b as int, 60);
    lemma_div_denominator(v as int, 1000, 60);
    lemma_div_denominator(v as int, 60_000, 60);
    assert(v / 60_000 == b);
    assert(v / 3_600_000 == b / 60);
}

/// Every duration under a hundred hours is written as a well-formed timestamp
/// text that reads back as the same duration.
pub proof fn lemma_timestamp_text_reads_back(v: nat)
    requires
        v < 360_000_000,
    ensures
        is_timestamp_text(timestamp_text(v)),
        timestamp_text_value(timestamp_text(v)) == v,
{
    let h = v / 3_600_000;
    let m = (v / 60_000) % 60;
    let sec = (v / 1000) % 60;
    let ms = v % 1000;
    let t = timestamp_text(v);
    if h >= 10 {
        assert(decimal((h / 10) as nat) == seq![digit_char((h / 10) as nat)]);
        assert(hours_text(h) =~= seq![digit_char(h / 10), digit_char(h % 10)]);
    }
    assert(hours_text(h) =~= seq![digit_char(h / 10), digit_char(h % 10)]);
    assert(t =~= seq![
        digit_char(h / 10),
        digit_char(h % 10),
        ':',
        digit_char((m / 10) % 10),
        digit_char(m % 10),
        ':',
        digit_char((sec / 10) % 10),
        digit_char(sec % 10),
        ',',
        digit_char((ms / 100) % 10),
        digit_char((ms / 10) % 10),
        digit_char(ms % 10),
    ]);
    lemma_digit_char(h / 10);
    lemma_digit_char(h % 10);
    lemma_digit_char((m / 10) % 10);
    lemma_digit_char(m % 10);
    lemma_digit_char((sec / 10) % 10);
    lemma_digit_char(sec % 10);
    lemma_digit_char((ms / 100) % 10);
    lemma_digit_char((ms / 10) % 10);
    lemma_digit_char(ms % 10);
    assert(two_digits(t, 0) == h);
    assert(two_digits(t, 3) == m);
    assert(two_digits(t, 6) == sec);
    assert(100 * digit_value(t[9]) + 10 * digit_value(t[10]) + digit_value(t[11]) == ms);
    lemma_decompose(v);
}

/// Reading a timestamp, writing it and reading it again gives the same duration,
/// wherever the first reading is under a hundred hours.
pub proof fn lemma_timestamp_round_trip(s: Seq<char>)
    requires
        is_timestamp_text(s),
        timestamp_text_value(s) < 360_000_000,
    ensures
        is_timestamp_text(timestamp_text(timestamp_text_value(s))),
        timestamp_text_value(timestamp_text(timestamp_text_value(s))) == timestamp_text_value(s),
{
    lemma_timestamp_text_reads_back(timestamp_text_value(s));
}

/// Delaying by `a` and then by `b` is delaying by `a + b`, wherever the
/// intermediate and final durations are in range.
pub proof fn lemma_delay_composes(v: nat, a: int, b: int)
    requires
        delay_in_range(v, a),
        delay_in_range(delayed_value(v, a), b),
    ensures
        delay_in_range(v, a + b),
        delayed_value(delayed_value(v, a), b) == delayed_value(v, a + b),
{
}

/// A delay of zero leaves every timestamp, and its text, as it is.
pub proof fn lemma_delay_zero(v: nat)
    requires
        v <= u64::MAX,
    ensures
        delay_in_range(v, 0),
        delayed_value(v, 0) == v,
        timestamp_text(delayed_value(v, 0)) == timestamp_text(v),
{
}

} // verus!
