//! Timestamps of scheduled items: `SCHEDULED: <2021-08-28 Sat 10:00-11:00 +1w>`.
use vstd::prelude::*;

use crate::number::{digit_value, digits_value, parse_digits};
use crate::result::digit_char;
use crate::text::{chars_of, is_digit, string_of};

verus! {

/// What kind of date a timestamp line carries.
#[derive(Debug, Clone, Copy, PartialEq, Eq, Structural)]
pub enum OrgDatePlan {
    /// SCHEDULED dates
    Scheduled,
    /// DEADLINE dates
    Deadline,
    /// Just plain dates, no DEADLINE or SCHEDULED prefix
    Plain,
}

/// A day of the calendar.
#[derive(Debug, Clone, Copy, PartialEq, Eq, Structural)]
pub struct CalendarDate {
    pub year: i32,
    pub month: u32,
    pub day: u32,
}

/// A moment: a day and a time of that day.
#[derive(Debug, Clone, Copy, PartialEq, Eq, Structural)]
pub struct Timestamp {
    pub year: i32,
    pub month: u32,
    pub day: u32,
    pub hour: u32,
    pub minute: u32,
    pub second: u32,
}

impl Timestamp {
    pub open spec fn spec_date(&self) -> CalendarDate {
        CalendarDate { year: self.year, month: self.month, day: self.day }
    }

    /// The day of this moment.
    #[verifier::when_used_as_spec(spec_date)]
    pub fn date(&self) -> (r: CalendarDate)
        ensures
            r == self.spec_date(),
    {
        CalendarDate { year: self.year, month: self.month, day: self.day }
    }

    /// The moment is the very start of its day.
    pub open spec fn is_midnight(&self) -> bool {
        self.hour == 0 && self.minute == 0 && self.second == 0
    }
}

/// A parsed timestamp.
#[derive(Debug)]
pub struct OrgDateTime {
    /// <...> is for active dates, [...] is for passive dates.
    pub is_active: bool,
    /// Is it SCHEDULED, DEADLINE or just plain date?
    pub date_plan: OrgDatePlan,
    /// First date found in the timestamp.
    pub date_start: Timestamp,
    /// End of a `HH:MM-HH:MM` range, on the day of `date_start`.
    pub date_end: Option<Timestamp>,
    /// Repeat interval, kept as written.
    pub invertal: Option<String>,
}

/// The content of an [`OrgDateTime`] as plain values.
pub struct DateTimeView {
    pub is_active: bool,
    pub date_plan: OrgDatePlan,
    pub date_start: Timestamp,
    pub date_end: Option<Timestamp>,
    pub invertal: Option<Seq<char>>,
}

impl OrgDateTime {
    pub open spec fn view(&self) -> DateTimeView {
        DateTimeView {
            is_active: self.is_active,
            date_plan: self.date_plan,
            date_start: self.date_start,
            date_end: self.date_end,
            invertal: match self.invertal {
                Some(s) => Some(s@),
                None => None,
            },
        }
    }

    /// Compares with `other` when both have the same plan: by day alone with
    /// `compare2` when `other` starts at midnight, by the full moment with
    /// `compare1` otherwise. Only `other`'s time of day is looked at.
    pub fn compare_with<F1, F2>(&self, other: &Self, compare1: F1, compare2: F2) -> (r: bool) where
        F1: Fn(&Timestamp, &Timestamp) -> bool,
        F2: Fn(&CalendarDate, &CalendarDate) -> bool,

        requires
            forall|a: &Timestamp, b: &Timestamp| compare1.requires((a, b)),
            forall|a: &CalendarDate, b: &CalendarDate| compare2.requires((a, b)),
        ensures
            self.date_plan != other.date_plan ==> !r,
            self.date_plan == other.date_plan && other.date_start.is_midnight() ==> compare2.ensures(
                (&self.date_start.spec_date(), &other.date_start.spec_date()),
                r,
            ),
            self.date_plan == other.date_plan && !other.date_start.is_midnight() ==> compare1.ensures(
                (&self.date_start, &other.date_start),
                r,
            ),
    {
        let compare_only_dates = other.date_start.hour == 0 && other.date_start.minute == 0
            && other.date_start.second == 0;
        if self.date_plan != other.date_plan {
            false
        } else if compare_only_dates {
            compare2(&self.date_start.date(), &other.date_start.date())
        } else {
            compare1(&self.date_start, &other.date_start)
        }
    }
}

/// A leap year of the Gregorian calendar.
pub open spec fn is_leap_year(y: int) -> bool {
    (y % 4 == 0 && y % 100 != 0) || y % 400 == 0
}

/// Number of days of month `m` of year `y`.
pub open spec fn days_in_month(y: int, m: int) -> int {
    if m == 2 {
        if is_leap_year(y) {
            29
        } else {
            28
        }
    } else if m == 4 || m == 6 || m == 9 || m == 11 {
        30
    } else {
        31
    }
}

/// `y-m-d` is a day of the Gregorian calendar.
pub open spec fn valid_date(y: int, m: int, d: int) -> bool {
    1 <= m <= 12 && 1 <= d <= days_in_month(y, m)
}

/// Relies on `chrono::NaiveDate::from_ymd_opt`: `Some` exactly for the days of
/// the proleptic Gregorian calendar within its year range, which holds 0..=9999.
#[verifier::external_body]
fn date_exists(year: i32, month: u32, day: u32) -> (r: bool)
    requires
        0 <= year <= 9999,
    ensures
        r == valid_date(year as int, month as int, day as int),
{
    chrono::NaiveDate::from_ymd_opt(year, month, day).is_some()
}

/// An ASCII letter, of which weekday names are made.
pub open spec fn is_letter(c: char) -> bool {
    ('a' <= c && c <= 'z') || ('A' <= c && c <= 'Z')
}

fn letter(c: char) -> (r: bool)
    ensures
        r == is_letter(c),
{
    ('a' <= c && c <= 'z') || ('A' <= c && c <= 'Z')
}

/// First position at or after `i` that does not hold a space.
pub open spec fn skip_blanks(s: Seq<char>, i: int) -> int
    decreases s.len() - i,
{
    if 0 <= i < s.len() && s[i] == ' ' {
        skip_blanks(s, i + 1)
    } else {
        i
    }
}

/// The number written by the `n` digits at `i`, if there are `n` digits there.
pub open spec fn fixed_digits(s: Seq<char>, i: int, n: int) -> Option<nat> {
    let d = s.subrange(i, i + n);
    if 0 <= i && i + n <= s.len() && forall|k: int| 0 <= k < n ==> is_digit(#[trigger] d[k]) {
        Some(digits_value(d))
    } else {
        None
    }
}

/// A time of day `HH:MM` at `i`, hour and minute.
pub open spec fn time_at(s: Seq<char>, i: int) -> Option<(nat, nat)> {
    match (fixed_digits(s, i, 2), fixed_digits(s, i + 3, 2)) {
        (Some(h), Some(m)) => if s[i + 2] == ':' {
            Some((h, m))
        } else {
            None
        },
        _ => None,
    }
}

/// `HH:MM` is a time of day.
pub open spec fn valid_time(hm: (nat, nat)) -> bool {
    hm.0 < 24 && hm.1 < 60
}

/// The date, optional weekday and optional time range that begin at `i`:
/// the start, the end, and the position after them.
#[verifier::opaque]
pub open spec fn date_time_range_at(s: Seq<char>, i: int) -> Option<(Timestamp, Option<Timestamp>, int)> {
    match (fixed_digits(s, i, 4), fixed_digits(s, i + 5, 2), fixed_digits(s, i + 8, 2)) {
        (Some(y), Some(mo), Some(d)) => {
            if s[i + 4] != '-' || s[i + 7] != '-' || !valid_date(y as int, mo as int, d as int) {
                None
            } else {
                let p = skip_blanks(s, i + 10);
                let p = if p + 3 <= s.len() && is_letter(s[p]) && is_letter(s[p + 1]) && is_letter(s[p + 2]) {
                    p + 3
                } else {
                    p
                };
                let p = skip_blanks(s, p);
                let day = |h: nat, m: nat| Timestamp {
                    year: y as i32,
                    month: mo as u32,
                    day: d as u32,
                    hour: h as u32,
                    minute: m as u32,
                    second: 0,
                };
                if p < s.len() && is_digit(s[p]) {
                    match time_at(s, p) {
                        None => None,
                        Some(t1) => if !valid_time(t1) {
                            None
                        } else if p + 5 < s.len() && s[p + 5] == '-' {
                            match time_at(s, p + 6) {
                                Some(t2) => if valid_time(t2) {
                                    Some((day(t1.0, t1.1), Some(day(t2.0, t2.1)), p + 11))
                                } else {
                                    None
                                },
                                None => None,
                            }
                        } else {
                            Some((day(t1.0, t1.1), None, p + 5))
                        },
                    }
                } else {
                    Some((day(0, 0), None, p))
                }
            }
        },
        _ => None,
    }
}

/// `DEADLINE:`, the label of a deadline.
pub open spec fn deadline_word() -> Seq<char> {
    seq!['D', 'E', 'A', 'D', 'L', 'I', 'N', 'E', ':']
}

/// `SCHEDULED:`, the label of a scheduled date.
pub open spec fn scheduled_word() -> Seq<char> {
    seq!['S', 'C', 'H', 'E', 'D', 'U', 'L', 'E', 'D', ':']
}

/// `w` is written at position `i` of `s`.
pub open spec fn word_at(s: Seq<char>, i: int, w: Seq<char>) -> bool {
    0 <= i && i + w.len() <= s.len() && s.subrange(i, i + w.len()) == w
}

/// First position at or after `i` that holds `>` or `]`, or the end.
pub open spec fn closer_from(s: Seq<char>, i: int) -> int
    decreases s.len() - i,
{
    if i < 0 || i >= s.len() || s[i] == '>' || s[i] == ']' {
        i
    } else {
        closer_from(s, i + 1)
    }
}

/// The timestamp that `s` begins with: an optional `DEADLINE:` or `SCHEDULED:`,
/// spaces, then `<...>` (active) or `[...]` (inactive) around a date
/// `YYYY-MM-DD`, an optional weekday of three ASCII letters, an optional `HH:MM` or
/// `HH:MM-HH:MM`, and an optional repeat interval kept verbatim. What follows
/// the closing bracket is not looked at.
pub open spec fn timestamp_of(s: Seq<char>) -> Option<DateTimeView> {
    let (plan, p) = if word_at(s, 0, deadline_word()) {
        (OrgDatePlan::Deadline, 9int)
    } else if word_at(s, 0, scheduled_word()) {
        (OrgDatePlan::Scheduled, 10int)
    } else {
        (OrgDatePlan::Plain, 0int)
    };
    let p = skip_blanks(s, p);
    if p >= s.len() || (s[p] != '<' && s[p] != '[') {
        None
    } else {
        let active = s[p] == '<';
        match date_time_range_at(s, p + 1) {
            None => None,
            Some((start, end, q)) => {
                let q = skip_blanks(s, q);
                let k = closer_from(s, q);
                if k >= s.len() || s[k] != (if active { '>' } else { ']' }) {
                    None
                } else {
                    Some(DateTimeView {
                        is_active: active,
                        date_plan: plan,
                        date_start: start,
                        date_end: end,
                        invertal: if k > q { Some(s.subrange(q, k)) } else { None },
                    })
                }
            },
        }
    }
}

/// The timestamp could not be read.
#[derive(Debug, Clone, Copy, PartialEq, Eq, Structural)]
pub struct TimestampError;

fn skip_spaces(s: &Vec<char>, i: usize) -> (r: usize)
    requires
        i <= s@.len(),
    ensures
        r == skip_blanks(s@, i as int),
        i <= r <= s@.len(),
{
    let mut j = i;
    while j < s.len() && s[j] == ' '
        invariant
            i <= j <= s@.len(),
            skip_blanks(s@, i as int) == skip_blanks(s@, j as int),
        decreases s@.len() - j,
    {
        j = j + 1;
    }
    j
}

fn read_digits(s: &Vec<char>, i: usize, n: usize) -> (r: Option<u32>)
    requires
        1 <= n <= 4,
    ensures
        match fixed_digits(s@, i as int, n as int) {
            Some(v) => r == Some(v as u32) && v <= u32::MAX,
            None => r is None,
        },
{
    if i > s.len() || n > s.len() - i {
        return None;
    }
    let ghost d = s@.subrange(i as int, i + n);
    match parse_digits(s.as_slice(), i, i + n) {
        Some(v) => {
            assert(forall|k: int| 0 <= k < n ==> is_digit(#[trigger] d[k]));
            Some(v)
        },
        None => {
            proof {
                if forall|k: int| 0 <= k < n ==> is_digit(#[trigger] d[k]) {
                    lemma_small_digits(d);
                }
            }
            None
        },
    }
}

proof fn lemma_small_digits(d: Seq<char>)
    requires
        d.len() <= 4,
        forall|k: int| 0 <= k < d.len() ==> is_digit(#[trigger] d[k]),
    ensures
        d.len() <= 1 ==> digits_value(d) < 10,
        d.len() <= 2 ==> digits_value(d) < 100,
        d.len() <= 3 ==> digits_value(d) < 1000,
        digits_value(d) < 10000,
    decreases d.len(),
{
    if d.len() > 0 {
        lemma_small_digits(d.drop_last());
        assert(is_digit(d[d.len() - 1]));
        assert(crate::number::digit_value(d.last()) <= 9);
    }
}

fn read_time(s: &Vec<char>, i: usize) -> (r: Option<(u32, u32)>)
    ensures
        match time_at(s@, i as int) {
            Some(t) => r == Some((t.0 as u32, t.1 as u32)) && t.0 <= u32::MAX && t.1 <= u32::MAX,
            None => r is None,
        },
{
    if i > s.len() || s.len() - i < 5 {
        return None;
    }
    let h = read_digits(s, i, 2);
    let m = read_digits(s, i + 3, 2);
    match (h, m) {
        (Some(h), Some(m)) => if s[i + 2] == ':' {
            Some((h, m))
        } else {
            None
        },
        _ => None,
    }
}

/// Reads the date, optional weekday and optional time range that begin at
/// position `i` of `s`: the start, the end, and the position after them.
pub fn date_time_range(s: &Vec<char>, i: usize) -> (r: Option<(Timestamp, Option<Timestamp>, usize)>)
    requires
        i <= s@.len(),
    ensures
        match date_time_range_at(s@, i as int) {
            Some((a, b, p)) => r == Some((a, b, p as usize)) && i <= p <= s@.len(),
            None => r is None,
        },
{
    reveal(date_time_range_at);
    if s.len() - i < 10 {
        return None;
    }
    let y = read_digits(s, i, 4);
    let mo = read_digits(s, i + 5, 2);
    let d = read_digits(s, i + 8, 2);
    let (y, mo, d) = match (y, mo, d) {
        (Some(y), Some(mo), Some(d)) => (y, mo, d),
        _ => return None,
    };
    proof {
        lemma_small_digits(s@.subrange(i as int, i + 4));
    }
    if s[i + 4] != '-' || s[i + 7] != '-' || !date_exists(y as i32, mo, d) {
        return None;
    }
    let mut p = skip_spaces(s, i + 10);
    if p < s.len() && s.len() - p >= 3 && letter(s[p]) && letter(s[p + 1]) && letter(s[p + 2]) {
        p = p + 3;
    }
    p = skip_spaces(s, p);
    if p < s.len() && '0' <= s[p] && s[p] <= '9' {
        match read_time(s, p) {
            None => None,
            Some((h1, m1)) => {
                if !(h1 < 24 && m1 < 60) {
                    return None;
                }
                let start = Timestamp { year: y as i32, month: mo, day: d, hour: h1, minute: m1, second: 0 };
                if p + 5 < s.len() && s[p + 5] == '-' {
                    match read_time(s, p + 6) {
                        Some((h2, m2)) => if h2 < 24 && m2 < 60 {
                            let end = Timestamp { year: y as i32, month: mo, day: d, hour: h2, minute: m2, second: 0 };
                            Some((start, Some(end), p + 11))
                        } else {
                            None
                        },
                        None => None,
                    }
                } else {
                    Some((start, None, p + 5))
                }
            },
        }
    } else {
        Some((Timestamp { year: y as i32, month: mo, day: d, hour: 0, minute: 0, second: 0 }, None, p))
    }
}

fn word_at_exec(s: &Vec<char>, w: &Vec<char>) -> (r: bool)
    ensures
        r == word_at(s@, 0, w@),
{
    if w.len() > s.len() {
        return false;
    }
    let mut k: usize = 0;
    while k < w.len()
        invariant
            w@.len() <= s@.len(),
            k <= w@.len(),
            forall|j: int| 0 <= j < k ==> s@[j] == w@[j],
        decreases w@.len() - k,
    {
        if s[k] != w[k] {
            assert(s@.subrange(0, w@.len() as int)[k as int] != w@[k as int]);
            return false;
        }
        k = k + 1;
    }
    assert(s@.subrange(0, w@.len() as int) == w@);
    true
}

/// Reads the timestamp that `line` begins with.
pub fn org_date_time(line: &str) -> (r: Result<OrgDateTime, TimestampError>)
    ensures
        match timestamp_of(line@) {
            Some(v) => r matches Ok(t) && t.view() == v,
            None => r is Err,
        },
{
    let s = chars_of(line);
    let deadline = vec!['D', 'E', 'A', 'D', 'L', 'I', 'N', 'E', ':'];
    let scheduled = vec!['S', 'C', 'H', 'E', 'D', 'U', 'L', 'E', 'D', ':'];
    assert(deadline@ == deadline_word());
    assert(scheduled@ == scheduled_word());
    let (plan, p) = if word_at_exec(&s, &deadline) {
        (OrgDatePlan::Deadline, 9usize)
    } else if word_at_exec(&s, &scheduled) {
        (OrgDatePlan::Scheduled, 10usize)
    } else {
        (OrgDatePlan::Plain, 0usize)
    };
    let p = skip_spaces(&s, p);
    if p >= s.len() || (s[p] != '<' && s[p] != '[') {
        return Err(TimestampError);
    }
    let active = s[p] == '<';
    let range = date_time_range(&s, p + 1);
    let (start, end, q) = match range {
        Some(x) => x,
        None => return Err(TimestampError),
    };
    assert(date_time_range_at(s@, p + 1) == Some((start, end, q as int)));
    let q = skip_spaces(&s, q);
    let mut k = q;
    while k < s.len() && s[k] != '>' && s[k] != ']'
        invariant
            q <= k <= s@.len(),
            closer_from(s@, q as int) == closer_from(s@, k as int),
        decreases s@.len() - k,
    {
        k = k + 1;
    }
    assert(closer_from(s@, k as int) == k);
    let closer = if active { '>' } else { ']' };
    if k >= s.len() || s[k] != closer {
        return Err(TimestampError);
    }
    let invertal = if k > q {
        Some(string_of(s.as_slice(), q, k))
    } else {
        None
    };
    Ok(OrgDateTime { is_active: active, date_plan: plan, date_start: start, date_end: end, invertal })
}

/// Two decimal digits for `n`.
pub open spec fn two(n: nat) -> Seq<char> {
    seq![digit_char(n / 10), digit_char(n % 10)]
}

/// Four decimal digits for `n`.
pub open spec fn four(n: nat) -> Seq<char> {
    seq![digit_char(n / 1000), digit_char((n / 100) % 10), digit_char((n / 10) % 10), digit_char(n % 10)]
}

/// `YYYY-MM-DD` of a moment.
pub open spec fn date_text(t: Timestamp) -> Seq<char> {
    four(t.year as nat) + seq!['-'] + two(t.month as nat) + seq!['-'] + two(t.day as nat)
}

/// `HH:MM` of a moment.
pub open spec fn time_text(t: Timestamp) -> Seq<char> {
    two(t.hour as nat) + seq![':'] + two(t.minute as nat)
}

/// The label written before a timestamp of plan `p`.
pub open spec fn plan_label(p: OrgDatePlan) -> Seq<char> {
    match p {
        OrgDatePlan::Deadline => deadline_word() + seq![' '],
        OrgDatePlan::Scheduled => scheduled_word() + seq![' '],
        OrgDatePlan::Plain => Seq::empty(),
    }
}

/// A timestamp written out: label, opening bracket, date, start time, end
/// time if any, repeat interval if any, closing bracket.
pub open spec fn render_timestamp(v: DateTimeView) -> Seq<char> {
    plan_label(v.date_plan) + seq![if v.is_active { '<' } else { '[' }] + date_text(v.date_start) + seq![' ']
        + time_text(v.date_start) + end_text(v.date_end) + (interval_text(v.invertal) + seq![
        if v.is_active {
            '>'
        } else {
            ']'
        },
    ])
}

/// `-HH:MM` of an end time, if there is one.
pub open spec fn end_text(end: Option<Timestamp>) -> Seq<char> {
    match end {
        Some(e) => seq!['-'] + time_text(e),
        None => Seq::empty(),
    }
}

/// A space and the repeat interval, if there is one.
pub open spec fn interval_text(iv: Option<Seq<char>>) -> Seq<char> {
    match iv {
        Some(x) => seq![' '] + x,
        None => Seq::empty(),
    }
}

/// What every timestamp read from text satisfies.
pub open spec fn well_formed(v: DateTimeView) -> bool {
    let t = v.date_start;
    &&& 0 <= t.year <= 9999
    &&& valid_date(t.year as int, t.month as int, t.day as int)
    &&& t.hour < 24 && t.minute < 60 && t.second == 0
    &&& match v.date_end {
        Some(e) => e.year == t.year && e.month == t.month && e.day == t.day && e.hour < 24 && e.minute < 60
            && e.second == 0,
        None => true,
    }
    &&& match v.invertal {
        Some(iv) => iv.len() > 0 && iv[0] != ' ' && forall|j: int| 0 <= j < iv.len() ==> (#[trigger] iv[j]) != '>' && iv[j] != ']',
        None => true,
    }
}

proof fn lemma_digit_char(d: nat)
    requires
        d < 10,
    ensures
        is_digit(digit_char(d)),
        digit_value(digit_char(d)) == d,
        !is_letter(digit_char(d)),
        digit_char(d) != ' ',
{
}

proof fn lemma_two(n: nat)
    requires
        n < 100,
    ensures
        fixed_digits(two(n), 0, 2) == Some(n),
{
    lemma_digit_char(n / 10);
    lemma_digit_char(n % 10);
    let d = two(n);
    assert(d.subrange(0, 2) == d);
    let d1 = d.drop_last();
    assert(d1 =~= seq![digit_char(n / 10)]);
    assert(d1.drop_last() =~= Seq::<char>::empty());
    assert(digits_value(Seq::<char>::empty()) == 0);
    assert(digits_value(d1) == n / 10);
    assert(digits_value(d) == (n / 10) * 10 + n % 10);
    assert(forall|k: int| 0 <= k < 2 ==> is_digit(#[trigger] d.subrange(0, 2)[k]));
}

proof fn lemma_four(n: nat)
    requires
        n < 10000,
    ensures
        fixed_digits(four(n), 0, 4) == Some(n),
{
    lemma_digit_char(n / 1000);
    lemma_digit_char((n / 100) % 10);
    lemma_digit_char((n / 10) % 10);
    lemma_digit_char(n % 10);
    let d = four(n);
    assert(d.subrange(0, 4) == d);
    let d3 = d.drop_last();
    let d2 = d3.drop_last();
    let d1 = d2.drop_last();
    assert(d3 =~= seq![digit_char(n / 1000), digit_char((n / 100) % 10), digit_char((n / 10) % 10)]);
    assert(d2 =~= seq![digit_char(n / 1000), digit_char((n / 100) % 10)]);
    assert(d1 =~= seq![digit_char(n / 1000)]);
    assert(d1.drop_last() =~= Seq::<char>::empty());
    assert(digits_value(Seq::<char>::empty()) == 0);
    assert(forall|k: int| 0 <= k < 4 ==> is_digit(#[trigger] d.subrange(0, 4)[k]));
    assert(digits_value(d1) == n / 1000);
    assert(digits_value(d2) == (n / 1000) * 10 + (n / 100) % 10);
    assert(digits_value(d3) == ((n / 1000) * 10 + (n / 100) % 10) * 10 + (n / 10) % 10);
    assert(digits_value(d) == (((n / 1000) * 10 + (n / 100) % 10) * 10 + (n / 10) % 10) * 10 + n % 10);
    assert((((n / 1000) * 10 + (n / 100) % 10) * 10 + (n / 10) % 10) * 10 + n % 10 == n) by (nonlinear_arith)
        requires n < 10000;
}

/// Digits found at `i` of `s` are the digits of the piece of `s` there.
proof fn lemma_fixed_digits_at(s: Seq<char>, i: int, d: Seq<char>)
    requires
        0 <= i,
        i + d.len() <= s.len(),
        s.subrange(i, i + d.len()) == d,
    ensures
        fixed_digits(s, i, d.len() as int) == fixed_digits(d, 0, d.len() as int),
{
    assert(d.subrange(0, d.len() as int) == d);
}

proof fn lemma_closer_from(s: Seq<char>, i: int, k: int)
    requires
        0 <= i <= k < s.len(),
        forall|j: int| i <= j < k ==> s[j] != '>' && s[j] != ']',
        s[k] == '>' || s[k] == ']',
    ensures
        closer_from(s, i) == k,
    decreases k - i,
{
    if i < k {
        lemma_closer_from(s, i + 1, k);
    }
}

proof fn lemma_range_reads_back(s: Seq<char>, i: int, t: Timestamp, end: Option<Timestamp>)
    requires
        0 <= i,
        i + 17 <= s.len(),
        0 <= t.year <= 9999,
        valid_date(t.year as int, t.month as int, t.day as int),
        t.hour < 24 && t.minute < 60 && t.second == 0,
        s.subrange(i, i + 10) == date_text(t),
        s[i + 10] == ' ',
        s.subrange(i + 11, i + 16) == time_text(t),
        match end {
            Some(e) => e.year == t.year && e.month == t.month && e.day == t.day && e.hour < 24 && e.minute < 60
                && e.second == 0 && i + 22 <= s.len() && s[i + 16] == '-' && s.subrange(i + 17, i + 22) == time_text(e),
            None => s[i + 16] != '-',
        },
    ensures
        date_time_range_at(s, i) == Some((t, end, i + 16 + if end is Some { 6int } else { 0int })),
{
    reveal(date_time_range_at);
    let dt = date_text(t);
    lemma_four(t.year as nat);
    lemma_two(t.month as nat);
    lemma_two(t.day as nat);
    assert(s.subrange(i, i + 4) =~= dt.subrange(0, 4));
    assert(dt.subrange(0, 4) =~= four(t.year as nat));
    assert(s.subrange(i + 5, i + 7) =~= dt.subrange(5, 7));
    assert(dt.subrange(5, 7) =~= two(t.month as nat));
    assert(s.subrange(i + 8, i + 10) =~= dt.subrange(8, 10));
    assert(dt.subrange(8, 10) =~= two(t.day as nat));
    lemma_fixed_digits_at(s, i, four(t.year as nat));
    lemma_fixed_digits_at(s, i + 5, two(t.month as nat));
    lemma_fixed_digits_at(s, i + 8, two(t.day as nat));
    assert(s[i + 4] == dt[4] && s[i + 7] == dt[7]);
    lemma_two(t.hour as nat);
    lemma_two(t.minute as nat);
    lemma_digit_char((t.hour as nat) / 10);
    let tt = time_text(t);
    assert(s[i + 11] == tt[0]);
    assert(skip_blanks(s, i + 11) == i + 11);
    assert(skip_blanks(s, i + 10) == i + 11);
    assert(s.subrange(i + 11, i + 13) =~= tt.subrange(0, 2));
    assert(tt.subrange(0, 2) =~= two(t.hour as nat));
    assert(s.subrange(i + 14, i + 16) =~= tt.subrange(3, 5));
    assert(tt.subrange(3, 5) =~= two(t.minute as nat));
    lemma_fixed_digits_at(s, i + 11, two(t.hour as nat));
    lemma_fixed_digits_at(s, i + 14, two(t.minute as nat));
    assert(s[i + 13] == tt[2]);
    assert(time_at(s, i + 11) == Some((t.hour as nat, t.minute as nat)));
    match end {
        Some(e) => {
            lemma_two(e.hour as nat);
            lemma_two(e.minute as nat);
            let te = time_text(e);
            assert(s.subrange(i + 17, i + 19) =~= te.subrange(0, 2));
            assert(te.subrange(0, 2) =~= two(e.hour as nat));
            assert(s.subrange(i + 20, i + 22) =~= te.subrange(3, 5));
            assert(te.subrange(3, 5) =~= two(e.minute as nat));
            lemma_fixed_digits_at(s, i + 17, two(e.hour as nat));
            lemma_fixed_digits_at(s, i + 20, two(e.minute as nat));
            assert(s[i + 19] == te[2]);
            assert(time_at(s, i + 17) == Some((e.hour as nat, e.minute as nat)));
        },
        None => {},
    }
}

proof fn lemma_tail_reads_back(s: Seq<char>, next: int, iv: Option<Seq<char>>, close: char)
    requires
        0 <= next < s.len(),
        close == '>' || close == ']',
        s.subrange(next, s.len() as int) == (match iv {
            Some(x) => seq![' '] + x,
            None => Seq::<char>::empty(),
        }) + seq![close],
        match iv {
            Some(x) => x.len() > 0 && x[0] != ' ' && forall|j: int| 0 <= j < x.len() ==> (#[trigger] x[j]) != '>' && x[j] != ']',
            None => true,
        },
    ensures
        ({
            let q = skip_blanks(s, next);
            let k = closer_from(s, q);
            &&& k == s.len() - 1
            &&& s[k] == close
            &&& k >= q
            &&& (k > q) == (iv is Some)
            &&& iv matches Some(x) ==> s.subrange(q, k) == x
        }),
{
    let k = s.len() - 1;
    let tail = s.subrange(next, s.len() as int);
    assert(s[k] == tail[k - next]);
    match iv {
        Some(x) => {
            let u = seq![' '] + x;
            assert(tail == u + seq![close]);
            assert(tail.len() == x.len() + 2);
            assert(forall|m: int| 1 <= m <= x.len() ==> tail[m] == u[m] && u[m] == x[m - 1]);
            assert(s[next] == tail[0]);
            assert(s[next + 1] == tail[1]);
            assert(skip_blanks(s, next + 1) == next + 1);
            assert(skip_blanks(s, next) == next + 1);
            assert forall|j: int| next + 1 <= j < k implies s[j] != '>' && s[j] != ']' by {
                assert(s[j] == tail[j - next]);
                assert(tail[j - next] == x[j - next - 1]);
            }
            lemma_closer_from(s, next + 1, k);
            assert(s.subrange(next + 1, k) =~= x) by {
                assert forall|j: int| 0 <= j < x.len() implies s.subrange(next + 1, k)[j] == x[j] by {
                    assert(s[next + 1 + j] == tail[j + 1]);
                }
            }
        },
        None => {
            assert(k == next);
            assert(s[next] == tail[0]);
            assert(skip_blanks(s, next) == next);
            lemma_closer_from(s, next, k);
        },
    }
}

/// Where the label of plan `plan` ends, as `timestamp_of` finds it.
pub open spec fn label_scan(s: Seq<char>) -> (OrgDatePlan, int) {
    if word_at(s, 0, deadline_word()) {
        (OrgDatePlan::Deadline, 9int)
    } else if word_at(s, 0, scheduled_word()) {
        (OrgDatePlan::Scheduled, 10int)
    } else {
        (OrgDatePlan::Plain, 0int)
    }
}

proof fn lemma_label_reads_back(s: Seq<char>, plan: OrgDatePlan, open: char)
    requires
        open == '<' || open == '[',
        plan_label(plan).len() < s.len(),
        s.subrange(0, plan_label(plan).len() as int) == plan_label(plan),
        s[plan_label(plan).len() as int] == open,
    ensures
        label_scan(s).0 == plan,
        skip_blanks(s, label_scan(s).1) == plan_label(plan).len(),
{
    let lab = plan_label(plan);
    if plan == OrgDatePlan::Deadline {
        assert(s.subrange(0, 9) =~= deadline_word());
        assert(s[9] == lab[9]);
        assert(skip_blanks(s, 10) == 10);
        assert(skip_blanks(s, 9) == 10);
    } else if plan == OrgDatePlan::Scheduled {
        assert(s[0] == lab[0]);
        assert(s.subrange(0, 9)[0] != deadline_word()[0]);
        assert(s.subrange(0, 10) =~= scheduled_word());
        assert(s[10] == lab[10]);
        assert(skip_blanks(s, 11) == 11);
        assert(skip_blanks(s, 10) == 11);
    } else {
        if s.len() >= 9 {
            assert(s.subrange(0, 9)[0] != deadline_word()[0]);
        }
        if s.len() >= 10 {
            assert(s.subrange(0, 10)[0] != scheduled_word()[0]);
        }
        assert(skip_blanks(s, 0) == 0);
    }
}

proof fn lemma_layout(lab: Seq<char>, open: char, dt: Seq<char>, tt: Seq<char>, ep: Seq<char>, rest: Seq<char>)
    requires
        dt.len() == 10,
        tt.len() == 5,
    ensures
        ({
            let s = lab + seq![open] + dt + seq![' '] + tt + ep + rest;
            let p = lab.len() as int;
            &&& s.len() == p + 17 + ep.len() + rest.len()
            &&& s.subrange(0, p) == lab
            &&& s[p] == open
            &&& s.subrange(p + 1, p + 11) == dt
            &&& s[p + 11] == ' '
            &&& s.subrange(p + 12, p + 17) == tt
            &&& s.subrange(p + 17, p + 17 + ep.len()) == ep
            &&& s.subrange(p + 17 + ep.len(), s.len() as int) == rest
        }),
{
    let s = lab + seq![open] + dt + seq![' '] + tt + ep + rest;
    let p = lab.len() as int;
    assert(s.subrange(0, p) =~= lab);
    assert(s.subrange(p + 1, p + 11) =~= dt);
    assert(s.subrange(p + 12, p + 17) =~= tt);
    assert(s.subrange(p + 17, p + 17 + ep.len()) =~= ep);
    assert(s.subrange(p + 17 + ep.len(), s.len() as int) =~= rest);
}

proof fn lemma_end_layout(s: Seq<char>, j: int, end: Option<Timestamp>, rest: Seq<char>)
    requires
        0 <= j,
        j + end_text(end).len() + rest.len() == s.len(),
        s.subrange(j, j + end_text(end).len()) == end_text(end),
        s.subrange(j + end_text(end).len(), s.len() as int) == rest,
        rest.len() > 0,
        rest[0] != '-',
    ensures
        match end {
            Some(e) => j + 6 <= s.len() && s[j] == '-' && s.subrange(j + 1, j + 6) == time_text(e),
            None => s[j] != '-',
        },
{
    match end {
        Some(e) => {
            let et = end_text(end);
            assert(s[j] == et[0]);
            assert(s.subrange(j + 1, j + 6) =~= time_text(e)) by {
                assert forall|m: int| 0 <= m < 5 implies s.subrange(j + 1, j + 6)[m] == time_text(e)[m] by {
                    assert(s[j + 1 + m] == et[m + 1]);
                }
            }
        },
        None => {
            assert(s[j] == rest[0]);
        },
    }
}

/// A well-formed timestamp, written out, reads back as itself.
pub proof fn lemma_render_reads_back(v: DateTimeView)
    requires
        well_formed(v),
    ensures
        timestamp_of(render_timestamp(v)) == Some(v),
{
    let t = v.date_start;
    let open = if v.is_active { '<' } else { '[' };
    let close = if v.is_active { '>' } else { ']' };
    let lab = plan_label(v.date_plan);
    let ep = end_text(v.date_end);
    let rest = interval_text(v.invertal) + seq![close];
    let s = render_timestamp(v);
    let p = lab.len() as int;
    let i = p + 1;
    let next = i + 16 + ep.len();
    lemma_layout(lab, open, date_text(t), time_text(t), ep, rest);
    lemma_label_reads_back(s, v.date_plan, open);
    assert(rest[0] != '-') by {
        match v.invertal {
            Some(x) => assert(rest[0] == ' '),
            None => assert(rest[0] == close),
        }
    }
    lemma_end_layout(s, i + 16, v.date_end, rest);
    lemma_range_reads_back(s, i, t, v.date_end);
    lemma_tail_reads_back(s, next, v.invertal, close);
}

proof fn lemma_skip_blanks_stops(s: Seq<char>, i: int)
    ensures
        skip_blanks(s, i) >= i,
        0 <= skip_blanks(s, i) < s.len() ==> s[skip_blanks(s, i)] != ' ',
    decreases s.len() - i,
{
    if 0 <= i < s.len() && s[i] == ' ' {
        lemma_skip_blanks_stops(s, i + 1);
    }
}

proof fn lemma_closer_from_skips(s: Seq<char>, i: int)
    ensures
        closer_from(s, i) >= i,
        forall|j: int| i <= j < closer_from(s, i) ==> s[j] != '>' && s[j] != ']',
    decreases s.len() - i,
{
    if 0 <= i < s.len() && s[i] != '>' && s[i] != ']' {
        lemma_closer_from_skips(s, i + 1);
    }
}

/// Every timestamp read from text is well formed.
pub proof fn lemma_read_is_well_formed(s: Seq<char>)
    ensures
        timestamp_of(s) matches Some(v) ==> well_formed(v),
{
    reveal(date_time_range_at);
    if let Some(v) = timestamp_of(s) {
        let (plan, p0) = label_scan(s);
        let p = skip_blanks(s, p0);
        let i = p + 1;
        lemma_skip_blanks_stops(s, p0);
        if fixed_digits(s, i, 4) is Some {
            lemma_small_digits(s.subrange(i, i + 4));
        }
        let (start, end, q0) = date_time_range_at(s, i)->0;
        lemma_skip_blanks_stops(s, q0);
        let q = skip_blanks(s, q0);
        lemma_closer_from_skips(s, q);
        let k = closer_from(s, q);
        if k > q {
            let iv = s.subrange(q, k);
            assert(iv[0] == s[q]);
            assert(forall|j: int| 0 <= j < iv.len() ==> (#[trigger] iv[j]) == s[q + j]);
        }
    }
}

/// Round trip of timestamps: whatever is read from a text, written out and
/// read again, gives the same plan, activity, start, end and interval.
pub proof fn lemma_timestamp_round_trip(s: Seq<char>)
    ensures
        timestamp_of(s) matches Some(v) ==> timestamp_of(render_timestamp(v)) == Some(v),
{
    lemma_read_is_well_formed(s);
    if let Some(v) = timestamp_of(s) {
        lemma_render_reads_back(v);
    }
}

fn push_digit(s: &mut String, d: u32)
    requires
        d < 10,
    ensures
        final(s)@ == old(s)@.push(digit_char(d as nat)),
{
    s.push(((d as u8) + 48u8) as char);
}

fn push_two(s: &mut String, n: u32)
    requires
        n < 100,
    ensures
        final(s)@ == old(s)@ + two(n as nat),
{
    push_digit(s, n / 10);
    push_digit(s, n % 10);
}

fn push_four(s: &mut String, n: u32)
    requires
        n < 10000,
    ensures
        final(s)@ == old(s)@ + four(n as nat),
{
    push_digit(s, n / 1000);
    push_digit(s, (n / 100) % 10);
    push_digit(s, (n / 10) % 10);
    push_digit(s, n % 10);
}

fn push_time(s: &mut String, t: &Timestamp)
    requires
        t.hour < 100,
        t.minute < 100,
    ensures
        final(s)@ == old(s)@ + time_text(*t),
{
    push_two(s, t.hour);
    s.push(':');
    push_two(s, t.minute);
}

impl OrgDateTime {
    /// The timestamp written out: label, bracket, `YYYY-MM-DD HH:MM`, the end
    /// time and the interval if any, closing bracket.
    pub fn to_org_string(&self) -> (r: String)
        requires
            0 <= self.date_start.year <= 9999,
            self.date_start.month < 100 && self.date_start.day < 100,
            self.date_start.hour < 100 && self.date_start.minute < 100,
            self.date_end matches Some(e) ==> e.hour < 100 && e.minute < 100,
        ensures
            r@ == render_timestamp(self.view()),
    {
        let ghost v = self.view();
        let mut s = String::new();
        match self.date_plan {
            OrgDatePlan::Deadline => {
                s.append("DEADLINE: ");
            },
            OrgDatePlan::Scheduled => {
                s.append("SCHEDULED: ");
            },
            OrgDatePlan::Plain => {},
        }
        proof {
            reveal_strlit("DEADLINE: ");
            reveal_strlit("SCHEDULED: ");
            assert(s@ =~= plan_label(v.date_plan));
        }
        s.push(if self.is_active { '<' } else { '[' });
        let ghost head = s@;
        let t = &self.date_start;
        let mut d = String::new();
        push_four(&mut d, t.year as u32);
        d.push('-');
        push_two(&mut d, t.month);
        d.push('-');
        push_two(&mut d, t.day);
        d.push(' ');
        push_time(&mut d, t);
        assert(d@ =~= date_text(*t) + seq![' '] + time_text(*t));
        let mut tail = String::new();
        match &self.date_end {
            Some(e) => {
                tail.push('-');
                push_time(&mut tail, e);
            },
            None => {},
        }
        assert(tail@ =~= end_text(v.date_end));
        let mut last = String::new();
        match &self.invertal {
            Some(iv) => {
                last.push(' ');
                last.append(iv.as_str());
            },
            None => {},
        }
        last.push(if self.is_active { '>' } else { ']' });
        assert(last@ =~= interval_text(v.invertal) + seq![if v.is_active { '>' } else { ']' }]);
        s.append(d.as_str());
        s.append(tail.as_str());
        s.append(last.as_str());
        assert(s@ =~= render_timestamp(v));
        s
    }
}

fn same_text(a: &Option<String>, b: &Option<String>) -> (r: bool)
    ensures
        r == (match a {
            Some(x) => Some(x@),
            None => None,
        } == match b {
            Some(x) => Some(x@),
            None => None,
        }),
{
    match (a, b) {
        (Some(x), Some(y)) => x.eq(y),
        (None, None) => true,
        _ => false,
    }
}

impl PartialEq for OrgDateTime {
    fn eq(&self, other: &OrgDateTime) -> (r: bool) {
        let same_end = match (&self.date_end, &other.date_end) {
            (Some(x), Some(y)) => *x == *y,
            (None, None) => true,
            _ => false,
        };
        self.is_active == other.is_active && self.date_plan == other.date_plan && self.date_start == other.date_start
            && same_end && same_text(&self.invertal, &other.invertal)
    }
}

impl vstd::std_specs::cmp::PartialEqSpecImpl for OrgDateTime {
    open spec fn obeys_eq_spec() -> bool {
        true
    }

    open spec fn eq_spec(&self, other: &OrgDateTime) -> bool {
        self.view() == other.view()
    }
}

} // verus!
