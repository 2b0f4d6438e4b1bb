//! Time stamps of the form `2024-12-03T14:00:00.000Z`.
use crate::digits::{parse_unsigned, unsigned_value};
use crate::split::{pieces, split, texts};
use crate::text::{drop_leading, trim, trim_leading, trimmed, CharClass};
use vstd::prelude::*;
use vstd::string::*;
use vstd::utf8::*;

verus! {

/// The fields of a time stamp.
pub struct IsoFields {
    pub year: i64,
    pub month: i64,
    pub day: i64,
    pub hour: i64,
    pub minute: i64,
    pub second: i64,
}

/// The number that the `i`-th piece writes, where it fits in an `i64`.
pub open spec fn field(parts: Seq<Seq<char>>, i: int) -> Option<int> {
    if 0 <= i < parts.len() {
        match unsigned_value(parts[i]) {
            Some(v) => if v <= i64::MAX {
                Some(v)
            } else {
                None
            },
            None => None,
        }
    } else {
        None
    }
}

/// The fields of a trimmed time stamp of at least 19 bytes: a date in its first
/// ten bytes, and a clock time after them. There are none where byte ten lies
/// inside a character. What follows the third piece of the date is not looked at.
pub open spec fn fields_of(t: Seq<char>) -> Option<IsoFields> {
    let bytes = encode_utf8(t);
    if bytes.len() < 19 || !is_char_boundary(bytes, 10) {
        None
    } else {
        let head = decode_utf8(bytes.subrange(0, 10));
        let rest = decode_utf8(bytes.subrange(10, bytes.len() as int));
        let date = pieces(head, CharClass::Only('-'));
        let time = pieces(drop_leading(rest, CharClass::Only('T')), CharClass::ClockMark);
        match (
            field(date, 0),
            field(date, 1),
            field(date, 2),
            field(time, 0),
            field(time, 1),
            field(time, 2),
        ) {
            (Some(y), Some(mo), Some(d), Some(hh), Some(mm), Some(ss)) => Some(
                IsoFields {
                    year: y as i64,
                    month: mo as i64,
                    day: d as i64,
                    hour: hh as i64,
                    minute: mm as i64,
                    second: ss as i64,
                },
            ),
            _ => None,
        }
    }
}

/// The year of a date when years begin in March.
pub open spec fn march_year(year: int, month: int) -> int {
    if month <= 2 {
        year - 1
    } else {
        year
    }
}

/// The days from 1 March of the year 0 to day 0 of a month, in the 400-year
/// cycle that holds it, for years that begin in March.
pub open spec fn days_in_era(year: int, month: int) -> int {
    let y = march_year(year, month);
    let yoe = y % 400;
    let mp = if month > 2 {
        month - 3
    } else {
        month + 9
    };
    yoe * 365 + yoe / 4 - yoe / 100 + (153 * mp + 2) / 5
}

/// The days from 1 January 1970 to a date of the Gregorian calendar.
pub open spec fn days_from_epoch(year: int, month: int, day: int) -> int {
    (march_year(year, month) / 400) * 146097 + days_in_era(year, month) + day - 1 - 719468
}

/// The seconds from the start of 1970 to a time stamp.
pub open spec fn secs_from_epoch(f: IsoFields) -> int {
    days_from_epoch(f.year as int, f.month as int, f.day as int) * 86400 + f.hour * 3600 + f.minute
        * 60 + f.second
}

/// Can the time stamp be turned into milliseconds? Its date is not day 0 of the
/// March that begins a 400-year cycle, and its milliseconds fit in a `u64`.
pub open spec fn in_range(f: IsoFields) -> bool {
    &&& days_in_era(f.year as int, f.month as int) + f.day >= 1
    &&& secs_from_epoch(f) <= u64::MAX / 1000
}

/// The milliseconds from the start of 1970, counted from whole seconds; 0 before it.
pub open spec fn millis(f: IsoFields) -> int {
    if secs_from_epoch(f) > 0 {
        secs_from_epoch(f) * 1000
    } else {
        0
    }
}

/// The milliseconds that a time stamp writes, where it is well formed and in range.
pub open spec fn iso_ms(ts: Seq<char>) -> Option<u64> {
    match fields_of(trimmed(ts)) {
        Some(f) => if in_range(f) {
            Some(millis(f) as u64)
        } else {
            None
        },
        None => None,
    }
}

/// The `i`-th piece of a split text, as a number.
fn number_at(parts: &Vec<String>, i: usize) -> (r: Option<i64>)
    ensures
        match r {
            Some(v) => v >= 0 && field(texts(parts@), i as int) == Some(v as int),
            None => field(texts(parts@), i as int) is None,
        },
{
    if i < parts.len() {
        assert(texts(parts@)[i as int] == parts@[i as int]@);
        match parse_unsigned(parts[i].as_str(), i64::MAX as u64) {
            Some(v) => Some(v as i64),
            None => None,
        }
    } else {
        None
    }
}

/// The number that ten or fewer characters write is small.
proof fn lemma_small_field(s: Seq<char>)
    requires
        s.len() <= 10,
    ensures
        unsigned_value(s) matches Some(v) ==> 0 <= v < 10_000_000_000,
{
    if unsigned_value(s) is Some {
        let t = if s.len() > 0 && s[0] == '+' {
            s.drop_first()
        } else {
            s
        };
        reveal_with_fuel(crate::digits::dec_value, 11);
        lemma_small_value(t);
    }
}

/// The value of at most ten digits.
proof fn lemma_small_value(t: Seq<char>)
    requires
        t.len() <= 10,
        crate::digits::all_dec(t),
    ensures
        0 <= crate::digits::dec_value(t) < ten_to(t.len()),
        ten_to(t.len()) <= 10_000_000_000,
    decreases t.len(),
{
    if t.len() > 0 {
        let u = t.drop_last();
        assert forall|i: int| 0 <= i < u.len() implies crate::digits::is_dec(#[trigger] u[i]) by {
            assert(crate::digits::is_dec(t[i]));
        }
        lemma_small_value(u);
        assert(crate::digits::is_dec(t[t.len() - 1]));
    }
    lemma_ten_to(t.len());
}

/// Ten, multiplied `n` times.
spec fn ten_to(n: nat) -> int
    decreases n,
{
    if n == 0 {
        1
    } else {
        10 * ten_to((n - 1) as nat)
    }
}

/// Powers of ten up to the tenth.
proof fn lemma_ten_to(n: nat)
    requires
        n <= 10,
    ensures
        1 <= ten_to(n) <= 10_000_000_000,
{
    reveal_with_fuel(ten_to, 11);
}

/// No piece of a text is longer than the text.
proof fn lemma_pieces_short(s: Seq<char>, class: CharClass, i: int)
    requires
        0 <= i < pieces(s, class).len(),
    ensures
        pieces(s, class)[i].len() <= s.len(),
    decreases s.len(),
{
    let n = crate::split::first_of(s, class);
    crate::split::lemma_first_of(s, class);
    if n < s.len() && i > 0 {
        lemma_pieces_short(s.skip(n + 1), class, i - 1);
    }
}

/// A text has no more characters than bytes.
proof fn lemma_no_more_chars(s: Seq<char>)
    ensures
        s.len() <= encode_utf8(s).len(),
    decreases s.len(),
{
    if s.len() > 0 {
        lemma_no_more_chars(s.drop_first());
    }
}

/// The fields of the time stamp `t`, which has been trimmed. A date field has
/// at most ten digits.
fn read_fields(t: &str) -> (r: Option<IsoFields>)
    ensures
        r == fields_of(t@),
        r matches Some(f) ==> 0 <= f.year < 10_000_000_000 && 0 <= f.month < 10_000_000_000 && 0
            <= f.day < 10_000_000_000 && f.hour >= 0 && f.minute >= 0 && f.second >= 0,
{
    if t.as_bytes().len() < 19 || !t.is_char_boundary(10) {
        return None;
    }
    let (date, rest) = t.split_at(10);
    proof {
        encode_utf8_decode_utf8(date@);
        encode_utf8_decode_utf8(rest@);
        lemma_no_more_chars(date@);
    }
    let time = trim_leading(rest, CharClass::Only('T'));
    let dates = split(date, CharClass::Only('-'));
    let times = split(time, CharClass::ClockMark);
    proof {
        let parts = pieces(date@, CharClass::Only('-'));
        assert forall|i: int| 0 <= i < parts.len() implies (unsigned_value(
            #[trigger] parts[i],
        ) matches Some(v) ==> 0 <= v < 10_000_000_000) by {
            lemma_pieces_short(date@, CharClass::Only('-'), i);
            lemma_small_field(parts[i]);
        }
    }
    match (
        number_at(&dates, 0),
        number_at(&dates, 1),
        number_at(&dates, 2),
        number_at(&times, 0),
        number_at(&times, 1),
        number_at(&times, 2),
    ) {
        (Some(year), Some(month), Some(day), Some(hour), Some(minute), Some(second)) => Some(
            IsoFields { year, month, day, hour, minute, second },
        ),
        _ => None,
    }
}

/// The days from 1 March of the year 0 to day 0 of a month, in its 400-year cycle.
fn cycle_days(year: i64, month: i64) -> (r: i128)
    requires
        0 <= year < 10_000_000_000,
        0 <= month < 10_000_000_000,
    ensures
        r == days_in_era(year as int, month as int),
{
    let y: i64 = if month <= 2 {
        year - 1
    } else {
        year
    };
    let yoe: i128 = if y >= 0 {
        (y % 400) as i128
    } else {
        399
    };
    let mp: i128 = if month > 2 {
        (month - 3) as i128
    } else {
        (month + 9) as i128
    };
    yoe * 365 + yoe / 4 - yoe / 100 + (153 * mp + 2) / 5
}

/// The number of the 400-year cycle, of years that begin in March.
fn cycle_number(year: i64, month: i64) -> (r: i128)
    requires
        0 <= year < 10_000_000_000,
        0 <= month < 10_000_000_000,
    ensures
        r == march_year(year as int, month as int) / 400,
        -1 <= r < 25_000_000,
{
    let y: i64 = if month <= 2 {
        year - 1
    } else {
        year
    };
    if y >= 0 {
        (y / 400) as i128
    } else {
        -1
    }
}

/// The milliseconds from the start of 1970 to a time stamp such as
/// `2024-12-03T14:00:00.000Z`, counted in whole seconds. An offset from UTC
/// after the seconds is not looked at. `None` where the text is not a time
/// stamp or its time cannot be counted in a `u64`.
pub fn parse_iso_ms(ts: &str) -> (r: Option<u64>)
    ensures
        r == iso_ms(ts@),
{
    let f = match read_fields(trim(ts)) {
        Some(f) => f,
        None => return None,
    };
    let base: i128 = cycle_days(f.year, f.month);
    let day: i128 = f.day as i128;
    assert(-4_000_000 <= base < 400_000_000_000) by {
        lemma_cycle_days_bounds(f.year as int, f.month as int);
    }
    if base + day < 1 {
        return None;
    }
    let days: i128 = cycle_number(f.year, f.month) * 146097 + base + day - 1 - 719468;
    let secs: i128 = days * 86400 + (f.hour as i128) * 3600 + (f.minute as i128) * 60
        + f.second as i128;
    assert(secs == secs_from_epoch(f));
    if secs > (u64::MAX / 1000) as i128 {
        return None;
    }
    if secs > 0 {
        Some((secs as u64) * 1000)
    } else {
        Some(0)
    }
}

/// How large `days_in_era` can be for fields of at most ten digits.
proof fn lemma_cycle_days_bounds(year: int, month: int)
    requires
        0 <= year < 10_000_000_000,
        0 <= month < 10_000_000_000,
    ensures
        -4_000_000 <= days_in_era(year, month) < 400_000_000_000,
{
}

/// Is `year` a leap year of the Gregorian calendar?
pub open spec fn is_leap(year: int) -> bool {
    year % 4 == 0 && (year % 100 != 0 || year % 400 == 0)
}

/// The number of days in a month.
pub open spec fn month_days(year: int, month: int) -> int {
    if month == 2 {
        if is_leap(year) {
            29
        } else {
            28
        }
    } else if month == 4 || month == 6 || month == 9 || month == 11 {
        30
    } else {
        31
    }
}

/// The day after a date of the Gregorian calendar.
pub open spec fn next_day(year: int, month: int, day: int) -> (int, int, int) {
    if day < month_days(year, month) {
        (year, month, day + 1)
    } else if month < 12 {
        (year, month + 1, 1)
    } else {
        (year + 1, 1, 1)
    }
}

/// Day 0 is 1 January 1970.
pub proof fn law_epoch_is_day_zero()
    ensures
        days_from_epoch(1970, 1, 1) == 0,
{
}

/// Each day of the Gregorian calendar has the number after that of the day before it.
pub proof fn law_days_count_up(year: int, month: int, day: int)
    requires
        1 <= month <= 12,
        1 <= day <= month_days(year, month),
    ensures
        ({
            let (y, m, d) = next_day(year, month, day);
            days_from_epoch(y, m, d) == days_from_epoch(year, month, day) + 1
        }),
{
    if day == month_days(year, month) && month == 2 {
        let y = year - 1;
        assert(year / 400 == y / 400 && year % 400 == y % 400 + 1 || year / 400 == y / 400 + 1
            && year % 400 == 0 && y % 400 == 399);
        assert(year % 4 == (year % 400) % 4);
        assert(year % 100 == (year % 400) % 100);
    }
}

/// The pieces of a text that begins with a field and a mark behind it.
proof fn lemma_field_first(a: Seq<char>, c: char, rest: Seq<char>, class: CharClass)
    requires
        class.has(c),
        forall|i: int| 0 <= i < a.len() ==> !class.has(#[trigger] a[i]),
    ensures
        pieces(a + seq![c] + rest, class) == seq![a] + pieces(rest, class),
{
    let s = a + seq![c] + rest;
    let n = a.len() as int;
    assert forall|i: int| 0 <= i < n implies !class.has(#[trigger] s[i]) by {
        assert(s[i] == a[i]);
    }
    crate::split::lemma_first_of_is(s, class, n);
    assert(s.take(n) =~= a);
    assert(s.skip(n + 1) =~= rest);
}

/// Are all characters digits?
pub open spec fn digits_only(s: Seq<char>) -> bool {
    s.len() > 0 && forall|i: int| 0 <= i < s.len() ==> crate::digits::is_dec(#[trigger] s[i])
}

/// The number that digits write.
proof fn lemma_field_value(s: Seq<char>)
    requires
        digits_only(s),
        s.len() <= 10,
    ensures
        unsigned_value(s) == Some(crate::digits::dec_value(s)),
        0 <= crate::digits::dec_value(s) < 10_000_000_000,
        forall|i: int|
            0 <= i < s.len() ==> !CharClass::Only('-').has(#[trigger] s[i])
                && !CharClass::ClockMark.has(s[i]),
{
    assert(crate::digits::is_dec(s[0]));
    lemma_small_value(s);
    assert forall|i: int| 0 <= i < s.len() implies !CharClass::Only('-').has(#[trigger] s[i])
        && !CharClass::ClockMark.has(s[i]) by {
        assert(crate::digits::is_dec(s[i]));
    }
}

/// A time stamp of the usual form is read field by field: year, month and day, hour, minute
/// and second; what follows the second, from a dot or a `Z` on, is not looked at.
pub proof fn law_stamp_is_read_by_field(
    y: Seq<char>,
    mo: Seq<char>,
    d: Seq<char>,
    hh: Seq<char>,
    mm: Seq<char>,
    ss: Seq<char>,
    tail: Seq<char>,
)
    requires
        digits_only(y) && y.len() == 4,
        digits_only(mo) && mo.len() == 2,
        digits_only(d) && d.len() == 2,
        digits_only(hh) && hh.len() == 2,
        digits_only(mm) && mm.len() == 2,
        digits_only(ss) && ss.len() == 2,
        tail.len() > 0,
        tail[0] == '.' || tail[0] == 'Z',
        tail.last() == 'Z',
        is_ascii_chars(tail),
    ensures
        ({
            let ts = y + seq!['-'] + (mo + seq!['-'] + d) + (seq!['T'] + (hh + seq![':'] + (mm
                + seq![':'] + (ss + tail))));
            fields_of(trimmed(ts)) matches Some(f) && f.year == crate::digits::dec_value(y)
                && f.month == crate::digits::dec_value(mo) && f.day == crate::digits::dec_value(d)
                && f.hour == crate::digits::dec_value(hh) && f.minute == crate::digits::dec_value(
                mm,
            ) && f.second == crate::digits::dec_value(ss)
        }),
{
    let head = y + seq!['-'] + (mo + seq!['-'] + d);
    let clock = hh + seq![':'] + (mm + seq![':'] + (ss + tail));
    let rest = seq!['T'] + clock;
    let ts = head + rest;
    let t = CharClass::Only('T');
    let dash = CharClass::Only('-');
    let mark = CharClass::ClockMark;
    lemma_field_value(y);
    lemma_field_value(mo);
    lemma_field_value(d);
    lemma_field_value(hh);
    lemma_field_value(mm);
    lemma_field_value(ss);
    assert(crate::digits::is_dec(y[0]));
    assert(ts[0] == y[0] && ts.last() == 'Z');
    crate::text::lemma_drop_leading_none(ts, CharClass::Whitespace);
    crate::text::lemma_drop_trailing_none(ts, CharClass::Whitespace);
    assert(trimmed(ts) == ts);

    lemma_ascii_stamp(y, mo, d, hh, mm, ss, tail);
    assert(is_ascii_chars(head) && is_ascii_chars(rest) && is_ascii_chars(ts)) by {
        assert(forall|i: int| 0 <= i < head.len() ==> head[i] == #[trigger] ts[i]);
        assert(forall|i: int| 0 <= i < rest.len() ==> #[trigger] rest[i] == ts[i + 10]);
    }
    is_ascii_chars_encode_utf8(ts);
    is_ascii_chars_encode_utf8(head);
    is_ascii_chars_encode_utf8(rest);
    let bytes = encode_utf8(ts);
    encode_utf8_valid_utf8(ts);
    assert(ts[10] == 'T');
    assert(bytes[10] == 'T' as u8);
    assert(is_leading_byte_width_1(bytes[10]));
    is_char_boundary_iff_is_leading_byte(bytes, 10);
    assert(bytes.subrange(0, 10) =~= encode_utf8(head)) by {
        assert forall|i: int| 0 <= i < 10 implies #[trigger] bytes[i] == encode_utf8(head)[i] by {
            assert(ts[i] == head[i]);
        }
    }
    assert(bytes.subrange(10, bytes.len() as int) =~= encode_utf8(rest)) by {
        assert forall|i: int| 0 <= i < rest.len() implies #[trigger] encode_utf8(rest)[i] == bytes[i
            + 10] by {
            assert(ts[i + 10] == rest[i]);
        }
    }
    encode_utf8_decode_utf8(head);
    encode_utf8_decode_utf8(rest);

    lemma_field_first(y, '-', mo + seq!['-'] + d, dash);
    lemma_field_first(mo, '-', d, dash);
    crate::split::lemma_first_of_is(d, dash, d.len() as int);
    assert(pieces(d, dash) =~= seq![d]);
    assert(pieces(head, dash) =~= seq![y, mo, d]);

    assert(rest.drop_first() =~= clock);
    assert(crate::digits::is_dec(hh[0]));
    assert(clock[0] == hh[0]);
    crate::text::lemma_drop_leading_none(clock, t);
    assert(drop_leading(rest, t) == drop_leading(clock, t));
    lemma_field_first(hh, ':', mm + seq![':'] + (ss + tail), mark);
    lemma_field_first(mm, ':', ss + tail, mark);
    assert(ss + tail =~= ss + seq![tail[0]] + tail.skip(1));
    lemma_field_first(ss, tail[0], tail.skip(1), mark);
    let time = pieces(clock, mark);
    assert(time =~= seq![hh, mm, ss] + pieces(tail.skip(1), mark));
    assert(time[0] == hh && time[1] == mm && time[2] == ss);
}

/// A stamp of digits and marks is ASCII text.
proof fn lemma_ascii_stamp(
    y: Seq<char>,
    mo: Seq<char>,
    d: Seq<char>,
    hh: Seq<char>,
    mm: Seq<char>,
    ss: Seq<char>,
    tail: Seq<char>,
)
    requires
        digits_only(y) && y.len() == 4,
        digits_only(mo) && mo.len() == 2,
        digits_only(d) && d.len() == 2,
        digits_only(hh) && hh.len() == 2,
        digits_only(mm) && mm.len() == 2,
        digits_only(ss) && ss.len() == 2,
        is_ascii_chars(tail),
    ensures
        is_ascii_chars(
            y + seq!['-'] + (mo + seq!['-'] + d) + (seq!['T'] + (hh + seq![':'] + (mm + seq![':']
                + (ss + tail)))),
        ),
{
    let ts = y + seq!['-'] + (mo + seq!['-'] + d) + (seq!['T'] + (hh + seq![':'] + (mm + seq![':']
        + (ss + tail))));
    assert forall|i: int| 0 <= i < ts.len() implies (#[trigger] ts[i]) as nat <= 127 by {
        if i < 4 {
            assert(ts[i] == y[i]);
        } else if i == 4 || i == 7 {
            assert(ts[i] == '-');
        } else if i < 7 {
            assert(ts[i] == mo[i - 5]);
        } else if i < 10 {
            assert(ts[i] == d[i - 8]);
        } else if i == 10 {
            assert(ts[i] == 'T');
        } else if i < 13 {
            assert(ts[i] == hh[i - 11]);
        } else if i == 13 || i == 16 {
            assert(ts[i] == ':');
        } else if i < 16 {
            assert(ts[i] == mm[i - 14]);
        } else if i < 19 {
            assert(ts[i] == ss[i - 17]);
        } else {
            assert(ts[i] == tail[i - 19]);
            assert(tail[i - 19] as nat <= 127);
        }
    }
}

/// A time stamp is read as the milliseconds since the start of 1970: its days, and the
/// hours, minutes and seconds of its clock.
pub proof fn law_stamp_counts_milliseconds(ts: Seq<char>, f: IsoFields)
    requires
        fields_of(trimmed(ts)) == Some(f),
        1 <= f.month <= 12,
        1 <= f.day <= 31,
        1970 <= f.year <= 9999,
        0 <= f.hour < 24,
        0 <= f.minute < 60,
        0 <= f.second < 60,
    ensures
        iso_ms(ts) matches Some(ms) && ms == (((days_from_epoch(
            f.year as int,
            f.month as int,
            f.day as int,
        ) * 24 + f.hour) * 60 + f.minute) * 60 + f.second) * 1000,
{
    let days = days_from_epoch(f.year as int, f.month as int, f.day as int);
    assert(0 <= days <= 4_000_000);
    assert(secs_from_epoch(f) == ((days * 24 + f.hour) * 60 + f.minute) * 60 + f.second);
}

} // verus!
