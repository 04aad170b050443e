use vstd::prelude::*;
use crate::calendar::{CivilDate, TimeOfDay, is_valid_date, is_calendar_date};

verus! {

pub open spec fn is_digit(b: u8) -> bool {
    48 <= b <= 57
}

pub open spec fn digit_value(b: u8) -> int {
    b - 48
}

pub open spec fn digit_of(n: int) -> u8 {
    (48 + n % 10) as u8
}

/// The two decimal digits of a number below one hundred.
pub open spec fn two_digits(n: int) -> Seq<u8> {
    seq![digit_of(n / 10), digit_of(n)]
}

/// The value of the two digits at `i` and `i + 1`.
pub open spec fn pair_value(s: Seq<u8>, i: int) -> int {
    digit_value(s[i]) * 10 + digit_value(s[i + 1])
}

/// The text `YYYY-MM-DD`.
pub open spec fn date_text(d: CivilDate) -> Seq<u8> {
    two_digits(d.year as int / 100) + two_digits(d.year as int % 100) + seq![45u8] + two_digits(d.month as int)
        + seq![45u8] + two_digits(d.day as int)
}

/// The text `HH:MM:SS`.
pub open spec fn time_text(t: TimeOfDay) -> Seq<u8> {
    two_digits(t.hour as int) + seq![58u8] + two_digits(t.minute as int) + seq![58u8]
        + two_digits(t.second as int)
}

/// A date field: `YYYY-MM-DD`, naming a day that exists.
pub open spec fn date_field(s: Seq<u8>) -> Option<CivilDate> {
    if s.len() == 10 && s[4] == 45u8 && s[7] == 45u8 && (forall|i: int|
        0 <= i < 10 && i != 4 && i != 7 ==> is_digit(#[trigger] s[i])) && is_calendar_date(
        pair_value(s, 0) * 100 + pair_value(s, 2),
        pair_value(s, 5),
        pair_value(s, 8),
    ) {
        Some(
            CivilDate {
                year: (pair_value(s, 0) * 100 + pair_value(s, 2)) as u16,
                month: pair_value(s, 5) as u8,
                day: pair_value(s, 8) as u8,
            },
        )
    } else {
        None
    }
}

/// A time field: `HH:MM:SS`, with hours below 24 and minutes and seconds
/// below 60.
pub open spec fn time_field(s: Seq<u8>) -> Option<TimeOfDay> {
    if s.len() == 8 && s[2] == 58u8 && s[5] == 58u8 && (forall|i: int|
        0 <= i < 8 && i != 2 && i != 5 ==> is_digit(#[trigger] s[i])) && pair_value(s, 0) < 24
        && pair_value(s, 3) < 60 && pair_value(s, 6) < 60 {
        Some(
            TimeOfDay {
                hour: pair_value(s, 0) as u8,
                minute: pair_value(s, 3) as u8,
                second: pair_value(s, 6) as u8,
            },
        )
    } else {
        None
    }
}

/// The value of a string of decimal digits.
pub open spec fn decimal_value(s: Seq<u8>) -> int
    decreases s.len(),
{
    if s.len() == 0 {
        0
    } else {
        decimal_value(s.drop_last()) * 10 + digit_value(s.last())
    }
}

pub open spec fn all_digits(s: Seq<u8>) -> bool {
    forall|i: int| 0 <= i < s.len() ==> is_digit(#[trigger] s[i])
}

/// A count field: base-10 digits without leading zeros, fitting in a `u64`.
pub open spec fn count_field(s: Seq<u8>) -> Option<u64> {
    if s.len() > 0 && all_digits(s) && (s.len() == 1 || s[0] != 48u8) && decimal_value(s)
        <= u64::MAX {
        Some(decimal_value(s) as u64)
    } else {
        None
    }
}

/// The shortest decimal text of a number.
pub open spec fn decimal_text(n: nat) -> Seq<u8>
    decreases n,
{
    if n < 10 {
        seq![digit_of(n as int)]
    } else {
        decimal_text(n / 10).push(digit_of(n as int))
    }
}

/// A duration in seconds as `HH:MM:SS`; the hours take two digits or more
/// and do not wrap at a day.
pub open spec fn hms_text(total: nat) -> Seq<u8> {
    let hours = total / 3600;
    (if hours < 10 {
        seq![48u8] + decimal_text(hours)
    } else {
        decimal_text(hours)
    }) + seq![58u8] + two_digits((total / 60 % 60) as int) + seq![58u8] + two_digits(
        (total % 60) as int,
    )
}

fn two_digit_value(s: &Vec<u8>, i: usize) -> (r: u8)
    requires
        i < 16,
        i + 1 < s@.len(),
        is_digit(s@[i as int]),
        is_digit(s@[i + 1]),
    ensures
        r == pair_value(s@, i as int),
{
    (s[i] - 48) * 10 + (s[i + 1] - 48)
}

/// Whether every byte of `s` before `len`, but those at `sep1` and `sep2`,
/// is a digit.
fn digits_except(s: &Vec<u8>, len: usize, sep1: usize, sep2: usize) -> (r: bool)
    requires
        len <= s@.len(),
    ensures
        r == (forall|i: int| 0 <= i < len && i != sep1 && i != sep2 ==> is_digit(#[trigger] s@[i])),
{
    let mut i: usize = 0;
    while i < len
        invariant
            i <= len <= s@.len(),
            forall|j: int| 0 <= j < i && j != sep1 && j != sep2 ==> is_digit(#[trigger] s@[j]),
        decreases len - i,
    {
        if i != sep1 && i != sep2 && !(48 <= s[i] && s[i] <= 57) {
            return false;
        }
        i = i + 1;
    }
    true
}

/// Reads a date field.
pub fn parse_date(s: &Vec<u8>) -> (r: Option<CivilDate>)
    ensures
        r == date_field(s@),
{
    if s.len() != 10 || s[4] != 45 || s[7] != 45 {
        return None;
    }
    if !digits_except(s, 10, 4, 7) {
        return None;
    }
    let year = two_digit_value(s, 0) as u16 * 100 + two_digit_value(s, 2) as u16;
    let month = two_digit_value(s, 5);
    let day = two_digit_value(s, 8);
    if is_valid_date(year, month, day) {
        Some(CivilDate { year, month, day })
    } else {
        None
    }
}

/// Reads a time field.
pub fn parse_time(s: &Vec<u8>) -> (r: Option<TimeOfDay>)
    ensures
        r == time_field(s@),
{
    if s.len() != 8 || s[2] != 58 || s[5] != 58 {
        return None;
    }
    if !digits_except(s, 8, 2, 5) {
        return None;
    }
    let hour = two_digit_value(s, 0);
    let minute = two_digit_value(s, 3);
    let second = two_digit_value(s, 6);
    if hour < 24 && minute < 60 && second < 60 {
        Some(TimeOfDay { hour, minute, second })
    } else {
        None
    }
}

proof fn lemma_value_nonneg(s: Seq<u8>)
    requires
        all_digits(s),
    ensures
        decimal_value(s) >= 0,
    decreases s.len(),
{
    if s.len() > 0 {
        assert(all_digits(s.drop_last()));
        lemma_value_nonneg(s.drop_last());
    }
}

proof fn lemma_prefix_value_le(s: Seq<u8>, i: int)
    requires
        0 <= i <= s.len(),
        all_digits(s),
    ensures
        decimal_value(s.take(i)) <= decimal_value(s),
    decreases s.len(),
{
    if i < s.len() {
        assert(all_digits(s.drop_last()));
        lemma_prefix_value_le(s.drop_last(), i);
        lemma_value_nonneg(s.drop_last());
        assert(s.drop_last().take(i) =~= s.take(i));
    } else {
        assert(s.take(i) =~= s);
    }
}

/// Reads a count field.
pub fn parse_count(s: &Vec<u8>) -> (r: Option<u64>)
    ensures
        r == count_field(s@),
{
    if s.len() == 0 || (s.len() > 1 && s[0] == 48) {
        return None;
    }
    let mut value: u128 = 0;
    let mut i: usize = 0;
    while i < s.len()
        invariant
            i <= s@.len(),
            all_digits(s@.take(i as int)),
            value == decimal_value(s@.take(i as int)),
            value <= u64::MAX,
        decreases s@.len() - i,
    {
        let b = s[i];
        assert(s@.take(i + 1).drop_last() =~= s@.take(i as int));
        if !(48 <= b && b <= 57) {
            assert(!all_digits(s@));
            return None;
        }
        value = value * 10 + (b - 48) as u128;
        if value > u64::MAX as u128 {
            proof {
                assert(all_digits(s@.take(i + 1)));
                if all_digits(s@) {
                    lemma_prefix_value_le(s@, i + 1);
                }
            }
            return None;
        }
        i = i + 1;
    }
    assert(s@.take(i as int) =~= s@);
    Some(value as u64)
}

fn push_two_digits(out: &mut Vec<u8>, n: u8)
    requires
        n < 100,
    ensures
        final(out)@ == old(out)@ + two_digits(n as int),
{
    out.push(48 + n / 10);
    out.push(48 + n % 10);
    assert(final(out)@ =~= old(out)@ + two_digits(n as int));
}

fn push_decimal(out: &mut Vec<u8>, n: u128)
    ensures
        final(out)@ == old(out)@ + decimal_text(n as nat),
    decreases n,
{
    if n >= 10 {
        push_decimal(out, n / 10);
    }
    out.push(48 + (n % 10) as u8);
    assert(final(out)@ =~= old(out)@ + decimal_text(n as nat));
}

/// Writes a date field.
pub fn format_date(d: &CivilDate) -> (r: Vec<u8>)
    requires
        d.wf(),
    ensures
        r@ == date_text(*d),
{
    let mut out: Vec<u8> = Vec::new();
    push_two_digits(&mut out, (d.year / 100) as u8);
    push_two_digits(&mut out, (d.year % 100) as u8);
    out.push(45);
    push_two_digits(&mut out, d.month);
    out.push(45);
    push_two_digits(&mut out, d.day);
    assert(out@ =~= date_text(*d));
    out
}

/// Writes a time field.
pub fn format_time(t: &TimeOfDay) -> (r: Vec<u8>)
    requires
        t.wf(),
    ensures
        r@ == time_text(*t),
{
    let mut out: Vec<u8> = Vec::new();
    push_two_digits(&mut out, t.hour);
    out.push(58);
    push_two_digits(&mut out, t.minute);
    out.push(58);
    push_two_digits(&mut out, t.second);
    assert(out@ =~= time_text(*t));
    out
}

/// Writes a count field.
pub fn format_count(n: u64) -> (r: Vec<u8>)
    ensures
        r@ == decimal_text(n as nat),
{
    let mut out: Vec<u8> = Vec::new();
    push_decimal(&mut out, n as u128);
    assert(out@ =~= decimal_text(n as nat));
    out
}

/// Writes a duration in seconds as `HH:MM:SS`.
pub fn format_hms(total: u128) -> (r: Vec<u8>)
    ensures
        r@ == hms_text(total as nat),
{
    let mut out: Vec<u8> = Vec::new();
    let hours = total / 3600;
    if hours < 10 {
        out.push(48);
    }
    push_decimal(&mut out, hours);
    out.push(58);
    push_two_digits(&mut out, (total / 60 % 60) as u8);
    out.push(58);
    push_two_digits(&mut out, (total % 60) as u8);
    assert(out@ =~= hms_text(total as nat));
    out
}

proof fn lemma_two_digits(s: Seq<u8>, i: int, n: int)
    requires
        0 <= n < 100,
        0 <= i,
        i + 1 < s.len(),
        s[i] == two_digits(n)[0],
        s[i + 1] == two_digits(n)[1],
    ensures
        is_digit(s[i]),
        is_digit(s[i + 1]),
        pair_value(s, i) == n,
{
}

/// A written date reads back as the same date.
pub proof fn lemma_date_round_trip(d: CivilDate)
    requires
        d.wf(),
    ensures
        date_field(date_text(d)) == Some(d),
{
    let s = date_text(d);
    lemma_two_digits(s, 0, d.year as int / 100);
    lemma_two_digits(s, 2, d.year as int % 100);
    lemma_two_digits(s, 5, d.month as int);
    lemma_two_digits(s, 8, d.day as int);
    assert(forall|i: int| 0 <= i < 10 && i != 4 && i != 7 ==> is_digit(#[trigger] s[i])) by {
        assert(s[0] == two_digits(d.year as int / 100)[0]);
    }
}

/// A written time reads back as the same time.
pub proof fn lemma_time_round_trip(t: TimeOfDay)
    requires
        t.wf(),
    ensures
        time_field(time_text(t)) == Some(t),
{
    let s = time_text(t);
    lemma_two_digits(s, 0, t.hour as int);
    lemma_two_digits(s, 3, t.minute as int);
    lemma_two_digits(s, 6, t.second as int);
}

proof fn lemma_decimal_text(n: nat)
    ensures
        decimal_text(n).len() > 0,
        all_digits(decimal_text(n)),
        decimal_value(decimal_text(n)) == n,
        n > 0 ==> decimal_text(n)[0] != 48u8,
    decreases n,
{
    let d = digit_of(n as int);
    assert(d == 48 + n % 10);
    let s = decimal_text(n);
    assert(s.last() == d);
    assert(decimal_value(s) == decimal_value(s.drop_last()) * 10 + digit_value(d));
    if n >= 10 {
        lemma_decimal_text(n / 10);
        let t = decimal_text(n / 10);
        assert(decimal_text(n).drop_last() =~= t);
        assert(decimal_text(n)[0] == t[0]);
        assert((n / 10) * 10 + n % 10 == n);
    } else {
        assert(decimal_text(n).drop_last() =~= Seq::<u8>::empty());
    }
}

/// A written count reads back as the same count.
pub proof fn lemma_count_round_trip(n: u64)
    ensures
        count_field(decimal_text(n as nat)) == Some(n),
{
    lemma_decimal_text(n as nat);
}

} // verus!
