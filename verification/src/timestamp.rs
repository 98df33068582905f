//! RFC 3339 timestamps in UTC, to the millisecond.

use crate::calendar::{
    civil_from_epoch, civil_time, law_civil_time_is_unique, law_every_second_has_a_civil_time,
    CivilTime,
};
use crate::clock::{is_wall_clock_reading, read_wall_clock};
use crate::text::{
    decimal, digit, law_padding_reads_back, number, padded, padded_signed, push_padded,
};
use vstd::prelude::*;

verus! {

/// The timestamp of a civil time and a number of milliseconds beyond it.
pub open spec fn timestamp(time: CivilTime, millis: nat) -> Seq<char> {
    padded_signed(time.year, 4) + seq!['-'] + padded(time.month as nat, 2) + seq!['-'] + padded(
        time.day as nat,
        2,
    ) + seq!['T'] + padded(time.hour as nat, 2) + seq![':'] + padded(time.minute as nat, 2)
        + seq![':'] + padded(time.second as nat, 2) + seq!['.'] + padded(millis, 3) + seq!['Z']
}

/// The timestamp of a reading of the wall clock.
pub fn rfc3339(secs: i64, millis: u32) -> (text: String)
    ensures
        text@ == timestamp(civil_time(secs as int), millis as nat),
{
    proof {
        reveal_strlit("-");
        reveal_strlit("T");
        reveal_strlit(":");
        reveal_strlit(".");
        reveal_strlit("Z");
    }
    let (year, month, day, hour, minute, second) = civil_from_epoch(secs);
    proof {
        let time = CivilTime {
            year: year as int,
            month: month as int,
            day: day as int,
            hour: hour as int,
            minute: minute as int,
            second: second as int,
        };
        law_every_second_has_a_civil_time(secs as int);
        law_civil_time_is_unique(time, civil_time(secs as int));
    }
    let mut text = String::new();
    if year < 0 {
        text.append("-");
        push_padded(&mut text, (-year) as u64, 3);
    } else {
        push_padded(&mut text, year as u64, 4);
    }
    assert(text@ =~= padded_signed(year as int, 4));
    text.append("-");
    push_padded(&mut text, month as u64, 2);
    text.append("-");
    push_padded(&mut text, day as u64, 2);
    text.append("T");
    push_padded(&mut text, hour as u64, 2);
    text.append(":");
    push_padded(&mut text, minute as u64, 2);
    text.append(":");
    push_padded(&mut text, second as u64, 2);
    text.append(".");
    push_padded(&mut text, millis as u64, 3);
    text.append("Z");
    assert("-"@ =~= seq!['-']);
    assert("T"@ =~= seq!['T']);
    assert(":"@ =~= seq![':']);
    assert("."@ =~= seq!['.']);
    assert("Z"@ =~= seq!['Z']);
    text
}

/// The timestamp of a reading of the wall clock in whole seconds since the start of
/// 1970 and milliseconds beyond them. A clock that stands before 1970 has no such
/// reading, and counts as standing at its start.
pub open spec fn clock_stamp(reading: Option<(u64, u32)>) -> Seq<char> {
    match reading {
        Some(reading) => timestamp(civil_time((reading.0 as i64) as int), reading.1 as nat),
        None => timestamp(civil_time(0), 0),
    }
}

/// Whether the milliseconds of a reading are short of a second.
pub open spec fn is_reading(reading: Option<(u64, u32)>) -> bool {
    reading is Some ==> reading->Some_0.1 < 1000
}

/// The timestamp of what the wall clock reads.
pub fn rfc3339_at(reading: Option<(u64, u32)>) -> (text: String)
    ensures
        text@ == clock_stamp(reading),
{
    match reading {
        Some((secs, millis)) => rfc3339(#[verifier::truncate] (secs as i64), millis),
        None => rfc3339(0, 0),
    }
}

/// The timestamp of this moment.
pub fn rfc3339_now() -> (text: String)
    ensures
        exists|reading: Option<(u64, u32)>|
            {
                &&& is_wall_clock_reading(reading)
                &&& is_reading(reading)
                &&& text@ == #[trigger] clock_stamp(reading)
            },
{
    rfc3339_at(read_wall_clock())
}

/// Whether one text comes before another in dictionary order, by a character in
/// which they first differ.
pub open spec fn sorts_before(a: Seq<char>, b: Seq<char>) -> bool {
    exists|i: int| #[trigger] differs_at(a, b, i)
}

/// Whether two texts agree up to a position at which the first has the smaller
/// character.
pub open spec fn differs_at(a: Seq<char>, b: Seq<char>, i: int) -> bool {
    &&& 0 <= i < a.len()
    &&& i < b.len()
    &&& a.take(i) == b.take(i)
    &&& (a[i] as int) < (b[i] as int)
}

/// Timestamps of the years 0 to 9999 all have the same length.
pub proof fn law_timestamp_has_fixed_length(time: CivilTime, millis: nat)
    requires
        time.valid(),
        0 <= time.year <= 9999,
        millis < 1000,
    ensures
        timestamp(time, millis).len() == 24,
{
    lemma_four_digits(time.year as nat);
    lemma_two_digits(time.month as nat);
    lemma_two_digits(time.day as nat);
    lemma_two_digits(time.hour as nat);
    lemma_two_digits(time.minute as nat);
    lemma_two_digits(time.second as nat);
    lemma_three_digits(millis);
}

/// Timestamps of the years 0 to 9999 sort in order of time.
pub proof fn law_timestamps_sort_by_time(
    a: CivilTime,
    millis_a: nat,
    b: CivilTime,
    millis_b: nat,
)
    requires
        a.valid(),
        b.valid(),
        0 <= a.year <= 9999,
        0 <= b.year <= 9999,
        millis_a < 1000,
        millis_b < 1000,
        a.epoch_seconds() < b.epoch_seconds() || (a.epoch_seconds() == b.epoch_seconds()
            && millis_a < millis_b),
    ensures
        sorts_before(timestamp(a, millis_a), timestamp(b, millis_b)),
{
    if a.epoch_seconds() < b.epoch_seconds() {
        crate::calendar::law_civil_time_runs_forward(a, b);
    } else {
        law_civil_time_is_unique(a, b);
    }
    let a0 = padded(a.year as nat, 4);
    let b0 = padded(b.year as nat, 4);
    let a1 = a0 + seq!['-'] + padded(a.month as nat, 2);
    let b1 = b0 + seq!['-'] + padded(b.month as nat, 2);
    let a2 = a1 + seq!['-'] + padded(a.day as nat, 2);
    let b2 = b1 + seq!['-'] + padded(b.day as nat, 2);
    let a3 = a2 + seq!['T'] + padded(a.hour as nat, 2);
    let b3 = b2 + seq!['T'] + padded(b.hour as nat, 2);
    let a4 = a3 + seq![':'] + padded(a.minute as nat, 2);
    let b4 = b3 + seq![':'] + padded(b.minute as nat, 2);
    let a5 = a4 + seq![':'] + padded(a.second as nat, 2);
    let b5 = b4 + seq![':'] + padded(b.second as nat, 2);
    let a6 = a5 + seq!['.'] + padded(millis_a, 3);
    let b6 = b5 + seq!['.'] + padded(millis_b, 3);
    if a.year < b.year {
        lemma_four_digits_sort(a.year as nat, b.year as nat);
    }
    lemma_next_field(a0, b0, '-', a.month as nat, b.month as nat);
    lemma_next_field(a1, b1, '-', a.day as nat, b.day as nat);
    lemma_next_field(a2, b2, 'T', a.hour as nat, b.hour as nat);
    lemma_next_field(a3, b3, ':', a.minute as nat, b.minute as nat);
    lemma_next_field(a4, b4, ':', a.second as nat, b.second as nat);
    if a5 == b5 && millis_a < millis_b {
        lemma_three_digits_sort(millis_a, millis_b);
        lemma_common_head(a5 + seq!['.'], padded(millis_a, 3), padded(millis_b, 3));
    }
    if sorts_before(a5, b5) {
        lemma_any_tail(a5, seq!['.'], b5, seq!['.']);
        lemma_any_tail(
            a5 + seq!['.'],
            padded(millis_a, 3),
            b5 + seq!['.'],
            padded(millis_b, 3),
        );
    }
    lemma_any_tail(a6, seq!['Z'], b6, seq!['Z']);
}

/// A timestamp reads as the time it was made of: year, month, day, hour, minute,
/// second and milliseconds stand in it as decimal numbers, in that order, with two
/// digits each but for the year and the three digits of the milliseconds, and with
/// the marks of RFC 3339 between them. A year before 0 is marked by a sign.
pub proof fn law_timestamp_reads_back(time: CivilTime, millis: nat)
    requires
        time.valid(),
        millis < 1000,
    ensures
        ({
            let text = timestamp(time, millis);
            let year = text.len() - 20;
            &&& year >= 4
            &&& if time.year >= 0 {
                number(text.subrange(0, year)) == time.year
            } else {
                text[0] == '-' && number(text.subrange(1, year)) == -time.year
            }
            &&& text[year] == '-'
            &&& number(text.subrange(year + 1, year + 3)) == time.month
            &&& text[year + 3] == '-'
            &&& number(text.subrange(year + 4, year + 6)) == time.day
            &&& text[year + 6] == 'T'
            &&& number(text.subrange(year + 7, year + 9)) == time.hour
            &&& text[year + 9] == ':'
            &&& number(text.subrange(year + 10, year + 12)) == time.minute
            &&& text[year + 12] == ':'
            &&& number(text.subrange(year + 13, year + 15)) == time.second
            &&& text[year + 15] == '.'
            &&& number(text.subrange(year + 16, year + 19)) == millis
            &&& text[year + 19] == 'Z'
        }),
{
    let text = timestamp(time, millis);
    let year = text.len() - 20;
    let head = padded_signed(time.year, 4);
    let mm = padded(time.month as nat, 2);
    let dd = padded(time.day as nat, 2);
    let h = padded(time.hour as nat, 2);
    let m = padded(time.minute as nat, 2);
    let s = padded(time.second as nat, 2);
    let ms = padded(millis, 3);
    lemma_two_digits(time.month as nat);
    lemma_two_digits(time.day as nat);
    lemma_two_digits(time.hour as nat);
    lemma_two_digits(time.minute as nat);
    lemma_two_digits(time.second as nat);
    lemma_three_digits(millis);
    law_padding_reads_back(time.month as nat, 2);
    law_padding_reads_back(time.day as nat, 2);
    law_padding_reads_back(time.hour as nat, 2);
    law_padding_reads_back(time.minute as nat, 2);
    law_padding_reads_back(time.second as nat, 2);
    law_padding_reads_back(millis, 3);
    assert(year == head.len());
    if time.year >= 0 {
        law_padding_reads_back(time.year as nat, 4);
        assert(text.subrange(0, year) =~= head);
    } else {
        law_padding_reads_back((-time.year) as nat, 3);
        assert(text.subrange(1, year) =~= padded((-time.year) as nat, 3));
    }
    assert(text.subrange(year + 1, year + 3) =~= mm);
    assert(text.subrange(year + 4, year + 6) =~= dd);
    assert(text.subrange(year + 7, year + 9) =~= h);
    assert(text.subrange(year + 10, year + 12) =~= m);
    assert(text.subrange(year + 13, year + 15) =~= s);
    assert(text.subrange(year + 16, year + 19) =~= ms);
}

/// A reading of the wall clock is stamped with its own second, and one before 1970
/// with the start of that year: the stamp reads as the milliseconds of the reading
/// and the civil time of its seconds.
pub proof fn law_clock_stamp_reads_back(reading: Option<(u64, u32)>, time: CivilTime)
    requires
        is_reading(reading),
        reading matches Some(r) ==> r.0 <= i64::MAX && time.denotes(r.0 as int),
        reading is None ==> time.denotes(0),
    ensures
        reading matches Some(r) ==> clock_stamp(reading) == timestamp(time, r.1 as nat),
        reading is None ==> clock_stamp(reading) == timestamp(time, 0),
{
    let secs: int = match reading {
        Some(r) => r.0 as int,
        None => 0,
    };
    law_every_second_has_a_civil_time(secs);
    law_civil_time_is_unique(time, civil_time(secs));
}

/// Texts that sort one way still do with more behind them.
proof fn lemma_any_tail(a: Seq<char>, v: Seq<char>, b: Seq<char>, w: Seq<char>)
    requires
        sorts_before(a, b),
    ensures
        sorts_before(a + v, b + w),
{
    let i = choose|i: int| #[trigger] differs_at(a, b, i);
    assert((a + v).take(i) =~= a.take(i));
    assert((b + w).take(i) =~= b.take(i));
    assert(differs_at(a + v, b + w, i));
}

/// Texts that sort one way still do with the same text before them.
proof fn lemma_common_head(head: Seq<char>, a: Seq<char>, b: Seq<char>)
    requires
        sorts_before(a, b),
    ensures
        sorts_before(head + a, head + b),
{
    let i = choose|i: int| #[trigger] differs_at(a, b, i);
    let k = head.len() + i;
    assert((head + a).take(k) =~= head + a.take(i));
    assert((head + b).take(k) =~= head + b.take(i));
    assert(differs_at(head + a, head + b, k));
}

/// A two-digit field behind what has been compared so far: where that sorted
/// already, or else by the field, the texts sort; where both are the same, so are
/// the texts.
proof fn lemma_next_field(a: Seq<char>, b: Seq<char>, separator: char, m: nat, n: nat)
    requires
        m < 100,
        n < 100,
    ensures
        sorts_before(a, b) || (a == b && m < n) ==> sorts_before(
            a + seq![separator] + padded(m, 2),
            b + seq![separator] + padded(n, 2),
        ),
{
    if sorts_before(a, b) {
        lemma_any_tail(a, seq![separator], b, seq![separator]);
        lemma_any_tail(a + seq![separator], padded(m, 2), b + seq![separator], padded(n, 2));
    } else if a == b && m < n {
        lemma_two_digits(m);
        lemma_two_digits(n);
        lemma_two_digits_differ(padded(m, 2), padded(n, 2), 0, m as int, n as int);
        lemma_common_head(a + seq![separator], padded(m, 2), padded(n, 2));
    }
}

proof fn lemma_four_digits_sort(m: nat, n: nat)
    requires
        m < n < 10_000,
    ensures
        sorts_before(padded(m, 4), padded(n, 4)),
{
    lemma_four_digits(m);
    lemma_four_digits(n);
    let a = padded(m, 4);
    let b = padded(n, 4);
    if m / 100 < n / 100 {
        lemma_two_digits_differ(a, b, 0, m as int / 100, n as int / 100);
    } else {
        lemma_two_digits_differ(a, b, 2, m as int % 100, n as int % 100);
    }
}

proof fn lemma_three_digits_sort(m: nat, n: nat)
    requires
        m < n < 1000,
    ensures
        sorts_before(padded(m, 3), padded(n, 3)),
{
    lemma_three_digits(m);
    lemma_three_digits(n);
    let a = padded(m, 3);
    let b = padded(n, 3);
    if m / 10 < n / 10 {
        lemma_two_digits_differ(a, b, 0, m as int / 10, n as int / 10);
    } else {
        lemma_first_difference(a, b, 2);
    }
}

proof fn lemma_two_digits(n: nat)
    requires
        n < 100,
    ensures
        padded(n, 2) == seq![digit(n / 10), digit(n % 10)],
{
    reveal_with_fuel(decimal, 3);
    assert(padded(n, 2) =~= seq![digit(n / 10), digit(n % 10)]);
}

proof fn lemma_three_digits(n: nat)
    requires
        n < 1000,
    ensures
        padded(n, 3) == seq![digit(n / 10 / 10), digit(n / 10 % 10), digit(n % 10)],
{
    reveal_with_fuel(decimal, 4);
    assert(padded(n, 3) =~= seq![digit(n / 10 / 10), digit(n / 10 % 10), digit(n % 10)]);
}

proof fn lemma_four_digits(n: nat)
    requires
        n < 10_000,
    ensures
        padded(n, 4) == seq![
            digit(n / 100 / 10),
            digit(n / 100 % 10),
            digit(n % 100 / 10),
            digit(n % 100 % 10),
        ],
{
    reveal_with_fuel(decimal, 5);
    assert(n / 10 / 10 == n / 100);
    assert(n / 10 % 10 == n % 100 / 10);
    assert(n % 10 == n % 100 % 10);
    assert(padded(n, 4) =~= seq![
        digit(n / 100 / 10),
        digit(n / 100 % 10),
        digit(n % 100 / 10),
        digit(n % 100 % 10),
    ]);
}

/// A smaller two-digit number at a position up to which two texts agree.
proof fn lemma_two_digits_differ(a: Seq<char>, b: Seq<char>, i: int, m: int, n: int)
    requires
        0 <= m < n < 100,
        0 <= i,
        i + 1 < a.len() == b.len(),
        forall|k: int| 0 <= k < i ==> a[k] == b[k],
        a[i] == digit((m / 10) as nat),
        a[i + 1] == digit((m % 10) as nat),
        b[i] == digit((n / 10) as nat),
        b[i + 1] == digit((n % 10) as nat),
    ensures
        sorts_before(a, b),
{
    if m / 10 < n / 10 {
        lemma_first_difference(a, b, i);
    } else {
        lemma_first_difference(a, b, i + 1);
    }
}

proof fn lemma_first_difference(a: Seq<char>, b: Seq<char>, i: int)
    requires
        0 <= i < a.len(),
        i < b.len(),
        forall|k: int| 0 <= k < i ==> a[k] == b[k],
        (a[i] as int) < (b[i] as int),
    ensures
        sorts_before(a, b),
{
    assert(a.take(i) =~= b.take(i));
    assert(differs_at(a, b, i));
}

} // verus!
