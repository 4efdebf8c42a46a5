//! Calendar dates as the booking site writes them: year, month and day with
//! slashes between them.
use vstd::prelude::*;
use vstd::string::*;
use crate::number::{
    all_digits, decimal, decimal_padded, digit, is_digit, lemma_decimal_digits, number,
    number_reads_decimal_padded, read_number, write_decimal_padded,
};
use crate::text::{at_most, is_at_most, joined, lemma_pieces_of_joined, pieces, split};

verus! {

/// The year has four digits or more, the month is one of twelve and the day
/// one of 31.
pub open spec fn in_calendar(year: nat, month: nat, day: nat) -> bool {
    &&& 1000 <= year
    &&& 1 <= month <= 12
    &&& 1 <= day <= 31
}

/// A date in the form of the site.
pub open spec fn date_text(year: nat, month: nat, day: nat) -> Seq<char> {
    decimal_padded(year, 4) + "/"@ + decimal_padded(month, 2) + "/"@ + decimal_padded(day, 2)
}

/// What a date that was typed in is in the form of the site: three numbers with
/// slashes between them, in the range of a calendar. Anything else is no date.
pub open spec fn normalized_date(input: Seq<char>) -> Option<Seq<char>> {
    let parts = pieces(input, '/');
    if parts.len() == 3 {
        match (
            number(parts[0], u16::MAX as nat),
            number(parts[1], u8::MAX as nat),
            number(parts[2], u8::MAX as nat),
        ) {
            (Some(year), Some(month), Some(day)) => if in_calendar(year, month, day) {
                Some(date_text(year, month, day))
            } else {
                None
            },
            _ => None,
        }
    } else {
        None
    }
}

/// The date to book: the wanted one where it is a date in the range that the
/// site offers, and the first of the range where it is not.
pub open spec fn date_in_range(start: Seq<char>, end: Seq<char>, wanted: Seq<char>) -> Seq<char> {
    match normalized_date(wanted) {
        Some(date) => if at_most(start, date) && at_most(date, end) {
            date
        } else {
            start
        },
        None => start,
    }
}

/// What a date that was typed in is in the form of the site.
pub fn normalize_date(input: &str) -> (r: Option<String>)
    ensures
        r.deep_view() == normalized_date(input@),
{
    let parts: Vec<String> = split(input, '/');
    if parts.len() != 3 {
        return None;
    }
    assert(parts.deep_view() == pieces(input@, '/'));
    assert(parts@[0]@ == pieces(input@, '/')[0]);
    assert(parts@[1]@ == pieces(input@, '/')[1]);
    assert(parts@[2]@ == pieces(input@, '/')[2]);
    let year: u64 = match read_number(parts[0].as_str(), u16::MAX as u64) {
        Some(n) => n,
        None => return None,
    };
    let month: u64 = match read_number(parts[1].as_str(), u8::MAX as u64) {
        Some(n) => n,
        None => return None,
    };
    let day: u64 = match read_number(parts[2].as_str(), u8::MAX as u64) {
        Some(n) => n,
        None => return None,
    };
    if year >= 1000 && month >= 1 && month <= 12 && day >= 1 && day <= 31 {
        let mut s: String = write_decimal_padded(year as u128, 4);
        s.append("/");
        s.append(write_decimal_padded(month as u128, 2).as_str());
        s.append("/");
        s.append(write_decimal_padded(day as u128, 2).as_str());
        Some(s)
    } else {
        None
    }
}

/// Whether the wanted date is refused: the date in its place, which is the
/// first of the range where the wanted one is none, lies outside the range.
pub open spec fn out_of_range(start: Seq<char>, end: Seq<char>, wanted: Seq<char>) -> bool {
    let date = match normalized_date(wanted) {
        Some(date) => date,
        None => start,
    };
    !(at_most(start, date) && at_most(date, end))
}

/// The date to book, in the range that the site offers.
pub fn choose_date(start: &str, end: &str, wanted: &str) -> (r: String)
    ensures
        r@ == date_in_range(start@, end@, wanted@),
{
    match normalize_date(wanted) {
        Some(date) => if is_at_most(start, date.as_str()) && is_at_most(date.as_str(), end) {
            date
        } else {
            start.to_string()
        },
        None => start.to_string(),
    }
}

/// What is said of a wanted date that is refused.
pub open spec fn range_notice(start: Seq<char>, end: Seq<char>, wanted: Seq<char>) -> Seq<char> {
    "Fixed date "@ + wanted + " is outside the site's available range "@ + start + " ~ "@ + end
        + "; using "@ + start + "."@
}

/// What is said of a wanted date that is refused; nothing of one that is taken.
pub fn date_notice(start: &str, end: &str, wanted: &str) -> (r: Option<String>)
    ensures
        match r {
            Some(s) => out_of_range(start@, end@, wanted@) && s@ == range_notice(
                start@,
                end@,
                wanted@,
            ),
            None => !out_of_range(start@, end@, wanted@),
        },
{
    let date: String = match normalize_date(wanted) {
        Some(date) => date,
        None => start.to_string(),
    };
    if is_at_most(start, date.as_str()) && is_at_most(date.as_str(), end) {
        None
    } else {
        let mut s: String = "Fixed date ".to_string();
        s.append(wanted);
        s.append(" is outside the site's available range ");
        s.append(start);
        s.append(" ~ ");
        s.append(end);
        s.append("; using ");
        s.append(start);
        s.append(".");
        Some(s)
    }
}

proof fn lemma_padded_digits(n: nat, width: nat)
    ensures
        all_digits(decimal_padded(n, width)),
        decimal_padded(n, width).len() >= width,
{
    lemma_decimal_digits(n);
    let d = decimal(n);
    let s = decimal_padded(n, width);
    assert forall|i: int| 0 <= i < s.len() implies is_digit(#[trigger] s[i]) by {
        if d.len() < width && i >= width - d.len() {
            assert(s[i] == d[i - (width - d.len())]);
        } else if d.len() >= width {
            assert(s[i] == d[i]);
        }
    }
}

/// A date in the form of the site stays as it is: normalizing twice is
/// normalizing once.
pub proof fn normalizing_is_idempotent(input: Seq<char>)
    requires
        normalized_date(input) is Some,
    ensures
        normalized_date(normalized_date(input).unwrap()) == normalized_date(input),
{
    let parts = pieces(input, '/');
    let year = number(parts[0], u16::MAX as nat).unwrap();
    let month = number(parts[1], u8::MAX as nat).unwrap();
    let day = number(parts[2], u8::MAX as nat).unwrap();
    let y = decimal_padded(year, 4);
    let m = decimal_padded(month, 2);
    let d = decimal_padded(day, 2);
    lemma_padded_digits(year, 4);
    lemma_padded_digits(month, 2);
    lemma_padded_digits(day, 2);
    number_reads_decimal_padded(year, 4, u16::MAX as nat);
    number_reads_decimal_padded(month, 2, u8::MAX as nat);
    number_reads_decimal_padded(day, 2, u8::MAX as nat);
    reveal_strlit("/");
    let list = seq![y, m, d];
    assert(list.drop_last() =~= seq![y, m]);
    assert(seq![y, m].drop_last() =~= seq![y]);
    assert("/"@ =~= seq!['/']);
    assert(joined(seq![y], seq!['/']) == y);
    assert(joined(seq![y, m], seq!['/']) == y + seq!['/'] + m);
    assert(joined(list, seq!['/']) == date_text(year, month, day));
    assert forall|i: int, j: int|
        0 <= i < list.len() && 0 <= j < list[i].len() implies #[trigger] list[i][j] != '/' by {
        assert(is_digit(list[i][j]));
    }
    lemma_pieces_of_joined(list, '/');
}

/// The first date is no later than the second.
pub open spec fn no_later(y1: nat, m1: nat, d1: nat, y2: nat, m2: nat, d2: nat) -> bool {
    y1 < y2 || (y1 == y2 && (m1 < m2 || (m1 == m2 && d1 <= d2)))
}

proof fn lemma_at_most_after(a: Seq<char>, b: Seq<char>, x: Seq<char>, y: Seq<char>)
    requires
        a.len() == b.len(),
    ensures
        at_most(a + x, b + y) == (if a == b {
            at_most(x, y)
        } else {
            at_most(a, b)
        }),
    decreases a.len(),
{
    if a.len() == 0 {
        assert(a =~= b);
        assert(a + x =~= x);
        assert(b + y =~= y);
    } else {
        let s = a.drop_first();
        let t = b.drop_first();
        assert((a + x).drop_first() =~= s + x);
        assert((b + y).drop_first() =~= t + y);
        lemma_at_most_after(s, t, x, y);
        if a[0] == b[0] && s == t {
            assert(a =~= seq![a[0]] + s);
            assert(b =~= seq![b[0]] + t);
            assert(a == b);
        }
    }
}

proof fn lemma_two_digits(n: nat)
    requires
        n < 100,
    ensures
        decimal_padded(n, 2) == seq![digit(n / 10), digit(n % 10)],
{
    reveal_with_fuel(decimal, 3);
    assert(decimal_padded(n, 2) =~= seq![digit(n / 10), digit(n % 10)]);
}

proof fn lemma_four_digits(n: nat)
    requires
        1000 <= n < 10000,
    ensures
        decimal_padded(n, 4) == decimal_padded(n / 100, 2) + decimal_padded(n % 100, 2),
{
    lemma_two_digits(n / 100);
    lemma_two_digits(n % 100);
    assert(decimal(n / 1000) == seq![digit(n / 1000)]);
    assert(n / 100 / 10 == n / 1000);
    assert(n / 10 / 10 == n / 100);
    assert(n % 100 / 10 == n / 10 % 10);
    assert(n % 100 % 10 == n % 10);
    assert(decimal(n / 100) == decimal(n / 1000).push(digit(n / 100 % 10)));
    assert(decimal(n / 10) == decimal(n / 100).push(digit(n / 10 % 10)));
    assert(decimal_padded(n, 4) =~= decimal_padded(n / 100, 2) + decimal_padded(n % 100, 2));
}

proof fn lemma_two_digits_order(m: nat, n: nat)
    requires
        m < 100,
        n < 100,
    ensures
        decimal_padded(m, 2).len() == 2,
        decimal_padded(m, 2) == decimal_padded(n, 2) <==> m == n,
        at_most(decimal_padded(m, 2), decimal_padded(n, 2)) == (m <= n),
{
    lemma_two_digits(m);
    lemma_two_digits(n);
    let a = decimal_padded(m, 2);
    let b = decimal_padded(n, 2);
    assert(a[0] == b[0] && a[1] == b[1] <==> m == n);
    assert(a.drop_first()[0] == a[1]);
    assert(b.drop_first()[0] == b[1]);
    reveal_with_fuel(at_most, 3);
}

proof fn lemma_four_digits_order(m: nat, n: nat)
    requires
        1000 <= m < 10000,
        1000 <= n < 10000,
    ensures
        decimal_padded(m, 4).len() == 4,
        decimal_padded(m, 4) == decimal_padded(n, 4) <==> m == n,
        at_most(decimal_padded(m, 4), decimal_padded(n, 4)) == (m <= n),
{
    lemma_four_digits(m);
    lemma_four_digits(n);
    let (a, b) = (decimal_padded(m / 100, 2), decimal_padded(n / 100, 2));
    let (c, d) = (decimal_padded(m % 100, 2), decimal_padded(n % 100, 2));
    lemma_two_digits_order(m / 100, n / 100);
    lemma_two_digits_order(n / 100, m / 100);
    lemma_two_digits_order(m % 100, n % 100);
    lemma_two_digits_order(n % 100, m % 100);
    lemma_at_most_after(a, b, c, d);
    if a + c == b + d {
        assert((a + c).subrange(0, 2) =~= a);
        assert((b + d).subrange(0, 2) =~= b);
        assert((a + c).subrange(2, 4) =~= c);
        assert((b + d).subrange(2, 4) =~= d);
    }
}

/// On dates in the form of the site, with years of four digits, the order of
/// strings is the order of the calendar: comparing the strings compares the
/// dates.
pub proof fn date_texts_order_as_dates(
    y1: nat,
    m1: nat,
    d1: nat,
    y2: nat,
    m2: nat,
    d2: nat,
)
    requires
        in_calendar(y1, m1, d1),
        in_calendar(y2, m2, d2),
        y1 <= 9999,
        y2 <= 9999,
    ensures
        at_most(date_text(y1, m1, d1), date_text(y2, m2, d2)) == no_later(y1, m1, d1, y2, m2, d2),
{
    lemma_four_digits_order(y1, y2);
    lemma_two_digits_order(m1, m2);
    lemma_two_digits_order(d1, d2);
    lemma_two_digits_order(m2, m1);
    lemma_four_digits_order(y2, y1);
    let (ya, yb) = (decimal_padded(y1, 4), decimal_padded(y2, 4));
    let (ma, mb) = (decimal_padded(m1, 2), decimal_padded(m2, 2));
    let (da, db) = (decimal_padded(d1, 2), decimal_padded(d2, 2));
    let slash = "/"@;
    let tail_a = slash + da;
    let tail_b = slash + db;
    let rest_a = slash + (ma + tail_a);
    let rest_b = slash + (mb + tail_b);
    assert(date_text(y1, m1, d1) =~= ya + rest_a);
    assert(date_text(y2, m2, d2) =~= yb + rest_b);
    lemma_at_most_after(ya, yb, rest_a, rest_b);
    lemma_at_most_after(slash, slash, ma + tail_a, mb + tail_b);
    lemma_at_most_after(ma, mb, tail_a, tail_b);
    lemma_at_most_after(slash, slash, da, db);
}

proof fn lemma_at_most_itself(a: Seq<char>)
    ensures
        at_most(a, a),
    decreases a.len(),
{
    if a.len() > 0 {
        lemma_at_most_itself(a.drop_first());
    }
}

/// Whatever date is wanted, the one that is taken is one that the site offers.
pub proof fn chosen_date_is_offered(start: Seq<char>, end: Seq<char>, wanted: Seq<char>)
    requires
        at_most(start, end),
    ensures
        at_most(start, date_in_range(start, end, wanted)),
        at_most(date_in_range(start, end, wanted), end),
{
    lemma_at_most_itself(start);
}

/// A date as a person may write it, with any number of zeros before its
/// numbers.
pub open spec fn written_date(
    year: nat,
    month: nat,
    day: nat,
    widths: (nat, nat, nat),
) -> Seq<char> {
    decimal_padded(year, widths.0) + seq!['/'] + decimal_padded(month, widths.1) + seq!['/']
        + decimal_padded(day, widths.2)
}

/// A date is read however many zeros stand before its numbers, and is a date
/// exactly where year, month and day are in the range of a calendar.
pub proof fn dates_are_read(year: nat, month: nat, day: nat, widths: (nat, nat, nat))
    requires
        year <= 65535,
        month <= 255,
        day <= 255,
    ensures
        normalized_date(written_date(year, month, day, widths)) == (if 1000 <= year && 1 <= month
            && month <= 12 && 1 <= day && day <= 31 {
            Some(date_text(year, month, day))
        } else {
            None
        }),
{
    let y = decimal_padded(year, widths.0);
    let m = decimal_padded(month, widths.1);
    let d = decimal_padded(day, widths.2);
    lemma_padded_digits(year, widths.0);
    lemma_padded_digits(month, widths.1);
    lemma_padded_digits(day, widths.2);
    number_reads_decimal_padded(year, widths.0, u16::MAX as nat);
    number_reads_decimal_padded(month, widths.1, u8::MAX as nat);
    number_reads_decimal_padded(day, widths.2, u8::MAX as nat);
    let list = seq![y, m, d];
    assert(list.drop_last() =~= seq![y, m]);
    assert(seq![y, m].drop_last() =~= seq![y]);
    assert(joined(seq![y], seq!['/']) == y);
    assert(joined(seq![y, m], seq!['/']) == y + seq!['/'] + m);
    assert(joined(list, seq!['/']) == written_date(year, month, day, widths));
    assert forall|i: int, j: int|
        0 <= i < list.len() && 0 <= j < list[i].len() implies #[trigger] list[i][j] != '/' by {
        assert(is_digit(list[i][j]));
    }
    lemma_pieces_of_joined(list, '/');
}

/// A date in the form of the site has four digits of the year and two each of
/// month and day.
pub proof fn date_text_digit_by_digit(year: nat, month: nat, day: nat)
    requires
        1000 <= year <= 9999,
        month < 100,
        day < 100,
    ensures
        ({
            let digits = "0123456789"@;
            date_text(year, month, day) == seq![
                digits[year as int / 1000],
                digits[year as int / 100 % 10],
                digits[year as int / 10 % 10],
                digits[year as int % 10],
                '/',
                digits[month as int / 10],
                digits[month as int % 10],
                '/',
                digits[day as int / 10],
                digits[day as int % 10],
            ]
        }),
{
    reveal_strlit("0123456789");
    reveal_strlit("/");
    lemma_four_digits(year);
    lemma_two_digits(year / 100);
    lemma_two_digits(year % 100);
    lemma_two_digits(month);
    lemma_two_digits(day);
    assert(year / 100 / 10 == year / 1000);
    assert(year % 100 / 10 == year / 10 % 10);
    assert(year % 100 % 10 == year % 10);
    let digits = "0123456789"@;
    assert forall|k: nat| k < 10 implies #[trigger] digit(k) == digits[k as int] by {}
    assert(date_text(year, month, day) =~= seq![
        digit(year / 1000),
        digit(year / 100 % 10),
        digit(year / 10 % 10),
        digit(year % 10),
        '/',
        digit(month / 10),
        digit(month % 10),
        '/',
        digit(day / 10),
        digit(day % 10),
    ]);
}

/// The wanted date is taken exactly where it lies in the range that the site
/// offers, by the calendar; where it does not, the first date of the range is.
/// Years have four digits here.
pub proof fn wanted_date_is_taken_in_range(
    first: (nat, nat, nat),
    last: (nat, nat, nat),
    wanted: (nat, nat, nat),
    widths: (nat, nat, nat),
)
    requires
        in_calendar(first.0, first.1, first.2),
        in_calendar(last.0, last.1, last.2),
        in_calendar(wanted.0, wanted.1, wanted.2),
        first.0 <= 9999,
        last.0 <= 9999,
        wanted.0 <= 9999,
    ensures
        ({
            let start = date_text(first.0, first.1, first.2);
            let end = date_text(last.0, last.1, last.2);
            let text = written_date(wanted.0, wanted.1, wanted.2, widths);
            let inside = first.0 * 10000 + first.1 * 100 + first.2 <= wanted.0 * 10000 + wanted.1
                * 100 + wanted.2 <= last.0 * 10000 + last.1 * 100 + last.2;
            &&& date_in_range(start, end, text) == (if inside {
                date_text(wanted.0, wanted.1, wanted.2)
            } else {
                start
            })
            &&& out_of_range(start, end, text) <==> !inside
        }),
{
    dates_are_read(wanted.0, wanted.1, wanted.2, widths);
    date_texts_order_as_dates(first.0, first.1, first.2, wanted.0, wanted.1, wanted.2);
    date_texts_order_as_dates(wanted.0, wanted.1, wanted.2, last.0, last.1, last.2);
}

/// Where what is wanted is no date, the first date that the site offers is
/// taken: a text without two slashes, and one of whose three parts is no number
/// of its range.
pub proof fn other_texts_leave_the_first_date(
    start: Seq<char>,
    end: Seq<char>,
    wanted: Seq<char>,
)
    requires
        pieces(wanted, '/').len() != 3 || number(pieces(wanted, '/')[0], 65535) is None || number(
            pieces(wanted, '/')[1],
            255,
        ) is None || number(pieces(wanted, '/')[2], 255) is None,
    ensures
        date_in_range(start, end, wanted) == start,
{
}

/// These stand around the dates in every notice of a refused date.
pub open spec fn frames_notice(
    a: Seq<char>,
    b: Seq<char>,
    c: Seq<char>,
    d: Seq<char>,
    e: Seq<char>,
) -> bool {
    forall|start: Seq<char>, end: Seq<char>, wanted: Seq<char>| #[trigger]
        range_notice(start, end, wanted) == a + wanted + b + start + c + end + d + start + e
}

/// The notice of a refused date names the wanted date, the range, and the date
/// that is taken, each in full; all else is the same for all dates.
pub proof fn refused_date_is_told()
    ensures
        exists|a: Seq<char>, b: Seq<char>, c: Seq<char>, d: Seq<char>, e: Seq<char>|
            frames_notice(a, b, c, d, e),
{
    assert(frames_notice(
        "Fixed date "@,
        " is outside the site's available range "@,
        " ~ "@,
        "; using "@,
        "."@,
    ));
}

/// Between any two bounds, in the order of strings, a wanted date is taken in
/// the form of the site; outside of them the first bound is. Nothing else ever
/// is.
pub proof fn wanted_date_is_taken_between_bounds(
    start: Seq<char>,
    end: Seq<char>,
    year: nat,
    month: nat,
    day: nat,
    widths: (nat, nat, nat),
)
    requires
        in_calendar(year, month, day),
        year <= 65535,
    ensures
        ({
            let wanted = written_date(year, month, day, widths);
            let date = date_text(year, month, day);
            &&& at_most(start, date) && at_most(date, end) ==> date_in_range(start, end, wanted)
                == date
            &&& !at_most(start, date) || !at_most(date, end) ==> date_in_range(start, end, wanted)
                == start
            &&& out_of_range(start, end, wanted) <==> !at_most(start, date) || !at_most(date, end)
        }),
{
    dates_are_read(year, month, day, widths);
}

} // verus!
