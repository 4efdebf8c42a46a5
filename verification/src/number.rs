//! Decimal numbers: how an unsigned integer is written and how it is read.
use vstd::prelude::*;
use vstd::string::*;
use crate::text::chars_of;

verus! {

/// The decimal digit with the value `d`.
pub open spec fn digit(d: nat) -> char {
    ((48 + d) as u32) as char
}

pub open spec fn is_digit(c: char) -> bool {
    '0' <= c <= '9'
}

/// The value of a decimal digit.
pub open spec fn digit_value(c: char) -> nat {
    (c as u32 - 48) as nat
}

/// `n` in decimal digits, with no leading zero but for 0 itself.
pub open spec fn decimal(n: nat) -> Seq<char>
    decreases n,
{
    if n < 10 {
        seq![digit(n)]
    } else {
        decimal(n / 10).push(digit(n % 10))
    }
}

/// `n` in decimal digits, with zeros before it up to a width of `width`.
pub open spec fn decimal_padded(n: nat, width: nat) -> Seq<char> {
    let d = decimal(n);
    if d.len() < width {
        Seq::new((width - d.len()) as nat, |i: int| '0') + d
    } else {
        d
    }
}

pub open spec fn all_digits(s: Seq<char>) -> bool {
    forall|i: int| 0 <= i < s.len() ==> is_digit(#[trigger] s[i])
}

/// The value that a sequence of decimal digits stands for.
pub open spec fn digits_value(s: Seq<char>) -> nat
    decreases s.len(),
{
    if s.len() == 0 {
        0
    } else {
        digits_value(s.drop_last()) * 10 + digit_value(s.last())
    }
}

/// `s` without one plus sign at its beginning.
pub open spec fn without_plus(s: Seq<char>) -> Seq<char> {
    if s.len() > 0 && s[0] == '+' {
        s.drop_first()
    } else {
        s
    }
}

/// The number that `s` writes: an optional plus sign and one or more decimal
/// digits, the value at most `max`. Anything else is no number.
pub open spec fn number(s: Seq<char>, max: nat) -> Option<nat> {
    let d = without_plus(s);
    if d.len() > 0 && all_digits(d) && digits_value(d) <= max {
        Some(digits_value(d))
    } else {
        None
    }
}

/// A decimal expansion has a digit, and digits only.
pub proof fn lemma_decimal_digits(n: nat)
    ensures
        decimal(n).len() > 0,
        all_digits(decimal(n)),
        digits_value(decimal(n)) == n,
    decreases n,
{
    if n < 10 {
        let s = seq![digit(n)];
        assert(s.drop_last() =~= Seq::<char>::empty());
        assert(digits_value(s.drop_last()) == 0);
    } else {
        lemma_decimal_digits(n / 10);
        let s = decimal(n);
        assert(s.drop_last() =~= decimal(n / 10));
    }
}

/// Reading a written number gives the number back, if it is in range.
pub proof fn number_reads_decimal(n: nat, max: nat)
    requires
        n <= max,
    ensures
        number(decimal(n), max) == Some(n),
{
    lemma_decimal_digits(n);
    assert(is_digit(decimal(n)[0]));
}

/// Zeros before a written number do not change what is read.
pub proof fn number_reads_decimal_padded(n: nat, width: nat, max: nat)
    requires
        n <= max,
    ensures
        number(decimal_padded(n, width), max) == Some(n),
{
    lemma_decimal_digits(n);
    let d = decimal(n);
    if d.len() < width {
        let k = (width - d.len()) as nat;
        lemma_leading_zeros(k, d);
        assert(decimal_padded(n, width)[0] == '0');
    } else {
        assert(is_digit(d[0]));
    }
}

proof fn lemma_leading_zeros(k: nat, d: Seq<char>)
    requires
        all_digits(d),
    ensures
        all_digits(Seq::new(k, |i: int| '0') + d),
        digits_value(Seq::new(k, |i: int| '0') + d) == digits_value(d),
    decreases k + d.len(),
{
    let z = Seq::new(k, |i: int| '0');
    let s = z + d;
    if d.len() > 0 {
        let e = d.drop_last();
        assert forall|i: int| 0 <= i < e.len() implies is_digit(#[trigger] e[i]) by {
            assert(e[i] == d[i]);
        }
        lemma_leading_zeros(k, e);
        assert(s.drop_last() =~= z + e);
        assert forall|i: int| 0 <= i < s.len() implies is_digit(#[trigger] s[i]) by {
            if i >= k {
                assert(s[i] == d[i - k]);
            }
        }
    } else if k > 0 {
        let y = Seq::new((k - 1) as nat, |i: int| '0');
        lemma_leading_zeros((k - 1) as nat, d);
        assert(s.drop_last() =~= y + d);
    } else {
        assert(s =~= d);
    }
}

fn digit_char(d: u8) -> (r: char)
    requires
        d < 10,
    ensures
        r == digit(d as nat),
{
    (48u8 + d) as char
}

fn digit_of(c: char) -> (r: Option<u64>)
    ensures
        match r {
            Some(d) => is_digit(c) && d == digit_value(c) && d < 10,
            None => !is_digit(c),
        },
{
    let n: u32 = c as u32;
    if 48 <= n && n <= 57 {
        Some((n - 48) as u64)
    } else {
        None
    }
}

/// `n` in decimal digits.
pub fn write_decimal(n: u128) -> (r: String)
    ensures
        r@ == decimal(n as nat),
    decreases n,
{
    if n < 10 {
        let mut s: String = String::new();
        s.push(digit_char(n as u8));
        assert(s@ =~= decimal(n as nat));
        s
    } else {
        let mut s: String = write_decimal(n / 10);
        s.push(digit_char((n % 10) as u8));
        s
    }
}

/// `n` in decimal digits, with zeros before it up to a width of `width`.
pub fn write_decimal_padded(n: u128, width: usize) -> (r: String)
    ensures
        r@ == decimal_padded(n as nat, width as nat),
{
    let d: String = write_decimal(n);
    let len: usize = d.as_str().unicode_len();
    let mut s: String = String::new();
    let mut k: usize = len;
    proof {
        assert(s@ =~= Seq::new(0, |i: int| '0'));
    }
    while k < width
        invariant
            len <= k,
            len < width ==> k <= width,
            len >= width ==> k == len,
            s@ == Seq::new((k - len) as nat, |i: int| '0'),
        decreases width - k,
    {
        s.push('0');
        k = k + 1;
        assert(s@ =~= Seq::new((k - len) as nat, |i: int| '0'));
    }
    s.append(d.as_str());
    assert(s@ =~= decimal_padded(n as nat, width as nat));
    s
}

proof fn lemma_digits_value_grows(s: Seq<char>, k: int)
    requires
        0 <= k <= s.len(),
    ensures
        digits_value(s.subrange(0, k)) <= digits_value(s),
    decreases s.len() - k,
{
    if k == s.len() {
        assert(s.subrange(0, k) =~= s);
    } else {
        let t = s.subrange(0, k + 1);
        assert(t.drop_last() =~= s.subrange(0, k));
        lemma_digits_value_grows(s, k + 1);
    }
}

/// The number that `s` writes, if it is one and at most `max`.
pub fn read_number(s: &str, max: u64) -> (r: Option<u64>)
    ensures
        match r {
            Some(n) => number(s@, max as nat) == Some(n as nat),
            None => number(s@, max as nat) is None,
        },
{
    let v: Vec<char> = chars_of(s);
    let start: usize = if v.len() > 0 && v[0] == '+' { 1 } else { 0 };
    let ghost d = without_plus(s@);
    if start == v.len() {
        return None;
    }
    let mut i: usize = start;
    let mut acc: u64 = 0;
    proof {
        assert(d =~= v@.subrange(start as int, v@.len() as int));
        assert(d.subrange(0, 0) =~= Seq::<char>::empty());
    }
    while i < v.len()
        invariant
            v@ == s@,
            d == without_plus(s@),
            d == v@.subrange(start as int, v@.len() as int),
            0 < d.len(),
            start <= i <= v.len(),
            acc <= max,
            acc == digits_value(d.subrange(0, i - start)),
            forall|j: int| 0 <= j < i - start ==> is_digit(#[trigger] d[j]),
        decreases v.len() - i,
    {
        let c: char = v[i];
        let ghost k = i - start;
        assert(d[k] == c);
        let value: u64 = match digit_of(c) {
            Some(value) => value,
            None => {
                assert(!is_digit(d[k]));
                return None;
            },
        };
        let next: u128 = acc as u128 * 10 + value as u128;
        proof {
            let t = d.subrange(0, k + 1);
            assert(t.drop_last() =~= d.subrange(0, k));
            assert(next == digits_value(t));
            lemma_digits_value_grows(d, k + 1);
        }
        if next > max as u128 {
            return None;
        }
        acc = next as u64;
        i = i + 1;
    }
    assert(d.subrange(0, d.len() as int) =~= d);
    Some(acc)
}

/// A digit behind a written number makes ten times as much of it, and the
/// digit.
pub proof fn decimal_grows_by_digits(n: nat, d: nat)
    requires
        d < 10,
    ensures
        decimal(d) == seq!["0123456789"@[d as int]],
        n > 0 ==> decimal(10 * n + d) == decimal(n).push("0123456789"@[d as int]),
{
    reveal_strlit("0123456789");
    assert((10 * n + d) / 10 == n);
    assert((10 * n + d) % 10 == d);
    assert(digit(d) == "0123456789"@[d as int]);
}

/// A padded number is as wide as was asked for, or as the number where this is
/// wider; it ends with the number, and before it stand zeros only.
pub proof fn zeros_stand_before(n: nat, width: nat)
    ensures
        decimal_padded(n, width).len() == (if decimal(n).len() < width {
            width
        } else {
            decimal(n).len()
        }),
        decimal_padded(n, width).skip(decimal_padded(n, width).len() - decimal(n).len()) == decimal(
            n,
        ),
        forall|i: int|
            0 <= i < decimal_padded(n, width).len() - decimal(n).len()
                ==> #[trigger] decimal_padded(n, width)[i] == '0',
{
    assert(decimal_padded(n, width).skip(decimal_padded(n, width).len() - decimal(n).len())
        =~= decimal(n));
}

/// What is read of digits: a digit more makes ten times as much, and the digit;
/// a plus sign before them changes nothing; a value above the limit is none.
pub proof fn numbers_are_read_by_digits(s: Seq<char>, c: char, max: nat)
    requires
        '0' <= c <= '9',
        forall|i: int| 0 <= i < s.len() ==> '0' <= #[trigger] s[i] <= '9',
    ensures
        ({
            let d = (c as u32 - '0' as u32) as nat;
            &&& s.len() == 0 ==> number(s.push(c), max) == (if d <= max {
                Some(d)
            } else {
                None
            })
            &&& s.len() > 0 ==> number(s.push(c), max) == (match number(s, max) {
                Some(v) => if 10 * v + d <= max {
                    Some(10 * v + d)
                } else {
                    None
                },
                None => None,
            })
            &&& number(seq!['+'] + s.push(c), max) == number(s.push(c), max)
        }),
{
    let t = s.push(c);
    assert(t.drop_last() =~= s);
    assert(t[0] != '+') by {
        if s.len() > 0 {
            assert(t[0] == s[0]);
        }
    }
    assert(all_digits(t)) by {
        assert forall|i: int| 0 <= i < t.len() implies is_digit(#[trigger] t[i]) by {
            if i < s.len() {
                assert(t[i] == s[i]);
            }
        }
    }
    assert(all_digits(s));
    assert((seq!['+'] + t).drop_first() =~= t);
    if s.len() == 0 {
        assert(digits_value(s) == 0);
    } else {
        assert(s[0] != '+');
    }
}

/// Nothing but digits with at most one plus sign before them is a number.
pub proof fn other_texts_are_no_numbers(s: Seq<char>, i: int, max: nat)
    requires
        s.len() == 0 || s == seq!['+'] || (0 <= i < s.len() && !('0' <= s[i] <= '9') && !(i == 0
            && s[i] == '+')),
    ensures
        number(s, max) is None,
{
    let d = without_plus(s);
    if s.len() > 0 && s != seq!['+'] {
        if s[0] == '+' {
            assert(d[i - 1] == s[i]);
        } else {
            assert(d[i] == s[i]);
        }
    } else {
        assert(d.len() == 0);
    }
}

} // verus!
