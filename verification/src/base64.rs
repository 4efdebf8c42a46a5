//! Base64 with the standard alphabet and padding.
use vstd::prelude::*;

verus! {

/// The letter of the Base64 alphabet that stands for six bits: `A` to `Z`, `a`
/// to `z`, `0` to `9`, `+` and `/`.
pub open spec fn letter(v: int) -> char {
    if v < 26 {
        ((v + 65) as u32) as char
    } else if v < 52 {
        ((v - 26 + 97) as u32) as char
    } else if v < 62 {
        ((v - 52 + 48) as u32) as char
    } else if v == 62 {
        '+'
    } else {
        '/'
    }
}

/// The byte at `i`, or 0 where there is none.
pub open spec fn byte_at(data: Seq<u8>, i: int) -> int {
    if i < data.len() {
        data[i] as int
    } else {
        0
    }
}

/// The four letters for the first three bytes of `data`: each stands for six
/// of their 24 bits, and a `=` for six bits of which none is there.
pub open spec fn quartet(data: Seq<u8>) -> Seq<char> {
    let b0 = byte_at(data, 0);
    let b1 = byte_at(data, 1);
    let b2 = byte_at(data, 2);
    seq![
        letter(b0 / 4),
        letter((b0 % 4) * 16 + b1 / 16),
        if data.len() > 1 {
            letter((b1 % 16) * 4 + b2 / 64)
        } else {
            '='
        },
        if data.len() > 2 {
            letter(b2 % 64)
        } else {
            '='
        },
    ]
}

/// `data` in Base64: four letters for every three bytes begun.
pub open spec fn base64(data: Seq<u8>) -> Seq<char>
    decreases data.len(),
{
    if data.len() == 0 {
        seq![]
    } else if data.len() <= 3 {
        quartet(data)
    } else {
        quartet(data) + base64(data.skip(3))
    }
}

/// The six bits that a letter of the alphabet stands for.
pub open spec fn letter_value(c: char) -> int {
    let n = c as u32 as int;
    if 'A' <= c <= 'Z' {
        n - 65
    } else if 'a' <= c <= 'z' {
        n - 97 + 26
    } else if '0' <= c <= '9' {
        n - 48 + 52
    } else if c == '+' {
        62
    } else {
        63
    }
}

/// What a reader of Base64 makes of four letters: up to three bytes, one fewer
/// for each `=`.
pub open spec fn quartet_read(s: Seq<char>) -> Seq<u8> {
    let v0 = letter_value(s[0]);
    let v1 = letter_value(s[1]);
    let v2 = letter_value(s[2]);
    let v3 = letter_value(s[3]);
    let b0 = (v0 * 4 + v1 / 16) as u8;
    let b1 = ((v1 % 16) * 16 + v2 / 4) as u8;
    let b2 = ((v2 % 4) * 64 + v3) as u8;
    if s[2] == '=' {
        seq![b0]
    } else if s[3] == '=' {
        seq![b0, b1]
    } else {
        seq![b0, b1, b2]
    }
}

/// What a reader of Base64 makes of a text, four letters at a time.
pub open spec fn base64_read(s: Seq<char>) -> Seq<u8>
    decreases s.len(),
{
    if s.len() < 4 {
        seq![]
    } else {
        quartet_read(s) + base64_read(s.skip(4))
    }
}

proof fn lemma_letter(v: int)
    requires
        0 <= v < 64,
    ensures
        letter_value(letter(v)) == v,
        letter(v) != '=',
{
}

proof fn lemma_quartet(data: Seq<u8>, rest: Seq<char>)
    requires
        0 < data.len(),
    ensures
        quartet_read(quartet(data) + rest) == data.subrange(
            0,
            if data.len() < 3 {
                data.len() as int
            } else {
                3
            },
        ),
{
    let b0 = byte_at(data, 0);
    let b1 = byte_at(data, 1);
    let b2 = byte_at(data, 2);
    let v0 = b0 / 4;
    let v1 = (b0 % 4) * 16 + b1 / 16;
    let v2 = (b1 % 16) * 4 + b2 / 64;
    let v3 = b2 % 64;
    lemma_letter(v0);
    lemma_letter(v1);
    lemma_letter(v2);
    lemma_letter(v3);
    assert(v0 * 4 + v1 / 16 == b0);
    assert(v1 % 16 == b1 / 16);
    assert(v2 / 4 == b1 % 16);
    assert(v2 % 4 == b2 / 64);
    let s = quartet(data) + rest;
    assert(s[0] == letter(v0));
    assert(s[1] == letter(v1));
    if data.len() == 1 {
        assert(s[2] == '=');
        assert(quartet_read(s) =~= data.subrange(0, 1));
    } else if data.len() == 2 {
        assert(s[2] == letter(v2));
        assert(s[3] == '=');
        assert(quartet_read(s) =~= data.subrange(0, 2));
    } else {
        assert(s[2] == letter(v2));
        assert(s[3] == letter(v3));
        assert(quartet_read(s) =~= data.subrange(0, 3));
    }
}

/// Reading what was written in Base64 gives the data back, whatever they are.
pub proof fn base64_read_undoes_base64(data: Seq<u8>)
    ensures
        base64_read(base64(data)) == data,
    decreases data.len(),
{
    if data.len() == 0 {
        assert(base64_read(base64(data)) =~= data);
    } else if data.len() <= 3 {
        lemma_quartet(data, seq![]);
        let s = quartet(data);
        assert(s + seq![] =~= s);
        assert(s.skip(4) =~= seq![]);
        assert(base64_read(s.skip(4)) =~= seq![]);
        assert(data.subrange(0, data.len() as int) =~= data);
        assert(quartet_read(s) + seq![] =~= data);
    } else {
        let rest = base64(data.skip(3));
        let s = quartet(data) + rest;
        lemma_quartet(data, rest);
        base64_read_undoes_base64(data.skip(3));
        assert(s.skip(4) =~= rest);
        assert(data.subrange(0, 3) + data.skip(3) =~= data);
    }
}

/// The text has four letters for every three bytes begun.
pub proof fn base64_length(data: Seq<u8>)
    ensures
        base64(data).len() == (data.len() + 2) / 3 * 4,
    decreases data.len(),
{
    if data.len() > 3 {
        base64_length(data.skip(3));
    }
}

fn letter_of(v: u8) -> (r: char)
    requires
        v < 64,
    ensures
        r == letter(v as int),
{
    if v < 26 {
        (v + 65) as char
    } else if v < 52 {
        (v - 26 + 97) as char
    } else if v < 62 {
        (v - 52 + 48) as char
    } else if v == 62 {
        '+'
    } else {
        '/'
    }
}

/// `data` in Base64.
pub fn base64_encode(data: &[u8]) -> (r: String)
    ensures
        r@ == base64(data@),
{
    let mut out: String = String::new();
    let mut i: usize = 0;
    proof {
        assert(data@.skip(0) =~= data@);
        assert(out@ + base64(data@) =~= base64(data@));
    }
    while i < data.len()
        invariant
            i <= data.len(),
            out@ + base64(data@.skip(i as int)) == base64(data@),
        decreases data.len() - i,
    {
        let ghost rest = data@.skip(i as int);
        let ghost before = out@;
        let left: usize = data.len() - i;
        let b0: u8 = data[i];
        let b1: u8 = if left > 1 { data[i + 1] } else { 0 };
        let b2: u8 = if left > 2 { data[i + 2] } else { 0 };
        assert(b0 >> 2 == b0 / 4 && b0 / 4 < 64) by (bit_vector);
        assert((b0 & 3) << 4 | (b1 >> 4) == (b0 % 4) * 16 + b1 / 16 && (b0 % 4) * 16 + b1 / 16
            < 64) by (bit_vector);
        assert((b1 & 15) << 2 | (b2 >> 6) == (b1 % 16) * 4 + b2 / 64 && (b1 % 16) * 4 + b2 / 64
            < 64) by (bit_vector);
        assert(b2 & 63 == b2 % 64 && b2 % 64 < 64) by (bit_vector);
        out.push(letter_of(b0 >> 2));
        out.push(letter_of((b0 & 3) << 4 | (b1 >> 4)));
        if left > 1 {
            out.push(letter_of((b1 & 15) << 2 | (b2 >> 6)));
        } else {
            out.push('=');
        }
        if left > 2 {
            out.push(letter_of(b2 & 63));
        } else {
            out.push('=');
        }
        proof {
            assert(rest[0] == b0);
            assert(left > 1 ==> rest[1] == b1);
            assert(left > 2 ==> rest[2] == b2);
            assert(out@ =~= before + quartet(rest));
        }
        if left > 3 {
            i = i + 3;
            proof {
                assert(rest.skip(3) =~= data@.skip(i as int));
                assert(before + (quartet(rest) + base64(rest.skip(3))) =~= out@ + base64(
                    rest.skip(3),
                ));
            }
        } else {
            i = data.len();
            proof {
                assert(data@.skip(i as int) =~= seq![]);
                assert(out@ + base64(data@.skip(i as int)) =~= out@);
            }
        }
    }
    assert(data@.skip(i as int) =~= seq![]);
    assert(out@ + base64(data@.skip(i as int)) =~= out@);
    out
}

/// The alphabet of Base64, in the order of what its letters stand for.
pub open spec fn alphabet() -> Seq<char> {
    "ABCDEFGHIJKLMNOPQRSTUVWXYZabcdefghijklmnopqrstuvwxyz0123456789+/"@
}

spec fn letters_up_to(n: nat) -> bool
    decreases n,
{
    n == 0 || (letter(n - 1) == alphabet()[n - 1] && letters_up_to((n - 1) as nat))
}

proof fn lemma_letters_up_to(n: nat)
    requires
        letters_up_to(n),
    ensures
        forall|v: int| 0 <= v < n ==> #[trigger] letter(v) == alphabet()[v],
    decreases n,
{
    if n > 0 {
        lemma_letters_up_to((n - 1) as nat);
    }
}

proof fn lemma_alphabet()
    ensures
        forall|v: int| 0 <= v < 64 ==> #[trigger] letter(v) == alphabet()[v],
{
    reveal_strlit("ABCDEFGHIJKLMNOPQRSTUVWXYZabcdefghijklmnopqrstuvwxyz0123456789+/");
    reveal_with_fuel(letters_up_to, 65);
    assert(letters_up_to(64));
    lemma_letters_up_to(64);
}

/// Three bytes become four letters: the letters' places in the alphabet, six
/// bits each, are the bits of the bytes.
pub proof fn three_bytes_become_four_letters(data: Seq<u8>)
    requires
        data.len() == 3,
    ensures
        exists|a: int, b: int, c: int, d: int|
            {
                &&& 0 <= a < 64 && 0 <= b < 64 && 0 <= c < 64 && 0 <= d < 64
                &&& a * 262144 + b * 4096 + c * 64 + d == data[0] * 65536 + data[1] * 256 + data[2]
                &&& base64(data) == #[trigger] four_letters(a, b, c, d)
            },
{
    lemma_alphabet();
    let (x, y, z) = (data[0] as int, data[1] as int, data[2] as int);
    let (a, b, c, d) = (x / 4, (x % 4) * 16 + y / 16, (y % 16) * 4 + z / 64, z % 64);
    assert(base64(data) =~= four_letters(a, b, c, d));
}

/// The letters at four places of the alphabet.
pub open spec fn four_letters(a: int, b: int, c: int, d: int) -> Seq<char> {
    seq![alphabet()[a], alphabet()[b], alphabet()[c], alphabet()[d]]
}

/// One byte and two bytes at the end become two and three letters, their bits
/// filled up with zeros, and `=` up to four.
pub proof fn last_bytes_are_padded(data: Seq<u8>)
    requires
        1 <= data.len() <= 2,
    ensures
        data.len() == 1 ==> exists|a: int, b: int|
            {
                &&& 0 <= a < 64 && 0 <= b < 64
                &&& a * 64 + b == data[0] * 16
                &&& base64(data) == seq![
                    #[trigger] alphabet()[a],
                    #[trigger] alphabet()[b],
                    '=',
                    '=',
                ]
            },
        data.len() == 2 ==> exists|a: int, b: int, c: int|
            {
                &&& 0 <= a < 64 && 0 <= b < 64 && 0 <= c < 64
                &&& a * 4096 + b * 64 + c == (data[0] * 256 + data[1]) * 4
                &&& base64(data) == seq![
                    #[trigger] alphabet()[a],
                    #[trigger] alphabet()[b],
                    #[trigger] alphabet()[c],
                    '=',
                ]
            },
{
    lemma_alphabet();
    let x = data[0] as int;
    if data.len() == 1 {
        let (a, b) = (x / 4, (x % 4) * 16);
        assert(base64(data) =~= seq![alphabet()[a], alphabet()[b], '=', '=']);
    } else {
        let y = data[1] as int;
        let (a, b, c) = (x / 4, (x % 4) * 16 + y / 16, (y % 16) * 4);
        assert(base64(data) =~= seq![alphabet()[a], alphabet()[b], alphabet()[c], '=']);
    }
}

/// Data can be written part by part, where each part but the last has whole
/// threes of bytes.
pub proof fn parts_are_written_one_by_one(a: Seq<u8>, b: Seq<u8>)
    requires
        a.len() % 3 == 0,
    ensures
        base64(a + b) == base64(a) + base64(b),
    decreases a.len(),
{
    if a.len() == 0 {
        assert(a + b =~= b);
        assert(base64(a) + base64(b) =~= base64(b));
    } else {
        let rest = a.skip(3);
        parts_are_written_one_by_one(rest, b);
        let s = a + b;
        assert(quartet(s) =~= quartet(a));
        assert(s.skip(3) =~= rest + b);
        if a.len() == 3 {
            assert(rest =~= seq![]);
            assert(rest + b =~= b);
            if b.len() == 0 {
                assert(s =~= a);
                assert(base64(a) + base64(b) =~= base64(a));
            }
        } else {
            assert(quartet(a) + (base64(rest) + base64(b)) =~= quartet(a) + base64(rest) + base64(
                b,
            ));
        }
    }
}

} // verus!
